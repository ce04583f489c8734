//! Transport-level outcome of a bus transaction.

use vstd::prelude::*;

verus! {

/// Result of one complete bus transaction (transmit, receive, or both).
///
/// Exactly one outcome is produced per transaction.  `Success` means the
/// transport and framing layers worked; a device-reported status byte is a
/// separate channel and may be non-zero even on `Success`.
#[derive(Clone, Copy, Debug, PartialEq, Eq, Structural)]
pub enum CommResult {
    /// The transaction completed and, where a reply was expected, a frame
    /// with a valid checksum arrived.
    Success,
    /// The transport was already held by another transaction.
    PortBusy,
    /// The outgoing frame exceeds the maximum transmissible size; nothing
    /// was written.
    TxError,
    /// The transport accepted fewer bytes than the frame holds.
    TxFail,
    /// The underlying read primitive itself failed.
    RxFail,
    /// Nothing at all was received within the timeout budget.
    RxTimeout,
    /// Bytes arrived but the frame was malformed, truncated past the
    /// budget, or failed its checksum.
    RxCorrupt,
    /// The operation is structurally impossible: a broadcast id where a
    /// reply is required, or an empty batch group.
    NotAvailable,
}

impl CommResult {
    /// True exactly on the `Success` outcome.
    pub fn is_success(&self) -> (r: bool)
        ensures
            r == (*self == CommResult::Success),
    {
        *self == CommResult::Success
    }
}

} // verus!
