//! Per-transaction timeout budget.
//!
//! The budget is derived from the byte transmission time of the configured
//! baud rate and a fixed latency allowance, armed at the start of each
//! transaction, and consumed exactly once: after it first reports expiry it
//! stays at zero until re-armed.  The current time is injected by the
//! caller in microseconds, which keeps the whole model executable and
//! verifiable without a clock.

use vstd::prelude::*;

verus! {

/// Default baud rate of the bus.
pub const DEFAULT_BAUDRATE: u32 = 1000000;

/// Fixed latency allowance added to every budget, in microseconds.
pub const LATENCY_US: u64 = 50000;

/// Bits on the wire per byte: one start bit, eight data bits, one stop bit.
pub const BITS_PER_BYTE: u64 = 10;

/// Timeout clock for one transaction: armed with an expected packet length,
/// polled with the current time.
pub struct PacketTimer {
    tx_time_per_byte_us: u64,
    start_us: u64,
    budget_us: u64,
}

impl PacketTimer {
    /// Microseconds one byte occupies on the wire.
    pub closed spec fn tx_us(&self) -> int {
        self.tx_time_per_byte_us as int
    }

    /// Time the current budget was armed at.
    pub closed spec fn start(&self) -> int {
        self.start_us as int
    }

    /// Remaining budget measured from `start`.
    pub closed spec fn budget(&self) -> int {
        self.budget_us as int
    }

    /// The per-byte time stays small enough for budget arithmetic.
    pub open spec fn wf(&self) -> bool {
        0 <= self.tx_us() <= 10000000
    }

    /// Time elapsed since the budget was armed; a clock reading from before
    /// the arming counts as no elapsed time.
    pub open spec fn elapsed(&self, now_us: u64) -> int {
        if now_us >= self.start() {
            now_us - self.start()
        } else {
            0
        }
    }

    /// The armed budget for an expected total packet length: transmission
    /// time for the packet plus three bytes of slack, plus the fixed
    /// latency allowance.
    pub open spec fn budget_for(&self, packet_length: int) -> int {
        self.tx_us() * (packet_length + 3) + LATENCY_US
    }

    /// A timer for the given baud rate, with no budget armed.
    pub fn new(baudrate: u32) -> (r: Self)
        requires
            baudrate >= 1,
        ensures
            r.tx_us() == BITS_PER_BYTE * 1000000int / baudrate as int,
            r.budget() == 0,
            r.start() == 0,
            r.wf(),
    {
        PacketTimer {
            tx_time_per_byte_us: BITS_PER_BYTE * 1000000 / (baudrate as u64),
            start_us: 0,
            budget_us: 0,
        }
    }

    /// Arm the budget for a packet of the given expected total length,
    /// restarting the clock at `now_us`.
    pub fn set_packet_timeout(&mut self, packet_length: usize, now_us: u64)
        requires
            old(self).wf(),
            packet_length <= 100000,
        ensures
            final(self).wf(),
            final(self).tx_us() == old(self).tx_us(),
            final(self).start() == now_us,
            final(self).budget() == old(self).budget_for(packet_length as int),
            final(self).budget() >= 0,
    {
        self.start_us = now_us;
        proof {
            vstd::arithmetic::mul::lemma_mul_upper_bound(
                self.tx_us(),
                10000000int,
                packet_length + 3,
                100003int,
            );
        }
        self.budget_us = self.tx_time_per_byte_us * ((packet_length as u64) + 3) + LATENCY_US;
    }

    /// Arm a fixed budget of the given number of milliseconds, restarting
    /// the clock at `now_us`.
    pub fn set_packet_timeout_millis(&mut self, msec: u64, now_us: u64)
        requires
            old(self).wf(),
            msec <= 1000000000,
        ensures
            final(self).wf(),
            final(self).tx_us() == old(self).tx_us(),
            final(self).start() == now_us,
            final(self).budget() == msec * 1000,
            final(self).budget() >= 0,
    {
        self.start_us = now_us;
        self.budget_us = msec * 1000;
    }

    /// The budget has been consumed at the given clock reading.
    pub open spec fn expired(&self, now_us: u64) -> bool {
        self.elapsed(now_us) > self.budget()
    }

    /// True exactly once the elapsed time exceeds the budget; expiry
    /// resets the remaining budget to zero, so later polls keep reporting
    /// expiry instead of re-arming.
    pub fn is_packet_timeout(&mut self, now_us: u64) -> (r: bool)
        ensures
            r == old(self).expired(now_us),
            final(self).tx_us() == old(self).tx_us(),
            final(self).start() == old(self).start(),
            final(self).budget() == if r {
                0int
            } else {
                old(self).budget()
            },
            final(self).budget() >= 0,
            old(self).budget() >= 0,
    {
        let elapsed = if now_us >= self.start_us {
            now_us - self.start_us
        } else {
            0
        };
        if elapsed > self.budget_us {
            self.budget_us = 0;
            true
        } else {
            false
        }
    }
}

} // verus!
