//! Master-side driver core for a half-duplex, multi-drop serial servo bus.
//!
//! The crate contains the wire-level packet codec (framing and checksum),
//! the timeout-governed receive state machine with header resynchronization,
//! single-device request/response correlation, and the batched sync-read /
//! sync-write group engines.  Everything here is pure protocol logic: the
//! physical byte channel and the wall clock are supplied by the caller, which
//! feeds received bytes and the current time into the state machines.

pub mod comm;
pub mod exchange;
pub mod group_sync_read;
pub mod group_sync_write;
pub mod handler;
pub mod packet;
pub mod rx;
pub mod timing;

pub use comm::CommResult;
pub use exchange::Bus;
pub use exchange::PendingWrite;
pub use exchange::Receiving;
pub use exchange::RxStep;
pub use exchange::TxOutcome;
pub use group_sync_read::GroupSyncRead;
pub use group_sync_read::SyncReadCollector;
pub use group_sync_write::GroupSyncWrite;
pub use handler::ProtocolPacketHandler;
pub use rx::RxEngine;
pub use timing::PacketTimer;
