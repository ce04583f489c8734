//! Single-device request/response exchange.
//!
//! A transaction is driven step by step: a request is built, the bus is
//! acquired and the frame bytes handed to the caller for transmission, the
//! write outcome is reported back, and — where a reply is owed — received
//! bytes are fed in until a frame from the addressed device arrives or the
//! timeout budget is consumed.  Every decision lives here; the caller only
//! moves bytes and reports the clock.

use vstd::prelude::*;

use crate::comm::CommResult;
use crate::packet::frame_for;
use crate::packet::make_frame;
use crate::packet::BROADCAST_ID;
use crate::packet::INST_PING;
use crate::packet::INST_READ;
use crate::packet::INST_SYNC_READ;
use crate::packet::INST_SYNC_WRITE;
use crate::packet::INST_WRITE;
use crate::packet::TXPACKET_MAX_LEN;
use crate::rx::rx_machine;
use crate::rx::lemma_rx_machine_success_sound;
use crate::rx::RxEngine;
use crate::rx::RxPoll;
use crate::timing::PacketTimer;

verus! {

/// Exclusive-use marker for the physical channel: at most one transaction
/// may hold the bus at a time.
pub struct Bus {
    /// Whether a transaction currently holds the channel.
    pub is_using: bool,
}

impl Bus {
    /// A released bus.
    pub fn new() -> (r: Self)
        ensures
            !r.is_using,
    {
        Bus { is_using: false }
    }
}

/// What kind of reply a request expects after transmission.
#[derive(Clone, Copy, Debug, PartialEq, Eq, Structural)]
pub enum ReplyMode {
    /// A status frame from the addressed device (unless broadcast).
    AwaitStatus,
    /// No reply: the bus is released right after the send.
    NoReply,
    /// No status frame, but the bus stays held for a batch response.
    HoldBus,
}

/// A request frame built and not yet transmitted.
pub struct PendingWrite {
    id: u8,
    inst: u8,
    params: Vec<u8>,
    reply: ReplyMode,
}

/// Outcome of the transmission step.
pub enum TxOutcome {
    /// The transport did not accept the whole frame, or was busy; the bus
    /// is released.
    Failed(CommResult),
    /// The frame went out and no reply is owed; the bus is released.
    Sent,
    /// The frame went out, no status frame is owed, and the bus stays held
    /// for a batch response.
    SentHolding,
    /// The frame went out and the addressed device owes a status frame;
    /// the timeout budget is armed and the bus stays held.
    AwaitReply(Receiving),
}

/// The receive half of a transaction: correlates incoming frames with the
/// addressed device, skipping stale frames from other ids.
pub struct Receiving {
    target_id: u8,
    engine: RxEngine,
}

/// One step of the receive half.
pub enum RxStep {
    /// No decision yet: read more bytes and poll again.
    NeedMore,
    /// The transaction ended: the bytes received, the outcome, and the
    /// device-reported error byte (zero unless a matching frame arrived).
    Done(Vec<u8>, CommResult, u8),
}

impl PendingWrite {
    /// The addressed device id.
    pub closed spec fn target(&self) -> u8 {
        self.id
    }

    /// The instruction byte.
    pub closed spec fn inst(&self) -> u8 {
        self.inst
    }

    /// The parameter bytes following the instruction.
    pub closed spec fn params(&self) -> Seq<u8> {
        self.params@
    }

    /// The reply shape this request expects.
    pub closed spec fn mode(&self) -> ReplyMode {
        self.reply
    }

    /// The complete frame this request puts on the wire.
    pub open spec fn frame(&self) -> Seq<u8> {
        frame_for(self.target(), self.inst(), self.params())
    }

    /// Requests are built with the parameters their instruction demands.
    pub open spec fn wf(&self) -> bool {
        self.inst() == INST_READ ==> self.params().len() >= 2
    }

    /// Expected total length of the reply frame, used to arm the timeout:
    /// a read reply carries the requested bytes, any other status frame is
    /// minimal.
    pub open spec fn reply_len(&self) -> int {
        if self.inst() == INST_READ {
            self.params()[1] + 6
        } else {
            6
        }
    }

    /// Acquire the bus and produce the exact bytes to put on the wire.
    /// A held bus refuses with `PortBusy`; a frame over the transmissible
    /// maximum refuses with `TxError` before anything is written.
    pub fn start(&self, bus: &mut Bus) -> (r: Result<Vec<u8>, CommResult>)
        ensures
            old(bus).is_using ==> r is Err && r->Err_0 == CommResult::PortBusy && final(bus).is_using,
            !old(bus).is_using && self.params().len() + 6 > TXPACKET_MAX_LEN ==> r is Err
                && r->Err_0 == CommResult::TxError && !final(bus).is_using,
            !old(bus).is_using && self.params().len() + 6 <= TXPACKET_MAX_LEN ==> r is Ok
                && r->Ok_0@ == self.frame() && final(bus).is_using,
    {
        if bus.is_using {
            return Err(CommResult::PortBusy);
        }
        bus.is_using = true;
        if self.params.len() > TXPACKET_MAX_LEN - 6 {
            bus.is_using = false;
            return Err(CommResult::TxError);
        }
        Ok(make_frame(self.id, self.inst, &self.params))
    }

    /// Record the outcome of the physical write and decide what follows:
    /// a short write fails the transaction, a broadcast or fire-and-forget
    /// request ends it, and a single-device status request arms the
    /// timeout and opens the receive half.
    pub fn after_write(
        self,
        written: usize,
        bus: &mut Bus,
        timer: &mut PacketTimer,
        now_us: u64,
    ) -> (r: TxOutcome)
        requires
            self.wf(),
            self.params().len() + 6 <= TXPACKET_MAX_LEN,
            old(timer).wf(),
        ensures
            final(timer).wf(),
            final(timer).tx_us() == old(timer).tx_us(),
            written != self.params().len() + 6 ==> r is Failed && r->Failed_0
                == CommResult::TxFail && !final(bus).is_using && *final(timer) == *old(timer),
            written == self.params().len() + 6 ==> match self.mode() {
                ReplyMode::NoReply => r is Sent && !final(bus).is_using && *final(timer) == *old(timer),
                ReplyMode::HoldBus => r is SentHolding && *final(bus) == *old(bus) && *final(timer)
                    == *old(timer),
                ReplyMode::AwaitStatus => if self.target() == BROADCAST_ID {
                    r is Sent && !final(bus).is_using && *final(timer) == *old(timer)
                } else {
                    r is AwaitReply && r->AwaitReply_0.target() == self.target()
                        && r->AwaitReply_0.buf() == Seq::<u8>::empty() && r->AwaitReply_0.wait()
                        == 6 && r->AwaitReply_0.wf() && *final(bus) == *old(bus) && final(timer).start() == now_us && final(timer).budget() == old(timer).budget_for(
                        self.reply_len(),
                    )
                },
            },
    {
        if written != self.params.len() + 6 {
            bus.is_using = false;
            return TxOutcome::Failed(CommResult::TxFail);
        }
        match self.reply {
            ReplyMode::NoReply => {
                bus.is_using = false;
                TxOutcome::Sent
            },
            ReplyMode::HoldBus => TxOutcome::SentHolding,
            ReplyMode::AwaitStatus => {
                if self.id == BROADCAST_ID {
                    bus.is_using = false;
                    TxOutcome::Sent
                } else {
                    let expected: usize = if self.inst == INST_READ {
                        self.params[1] as usize + 6
                    } else {
                        6
                    };
                    timer.set_packet_timeout(expected, now_us);
                    TxOutcome::AwaitReply(
                        Receiving { target_id: self.id, engine: RxEngine::new() },
                    )
                }
            },
        }
    }
}

impl Receiving {
    /// The device id a matching reply must carry.
    pub closed spec fn target(&self) -> u8 {
        self.target_id
    }

    /// Bytes accumulated towards the current frame.
    pub closed spec fn buf(&self) -> Seq<u8> {
        self.engine.buf()
    }

    /// Total frame size currently waited for.
    pub closed spec fn wait(&self) -> int {
        self.engine.wait()
    }

    /// The inner receive engine stays well-formed.
    pub closed spec fn wf(&self) -> bool {
        self.engine.wf()
    }

    /// How many further bytes the receive machine wants.
    pub fn wanted(&self) -> (r: usize)
        ensures
            r == if self.wait() > self.buf().len() {
                self.wait() - self.buf().len()
            } else {
                0int
            },
    {
        self.engine.wanted()
    }

    /// The underlying read primitive failed: the transaction ends with
    /// `RxFail` and the bus is released.
    pub fn fail(self, bus: &mut Bus) -> (r: RxStep)
        ensures
            !final(bus).is_using,
            r is Done && r->Done_1 == CommResult::RxFail && r->Done_2 == 0 && r->Done_0@
                == self.buf(),
    {
        bus.is_using = false;
        RxStep::Done(self.engine.into_packet(), CommResult::RxFail, 0)
    }

    /// Feed newly read bytes and the clock into the receive machine.  A
    /// decided frame from the addressed device (or any terminal failure)
    /// ends the transaction and releases the bus; a decided frame from
    /// another id is discarded and the wait continues on a fresh buffer.
    pub fn poll(&mut self, data: &[u8], bus: &mut Bus, timer: &mut PacketTimer, now_us: u64) -> (r:
        RxStep)
        requires
            old(self).wf(),
        ensures
            final(self).wf(),
            final(self).target() == old(self).target(),
            final(timer).tx_us() == old(timer).tx_us(),
            final(timer).start() == old(timer).start(),
            ({
                let t = old(timer).expired(now_us);
                let m = rx_machine(old(self).buf() + data@, old(self).wait(), t);
                &&& final(timer).budget() == if t {
                    0int
                } else {
                    old(timer).budget()
                }
                &&& match r {
                    RxStep::NeedMore => {
                        ||| (m.2 == RxPoll::NeedMore && final(self).buf() == m.0 && final(self).wait() == m.1 && *final(bus) == *old(bus))
                        ||| (m.2 == RxPoll::Done(CommResult::Success) && m.0.len() >= 5 && m.0[2]
                            != old(self).target() && final(self).buf() == Seq::<u8>::empty()
                            && final(self).wait() == 6 && *final(bus) == *old(bus))
                    },
                    RxStep::Done(packet, res, err) => {
                        &&& !final(bus).is_using
                        &&& packet@ == m.0
                        &&& m.2 == RxPoll::Done(res)
                        &&& (res == CommResult::Success ==> m.0.len() >= 5 && m.0[2] == old(self).target() && err == m.0[4])
                        &&& (res != CommResult::Success ==> err == 0)
                    },
                }
            }),
    {
        let ghost b0 = self.engine.buf() + data@;
        let ghost w0 = self.engine.wait();
        let timed_out = timer.is_packet_timeout(now_us);
        let step = self.engine.advance(data, timed_out);
        match step {
            RxPoll::NeedMore => RxStep::NeedMore,
            RxPoll::Done(res) => {
                if res.is_success() {
                    proof {
                        lemma_rx_machine_success_sound(b0, w0, timed_out);
                    }
                    let device = self.engine.byte_at(2);
                    if device == self.target_id {
                        let error = self.engine.byte_at(4);
                        bus.is_using = false;
                        RxStep::Done(self.engine.take(), CommResult::Success, error)
                    } else {
                        let _stale = self.engine.take();
                        RxStep::NeedMore
                    }
                } else {
                    bus.is_using = false;
                    RxStep::Done(self.engine.take(), res, 0)
                }
            },
        }
    }
}

/// Request builders mirroring the instruction set.
impl crate::handler::ProtocolPacketHandler {
    /// The ping request for one device: no parameters, minimal reply.
    /// A broadcast or out-of-range id is refused with `NotAvailable`
    /// before anything reaches the bus.
    pub fn ping_request(&self, sts_id: u8) -> (r: Result<PendingWrite, CommResult>)
        ensures
            sts_id >= BROADCAST_ID ==> r is Err && r->Err_0 == CommResult::NotAvailable,
            sts_id < BROADCAST_ID ==> r is Ok && ({
                let p = r->Ok_0;
                &&& p.target() == sts_id
                &&& p.inst() == INST_PING
                &&& p.params() == Seq::<u8>::empty()
                &&& p.mode() == ReplyMode::AwaitStatus
                &&& p.wf()
            }),
    {
        if sts_id >= BROADCAST_ID {
            return Err(CommResult::NotAvailable);
        }
        Ok(PendingWrite { id: sts_id, inst: INST_PING, params: Vec::new(), reply: ReplyMode::AwaitStatus })
    }

    /// The read request: parameters are the register address and the byte
    /// count.  A broadcast or out-of-range id is refused with
    /// `NotAvailable` before anything reaches the bus.
    pub fn read_request(&self, sts_id: u8, address: u8, length: u8) -> (r: Result<
        PendingWrite,
        CommResult,
    >)
        ensures
            sts_id >= BROADCAST_ID ==> r is Err && r->Err_0 == CommResult::NotAvailable,
            sts_id < BROADCAST_ID ==> r is Ok && ({
                let p = r->Ok_0;
                &&& p.target() == sts_id
                &&& p.inst() == INST_READ
                &&& p.params() == seq![address, length]
                &&& p.mode() == ReplyMode::AwaitStatus
                &&& p.reply_len() == length + 6
                &&& p.wf()
            }),
    {
        if sts_id >= BROADCAST_ID {
            return Err(CommResult::NotAvailable);
        }
        let mut params: Vec<u8> = Vec::new();
        params.push(address);
        params.push(length);
        proof {
            assert(params@ =~= seq![address, length]);
        }
        Ok(PendingWrite { id: sts_id, inst: INST_READ, params, reply: ReplyMode::AwaitStatus })
    }

    /// The write request awaiting a status frame; a broadcast id sends
    /// fire-and-forget, decided after transmission.
    pub fn write_request(&self, sts_id: u8, address: u8, data: &[u8]) -> (r: PendingWrite)
        ensures
            r.target() == sts_id,
            r.inst() == INST_WRITE,
            r.params() == seq![address] + data@,
            r.mode() == ReplyMode::AwaitStatus,
            r.wf(),
    {
        PendingWrite {
            id: sts_id,
            inst: INST_WRITE,
            params: address_and_data(address, data),
            reply: ReplyMode::AwaitStatus,
        }
    }

    /// The fire-and-forget write request: the bus is released right after
    /// the send and no reply is read.
    pub fn write_only_request(&self, sts_id: u8, address: u8, data: &[u8]) -> (r: PendingWrite)
        ensures
            r.target() == sts_id,
            r.inst() == INST_WRITE,
            r.params() == seq![address] + data@,
            r.mode() == ReplyMode::NoReply,
            r.wf(),
    {
        PendingWrite {
            id: sts_id,
            inst: INST_WRITE,
            params: address_and_data(address, data),
            reply: ReplyMode::NoReply,
        }
    }

    /// The broadcast batched-write request carrying every device's payload
    /// in one frame.
    pub fn sync_write_request(&self, start_address: u8, data_length: u8, param: &[u8]) -> (r:
        PendingWrite)
        ensures
            r.target() == BROADCAST_ID,
            r.inst() == INST_SYNC_WRITE,
            r.params() == seq![start_address, data_length] + param@,
            r.mode() == ReplyMode::AwaitStatus,
            r.wf(),
    {
        PendingWrite {
            id: BROADCAST_ID,
            inst: INST_SYNC_WRITE,
            params: address_length_and_data(start_address, data_length, param),
            reply: ReplyMode::AwaitStatus,
        }
    }

    /// The broadcast batched-read request naming the address, the byte
    /// count, and the participating ids; the bus stays held for the
    /// multi-device response stream.
    pub fn sync_read_request(&self, start_address: u8, data_length: u8, param: &[u8]) -> (r:
        PendingWrite)
        ensures
            r.target() == BROADCAST_ID,
            r.inst() == INST_SYNC_READ,
            r.params() == seq![start_address, data_length] + param@,
            r.mode() == ReplyMode::HoldBus,
            r.wf(),
    {
        PendingWrite {
            id: BROADCAST_ID,
            inst: INST_SYNC_READ,
            params: address_length_and_data(start_address, data_length, param),
            reply: ReplyMode::HoldBus,
        }
    }

    /// The payload bytes of a successful read reply: the requested count,
    /// taken after the error byte; a reply too short to carry them yields
    /// nothing.
    pub fn read_response(&self, packet: &Vec<u8>, length: u8) -> (r: Vec<u8>)
        ensures
            packet@.len() >= 5 + length ==> r@ == packet@.subrange(5, 5 + length as int),
            packet@.len() < 5 + length ==> r@ == Seq::<u8>::empty(),
    {
        let mut out: Vec<u8> = Vec::new();
        if packet.len() < 5 + length as usize {
            return out;
        }
        let mut i: usize = 0;
        while i < length as usize
            invariant
                i <= length,
                packet@.len() >= 5 + length,
                out@ == packet@.subrange(5, 5 + i as int),
            decreases length - i,
        {
            out.push(packet[5 + i]);
            proof {
                assert(packet@.subrange(5, 5 + (i + 1)) =~= packet@.subrange(5, 5 + i as int).push(
                    packet@[5 + i],
                ));
            }
            i = i + 1;
        }
        out
    }

    /// The value of a one-byte read: the first payload byte on success,
    /// zero on any failure or short reply.
    pub fn read_1byte_value(&self, data: &Vec<u8>, result: CommResult) -> (r: u8)
        ensures
            result == CommResult::Success && data@.len() >= 1 ==> r == data@[0],
            !(result == CommResult::Success && data@.len() >= 1) ==> r == 0,
    {
        if result.is_success() && data.len() >= 1 {
            data[0]
        } else {
            0
        }
    }

    /// The value of a two-byte read: the word composed from the first two
    /// payload bytes on success, zero on any failure or short reply.
    pub fn read_2byte_value(&self, data: &Vec<u8>, result: CommResult) -> (r: u16)
        ensures
            result == CommResult::Success && data@.len() >= 2 ==> r == crate::handler::word_value(
                self.endian(),
                data@[0],
                data@[1],
            ),
            !(result == CommResult::Success && data@.len() >= 2) ==> r == 0,
    {
        if result.is_success() && data.len() >= 2 {
            self.sts_makeword(data[0], data[1])
        } else {
            0
        }
    }

    /// After a successful ping acknowledgment, the model number is read
    /// from its fixed pseudo-address as a two-byte field; a failed ping
    /// reads nothing.
    pub fn ping_followup(&self, result: CommResult) -> (r: Option<(u8, u8)>)
        ensures
            result == CommResult::Success ==> r == Some((3u8, 2u8)),
            result != CommResult::Success ==> r is None,
    {
        if result.is_success() {
            Some((3, 2))
        } else {
            None
        }
    }

    /// Combine the ping acknowledgment and the follow-up model-number read
    /// into the ping result.  Success requires both steps to succeed: only
    /// then is the decoded model number reported.  A failed acknowledgment
    /// reports its own outcome; an acknowledged ping whose follow-up read
    /// failed reports the follow-up's outcome and error byte, and one whose
    /// reply was too short to carry the model number reports `RxCorrupt` —
    /// never `Success` with nothing read.
    pub fn ping_conclude(
        &self,
        first: CommResult,
        first_error: u8,
        read_data: &Vec<u8>,
        read_result: CommResult,
        read_error: u8,
    ) -> (r: (u16, CommResult, u8))
        ensures
            first == CommResult::Success && read_result == CommResult::Success && read_data@.len()
                >= 2 ==> r == (
                (crate::handler::word_value(self.endian(), read_data@[0], read_data@[1])) as u16,
                CommResult::Success,
                read_error,
            ),
            first == CommResult::Success && read_result != CommResult::Success ==> r == (
                0u16,
                read_result,
                read_error,
            ),
            first == CommResult::Success && read_result == CommResult::Success && read_data@.len()
                < 2 ==> r == (0u16, CommResult::RxCorrupt, read_error),
            first != CommResult::Success ==> r == (0u16, first, first_error),
    {
        if !first.is_success() {
            return (0, first, first_error);
        }
        if read_result.is_success() && read_data.len() >= 2 {
            let model = self.sts_makeword(read_data[0], read_data[1]);
            (model, read_result, read_error)
        } else if read_result.is_success() {
            (0, CommResult::RxCorrupt, read_error)
        } else {
            (0, read_result, read_error)
        }
    }
}

/// The parameter list of a write: the register address, then the data.
fn address_and_data(address: u8, data: &[u8]) -> (r: Vec<u8>)
    ensures
        r@ == seq![address] + data@,
{
    let mut params: Vec<u8> = Vec::new();
    params.push(address);
    let mut i: usize = 0;
    while i < data.len()
        invariant
            i <= data@.len(),
            params@ == seq![address] + data@.subrange(0, i as int),
        decreases data@.len() - i,
    {
        params.push(data[i]);
        proof {
            assert(seq![address] + data@.subrange(0, i + 1) =~= (seq![address] + data@.subrange(
                0,
                i as int,
            )).push(data@[i as int]));
        }
        i = i + 1;
    }
    proof {
        assert(data@.subrange(0, data@.len() as int) =~= data@);
    }
    params
}

/// The parameter list of a batched request: the start address, the per-id
/// payload length, then the packed per-device data.
fn address_length_and_data(address: u8, data_length: u8, data: &[u8]) -> (r: Vec<u8>)
    ensures
        r@ == seq![address, data_length] + data@,
{
    let mut params: Vec<u8> = Vec::new();
    params.push(address);
    params.push(data_length);
    let mut i: usize = 0;
    while i < data.len()
        invariant
            i <= data@.len(),
            params@ == seq![address, data_length] + data@.subrange(0, i as int),
        decreases data@.len() - i,
    {
        params.push(data[i]);
        proof {
            assert(seq![address, data_length] + data@.subrange(0, i + 1) =~= (seq![
                address,
                data_length,
            ] + data@.subrange(0, i as int)).push(data@[i as int]));
        }
        i = i + 1;
    }
    proof {
        assert(data@.subrange(0, data@.len() as int) =~= data@);
    }
    params
}

} // verus!
