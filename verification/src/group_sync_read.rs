//! Batched read group: one broadcast sync-read request, one multi-device
//! response stream, demultiplexed back to each participating id.
//!
//! The response stream is drained by [`SyncReadCollector`] until the
//! expected byte budget accumulates or the timeout fires; the combined
//! buffer is then scanned per id by [`GroupSyncRead::read_rx`], whose exact
//! behaviour is the spec function [`read_rx_spec`].

use vstd::prelude::*;

use crate::comm::CommResult;
use crate::exchange::Bus;
use crate::exchange::PendingWrite;
use crate::exchange::ReplyMode;
use crate::group_sync_write::id_list;
use crate::group_sync_write::ids_unique;
use crate::group_sync_write::GroupEntry;
use crate::handler::dword_value;
use crate::handler::word_value;
use crate::handler::ProtocolPacketHandler;
use crate::packet::byte_sum;
use crate::packet::checksum_of;
use crate::packet::lemma_byte_sum_push;
use crate::packet::BROADCAST_ID;
use crate::packet::INST_SYNC_READ;
use crate::timing::PacketTimer;

verus! {

/// Offset of the first batched sub-frame head `FF FF id` all of whose
/// bytes lie at or after `from`; the offset returned is that of the id
/// byte.  The demultiplexer's scanner forgets bytes before `from`, so a
/// head straddling `from` does not count.
pub open spec fn find_subhead(b: Seq<u8>, from: int, sts_id: u8) -> Option<int>
    decreases b.len() - from,
{
    if from + 2 >= b.len() {
        None
    } else if b[from] == 0xff && b[from + 1] == 0xff && b[from + 2] == sts_id {
        Some(from + 2)
    } else {
        find_subhead(b, from + 1, sts_id)
    }
}

/// A found sub-frame head lies within the buffer, past `from`.
pub proof fn lemma_find_subhead_bounds(b: Seq<u8>, from: int, sts_id: u8)
    ensures
        find_subhead(b, from, sts_id) is Some ==> from + 2 <= find_subhead(b, from, sts_id)->Some_0
            < b.len(),
    decreases b.len() - from,
{
    if from + 2 >= b.len() {
    } else if b[from] == 0xff && b[from + 1] == 0xff && b[from + 2] == sts_id {
    } else {
        lemma_find_subhead_bounds(b, from + 1, sts_id);
    }
}

/// Extraction of one device's record from the combined response stream,
/// scanning from `from`: find the next `FF FF id` head, check that the
/// declared length byte matches the group's payload size (skipping past
/// the head otherwise), and validate the checksum over the id, length,
/// error and payload bytes.  The record handed back is the error byte
/// followed by the payload.
pub open spec fn read_rx_spec(b: Seq<u8>, sts_id: u8, dlen: nat, from: int) -> (
    Option<Seq<u8>>,
    CommResult,
)
    decreases b.len() - from,
{
    if from + 6 + dlen > b.len() {
        (None, CommResult::RxCorrupt)
    } else {
        match find_subhead(b, from, sts_id) {
            None => (None, CommResult::RxCorrupt),
            Some(i) => {
                proof {
                    lemma_find_subhead_bounds(b, from, sts_id);
                }
                let p = i + 1;
                if p + 3 + dlen > b.len() {
                    (None, CommResult::RxCorrupt)
                } else if b[p] != dlen + 2 {
                    read_rx_spec(b, sts_id, dlen, p + 1)
                } else {
                    let err = b[p + 1];
                    let payload = b.subrange(p + 2, p + 2 + dlen);
                    let cs = checksum_of(seq![sts_id, (dlen + 2) as u8, err] + payload);
                    if b[p + 2 + dlen] == cs {
                        (Some(seq![err] + payload), CommResult::Success)
                    } else {
                        (None, CommResult::RxCorrupt)
                    }
                }
            },
        }
    }
}

/// A well-formed batched sub-frame for `sts_id` whose id byte sits at
/// offset `i` of the stream: `FF FF id (dlen+2) err payload.. cs` with a
/// matching checksum over the id, length, error and payload bytes.
pub open spec fn sub_frame_at(b: Seq<u8>, i: int, sts_id: u8, dlen: nat) -> bool {
    &&& 2 <= i
    &&& i + 3 + dlen < b.len()
    &&& b[i - 2] == 0xff
    &&& b[i - 1] == 0xff
    &&& b[i] == sts_id
    &&& b[i + 1] == dlen + 2
    &&& b[i + 3 + dlen] == checksum_of(
        seq![sts_id, (dlen + 2) as u8, b[i + 2]] + b.subrange(i + 3, i + 3 + dlen),
    )
}

/// The record a sub-frame at `i` carries: the error byte, then the payload.
pub open spec fn record_at(b: Seq<u8>, i: int, dlen: nat) -> Seq<u8> {
    seq![b[i + 2]] + b.subrange(i + 3, i + 3 + dlen)
}

/// Soundness of the demultiplexer: whatever record it recovers comes from
/// a genuine, checksum-valid sub-frame present in the stream.
pub proof fn lemma_read_rx_sound(b: Seq<u8>, sts_id: u8, dlen: nat, from: int)
    requires
        from >= 0,
    ensures
        read_rx_spec(b, sts_id, dlen, from).0 is Some ==> exists|i: int|
            sub_frame_at(b, i, sts_id, dlen) && read_rx_spec(b, sts_id, dlen, from).0->Some_0
                == record_at(b, i, dlen),
    decreases b.len() - from,
{
    if from + 6 + dlen > b.len() {
    } else {
        match find_subhead(b, from, sts_id) {
            None => {},
            Some(i) => {
                lemma_find_subhead_bounds(b, from, sts_id);
                lemma_find_subhead_hit(b, from, sts_id);
                let p = i + 1;
                if p + 3 + dlen > b.len() {
                } else if b[p] != dlen + 2 {
                    lemma_read_rx_sound(b, sts_id, dlen, p + 1);
                } else {
                    let err = b[p + 1];
                    let payload = b.subrange(p + 2, p + 2 + dlen);
                    let cs = checksum_of(seq![sts_id, (dlen + 2) as u8, err] + payload);
                    if b[p + 2 + dlen] == cs {
                        assert(sub_frame_at(b, i, sts_id, dlen));
                        assert(read_rx_spec(b, sts_id, dlen, from).0->Some_0 == record_at(
                            b,
                            i,
                            dlen,
                        ));
                    }
                }
            },
        }
    }
}

/// The extraction has exactly two outcomes: a record with `Success`, or
/// nothing with `RxCorrupt`.
proof fn lemma_read_rx_shape(b: Seq<u8>, sts_id: u8, dlen: nat, from: int)
    ensures
        read_rx_spec(b, sts_id, dlen, from).0 is Some ==> read_rx_spec(b, sts_id, dlen, from).1
            == CommResult::Success,
        read_rx_spec(b, sts_id, dlen, from).0 is None ==> read_rx_spec(b, sts_id, dlen, from).1
            == CommResult::RxCorrupt,
    decreases b.len() - from,
{
    if from + 6 + dlen > b.len() {
    } else {
        match find_subhead(b, from, sts_id) {
            None => {},
            Some(i) => {
                lemma_find_subhead_bounds(b, from, sts_id);
                let p = i + 1;
                if p + 3 + dlen > b.len() {
                } else if b[p] != dlen + 2 {
                    lemma_read_rx_shape(b, sts_id, dlen, p + 1);
                } else {
                }
            },
        }
    }
}

/// Completeness of failure: a stream holding no checksum-valid sub-frame
/// for the id at any offset yields nothing, with `RxCorrupt`.
pub proof fn lemma_read_rx_none_without_sub_frame(b: Seq<u8>, sts_id: u8, dlen: nat)
    requires
        forall|i: int| !sub_frame_at(b, i, sts_id, dlen),
    ensures
        read_rx_spec(b, sts_id, dlen, 0) == (None::<Seq<u8>>, CommResult::RxCorrupt),
{
    lemma_read_rx_sound(b, sts_id, dlen, 0);
    lemma_read_rx_shape(b, sts_id, dlen, 0);
    if read_rx_spec(b, sts_id, dlen, 0).0 is Some {
        let i = choose|i: int|
            sub_frame_at(b, i, sts_id, dlen) && read_rx_spec(b, sts_id, dlen, 0).0->Some_0
                == record_at(b, i, dlen);
        assert(!sub_frame_at(b, i, sts_id, dlen));
    }
}

/// A found sub-frame head really carries the header bytes and the id.
proof fn lemma_find_subhead_hit(b: Seq<u8>, from: int, sts_id: u8)
    ensures
        find_subhead(b, from, sts_id) is Some ==> ({
            let i = find_subhead(b, from, sts_id)->Some_0;
            b[i - 2] == 0xff && b[i - 1] == 0xff && b[i] == sts_id
        }),
    decreases b.len() - from,
{
    if from + 2 >= b.len() {
    } else if b[from] == 0xff && b[from + 1] == 0xff && b[from + 2] == sts_id {
    } else {
        lemma_find_subhead_hit(b, from + 1, sts_id);
    }
}

/// Scanning skips over a span with no sub-frame head in it.
proof fn lemma_find_subhead_skip(b: Seq<u8>, from: int, upto: int, sts_id: u8)
    requires
        from <= upto,
        forall|j: int|
            from <= j < upto ==> !((#[trigger] b[j]) == 0xff && b[j + 1] == 0xff && b[j + 2]
                == sts_id),
    ensures
        find_subhead(b, from, sts_id) == find_subhead(b, upto, sts_id),
    decreases upto - from,
{
    if from < upto {
        if from + 2 >= b.len() {
            lemma_find_subhead_none_past_end(b, from, upto, sts_id);
        } else {
            lemma_find_subhead_skip(b, from + 1, upto, sts_id);
        }
    }
}

/// Past the last possible head position the scan finds nothing.
proof fn lemma_find_subhead_none_past_end(b: Seq<u8>, from: int, upto: int, sts_id: u8)
    requires
        from + 2 >= b.len(),
        from <= upto,
    ensures
        find_subhead(b, from, sts_id) is None,
        find_subhead(b, upto, sts_id) is None,
    decreases upto - from,
{
    if from < upto {
        lemma_find_subhead_none_past_end(b, from + 1, upto, sts_id);
    }
}

/// Demultiplexing recovers a clean record: where nothing before offset
/// `k` looks like a head for this id, and a well-formed sub-frame for it
/// begins at `k`, the scan lands exactly there and hands back the error
/// byte and payload of that sub-frame, whatever follows it.
pub proof fn lemma_read_rx_clean_recovery(b: Seq<u8>, k: int, sts_id: u8, dlen: nat)
    requires
        0 <= k,
        sub_frame_at(b, k + 2, sts_id, dlen),
        forall|j: int|
            0 <= j < k ==> !((#[trigger] b[j]) == 0xff && b[j + 1] == 0xff && b[j + 2] == sts_id),
    ensures
        read_rx_spec(b, sts_id, dlen, 0) == (
            Some(record_at(b, k + 2, dlen)),
            CommResult::Success,
        ),
{
    let i = k + 2;
    assert(b[k] == 0xff && b[k + 1] == 0xff && b[k + 2] == sts_id);
    lemma_find_subhead_skip(b, 0, k, sts_id);
    assert(find_subhead(b, k, sts_id) == Some(i));
    assert(find_subhead(b, 0, sts_id) == Some(i));
    let p = i + 1;
    assert(b[p] == dlen + 2);
    let err = b[p + 1];
    let payload = b.subrange(p + 2, p + 2 + dlen);
    assert(b[p + 2 + dlen] == checksum_of(seq![sts_id, (dlen + 2) as u8, err] + payload));
    assert(read_rx_spec(b, sts_id, dlen, 0) == (
        Some(seq![err] + payload),
        CommResult::Success,
    ));
}

/// Collector for the combined multi-device response: drains the channel
/// until the expected byte budget accumulates or the timeout fires.
pub struct SyncReadCollector {
    wait_length: usize,
    buffer: Vec<u8>,
}

/// One step of the collector.
#[derive(Clone, Copy, Debug, PartialEq, Eq, Structural)]
pub enum CollectPoll {
    /// The budget of bytes has not accumulated yet: read more.
    NeedMore,
    /// Collection ended with the given outcome; the buffer holds whatever
    /// arrived.
    Done(CommResult),
}

impl SyncReadCollector {
    /// The total byte budget waited for.
    pub closed spec fn want(&self) -> int {
        self.wait_length as int
    }

    /// Bytes accumulated so far.
    pub closed spec fn buf(&self) -> Seq<u8> {
        self.buffer@
    }

    /// Start collecting the responses of `param_count` devices, each
    /// contributing a sub-frame of `6 + data_length` bytes, and arm the
    /// timeout for that total.
    pub fn begin(data_length: usize, param_count: usize, timer: &mut PacketTimer, now_us: u64) -> (r:
        Self)
        requires
            data_length <= 248,
            param_count <= 254,
            old(timer).wf(),
        ensures
            r.want() == (6 + data_length) * param_count,
            r.buf() == Seq::<u8>::empty(),
            final(timer).wf(),
            final(timer).tx_us() == old(timer).tx_us(),
            final(timer).start() == now_us,
            final(timer).budget() == old(timer).budget_for((6 + data_length) * param_count),
    {
        proof {
            vstd::arithmetic::mul::lemma_mul_upper_bound(
                6 + data_length,
                254int,
                param_count as int,
                254int,
            );
        }
        let wait = (6 + data_length) * param_count;
        timer.set_packet_timeout(wait, now_us);
        SyncReadCollector { wait_length: wait, buffer: Vec::new() }
    }

    /// How many further bytes are wanted.
    pub fn wanted(&self) -> (r: usize)
        ensures
            r == if self.want() > self.buf().len() {
                self.want() - self.buf().len()
            } else {
                0int
            },
    {
        if self.wait_length > self.buffer.len() {
            self.wait_length - self.buffer.len()
        } else {
            0
        }
    }

    /// Append newly read bytes and decide: the full budget ends collection
    /// with `Success`; short of it, an expired timeout ends it with
    /// `RxTimeout` (nothing arrived) or `RxCorrupt` (a partial stream);
    /// otherwise more bytes are awaited.  Any decision releases the bus.
    pub fn poll(&mut self, data: &[u8], timer: &mut PacketTimer, now_us: u64, bus: &mut Bus) -> (r:
        CollectPoll)
        ensures
            final(self).want() == old(self).want(),
            final(self).buf() == old(self).buf() + data@,
            final(timer).tx_us() == old(timer).tx_us(),
            final(timer).start() == old(timer).start(),
            ({
                let nb = old(self).buf() + data@;
                let t = old(timer).expired(now_us);
                &&& nb.len() >= old(self).want() ==> r == CollectPoll::Done(CommResult::Success)
                    && !final(bus).is_using && final(timer).budget() == old(timer).budget()
                &&& nb.len() < old(self).want() && t ==> r == CollectPoll::Done(
                    if nb.len() == 0 {
                        CommResult::RxTimeout
                    } else {
                        CommResult::RxCorrupt
                    },
                ) && !final(bus).is_using && final(timer).budget() == 0
                &&& nb.len() < old(self).want() && !t ==> r == CollectPoll::NeedMore && *final(bus)
                    == *old(bus) && final(timer).budget() == old(timer).budget()
            }),
    {
        let mut k: usize = 0;
        while k < data.len()
            invariant
                k <= data@.len(),
                self.buffer@ == old(self).buf() + data@.subrange(0, k as int),
                self.wait_length == old(self).wait_length,
            decreases data@.len() - k,
        {
            self.buffer.push(data[k]);
            proof {
                assert(old(self).buf() + data@.subrange(0, k + 1) =~= (old(self).buf()
                    + data@.subrange(0, k as int)).push(data@[k as int]));
            }
            k = k + 1;
        }
        proof {
            assert(data@.subrange(0, data@.len() as int) =~= data@);
            assert(self.buffer@ =~= old(self).buf() + data@);
        }
        if self.buffer.len() >= self.wait_length {
            bus.is_using = false;
            return CollectPoll::Done(CommResult::Success);
        }
        if timer.is_packet_timeout(now_us) {
            bus.is_using = false;
            if self.buffer.len() == 0 {
                return CollectPoll::Done(CommResult::RxTimeout);
            }
            return CollectPoll::Done(CommResult::RxCorrupt);
        }
        CollectPoll::NeedMore
    }

    /// The underlying read primitive failed: collection ends with `RxFail`
    /// and the bus is released.
    pub fn fail(self, bus: &mut Bus) -> (r: (Vec<u8>, CommResult))
        ensures
            !final(bus).is_using,
            r.0@ == self.buf(),
            r.1 == CommResult::RxFail,
    {
        bus.is_using = false;
        (self.buffer, CommResult::RxFail)
    }

    /// Surrender the collected bytes.
    pub fn into_buffer(self) -> (r: Vec<u8>)
        ensures
            r@ == self.buf(),
    {
        self.buffer
    }
}

/// Batched read engine: a set of participating ids, the broadcast request
/// naming them, and the per-id records recovered from the combined
/// response.
pub struct GroupSyncRead {
    start_address: u8,
    data_length: usize,
    last_result: bool,
    is_param_changed: bool,
    param: Vec<u8>,
    entries: Vec<GroupEntry>,
}

impl GroupSyncRead {
    /// The register address every participant is read at.
    pub closed spec fn start_addr(&self) -> u8 {
        self.start_address
    }

    /// The payload size read from every participant.
    pub closed spec fn data_len(&self) -> int {
        self.data_length as int
    }

    /// The participants' slots, in insertion order; a slot's data is the
    /// record recovered by the last receive (error byte, then payload), or
    /// empty before any.
    pub closed spec fn entries(&self) -> Seq<GroupEntry> {
        self.entries@
    }

    /// The materialized id list of the request.
    pub closed spec fn param_buf(&self) -> Seq<u8> {
        self.param@
    }

    /// Whether the participant set changed since the id list was built.
    pub closed spec fn dirty(&self) -> bool {
        self.is_param_changed
    }

    /// Whether the last receive recovered a record for every participant.
    pub closed spec fn last_ok(&self) -> bool {
        self.last_result
    }

    /// A slot for this id exists.
    pub open spec fn contains_id(&self, sts_id: u8) -> bool {
        exists|i: int| 0 <= i < self.entries().len() && self.entries()[i].sts_id == sts_id
    }

    /// The slot index of an id that is present.
    pub open spec fn id_index(&self, sts_id: u8) -> int {
        choose|i: int| 0 <= i < self.entries().len() && self.entries()[i].sts_id == sts_id
    }

    /// The record held for an id that is present.
    pub open spec fn data_of(&self, sts_id: u8) -> Seq<u8> {
        self.entries()[self.id_index(sts_id)].data@
    }

    /// Well-formedness: ids are unique, the payload size leaves room for a
    /// sub-frame, and a clean non-empty group's id list is materialized.
    pub open spec fn wf(&self) -> bool {
        &&& ids_unique(self.entries())
        &&& self.data_len() <= 248
        &&& (!self.dirty() && self.entries().len() > 0 ==> self.param_buf() == id_list(
            self.entries(),
        ))
    }

    /// An empty group reading payloads of the given size at the given
    /// start address.
    pub fn new(start_address: u8, data_length: usize) -> (r: Self)
        requires
            data_length <= 248,
        ensures
            r.start_addr() == start_address,
            r.data_len() == data_length,
            r.entries() == Seq::<GroupEntry>::empty(),
            r.param_buf() == Seq::<u8>::empty(),
            !r.dirty(),
            !r.last_ok(),
            r.wf(),
    {
        GroupSyncRead {
            start_address,
            data_length,
            last_result: false,
            is_param_changed: false,
            param: Vec::new(),
            entries: Vec::new(),
        }
    }

    /// Index of the slot holding the given id, if any.
    fn find_index(&self, sts_id: u8) -> (r: Option<usize>)
        ensures
            match r {
                Some(i) => i < self.entries().len() && self.entries()[i as int].sts_id == sts_id,
                None => !self.contains_id(sts_id),
            },
    {
        let mut i: usize = 0;
        while i < self.entries.len()
            invariant
                i <= self.entries().len(),
                forall|j: int| 0 <= j < i ==> self.entries()[j].sts_id != sts_id,
            decreases self.entries().len() - i,
        {
            if self.entries[i].sts_id == sts_id {
                return Some(i);
            }
            i = i + 1;
        }
        None
    }

    /// Reserve a zero-length slot for a new id; refused if already present.
    pub fn add_param(&mut self, sts_id: u8) -> (r: bool)
        requires
            old(self).wf(),
        ensures
            final(self).wf(),
            r == !old(self).contains_id(sts_id),
            r ==> final(self).entries().len() == old(self).entries().len() + 1 && final(self).entries().drop_last() == old(self).entries() && final(self).entries().last().sts_id
                == sts_id && final(self).entries().last().data@ == Seq::<u8>::empty() && final(self).dirty(),
            !r ==> *final(self) == *old(self),
            final(self).param_buf() == old(self).param_buf(),
            final(self).last_ok() == old(self).last_ok(),
            final(self).start_addr() == old(self).start_addr(),
            final(self).data_len() == old(self).data_len(),
    {
        if let Some(_i) = self.find_index(sts_id) {
            return false;
        }
        self.entries.push(GroupEntry { sts_id, data: Vec::new() });
        self.is_param_changed = true;
        true
    }

    /// Drop the slot of the given id, if present.
    pub fn remove_param(&mut self, sts_id: u8)
        requires
            old(self).wf(),
        ensures
            final(self).wf(),
            !old(self).contains_id(sts_id) ==> *final(self) == *old(self),
            old(self).contains_id(sts_id) ==> exists|i: int|
                0 <= i < old(self).entries().len() && old(self).entries()[i].sts_id == sts_id
                    && final(self).entries() == old(self).entries().remove(i) && final(self).dirty(),
            final(self).param_buf() == old(self).param_buf(),
            final(self).last_ok() == old(self).last_ok(),
            final(self).start_addr() == old(self).start_addr(),
            final(self).data_len() == old(self).data_len(),
    {
        if let Some(i) = self.find_index(sts_id) {
            self.entries.remove(i);
            self.is_param_changed = true;
        }
    }

    /// Empty the participant set.  Nothing else changes: the id list, the
    /// dirty flag and the last-result flag are left as they are, and an
    /// empty group never transmits.
    pub fn clear_param(&mut self)
        requires
            old(self).wf(),
        ensures
            final(self).wf(),
            final(self).entries() == Seq::<GroupEntry>::empty(),
            final(self).param_buf() == old(self).param_buf(),
            final(self).dirty() == old(self).dirty(),
            final(self).last_ok() == old(self).last_ok(),
            final(self).start_addr() == old(self).start_addr(),
            final(self).data_len() == old(self).data_len(),
    {
        self.entries.clear();
    }

    /// The number of participating ids.
    pub fn param_count(&self) -> (r: usize)
        ensures
            r == self.entries().len(),
    {
        self.entries.len()
    }

    /// The payload size read from every participant.
    pub fn data_length(&self) -> (r: usize)
        ensures
            r == self.data_len(),
    {
        self.data_length
    }

    /// Whether the last receive recovered a record for every participant.
    pub fn last_result(&self) -> (r: bool)
        ensures
            r == self.last_ok(),
    {
        self.last_result
    }

    /// Rebuild the id list from the participant set.
    fn make_param(&mut self)
        ensures
            final(self).param_buf() == id_list(final(self).entries()),
            final(self).entries() == old(self).entries(),
            final(self).start_addr() == old(self).start_addr(),
            final(self).data_len() == old(self).data_len(),
            final(self).dirty() == old(self).dirty(),
            final(self).last_ok() == old(self).last_ok(),
    {
        self.param.clear();
        let mut k: usize = 0;
        while k < self.entries.len()
            invariant
                k <= self.entries@.len(),
                self.param@ == id_list(self.entries@.take(k as int)),
                self.entries@ == old(self).entries(),
                self.start_address == old(self).start_addr(),
                self.data_length as int == old(self).data_len(),
                self.is_param_changed == old(self).dirty(),
                self.last_result == old(self).last_ok(),
            decreases self.entries@.len() - k,
        {
            self.param.push(self.entries[k].sts_id);
            proof {
                assert(id_list(self.entries@.take(k + 1)) =~= id_list(
                    self.entries@.take(k as int),
                ).push(self.entries@[k as int].sts_id));
            }
            k = k + 1;
        }
        proof {
            assert(self.entries@.take(self.entries@.len() as int) =~= self.entries@);
        }
    }

    /// Build the broadcast sync-read request naming the address, the
    /// payload size, and the participating ids (rebuilding the id list
    /// lazily where needed).  An empty group yields `NotAvailable` without
    /// touching anything.
    pub fn tx_packet(&mut self, ph: &ProtocolPacketHandler) -> (r: Result<PendingWrite, CommResult>)
        requires
            old(self).wf(),
        ensures
            final(self).wf(),
            final(self).entries() == old(self).entries(),
            final(self).last_ok() == old(self).last_ok(),
            final(self).start_addr() == old(self).start_addr(),
            final(self).data_len() == old(self).data_len(),
            old(self).entries().len() == 0 ==> r is Err && r->Err_0 == CommResult::NotAvailable
                && *final(self) == *old(self),
            old(self).entries().len() > 0 ==> r is Ok && ({
                let p = r->Ok_0;
                &&& p.target() == BROADCAST_ID
                &&& p.inst() == INST_SYNC_READ
                &&& p.params() == seq![
                    old(self).start_addr(),
                    old(self).data_len() as u8,
                ] + id_list(old(self).entries())
                &&& p.mode() == ReplyMode::HoldBus
                &&& p.wf()
            }) && final(self).param_buf() == id_list(old(self).entries()) && !final(self).dirty(),
    {
        if self.entries.len() == 0 {
            return Err(CommResult::NotAvailable);
        }
        if self.is_param_changed || self.param.len() == 0 {
            self.make_param();
            self.is_param_changed = false;
        }
        Ok(ph.sync_read_request(self.start_address, self.data_length as u8, self.param.as_slice()))
    }

    /// Position of the next sub-frame head for `sts_id` whose bytes all
    /// lie at or after `from`.
    fn scan_subhead(&self, rxpacket: &[u8], from: usize, sts_id: u8) -> (r: Option<usize>)
        requires
            from <= rxpacket@.len(),
        ensures
            match find_subhead(rxpacket@, from as int, sts_id) {
                Some(i) => r is Some && r->Some_0 == i,
                None => r is None,
            },
    {
        let n = rxpacket.len();
        let mut j = from;
        loop
            invariant
                from <= j <= n,
                n == rxpacket@.len(),
                find_subhead(rxpacket@, from as int, sts_id) == find_subhead(
                    rxpacket@,
                    j as int,
                    sts_id,
                ),
            decreases n - j,
        {
            if n - j < 3 {
                proof {
                    assert(find_subhead(rxpacket@, j as int, sts_id) is None);
                }
                return None;
            }
            if rxpacket[j] == 0xff && rxpacket[j + 1] == 0xff && rxpacket[j + 2] == sts_id {
                proof {
                    assert(find_subhead(rxpacket@, j as int, sts_id) == Some(j + 2));
                }
                return Some(j + 2);
            }
            proof {
                assert(find_subhead(rxpacket@, j as int, sts_id) == find_subhead(
                    rxpacket@,
                    j + 1,
                    sts_id,
                ));
            }
            j = j + 1;
        }
    }

    /// Extract one device's record from the combined response stream,
    /// exactly as [`read_rx_spec`] describes: the record is returned with
    /// `Success`, or nothing with `RxCorrupt`.
    pub fn read_rx(&self, rxpacket: &[u8], sts_id: u8, data_length: usize) -> (r: (
        Option<Vec<u8>>,
        CommResult,
    ))
        requires
            data_length <= 248,
        ensures
            ({
                let s = read_rx_spec(rxpacket@, sts_id, data_length as nat, 0);
                &&& r.1 == s.1
                &&& (r.0 is Some <==> s.0 is Some)
                &&& (s.0 is Some ==> r.0 is Some && r.0->Some_0@ == s.0->Some_0)
            }),
    {
        let rx_length = rxpacket.len();
        let mut rx_index: usize = 0;
        loop
            invariant
                rx_index <= rx_length,
                rx_length == rxpacket@.len(),
                data_length <= 248,
                read_rx_spec(rxpacket@, sts_id, data_length as nat, rx_index as int)
                    == read_rx_spec(rxpacket@, sts_id, data_length as nat, 0),
            decreases rx_length - rx_index,
        {
            let ghost from0 = rx_index as int;
            if rx_length - rx_index < 6 + data_length {
                proof {
                    assert(read_rx_spec(rxpacket@, sts_id, data_length as nat, from0) == (
                        None::<Seq<u8>>,
                        CommResult::RxCorrupt,
                    ));
                }
                return (None, CommResult::RxCorrupt);
            }
            let found = self.scan_subhead(rxpacket, rx_index, sts_id);
            proof {
                lemma_find_subhead_bounds(rxpacket@, from0, sts_id);
            }
            let i = match found {
                Some(i) => i,
                None => {
                    proof {
                        assert(read_rx_spec(rxpacket@, sts_id, data_length as nat, from0) == (
                            None::<Seq<u8>>,
                            CommResult::RxCorrupt,
                        ));
                    }
                    return (None, CommResult::RxCorrupt);
                },
            };
            let p = i + 1;
            if rx_length - p < 3 + data_length {
                proof {
                    assert(read_rx_spec(rxpacket@, sts_id, data_length as nat, from0) == (
                        None::<Seq<u8>>,
                        CommResult::RxCorrupt,
                    ));
                }
                return (None, CommResult::RxCorrupt);
            }
            if rxpacket[p] != (data_length + 2) as u8 {
                proof {
                    assert(rxpacket@[p as int] != data_length + 2);
                    assert(read_rx_spec(rxpacket@, sts_id, data_length as nat, from0)
                        == read_rx_spec(rxpacket@, sts_id, data_length as nat, p + 1));
                }
                rx_index = p + 1;
                continue ;
            }
            let error = rxpacket[p + 1];
            let ghost lenb = (data_length + 2) as u8;
            let ghost head3 = seq![sts_id, lenb, error];
            let mut data: Vec<u8> = Vec::new();
            data.push(error);
            let mut sum: u32 = ((sts_id as u32) + ((data_length as u32) + 2) + (error as u32))
                % 256;
            proof {
                assert(byte_sum(Seq::<u8>::empty()) == 0);
                assert(seq![sts_id].drop_last() =~= Seq::<u8>::empty());
                assert(seq![sts_id].last() == sts_id);
                assert(byte_sum(seq![sts_id]) == sts_id);
                lemma_byte_sum_push(seq![sts_id], lenb);
                assert(seq![sts_id].push(lenb) =~= seq![sts_id, lenb]);
                lemma_byte_sum_push(seq![sts_id, lenb], error);
                assert(seq![sts_id, lenb].push(error) =~= head3);
                assert(byte_sum(head3) == sts_id + lenb + error);
                assert(head3 + rxpacket@.subrange(p + 2, p + 2) =~= head3);
            }
            let mut t: usize = 0;
            while t < data_length
                invariant
                    t <= data_length,
                    data_length <= 248,
                    p + 3 + data_length <= rx_length,
                    rx_length == rxpacket@.len(),
                    head3 == seq![sts_id, (data_length + 2) as u8, error],
                    data@ == seq![error] + rxpacket@.subrange(p + 2, p + 2 + t),
                    sum == byte_sum(head3 + rxpacket@.subrange(p + 2, p + 2 + t)) % 256,
                decreases data_length - t,
            {
                let ghost pre = rxpacket@.subrange(p + 2, p + 2 + t);
                let byte = rxpacket[p + 2 + t];
                data.push(byte);
                proof {
                    assert(rxpacket@.subrange(p + 2, p + 2 + (t + 1)) =~= pre.push(byte));
                    assert(seq![error] + pre.push(byte) =~= (seq![error] + pre).push(byte));
                    assert(head3 + pre.push(byte) =~= (head3 + pre).push(byte));
                    lemma_byte_sum_push(head3 + pre, byte);
                    crate::packet::lemma_byte_sum_nonneg(head3 + pre);
                    vstd::arithmetic::div_mod::lemma_add_mod_noop(
                        byte_sum(head3 + pre),
                        byte as int,
                        256,
                    );
                    vstd::arithmetic::div_mod::lemma_mod_bound(byte_sum(head3 + pre), 256);
                    vstd::arithmetic::div_mod::lemma_mod_bound(
                        byte_sum(head3 + pre) + byte,
                        256,
                    );
                    assert((byte as int) % 256 == byte as int);
                }
                sum = (sum + (byte as u32)) % 256;
                t = t + 1;
            }
            let ghost payload = rxpacket@.subrange(p + 2, p + 2 + data_length);
            proof {
                crate::packet::lemma_byte_sum_nonneg(head3 + payload);
                vstd::arithmetic::div_mod::lemma_mod_bound(byte_sum(head3 + payload), 256);
            }
            let cs: u8 = 255 - (sum as u8);
            proof {
                assert(cs == checksum_of(head3 + payload));
            }
            if rxpacket[p + 2 + data_length] == cs {
                proof {
                    assert(read_rx_spec(rxpacket@, sts_id, data_length as nat, from0) == (
                        Some(seq![error] + payload),
                        CommResult::Success,
                    ));
                }
                return (Some(data), CommResult::Success);
            }
            proof {
                assert(read_rx_spec(rxpacket@, sts_id, data_length as nat, from0) == (
                    None::<Seq<u8>>,
                    CommResult::RxCorrupt,
                ));
            }
            return (None, CommResult::RxCorrupt);
        }
    }

    /// Demultiplex the collected response stream: for every participant,
    /// extract its record and store it; an id whose extraction fails keeps
    /// its old record and clears the group-wide success flag, without
    /// aborting the remaining ids.  A stream shorter than one sub-frame
    /// fails the whole receive; an empty group is `NotAvailable`.  The
    /// collector's outcome is passed through otherwise.
    pub fn rx_apply(&mut self, result: CommResult, rxpacket: &[u8]) -> (r: CommResult)
        requires
            old(self).wf(),
        ensures
            final(self).wf(),
            final(self).start_addr() == old(self).start_addr(),
            final(self).data_len() == old(self).data_len(),
            final(self).param_buf() == old(self).param_buf(),
            final(self).dirty() == old(self).dirty(),
            old(self).entries().len() == 0 ==> r == CommResult::NotAvailable && final(self).entries() == old(self).entries() && final(self).last_ok(),
            old(self).entries().len() > 0 && rxpacket@.len() < old(self).data_len() + 6 ==> r
                == result && final(self).entries() == old(self).entries() && !final(self).last_ok(),
            old(self).entries().len() > 0 && rxpacket@.len() >= old(self).data_len() + 6 ==> r
                == result && final(self).entries().len() == old(self).entries().len() && (forall|k: int|
                0 <= k < old(self).entries().len() ==> final(self).entries()[k].sts_id == old(self).entries()[k].sts_id && (match read_rx_spec(
                    rxpacket@,
                    old(self).entries()[k].sts_id,
                    old(self).data_len() as nat,
                    0,
                ).0 {
                    Some(d) => final(self).entries()[k].data@ == d,
                    None => final(self).entries()[k].data@ == old(self).entries()[k].data@,
                })) && (final(self).last_ok() <==> (forall|k: int|
                0 <= k < old(self).entries().len() ==> read_rx_spec(
                    rxpacket@,
                    old(self).entries()[k].sts_id,
                    old(self).data_len() as nat,
                    0,
                ).0 is Some)),
    {
        self.last_result = true;
        if self.entries.len() == 0 {
            return CommResult::NotAvailable;
        }
        if rxpacket.len() < self.data_length + 6 {
            self.last_result = false;
            return result;
        }
        let mut k: usize = 0;
        while k < self.entries.len()
            invariant
                k <= self.entries@.len(),
                self.entries@.len() == old(self).entries().len(),
                self.data_length as int == old(self).data_len(),
                self.data_length <= 248,
                self.start_address == old(self).start_addr(),
                self.param@ == old(self).param_buf(),
                self.is_param_changed == old(self).dirty(),
                forall|t: int|
                    k <= t < self.entries@.len() ==> self.entries@[t] == old(self).entries()[t],
                forall|t: int|
                    0 <= t < k ==> self.entries@[t].sts_id == old(self).entries()[t].sts_id && (
                    match read_rx_spec(
                        rxpacket@,
                        old(self).entries()[t].sts_id,
                        old(self).data_len() as nat,
                        0,
                    ).0 {
                        Some(d) => self.entries@[t].data@ == d,
                        None => self.entries@[t].data@ == old(self).entries()[t].data@,
                    }),
                self.last_result <==> (forall|t: int|
                    0 <= t < k ==> read_rx_spec(
                        rxpacket@,
                        old(self).entries()[t].sts_id,
                        old(self).data_len() as nat,
                        0,
                    ).0 is Some),
            decreases self.entries@.len() - k,
        {
            let ghost oldk = old(self).entries()[k as int];
            let sts_id = self.entries[k].sts_id;
            proof {
                assert(self.entries@[k as int] == oldk);
            }
            let (extracted, _c) = self.read_rx(rxpacket, sts_id, self.data_length);
            let ghost sk = read_rx_spec(rxpacket@, oldk.sts_id, old(self).data_len() as nat, 0);
            match extracted {
                Some(d) => {
                    proof {
                        assert(sk.0 is Some && d@ == sk.0->Some_0);
                    }
                    self.entries.set(k, GroupEntry { sts_id, data: d });
                    proof {
                        if self.last_result {
                            assert forall|t: int| 0 <= t < k + 1 implies read_rx_spec(
                                rxpacket@,
                                old(self).entries()[t].sts_id,
                                old(self).data_len() as nat,
                                0,
                            ).0 is Some by {}
                        } else {
                            assert(exists|t: int|
                                0 <= t < k && !(read_rx_spec(
                                    rxpacket@,
                                    old(self).entries()[t].sts_id,
                                    old(self).data_len() as nat,
                                    0,
                                ).0 is Some));
                            let t0 = choose|t: int|
                                0 <= t < k && !(read_rx_spec(
                                    rxpacket@,
                                    old(self).entries()[t].sts_id,
                                    old(self).data_len() as nat,
                                    0,
                                ).0 is Some);
                            assert(0 <= t0 < k + 1 && !(read_rx_spec(
                                rxpacket@,
                                old(self).entries()[t0].sts_id,
                                old(self).data_len() as nat,
                                0,
                            ).0 is Some));
                        }
                    }
                },
                None => {
                    self.last_result = false;
                    proof {
                        assert(!(sk.0 is Some));
                        assert(0 <= k < k + 1 && !(read_rx_spec(
                            rxpacket@,
                            old(self).entries()[k as int].sts_id,
                            old(self).data_len() as nat,
                            0,
                        ).0 is Some));
                    }
                },
            }
            k = k + 1;
        }
        proof {
            assert forall|i: int, j: int|
                0 <= i < j < self.entries@.len() implies self.entries@[i].sts_id
                != self.entries@[j].sts_id by {
                assert(self.entries@[i].sts_id == old(self).entries()[i].sts_id);
                assert(self.entries@[j].sts_id == old(self).entries()[j].sts_id);
            }
            assert(id_list(self.entries@) =~= id_list(old(self).entries()));
        }
        result
    }

    /// Whether the last receive recovered, for an id, a record long enough
    /// to answer a read of `data_length` bytes at `address`; on success the
    /// device's reported error byte comes with it.
    pub fn is_available(&self, sts_id: u8, address: u8, data_length: usize) -> (r: (bool, u8))
        requires
            self.wf(),
            data_length <= 248,
        ensures
            !self.contains_id(sts_id) ==> r == (false, 0u8),
            self.contains_id(sts_id) ==> ({
                let d = self.data_of(sts_id);
                if address < self.start_addr() || self.start_addr() + self.data_len() - data_length
                    < address {
                    r == (false, 0u8)
                } else if d.len() == 0 || d.len() < data_length + 1 {
                    r == (false, 0u8)
                } else {
                    r == (true, d[0])
                }
            }),
    {
        let k = match self.find_index(sts_id) {
            Some(k) => k,
            None => {
                return (false, 0);
            },
        };
        proof {
            let ghost i0 = self.id_index(sts_id);
            assert(0 <= i0 < self.entries().len() && self.entries()[i0].sts_id == sts_id);
            assert(i0 == k as int);
        }
        if (address as usize) < (self.start_address as usize) || (self.start_address as usize)
            + self.data_length < (address as usize) + data_length {
            return (false, 0);
        }
        let d = &self.entries[k].data;
        if d.len() == 0 || d.len() < data_length + 1 {
            return (false, 0);
        }
        (true, d[0])
    }

    /// Read back a 1-, 2- or 4-byte field at `address` from the record the
    /// last receive stored for `sts_id`, composing bytes per the handler's
    /// endianness; anything out of bounds (or an unsupported width) reads
    /// as zero.
    pub fn get_data(
        &self,
        ph: &ProtocolPacketHandler,
        sts_id: u8,
        address: u8,
        data_length: usize,
    ) -> (r: u32)
        requires
            self.wf(),
        ensures
            !self.contains_id(sts_id) ==> r == 0,
            self.contains_id(sts_id) ==> ({
                let d = self.data_of(sts_id);
                if address < self.start_addr() {
                    r == 0
                } else {
                    let off = address - self.start_addr() + 1;
                    if data_length == 1 {
                        r == if d.len() > off {
                            d[off] as int
                        } else {
                            0int
                        }
                    } else if data_length == 2 {
                        r == if d.len() > off + 1 {
                            word_value(ph.endian(), d[off], d[off + 1])
                        } else {
                            0int
                        }
                    } else if data_length == 4 {
                        r == if d.len() > off + 3 {
                            dword_value(
                                word_value(ph.endian(), d[off], d[off + 1]) as u16,
                                word_value(ph.endian(), d[off + 2], d[off + 3]) as u16,
                            )
                        } else {
                            0int
                        }
                    } else {
                        r == 0
                    }
                }
            }),
    {
        let k = match self.find_index(sts_id) {
            Some(k) => k,
            None => {
                return 0;
            },
        };
        proof {
            let ghost i0 = self.id_index(sts_id);
            assert(0 <= i0 < self.entries().len() && self.entries()[i0].sts_id == sts_id);
            assert(i0 == k as int);
        }
        if address < self.start_address {
            return 0;
        }
        let offset = (address - self.start_address) as usize + 1;
        let d = &self.entries[k].data;
        if d.len() <= offset {
            return 0;
        }
        if data_length == 1 {
            d[offset] as u32
        } else if data_length == 2 {
            if d.len() <= offset + 1 {
                return 0;
            }
            ph.sts_makeword(d[offset], d[offset + 1]) as u32
        } else if data_length == 4 {
            if d.len() <= offset + 3 {
                return 0;
            }
            ph.sts_makedword(
                ph.sts_makeword(d[offset], d[offset + 1]),
                ph.sts_makeword(d[offset + 2], d[offset + 3]),
            )
        } else {
            0
        }
    }
}

} // verus!
