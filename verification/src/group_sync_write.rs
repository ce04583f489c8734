//! Batched write group: a mapping from device id to a fixed-size payload,
//! serialized lazily into one broadcast sync-write transaction.

use vstd::prelude::*;

use crate::comm::CommResult;
use crate::exchange::PendingWrite;
use crate::exchange::ReplyMode;
use crate::handler::ProtocolPacketHandler;
use crate::packet::BROADCAST_ID;
use crate::packet::INST_SYNC_WRITE;

verus! {

/// One device's slot in a batch group: its id and its payload bytes.
pub struct GroupEntry {
    /// The device id this slot belongs to.
    pub sts_id: u8,
    /// The payload bytes held for (or received from) this device.
    pub data: Vec<u8>,
}

/// No two slots share a device id.
pub open spec fn ids_unique(s: Seq<GroupEntry>) -> bool {
    forall|i: int, j: int| 0 <= i < j < s.len() ==> s[i].sts_id != s[j].sts_id
}

/// The device ids of the slots, in order.
pub open spec fn id_list(s: Seq<GroupEntry>) -> Seq<u8> {
    s.map_values(|e: GroupEntry| e.sts_id)
}

/// The serialized parameter buffer: each slot's id followed by its payload.
pub open spec fn packed(s: Seq<GroupEntry>) -> Seq<u8>
    decreases s.len(),
{
    if s.len() == 0 {
        Seq::empty()
    } else {
        packed(s.drop_last()) + seq![s.last().sts_id] + s.last().data@
    }
}

/// Appending a slot appends its serialization.
pub proof fn lemma_packed_push(s: Seq<GroupEntry>, e: GroupEntry)
    ensures
        packed(s.push(e)) == packed(s) + seq![e.sts_id] + e.data@,
{
    assert(s.push(e).drop_last() =~= s);
}

/// Batched write engine: holds one payload per device id and serializes
/// the whole mapping into a single broadcast sync-write request.
pub struct GroupSyncWrite {
    start_address: u8,
    data_length: usize,
    is_param_changed: bool,
    param: Vec<u8>,
    entries: Vec<GroupEntry>,
}

impl GroupSyncWrite {
    /// The register address every payload is written at.
    pub closed spec fn start_addr(&self) -> u8 {
        self.start_address
    }

    /// The declared payload size of every slot.
    pub closed spec fn data_len(&self) -> int {
        self.data_length as int
    }

    /// The slots, in insertion order.
    pub closed spec fn entries(&self) -> Seq<GroupEntry> {
        self.entries@
    }

    /// The serialized parameter buffer as currently materialized.
    pub closed spec fn param_buf(&self) -> Seq<u8> {
        self.param@
    }

    /// Whether the mapping changed since the buffer was last built.
    pub closed spec fn dirty(&self) -> bool {
        self.is_param_changed
    }

    /// A slot for this id exists.
    pub open spec fn contains_id(&self, sts_id: u8) -> bool {
        exists|i: int| 0 <= i < self.entries().len() && self.entries()[i].sts_id == sts_id
    }

    /// Well-formedness: ids are unique, the declared payload size leaves
    /// room for a sub-frame, every payload respects the declared size, and
    /// a clean non-empty group's buffer is its serialization.
    pub open spec fn wf(&self) -> bool {
        &&& ids_unique(self.entries())
        &&& self.data_len() <= 248
        &&& forall|i: int|
            0 <= i < self.entries().len() ==> self.entries()[i].data@.len() <= self.data_len()
        &&& (!self.dirty() && self.entries().len() > 0 ==> self.param_buf() == packed(
            self.entries(),
        ))
    }

    /// An empty group writing payloads of the given size at the given
    /// start address.
    pub fn new(start_address: u8, data_length: usize) -> (r: Self)
        requires
            data_length <= 248,
        ensures
            r.start_addr() == start_address,
            r.data_len() == data_length,
            r.entries() == Seq::<GroupEntry>::empty(),
            r.param_buf() == Seq::<u8>::empty(),
            !r.dirty(),
            r.wf(),
    {
        GroupSyncWrite {
            start_address,
            data_length,
            is_param_changed: false,
            param: Vec::new(),
            entries: Vec::new(),
        }
    }

    /// Index of the slot holding the given id, if any.
    fn find_index(&self, sts_id: u8) -> (r: Option<usize>)
        ensures
            match r {
                Some(i) => i < self.entries().len() && self.entries()[i as int].sts_id == sts_id,
                None => !self.contains_id(sts_id),
            },
    {
        let mut i: usize = 0;
        while i < self.entries.len()
            invariant
                i <= self.entries().len(),
                forall|j: int| 0 <= j < i ==> self.entries()[j].sts_id != sts_id,
            decreases self.entries().len() - i,
        {
            if self.entries[i].sts_id == sts_id {
                return Some(i);
            }
            i = i + 1;
        }
        None
    }

    /// Reserve a slot for a new id.  The call is refused — and the mapping
    /// left unchanged — if the id is already present or the payload is
    /// longer than the declared size.
    pub fn add_param(&mut self, sts_id: u8, data: Vec<u8>) -> (r: bool)
        requires
            old(self).wf(),
        ensures
            final(self).wf(),
            r == (!old(self).contains_id(sts_id) && data@.len() <= old(self).data_len()),
            r ==> final(self).entries() == old(self).entries().push(
                GroupEntry { sts_id, data },
            ) && final(self).dirty(),
            !r ==> *final(self) == *old(self),
            final(self).param_buf() == old(self).param_buf(),
            final(self).start_addr() == old(self).start_addr(),
            final(self).data_len() == old(self).data_len(),
    {
        if let Some(_i) = self.find_index(sts_id) {
            return false;
        }
        if data.len() > self.data_length {
            return false;
        }
        self.entries.push(GroupEntry { sts_id, data });
        self.is_param_changed = true;
        true
    }

    /// Drop the slot of the given id, if present.
    pub fn remove_param(&mut self, sts_id: u8)
        requires
            old(self).wf(),
        ensures
            final(self).wf(),
            !old(self).contains_id(sts_id) ==> *final(self) == *old(self),
            old(self).contains_id(sts_id) ==> exists|i: int|
                0 <= i < old(self).entries().len() && old(self).entries()[i].sts_id == sts_id
                    && final(self).entries() == old(self).entries().remove(i) && final(self).dirty(),
            final(self).param_buf() == old(self).param_buf(),
            final(self).start_addr() == old(self).start_addr(),
            final(self).data_len() == old(self).data_len(),
    {
        if let Some(i) = self.find_index(sts_id) {
            self.entries.remove(i);
            self.is_param_changed = true;
        }
    }

    /// Replace the payload of an existing id.  The call is refused — and
    /// the mapping left unchanged — if the id is absent or the payload is
    /// longer than the declared size.
    pub fn change_param(&mut self, sts_id: u8, data: Vec<u8>) -> (r: bool)
        requires
            old(self).wf(),
        ensures
            final(self).wf(),
            r == (old(self).contains_id(sts_id) && data@.len() <= old(self).data_len()),
            r ==> exists|i: int|
                0 <= i < old(self).entries().len() && old(self).entries()[i].sts_id == sts_id
                    && final(self).entries() == old(self).entries().update(
                    i,
                    GroupEntry { sts_id, data },
                ) && final(self).dirty(),
            !r ==> *final(self) == *old(self),
            final(self).param_buf() == old(self).param_buf(),
            final(self).start_addr() == old(self).start_addr(),
            final(self).data_len() == old(self).data_len(),
    {
        let i = match self.find_index(sts_id) {
            Some(i) => i,
            None => {
                return false;
            },
        };
        if data.len() > self.data_length {
            return false;
        }
        self.entries.set(i, GroupEntry { sts_id, data });
        self.is_param_changed = true;
        true
    }

    /// Empty the mapping.  Nothing else changes: the serialized buffer and
    /// the dirty flag are left as they are, and an empty group never
    /// transmits.
    pub fn clear_param(&mut self)
        requires
            old(self).wf(),
        ensures
            final(self).wf(),
            final(self).entries() == Seq::<GroupEntry>::empty(),
            final(self).param_buf() == old(self).param_buf(),
            final(self).dirty() == old(self).dirty(),
            final(self).start_addr() == old(self).start_addr(),
            final(self).data_len() == old(self).data_len(),
    {
        self.entries.clear();
    }

    /// Rebuild the serialized parameter buffer from the mapping.
    fn make_param(&mut self)
        ensures
            final(self).param_buf() == packed(final(self).entries()),
            final(self).entries() == old(self).entries(),
            final(self).start_addr() == old(self).start_addr(),
            final(self).data_len() == old(self).data_len(),
            final(self).dirty() == old(self).dirty(),
    {
        self.param.clear();
        let mut k: usize = 0;
        while k < self.entries.len()
            invariant
                k <= self.entries@.len(),
                self.param@ == packed(self.entries@.take(k as int)),
                self.entries@ == old(self).entries(),
                self.start_address == old(self).start_addr(),
                self.data_length as int == old(self).data_len(),
                self.is_param_changed == old(self).dirty(),
            decreases self.entries@.len() - k,
        {
            let ghost pre = self.entries@.take(k as int);
            self.param.push(self.entries[k].sts_id);
            let mut j: usize = 0;
            let n = self.entries[k].data.len();
            while j < n
                invariant
                    j <= n,
                    n == self.entries@[k as int].data@.len(),
                    k < self.entries@.len(),
                    self.param@ == packed(pre) + seq![self.entries@[k as int].sts_id]
                        + self.entries@[k as int].data@.subrange(0, j as int),
                    pre == self.entries@.take(k as int),
                    self.entries@ == old(self).entries(),
                    self.start_address == old(self).start_addr(),
                    self.data_length as int == old(self).data_len(),
                    self.is_param_changed == old(self).dirty(),
                decreases n - j,
            {
                let b = self.entries[k].data[j];
                self.param.push(b);
                proof {
                    assert(self.entries@[k as int].data@.subrange(0, j + 1)
                        =~= self.entries@[k as int].data@.subrange(0, j as int).push(b));
                }
                j = j + 1;
            }
            proof {
                let e = self.entries@[k as int];
                assert(e.data@.subrange(0, e.data@.len() as int) =~= e.data@);
                lemma_packed_push(pre, e);
                assert(pre.push(e) =~= self.entries@.take(k + 1));
            }
            k = k + 1;
        }
        proof {
            assert(self.entries@.take(self.entries@.len() as int) =~= self.entries@);
        }
    }

    /// Serialize the mapping (rebuilding lazily where needed) into one
    /// broadcast sync-write request.  An empty group yields `NotAvailable`
    /// without touching anything.
    pub fn tx_packet(&mut self, ph: &ProtocolPacketHandler) -> (r: Result<PendingWrite, CommResult>)
        requires
            old(self).wf(),
        ensures
            final(self).wf(),
            final(self).entries() == old(self).entries(),
            final(self).start_addr() == old(self).start_addr(),
            final(self).data_len() == old(self).data_len(),
            old(self).entries().len() == 0 ==> r is Err && r->Err_0 == CommResult::NotAvailable
                && *final(self) == *old(self),
            old(self).entries().len() > 0 ==> r is Ok && ({
                let p = r->Ok_0;
                &&& p.target() == BROADCAST_ID
                &&& p.inst() == INST_SYNC_WRITE
                &&& p.params() == seq![
                    old(self).start_addr(),
                    old(self).data_len() as u8,
                ] + packed(old(self).entries())
                &&& p.mode() == ReplyMode::AwaitStatus
                &&& p.wf()
            }) && final(self).param_buf() == packed(old(self).entries()) && !final(self).dirty(),
    {
        if self.entries.len() == 0 {
            return Err(CommResult::NotAvailable);
        }
        if self.is_param_changed || self.param.len() == 0 {
            self.make_param();
            self.is_param_changed = false;
        }
        Ok(ph.sync_write_request(self.start_address, self.data_length as u8, self.param.as_slice()))
    }
}

} // verus!
