//! Timeout-governed receive state machine with header resynchronization.
//!
//! Incoming bytes are accumulated in a buffer and drained through a decoder
//! that scans for the two-byte header — accumulating until one appears —
//! discards leading noise one step at a time, adapts the waited-for length
//! to the length byte the device reports, and finally checks the checksum.
//! The whole decision procedure is captured by the spec function
//! [`rx_machine`]; [`RxEngine::advance`] is proved to implement it exactly.

use vstd::prelude::*;

use crate::comm::CommResult;
use crate::packet::accepted_frame;
use crate::packet::byte_sum;
use crate::packet::checksum_of;
use crate::packet::compute_checksum;
use crate::packet::frame_for;
use crate::packet::lemma_byte_sum_update;
use crate::packet::lemma_frame_for_accepted;
use crate::packet::MAX_ID;
use crate::packet::RXPACKET_MAX_LEN;
use crate::packet::TXPACKET_MAX_LEN;

verus! {

/// Outcome of one drain pass: either more bytes are needed, or the receive
/// side of the transaction ended with the given outcome.
#[derive(Clone, Copy, Debug, PartialEq, Eq, Structural)]
pub enum RxPoll {
    /// The accumulated bytes do not yet decide the transaction.
    NeedMore,
    /// The transaction ended; the engine's buffer holds what was received.
    Done(CommResult),
}

/// A two-byte header `FF FF` sits at offset `i`.
pub open spec fn has_header_at(b: Seq<u8>, i: int) -> bool {
    0 <= i && i + 1 < b.len() && b[i] == 0xff && b[i + 1] == 0xff
}

/// Offset of the first header occurrence, if any.
pub open spec fn find_header(b: Seq<u8>) -> Option<int>
    decreases b.len(),
{
    if b.len() < 2 {
        None
    } else if b[0] == 0xff && b[1] == 0xff {
        Some(0)
    } else {
        match find_header(b.skip(1)) {
            Some(i) => Some(i + 1),
            None => None,
        }
    }
}

/// `find_header` returns the least offset carrying a header, or reports that
/// none does.
pub proof fn lemma_find_header_first(b: Seq<u8>)
    ensures
        match find_header(b) {
            Some(i) => has_header_at(b, i) && (forall|j: int|
                0 <= j < i ==> !has_header_at(b, j)),
            None => forall|j: int| !has_header_at(b, j),
        },
    decreases b.len(),
{
    if b.len() < 2 {
    } else if b[0] == 0xff && b[1] == 0xff {
    } else {
        let tail = b.skip(1);
        lemma_find_header_first(tail);
        assert(forall|j: int| 0 <= j && j + 1 < tail.len() ==> tail[j] == b[j + 1]);
        match find_header(tail) {
            Some(i) => {
                assert(has_header_at(b, i + 1));
                assert forall|j: int| 0 <= j < i + 1 implies !has_header_at(b, j) by {
                    if j != 0 && has_header_at(b, j) {
                        assert(has_header_at(tail, j - 1));
                    }
                }
            },
            None => {
                assert forall|j: int| !has_header_at(b, j) by {
                    if j != 0 && has_header_at(b, j) {
                        assert(has_header_at(tail, j - 1));
                    }
                }
            },
        }
    }
}

/// A found header offset lies within the buffer, with a byte after it.
pub proof fn lemma_find_header_bounds(b: Seq<u8>)
    ensures
        find_header(b) is Some ==> 0 <= find_header(b)->Some_0 < b.len() - 1,
    decreases b.len(),
{
    if b.len() < 2 {
    } else if b[0] == 0xff && b[1] == 0xff {
    } else {
        lemma_find_header_bounds(b.skip(1));
    }
}

/// A wait length the machine can hold: at least the minimal frame head,
/// at most the largest length byte plus the frame overhead.
pub open spec fn rx_wf(wait: int) -> bool {
    4 <= wait <= 254
}

/// The machine's holding answer while no decision can be made: keep
/// accumulating, or — once the budget is consumed — report `RxTimeout`
/// (nothing at all arrived) or `RxCorrupt` (a partial or garbled stream).
pub open spec fn rx_stall(b: Seq<u8>, wait: int, timed_out: bool) -> (Seq<u8>, int, RxPoll) {
    (
        b,
        wait,
        if timed_out {
            RxPoll::Done(
                if b.len() == 0 {
                    CommResult::RxTimeout
                } else {
                    CommResult::RxCorrupt
                },
            )
        } else {
            RxPoll::NeedMore
        },
    )
}

/// The receive decision procedure over the accumulated bytes `b` and the
/// currently waited-for total length `wait`.
///
/// While fewer bytes than `wait` (or than the five needed to inspect the
/// id, length and error bytes) are on hand, or while no two-byte header
/// occurs anywhere in the buffer, the machine stalls: it asks for more
/// bytes, or reports `RxTimeout` (nothing ever arrived) or `RxCorrupt` (a
/// partial or garbled stream) once the budget is consumed — nothing is
/// ever validated without a header.  With enough bytes and a header on
/// hand it discards everything before the first header, drops one leading
/// byte on an invalid id, length or error byte, re-targets `wait` to the
/// length the device reported, and finally compares the checksum.  The
/// result carries the remaining buffer, the final wait length, and the
/// decision.
pub open spec fn rx_machine(b: Seq<u8>, wait: int, timed_out: bool) -> (Seq<u8>, int, RxPoll)
    decreases 2 * b.len() + (if b.len() >= 5 && wait != b[3] + 4 {
        1int
    } else {
        0int
    }),
{
    if b.len() < wait || b.len() < 5 {
        rx_stall(b, wait, timed_out)
    } else {
        proof {
            lemma_find_header_bounds(b);
        }
        match find_header(b) {
            None => rx_stall(b, wait, timed_out),
            Some(idx) => {
                if idx != 0 {
                    rx_machine(b.skip(idx), wait, timed_out)
                } else if b[2] > MAX_ID || b[3] > RXPACKET_MAX_LEN as u8 || b[4] > 0x7f {
                    rx_machine(b.skip(1), wait, timed_out)
                } else if wait != b[3] + 4 {
                    rx_machine(b, b[3] + 4, timed_out)
                } else {
                    let cs = checksum_of(b.subrange(2, wait - 1));
                    (
                        b,
                        wait,
                        RxPoll::Done(
                            if b[wait - 1] == cs {
                                CommResult::Success
                            } else {
                                CommResult::RxCorrupt
                            },
                        ),
                    )
                }
            },
        }
    }
}

/// The machine accepts a well-formed frame sitting at the front of the
/// stream: it ends with `Success` and keeps every byte.
pub proof fn lemma_rx_machine_accepts(b: Seq<u8>, wait: int, timed_out: bool)
    requires
        accepted_frame(b),
        rx_wf(wait),
        wait <= b.len(),
    ensures
        rx_machine(b, wait, timed_out) == (b, b[3] + 4int, RxPoll::Done(CommResult::Success)),
{
    assert(find_header(b) == Some(0int));
    let nw = b[3] + 4;
    if wait != nw {
        assert(rx_machine(b, wait, timed_out) == rx_machine(b, nw, timed_out));
    }
    assert(b[nw - 1] == checksum_of(b.subrange(2, nw - 1)));
    assert(rx_machine(b, nw, timed_out) == (b, nw, RxPoll::Done(CommResult::Success)));
}

/// Resynchronization: noise holding no occurrence of the two-byte header
/// sequence in front of a well-formed frame is discarded and the frame is
/// still accepted, with every one of its bytes recovered.  Where the last
/// noise byte is the header byte itself, the pair straddling the boundary
/// is found instead, and the id check drops the surplus byte.
pub proof fn lemma_rx_machine_resync(noise: Seq<u8>, b: Seq<u8>, timed_out: bool)
    requires
        1 <= noise.len(),
        forall|i: int|
            0 <= i < noise.len() - 1 ==> !((#[trigger] noise[i]) == 0xff && noise[i + 1] == 0xff),
        accepted_frame(b),
        b.len() >= 6,
    ensures
        rx_machine(noise + b, 6, timed_out) == (b, b[3] + 4int, RxPoll::Done(CommResult::Success)),
{
    let nb = noise + b;
    let k = noise.len() as int;
    lemma_find_header_first(nb);
    assert(nb[k] == b[0]);
    assert(nb[k + 1] == b[1]);
    if noise.last() != 0xff {
        assert(has_header_at(nb, k));
        match find_header(nb) {
            Some(i) => {
                assert(i <= k);
                if i < k {
                    assert(has_header_at(nb, i));
                    if i + 1 < k {
                        assert(noise[i] == 0xff && noise[i + 1] == 0xff);
                        assert(false);
                    } else {
                        assert(nb[i] == noise[i]);
                        assert(noise[i] == noise.last());
                        assert(false);
                    }
                }
                assert(i == k);
            },
            None => {
                assert(false);
            },
        }
        assert(nb.skip(k) =~= b);
        assert(rx_machine(nb, 6, timed_out) == rx_machine(b, 6, timed_out));
        lemma_rx_machine_accepts(b, 6, timed_out);
    } else {
        assert(nb[k - 1] == noise.last());
        assert(has_header_at(nb, k - 1));
        match find_header(nb) {
            Some(i) => {
                assert(i <= k - 1);
                if i < k - 1 {
                    assert(has_header_at(nb, i));
                    assert(noise[i] == 0xff && noise[i + 1] == 0xff);
                    assert(false);
                }
                assert(i == k - 1);
            },
            None => {
                assert(false);
            },
        }
        let m = seq![0xffu8] + b;
        if k == 1 {
            assert(nb =~= m);
        } else {
            assert(nb.skip(k - 1) =~= m);
            assert(rx_machine(nb, 6, timed_out) == rx_machine(m, 6, timed_out));
        }
        // the surplus header byte fails the id check and is dropped
        assert(find_header(m) == Some(0int));
        assert(m[2] == b[1]);
        assert(m.skip(1) =~= b);
        assert(rx_machine(m, 6, timed_out) == rx_machine(b, 6, timed_out));
        lemma_rx_machine_accepts(b, 6, timed_out);
    }
}

/// Corruption detection: flipping one byte strictly between the header and
/// the checksum of an exact well-formed frame is reported as `RxCorrupt`,
/// never as `Success`, provided the flip leaves the length byte alone and
/// keeps the id and error bytes in their valid ranges (a flip outside those
/// ranges sends the machine back into resynchronization instead).
pub proof fn lemma_rx_machine_corruption(f: Seq<u8>, j: int, v: u8, timed_out: bool)
    requires
        accepted_frame(f),
        f.len() >= 6,
        f.len() == f[3] + 4,
        2 <= j < f.len() - 1,
        j != 3,
        v != f[j],
        j == 2 ==> v <= MAX_ID,
        j == 4 ==> v <= 0x7f,
    ensures
        rx_machine(f.update(j, v), 6, timed_out) == (
            f.update(j, v),
            f[3] + 4int,
            RxPoll::Done(CommResult::RxCorrupt),
        ),
{
    let g = f.update(j, v);
    assert(find_header(g) == Some(0int));
    let nw = f[3] + 4;
    let span_f = f.subrange(2, nw - 1);
    let span_g = g.subrange(2, nw - 1);
    assert(span_g =~= span_f.update(j - 2, v));
    lemma_byte_sum_update(span_f, j - 2, v);
    let sf = byte_sum(span_f);
    let sg = byte_sum(span_g);
    let d = sg - sf;
    assert(d == v - f[j]);
    assert(sf % 256 != sg % 256) by {
        vstd::arithmetic::div_mod::lemma_mod_add_multiples_vanish(sf, 256);
        vstd::arithmetic::div_mod::lemma_add_mod_noop(sf, d, 256);
        vstd::arithmetic::div_mod::lemma_mod_bound(sf, 256);
        if d > 0 {
            vstd::arithmetic::div_mod::lemma_small_mod(d as nat, 256);
            vstd::arithmetic::div_mod::lemma_add_mod_noop(sf % 256, d, 256);
            if (sf % 256) + d < 256 {
                vstd::arithmetic::div_mod::lemma_small_mod(((sf % 256) + d) as nat, 256);
            } else {
                vstd::arithmetic::div_mod::lemma_mod_sub_multiples_vanish((sf % 256) + d, 256);
                vstd::arithmetic::div_mod::lemma_small_mod(((sf % 256) + d - 256) as nat, 256);
            }
        } else {
            vstd::arithmetic::div_mod::lemma_add_mod_noop(sf % 256, d, 256);
            if (sf % 256) + d >= 0 {
                vstd::arithmetic::div_mod::lemma_small_mod(((sf % 256) + d) as nat, 256);
            } else {
                vstd::arithmetic::div_mod::lemma_mod_add_multiples_vanish((sf % 256) + d, 256);
                vstd::arithmetic::div_mod::lemma_small_mod(((sf % 256) + d + 256) as nat, 256);
            }
        }
    }
    assert(checksum_of(span_g) != checksum_of(span_f)) by {
        crate::packet::lemma_byte_sum_nonneg(span_f);
        crate::packet::lemma_byte_sum_nonneg(span_g);
        vstd::arithmetic::div_mod::lemma_mod_bound(sf, 256);
        vstd::arithmetic::div_mod::lemma_mod_bound(sg, 256);
    }
    assert(g[nw - 1] == f[nw - 1]);
    assert(f[nw - 1] == checksum_of(span_f));
    if 6 != nw {
        assert(rx_machine(g, 6, timed_out) == rx_machine(g, nw, timed_out));
    }
    assert(rx_machine(g, nw, timed_out) == (g, nw, RxPoll::Done(CommResult::RxCorrupt)));
}

/// With the budget consumed the machine always decides: it never asks for
/// more input, and the decision is a timeout, a corruption report, or a
/// success.
pub proof fn lemma_rx_machine_total_on_timeout(b: Seq<u8>, wait: int)
    requires
        rx_wf(wait),
    ensures
        rx_machine(b, wait, true).2 == RxPoll::Done(CommResult::RxTimeout) || rx_machine(
            b,
            wait,
            true,
        ).2 == RxPoll::Done(CommResult::RxCorrupt) || rx_machine(b, wait, true).2 == RxPoll::Done(
            CommResult::Success,
        ),
    decreases 2 * b.len() + (if b.len() >= 5 && wait != b[3] + 4 {
        1int
    } else {
        0int
    }),
{
    if b.len() < wait || b.len() < 5 {
    } else {
        lemma_find_header_bounds(b);
        match find_header(b) {
            None => {},
            Some(idx) => {
                if idx != 0 {
                    lemma_rx_machine_total_on_timeout(b.skip(idx), wait);
                } else if b[2] > MAX_ID || b[3] > RXPACKET_MAX_LEN as u8 || b[4] > 0x7f {
                    lemma_rx_machine_total_on_timeout(b.skip(1), wait);
                } else if wait != b[3] + 4 {
                    lemma_rx_machine_total_on_timeout(b, b[3] + 4);
                } else {
                }
            },
        }
    }
}

/// A timeout is reported only for complete silence: once any byte has been
/// accumulated, the machine never answers `RxTimeout`.
pub proof fn lemma_rx_machine_timeout_means_silence(b: Seq<u8>, wait: int, timed_out: bool)
    requires
        rx_wf(wait),
        b.len() > 0,
    ensures
        rx_machine(b, wait, timed_out).2 != RxPoll::Done(CommResult::RxTimeout),
    decreases 2 * b.len() + (if b.len() >= 5 && wait != b[3] + 4 {
        1int
    } else {
        0int
    }),
{
    if b.len() < wait || b.len() < 5 {
    } else {
        lemma_find_header_bounds(b);
        match find_header(b) {
            None => {},
            Some(idx) => {
                if idx != 0 {
                    lemma_rx_machine_timeout_means_silence(b.skip(idx), wait, timed_out);
                } else if b[2] > MAX_ID || b[3] > RXPACKET_MAX_LEN as u8 || b[4] > 0x7f {
                    lemma_rx_machine_timeout_means_silence(b.skip(1), wait, timed_out);
                } else if wait != b[3] + 4 {
                    lemma_rx_machine_timeout_means_silence(b, b[3] + 4, timed_out);
                } else {
                }
            },
        }
    }
}

/// Soundness of acceptance: a `Success` decision means the bytes the engine
/// kept are a suffix of the input stream forming an accepted frame — the
/// two header bytes included.
pub proof fn lemma_rx_machine_success_sound(b: Seq<u8>, wait: int, timed_out: bool)
    requires
        rx_wf(wait),
    ensures
        rx_machine(b, wait, timed_out).2 == RxPoll::Done(CommResult::Success) ==> exists|k: int|
            0 <= k <= b.len() && rx_machine(b, wait, timed_out).0 == b.skip(k) && accepted_frame(
                b.skip(k),
            ),
    decreases 2 * b.len() + (if b.len() >= 5 && wait != b[3] + 4 {
        1int
    } else {
        0int
    }),
{
    if b.len() < wait || b.len() < 5 {
    } else {
        lemma_find_header_bounds(b);
        match find_header(b) {
            None => {},
            Some(idx) => {
                if idx != 0 {
                    lemma_rx_machine_success_sound(b.skip(idx), wait, timed_out);
                    if rx_machine(b, wait, timed_out).2 == RxPoll::Done(CommResult::Success) {
                        let k = choose|k: int|
                            0 <= k <= b.skip(idx).len() && rx_machine(b.skip(idx), wait, timed_out).0
                                == b.skip(idx).skip(k) && accepted_frame(b.skip(idx).skip(k));
                        assert(b.skip(idx).skip(k) =~= b.skip(idx + k));
                        assert(0 <= idx + k <= b.len() && rx_machine(b, wait, timed_out).0 == b.skip(
                            idx + k,
                        ) && accepted_frame(b.skip(idx + k)));
                    }
                } else if b[2] > MAX_ID || b[3] > RXPACKET_MAX_LEN as u8 || b[4] > 0x7f {
                    lemma_rx_machine_success_sound(b.skip(1), wait, timed_out);
                    if rx_machine(b, wait, timed_out).2 == RxPoll::Done(CommResult::Success) {
                        let k = choose|k: int|
                            0 <= k <= b.skip(1).len() && rx_machine(b.skip(1), wait, timed_out).0
                                == b.skip(1).skip(k) && accepted_frame(b.skip(1).skip(k));
                        assert(b.skip(1).skip(k) =~= b.skip(1 + k));
                        assert(0 <= 1 + k <= b.len() && rx_machine(b, wait, timed_out).0 == b.skip(
                            1 + k,
                        ) && accepted_frame(b.skip(1 + k)));
                    }
                } else if wait != b[3] + 4 {
                    lemma_rx_machine_success_sound(b, b[3] + 4, timed_out);
                } else {
                    if rx_machine(b, wait, timed_out).2 == RxPoll::Done(CommResult::Success) {
                        lemma_find_header_first(b);
                        assert(has_header_at(b, 0));
                        assert(b.skip(0) =~= b);
                        assert(accepted_frame(b));
                    }
                }
            },
        }
    }
}

/// Checksum round-trip: a frame built for any single-device id, any
/// instruction with a clear reserved bit, and any parameter list within the
/// transmit budget is decoded back to the identical id, instruction and
/// parameters, and its trailing byte equals the recomputed checksum.
pub proof fn lemma_checksum_round_trip(id: u8, inst: u8, params: Seq<u8>, timed_out: bool)
    requires
        id <= MAX_ID,
        inst <= 0x7f,
        params.len() + 6 <= TXPACKET_MAX_LEN,
    ensures
        ({
            let f = frame_for(id, inst, params);
            &&& rx_machine(f, 6, timed_out) == (
                f,
                params.len() + 6int,
                RxPoll::Done(CommResult::Success),
            )
            &&& f[2] == id
            &&& f[4] == inst
            &&& f.subrange(5, params.len() as int + 5) == params
            &&& f.last() == checksum_of(f.subrange(2, f.len() - 1))
        }),
{
    let f = frame_for(id, inst, params);
    lemma_frame_for_accepted(id, inst, params);
    lemma_rx_machine_accepts(f, 6, timed_out);
}

/// Timeout discrimination: with the budget consumed the machine always
/// decides; complete silence is reported as `RxTimeout`, while a non-empty
/// stream that contains no well-formed frame at any offset is reported as
/// `RxCorrupt` — never as a timeout.  "No well-formed frame" means no
/// suffix of the stream forms an accepted frame, header included.
pub proof fn lemma_timeout_discrimination(b: Seq<u8>, wait: int)
    requires
        rx_wf(wait),
    ensures
        b.len() == 0 ==> rx_machine(b, wait, true) == (b, wait, RxPoll::Done(CommResult::RxTimeout)),
        b.len() > 0 ==> rx_machine(b, wait, true).2 is Done && rx_machine(b, wait, true).2
            != RxPoll::Done(CommResult::RxTimeout),
        b.len() > 0 && (forall|k: int| 0 <= k <= b.len() ==> !accepted_frame(#[trigger] b.skip(k)))
            ==> rx_machine(b, wait, true).2 == RxPoll::Done(CommResult::RxCorrupt),
{
    if b.len() == 0 {
        assert(rx_machine(b, wait, true) == (b, wait, RxPoll::Done(CommResult::RxTimeout)));
    } else {
        lemma_rx_machine_total_on_timeout(b, wait);
        lemma_rx_machine_timeout_means_silence(b, wait, true);
        lemma_rx_machine_success_sound(b, wait, true);
    }
}

/// Incremental receiver for one transaction: accumulates the bytes the
/// caller reads from the channel and drains them through [`rx_machine`].
pub struct RxEngine {
    buffer: Vec<u8>,
    wait_length: usize,
}

impl RxEngine {
    /// Bytes accumulated and not yet discarded by a decision.
    pub closed spec fn buf(&self) -> Seq<u8> {
        self.buffer@
    }

    /// Total frame size currently waited for.
    pub closed spec fn wait(&self) -> int {
        self.wait_length as int
    }

    /// The wait length stays within the machine's range.
    pub open spec fn wf(&self) -> bool {
        rx_wf(self.wait())
    }

    /// A fresh engine waits for the minimal complete frame.
    pub fn new() -> (r: Self)
        ensures
            r.buf() == Seq::<u8>::empty(),
            r.wait() == 6,
            r.wf(),
    {
        RxEngine { buffer: Vec::new(), wait_length: 6 }
    }

    /// How many further bytes the machine wants before its next decision.
    pub fn wanted(&self) -> (r: usize)
        ensures
            r == if self.wait() > self.buf().len() {
                self.wait() - self.buf().len()
            } else {
                0int
            },
    {
        if self.wait_length > self.buffer.len() {
            self.wait_length - self.buffer.len()
        } else {
            0
        }
    }

    /// Surrender the accumulated bytes once the transaction has ended.
    pub fn into_packet(self) -> (r: Vec<u8>)
        ensures
            r@ == self.buf(),
    {
        self.buffer
    }

    /// Surrender the accumulated bytes and return to the fresh state, ready
    /// for the next frame.
    pub fn take(&mut self) -> (r: Vec<u8>)
        ensures
            r@ == old(self).buf(),
            final(self).buf() == Seq::<u8>::empty(),
            final(self).wait() == 6,
            final(self).wf(),
    {
        let mut out: Vec<u8> = Vec::new();
        out.append(&mut self.buffer);
        self.wait_length = 6;
        out
    }

    /// One byte of the accumulated buffer.
    pub fn byte_at(&self, i: usize) -> (r: u8)
        requires
            i < self.buf().len(),
        ensures
            r == self.buf()[i as int],
    {
        self.buffer[i]
    }

    /// First header offset in the buffer, if a header occurs at all.
    fn scan_header(&self) -> (r: Option<usize>)
        ensures
            match find_header(self.buf()) {
                Some(i) => r is Some && r->Some_0 == i,
                None => r is None,
            },
    {
        proof {
            lemma_find_header_first(self.buffer@);
        }
        let n = self.buffer.len();
        if n < 2 {
            proof {
                assert(find_header(self.buffer@) is None);
            }
            return None;
        }
        let mut i: usize = 0;
        while i + 1 < n
            invariant
                n == self.buffer@.len(),
                2 <= n,
                i <= n - 1,
                forall|j: int| 0 <= j < i ==> !has_header_at(self.buffer@, j),
            decreases n - i,
        {
            if self.buffer[i] == 0xff && self.buffer[i + 1] == 0xff {
                proof {
                    lemma_find_header_first(self.buffer@);
                    assert(has_header_at(self.buffer@, i as int));
                }
                return Some(i);
            }
            i = i + 1;
        }
        proof {
            lemma_find_header_first(self.buffer@);
            if find_header(self.buffer@) is Some {
                let k = find_header(self.buffer@)->Some_0;
                assert(has_header_at(self.buffer@, k));
            }
        }
        None
    }

    /// Append the newly read bytes and drain the machine until it either
    /// needs more input or decides the transaction.  The result, together
    /// with the engine's new state, is exactly what [`rx_machine`] computes
    /// on the combined byte stream.
    pub fn advance(&mut self, data: &[u8], timed_out: bool) -> (r: RxPoll)
        requires
            old(self).wf(),
        ensures
            final(self).wf(),
            (final(self).buf(), final(self).wait(), r) == rx_machine(
                old(self).buf() + data@,
                old(self).wait(),
                timed_out,
            ),
    {
        let ghost b0 = self.buffer@ + data@;
        let ghost w0 = self.wait_length as int;
        let mut k: usize = 0;
        while k < data.len()
            invariant
                k <= data@.len(),
                self.buffer@ == old(self).buf() + data@.subrange(0, k as int),
                self.wait_length == old(self).wait_length,
            decreases data@.len() - k,
        {
            self.buffer.push(data[k]);
            proof {
                assert(old(self).buf() + data@.subrange(0, k + 1) =~= (old(self).buf()
                    + data@.subrange(0, k as int)).push(data@[k as int]));
            }
            k = k + 1;
        }
        proof {
            assert(data@.subrange(0, data@.len() as int) =~= data@);
            assert(self.buffer@ =~= b0);
        }
        loop
            invariant
                b0 == old(self).buf() + data@,
                w0 == old(self).wait(),
                rx_wf(self.wait_length as int),
                rx_machine(self.buffer@, self.wait_length as int, timed_out) == rx_machine(
                    b0,
                    w0,
                    timed_out,
                ),
                rx_wf(w0),
            decreases 2 * self.buffer.len() + (if self.buffer@.len() >= 5 && self.wait_length
                != self.buffer@[3] + 4 {
                1int
            } else {
                0int
            }),
        {
            let n = self.buffer.len();
            if n < self.wait_length || n < 5 {
                proof {
                    let bb = self.buffer@;
                    let w = self.wait_length as int;
                    assert(rx_machine(bb, w, timed_out) == (
                        bb,
                        w,
                        if timed_out {
                            RxPoll::Done(
                                if bb.len() == 0 {
                                    CommResult::RxTimeout
                                } else {
                                    CommResult::RxCorrupt
                                },
                            )
                        } else {
                            RxPoll::NeedMore
                        },
                    ));
                }
                if timed_out {
                    if n == 0 {
                        return RxPoll::Done(CommResult::RxTimeout);
                    }
                    return RxPoll::Done(CommResult::RxCorrupt);
                }
                return RxPoll::NeedMore;
            }
            let idx = match self.scan_header() {
                Some(idx) => idx,
                None => {
                    proof {
                        let bb = self.buffer@;
                        let w = self.wait_length as int;
                        assert(rx_machine(bb, w, timed_out) == rx_stall(bb, w, timed_out));
                    }
                    if timed_out {
                        return RxPoll::Done(CommResult::RxCorrupt);
                    }
                    return RxPoll::NeedMore;
                },
            };
            if idx != 0 {
                proof {
                    lemma_find_header_bounds(self.buffer@);
                }
                let ghost pre = self.buffer@;
                let tail = self.buffer.split_off(idx);
                self.buffer = tail;
                proof {
                    assert(self.buffer@ =~= pre.skip(idx as int));
                    assert(rx_machine(pre, self.wait_length as int, timed_out) == rx_machine(
                        self.buffer@,
                        self.wait_length as int,
                        timed_out,
                    ));
                }
            } else if self.buffer[2] > MAX_ID || self.buffer[3] as usize > RXPACKET_MAX_LEN
                || self.buffer[4] > 0x7f {
                let ghost pre = self.buffer@;
                self.buffer.remove(0);
                proof {
                    assert(self.buffer@ =~= pre.skip(1));
                    assert(rx_machine(pre, self.wait_length as int, timed_out) == rx_machine(
                        self.buffer@,
                        self.wait_length as int,
                        timed_out,
                    ));
                }
            } else {
                let new_wait = self.buffer[3] as usize + 4;
                if new_wait != self.wait_length {
                    let ghost wpre = self.wait_length as int;
                    self.wait_length = new_wait;
                    proof {
                        assert(rx_machine(self.buffer@, wpre, timed_out) == rx_machine(
                            self.buffer@,
                            new_wait as int,
                            timed_out,
                        ));
                    }
                } else {
                    let cs = compute_checksum(&self.buffer, 2, self.wait_length - 1);
                    proof {
                        let bb = self.buffer@;
                        let w = self.wait_length as int;
                        assert(rx_machine(bb, w, timed_out) == (
                            bb,
                            w,
                            RxPoll::Done(
                                if bb[w - 1] == checksum_of(bb.subrange(2, w - 1)) {
                                    CommResult::Success
                                } else {
                                    CommResult::RxCorrupt
                                },
                            ),
                        ));
                    }
                    if self.buffer[self.wait_length - 1] == cs {
                        return RxPoll::Done(CommResult::Success);
                    }
                    return RxPoll::Done(CommResult::RxCorrupt);
                }
            }
        }
    }
}

} // verus!
