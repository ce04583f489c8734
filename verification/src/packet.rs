//! Wire frame layout, checksum, and frame construction.
//!
//! A frame is `[0xFF, 0xFF, id, length, instruction_or_error, params.., checksum]`
//! where `length = params.len() + 2` and the checksum is the bitwise complement
//! of the sum, modulo 256, of every byte from the id through the last parameter.

use vstd::prelude::*;

verus! {

/// Offset of the first header byte.
pub const PKT_HEADER_0: usize = 0;
/// Offset of the second header byte.
pub const PKT_HEADER_1: usize = 1;
/// Offset of the device id byte.
pub const PKT_ID: usize = 2;
/// Offset of the length byte.
pub const PKT_LENGTH: usize = 3;
/// Offset of the instruction byte in a request.
pub const PKT_INSTRUCTION: usize = 4;
/// Offset of the error byte in a response.
pub const PKT_ERROR: usize = 4;
/// Offset of the first parameter byte.
pub const PKT_PARAMETER0: usize = 5;

/// Sentinel id addressing every device; no device replies to it.
pub const BROADCAST_ID: u8 = 0xFE;
/// Largest device id that addresses a single device.
pub const MAX_ID: u8 = 0xFD;
/// Largest total frame size accepted for transmission.
pub const TXPACKET_MAX_LEN: usize = 250;
/// Largest value accepted in the length byte of a received frame.
pub const RXPACKET_MAX_LEN: usize = 250;

/// Ping instruction: zero parameters, replies with a status frame.
pub const INST_PING: u8 = 1;
/// Read instruction: parameters are address and byte count.
pub const INST_READ: u8 = 2;
/// Write instruction: parameters are address and data bytes.
pub const INST_WRITE: u8 = 3;
/// Batched read addressed to many devices in one broadcast frame.
pub const INST_SYNC_READ: u8 = 0x82;
/// Batched write addressed to many devices in one broadcast frame.
pub const INST_SYNC_WRITE: u8 = 0x83;

/// Sum of a byte sequence as an unbounded integer.
pub open spec fn byte_sum(s: Seq<u8>) -> int
    decreases s.len(),
{
    if s.len() == 0 {
        0
    } else {
        byte_sum(s.drop_last()) + s.last()
    }
}

/// Protocol checksum: bitwise complement of the sum modulo 256.
pub open spec fn checksum_of(s: Seq<u8>) -> u8 {
    (255 - byte_sum(s) % 256) as u8
}

/// The complete frame carrying `inst` to device `id` with the given parameters.
pub open spec fn frame_for(id: u8, inst: u8, params: Seq<u8>) -> Seq<u8> {
    let body = seq![id, (params.len() + 2) as u8, inst] + params;
    seq![0xffu8, 0xffu8] + body + seq![checksum_of(body)]
}

/// A byte sequence beginning with a frame the receive machine accepts: an
/// intact two-byte header, an id below the broadcast sentinel, a length
/// within budget, a clear protocol-reserved bit in the error byte, enough
/// bytes on hand, and a matching checksum.
pub open spec fn accepted_frame(b: Seq<u8>) -> bool {
    &&& b.len() >= 5
    &&& b[0] == 0xff
    &&& b[1] == 0xff
    &&& b[2] <= MAX_ID
    &&& b[3] <= RXPACKET_MAX_LEN as u8
    &&& b[4] <= 0x7f
    &&& b.len() >= b[3] + 4
    &&& b[b[3] + 3] == checksum_of(b.subrange(2, b[3] + 3))
}

/// Appending one byte adds it to the sum.
pub proof fn lemma_byte_sum_push(s: Seq<u8>, x: u8)
    ensures
        byte_sum(s.push(x)) == byte_sum(s) + x,
{
    assert(s.push(x).drop_last() =~= s);
}

/// Replacing one byte shifts the sum by the difference of the bytes.
pub proof fn lemma_byte_sum_update(s: Seq<u8>, k: int, v: u8)
    requires
        0 <= k < s.len(),
    ensures
        byte_sum(s.update(k, v)) == byte_sum(s) - s[k] + v,
    decreases s.len(),
{
    if k == s.len() - 1 {
        assert(s.update(k, v).drop_last() =~= s.drop_last());
    } else {
        assert(s.update(k, v).drop_last() =~= s.drop_last().update(k, v));
        lemma_byte_sum_update(s.drop_last(), k, v);
    }
}

/// The sum of a byte sequence is never negative.
pub proof fn lemma_byte_sum_nonneg(s: Seq<u8>)
    ensures
        byte_sum(s) >= 0,
    decreases s.len(),
{
    if s.len() > 0 {
        lemma_byte_sum_nonneg(s.drop_last());
    }
}

/// Checksum of the byte span `[from, to)` of `packet`.
pub fn compute_checksum(packet: &Vec<u8>, from: usize, to: usize) -> (r: u8)
    requires
        from <= to <= packet@.len(),
    ensures
        r == checksum_of(packet@.subrange(from as int, to as int)),
{
    let mut sum: u8 = 0;
    let mut i: usize = from;
    proof {
        assert(packet@.subrange(from as int, from as int) =~= Seq::<u8>::empty());
    }
    while i < to
        invariant
            from <= i <= to <= packet@.len(),
            sum == byte_sum(packet@.subrange(from as int, i as int)) % 256,
        decreases to - i,
    {
        let ghost pre = packet@.subrange(from as int, i as int);
        let b = packet[i];
        proof {
            assert(packet@.subrange(from as int, i + 1) =~= pre.push(b));
            lemma_byte_sum_push(pre, b);
            vstd::arithmetic::div_mod::lemma_add_mod_noop(byte_sum(pre), b as int, 256);
            vstd::arithmetic::div_mod::lemma_mod_bound(byte_sum(pre) + b, 256);
            lemma_byte_sum_nonneg(pre);
            vstd::arithmetic::div_mod::lemma_mod_bound(b as int, 256);
            assert((b as int) % 256 == b as int);
        }
        sum = (((sum as u32) + (b as u32)) % 256) as u8;
        i = i + 1;
    }
    proof {
        lemma_byte_sum_nonneg(packet@.subrange(from as int, to as int));
        vstd::arithmetic::div_mod::lemma_mod_bound(
            byte_sum(packet@.subrange(from as int, to as int)),
            256,
        );
    }
    255 - sum
}

/// Build the complete wire frame for one instruction.
pub fn make_frame(id: u8, inst: u8, params: &Vec<u8>) -> (r: Vec<u8>)
    requires
        params@.len() + 6 <= TXPACKET_MAX_LEN,
    ensures
        r@ == frame_for(id, inst, params@),
        r@.len() == params@.len() + 6,
{
    let mut frame: Vec<u8> = Vec::new();
    frame.push(0xff);
    frame.push(0xff);
    frame.push(id);
    frame.push((params.len() + 2) as u8);
    frame.push(inst);
    let mut i: usize = 0;
    while i < params.len()
        invariant
            i <= params@.len(),
            params@.len() + 6 <= TXPACKET_MAX_LEN,
            frame@ == seq![
                0xffu8,
                0xffu8,
                id,
                (params@.len() + 2) as u8,
                inst,
            ] + params@.subrange(0, i as int),
        decreases params@.len() - i,
    {
        frame.push(params[i]);
        proof {
            assert(params@.subrange(0, i + 1) =~= params@.subrange(0, i as int).push(
                params@[i as int],
            ));
        }
        i = i + 1;
    }
    proof {
        assert(params@.subrange(0, params@.len() as int) =~= params@);
    }
    let cs = compute_checksum(&frame, 2, frame.len());
    proof {
        let body = seq![id, (params@.len() + 2) as u8, inst] + params@;
        assert(frame@.subrange(2, frame@.len() as int) =~= body);
    }
    frame.push(cs);
    proof {
        let body = seq![id, (params@.len() + 2) as u8, inst] + params@;
        assert(frame@ =~= seq![0xffu8, 0xffu8] + body + seq![checksum_of(body)]);
    }
    frame
}

/// A frame built by `frame_for` with a valid single-device id, a clear
/// reserved bit, and parameters within the transmit budget is accepted by
/// the receive machine, and carries its fields at the fixed offsets.
pub proof fn lemma_frame_for_accepted(id: u8, inst: u8, params: Seq<u8>)
    requires
        id <= MAX_ID,
        inst <= 0x7f,
        params.len() + 6 <= TXPACKET_MAX_LEN,
    ensures
        accepted_frame(frame_for(id, inst, params)),
        frame_for(id, inst, params).len() == params.len() + 6,
        frame_for(id, inst, params)[2] == id,
        frame_for(id, inst, params)[3] == params.len() + 2,
        frame_for(id, inst, params)[4] == inst,
        frame_for(id, inst, params).subrange(5, params.len() as int + 5) == params,
        frame_for(id, inst, params).last() == checksum_of(
            frame_for(id, inst, params).subrange(2, params.len() as int + 5),
        ),
{
    let body = seq![id, (params.len() + 2) as u8, inst] + params;
    let f = frame_for(id, inst, params);
    assert(f.subrange(5, params.len() as int + 5) =~= params);
    assert(f.subrange(2, f[3] + 3) =~= body);
}

} // verus!
