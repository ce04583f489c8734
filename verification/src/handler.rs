//! Protocol-level value composition: endianness-aware word building and the
//! sign-bit-in-a-configurable-position telemetry decoding.
//!
//! The handler itself carries only the protocol endianness flag; all of its
//! operations are pure functions of their arguments.

use vstd::prelude::*;

verus! {

/// A 16-bit value composed from two bytes under the given endianness flag
/// (`0` places `lo` in the low byte; anything else swaps the bytes).
pub open spec fn word_value(endian: u8, lo: u8, hi: u8) -> int {
    if endian == 0 {
        lo + 256 * hi
    } else {
        hi + 256 * lo
    }
}

/// A 32-bit value composed from two 16-bit words, low word first.
pub open spec fn dword_value(lo: u16, hi: u16) -> int {
    lo + 65536 * hi
}

/// Stateless protocol operations parameterized by the endianness flag that
/// governs multi-byte field composition.
pub struct ProtocolPacketHandler {
    sts_end: u8,
}

impl ProtocolPacketHandler {
    /// The endianness flag: `0` composes words little-endian.
    pub closed spec fn endian(&self) -> u8 {
        self.sts_end
    }

    /// A handler composing multi-byte fields little-endian.
    pub fn new() -> (r: Self)
        ensures
            r.endian() == 0,
    {
        ProtocolPacketHandler { sts_end: 0 }
    }

    /// Compose a 16-bit word from two bytes per the endianness flag.
    pub fn sts_makeword(&self, a: u8, b: u8) -> (r: u16)
        ensures
            r == word_value(self.endian(), a, b),
    {
        if self.sts_end == 0 {
            (a as u16) + (b as u16) * 256
        } else {
            (b as u16) + (a as u16) * 256
        }
    }

    /// Compose a 32-bit value from two 16-bit words, low word first.
    pub fn sts_makedword(&self, a: u16, b: u16) -> (r: u32)
        ensures
            r == dword_value(a, b),
    {
        (a as u32) + (b as u32) * 65536
    }

    /// The byte a 16-bit word puts first on the wire.
    pub fn sts_lobyte(&self, w: u16) -> (r: u8)
        ensures
            self.endian() == 0 ==> r == w % 256,
            self.endian() != 0 ==> r == w / 256,
    {
        if self.sts_end == 0 {
            (w % 256) as u8
        } else {
            (w / 256) as u8
        }
    }

    /// The byte a 16-bit word puts second on the wire.
    pub fn sts_hibyte(&self, w: u16) -> (r: u8)
        ensures
            self.endian() == 0 ==> r == w / 256,
            self.endian() != 0 ==> r == w % 256,
    {
        if self.sts_end == 0 {
            (w / 256) as u8
        } else {
            (w % 256) as u8
        }
    }

    /// Low 16-bit word of a 32-bit value.
    pub fn sts_loword(&self, l: u32) -> (r: u16)
        ensures
            r == l % 65536,
    {
        (l % 65536) as u16
    }

    /// High 16-bit word of a 32-bit value.
    pub fn sts_hiword(&self, h: u32) -> (r: u16)
        ensures
            r == h / 65536,
    {
        (h / 65536) as u16
    }

    /// Decode a telemetry word whose bit `b` marks the sign and whose other
    /// bits carry the magnitude.  The magnitude must leave the top bit of
    /// the signed result clear, which always holds for the usual sign bit
    /// position 15.
    pub fn sts_tohost(&self, a: u16, b: u8) -> (r: i16)
        requires
            b < 16,
            (a & !((1u16) << b)) < 0x8000,
        ensures
            (a & ((1u16) << b)) != 0 ==> r == -((a & !((1u16) << b)) as int),
            (a & ((1u16) << b)) == 0 ==> r == a as int,
    {
        let mask: u16 = 1u16 << b;
        if (a & mask) != 0 {
            -((a & !mask) as i16)
        } else {
            proof {
                assert((a & ((1u16) << b)) == 0 ==> (a & !((1u16) << b)) == a) by (bit_vector);
            }
            a as i16
        }
    }
}

} // verus!
