use vstd::prelude::*;

verus! {

/// The unsigned integer that a byte string encodes, least significant byte first.
pub open spec fn le_value(s: Seq<u8>) -> nat
    decreases s.len(),
{
    if s.len() == 0 {
        0
    } else {
        s[0] as nat + 256 * le_value(s.drop_first())
    }
}

/// Reads a little-endian `u16` from exactly two bytes; any other length reads 0.
pub fn slice_to_u16le(buf: &[u8]) -> (r: u16)
    ensures
        buf@.len() == 2 ==> r as nat == le_value(buf@),
        buf@.len() != 2 ==> r == 0,
{
    if buf.len() != 2 {
        return 0;
    }
    proof {
        reveal_with_fuel(le_value, 3);
    }
    (buf[0] as u16) + (buf[1] as u16) * 256
}

/// Reads a little-endian `u32` from exactly four bytes; any other length reads 0.
pub fn slice_to_u32le(buf: &[u8]) -> (r: u32)
    ensures
        buf@.len() == 4 ==> r as nat == le_value(buf@),
        buf@.len() != 4 ==> r == 0,
{
    if buf.len() != 4 {
        return 0;
    }
    proof {
        reveal_with_fuel(le_value, 5);
    }
    (buf[0] as u32) + (buf[1] as u32) * 0x100 + (buf[2] as u32) * 0x1_0000 + (buf[3] as u32) * 0x100_0000
}

/// Reads a little-endian `u64` from exactly eight bytes; any other length reads 0.
pub fn slice_to_u64le(buf: &[u8]) -> (r: u64)
    ensures
        buf@.len() == 8 ==> r as nat == le_value(buf@),
        buf@.len() != 8 ==> r == 0,
{
    if buf.len() != 8 {
        return 0;
    }
    proof {
        reveal_with_fuel(le_value, 9);
    }
    (buf[0] as u64) + (buf[1] as u64) * 0x100 + (buf[2] as u64) * 0x1_0000
        + (buf[3] as u64) * 0x100_0000 + (buf[4] as u64) * 0x1_0000_0000
        + (buf[5] as u64) * 0x100_0000_0000 + (buf[6] as u64) * 0x1_0000_0000_0000
        + (buf[7] as u64) * 0x100_0000_0000_0000
}

} // verus!
