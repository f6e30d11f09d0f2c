use vstd::prelude::*;

verus! {

/// The CRC-16/DNP checksum of a byte string (polynomial 0x3d65, reflected,
/// final xor 0xffff), as the `crc` crate computes it.
pub uninterp spec fn crc16_dnp(s: Seq<u8>) -> u16;

/// Relies on `crc::Crc::<u16>::checksum` with the `CRC_16_DNP` algorithm of
/// `crc-catalog`: a pure function of the bytes.
#[verifier::external_body]
fn dnp_checksum(bytes: &[u8]) -> (r: u16)
    ensures
        r == crc16_dnp(bytes@),
{
    crc::Crc::<u16>::new(&crc::CRC_16_DNP).checksum(bytes)
}

/// A packet with its two checksum bytes (offsets 2 and 3) set to zero.
pub open spec fn zero_crc_field(s: Seq<u8>) -> Seq<u8> {
    s.update(2, 0u8).update(3, 0u8)
}

/// The checksum that a packet must carry: the CRC of the packet with its
/// checksum field zeroed.
pub fn packet_checksum(value: &[u8]) -> (r: u16)
    requires
        value@.len() >= 4,
    ensures
        r == crc16_dnp(zero_crc_field(value@)),
{
    let mut buf = vstd::slice::slice_to_vec(value);
    buf.set(2, 0);
    buf.set(3, 0);
    dnp_checksum(buf.as_slice())
}

} // verus!
