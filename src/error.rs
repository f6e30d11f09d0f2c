use vstd::prelude::*;

verus! {

/// Every way in which decoding a frame or a packet can be refused.
#[derive(Debug, PartialEq, Eq, Clone, Copy, Structural)]
pub enum SerialError {
    /// The declared checksum (`expected`) differs from the computed one (`actual`).
    PacketCrcMismatch { expected: u16, actual: u16 },
    /// The opcode byte is not in the opcode table.
    UnknownPacket(u8),
    /// The payload layout disagrees with the frame length.
    PacketStructure,
    /// The packet holds fewer bytes (first) than its layout needs (second).
    PacketTooShort(usize, usize),
    /// An escape byte was followed by this byte, which is no escape code.
    Framing(u8),
}

} // verus!
