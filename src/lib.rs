//! Host-side driver for a byte-stuffed serial protocol spoken to a radio
//! transceiver: a stateful frame codec over a byte buffer, a checksummed
//! packet codec with one layout per opcode, and the laws that relate
//! encoding and decoding.

pub mod buffer;
pub mod checksum;
pub mod codec;
pub mod error;
pub mod laws;
pub mod le;
pub mod packet;
pub mod wire;
