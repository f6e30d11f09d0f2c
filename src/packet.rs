use vstd::prelude::*;
use crate::checksum::{crc16_dnp, packet_checksum, zero_crc_field};
use crate::error::SerialError;
use crate::le::{le_value, slice_to_u16le, slice_to_u32le, slice_to_u64le};

verus! {

/// The closed set of operations a packet can carry.
#[derive(Debug, PartialEq, Eq, Copy, Clone, Structural)]
pub enum SerialOpCode {
    Ack,
    ErrTimeout,
    ErrHeader,
    ErrChecksum,
    ErrNack,
    ErrInternal,
    Ping,
    DeviceInfo,
    ResetRadio,
    ResetDevice,
    LoraConfig,
    LoraAdvConfig,
    GfskConfig,
    GfskAdvConfig,
    LoraSendPacket,
    LoraRecvPacket,
    GfskSendPacket,
    GfskRecvPacket,
}

/// The wire byte of each opcode.
pub open spec fn opcode_byte(op: SerialOpCode) -> u8 {
    match op {
        SerialOpCode::Ack => 0x00,
        SerialOpCode::ErrTimeout => 0xe0,
        SerialOpCode::ErrHeader => 0xe1,
        SerialOpCode::ErrChecksum => 0xe2,
        SerialOpCode::ErrNack => 0xff,
        SerialOpCode::ErrInternal => 0xfe,
        SerialOpCode::Ping => 0x01,
        SerialOpCode::DeviceInfo => 0x02,
        SerialOpCode::ResetRadio => 0x03,
        SerialOpCode::ResetDevice => 0x04,
        SerialOpCode::LoraConfig => 0x05,
        SerialOpCode::LoraAdvConfig => 0x06,
        SerialOpCode::GfskConfig => 0x07,
        SerialOpCode::GfskAdvConfig => 0x08,
        SerialOpCode::LoraSendPacket => 0x10,
        SerialOpCode::LoraRecvPacket => 0x11,
        SerialOpCode::GfskSendPacket => 0x20,
        SerialOpCode::GfskRecvPacket => 0x21,
    }
}

/// The opcode that a wire byte names, if any.
pub open spec fn opcode_of(b: u8) -> Option<SerialOpCode> {
    if b == 0x00 {
        Some(SerialOpCode::Ack)
    } else if b == 0xe0 {
        Some(SerialOpCode::ErrTimeout)
    } else if b == 0xe1 {
        Some(SerialOpCode::ErrHeader)
    } else if b == 0xe2 {
        Some(SerialOpCode::ErrChecksum)
    } else if b == 0xff {
        Some(SerialOpCode::ErrNack)
    } else if b == 0xfe {
        Some(SerialOpCode::ErrInternal)
    } else if b == 0x01 {
        Some(SerialOpCode::Ping)
    } else if b == 0x02 {
        Some(SerialOpCode::DeviceInfo)
    } else if b == 0x03 {
        Some(SerialOpCode::ResetRadio)
    } else if b == 0x04 {
        Some(SerialOpCode::ResetDevice)
    } else if b == 0x05 {
        Some(SerialOpCode::LoraConfig)
    } else if b == 0x06 {
        Some(SerialOpCode::LoraAdvConfig)
    } else if b == 0x07 {
        Some(SerialOpCode::GfskConfig)
    } else if b == 0x08 {
        Some(SerialOpCode::GfskAdvConfig)
    } else if b == 0x10 {
        Some(SerialOpCode::LoraSendPacket)
    } else if b == 0x11 {
        Some(SerialOpCode::LoraRecvPacket)
    } else if b == 0x20 {
        Some(SerialOpCode::GfskSendPacket)
    } else if b == 0x21 {
        Some(SerialOpCode::GfskRecvPacket)
    } else {
        None
    }
}

/// The fixed header every packet starts with.
#[derive(Debug, PartialEq, Eq, Copy, Clone, Structural)]
pub struct PacketHeader {
    pub opcode: SerialOpCode,
    pub ctr: u8,
    pub crc: u16,
}

/// A keep-alive request: header only.
#[derive(Debug, PartialEq, Eq, Copy, Clone, Structural)]
pub struct Ping {
    pub header: PacketHeader,
}

/// What the device reports about itself.
#[derive(Debug, PartialEq, Eq, Copy, Clone)]
pub struct DevInfo {
    pub header: PacketHeader,
    pub fw_ver: u32,
    pub mac: u64,
    pub uid: [u8; 12],
}

/// LoRa modem settings.
#[derive(Debug, PartialEq, Eq, Copy, Clone, Structural)]
pub struct LoraConfig {
    pub header: PacketHeader,
    pub sf: u8,
    pub bw: u8,
    pub cr: u8,
    pub low_data_rate_opt: bool,
    pub sync_word: u8,
    pub freq_hz: u32,
}

/// A LoRa packet for the device to transmit.
#[derive(Debug, PartialEq, Eq, Clone)]
pub struct LoraTx {
    pub header: PacketHeader,
    pub tx_pwr: u8,
    pub timeout_ms: u32,
    pub preamble_cnt: u32,
    pub header_en: bool,
    pub crc_en: bool,
    pub invert_iq: bool,
    pub buf: Vec<u8>,
}

/// A LoRa packet the device received.
#[derive(Debug, PartialEq, Eq, Clone)]
pub struct LoraRx {
    pub header: PacketHeader,
    pub pkt_rssi: u8,
    pub sig_rssi: u8,
    pub snr: u8,
    pub buf: Vec<u8>,
}

/// The minimum length of a header-only packet.
pub const HEADER_LEN: usize = 4;
/// The exact length of a device-info packet.
pub const DEV_INFO_LEN: usize = 28;
/// The minimum length of a LoRa configuration packet.
pub const LORA_CONFIG_LEN: usize = 13;
/// The minimum length of a LoRa transmit or receive packet.
pub const LORA_PKT_LEN: usize = 17;

/// The checksum a packet declares: bytes 2 and 3, little-endian.
pub open spec fn declared_crc(s: Seq<u8>) -> u16 {
    le_value(s.subrange(2, 4)) as u16
}

/// Header validation of packet bytes `s`, given the checksum `actual`
/// computed over `s` with its checksum field zeroed.
pub open spec fn header_result(s: Seq<u8>, actual: u16) -> Result<PacketHeader, SerialError> {
    if s.len() < 4 {
        Err(SerialError::PacketTooShort(s.len() as usize, 4))
    } else {
        match opcode_of(s[0]) {
            None => Err(SerialError::UnknownPacket(s[0])),
            Some(op) => if declared_crc(s) != actual {
                Err(SerialError::PacketCrcMismatch { expected: declared_crc(s), actual })
            } else {
                Ok(PacketHeader { opcode: op, ctr: s[1], crc: actual })
            },
        }
    }
}

/// A nonzero byte is a set flag.
pub open spec fn flag(b: u8) -> bool {
    b != 0
}

/// The device-info fields of `d` are read from `s` under header `h`.
pub open spec fn dev_info_fields(d: DevInfo, h: PacketHeader, s: Seq<u8>) -> bool {
    &&& d.header == h
    &&& d.fw_ver as nat == le_value(s.subrange(4, 8))
    &&& d.mac as nat == le_value(s.subrange(8, 16))
    &&& d.uid@ == s.subrange(16, 28)
}

/// Decoding `s` as a device-info packet yields `r`, given checksum `actual`.
pub open spec fn dev_info_outcome(r: Result<DevInfo, SerialError>, s: Seq<u8>, actual: u16) -> bool {
    if s.len() < 28 {
        r == Err::<DevInfo, SerialError>(SerialError::PacketTooShort(s.len() as usize, 28))
    } else {
        match header_result(s, actual) {
            Err(e) => r == Err::<DevInfo, SerialError>(e),
            Ok(h) => if s.len() != 28 {
                r == Err::<DevInfo, SerialError>(SerialError::PacketStructure)
            } else {
                r matches Ok(d) && dev_info_fields(d, h, s)
            },
        }
    }
}

/// The LoRa configuration fields, read from `s` under header `h`.
pub open spec fn lora_config_of(h: PacketHeader, s: Seq<u8>) -> LoraConfig {
    LoraConfig {
        header: h,
        sf: s[4],
        bw: s[5],
        cr: s[6],
        low_data_rate_opt: flag(s[7]),
        sync_word: s[8],
        freq_hz: le_value(s.subrange(9, 13)) as u32,
    }
}

/// Decoding `s` as a LoRa configuration packet, given checksum `actual`.
pub open spec fn lora_config_result(s: Seq<u8>, actual: u16) -> Result<LoraConfig, SerialError> {
    if s.len() < 13 {
        Err(SerialError::PacketTooShort(s.len() as usize, 13))
    } else {
        match header_result(s, actual) {
            Err(e) => Err(e),
            Ok(h) => Ok(lora_config_of(h, s)),
        }
    }
}

/// The LoRa transmit fields of `p` are read from `s` under header `h`; the
/// payload is the `s[16]` bytes from offset 17 and must end the packet.
pub open spec fn lora_tx_fields(p: LoraTx, h: PacketHeader, s: Seq<u8>) -> bool {
    &&& p.header == h
    &&& p.tx_pwr == s[4]
    &&& p.timeout_ms as nat == le_value(s.subrange(5, 9))
    &&& p.preamble_cnt as nat == le_value(s.subrange(9, 13))
    &&& p.header_en == flag(s[13])
    &&& p.crc_en == flag(s[14])
    &&& p.invert_iq == flag(s[15])
    &&& p.buf@ == s.subrange(17, s.len() as int)
}

/// Decoding `s` as a LoRa transmit packet yields `r`, given checksum `actual`.
pub open spec fn lora_tx_outcome(r: Result<LoraTx, SerialError>, s: Seq<u8>, actual: u16) -> bool {
    if s.len() < 17 {
        r == Err::<LoraTx, SerialError>(SerialError::PacketTooShort(s.len() as usize, 17))
    } else {
        match header_result(s, actual) {
            Err(e) => r == Err::<LoraTx, SerialError>(e),
            Ok(h) => if 17 + s[16] != s.len() {
                r == Err::<LoraTx, SerialError>(SerialError::PacketStructure)
            } else {
                r matches Ok(p) && lora_tx_fields(p, h, s)
            },
        }
    }
}

/// The LoRa receive fields of `p` are read from `s` under header `h`; the
/// payload is the `s[7]` bytes from offset 8 and must end the packet.
pub open spec fn lora_rx_fields(p: LoraRx, h: PacketHeader, s: Seq<u8>) -> bool {
    &&& p.header == h
    &&& p.pkt_rssi == s[4]
    &&& p.sig_rssi == s[5]
    &&& p.snr == s[6]
    &&& p.buf@ == s.subrange(8, s.len() as int)
}

/// Decoding `s` as a LoRa receive packet yields `r`, given checksum `actual`.
pub open spec fn lora_rx_outcome(r: Result<LoraRx, SerialError>, s: Seq<u8>, actual: u16) -> bool {
    if s.len() < 17 {
        r == Err::<LoraRx, SerialError>(SerialError::PacketTooShort(s.len() as usize, 17))
    } else {
        match header_result(s, actual) {
            Err(e) => r == Err::<LoraRx, SerialError>(e),
            Ok(h) => if 8 + s[7] != s.len() {
                r == Err::<LoraRx, SerialError>(SerialError::PacketStructure)
            } else {
                r matches Ok(p) && lora_rx_fields(p, h, s)
            },
        }
    }
}

/// Decoding `s` as a ping packet, given checksum `actual`.
pub open spec fn ping_result(s: Seq<u8>, actual: u16) -> Result<Ping, SerialError> {
    if s.len() < 4 {
        Err(SerialError::PacketTooShort(s.len() as usize, 4))
    } else {
        match header_result(s, actual) {
            Err(e) => Err(e),
            Ok(h) => Ok(Ping { header: h }),
        }
    }
}

impl SerialOpCode {
    /// Looks a wire byte up in the opcode table.
    pub fn try_from(value: u8) -> (r: Result<SerialOpCode, SerialError>)
        ensures
            r == (match opcode_of(value) {
                Some(op) => Ok(op),
                None => Err(SerialError::UnknownPacket(value)),
            }),
    {
        match value {
            0x00 => Ok(SerialOpCode::Ack),
            0xe0 => Ok(SerialOpCode::ErrTimeout),
            0xe1 => Ok(SerialOpCode::ErrHeader),
            0xe2 => Ok(SerialOpCode::ErrChecksum),
            0xff => Ok(SerialOpCode::ErrNack),
            0xfe => Ok(SerialOpCode::ErrInternal),
            0x01 => Ok(SerialOpCode::Ping),
            0x02 => Ok(SerialOpCode::DeviceInfo),
            0x03 => Ok(SerialOpCode::ResetRadio),
            0x04 => Ok(SerialOpCode::ResetDevice),
            0x05 => Ok(SerialOpCode::LoraConfig),
            0x06 => Ok(SerialOpCode::LoraAdvConfig),
            0x07 => Ok(SerialOpCode::GfskConfig),
            0x08 => Ok(SerialOpCode::GfskAdvConfig),
            0x10 => Ok(SerialOpCode::LoraSendPacket),
            0x11 => Ok(SerialOpCode::LoraRecvPacket),
            0x20 => Ok(SerialOpCode::GfskSendPacket),
            0x21 => Ok(SerialOpCode::GfskRecvPacket),
            _ => Err(SerialError::UnknownPacket(value)),
        }
    }

    /// The wire byte of this opcode.
    pub fn to_byte(self) -> (r: u8)
        ensures
            r == opcode_byte(self),
            opcode_of(r) == Some(self),
    {
        match self {
            SerialOpCode::Ack => 0x00,
            SerialOpCode::ErrTimeout => 0xe0,
            SerialOpCode::ErrHeader => 0xe1,
            SerialOpCode::ErrChecksum => 0xe2,
            SerialOpCode::ErrNack => 0xff,
            SerialOpCode::ErrInternal => 0xfe,
            SerialOpCode::Ping => 0x01,
            SerialOpCode::DeviceInfo => 0x02,
            SerialOpCode::ResetRadio => 0x03,
            SerialOpCode::ResetDevice => 0x04,
            SerialOpCode::LoraConfig => 0x05,
            SerialOpCode::LoraAdvConfig => 0x06,
            SerialOpCode::GfskConfig => 0x07,
            SerialOpCode::GfskAdvConfig => 0x08,
            SerialOpCode::LoraSendPacket => 0x10,
            SerialOpCode::LoraRecvPacket => 0x11,
            SerialOpCode::GfskSendPacket => 0x20,
            SerialOpCode::GfskRecvPacket => 0x21,
        }
    }
}

impl PacketHeader {
    /// Validates the header of `value` against `actual_crc`, the checksum
    /// computed over `value` with its checksum field zeroed. The opcode is
    /// checked first; nothing else is read from a packet whose opcode is unknown.
    pub fn check(value: &[u8], actual_crc: u16) -> (r: Result<PacketHeader, SerialError>)
        ensures
            r == header_result(value@, actual_crc),
    {
        if value.len() < HEADER_LEN {
            return Err(SerialError::PacketTooShort(value.len(), HEADER_LEN));
        }
        let opcode = match SerialOpCode::try_from(value[0]) {
            Ok(op) => op,
            Err(e) => return Err(e),
        };
        let ctr = value[1];
        let crc = slice_to_u16le(vstd::slice::slice_subrange(value, 2, 4));
        if actual_crc != crc {
            return Err(SerialError::PacketCrcMismatch { expected: crc, actual: actual_crc });
        }
        Ok(PacketHeader { opcode, ctr, crc })
    }

    /// Decodes and validates the header of a packet.
    pub fn try_from(value: &[u8]) -> (r: Result<PacketHeader, SerialError>)
        ensures
            r == header_result(value@, crc16_dnp(zero_crc_field(value@))),
    {
        if value.len() < HEADER_LEN {
            return Err(SerialError::PacketTooShort(value.len(), HEADER_LEN));
        }
        if let Err(e) = SerialOpCode::try_from(value[0]) {
            return Err(e);
        }
        let actual = packet_checksum(value);
        PacketHeader::check(value, actual)
    }
}

impl Ping {
    /// Decodes a ping packet, given the checksum of `value` with its checksum
    /// field zeroed.
    pub fn decode_with_crc(value: &[u8], actual_crc: u16) -> (r: Result<Ping, SerialError>)
        ensures
            r == ping_result(value@, actual_crc),
    {
        if value.len() < HEADER_LEN {
            return Err(SerialError::PacketTooShort(value.len(), HEADER_LEN));
        }
        let header = match PacketHeader::check(value, actual_crc) {
            Ok(h) => h,
            Err(e) => return Err(e),
        };
        Ok(Ping { header })
    }

    /// Decodes a ping packet.
    pub fn try_from(value: &[u8]) -> (r: Result<Ping, SerialError>)
        ensures
            r == ping_result(value@, crc16_dnp(zero_crc_field(value@))),
    {
        if value.len() < HEADER_LEN {
            return Err(SerialError::PacketTooShort(value.len(), HEADER_LEN));
        }
        let actual = packet_checksum(value);
        Ping::decode_with_crc(value, actual)
    }
}

impl DevInfo {
    /// Decodes a device-info packet, given the checksum of `value` with its
    /// checksum field zeroed.
    pub fn decode_with_crc(value: &[u8], actual_crc: u16) -> (r: Result<DevInfo, SerialError>)
        ensures
            dev_info_outcome(r, value@, actual_crc),
    {
        if value.len() < DEV_INFO_LEN {
            return Err(SerialError::PacketTooShort(value.len(), DEV_INFO_LEN));
        }
        let header = match PacketHeader::check(value, actual_crc) {
            Ok(h) => h,
            Err(e) => return Err(e),
        };
        if value.len() != DEV_INFO_LEN {
            return Err(SerialError::PacketStructure);
        }
        let fw_ver = slice_to_u32le(vstd::slice::slice_subrange(value, 4, 8));
        let mac = slice_to_u64le(vstd::slice::slice_subrange(value, 8, 16));
        let uid: [u8; 12] = [
            value[16], value[17], value[18], value[19], value[20], value[21],
            value[22], value[23], value[24], value[25], value[26], value[27],
        ];
        assert(uid@ =~= value@.subrange(16, 28));
        Ok(DevInfo { header, fw_ver, mac, uid })
    }

    /// Decodes a device-info packet.
    pub fn try_from(value: &[u8]) -> (r: Result<DevInfo, SerialError>)
        ensures
            dev_info_outcome(r, value@, crc16_dnp(zero_crc_field(value@))),
    {
        if value.len() < DEV_INFO_LEN {
            return Err(SerialError::PacketTooShort(value.len(), DEV_INFO_LEN));
        }
        let actual = packet_checksum(value);
        DevInfo::decode_with_crc(value, actual)
    }
}

impl LoraConfig {
    /// Decodes a LoRa configuration packet, given the checksum of `value` with
    /// its checksum field zeroed.
    pub fn decode_with_crc(value: &[u8], actual_crc: u16) -> (r: Result<LoraConfig, SerialError>)
        ensures
            r == lora_config_result(value@, actual_crc),
    {
        if value.len() < LORA_CONFIG_LEN {
            return Err(SerialError::PacketTooShort(value.len(), LORA_CONFIG_LEN));
        }
        let header = match PacketHeader::check(value, actual_crc) {
            Ok(h) => h,
            Err(e) => return Err(e),
        };
        let sf = value[4];
        let bw = value[5];
        let cr = value[6];
        let low_data_rate_opt = value[7] > 0;
        let sync_word = value[8];
        let freq_hz = slice_to_u32le(vstd::slice::slice_subrange(value, 9, 13));
        Ok(LoraConfig { header, sf, bw, cr, low_data_rate_opt, sync_word, freq_hz })
    }

    /// Decodes a LoRa configuration packet.
    pub fn try_from(value: &[u8]) -> (r: Result<LoraConfig, SerialError>)
        ensures
            r == lora_config_result(value@, crc16_dnp(zero_crc_field(value@))),
    {
        if value.len() < LORA_CONFIG_LEN {
            return Err(SerialError::PacketTooShort(value.len(), LORA_CONFIG_LEN));
        }
        let actual = packet_checksum(value);
        LoraConfig::decode_with_crc(value, actual)
    }
}

impl LoraTx {
    /// Decodes a LoRa transmit packet, given the checksum of `value` with its
    /// checksum field zeroed.
    pub fn decode_with_crc(value: &[u8], actual_crc: u16) -> (r: Result<LoraTx, SerialError>)
        ensures
            lora_tx_outcome(r, value@, actual_crc),
    {
        if value.len() < LORA_PKT_LEN {
            return Err(SerialError::PacketTooShort(value.len(), LORA_PKT_LEN));
        }
        let header = match PacketHeader::check(value, actual_crc) {
            Ok(h) => h,
            Err(e) => return Err(e),
        };
        let tx_pwr = value[4];
        let timeout_ms = slice_to_u32le(vstd::slice::slice_subrange(value, 5, 9));
        let preamble_cnt = slice_to_u32le(vstd::slice::slice_subrange(value, 9, 13));
        let header_en = value[13] > 0;
        let crc_en = value[14] > 0;
        let invert_iq = value[15] > 0;
        let len = value[16] as usize;
        if 17 + len != value.len() {
            return Err(SerialError::PacketStructure);
        }
        let buf = vstd::slice::slice_to_vec(vstd::slice::slice_subrange(value, 17, value.len()));
        Ok(LoraTx { header, tx_pwr, timeout_ms, preamble_cnt, header_en, crc_en, invert_iq, buf })
    }

    /// Decodes a LoRa transmit packet.
    pub fn try_from(value: &[u8]) -> (r: Result<LoraTx, SerialError>)
        ensures
            lora_tx_outcome(r, value@, crc16_dnp(zero_crc_field(value@))),
    {
        if value.len() < LORA_PKT_LEN {
            return Err(SerialError::PacketTooShort(value.len(), LORA_PKT_LEN));
        }
        let actual = packet_checksum(value);
        LoraTx::decode_with_crc(value, actual)
    }
}

impl LoraRx {
    /// Decodes a LoRa receive packet, given the checksum of `value` with its
    /// checksum field zeroed.
    pub fn decode_with_crc(value: &[u8], actual_crc: u16) -> (r: Result<LoraRx, SerialError>)
        ensures
            lora_rx_outcome(r, value@, actual_crc),
    {
        if value.len() < LORA_PKT_LEN {
            return Err(SerialError::PacketTooShort(value.len(), LORA_PKT_LEN));
        }
        let header = match PacketHeader::check(value, actual_crc) {
            Ok(h) => h,
            Err(e) => return Err(e),
        };
        let pkt_rssi = value[4];
        let sig_rssi = value[5];
        let snr = value[6];
        let len = value[7] as usize;
        if 8 + len != value.len() {
            return Err(SerialError::PacketStructure);
        }
        let buf = vstd::slice::slice_to_vec(vstd::slice::slice_subrange(value, 8, value.len()));
        Ok(LoraRx { header, pkt_rssi, sig_rssi, snr, buf })
    }

    /// Decodes a LoRa receive packet.
    pub fn try_from(value: &[u8]) -> (r: Result<LoraRx, SerialError>)
        ensures
            lora_rx_outcome(r, value@, crc16_dnp(zero_crc_field(value@))),
    {
        if value.len() < LORA_PKT_LEN {
            return Err(SerialError::PacketTooShort(value.len(), LORA_PKT_LEN));
        }
        let actual = packet_checksum(value);
        LoraRx::decode_with_crc(value, actual)
    }
}

/// A decoded packet: one variant per payload layout; opcodes without a
/// payload decode to their bare header.
#[derive(Debug, PartialEq, Eq, Clone)]
pub enum Packet {
    Ping(Ping),
    DeviceInfo(DevInfo),
    LoraConfig(LoraConfig),
    LoraTx(LoraTx),
    LoraRx(LoraRx),
    Header(PacketHeader),
}

/// Decoding `s` as whatever packet its opcode names yields `r`, given
/// checksum `actual`.
pub open spec fn packet_outcome(r: Result<Packet, SerialError>, s: Seq<u8>, actual: u16) -> bool {
    if s.len() < 4 {
        r == Err::<Packet, SerialError>(SerialError::PacketTooShort(s.len() as usize, 4))
    } else {
        match opcode_of(s[0]) {
            None => r == Err::<Packet, SerialError>(SerialError::UnknownPacket(s[0])),
            Some(SerialOpCode::Ping) => match ping_result(s, actual) {
                Ok(p) => r == Ok::<Packet, SerialError>(Packet::Ping(p)),
                Err(e) => r == Err::<Packet, SerialError>(e),
            },
            Some(SerialOpCode::DeviceInfo) => match r {
                Ok(Packet::DeviceInfo(d)) => dev_info_outcome(Ok(d), s, actual),
                Ok(_) => false,
                Err(e) => dev_info_outcome(Err(e), s, actual),
            },
            Some(SerialOpCode::LoraConfig) => match lora_config_result(s, actual) {
                Ok(c) => r == Ok::<Packet, SerialError>(Packet::LoraConfig(c)),
                Err(e) => r == Err::<Packet, SerialError>(e),
            },
            Some(SerialOpCode::LoraSendPacket) => match r {
                Ok(Packet::LoraTx(p)) => lora_tx_outcome(Ok(p), s, actual),
                Ok(_) => false,
                Err(e) => lora_tx_outcome(Err(e), s, actual),
            },
            Some(SerialOpCode::LoraRecvPacket) => match r {
                Ok(Packet::LoraRx(p)) => lora_rx_outcome(Ok(p), s, actual),
                Ok(_) => false,
                Err(e) => lora_rx_outcome(Err(e), s, actual),
            },
            Some(_) => match header_result(s, actual) {
                Ok(h) => r == Ok::<Packet, SerialError>(Packet::Header(h)),
                Err(e) => r == Err::<Packet, SerialError>(e),
            },
        }
    }
}

impl Packet {
    /// Decodes a packet by the layout its opcode names, given the checksum of
    /// `value` with its checksum field zeroed.
    pub fn decode_with_crc(value: &[u8], actual_crc: u16) -> (r: Result<Packet, SerialError>)
        ensures
            packet_outcome(r, value@, actual_crc),
    {
        if value.len() < HEADER_LEN {
            return Err(SerialError::PacketTooShort(value.len(), HEADER_LEN));
        }
        let op = match SerialOpCode::try_from(value[0]) {
            Ok(op) => op,
            Err(e) => return Err(e),
        };
        match op {
            SerialOpCode::Ping => match Ping::decode_with_crc(value, actual_crc) {
                Ok(p) => Ok(Packet::Ping(p)),
                Err(e) => Err(e),
            },
            SerialOpCode::DeviceInfo => match DevInfo::decode_with_crc(value, actual_crc) {
                Ok(d) => Ok(Packet::DeviceInfo(d)),
                Err(e) => Err(e),
            },
            SerialOpCode::LoraConfig => match LoraConfig::decode_with_crc(value, actual_crc) {
                Ok(c) => Ok(Packet::LoraConfig(c)),
                Err(e) => Err(e),
            },
            SerialOpCode::LoraSendPacket => match LoraTx::decode_with_crc(value, actual_crc) {
                Ok(p) => Ok(Packet::LoraTx(p)),
                Err(e) => Err(e),
            },
            SerialOpCode::LoraRecvPacket => match LoraRx::decode_with_crc(value, actual_crc) {
                Ok(p) => Ok(Packet::LoraRx(p)),
                Err(e) => Err(e),
            },
            _ => match PacketHeader::check(value, actual_crc) {
                Ok(h) => Ok(Packet::Header(h)),
                Err(e) => Err(e),
            },
        }
    }

    /// Decodes a packet by the layout its opcode names. A packet whose opcode
    /// is unknown is refused before its checksum is computed.
    pub fn try_from(value: &[u8]) -> (r: Result<Packet, SerialError>)
        ensures
            packet_outcome(r, value@, crc16_dnp(zero_crc_field(value@))),
    {
        if value.len() < HEADER_LEN {
            return Err(SerialError::PacketTooShort(value.len(), HEADER_LEN));
        }
        if let Err(e) = SerialOpCode::try_from(value[0]) {
            return Err(e);
        }
        let actual = packet_checksum(value);
        Packet::decode_with_crc(value, actual)
    }
}

} // verus!
