use redshore_serial::checksum::packet_checksum;
use redshore_serial::error::SerialError;
use redshore_serial::le::{slice_to_u16le, slice_to_u32le, slice_to_u64le};
use redshore_serial::packet::{
    DevInfo, LoraConfig, LoraRx, LoraTx, Packet, PacketHeader, Ping, SerialOpCode,
};

fn header(opcode: SerialOpCode, ctr: u8) -> PacketHeader {
    PacketHeader { opcode, ctr, crc: 0 }
}

fn dev_info() -> DevInfo {
    let mut uid = [0u8; 12];
    for (i, b) in uid.iter_mut().enumerate() {
        *b = 0xa0 + i as u8;
    }
    DevInfo { header: header(SerialOpCode::DeviceInfo, 7), fw_ver: 0x1234_5678, mac: 0x0807_0605_0403_0201, uid }
}

fn lora_config() -> LoraConfig {
    LoraConfig {
        header: header(SerialOpCode::LoraConfig, 1),
        sf: 7,
        bw: 1,
        cr: 2,
        low_data_rate_opt: true,
        sync_word: 0x12,
        freq_hz: 1_000_000,
    }
}

#[test]
fn opcode_table() {
    let table = [
        (0x00, SerialOpCode::Ack),
        (0xe0, SerialOpCode::ErrTimeout),
        (0xe1, SerialOpCode::ErrHeader),
        (0xe2, SerialOpCode::ErrChecksum),
        (0xff, SerialOpCode::ErrNack),
        (0xfe, SerialOpCode::ErrInternal),
        (0x01, SerialOpCode::Ping),
        (0x02, SerialOpCode::DeviceInfo),
        (0x03, SerialOpCode::ResetRadio),
        (0x04, SerialOpCode::ResetDevice),
        (0x05, SerialOpCode::LoraConfig),
        (0x06, SerialOpCode::LoraAdvConfig),
        (0x07, SerialOpCode::GfskConfig),
        (0x08, SerialOpCode::GfskAdvConfig),
        (0x10, SerialOpCode::LoraSendPacket),
        (0x11, SerialOpCode::LoraRecvPacket),
        (0x20, SerialOpCode::GfskSendPacket),
        (0x21, SerialOpCode::GfskRecvPacket),
    ];
    for (b, op) in table {
        assert_eq!(SerialOpCode::try_from(b), Ok(op));
        assert_eq!(op.to_byte(), b);
    }
    let known: Vec<u8> = table.iter().map(|(b, _)| *b).collect();
    for b in 0..=255u8 {
        if !known.contains(&b) {
            assert_eq!(SerialOpCode::try_from(b), Err(SerialError::UnknownPacket(b)));
        }
    }
}

#[test]
fn unknown_opcode_rejected_first() {
    let bad = [0x09, 5, 0xff, 0xff, 1, 2, 3];
    assert_eq!(PacketHeader::try_from(&bad), Err(SerialError::UnknownPacket(0x09)));
    assert_eq!(Packet::try_from(&bad), Err(SerialError::UnknownPacket(0x09)));
    assert_eq!(PacketHeader::check(&bad, 0x1234), Err(SerialError::UnknownPacket(0x09)));
}

#[test]
fn checksum_of_zeroed_packet() {
    assert_eq!(packet_checksum(&[1, 5, 0, 0]), 0x424f);
    assert_eq!(packet_checksum(&[1, 5, 0xaa, 0xbb]), 0x424f);
}

#[test]
fn ping_encode_decode_scenario() {
    let ping = Ping { header: header(SerialOpCode::Ping, 5) };
    let bytes = ping.encode();
    assert_eq!(bytes, vec![0x01, 0x05, 0x4f, 0x42]);
    let decoded = Ping::try_from(&bytes).unwrap();
    assert_eq!(decoded.header, PacketHeader { opcode: SerialOpCode::Ping, ctr: 5, crc: 0x424f });
    assert_eq!(Packet::try_from(&bytes), Ok(Packet::Ping(decoded)));
}

#[test]
fn header_too_short() {
    assert_eq!(PacketHeader::try_from(&[1, 2, 3]), Err(SerialError::PacketTooShort(3, 4)));
    assert_eq!(Ping::try_from(&[1]), Err(SerialError::PacketTooShort(1, 4)));
    assert_eq!(Packet::try_from(&[]), Err(SerialError::PacketTooShort(0, 4)));
}

#[test]
fn header_checksum_mismatch() {
    assert_eq!(
        PacketHeader::try_from(&[1, 5, 0, 0]),
        Err(SerialError::PacketCrcMismatch { expected: 0, actual: 0x424f })
    );
    assert_eq!(
        PacketHeader::check(&[1, 5, 0x34, 0x12], 0x1235),
        Err(SerialError::PacketCrcMismatch { expected: 0x1234, actual: 0x1235 })
    );
    assert_eq!(
        PacketHeader::check(&[1, 5, 0x34, 0x12], 0x1234),
        Ok(PacketHeader { opcode: SerialOpCode::Ping, ctr: 5, crc: 0x1234 })
    );
}

#[test]
fn single_bit_flip_is_checksum_mismatch() {
    let bytes = lora_config().encode();
    let sealed = u16::from_le_bytes([bytes[2], bytes[3]]);
    for i in (1..bytes.len()).filter(|i| *i != 2 && *i != 3) {
        for bit in 0..8 {
            let mut q = bytes.clone();
            q[i] ^= 1 << bit;
            match LoraConfig::try_from(&q) {
                Err(SerialError::PacketCrcMismatch { expected, actual }) => {
                    assert_eq!(expected, sealed);
                    assert_ne!(actual, sealed);
                }
                other => panic!("byte {} bit {}: {:?}", i, bit, other),
            }
        }
    }
}

#[test]
fn dev_info_layout() {
    let bytes = dev_info().encode();
    assert_eq!(bytes.len(), 28);
    assert_eq!(&bytes[..2], &[0x02, 7]);
    assert_eq!(&bytes[2..4], &[0xc5, 0xeb]);
    assert_eq!(&bytes[4..8], &[0x78, 0x56, 0x34, 0x12]);
    assert_eq!(&bytes[8..16], &[1, 2, 3, 4, 5, 6, 7, 8]);
    let d = DevInfo::try_from(&bytes).unwrap();
    assert_eq!(d.header, PacketHeader { opcode: SerialOpCode::DeviceInfo, ctr: 7, crc: 0xebc5 });
    assert_eq!(d.fw_ver, 0x1234_5678);
    assert_eq!(d.mac, 0x0807_0605_0403_0201);
    assert_eq!(d.uid, dev_info().uid);
}

#[test]
fn dev_info_truncated_is_too_short() {
    let bytes = dev_info().encode();
    for n in 0..28 {
        assert_eq!(DevInfo::try_from(&bytes[..n]), Err(SerialError::PacketTooShort(n, 28)));
    }
}

#[test]
fn dev_info_too_long_is_structure_error() {
    let mut bytes = dev_info().encode();
    bytes.push(0);
    let crc = packet_checksum(&bytes);
    bytes[2] = crc as u8;
    bytes[3] = (crc >> 8) as u8;
    assert_eq!(DevInfo::try_from(&bytes), Err(SerialError::PacketStructure));
}

#[test]
fn lora_config_layout() {
    let bytes = lora_config().encode();
    assert_eq!(bytes, vec![0x05, 1, 0x28, 0x5f, 7, 1, 2, 1, 0x12, 0x40, 0x42, 0x0f, 0x00]);
    let c = LoraConfig::try_from(&bytes).unwrap();
    assert_eq!(c.header.crc, 0x5f28);
    assert_eq!((c.sf, c.bw, c.cr, c.low_data_rate_opt, c.sync_word, c.freq_hz), (7, 1, 2, true, 0x12, 1_000_000));
    assert_eq!(LoraConfig::try_from(&bytes[..12]), Err(SerialError::PacketTooShort(12, 13)));
}

#[test]
fn lora_config_flag_nonzero_is_true() {
    let mut bytes = vec![0x05, 1, 0, 0, 7, 1, 2, 0x80, 0x12, 0, 0, 0, 0];
    let crc = packet_checksum(&bytes);
    bytes[2] = crc as u8;
    bytes[3] = (crc >> 8) as u8;
    assert!(LoraConfig::try_from(&bytes).unwrap().low_data_rate_opt);
}

#[test]
fn lora_tx_round_trip() {
    let tx = LoraTx {
        header: header(SerialOpCode::LoraSendPacket, 3),
        tx_pwr: 14,
        timeout_ms: 500,
        preamble_cnt: 8,
        header_en: true,
        crc_en: false,
        invert_iq: true,
        buf: vec![0xde, 0xad, 0xbe, 0xef],
    };
    let bytes = tx.encode().unwrap();
    assert_eq!(bytes.len(), 21);
    assert_eq!(&bytes[4..17], &[14, 0xf4, 0x01, 0, 0, 8, 0, 0, 0, 1, 0, 1, 4]);
    let back = LoraTx::try_from(&bytes).unwrap();
    assert_eq!(back.buf, tx.buf);
    assert_eq!((back.tx_pwr, back.timeout_ms, back.preamble_cnt), (14, 500, 8));
    assert_eq!((back.header_en, back.crc_en, back.invert_iq), (true, false, true));
    assert_eq!(back.header.ctr, 3);
    match Packet::try_from(&bytes) {
        Ok(Packet::LoraTx(p)) => assert_eq!(p, back),
        other => panic!("unexpected {:?}", other),
    }
}

#[test]
fn lora_tx_length_mismatch_is_structure_error() {
    let mut bytes = vec![0x10, 0, 0, 0, 1, 0, 0, 0, 0, 0, 0, 0, 0, 0, 0, 0, 5, 1, 2];
    let crc = packet_checksum(&bytes);
    bytes[2] = crc as u8;
    bytes[3] = (crc >> 8) as u8;
    assert_eq!(LoraTx::try_from(&bytes), Err(SerialError::PacketStructure));
    assert_eq!(LoraTx::try_from(&bytes[..16]), Err(SerialError::PacketTooShort(16, 17)));
}

#[test]
fn lora_tx_payload_too_long_to_encode() {
    let tx = LoraTx {
        header: header(SerialOpCode::LoraSendPacket, 0),
        tx_pwr: 0,
        timeout_ms: 0,
        preamble_cnt: 0,
        header_en: false,
        crc_en: false,
        invert_iq: false,
        buf: vec![0; 256],
    };
    assert_eq!(tx.encode(), Err(SerialError::PacketStructure));
}

#[test]
fn lora_rx_round_trip() {
    let rx = LoraRx {
        header: header(SerialOpCode::LoraRecvPacket, 4),
        pkt_rssi: 0x90,
        sig_rssi: 0x91,
        snr: 12,
        buf: (1..=10).collect(),
    };
    let bytes = rx.encode().unwrap();
    assert_eq!(&bytes[4..8], &[0x90, 0x91, 12, 10]);
    let back = LoraRx::try_from(&bytes).unwrap();
    assert_eq!(back.buf, rx.buf);
    assert_eq!((back.pkt_rssi, back.sig_rssi, back.snr), (0x90, 0x91, 12));
    match Packet::try_from(&bytes) {
        Ok(Packet::LoraRx(p)) => assert_eq!(p, back),
        other => panic!("unexpected {:?}", other),
    }
    assert_eq!(LoraRx::try_from(&bytes[..9]), Err(SerialError::PacketTooShort(9, 17)));
}

#[test]
fn header_only_opcodes_decode_to_header() {
    let ack = Ping { header: header(SerialOpCode::Ack, 2) }.encode();
    match Packet::try_from(&ack) {
        Ok(Packet::Header(h)) => {
            assert_eq!(h.opcode, SerialOpCode::Ack);
            assert_eq!(h.ctr, 2);
        }
        other => panic!("unexpected {:?}", other),
    }
}

#[test]
fn decode_with_given_checksum() {
    let bytes = [0x01, 5, 0x4f, 0x42];
    assert_eq!(
        Ping::decode_with_crc(&bytes, 0x424f),
        Ok(Ping { header: PacketHeader { opcode: SerialOpCode::Ping, ctr: 5, crc: 0x424f } })
    );
    assert_eq!(
        Packet::decode_with_crc(&bytes, 0x0001),
        Err(SerialError::PacketCrcMismatch { expected: 0x424f, actual: 0x0001 })
    );
}

#[test]
fn little_endian_reads() {
    assert_eq!(slice_to_u16le(&[0x34, 0x12]), 0x1234);
    assert_eq!(slice_to_u16le(&[0x34]), 0);
    assert_eq!(slice_to_u32le(&[0x78, 0x56, 0x34, 0x12]), 0x1234_5678);
    assert_eq!(slice_to_u32le(&[1, 2, 3]), 0);
    assert_eq!(slice_to_u64le(&[1, 2, 3, 4, 5, 6, 7, 8]), 0x0807_0605_0403_0201);
    assert_eq!(slice_to_u64le(&[0xff; 8]), u64::MAX);
    assert_eq!(slice_to_u64le(&[1; 9]), 0);
}

#[test]
fn lora_rx_short_payload_is_too_short() {
    let rx = LoraRx {
        header: header(SerialOpCode::LoraRecvPacket, 0),
        pkt_rssi: 1,
        sig_rssi: 2,
        snr: 3,
        buf: vec![9, 9, 9, 9],
    };
    let bytes = rx.encode().unwrap();
    assert_eq!(bytes.len(), 12);
    assert_eq!(LoraRx::try_from(&bytes), Err(SerialError::PacketTooShort(12, 17)));
}
