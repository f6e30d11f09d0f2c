use bytes::BytesMut;
use redshore_serial::codec::{StatefulSlipCodec, SSLIP_END, SSLIP_ESC, SSLIP_START};
use redshore_serial::error::SerialError;
use redshore_serial::packet::{Packet, PacketHeader, Ping, SerialOpCode};

fn buf(bytes: &[u8]) -> BytesMut {
    BytesMut::from(bytes)
}

fn framed(payload: &[u8]) -> Vec<u8> {
    let mut dst = BytesMut::new();
    StatefulSlipCodec.encode(payload, &mut dst);
    dst.to_vec()
}

#[test]
fn decode_waits_for_two_bytes() {
    let mut src = buf(&[0xa5]);
    assert_eq!(StatefulSlipCodec.decode(&mut src), Ok(None));
    assert_eq!(&src[..], &[0xa5]);
}

#[test]
fn decode_without_start_keeps_buffer() {
    let mut src = buf(&[1, 2, 0xc0, 3]);
    assert_eq!(StatefulSlipCodec.decode(&mut src), Ok(None));
    assert_eq!(&src[..], &[1, 2, 0xc0, 3]);
}

#[test]
fn decode_drops_noise_and_waits_for_end() {
    let mut src = buf(&[1, 2, 0xa5, 3]);
    assert_eq!(StatefulSlipCodec.decode(&mut src), Ok(None));
    assert_eq!(&src[..], &[0xa5, 3]);
    src.extend_from_slice(&[4, 0xc0]);
    assert_eq!(StatefulSlipCodec.decode(&mut src), Ok(Some(vec![3, 4])));
    assert!(src.is_empty());
}

#[test]
fn decode_simple_frame_keeps_rest() {
    let mut src = buf(&[0xa5, 1, 2, 3, 0xc0, 9]);
    assert_eq!(StatefulSlipCodec.decode(&mut src), Ok(Some(vec![1, 2, 3])));
    assert_eq!(&src[..], &[9]);
}

#[test]
fn decode_unescapes_every_code() {
    let mut src = buf(&[0xa5, 0xdb, 0xdd, 0xdb, 0xdc, 0xdb, 0xde, 7, 0xc0]);
    assert_eq!(StatefulSlipCodec.decode(&mut src), Ok(Some(vec![0xdb, 0xc0, 0xa5, 7])));
    assert!(src.is_empty());
}

#[test]
fn decode_empty_frame() {
    let mut src = buf(&[0xa5, 0xc0]);
    assert_eq!(StatefulSlipCodec.decode(&mut src), Ok(Some(vec![])));
}

#[test]
fn decode_bad_escape_discards_frame() {
    let mut src = buf(&[0xa5, 0xdb, 0x01, 0xc0, 5]);
    assert_eq!(StatefulSlipCodec.decode(&mut src), Err(SerialError::Framing(0x01)));
    assert_eq!(&src[..], &[5]);
}

#[test]
fn decode_escape_before_end_is_framing_error() {
    let mut src = buf(&[0xa5, 0xdb, 0xc0]);
    assert_eq!(StatefulSlipCodec.decode(&mut src), Err(SerialError::Framing(0xc0)));
    assert!(src.is_empty());
}

#[test]
fn decode_stream_continues_after_framing_error() {
    let mut src = buf(&[0xa5, 0xdb, 0x00, 0xc0, 0xa5, 8, 0xc0]);
    assert_eq!(StatefulSlipCodec.decode(&mut src), Err(SerialError::Framing(0x00)));
    assert_eq!(StatefulSlipCodec.decode(&mut src), Ok(Some(vec![8])));
}

#[test]
fn decode_frames_in_order() {
    let mut src = buf(&[0xa5, 1, 0xc0, 0xa5, 2, 0xc0]);
    assert_eq!(StatefulSlipCodec.decode(&mut src), Ok(Some(vec![1])));
    assert_eq!(StatefulSlipCodec.decode(&mut src), Ok(Some(vec![2])));
    assert_eq!(StatefulSlipCodec.decode(&mut src), Ok(None));
}

#[test]
fn encode_escapes_markers() {
    assert_eq!(
        framed(&[1, 0xa5, 0xc0, 0xdb, 2]),
        vec![0xa5, 1, 0xdb, 0xde, 0xdb, 0xdc, 0xdb, 0xdd, 2, 0xc0]
    );
}

#[test]
fn encode_empty_payload() {
    assert_eq!(framed(&[]), vec![0xa5, 0xc0]);
}

#[test]
fn encode_appends_to_buffer() {
    let mut dst = buf(&[7, 7]);
    StatefulSlipCodec.encode(&[1], &mut dst);
    assert_eq!(&dst[..], &[7, 7, 0xa5, 1, 0xc0]);
}

#[test]
fn round_trip_payloads() {
    let all: Vec<u8> = (0..=255u8).collect();
    let cases: Vec<Vec<u8>> = vec![
        vec![],
        vec![0x00],
        vec![0xa5],
        vec![0xc0, 0xdb, 0xa5],
        vec![0xdb, 0xdb, 0xdd],
        vec![1, 2, 3, 4, 5],
        all,
    ];
    for payload in cases {
        let mut src = buf(&framed(&payload));
        assert_eq!(StatefulSlipCodec.decode(&mut src), Ok(Some(payload.clone())));
        assert!(src.is_empty());
    }
}

#[test]
fn escaping_leaves_no_bare_marker() {
    let all: Vec<u8> = (0..=255u8).rev().collect();
    let wire = framed(&all);
    assert_eq!(wire[0], SSLIP_START);
    assert_eq!(wire[wire.len() - 1], SSLIP_END);
    let body = &wire[1..wire.len() - 1];
    let mut i = 0;
    while i < body.len() {
        assert_ne!(body[i], SSLIP_START);
        assert_ne!(body[i], SSLIP_END);
        if body[i] == SSLIP_ESC {
            assert!(matches!(body[i + 1], 0xdc | 0xdd | 0xde));
            i += 2;
        } else {
            i += 1;
        }
    }
    assert_eq!(wire.len(), 256 + 3 + 2);
}

#[test]
fn resync_on_ping_between_noise() {
    let ping = Ping { header: PacketHeader { opcode: SerialOpCode::Ping, ctr: 9, crc: 0 } };
    let mut stream = vec![0x00, 0x13, 0xc0, 0x77, 0xdb];
    stream.extend_from_slice(&framed(&ping.encode()));
    stream.extend_from_slice(&[0x42, 0x99]);
    let mut src = buf(&stream);
    let frame = StatefulSlipCodec.decode(&mut src).unwrap().unwrap();
    assert_eq!(&src[..], &[0x42, 0x99]);
    match Packet::try_from(&frame).unwrap() {
        Packet::Ping(p) => {
            assert_eq!(p.header.opcode, SerialOpCode::Ping);
            assert_eq!(p.header.ctr, 9);
        }
        other => panic!("unexpected packet {:?}", other),
    }
    assert_eq!(StatefulSlipCodec.decode(&mut src), Ok(None));
}
