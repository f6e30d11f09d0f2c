use vstd::prelude::*;
use crate::checksum::{crc16_dnp, zero_crc_field};
use crate::codec::{
    decode_step, escape, escaped_byte, frame_of, is_escape_code, is_marker, marker_pos, pos_from,
    prepend, unescape, unescaped_of, SSLIP_END, SSLIP_ESC, SSLIP_START,
};
use crate::error::SerialError;
use crate::le::le_value;
use crate::packet::{
    declared_crc, dev_info_outcome, header_result, opcode_byte, opcode_of, packet_outcome,
    ping_result, DevInfo, Packet, PacketHeader, Ping,
};
use crate::packet::{
    lora_config_result, lora_rx_outcome, lora_tx_outcome, LoraConfig, LoraRx, LoraTx, SerialOpCode,
};
use crate::wire::{
    dev_info_body, flag_byte, header_bytes, le_bytes, lora_config_body, lora_rx_body, lora_tx_body,
    seal,
};

verus! {

proof fn lemma_prepend_assoc(a: Seq<u8>, b: Seq<u8>, r: Result<Seq<u8>, u8>)
    ensures
        prepend(a, prepend(b, r)) == prepend(a + b, r),
{
    if let Ok(t) = r {
        assert(a + (b + t) =~= (a + b) + t);
    }
}

/// Escaped payload bytes are never a start or end marker, and every escape
/// byte in them is followed by an escape code.
pub proof fn lemma_escape_complete(p: Seq<u8>)
    ensures
        forall|i: int| 0 <= i < escape(p).len() ==> escape(p)[i] != SSLIP_START && escape(p)[i] != SSLIP_END,
        forall|i: int| 0 <= i < escape(p).len() && #[trigger] escape(p)[i] == SSLIP_ESC
            ==> i + 1 < escape(p).len() && is_escape_code(escape(p)[i + 1]),
    decreases p.len(),
{
    if p.len() > 0 {
        lemma_escape_complete(p.drop_first());
        let h = escaped_byte(p[0]);
        let t = escape(p.drop_first());
        assert(escape(p) == h + t);
        assert forall|i: int| 0 <= i < escape(p).len() && #[trigger] escape(p)[i] == SSLIP_ESC
            implies i + 1 < escape(p).len() && is_escape_code(escape(p)[i + 1]) by {
            if i >= h.len() {
                let j = i - h.len();
                assert(escape(p)[i] == t[j]);
                assert(t[j] == SSLIP_ESC);
                assert(j + 1 < t.len() && is_escape_code(t[j + 1]));
                assert(escape(p)[i + 1] == t[j + 1]);
            } else {
                assert(escape(p)[i] == h[i]);
                assert(h.len() == 2 && i == 0);
                assert(escape(p)[i + 1] == h[1]);
            }
        }
    }
}

/// Every frame starts with the start marker, ends with the end marker, and
/// holds neither marker anywhere in between.
pub proof fn lemma_frame_markers(p: Seq<u8>)
    ensures
        frame_of(p).len() == escape(p).len() + 2,
        frame_of(p)[0] == SSLIP_START,
        frame_of(p)[frame_of(p).len() - 1] == SSLIP_END,
        forall|i: int| 0 < i < frame_of(p).len() - 1
            ==> #[trigger] frame_of(p)[i] != SSLIP_START && frame_of(p)[i] != SSLIP_END,
{
    lemma_escape_complete(p);
    assert forall|i: int| 0 < i < frame_of(p).len() - 1
        implies #[trigger] frame_of(p)[i] != SSLIP_START && frame_of(p)[i] != SSLIP_END by {
        assert(frame_of(p)[i] == escape(p)[i - 1]);
    }
}

/// Unescaping an escaped payload followed by more bytes gives the payload back
/// in front of whatever those bytes unescape to.
pub proof fn lemma_unescape_escape(p: Seq<u8>, t: Seq<u8>)
    ensures
        unescape(escape(p) + t) == prepend(p, unescape(t)),
    decreases p.len(),
{
    if p.len() == 0 {
        assert(escape(p) + t =~= t);
        if let Ok(u) = unescape(t) {
            assert(p + u =~= u);
        }
    } else {
        let x = p[0];
        let q = p.drop_first();
        let s = escape(p) + t;
        lemma_unescape_escape(q, t);
        assert(escape(p) == escaped_byte(x) + escape(q));
        lemma_prepend_assoc(seq![x], q, unescape(t));
        assert(seq![x] + q =~= p);
        if is_marker(x) {
            assert(s.subrange(2, s.len() as int) =~= escape(q) + t);
            assert(s[0] == SSLIP_ESC);
            assert(unescaped_of(s[1]) == x);
        } else {
            assert(s.drop_first() =~= escape(q) + t);
            assert(s[0] == x);
        }
    }
}

/// The first index at or after `i` holding `m` is `j` when `s[j]` is `m` and
/// nothing from `i` up to `j` is.
pub proof fn lemma_pos_from(s: Seq<u8>, m: u8, i: int, j: int)
    requires
        0 <= i <= j < s.len(),
        s[j] == m,
        forall|k: int| i <= k < j ==> s[k] != m,
    ensures
        pos_from(s, m, i) == j,
    decreases j - i,
{
    if i < j {
        lemma_pos_from(s, m, i + 1, j);
    }
}

/// A frame preceded by noise without a start marker, and followed by any
/// bytes, decodes to its payload; the noise is dropped and the bytes after
/// the frame stay buffered.
pub proof fn lemma_resync(noise: Seq<u8>, p: Seq<u8>, rest: Seq<u8>)
    requires
        forall|i: int| 0 <= i < noise.len() ==> noise[i] != SSLIP_START,
    ensures
        decode_step(noise + frame_of(p) + rest) == (Ok::<Option<Seq<u8>>, u8>(Some(p)), rest),
{
    let f = frame_of(p);
    let s = noise + f + rest;
    lemma_frame_markers(p);
    let k = noise.len() as int;
    assert(s[k] == SSLIP_START);
    lemma_pos_from(s, SSLIP_START, 0, k);
    let t = s.subrange(k, s.len() as int);
    assert(t =~= f + rest);
    let e = f.len() - 1;
    assert forall|j: int| 0 <= j < e implies t[j] != SSLIP_END by {
        assert(t[j] == f[j]);
    }
    lemma_pos_from(t, SSLIP_END, 0, e);
    assert(marker_pos(t, SSLIP_END) == e);
    assert(t.subrange(0, e + 1) =~= f);
    assert(t.subrange(e + 1, t.len() as int) =~= rest);
    lemma_unescape_escape(p, seq![SSLIP_END]);
    assert(f == seq![SSLIP_START] + (escape(p) + seq![SSLIP_END]));
    assert(f.drop_first() =~= escape(p) + seq![SSLIP_END]);
    assert(seq![SSLIP_END].drop_first() =~= Seq::<u8>::empty());
    assert(unescape(seq![SSLIP_END]) == unescape(Seq::<u8>::empty()));
    assert(p + Seq::<u8>::empty() =~= p);
    assert(unescape(f) == Ok::<Seq<u8>, u8>(p));
}

/// Decoding the frame of a payload gives the payload back and leaves
/// nothing buffered.
pub proof fn lemma_frame_round_trip(p: Seq<u8>)
    ensures
        decode_step(frame_of(p)) == (Ok::<Option<Seq<u8>>, u8>(Some(p)), Seq::<u8>::empty()),
{
    lemma_resync(Seq::<u8>::empty(), p, Seq::<u8>::empty());
    assert(Seq::<u8>::empty() + frame_of(p) + Seq::<u8>::empty() =~= frame_of(p));
}

/// Sealing a body leaves everything outside the checksum field as it was,
/// and the field then declares the checksum of the body with that field zeroed.
pub proof fn lemma_seal(body: Seq<u8>)
    requires
        body.len() >= 4,
    ensures
        seal(body).len() == body.len(),
        zero_crc_field(seal(body)) == zero_crc_field(body),
        declared_crc(seal(body)) == crc16_dnp(zero_crc_field(body)),
        forall|i: int| 0 <= i < body.len() && i != 2 && i != 3 ==> #[trigger] seal(body)[i] == body[i],
{
    let c = crc16_dnp(zero_crc_field(body));
    let s = seal(body);
    assert(zero_crc_field(s) =~= zero_crc_field(body));
    let f = s.subrange(2, 4);
    reveal_with_fuel(le_value, 3);
    assert(f.drop_first().drop_first() =~= Seq::<u8>::empty());
    assert(f[0] == (c % 256) as u8 && f[1] == (c / 256) as u8);
    assert(le_value(f) == (c % 256) + 256 * (c / 256));
}

/// A sealed body whose first byte is a known opcode passes header
/// validation, and the header holds that opcode, the counter, and the
/// checksum that sealing wrote.
pub proof fn lemma_sealed_header_checks(body: Seq<u8>)
    requires
        body.len() >= 4,
        opcode_of(body[0]) is Some,
    ensures
        header_result(seal(body), crc16_dnp(zero_crc_field(seal(body)))) == Ok::<PacketHeader, SerialError>(
            PacketHeader {
                opcode: opcode_of(body[0])->Some_0,
                ctr: body[1],
                crc: crc16_dnp(zero_crc_field(body)),
            },
        ),
{
    lemma_seal(body);
    assert(seal(body)[0] == body[0]);
    assert(seal(body)[1] == body[1]);
}

/// Encoding a ping and decoding the bytes gives back its opcode and counter,
/// with the checksum that encoding computed.
pub proof fn lemma_ping_round_trip(h: PacketHeader)
    ensures
        ping_result(seal(header_bytes(h)), crc16_dnp(zero_crc_field(seal(header_bytes(h)))))
            == Ok::<Ping, SerialError>(Ping {
                header: PacketHeader {
                    opcode: h.opcode,
                    ctr: h.ctr,
                    crc: crc16_dnp(zero_crc_field(header_bytes(h))),
                },
            }),
{
    let b = header_bytes(h);
    assert(opcode_of(opcode_byte(h.opcode)) == Some(h.opcode));
    lemma_sealed_header_checks(b);
    lemma_seal(b);
}

/// A sealed packet altered outside its checksum field, with its opcode still
/// known, is refused whenever the checksum of the altered bytes differs from
/// the one sealed in: the mismatch reports the sealed checksum as expected
/// and the checksum of the altered bytes as actual.
pub proof fn lemma_changed_checksum_is_reported(body: Seq<u8>, q: Seq<u8>)
    requires
        body.len() >= 4,
        q.len() == body.len(),
        q[2] == seal(body)[2],
        q[3] == seal(body)[3],
        opcode_of(q[0]) is Some,
        crc16_dnp(zero_crc_field(q)) != crc16_dnp(zero_crc_field(body)),
    ensures
        header_result(q, crc16_dnp(zero_crc_field(q))) == Err::<PacketHeader, SerialError>(
            SerialError::PacketCrcMismatch {
                expected: crc16_dnp(zero_crc_field(body)),
                actual: crc16_dnp(zero_crc_field(q)),
            },
        ),
{
    lemma_seal(body);
    assert(q.subrange(2, 4) =~= seal(body).subrange(2, 4));
}

/// A device-info packet cut short of its 28 bytes is refused as too short,
/// with its actual length and 28, whatever the checksum.
pub proof fn lemma_truncated_dev_info(s: Seq<u8>, n: int, actual: u16, r: Result<DevInfo, SerialError>)
    requires
        0 <= n < 28,
        n <= s.len(),
        dev_info_outcome(r, s.subrange(0, n), actual),
    ensures
        r == Err::<DevInfo, SerialError>(SerialError::PacketTooShort(n as usize, 28)),
{
}

/// A packet whose first byte is not in the opcode table is refused with that
/// byte, before its checksum or any field is looked at: the outcome is the
/// same for every checksum.
pub proof fn lemma_unknown_opcode(s: Seq<u8>, actual: u16, r: Result<Packet, SerialError>)
    requires
        s.len() >= 4,
        opcode_of(s[0]) is None,
        packet_outcome(r, s, actual),
    ensures
        r == Err::<Packet, SerialError>(SerialError::UnknownPacket(s[0])),
        forall|a: u16| #[trigger] header_result(s, a) == Err::<PacketHeader, SerialError>(SerialError::UnknownPacket(s[0])),
{
}

/// 256 to the power `n`: the first value that `n` bytes cannot hold.
pub open spec fn byte_bound(n: nat) -> nat
    decreases n,
{
    if n == 0 {
        1
    } else {
        256 * byte_bound((n - 1) as nat)
    }
}

/// Writing a value that fits in `n` bytes little-endian and reading it back
/// gives the value.
pub proof fn lemma_le_round_trip(x: nat, n: nat)
    requires
        x < byte_bound(n),
    ensures
        le_bytes(x, n).len() == n,
        le_value(le_bytes(x, n)) == x,
    decreases n,
{
    if n > 0 {
        let m = (n - 1) as nat;
        let bound = byte_bound(m);
        assert(x / 256 < bound) by (nonlinear_arith)
            requires
                x < 256 * bound,
        ;
        lemma_le_round_trip(x / 256, m);
        let b = le_bytes(x, n);
        assert(b.drop_first() =~= le_bytes(x / 256, m));
        assert(x == x % 256 + 256 * (x / 256));
    }
}

proof fn lemma_u32_fits(x: u32)
    ensures
        (x as nat) < byte_bound(4),
{
    reveal_with_fuel(byte_bound, 5);
}

proof fn lemma_u64_fits(x: u64)
    ensures
        (x as nat) < byte_bound(8),
{
    reveal_with_fuel(byte_bound, 9);
}

/// Every opcode's wire byte is looked up as that opcode.
pub proof fn lemma_opcode_byte(op: SerialOpCode)
    ensures
        opcode_of(opcode_byte(op)) == Some(op),
{
}

/// Outside the checksum field, a sealed packet holds its body's bytes.
pub proof fn lemma_seal_subrange(body: Seq<u8>, a: int, b: int)
    requires
        4 <= a <= b <= body.len(),
    ensures
        seal(body).subrange(a, b) == body.subrange(a, b),
{
    lemma_seal(body);
    assert(seal(body).subrange(a, b) =~= body.subrange(a, b));
}

/// The header that decoding an encoded packet yields: the opcode and counter
/// it was encoded with, and the checksum that encoding computed.
pub open spec fn resealed(h: PacketHeader, body: Seq<u8>) -> PacketHeader {
    PacketHeader { opcode: h.opcode, ctr: h.ctr, crc: crc16_dnp(zero_crc_field(body)) }
}

proof fn lemma_header_of_body(h: PacketHeader, body: Seq<u8>)
    requires
        body.len() >= 4,
        body.subrange(0, 4) == header_bytes(h),
    ensures
        header_result(seal(body), crc16_dnp(zero_crc_field(seal(body))))
            == Ok::<PacketHeader, SerialError>(resealed(h, body)),
{
    assert(body[0] == body.subrange(0, 4)[0]);
    assert(body[1] == body.subrange(0, 4)[1]);
    lemma_opcode_byte(h.opcode);
    lemma_sealed_header_checks(body);
}

/// Decoding an encoded device-info packet gives back every field it was
/// encoded with.
pub proof fn lemma_dev_info_round_trip(d: DevInfo, r: Result<DevInfo, SerialError>)
    requires
        dev_info_outcome(r, seal(dev_info_body(d)), crc16_dnp(zero_crc_field(seal(dev_info_body(d))))),
    ensures
        r matches Ok(e) && e.header == resealed(d.header, dev_info_body(d)) && e.fw_ver == d.fw_ver
            && e.mac == d.mac && e.uid@ == d.uid@,
{
    let body = dev_info_body(d);
    lemma_u32_fits(d.fw_ver);
    lemma_u64_fits(d.mac);
    lemma_le_round_trip(d.fw_ver as nat, 4);
    lemma_le_round_trip(d.mac as nat, 8);
    assert(body.len() == 28);
    assert(body.subrange(0, 4) =~= header_bytes(d.header));
    lemma_header_of_body(d.header, body);
    lemma_seal(body);
    lemma_seal_subrange(body, 4, 8);
    lemma_seal_subrange(body, 8, 16);
    lemma_seal_subrange(body, 16, 28);
    assert(body.subrange(4, 8) =~= le_bytes(d.fw_ver as nat, 4));
    assert(body.subrange(8, 16) =~= le_bytes(d.mac as nat, 8));
    assert(body.subrange(16, 28) =~= d.uid@);
}

/// Decoding an encoded LoRa configuration packet gives back every field it
/// was encoded with.
pub proof fn lemma_lora_config_round_trip(c: LoraConfig)
    ensures
        lora_config_result(seal(lora_config_body(c)), crc16_dnp(zero_crc_field(seal(lora_config_body(c)))))
            == Ok::<LoraConfig, SerialError>(LoraConfig {
                header: resealed(c.header, lora_config_body(c)),
                sf: c.sf,
                bw: c.bw,
                cr: c.cr,
                low_data_rate_opt: c.low_data_rate_opt,
                sync_word: c.sync_word,
                freq_hz: c.freq_hz,
            }),
{
    let body = lora_config_body(c);
    lemma_u32_fits(c.freq_hz);
    lemma_le_round_trip(c.freq_hz as nat, 4);
    assert(body.len() == 13);
    assert(body.subrange(0, 4) =~= header_bytes(c.header));
    lemma_header_of_body(c.header, body);
    lemma_seal(body);
    lemma_seal_subrange(body, 9, 13);
    assert(body.subrange(9, 13) =~= le_bytes(c.freq_hz as nat, 4));
    let s = seal(body);
    assert(s[4] == body[4] && s[5] == body[5] && s[6] == body[6] && s[7] == body[7] && s[8] == body[8]);
}

/// Decoding an encoded LoRa transmit packet gives back every field it was
/// encoded with, payload included.
pub proof fn lemma_lora_tx_round_trip(p: LoraTx, r: Result<LoraTx, SerialError>)
    requires
        p.buf@.len() <= 255,
        lora_tx_outcome(r, seal(lora_tx_body(p)), crc16_dnp(zero_crc_field(seal(lora_tx_body(p))))),
    ensures
        r matches Ok(q) && q.header == resealed(p.header, lora_tx_body(p)) && q.tx_pwr == p.tx_pwr
            && q.timeout_ms == p.timeout_ms && q.preamble_cnt == p.preamble_cnt
            && q.header_en == p.header_en && q.crc_en == p.crc_en && q.invert_iq == p.invert_iq
            && q.buf@ == p.buf@,
{
    let body = lora_tx_body(p);
    let n = body.len() as int;
    lemma_u32_fits(p.timeout_ms);
    lemma_u32_fits(p.preamble_cnt);
    lemma_le_round_trip(p.timeout_ms as nat, 4);
    lemma_le_round_trip(p.preamble_cnt as nat, 4);
    assert(n == 17 + p.buf@.len());
    assert(body.subrange(0, 4) =~= header_bytes(p.header));
    lemma_header_of_body(p.header, body);
    lemma_seal(body);
    lemma_seal_subrange(body, 5, 9);
    lemma_seal_subrange(body, 9, 13);
    lemma_seal_subrange(body, 17, n);
    assert(body.subrange(5, 9) =~= le_bytes(p.timeout_ms as nat, 4));
    assert(body.subrange(9, 13) =~= le_bytes(p.preamble_cnt as nat, 4));
    assert(body.subrange(17, n) =~= p.buf@);
    let s = seal(body);
    assert(s[4] == body[4] && s[13] == body[13] && s[14] == body[14] && s[15] == body[15]
        && s[16] == body[16]);
    assert(body[16] == p.buf@.len() as u8);
}

/// Decoding an encoded LoRa receive packet gives back every field it was
/// encoded with, payload included, when the payload is long enough for the
/// packet to reach the minimum length of 17 bytes.
pub proof fn lemma_lora_rx_round_trip(p: LoraRx, r: Result<LoraRx, SerialError>)
    requires
        9 <= p.buf@.len() <= 255,
        lora_rx_outcome(r, seal(lora_rx_body(p)), crc16_dnp(zero_crc_field(seal(lora_rx_body(p))))),
    ensures
        r matches Ok(q) && q.header == resealed(p.header, lora_rx_body(p)) && q.pkt_rssi == p.pkt_rssi
            && q.sig_rssi == p.sig_rssi && q.snr == p.snr && q.buf@ == p.buf@,
{
    let body = lora_rx_body(p);
    let n = body.len() as int;
    assert(n == 8 + p.buf@.len());
    assert(body.subrange(0, 4) =~= header_bytes(p.header));
    lemma_header_of_body(p.header, body);
    lemma_seal(body);
    lemma_seal_subrange(body, 8, n);
    assert(body.subrange(8, n) =~= p.buf@);
    let s = seal(body);
    assert(s[4] == body[4] && s[5] == body[5] && s[6] == body[6] && s[7] == body[7]);
    assert(body[7] == p.buf@.len() as u8);
}

} // verus!
