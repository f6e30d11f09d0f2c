use vstd::prelude::*;
use crate::checksum::{crc16_dnp, packet_checksum, zero_crc_field};
use crate::error::SerialError;
use crate::packet::{opcode_byte, DevInfo, LoraConfig, LoraRx, LoraTx, PacketHeader, Ping};

verus! {

/// The `n` low bytes of `x`, least significant first.
pub open spec fn le_bytes(x: nat, n: nat) -> Seq<u8>
    decreases n,
{
    if n == 0 {
        seq![]
    } else {
        seq![(x % 256) as u8] + le_bytes(x / 256, (n - 1) as nat)
    }
}

/// The byte that carries a flag.
pub open spec fn flag_byte(b: bool) -> u8 {
    if b { 1 } else { 0 }
}

/// The start of every packet body: opcode, counter, zeroed checksum field.
pub open spec fn header_bytes(h: PacketHeader) -> Seq<u8> {
    seq![opcode_byte(h.opcode), h.ctr, 0u8, 0u8]
}

/// The body of a device-info packet, checksum field zeroed.
pub open spec fn dev_info_body(d: DevInfo) -> Seq<u8> {
    header_bytes(d.header) + le_bytes(d.fw_ver as nat, 4) + le_bytes(d.mac as nat, 8) + d.uid@
}

/// The body of a LoRa configuration packet, checksum field zeroed.
pub open spec fn lora_config_body(c: LoraConfig) -> Seq<u8> {
    header_bytes(c.header) + seq![c.sf, c.bw, c.cr, flag_byte(c.low_data_rate_opt), c.sync_word]
        + le_bytes(c.freq_hz as nat, 4)
}

/// The body of a LoRa transmit packet, checksum field zeroed.
pub open spec fn lora_tx_body(p: LoraTx) -> Seq<u8> {
    header_bytes(p.header) + seq![p.tx_pwr] + le_bytes(p.timeout_ms as nat, 4)
        + le_bytes(p.preamble_cnt as nat, 4) + seq![flag_byte(p.header_en), flag_byte(p.crc_en),
        flag_byte(p.invert_iq), p.buf@.len() as u8] + p.buf@
}

/// The body of a LoRa receive packet, checksum field zeroed.
pub open spec fn lora_rx_body(p: LoraRx) -> Seq<u8> {
    header_bytes(p.header) + seq![p.pkt_rssi, p.sig_rssi, p.snr, p.buf@.len() as u8] + p.buf@
}

/// A packet body with its checksum field filled in: the checksum of the body
/// with that field zeroed, little-endian at offsets 2 and 3.
pub open spec fn seal(body: Seq<u8>) -> Seq<u8> {
    let c = crc16_dnp(zero_crc_field(body));
    body.update(2, (c % 256) as u8).update(3, (c / 256) as u8)
}

/// Appends the `n` low bytes of `x`, least significant first.
fn push_le(out: &mut Vec<u8>, x: u64, n: usize)
    ensures
        final(out)@ == old(out)@ + le_bytes(x as nat, n as nat),
{
    let ghost start = out@;
    let mut cur: u64 = x;
    let mut j: usize = 0;
    while j < n
        invariant
            j <= n,
            start + le_bytes(x as nat, n as nat) == out@ + le_bytes(cur as nat, (n - j) as nat),
        decreases n - j,
    {
        let ghost rest = le_bytes(cur as nat / 256, (n - j - 1) as nat);
        assert(le_bytes(cur as nat, (n - j) as nat) == seq![(cur % 256) as u8] + rest);
        assert(out@ + (seq![(cur % 256) as u8] + rest) =~= out@.push((cur % 256) as u8) + rest);
        out.push((cur % 256) as u8);
        cur = cur / 256;
        j += 1;
    }
    assert(out@ + le_bytes(cur as nat, 0) =~= out@);
}

/// Fills in the checksum field of a packet body.
fn seal_in_place(body: &mut Vec<u8>)
    requires
        old(body)@.len() >= 4,
    ensures
        final(body)@ == seal(old(body)@),
{
    let c = packet_checksum(body.as_slice());
    body.set(2, (c % 256) as u8);
    body.set(3, (c / 256) as u8);
}

/// Starts a packet body with the header's opcode and counter and a zeroed
/// checksum field.
fn start_body(h: &PacketHeader) -> (r: Vec<u8>)
    ensures
        r@ == header_bytes(*h),
{
    let mut v: Vec<u8> = Vec::new();
    v.push(h.opcode.to_byte());
    v.push(h.ctr);
    v.push(0);
    v.push(0);
    assert(v@ =~= header_bytes(*h));
    v
}

impl Ping {
    /// The wire bytes of this packet; its checksum is computed afresh.
    pub fn encode(&self) -> (r: Vec<u8>)
        ensures
            r@ == seal(header_bytes(self.header)),
    {
        let mut v = start_body(&self.header);
        seal_in_place(&mut v);
        v
    }
}

impl DevInfo {
    /// The wire bytes of this packet; its checksum is computed afresh.
    pub fn encode(&self) -> (r: Vec<u8>)
        ensures
            r@ == seal(dev_info_body(*self)),
    {
        let mut v = start_body(&self.header);
        push_le(&mut v, self.fw_ver as u64, 4);
        push_le(&mut v, self.mac, 8);
        let ghost before = v@;
        let mut i: usize = 0;
        while i < 12
            invariant
                i <= 12,
                v@ == before + self.uid@.subrange(0, i as int),
            decreases 12 - i,
        {
            v.push(self.uid[i]);
            assert(v@ =~= before + self.uid@.subrange(0, i + 1));
            i += 1;
        }
        assert(self.uid@.subrange(0, 12) =~= self.uid@);
        seal_in_place(&mut v);
        v
    }
}

impl LoraConfig {
    /// The wire bytes of this packet; its checksum is computed afresh.
    pub fn encode(&self) -> (r: Vec<u8>)
        ensures
            r@ == seal(lora_config_body(*self)),
    {
        let mut v = start_body(&self.header);
        let ghost h = v@;
        v.push(self.sf);
        v.push(self.bw);
        v.push(self.cr);
        v.push(if self.low_data_rate_opt { 1 } else { 0 });
        v.push(self.sync_word);
        assert(v@ =~= h + seq![self.sf, self.bw, self.cr, flag_byte(self.low_data_rate_opt), self.sync_word]);
        push_le(&mut v, self.freq_hz as u64, 4);
        seal_in_place(&mut v);
        v
    }
}

/// Appends a whole byte string.
fn push_all(out: &mut Vec<u8>, src: &Vec<u8>)
    ensures
        final(out)@ == old(out)@ + src@,
{
    let ghost start = out@;
    let mut i: usize = 0;
    while i < src.len()
        invariant
            i <= src@.len(),
            out@ == start + src@.subrange(0, i as int),
        decreases src@.len() - i,
    {
        out.push(src[i]);
        assert(out@ =~= start + src@.subrange(0, i + 1));
        i += 1;
    }
    assert(src@.subrange(0, src@.len() as int) =~= src@);
}

impl LoraTx {
    /// The wire bytes of this packet; its checksum is computed afresh. A
    /// payload longer than its one-byte length field can count is refused.
    pub fn encode(&self) -> (r: Result<Vec<u8>, SerialError>)
        ensures
            self.buf@.len() > 255 ==> r == Err::<Vec<u8>, SerialError>(SerialError::PacketStructure),
            self.buf@.len() <= 255 ==> (r matches Ok(v) && v@ == seal(lora_tx_body(*self))),
    {
        if self.buf.len() > 255 {
            return Err(SerialError::PacketStructure);
        }
        let mut v = start_body(&self.header);
        v.push(self.tx_pwr);
        assert(v@ =~= header_bytes(self.header) + seq![self.tx_pwr]);
        push_le(&mut v, self.timeout_ms as u64, 4);
        push_le(&mut v, self.preamble_cnt as u64, 4);
        let ghost h = v@;
        v.push(if self.header_en { 1 } else { 0 });
        v.push(if self.crc_en { 1 } else { 0 });
        v.push(if self.invert_iq { 1 } else { 0 });
        v.push(self.buf.len() as u8);
        assert(v@ =~= h + seq![flag_byte(self.header_en), flag_byte(self.crc_en),
            flag_byte(self.invert_iq), self.buf@.len() as u8]);
        push_all(&mut v, &self.buf);
        seal_in_place(&mut v);
        Ok(v)
    }
}

impl LoraRx {
    /// The wire bytes of this packet; its checksum is computed afresh. A
    /// payload longer than its one-byte length field can count is refused.
    pub fn encode(&self) -> (r: Result<Vec<u8>, SerialError>)
        ensures
            self.buf@.len() > 255 ==> r == Err::<Vec<u8>, SerialError>(SerialError::PacketStructure),
            self.buf@.len() <= 255 ==> (r matches Ok(v) && v@ == seal(lora_rx_body(*self))),
    {
        if self.buf.len() > 255 {
            return Err(SerialError::PacketStructure);
        }
        let mut v = start_body(&self.header);
        let ghost h = v@;
        v.push(self.pkt_rssi);
        v.push(self.sig_rssi);
        v.push(self.snr);
        v.push(self.buf.len() as u8);
        assert(v@ =~= h + seq![self.pkt_rssi, self.sig_rssi, self.snr, self.buf@.len() as u8]);
        push_all(&mut v, &self.buf);
        seal_in_place(&mut v);
        Ok(v)
    }
}

} // verus!
