use vstd::prelude::*;
use bytes::BytesMut;
use crate::buffer::{bytes_view, buf_advance, buf_byte, buf_len, buf_put_u8, buf_split_to};
use crate::error::SerialError;

verus! {

/// Opens a frame.
pub const SSLIP_START: u8 = 0xa5;
/// Closes a frame.
pub const SSLIP_END: u8 = 0xc0;
/// Announces that the next byte is an escape code.
pub const SSLIP_ESC: u8 = 0xdb;
/// Escape code that stands for `SSLIP_END`.
pub const SSLIP_ESC_END: u8 = 0xdc;
/// Escape code that stands for `SSLIP_ESC`.
pub const SSLIP_ESC_ESC: u8 = 0xdd;
/// Escape code that stands for `SSLIP_START`.
pub const SSLIP_ESC_START: u8 = 0xde;

/// Frames byte strings on the way out and finds and unescapes frames in a
/// byte stream on the way in. All stream state lives in the caller's buffer.
pub struct StatefulSlipCodec;

/// Bytes that may not appear literally inside a frame body.
pub open spec fn is_marker(b: u8) -> bool {
    b == SSLIP_START || b == SSLIP_END || b == SSLIP_ESC
}

/// Bytes that may follow `SSLIP_ESC`.
pub open spec fn is_escape_code(b: u8) -> bool {
    b == SSLIP_ESC_END || b == SSLIP_ESC_ESC || b == SSLIP_ESC_START
}

/// The literal byte that an escape code stands for.
pub open spec fn unescaped_of(code: u8) -> u8 {
    if code == SSLIP_ESC_ESC {
        SSLIP_ESC
    } else if code == SSLIP_ESC_END {
        SSLIP_END
    } else {
        SSLIP_START
    }
}

/// How one payload byte is written inside a frame.
pub open spec fn escaped_byte(b: u8) -> Seq<u8> {
    if b == SSLIP_ESC {
        seq![SSLIP_ESC, SSLIP_ESC_ESC]
    } else if b == SSLIP_START {
        seq![SSLIP_ESC, SSLIP_ESC_START]
    } else if b == SSLIP_END {
        seq![SSLIP_ESC, SSLIP_ESC_END]
    } else {
        seq![b]
    }
}

/// A payload with every marker byte escaped.
pub open spec fn escape(s: Seq<u8>) -> Seq<u8>
    decreases s.len(),
{
    if s.len() == 0 {
        seq![]
    } else {
        escaped_byte(s[0]) + escape(s.drop_first())
    }
}

/// The wire form of a payload: start marker, escaped body, end marker.
pub open spec fn frame_of(p: Seq<u8>) -> Seq<u8> {
    seq![SSLIP_START] + escape(p) + seq![SSLIP_END]
}

/// Puts `p` in front of a successful result; an error stays as it is.
pub open spec fn prepend(p: Seq<u8>, r: Result<Seq<u8>, u8>) -> Result<Seq<u8>, u8> {
    match r {
        Ok(t) => Ok(p + t),
        Err(e) => Err(e),
    }
}

/// Undoes escaping over a raw frame. Literal marker bytes are never emitted;
/// an escape byte followed by anything but an escape code is an error that
/// carries the offending byte.
pub open spec fn unescape(s: Seq<u8>) -> Result<Seq<u8>, u8>
    decreases s.len(),
{
    if s.len() == 0 {
        Ok(seq![])
    } else if s[0] == SSLIP_ESC {
        if s.len() < 2 {
            Ok(seq![])
        } else if is_escape_code(s[1]) {
            prepend(seq![unescaped_of(s[1])], unescape(s.subrange(2, s.len() as int)))
        } else {
            Err(s[1])
        }
    } else if s[0] == SSLIP_START || s[0] == SSLIP_END {
        unescape(s.drop_first())
    } else {
        prepend(seq![s[0]], unescape(s.drop_first()))
    }
}

/// The first index at or after `i` that holds `m`, or the length if none does.
pub open spec fn pos_from(s: Seq<u8>, m: u8, i: int) -> int
    decreases s.len() - i,
{
    if i >= s.len() {
        s.len() as int
    } else if s[i] == m {
        i
    } else {
        pos_from(s, m, i + 1)
    }
}

/// The first index that holds `m`, or the length if none does.
pub open spec fn marker_pos(s: Seq<u8>, m: u8) -> int {
    pos_from(s, m, 0)
}

/// One decode step over buffered bytes `s`: the outcome (no frame yet, a
/// frame, or the byte that broke an escape) and the bytes left buffered.
pub open spec fn decode_step(s: Seq<u8>) -> (Result<Option<Seq<u8>>, u8>, Seq<u8>) {
    if s.len() < 2 {
        (Ok(None), s)
    } else {
        let k = marker_pos(s, SSLIP_START);
        if k == s.len() {
            (Ok(None), s)
        } else {
            let t = s.subrange(k, s.len() as int);
            let e = marker_pos(t, SSLIP_END);
            if e == t.len() {
                (Ok(None), t)
            } else {
                let rest = t.subrange(e + 1, t.len() as int);
                match unescape(t.subrange(0, e + 1)) {
                    Ok(f) => (Ok(Some(f)), rest),
                    Err(b) => (Err(b), rest),
                }
            }
        }
    }
}

/// Whether an executable decode result is the spec outcome `o`.
pub open spec fn is_outcome(r: Result<Option<Vec<u8>>, SerialError>, o: Result<Option<Seq<u8>>, u8>) -> bool {
    match o {
        Ok(Some(f)) => r matches Ok(Some(v)) && v@ == f,
        Ok(None) => r matches Ok(None),
        Err(b) => r == Err::<Option<Vec<u8>>, SerialError>(SerialError::Framing(b)),
    }
}

proof fn lemma_prepend_push(p: Seq<u8>, x: u8, r: Result<Seq<u8>, u8>)
    ensures
        prepend(p, prepend(seq![x], r)) == prepend(p.push(x), r),
{
    if let Ok(t) = r {
        assert(p + (seq![x] + t) =~= p.push(x) + t);
    }
}

/// Escaping a payload one byte longer appends that byte's escaped form.
pub proof fn lemma_escape_push(s: Seq<u8>, x: u8)
    ensures
        escape(s.push(x)) == escape(s) + escaped_byte(x),
    decreases s.len(),
{
    if s.len() == 0 {
        assert(s.push(x).drop_first() =~= Seq::<u8>::empty());
        assert(escape(Seq::<u8>::empty()) =~= Seq::<u8>::empty());
        assert(escape(s.push(x)) =~= escaped_byte(x) + escape(Seq::<u8>::empty()));
        assert(escape(s.push(x)) =~= escaped_byte(x));
        assert(escape(s) =~= Seq::<u8>::empty());
    } else {
        assert(s.push(x).drop_first() =~= s.drop_first().push(x));
        lemma_escape_push(s.drop_first(), x);
        assert(escape(s.push(x)) =~= escape(s) + escaped_byte(x));
    }
}

impl StatefulSlipCodec {
    /// Looks for one complete frame in `src`. Bytes before the first start
    /// marker are dropped; a complete frame is removed from `src` whether or not
    /// its escapes are valid; an incomplete one stays buffered.
    pub fn decode(&mut self, src: &mut BytesMut) -> (r: Result<Option<Vec<u8>>, SerialError>)
        ensures
            bytes_view(*final(src)) == decode_step(bytes_view(*old(src))).1,
            is_outcome(r, decode_step(bytes_view(*old(src))).0),
    {
        let ghost s = bytes_view(*src);
        let n = buf_len(src);
        if n < 2 {
            return Ok(None);
        }
        let mut k: usize = 0;
        while k < n && buf_byte(src, k) != SSLIP_START
            invariant
                bytes_view(*src) == s,
                n == s.len(),
                k <= n,
                pos_from(s, SSLIP_START, k as int) == marker_pos(s, SSLIP_START),
            decreases n - k,
        {
            k += 1;
        }
        if k == n {
            return Ok(None);
        }
        buf_advance(src, k);
        let ghost t = bytes_view(*src);
        let m = n - k;
        let mut e: usize = 0;
        while e < m && buf_byte(src, e) != SSLIP_END
            invariant
                bytes_view(*src) == t,
                m == t.len(),
                e <= m,
                pos_from(t, SSLIP_END, e as int) == marker_pos(t, SSLIP_END),
            decreases m - e,
        {
            e += 1;
        }
        if e == m {
            return Ok(None);
        }
        let pkt = buf_split_to(src, e + 1);
        let ghost raw = bytes_view(pkt);
        let len = e + 1;
        let mut out: Vec<u8> = Vec::new();
        let mut i: usize = 0;
        proof {
            assert(raw.subrange(0, len as int) =~= raw);
            if let Ok(f) = unescape(raw) {
                assert(Seq::<u8>::empty() + f =~= f);
            }
        }
        while i < len
            invariant
                bytes_view(pkt) == raw,
                len == raw.len(),
                s == bytes_view(*old(src)),
                bytes_view(*src) == decode_step(s).1,
                decode_step(s).0 == (match unescape(raw) {
                    Ok(f) => Ok(Some(f)),
                    Err(b) => Err(b),
                }),
                i <= len,
                unescape(raw) == prepend(out@, unescape(raw.subrange(i as int, len as int))),
            decreases len - i,
        {
            let ghost u = raw.subrange(i as int, len as int);
            let b = buf_byte(&pkt, i);
            if b == SSLIP_ESC {
                if i + 1 < len {
                    let c = buf_byte(&pkt, i + 1);
                    assert(u.subrange(2, u.len() as int) =~= raw.subrange(i + 2, len as int));
                    proof {
                        lemma_prepend_push(out@, unescaped_of(c), unescape(raw.subrange(i + 2, len as int)));
                    }
                    if c == SSLIP_ESC_ESC {
                        out.push(SSLIP_ESC);
                    } else if c == SSLIP_ESC_END {
                        out.push(SSLIP_END);
                    } else if c == SSLIP_ESC_START {
                        out.push(SSLIP_START);
                    } else {
                        assert(unescape(u) == Err::<Seq<u8>, u8>(c));
                        assert(unescape(raw) == Err::<Seq<u8>, u8>(c));
                        return Err(SerialError::Framing(c));
                    }
                    i += 2;
                } else {
                    assert(out@ + seq![] =~= out@);
                    i = len;
                }
            } else {
                assert(u.drop_first() =~= raw.subrange(i + 1, len as int));
                if b != SSLIP_START && b != SSLIP_END {
                    proof {
                        lemma_prepend_push(out@, b, unescape(raw.subrange(i + 1, len as int)));
                    }
                    out.push(b);
                }
                i += 1;
            }
        }
        assert(out@ + seq![] =~= out@);
        Ok(Some(out))
    }

    /// Appends the frame of `item` to `dst`.
    pub fn encode(&mut self, item: &[u8], dst: &mut BytesMut)
        ensures
            bytes_view(*final(dst)) == bytes_view(*old(dst)) + frame_of(item@),
    {
        let ghost d0 = bytes_view(*dst);
        buf_put_u8(dst, SSLIP_START);
        let mut i: usize = 0;
        while i < item.len()
            invariant
                i <= item@.len(),
                bytes_view(*dst) == d0 + seq![SSLIP_START] + escape(item@.subrange(0, i as int)),
            decreases item@.len() - i,
        {
            let b = item[i];
            proof {
                assert(item@.subrange(0, i + 1) =~= item@.subrange(0, i as int).push(b));
                lemma_escape_push(item@.subrange(0, i as int), b);
            }
            if b == SSLIP_ESC {
                buf_put_u8(dst, SSLIP_ESC);
                buf_put_u8(dst, SSLIP_ESC_ESC);
            } else if b == SSLIP_START {
                buf_put_u8(dst, SSLIP_ESC);
                buf_put_u8(dst, SSLIP_ESC_START);
            } else if b == SSLIP_END {
                buf_put_u8(dst, SSLIP_ESC);
                buf_put_u8(dst, SSLIP_ESC_END);
            } else {
                buf_put_u8(dst, b);
            }
            assert(bytes_view(*dst) =~= d0 + seq![SSLIP_START] + escape(item@.subrange(0, i + 1)));
            i += 1;
        }
        assert(item@.subrange(0, item@.len() as int) =~= item@);
        buf_put_u8(dst, SSLIP_END);
        assert(bytes_view(*dst) =~= d0 + frame_of(item@));
    }
}

} // verus!
