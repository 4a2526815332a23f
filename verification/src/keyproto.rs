//! Length-prefixed key-daemon frames: `u32be n | u8 kind | payload`
//! for requests, `u32be n | payload` for replies.
use vstd::prelude::*;

verus! {

/// `kind` of a sign request.
pub const KIND_SIGN: u8 = 1;
/// Largest `n` (bytes after the length) accepted.
pub const MAX_FRAME: usize = 65536;

/// The big-endian bytes of a `u32`.
pub open spec fn be32(n: u32) -> Seq<u8> {
    seq![(n >> 24u32) as u8, (n >> 16u32) as u8, (n >> 8u32) as u8, n as u8]
}

/// The `u32` of four big-endian bytes.
pub open spec fn from_be32(b0: u8, b1: u8, b2: u8, b3: u8) -> u32 {
    ((b0 as u32) << 24u32) | ((b1 as u32) << 16u32) | ((b2 as u32) << 8u32) | (b3 as u32)
}

proof fn lemma_be32_roundtrip(n: u32)
    ensures
        from_be32(be32(n)[0], be32(n)[1], be32(n)[2], be32(n)[3]) == n,
{
    let b0 = (n >> 24u32) as u8;
    let b1 = (n >> 16u32) as u8;
    let b2 = (n >> 8u32) as u8;
    let b3 = n as u8;
    assert(((b0 as u32) << 24u32) | ((b1 as u32) << 16u32) | ((b2 as u32) << 8u32) | (b3 as u32) == n) by (bit_vector)
        requires
            b0 == (n >> 24u32) as u8,
            b1 == (n >> 16u32) as u8,
            b2 == (n >> 8u32) as u8,
            b3 == n as u8,
    ;
}

fn push_be32(out: &mut Vec<u8>, n: u32)
    ensures
        final(out)@ == old(out)@ + be32(n),
{
    out.push((n >> 24) as u8);
    out.push((n >> 16) as u8);
    out.push((n >> 8) as u8);
    out.push(n as u8);
    assert(final(out)@ =~= old(out)@ + be32(n));
}

fn push_all(out: &mut Vec<u8>, data: &[u8])
    ensures
        final(out)@ == old(out)@ + data@,
{
    let mut i: usize = 0;
    while i < data.len()
        invariant
            i <= data.len(),
            out@ == old(out)@ + data@.take(i as int),
        decreases data.len() - i,
    {
        out.push(data[i]);
        assert(data@.take(i + 1) =~= data@.take(i as int).push(data@[i as int]));
        i = i + 1;
    }
    assert(data@.take(data.len() as int) =~= data@);
}

/// The length field of a request: `1 + payload length`, the length taken
/// as a `u32` and the sum saturating.
pub open spec fn req_len(payload_len: nat) -> u32 {
    (1u32).saturating_add(payload_len as u32)
}

/// `u32be n | u8 kind | payload`.
pub open spec fn req_frame(kind: u8, payload: Seq<u8>) -> Seq<u8> {
    be32(req_len(payload.len())) + seq![kind] + payload
}

/// `u32be n | payload`, the length taken as a `u32`.
pub open spec fn rep_frame(payload: Seq<u8>) -> Seq<u8> {
    be32(payload.len() as u32) + payload
}

pub fn encode_req(kind: u8, payload: &[u8]) -> (r: Vec<u8>)
    ensures
        r@ == req_frame(kind, payload@),
{
    let n = 1u32.saturating_add(payload.len() as u32);
    let mut out: Vec<u8> = Vec::new();
    push_be32(&mut out, n);
    out.push(kind);
    push_all(&mut out, payload);
    assert(out@ =~= req_frame(kind, payload@));
    out
}

pub fn encode_rep(payload: &[u8]) -> (r: Vec<u8>)
    ensures
        r@ == rep_frame(payload@),
{
    let n = payload.len() as u32;
    let mut out: Vec<u8> = Vec::new();
    push_be32(&mut out, n);
    push_all(&mut out, payload);
    out
}

/// The length field of a frame: `None` when fewer than 4 bytes, `n`
/// over `MAX_FRAME`, or fewer than `n` bytes after it.
pub open spec fn frame_len_spec(buf: Seq<u8>) -> Option<int> {
    if buf.len() < 4 {
        None
    } else {
        let n = from_be32(buf[0], buf[1], buf[2], buf[3]) as int;
        if n > MAX_FRAME || buf.len() < 4 + n {
            None
        } else {
            Some(n)
        }
    }
}

fn frame_len(buf: &[u8]) -> (r: Option<usize>)
    ensures
        match frame_len_spec(buf@) {
            Some(n) => r == Some(n as usize) && n <= MAX_FRAME && 4 + n <= buf.len(),
            None => r is None,
        },
{
    if buf.len() < 4 {
        return None;
    }
    let n = (((buf[0] as u32) << 24) | ((buf[1] as u32) << 16) | ((buf[2] as u32) << 8) | (buf[3] as u32)) as usize;
    if n > MAX_FRAME {
        return None;
    }
    let total = 4 + n;
    if buf.len() < total {
        return None;
    }
    Some(n)
}

/// A request frame: its kind and payload; `None` when truncated, empty
/// (`n == 0`) or over `MAX_FRAME`.
pub open spec fn decode_req_spec(buf: Seq<u8>) -> Option<(u8, Seq<u8>)> {
    match frame_len_spec(buf) {
        None => None,
        Some(n) => if n == 0 {
            None
        } else {
            Some((buf[4], buf.subrange(5, 4 + n)))
        },
    }
}

/// A reply frame's payload; `None` when truncated or over `MAX_FRAME`.
pub open spec fn decode_rep_spec(buf: Seq<u8>) -> Option<Seq<u8>> {
    match frame_len_spec(buf) {
        None => None,
        Some(n) => Some(buf.subrange(4, 4 + n)),
    }
}

pub fn decode_req(buf: &[u8]) -> (r: Option<(u8, &[u8])>)
    ensures
        match decode_req_spec(buf@) {
            None => r is None,
            Some((k, p)) => r matches Some((rk, rp)) && rk == k && rp@ == p,
        },
{
    let n = match frame_len(buf) {
        None => {
            return None;
        },
        Some(n) => n,
    };
    if n == 0 {
        return None;
    }
    let total = 4 + n;
    Some((buf[4], vstd::slice::slice_subrange(buf, 5, total)))
}

pub fn decode_rep(buf: &[u8]) -> (r: Option<&[u8]>)
    ensures
        match decode_rep_spec(buf@) {
            None => r is None,
            Some(p) => r matches Some(rp) && rp@ == p,
        },
{
    let n = match frame_len(buf) {
        None => {
            return None;
        },
        Some(n) => n,
    };
    Some(vstd::slice::slice_subrange(buf, 4, 4 + n))
}

/// Law: a request frame decodes to the kind and payload it was made of,
/// for every payload that fits a frame (`1 + len <= MAX_FRAME`).
pub proof fn law_request_roundtrip(kind: u8, payload: Seq<u8>)
    requires
        payload.len() + 1 <= MAX_FRAME,
    ensures
        decode_req_spec(req_frame(kind, payload)) == Some((kind, payload)),
{
    let f = req_frame(kind, payload);
    let n = req_len(payload.len());
    assert(n == payload.len() + 1);
    lemma_be32_roundtrip(n);
    assert(f[0] == be32(n)[0] && f[1] == be32(n)[1] && f[2] == be32(n)[2] && f[3] == be32(n)[3]);
    assert(f[4] == kind);
    assert(f.subrange(5, 4 + n) =~= payload);
}

/// Law: a reply frame decodes to the payload it was made of, for every
/// payload of at most `MAX_FRAME` bytes.
pub proof fn law_reply_roundtrip(payload: Seq<u8>)
    requires
        payload.len() <= MAX_FRAME,
    ensures
        decode_rep_spec(rep_frame(payload)) == Some(payload),
{
    let f = rep_frame(payload);
    let n = payload.len() as u32;
    lemma_be32_roundtrip(n);
    assert(f[0] == be32(n)[0] && f[1] == be32(n)[1] && f[2] == be32(n)[2] && f[3] == be32(n)[3]);
    assert(f.subrange(4, 4 + n) =~= payload);
}

/// A reply whose payload is over `MAX_FRAME` bytes (and whose length
/// fits the `u32` field) does not decode back, and neither does anything
/// shorter than the length field.
pub proof fn law_reply_refusals(payload: Seq<u8>, buf: Seq<u8>)
    requires
        MAX_FRAME < payload.len() <= u32::MAX,
    ensures
        decode_rep_spec(rep_frame(payload)) is None,
        buf.len() < 4 ==> decode_rep_spec(buf) is None,
{
    let f = rep_frame(payload);
    let n = payload.len() as u32;
    lemma_be32_roundtrip(n);
    assert(f[0] == be32(n)[0] && f[1] == be32(n)[1] && f[2] == be32(n)[2] && f[3] == be32(n)[3]);
}

} // verus!
