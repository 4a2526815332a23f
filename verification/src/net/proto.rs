//! Header rules when a response crosses protocols.
use vstd::prelude::*;
use vstd::string::StringSliceAdditionalSpecFns;
use crate::bytes::{eq_ic, eq_ignore_case};
use crate::error::ServeError;
use crate::net::h1::{looks_json, BodyKind};
use crate::net::parse::{json_scan, looks_like_json, scan_json, JsonScan};

verus! {

/// A hop-by-hop header (never forwarded over HTTP/2 or HTTP/3).
pub open spec fn hop_by_hop_name(k: Seq<u8>) -> bool {
    ||| eq_ic(k, "connection".spec_bytes())
    ||| eq_ic(k, "keep-alive".spec_bytes())
    ||| eq_ic(k, "proxy-connection".spec_bytes())
    ||| eq_ic(k, "transfer-encoding".spec_bytes())
    ||| eq_ic(k, "upgrade".spec_bytes())
}

pub fn hop_by_hop(k: &str) -> (r: bool)
    ensures
        r == hop_by_hop_name(k.spec_bytes()),
{
    let b = k.as_bytes();
    eq_ignore_case(b, "connection".as_bytes()) || eq_ignore_case(b, "keep-alive".as_bytes()) || eq_ignore_case(
        b,
        "proxy-connection".as_bytes(),
    ) || eq_ignore_case(b, "transfer-encoding".as_bytes()) || eq_ignore_case(b, "upgrade".as_bytes())
}

/// The bytes a request head takes before compression: the method, the
/// path, and each header's name and value with four bytes of framing.
pub open spec fn head_size(method_len: int, path_len: int, pairs: Seq<(usize, usize)>) -> int
    decreases pairs.len(),
{
    if pairs.len() == 0 {
        method_len + path_len
    } else {
        head_size(method_len, path_len, pairs.drop_last()) + pairs.last().0 + pairs.last().1 + 4
    }
}

/// The raw head size of an HTTP/2 request, from the lengths of its
/// method, path and header names and values.
pub fn raw_header_bytes(method_len: usize, path_len: usize, pairs: &[(usize, usize)]) -> (r: u64)
    requires
        head_size(method_len as int, path_len as int, pairs@) <= usize::MAX,
    ensures
        r == head_size(method_len as int, path_len as int, pairs@),
{
    proof {
        lemma_head_size_mono(method_len as int, path_len as int, pairs@, 0);
        assert(pairs@.take(0) =~= Seq::<(usize, usize)>::empty());
        assert(head_size(method_len as int, path_len as int, pairs@.take(0)) == method_len + path_len);
    }
    let mut n: usize = method_len + path_len;
    let mut i: usize = 0;
    while i < pairs.len()
        invariant
            i <= pairs.len(),
            n == head_size(method_len as int, path_len as int, pairs@.take(i as int)),
            head_size(method_len as int, path_len as int, pairs@) <= usize::MAX,
            forall|k: int| 0 <= k <= pairs.len() ==> head_size(method_len as int, path_len as int, #[trigger] pairs@.take(k))
                <= head_size(method_len as int, path_len as int, pairs@),
        decreases pairs.len() - i,
    {
        assert(pairs@.take(i + 1).drop_last() =~= pairs@.take(i as int));
        assert(head_size(method_len as int, path_len as int, pairs@.take(i + 1)) <= usize::MAX);
        n = n + pairs[i].0 + pairs[i].1 + 4;
        i = i + 1;
    }
    assert(pairs@.take(pairs.len() as int) =~= pairs@);
    n as u64
}

proof fn lemma_head_size_mono(m: int, p: int, pairs: Seq<(usize, usize)>, k: int)
    requires
        0 <= k <= pairs.len(),
    ensures
        forall|j: int| k <= j <= pairs.len() ==> head_size(m, p, #[trigger] pairs.take(j)) <= head_size(m, p, pairs),
    decreases pairs.len() - k,
{
    if k < pairs.len() {
        lemma_head_size_mono(m, p, pairs, k + 1);
        let t = pairs.take(k + 1);
        assert(t.drop_last() =~= pairs.take(k));
    } else {
        assert(pairs.take(k) =~= pairs);
    }
}

/// The request body fed so far after one more chunk of a streamed
/// request: refused once it passes `max_body` bytes.
pub fn feed_chunk(fed: usize, chunk_len: usize, max_body: usize) -> (r: Result<usize, ServeError>)
    ensures
        fed + chunk_len <= max_body ==> r == Ok::<usize, ServeError>((fed + chunk_len) as usize),
        fed + chunk_len > max_body ==> r matches Err(ServeError::BodyTooLarge),
{
    if chunk_len > max_body || fed > max_body - chunk_len {
        Err(ServeError::BodyTooLarge)
    } else {
        Ok(fed + chunk_len)
    }
}

/// The checks a whole HTTP/2 or HTTP/3 request meets before dispatch.
#[derive(Debug)]
pub enum PartsGate {
    /// The scheduler refused it: 429.
    Busy,
    /// The body is over the limit: 413.
    TooLarge,
    /// The body looks like JSON and does not scan.
    BadJson(ServeError),
    /// Dispatched, with its body handed over as this kind.
    Pass(BodyKind),
}

/// The body kind a module sees: empty, JSON (starts with `{` or `[`
/// after white space), or raw bytes.
pub open spec fn body_kind(body: Seq<u8>) -> BodyKind {
    if body.len() == 0 {
        BodyKind::Empty
    } else if looks_json(body) {
        BodyKind::Json
    } else {
        BodyKind::Raw
    }
}

/// Admission first, then the body limit, then a JSON body's scan.
pub fn gate_parts(admitted: bool, body: &[u8], max_body: usize, max_depth: u32) -> (r: PartsGate)
    ensures
        !admitted ==> r is Busy,
        admitted && body@.len() > max_body ==> r is TooLarge,
        admitted && body@.len() <= max_body && looks_json(body@) ==> match json_scan(body@, max_depth) {
            JsonScan::Good => r == PartsGate::Pass(BodyKind::Json),
            JsonScan::Invalid => r matches PartsGate::BadJson(ServeError::JsonInvalid),
            JsonScan::TooDeep => r matches PartsGate::BadJson(ServeError::JsonDepth),
        },
        admitted && body@.len() <= max_body && !looks_json(body@) ==> r == PartsGate::Pass(body_kind(body@)),
{
    if !admitted {
        return PartsGate::Busy;
    }
    if body.len() > max_body {
        return PartsGate::TooLarge;
    }
    let json = looks_like_json(body);
    if json {
        match scan_json(body, max_depth) {
            Err(e) => return PartsGate::BadJson(e),
            Ok(()) => {},
        }
    }
    let kind = if body.len() == 0 {
        BodyKind::Empty
    } else if json {
        BodyKind::Json
    } else {
        BodyKind::Raw
    };
    PartsGate::Pass(kind)
}

/// The headers of a response that cross to HTTP/2 or HTTP/3: all but the
/// hop-by-hop ones, in order.
pub open spec fn forwarded(hs: Seq<(String, String)>) -> Seq<(Seq<char>, Seq<char>)>
    decreases hs.len(),
{
    if hs.len() == 0 {
        Seq::empty()
    } else {
        let rest = forwarded(hs.drop_last());
        if hop_by_hop_name(vstd::utf8::encode_utf8(hs.last().0@)) {
            rest
        } else {
            rest.push((hs.last().0@, hs.last().1@))
        }
    }
}

pub fn forwarded_headers(hs: &Vec<(String, String)>) -> (r: Vec<(String, String)>)
    ensures
        r@.map_values(|p: (String, String)| (p.0@, p.1@)) == forwarded(hs@),
{
    let mut out: Vec<(String, String)> = Vec::new();
    let mut i: usize = 0;
    while i < hs.len()
        invariant
            i <= hs@.len(),
            out@.map_values(|p: (String, String)| (p.0@, p.1@)) == forwarded(hs@.take(i as int)),
        decreases hs@.len() - i,
    {
        let ghost before = out@;
        assert(hs@.take(i + 1).drop_last() =~= hs@.take(i as int));
        let (k, v) = &hs[i];
        if !hop_by_hop(k.as_str()) {
            out.push((k.clone(), v.clone()));
            assert(out@.map_values(|p: (String, String)| (p.0@, p.1@)) =~= before.map_values(
                |p: (String, String)| (p.0@, p.1@),
            ).push((k@, v@)));
        }
        i = i + 1;
    }
    assert(hs@.take(hs@.len() as int) =~= hs@);
    out
}

} // verus!
