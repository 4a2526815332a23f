//! One HTTP/1.1 response as one buffer, and chunked body parts.
use vstd::prelude::*;
use vstd::string::StringSliceAdditionalSpecFns;
use vstd::utf8::encode_utf8;
use crate::io::{Out, OutBody, body_bytes, body_len};
use crate::num::{dec_bytes, hex_bytes, push_dec, push_hex, push_bytes};
use crate::status::status_phrase;
use crate::num::hex_digit_byte;
use crate::net::parse::{
    chunked_from, chunked_spec, dechunk_from, crlf_at, crlf_from, parse_hex, hex_value, hex_digit, all_hex, unsigned_hex, sat_usize,
};

verus! {

/// The header lines of a response, in order: `name: value\r\n` each.
pub open spec fn header_lines(hs: Seq<(String, String)>) -> Seq<u8>
    decreases hs.len(),
{
    if hs.len() == 0 {
        Seq::empty()
    } else {
        header_lines(hs.drop_last()) + encode_utf8(hs.last().0@) + ": ".spec_bytes() + encode_utf8(hs.last().1@)
            + "\r\n".spec_bytes()
    }
}

/// The reason phrase: the override when there is one, else the status's own.
pub open spec fn reason_bytes(out: Out) -> Seq<u8> {
    match out.reason {
        Some(r) => encode_utf8(r@),
        None => encode_utf8(status_phrase(out.status@)),
    }
}

/// The fixed headers of every response.
pub open spec fn fixed_headers() -> Seq<u8> {
    "Connection: keep-alive\r\nX-Content-Type-Options: nosniff\r\nX-Frame-Options: DENY\r\nReferrer-Policy: no-referrer\r\n".spec_bytes()
}

/// A response: status line; `Transfer-Encoding: chunked` for a stream,
/// else `Content-Length`; the fixed headers; the module's headers; the
/// blank line; and the body bytes unless a HEAD answer or a stream.
pub open spec fn response_bytes(out: Out, head: bool) -> Seq<u8> {
    let stream = out.body is Stream;
    let status_line = "HTTP/1.1 ".spec_bytes() + dec_bytes(out.status@ as nat) + " ".spec_bytes() + reason_bytes(out)
        + "\r\n".spec_bytes();
    let framing = if stream {
        "Transfer-Encoding: chunked\r\n".spec_bytes()
    } else {
        "Content-Length: ".spec_bytes() + dec_bytes(body_len(out.body) as nat) + "\r\n".spec_bytes()
    };
    let body = if !head && !stream {
        body_bytes(out.body)
    } else {
        Seq::empty()
    };
    status_line + framing + fixed_headers() + header_lines(out.headers@) + "\r\n".spec_bytes() + body
}

fn encode(out: &Out, dst: &mut Vec<u8>, head: bool)
    ensures
        final(dst)@ == response_bytes(*out, head),
{
    dst.clear();
    push_bytes(dst, "HTTP/1.1 ".as_bytes());
    push_dec(dst, out.status.as_u16() as u64);
    push_bytes(dst, " ".as_bytes());
    match &out.reason {
        Some(r) => push_bytes(dst, r.as_str().as_bytes()),
        None => push_bytes(dst, out.status.phrase().as_bytes()),
    }
    push_bytes(dst, "\r\n".as_bytes());
    let stream = match out.body {
        OutBody::Stream => true,
        _ => false,
    };
    if stream {
        push_bytes(dst, "Transfer-Encoding: chunked\r\n".as_bytes());
    } else {
        push_bytes(dst, "Content-Length: ".as_bytes());
        push_dec(dst, out.body.len() as u64);
        push_bytes(dst, "\r\n".as_bytes());
    }
    push_bytes(
        dst,
        "Connection: keep-alive\r\nX-Content-Type-Options: nosniff\r\nX-Frame-Options: DENY\r\nReferrer-Policy: no-referrer\r\n".as_bytes(),
    );
    let ghost pre = dst@;
    let mut i: usize = 0;
    while i < out.headers.len()
        invariant
            i <= out.headers.len(),
            dst@ == pre + header_lines(out.headers@.take(i as int)),
        decreases out.headers.len() - i,
    {
        let (k, v) = &out.headers[i];
        push_bytes(dst, k.as_str().as_bytes());
        push_bytes(dst, ": ".as_bytes());
        push_bytes(dst, v.as_str().as_bytes());
        push_bytes(dst, "\r\n".as_bytes());
        assert(out.headers@.take(i + 1).drop_last() =~= out.headers@.take(i as int));
        assert(dst@ =~= pre + header_lines(out.headers@.take(i + 1)));
        i = i + 1;
    }
    assert(out.headers@.take(out.headers.len() as int) =~= out.headers@);
    push_bytes(dst, "\r\n".as_bytes());
    if !head && !stream {
        push_bytes(dst, out.body.as_bytes());
    }
    assert(dst@ =~= response_bytes(*out, head));
}

/// Encode a response for a GET-like request.
pub fn encode_response(out: &Out, dst: &mut Vec<u8>)
    ensures
        final(dst)@ == response_bytes(*out, false),
{
    encode(out, dst, false);
}

/// Encode the answer to a HEAD request: the same headers and
/// Content-Length, no body bytes.
pub fn encode_head(out: &Out, dst: &mut Vec<u8>)
    ensures
        final(dst)@ == response_bytes(*out, true),
{
    encode(out, dst, true);
}

pub fn is_chunked(out: &Out) -> (r: bool)
    ensures
        r == out.body is Stream,
{
    match out.body {
        OutBody::Stream => true,
        _ => false,
    }
}

/// One chunk: `size\r\ndata\r\n`, the size in lower-case hex.
pub open spec fn chunk_bytes(data: Seq<u8>) -> Seq<u8> {
    hex_bytes(data.len()) + "\r\n".spec_bytes() + data + "\r\n".spec_bytes()
}

pub fn append_chunk(dst: &mut Vec<u8>, data: &[u8])
    ensures
        final(dst)@ == old(dst)@ + chunk_bytes(data@),
{
    push_hex(dst, data.len());
    push_bytes(dst, "\r\n".as_bytes());
    push_bytes(dst, data);
    push_bytes(dst, "\r\n".as_bytes());
    assert(final(dst)@ =~= old(dst)@ + chunk_bytes(data@));
}

/// The last chunk and the end of a chunked body.
pub fn append_chunk_end(dst: &mut Vec<u8>)
    ensures
        final(dst)@ == old(dst)@ + "0\r\n\r\n".spec_bytes(),
{
    push_bytes(dst, "0\r\n\r\n".as_bytes());
}

/// Chunks one after another, as `append_chunk` writes them.
pub open spec fn chunks_bytes(cs: Seq<Seq<u8>>) -> Seq<u8>
    decreases cs.len(),
{
    if cs.len() == 0 {
        Seq::empty()
    } else {
        chunk_bytes(cs[0]) + chunks_bytes(cs.drop_first())
    }
}

/// The bytes the chunks carry, all told.
pub open spec fn chunks_total(cs: Seq<Seq<u8>>) -> int
    decreases cs.len(),
{
    if cs.len() == 0 {
        0
    } else {
        cs[0].len() + chunks_total(cs.drop_first())
    }
}

pub open spec fn chunk_end() -> Seq<u8> {
    seq![48u8, 13u8, 10u8, 13u8, 10u8]
}

proof fn lemma_hex_bytes(n: nat)
    ensures
        hex_bytes(n).len() >= 1,
        forall|k: int| 0 <= k < hex_bytes(n).len() ==> #[trigger] hex_bytes(n)[k] != 13u8 && hex_bytes(n)[k] != 43u8,
        all_hex(hex_bytes(n)),
        hex_value(hex_bytes(n)) == n,
    decreases n,
{
    if n < 16 {
        let h = hex_bytes(n);
        assert(h.drop_last() =~= Seq::<u8>::empty());
        assert(hex_digit(hex_digit_byte(n)) == Some(n as int));
        assert(hex_value(h.drop_last()) == 0);
        assert(h.last() == hex_digit_byte(n));
    } else {
        lemma_hex_bytes(n / 16);
        let h = hex_bytes(n);
        let p = hex_bytes(n / 16);
        assert(h.drop_last() =~= p);
        assert(hex_digit(hex_digit_byte(n % 16)) == Some((n % 16) as int));
        assert forall|k: int| 0 <= k < h.len() implies #[trigger] h[k] != 13u8 && h[k] != 43u8 by {
            if k < p.len() {
                assert(h[k] == p[k]);
            }
        }
        assert forall|k: int| 0 <= k < h.len() implies #[trigger] hex_digit(h[k]) is Some by {
            if k < p.len() {
                assert(h[k] == p[k]);
            }
        }
        assert(h.last() == hex_digit_byte(n % 16));
        assert(hex_value(h) == hex_value(p) * 16 + n % 16);
        assert((n / 16) * 16 + n % 16 == n) by (nonlinear_arith);
    }
}

proof fn lemma_crlf_skips(src: Seq<u8>, i: int, e: int)
    requires
        0 <= i <= e,
        crlf_at(src, e),
        forall|k: int| i <= k < e ==> #[trigger] src[k] != 13u8,
    ensures
        crlf_from(src, i) == Some(e),
    decreases e - i,
{
    if i < e {
        assert(src[i] != 13u8);
        lemma_crlf_skips(src, i + 1, e);
    }
}

proof fn lemma_hex_parses(n: nat)
    requires
        n <= usize::MAX,
    ensures
        parse_hex(hex_bytes(n)) == Some(n as int),
{
    lemma_hex_bytes(n);
    let h = hex_bytes(n);
    assert(h[0] != 43u8);
    assert(unsigned_hex(h) == h);
}

proof fn lemma_chunks_read(cs: Seq<Seq<u8>>, pre: Seq<u8>, rest: Seq<u8>, d: int)
    requires
        forall|k: int| 0 <= k < cs.len() ==> (#[trigger] cs[k]).len() > 0,
        0 <= d,
        d + chunks_total(cs) <= usize::MAX,
    ensures
        chunks_total(cs) >= 0,
        chunked_from(pre + chunks_bytes(cs) + chunk_end() + rest, pre.len() as int, d)
            == Ok::<Option<(int, int)>, ()>(Some((d + chunks_total(cs), (pre.len() + chunks_bytes(cs).len() + 5) as int))),
    decreases cs.len(),
{
    let src = pre + chunks_bytes(cs) + chunk_end() + rest;
    let i = pre.len() as int;
    if cs.len() == 0 {
        assert(chunks_bytes(cs) =~= Seq::<u8>::empty());
        assert(src[i] == 48u8);
        assert(crlf_at(src, i + 1));
        lemma_crlf_skips(src, i, i + 1);
        assert(src.subrange(i, i + 1) =~= seq![48u8]);
        assert(hex_bytes(0) =~= seq![48u8]);
        lemma_hex_parses(0);
        assert(crlf_at(src, i + 3));
    } else {
        let c = cs[0];
        let tail = cs.drop_first();
        assert forall|k: int| 0 <= k < tail.len() implies (#[trigger] tail[k]).len() > 0 by {
            assert(tail[k] == cs[k + 1]);
        }
        lemma_chunks_read(tail, pre + chunk_bytes(c), rest, d + c.len());
        let h = hex_bytes(c.len());
        lemma_hex_bytes(c.len());
        lemma_hex_parses(c.len());
        let n = c.len() as int;
        let hl = h.len() as int;
        assert(chunk_bytes(c) =~= h + seq![13u8, 10u8] + c + seq![13u8, 10u8]) by {
            reveal_strlit("\r\n");
            vstd::string::is_ascii_spec_bytes("\r\n");
        }
        let pre2 = pre + chunk_bytes(c);
        assert(src =~= pre2 + chunks_bytes(tail) + chunk_end() + rest);
        assert forall|k: int| i <= k < i + hl implies #[trigger] src[k] != 13u8 by {
            assert(src[k] == h[k - i]);
        }
        assert(crlf_at(src, i + hl));
        lemma_crlf_skips(src, i, i + hl);
        assert(src.subrange(i, i + hl) =~= h);
        assert(crlf_at(src, i + hl + 2 + n));
        assert(sat_usize(d + n) == d + n);
        assert(pre2.len() == i + hl + 2 + n + 2);
        assert(chunks_bytes(cs).len() == chunk_bytes(c).len() + chunks_bytes(tail).len());
    }
}

/// What `append_chunk` and `append_chunk_end` write reads back: non-empty
/// chunks, then the last chunk, make a complete chunked body whose decoded
/// length is the chunks' total and whose wire length ends after the last
/// chunk, whatever follows it.
pub proof fn law_chunked_roundtrip(cs: Seq<Seq<u8>>, rest: Seq<u8>)
    requires
        forall|k: int| 0 <= k < cs.len() ==> (#[trigger] cs[k]).len() > 0,
        chunks_total(cs) <= usize::MAX,
    ensures
        chunked_spec(chunks_bytes(cs) + chunk_end() + rest)
            == Ok::<Option<(int, int)>, ()>(Some((chunks_total(cs), (chunks_bytes(cs).len() + 5) as int))),
{
    lemma_chunks_read(cs, Seq::empty(), rest, 0);
    assert(Seq::<u8>::empty() + chunks_bytes(cs) + chunk_end() + rest =~= chunks_bytes(cs) + chunk_end() + rest);
}

/// The data the chunks carry, in order.
pub open spec fn chunks_data(cs: Seq<Seq<u8>>) -> Seq<u8>
    decreases cs.len(),
{
    if cs.len() == 0 {
        Seq::empty()
    } else {
        cs[0] + chunks_data(cs.drop_first())
    }
}

proof fn lemma_chunks_decode(cs: Seq<Seq<u8>>, pre: Seq<u8>, rest: Seq<u8>)
    requires
        forall|k: int| 0 <= k < cs.len() ==> (#[trigger] cs[k]).len() > 0,
        forall|k: int| 0 <= k < cs.len() ==> (#[trigger] cs[k]).len() <= usize::MAX,
    ensures
        dechunk_from(pre + chunks_bytes(cs) + chunk_end() + rest, pre.len() as int) == (
            chunks_data(cs),
            Ok::<int, ()>((pre.len() + chunks_bytes(cs).len() + 5) as int),
        ),
    decreases cs.len(),
{
    let src = pre + chunks_bytes(cs) + chunk_end() + rest;
    let i = pre.len() as int;
    if cs.len() == 0 {
        assert(chunks_bytes(cs) =~= Seq::<u8>::empty());
        assert(src[i] == 48u8);
        assert(crlf_at(src, i + 1));
        lemma_crlf_skips(src, i, i + 1);
        assert(src.subrange(i, i + 1) =~= seq![48u8]);
        assert(hex_bytes(0) =~= seq![48u8]);
        lemma_hex_parses(0);
    } else {
        let c = cs[0];
        let tail = cs.drop_first();
        assert forall|k: int| 0 <= k < tail.len() implies (#[trigger] tail[k]).len() > 0 && tail[k].len()
            <= usize::MAX by {
            assert(tail[k] == cs[k + 1]);
        }
        lemma_chunks_decode(tail, pre + chunk_bytes(c), rest);
        let h = hex_bytes(c.len());
        lemma_hex_bytes(c.len());
        lemma_hex_parses(c.len());
        let n = c.len() as int;
        let hl = h.len() as int;
        assert(chunk_bytes(c) =~= h + seq![13u8, 10u8] + c + seq![13u8, 10u8]) by {
            reveal_strlit("\r\n");
            vstd::string::is_ascii_spec_bytes("\r\n");
        }
        let pre2 = pre + chunk_bytes(c);
        assert(src =~= pre2 + chunks_bytes(tail) + chunk_end() + rest);
        assert forall|k: int| i <= k < i + hl implies #[trigger] src[k] != 13u8 by {
            assert(src[k] == h[k - i]);
        }
        assert(crlf_at(src, i + hl));
        lemma_crlf_skips(src, i, i + hl);
        assert(src.subrange(i, i + hl) =~= h);
        assert(pre2.len() == i + hl + 2 + n + 2);
        assert(src.subrange(i + hl + 2, i + hl + 2 + n) =~= c);
        assert(chunks_bytes(cs).len() == chunk_bytes(c).len() + chunks_bytes(tail).len());
    }
}

/// What `append_chunk` and `append_chunk_end` write decodes back: non-
/// empty chunks, then the last chunk, decode to the chunks' data in
/// order, and decoding stops after the last chunk, whatever follows.
pub proof fn law_chunks_decode_back(cs: Seq<Seq<u8>>, rest: Seq<u8>)
    requires
        forall|k: int| 0 <= k < cs.len() ==> (#[trigger] cs[k]).len() > 0,
        forall|k: int| 0 <= k < cs.len() ==> (#[trigger] cs[k]).len() <= usize::MAX,
    ensures
        dechunk_from(chunks_bytes(cs) + chunk_end() + rest, 0) == (
            chunks_data(cs),
            Ok::<int, ()>((chunks_bytes(cs).len() + 5) as int),
        ),
{
    lemma_chunks_decode(cs, Seq::empty(), rest);
    assert(Seq::<u8>::empty() + chunks_bytes(cs) + chunk_end() + rest =~= chunks_bytes(cs) + chunk_end() + rest);
}

/// A chunk size line written by the encoder reads back as the size.
pub proof fn law_hex_size_roundtrip(n: usize)
    ensures
        parse_hex(hex_bytes(n as nat)) == Some(n as int),
{
    lemma_hex_parses(n as nat);
}

/// The tail of a response after its header lines: the blank line and,
/// unless a HEAD answer or a stream, the body.
pub open spec fn tail_len(out: Out, head: bool) -> int {
    2 + if !head && !(out.body is Stream) {
        body_bytes(out.body).len() as int
    } else {
        0
    }
}

/// Law: adding a header `(name, value)` at the end of a response's list
/// inserts exactly the line `name: value\r\n` before the blank line that
/// ends the head; every other byte stays where it was.
pub proof fn law_header_line_added(o1: Out, o2: Out, head: bool)
    requires
        o2.status == o1.status,
        o2.reason == o1.reason,
        o2.body == o1.body,
        o2.headers@.len() == o1.headers@.len() + 1,
        o2.headers@.drop_last() == o1.headers@,
    ensures
        ({
            let r1 = response_bytes(o1, head);
            let cut = r1.len() - tail_len(o1, head);
            &&& 0 <= cut <= r1.len()
            &&& response_bytes(o2, head) == r1.take(cut) + encode_utf8(o2.headers@.last().0@) + ": ".spec_bytes()
                + encode_utf8(o2.headers@.last().1@) + "\r\n".spec_bytes() + r1.skip(cut)
        }),
{
    reveal_strlit("\r\n");
    let stream = o1.body is Stream;
    let status_line = "HTTP/1.1 ".spec_bytes() + dec_bytes(o1.status@ as nat) + " ".spec_bytes() + reason_bytes(o1)
        + "\r\n".spec_bytes();
    let framing = if stream {
        "Transfer-Encoding: chunked\r\n".spec_bytes()
    } else {
        "Content-Length: ".spec_bytes() + dec_bytes(body_len(o1.body) as nat) + "\r\n".spec_bytes()
    };
    let body = if !head && !stream {
        body_bytes(o1.body)
    } else {
        Seq::empty()
    };
    let pre = status_line + framing + fixed_headers() + header_lines(o1.headers@);
    let line = encode_utf8(o2.headers@.last().0@) + ": ".spec_bytes() + encode_utf8(o2.headers@.last().1@)
        + "\r\n".spec_bytes();
    let r1 = response_bytes(o1, head);
    assert(reason_bytes(o2) == reason_bytes(o1));
    assert(r1 =~= pre + ("\r\n".spec_bytes() + body));
    assert(header_lines(o2.headers@) == header_lines(o1.headers@) + line);
    assert(response_bytes(o2, head) =~= pre + line + ("\r\n".spec_bytes() + body));
    assert(r1.take(pre.len() as int) =~= pre);
    assert(r1.skip(pre.len() as int) =~= "\r\n".spec_bytes() + body);
    vstd::string::is_ascii_spec_bytes("\r\n");
    assert("\r\n".spec_bytes().len() == 2);
    assert(r1.len() - tail_len(o1, head) == pre.len());
    assert(response_bytes(o2, head) =~= r1.take(pre.len() as int) + encode_utf8(o2.headers@.last().0@)
        + ": ".spec_bytes() + encode_utf8(o2.headers@.last().1@) + "\r\n".spec_bytes() + r1.skip(pre.len() as int));
}

/// Law: a response's head holds its header list as lines, in order,
/// after the fixed headers and before the blank line: the response with
/// the list is the response without it, the lines inserted there.
pub proof fn law_header_lines_in_order(o0: Out, o: Out, head: bool)
    requires
        o.status == o0.status,
        o.reason == o0.reason,
        o.body == o0.body,
        o0.headers@.len() == 0,
    ensures
        ({
            let r0 = response_bytes(o0, head);
            let cut = r0.len() - tail_len(o0, head);
            &&& 0 <= cut <= r0.len()
            &&& response_bytes(o, head) == r0.take(cut) + header_lines(o.headers@) + r0.skip(cut)
        }),
{
    reveal_strlit("\r\n");
    let stream = o0.body is Stream;
    let status_line = "HTTP/1.1 ".spec_bytes() + dec_bytes(o0.status@ as nat) + " ".spec_bytes() + reason_bytes(o0)
        + "\r\n".spec_bytes();
    let framing = if stream {
        "Transfer-Encoding: chunked\r\n".spec_bytes()
    } else {
        "Content-Length: ".spec_bytes() + dec_bytes(body_len(o0.body) as nat) + "\r\n".spec_bytes()
    };
    let body = if !head && !stream {
        body_bytes(o0.body)
    } else {
        Seq::empty()
    };
    let pre = status_line + framing + fixed_headers();
    let r0 = response_bytes(o0, head);
    assert(reason_bytes(o) == reason_bytes(o0));
    assert(header_lines(o0.headers@) =~= Seq::<u8>::empty());
    assert(r0 =~= pre + ("\r\n".spec_bytes() + body));
    assert(response_bytes(o, head) =~= pre + header_lines(o.headers@) + ("\r\n".spec_bytes() + body));
    assert(r0.take(pre.len() as int) =~= pre);
    assert(r0.skip(pre.len() as int) =~= "\r\n".spec_bytes() + body);
    vstd::string::is_ascii_spec_bytes("\r\n");
    assert("\r\n".spec_bytes().len() == 2);
    assert(r0.len() - tail_len(o0, head) == pre.len());
    assert(response_bytes(o, head) =~= r0.take(pre.len() as int) + header_lines(o.headers@) + r0.skip(pre.len() as int));
}

/// Law: the header lines of a list are the lines of its first headers
/// followed by `name: value\r\n` of the next, none for an empty list.
pub proof fn law_header_lines_push(hs: Seq<(String, String)>, k: String, v: String)
    ensures
        header_lines(Seq::empty()) == Seq::<u8>::empty(),
        header_lines(hs.push((k, v))) == header_lines(hs) + encode_utf8(k@) + ": ".spec_bytes() + encode_utf8(v@)
            + "\r\n".spec_bytes(),
{
    assert(hs.push((k, v)).drop_last() =~= hs);
}

} // verus!
