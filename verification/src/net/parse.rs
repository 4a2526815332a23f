//! HTTP/1.1 request framing and a depth-limited JSON scan.
//!
//! Framing is one function, [`parse_request`]: it alone decides
//! Content-Length, Transfer-Encoding, the request-target form, and Host
//! against an absolute-form target.
use vstd::prelude::*;
use crate::error::ServeError;
use crate::method::{Method, method_of_bytes};
use crate::text::{
    char_from, find_char, str_chars, chars_string, trim, trim_chars, eq_ic_c, lower_c, chars_eq_ic, split_from,
    split_char, utf8_str, parse_usize, parse_usize_chars,
};
use vstd::utf8::{valid_utf8, decode_utf8, encode_utf8};

verus! {

pub open spec fn crlf_at(s: Seq<u8>, i: int) -> bool {
    0 <= i && i + 2 <= s.len() && s[i] == 13u8 && s[i + 1] == 10u8
}

/// Position of the first CRLF at or after `i`.
pub open spec fn crlf_from(s: Seq<u8>, i: int) -> Option<int>
    decreases s.len() - i,
{
    if i < 0 || i + 2 > s.len() {
        None
    } else if crlf_at(s, i) {
        Some(i)
    } else {
        crlf_from(s, i + 1)
    }
}

pub proof fn lemma_crlf_from(s: Seq<u8>, i: int)
    requires
        0 <= i,
    ensures
        match crlf_from(s, i) {
            Some(j) => i <= j && crlf_at(s, j) && forall|k: int| i <= k < j ==> !crlf_at(s, k),
            None => forall|k: int| i <= k ==> !crlf_at(s, k),
        },
    decreases s.len() - i,
{
    if i + 2 <= s.len() && !crlf_at(s, i) {
        lemma_crlf_from(s, i + 1);
    }
}

fn is_crlf(s: &[u8], i: usize) -> (r: bool)
    ensures
        r == crlf_at(s@, i as int),
{
    i < s.len() && s.len() - i >= 2 && s[i] == 13u8 && s[i + 1] == 10u8
}

/// The first CRLF at or after `i`.
fn find_crlf(s: &[u8], i: usize) -> (r: Option<usize>)
    requires
        i <= s.len(),
    ensures
        match crlf_from(s@, i as int) {
            Some(j) => r == Some(j as usize) && i <= j && j + 2 <= s.len(),
            None => r is None,
        },
{
    proof {
        lemma_crlf_from(s@, i as int);
    }
    let mut k = i;
    while k < s.len() && s.len() - k >= 2
        invariant
            i <= k <= s.len(),
            crlf_from(s@, i as int) == crlf_from(s@, k as int),
        decreases s.len() - k,
    {
        if s[k] == 13u8 && s[k + 1] == 10u8 {
            return Some(k);
        }
        k = k + 1;
    }
    None
}

/// CRLF CRLF at `i`.
pub open spec fn blank_at(s: Seq<u8>, i: int) -> bool {
    crlf_at(s, i) && crlf_at(s, i + 2)
}

pub open spec fn header_end_from(s: Seq<u8>, i: int) -> Option<int>
    decreases s.len() - i,
{
    if i < 0 || i + 4 > s.len() {
        None
    } else if blank_at(s, i) {
        Some(i + 4)
    } else {
        header_end_from(s, i + 1)
    }
}

/// The end of the header block: just past the first CRLF CRLF.
pub open spec fn header_end(s: Seq<u8>) -> Option<int> {
    header_end_from(s, 0)
}

pub fn find_header_end(buf: &[u8]) -> (r: Option<usize>)
    ensures
        match header_end(buf@) {
            Some(e) => r == Some(e as usize) && 4 <= e <= buf.len(),
            None => r is None,
        },
{
    proof {
        lemma_header_end(buf@, 0);
    }
    let mut k: usize = 0;
    while k < buf.len() && buf.len() - k >= 4
        invariant
            k <= buf.len(),
            header_end(buf@) == header_end_from(buf@, k as int),
        decreases buf.len() - k,
    {
        if buf[k] == 13u8 && buf[k + 1] == 10u8 && buf[k + 2] == 13u8 && buf[k + 3] == 10u8 {
            return Some(k + 4);
        }
        k = k + 1;
    }
    None
}

/// Position of the first byte `c` at or after `i`.
pub open spec fn byte_from(s: Seq<u8>, c: u8, i: int) -> Option<int>
    decreases s.len() - i,
{
    if i < 0 || i >= s.len() {
        None
    } else if s[i] == c {
        Some(i)
    } else {
        byte_from(s, c, i + 1)
    }
}

pub proof fn lemma_byte_from(s: Seq<u8>, c: u8, i: int)
    requires
        0 <= i,
    ensures
        match byte_from(s, c, i) {
            Some(j) => i <= j < s.len() && s[j] == c && forall|k: int| i <= k < j ==> s[k] != c,
            None => forall|k: int| i <= k < s.len() ==> s[k] != c,
        },
    decreases s.len() - i,
{
    if i < s.len() && s[i] != c {
        lemma_byte_from(s, c, i + 1);
    }
}

fn find_byte(s: &[u8], c: u8, i: usize) -> (r: Option<usize>)
    requires
        i <= s.len(),
    ensures
        match byte_from(s@, c, i as int) {
            Some(j) => r == Some(j as usize) && i <= j < s.len(),
            None => r is None,
        },
{
    proof {
        lemma_byte_from(s@, c, i as int);
    }
    let mut k = i;
    while k < s.len()
        invariant
            i <= k <= s.len(),
            byte_from(s@, c, i as int) == byte_from(s@, c, k as int),
        decreases s.len() - k,
    {
        if s[k] == c {
            return Some(k);
        }
        k = k + 1;
    }
    None
}

/// Bytes refused in a header name: TAB, SP, NUL and non-ASCII.
pub open spec fn bad_name_byte(b: u8) -> bool {
    b == 9u8 || b == 32u8 || b == 0u8 || b > 127u8
}

/// A header field line: no leading SP or TAB (obs-fold), and a
/// non-empty name before the first colon, free of refused bytes.
pub open spec fn field_line_ok(line: Seq<u8>) -> bool {
    &&& !(line.len() > 0 && (line[0] == 32u8 || line[0] == 9u8))
    &&& match byte_from(line, 58u8, 0) {
        None => false,
        Some(c) => c > 0 && forall|k: int| 0 <= k < c ==> !bad_name_byte(#[trigger] line[k]),
    }
}

/// A line of the header block: at most `max` bytes; every line after
/// the request line is a well-formed field line.
pub open spec fn line_ok(line: Seq<u8>, max: usize, first: bool) -> bool {
    line.len() <= max && (first || field_line_ok(line))
}

/// The lines of the block from `i` on, up to the empty line, are good.
pub open spec fn lines_ok(block: Seq<u8>, max: usize, i: int, first: bool) -> bool
    decreases block.len() - i,
{
    if i < 0 || i >= block.len() || crlf_at(block, i) {
        true
    } else {
        match crlf_from(block, i) {
            None => false,
            Some(j) => {
                proof {
                    lemma_crlf_from(block, i);
                }
                line_ok(block.subrange(i, j), max, first) && lines_ok(block, max, j + 2, false)
            },
        }
    }
}

/// The header-block check: `Err` for a block over `max` bytes or a bad
/// line, `Ok(None)` when the block is not complete yet, else its end.
pub open spec fn scan_spec(buf: Seq<u8>, max: usize) -> Result<Option<int>, ()> {
    match header_end(buf) {
        None => if buf.len() > max {
            Err(())
        } else {
            Ok(None)
        },
        Some(end) => if end > max {
            Err(())
        } else if lines_ok(buf.take(end), max, 0, true) {
            Ok(Some(end))
        } else {
            Err(())
        },
    }
}

fn field_line_check(line: &[u8]) -> (r: bool)
    ensures
        r == field_line_ok(line@),
{
    if line.len() > 0 && (line[0] == 32u8 || line[0] == 9u8) {
        return false;
    }
    let c = match find_byte(line, 58u8, 0) {
        None => {
            return false;
        },
        Some(c) => c,
    };
    proof {
        lemma_byte_from(line@, 58u8, 0);
    }
    if c == 0 {
        return false;
    }
    let mut k: usize = 0;
    while k < c
        invariant
            c < line.len(),
            k <= c,
            c > 0,
            byte_from(line@, 58u8, 0) == Some(c as int),
            !(line@.len() > 0 && (line@[0] == 32u8 || line@[0] == 9u8)),
            forall|m: int| 0 <= m < k ==> !bad_name_byte(#[trigger] line@[m]),
        decreases c - k,
    {
        let b = line[k];
        if b == 9u8 || b == 32u8 || b == 0u8 || b > 127u8 {
            assert(bad_name_byte(line@[k as int]));
            return false;
        }
        k = k + 1;
    }
    true
}

/// Refuse obs-fold, a bad header name, or a line longer than `max_header`.
fn scan_header_block(buf: &[u8], max_header: usize) -> (r: Result<Option<usize>, ServeError>)
    ensures
        match scan_spec(buf@, max_header) {
            Err(_) => r matches Err(ServeError::Parse),
            Ok(None) => r matches Ok(None),
            Ok(Some(e)) => r matches Ok(Some(x)) && x == e,
        },
{
    let end = match find_header_end(buf) {
        None => {
            if buf.len() > max_header {
                return Err(ServeError::Parse);
            }
            return Ok(None);
        },
        Some(e) => e,
    };
    if end > max_header {
        return Err(ServeError::Parse);
    }
    let block = vstd::slice::slice_subrange(buf, 0, end);
    let ghost bv = block@;
    assert(bv == buf@.take(end as int));
    let mut i: usize = 0;
    let mut first = true;
    while i < block.len() && !is_crlf(block, i)
        invariant
            bv == block@,
            bv == buf@.take(end as int),
            header_end(buf@) == Some(end as int),
            end <= max_header,
            i <= block.len(),
            lines_ok(bv, max_header, 0, true) == lines_ok(bv, max_header, i as int, first),
        decreases block.len() - i,
    {
        let j = match find_crlf(block, i) {
            None => {
                return Err(ServeError::Parse);
            },
            Some(j) => j,
        };
        proof {
            lemma_crlf_from(bv, i as int);
        }
        let line = vstd::slice::slice_subrange(block, i, j);
        if line.len() > max_header {
            return Err(ServeError::Parse);
        }
        if !first && !field_line_check(line) {
            return Err(ServeError::Parse);
        }
        first = false;
        i = j + 2;
    }
    Ok(Some(end))
}

/// A header end lies within the buffer, past four bytes.
pub proof fn lemma_header_end(s: Seq<u8>, i: int)
    requires
        0 <= i,
    ensures
        header_end_from(s, i) matches Some(e) ==> i + 4 <= e <= s.len(),
    decreases s.len() - i,
{
    if i + 4 <= s.len() && !blank_at(s, i) {
        lemma_header_end(s, i + 1);
    }
}

/// The value of an ASCII hex digit.
pub open spec fn hex_digit(b: u8) -> Option<int> {
    if 48 <= b <= 57 {
        Some(b - 48)
    } else if 97 <= b <= 102 {
        Some(b - 87)
    } else if 65 <= b <= 70 {
        Some(b - 55)
    } else {
        None
    }
}

pub open spec fn all_hex(d: Seq<u8>) -> bool {
    forall|i: int| 0 <= i < d.len() ==> #[trigger] hex_digit(d[i]) is Some
}

/// The value of a string of hex digits.
pub open spec fn hex_value(d: Seq<u8>) -> int
    decreases d.len(),
{
    if d.len() == 0 {
        0
    } else {
        hex_value(d.drop_last()) * 16 + match hex_digit(d.last()) {
            Some(v) => v,
            None => 0,
        }
    }
}

pub open spec fn unsigned_hex(s: Seq<u8>) -> Seq<u8> {
    if s.len() > 0 && s[0] == 43u8 {
        s.drop_first()
    } else {
        s
    }
}

/// `usize::from_str_radix(_, 16)` on a chunk-size line: an optional
/// `+`, then one or more hex digits whose value fits in a `usize`.
pub open spec fn parse_hex(s: Seq<u8>) -> Option<int> {
    let d = unsigned_hex(s);
    if d.len() > 0 && all_hex(d) && hex_value(d) <= usize::MAX {
        Some(hex_value(d))
    } else {
        None
    }
}

proof fn lemma_hex_mono(s: Seq<u8>, k: int)
    requires
        0 <= k <= s.len(),
        all_hex(s),
    ensures
        0 <= hex_value(s.take(k)) <= hex_value(s),
    decreases s.len() - k,
{
    if k < s.len() {
        let t = s.take(k + 1);
        assert(t.drop_last() =~= s.take(k));
        assert(t.last() == s[k]);
        assert(hex_digit(s[k]) is Some);
        lemma_hex_mono(s, k + 1);
        lemma_hex_nonneg(s.take(k));
        assert(hex_value(s.take(k)) * 16 >= hex_value(s.take(k))) by (nonlinear_arith)
            requires
                hex_value(s.take(k)) >= 0,
        ;
    } else {
        assert(s.take(k) =~= s);
        lemma_hex_nonneg(s);
    }
}

pub proof fn lemma_hex_nonneg(s: Seq<u8>)
    ensures
        hex_value(s) >= 0,
    decreases s.len(),
{
    if s.len() > 0 {
        lemma_hex_nonneg(s.drop_last());
    }
}

/// Parse a chunk-size line.
fn parse_hex_bytes(s: &[u8]) -> (r: Option<usize>)
    ensures
        match parse_hex(s@) {
            Some(n) => r == Some(n as usize) && 0 <= n <= usize::MAX,
            None => r is None,
        },
{
    proof {
        lemma_hex_nonneg(unsigned_hex(s@));
    }
    let start: usize = if s.len() > 0 && s[0] == 43u8 { 1 } else { 0 };
    let ghost d = unsigned_hex(s@);
    assert(d =~= s@.skip(start as int));
    if start >= s.len() {
        return None;
    }
    let mut acc: usize = 0;
    let mut i: usize = start;
    while i < s.len()
        invariant
            start <= i <= s.len(),
            d == s@.skip(start as int),
            d == unsigned_hex(s@),
            forall|k: int| 0 <= k < i - start ==> #[trigger] hex_digit(d[k]) is Some,
            acc == hex_value(d.take(i - start)),
        decreases s.len() - i,
    {
        let b = s[i];
        assert(d[i - start] == b);
        let v: usize = if 48 <= b && b <= 57 {
            (b - 48) as usize
        } else if 97 <= b && b <= 102 {
            (b - 87) as usize
        } else if 65 <= b && b <= 70 {
            (b - 55) as usize
        } else {
            assert(hex_digit(d[i - start]) is None);
            assert(!all_hex(d));
            return None;
        };
        assert(d.take(i - start + 1).drop_last() =~= d.take(i - start));
        assert(d.take(i - start + 1).last() == b);
        assert(hex_value(d.take(i - start + 1)) == acc * 16 + v);
        let next = match acc.checked_mul(16) {
            None => None,
            Some(m) => m.checked_add(v),
        };
        match next {
            None => {
                proof {
                    assert(hex_value(d) > usize::MAX || !all_hex(d)) by {
                        if all_hex(d) {
                            lemma_hex_mono(d, i - start + 1);
                        }
                    }
                }
                return None;
            },
            Some(n) => {
                acc = n;
            },
        }
        i = i + 1;
    }
    assert(d.take(s.len() - start) =~= d);
    Some(acc)
}

pub open spec fn sat_usize(x: int) -> int {
    if x > usize::MAX {
        usize::MAX as int
    } else {
        x
    }
}

/// A chunked body from position `i`, `decoded` bytes so far: `Err` for a
/// bad size line or a missing CRLF after a chunk or the last chunk,
/// `Ok(None)` while bytes are missing, else the decoded length
/// (saturating) and the wire length. No extensions, no trailers.
pub open spec fn chunked_from(src: Seq<u8>, i: int, decoded: int) -> Result<Option<(int, int)>, ()>
    decreases src.len() - i,
{
    if i < 0 || i > src.len() {
        Ok(None)
    } else {
        match crlf_from(src, i) {
            None => Ok(None),
            Some(nl) => match parse_hex(src.subrange(i, nl)) {
                None => Err(()),
                Some(size) => {
                    proof {
                        lemma_crlf_from(src, i);
                        lemma_hex_nonneg(unsigned_hex(src.subrange(i, nl)));
                    }
                    let j = nl + 2;
                    if size == 0 {
                        if src.len() < j + 2 {
                            Ok(None)
                        } else if !crlf_at(src, j) {
                            Err(())
                        } else {
                            Ok(Some((decoded, j + 2)))
                        }
                    } else if src.len() < j + size + 2 {
                        Ok(None)
                    } else if !crlf_at(src, j + size) {
                        Err(())
                    } else {
                        chunked_from(src, j + size + 2, sat_usize(decoded + size))
                    }
                },
            },
        }
    }
}

pub open spec fn chunked_spec(src: Seq<u8>) -> Result<Option<(int, int)>, ()> {
    chunked_from(src, 0, 0)
}

/// Walk a chunked body. `Ok(None)`: more bytes are needed;
/// `Ok(Some((decoded, wire)))`: complete.
pub fn measure_chunked(src: &[u8]) -> (r: Result<Option<(usize, usize)>, ServeError>)
    ensures
        match chunked_spec(src@) {
            Err(_) => r matches Err(ServeError::Parse),
            Ok(None) => r matches Ok(None),
            Ok(Some((d, w))) => r matches Ok(Some((x, y))) && x == d && y == w && w <= src.len(),
        },
{
    let mut i: usize = 0;
    let mut decoded: usize = 0;
    loop
        invariant
            i <= src.len(),
            chunked_spec(src@) == chunked_from(src@, i as int, decoded as int),
        decreases src.len() - i,
    {
        let nl = match find_crlf(src, i) {
            None => {
                return Ok(None);
            },
            Some(nl) => nl,
        };
        let line = vstd::slice::slice_subrange(src, i, nl);
        let size = match parse_hex_bytes(line) {
            None => {
                return Err(ServeError::Parse);
            },
            Some(n) => n,
        };
        let j = nl + 2;
        if size == 0 {
            if src.len() - j < 2 {
                return Ok(None);
            }
            if !is_crlf(src, j) {
                return Err(ServeError::Parse);
            }
            return Ok(Some((decoded, j + 2)));
        }
        if src.len() - j < 2 || src.len() - j - 2 < size {
            return Ok(None);
        }
        if !is_crlf(src, j + size) {
            return Err(ServeError::Parse);
        }
        decoded = decoded.saturating_add(size);
        i = j + size + 2;
    }
}

/// A chunked body from position `i`: the data bytes appended before
/// the walk stops, and where it stops (`Err` for a bad or short body;
/// the trailer CRLF after the last chunk is not checked).
pub open spec fn dechunk_from(src: Seq<u8>, i: int) -> (Seq<u8>, Result<int, ()>)
    decreases src.len() - i,
{
    if i < 0 || i > src.len() {
        (seq![], Err(()))
    } else {
        match crlf_from(src, i) {
            None => (seq![], Err(())),
            Some(nl) => match parse_hex(src.subrange(i, nl)) {
                None => (seq![], Err(())),
                Some(size) => {
                    proof {
                        lemma_crlf_from(src, i);
                        lemma_hex_nonneg(unsigned_hex(src.subrange(i, nl)));
                    }
                    let j = nl + 2;
                    if size == 0 {
                        (seq![], Ok(j + 2))
                    } else if src.len() < j + size + 2 {
                        (seq![], Err(()))
                    } else {
                        let rest = dechunk_from(src, j + size + 2);
                        (src.subrange(j, j + size) + rest.0, rest.1)
                    }
                },
            },
        }
    }
}

/// Copy the decoded chunk bytes of a wire body into `dst`; the offset
/// just past the last chunk's CRLF.
pub fn decode_chunked_into(src: &[u8], dst: &mut Vec<u8>) -> (r: Result<usize, ServeError>)
    requires
        src@.len() + 2 <= usize::MAX,
    ensures
        final(dst)@ == old(dst)@ + dechunk_from(src@, 0).0,
        match dechunk_from(src@, 0).1 {
            Err(_) => r matches Err(ServeError::Parse),
            Ok(e) => r matches Ok(x) && x == e,
        },
{
    let mut i: usize = 0;
    let ghost start = dst@;
    loop
        invariant
            i <= src.len(),
            src@.len() + 2 <= usize::MAX,
            start == old(dst)@,
            start + dechunk_from(src@, 0).0 == dst@ + dechunk_from(src@, i as int).0,
            dechunk_from(src@, 0).1 == dechunk_from(src@, i as int).1,
        decreases src.len() - i,
    {
        let nl = match find_crlf(src, i) {
            None => {
                assert(dst@ + seq![] =~= dst@);
                return Err(ServeError::Parse);
            },
            Some(nl) => nl,
        };
        let line = vstd::slice::slice_subrange(src, i, nl);
        let size = match parse_hex_bytes(line) {
            None => {
                assert(dst@ + seq![] =~= dst@);
                return Err(ServeError::Parse);
            },
            Some(n) => n,
        };
        let j = nl + 2;
        if size == 0 {
            assert(dst@ + seq![] =~= dst@);
            return Ok(j + 2);
        }
        if src.len() - j < 2 || src.len() - j - 2 < size {
            assert(dst@ + seq![] =~= dst@);
            return Err(ServeError::Parse);
        }
        let ghost rest = dechunk_from(src@, j + size + 2);
        let ghost prev = dst@;
        assert(dechunk_from(src@, i as int) == (src@.subrange(j as int, j + size) + rest.0, rest.1));
        let data = vstd::slice::slice_subrange(src, j, j + size);
        dst.extend_from_slice(data);
        assert(dst@ + rest.0 =~= prev + (src@.subrange(j as int, j + size) + rest.0));
        i = j + size + 2;
    }
}

proof fn lemma_dechunk_len(src: Seq<u8>, i: int)
    ensures
        0 <= i <= src.len() ==> dechunk_from(src, i).0.len() <= src.len() - i,
    decreases src.len() - i,
{
    if 0 <= i <= src.len() {
        match crlf_from(src, i) {
            None => {},
            Some(nl) => match parse_hex(src.subrange(i, nl)) {
                None => {},
                Some(size) => {
                    lemma_crlf_from(src, i);
                    lemma_hex_nonneg(unsigned_hex(src.subrange(i, nl)));
                    let j = nl + 2;
                    if size != 0 && src.len() >= j + size + 2 {
                        lemma_dechunk_len(src, j + size + 2);
                    }
                },
            },
        }
    }
}

proof fn lemma_measure_decode(src: Seq<u8>, i: int, dec: int)
    requires
        0 <= dec <= usize::MAX,
        chunked_from(src, i, dec) is Ok,
        chunked_from(src, i, dec)->Ok_0 is Some,
    ensures
        ({
            let (d, w) = chunked_from(src, i, dec)->Ok_0->Some_0;
            dechunk_from(src, i).1 == Ok::<int, ()>(w) && d == sat_usize(dec + dechunk_from(src, i).0.len())
        }),
    decreases src.len() - i,
{
    match crlf_from(src, i) {
        None => {},
        Some(nl) => match parse_hex(src.subrange(i, nl)) {
            None => {},
            Some(size) => {
                lemma_crlf_from(src, i);
                lemma_hex_nonneg(unsigned_hex(src.subrange(i, nl)));
                let j = nl + 2;
                if size != 0 {
                    lemma_measure_decode(src, j + size + 2, sat_usize(dec + size));
                }
            },
        },
    }
}

/// Measuring and decoding a chunked body agree: where measuring finds a
/// complete body of `d` decoded bytes ending at `w`, decoding stops at
/// `w` and hands back exactly `d` bytes.
pub proof fn law_measure_and_decode_agree(src: Seq<u8>)
    requires
        src.len() <= usize::MAX,
        chunked_spec(src) matches Ok(Some(_)),
    ensures
        ({
            let (d, w) = chunked_spec(src)->Ok_0->Some_0;
            dechunk_from(src, 0).1 == Ok::<int, ()>(w) && dechunk_from(src, 0).0.len() == d
        }),
{
    lemma_measure_decode(src, 0, 0);
    lemma_dechunk_len(src, 0);
}

/// `split_once('?')`, or the whole target and an empty query.
pub open spec fn split_query(t: Seq<char>) -> (Seq<char>, Seq<char>) {
    match char_from(t, '?', 0) {
        Some(i) => (t.take(i), t.skip(i + 1)),
        None => (t, Seq::empty()),
    }
}

fn split_path_query(t: &[char]) -> (r: (Vec<char>, Vec<char>))
    ensures
        (r.0@, r.1@) == split_query(t@),
{
    match find_char(t, '?', 0) {
        Some(i) => {
            let p = vstd::slice::slice_to_vec(vstd::slice::slice_subrange(t, 0, i));
            let q = vstd::slice::slice_to_vec(vstd::slice::slice_subrange(t, i + 1, t.len()));
            assert(p@ =~= t@.take(i as int));
            assert(q@ =~= t@.skip(i + 1));
            (p, q)
        },
        None => {
            let p = vstd::slice::slice_to_vec(t);
            (p, Vec::new())
        },
    }
}

/// The host of `host:port`, or of `[v6]:port` without the brackets.
pub open spec fn host_part(hp: Seq<char>) -> Seq<char> {
    if hp.len() > 0 && hp[0] == '[' {
        let rest = hp.drop_first();
        match char_from(rest, ']', 0) {
            Some(i) => rest.take(i),
            None => rest,
        }
    } else {
        match char_from(hp, ':', 0) {
            Some(i) => hp.take(i),
            None => hp,
        }
    }
}

fn host_chars(hp: &[char]) -> (r: Vec<char>)
    ensures
        r@ == host_part(hp@),
{
    if hp.len() > 0 && hp[0] == '[' {
        let rest = vstd::slice::slice_subrange(hp, 1, hp.len());
        assert(rest@ =~= hp@.drop_first());
        match find_char(rest, ']', 0) {
            Some(i) => {
                let v = vstd::slice::slice_to_vec(vstd::slice::slice_subrange(rest, 0, i));
                assert(v@ =~= rest@.take(i as int));
                v
            },
            None => vstd::slice::slice_to_vec(rest),
        }
    } else {
        match find_char(hp, ':', 0) {
            Some(i) => {
                let v = vstd::slice::slice_to_vec(vstd::slice::slice_subrange(hp, 0, i));
                assert(v@ =~= hp@.take(i as int));
                v
            },
            None => vstd::slice::slice_to_vec(hp),
        }
    }
}

/// The host of `host:port` (or `[v6]:port`).
pub fn host_without_port(hostport: &str) -> (r: String)
    ensures
        r@ == host_part(hostport@),
{
    let v = str_chars(hostport);
    let h = host_chars(v.as_slice());
    chars_string(h.as_slice())
}

pub open spec fn starts_with_c(s: Seq<char>, p: Seq<char>) -> bool {
    p.len() <= s.len() && s.take(p.len() as int) == p
}

fn chars_starts_with(s: &[char], p: &[char]) -> (r: bool)
    ensures
        r == starts_with_c(s@, p@),
{
    if p.len() > s.len() {
        return false;
    }
    let mut i: usize = 0;
    while i < p.len()
        invariant
            p.len() <= s.len(),
            i <= p.len(),
            forall|k: int| 0 <= k < i ==> s@[k] == p@[k],
        decreases p.len() - i,
    {
        if s[i] != p[i] {
            assert(s@.take(p.len() as int)[i as int] != p@[i as int]);
            return false;
        }
        i = i + 1;
    }
    assert(s@.take(p.len() as int) =~= p@);
    true
}

/// After an `http://` or `https://` scheme, the rest of the target.
pub open spec fn after_scheme(t: Seq<char>) -> Option<Seq<char>> {
    if starts_with_c(t, "http://"@) {
        Some(t.skip("http://"@.len() as int))
    } else if starts_with_c(t, "https://"@) {
        Some(t.skip("https://"@.len() as int))
    } else {
        None
    }
}

/// The request target in origin form (`/p?q`), asterisk form (`*`),
/// absolute form (`http://host[:port]/p?q`, path `/` when absent), or,
/// for CONNECT only, authority form: `Some((path, query, uri host))`,
/// `None` when it is refused.
pub open spec fn target_spec(m: Method, t: Seq<char>) -> Option<(Seq<char>, Seq<char>, Option<Seq<char>>)> {
    if t.len() == 0 {
        None
    } else if t == "*"@ {
        Some(("*"@, Seq::empty(), None))
    } else if t[0] == '/' {
        Some((split_query(t).0, split_query(t).1, None))
    } else {
        match after_scheme(t) {
            None => if m == Method::Connect {
                Some((t, Seq::empty(), None))
            } else {
                None
            },
            Some(rest) => {
                let slash = match char_from(rest, '/', 0) {
                    Some(i) => i,
                    None => rest.len() as int,
                };
                let hostport = rest.take(slash);
                let host = host_part(hostport);
                if hostport.len() == 0 || host.len() == 0 {
                    None
                } else {
                    let pq = if slash < rest.len() {
                        rest.skip(slash)
                    } else {
                        "/"@
                    };
                    Some((split_query(pq).0, split_query(pq).1, Some(host)))
                }
            },
        }
    }
}

fn chars_eq(a: &[char], b: &[char]) -> (r: bool)
    ensures
        r == (a@ == b@),
{
    if a.len() != b.len() {
        return false;
    }
    let mut i: usize = 0;
    while i < a.len()
        invariant
            a.len() == b.len(),
            i <= a.len(),
            forall|k: int| 0 <= k < i ==> a@[k] == b@[k],
        decreases a.len() - i,
    {
        if a[i] != b[i] {
            return false;
        }
        i = i + 1;
    }
    assert(a@ =~= b@);
    true
}

fn normalize_chars(method: Method, t: &[char]) -> (r: Option<(Vec<char>, Vec<char>, Option<Vec<char>>)>)
    ensures
        match target_spec(method, t@) {
            None => r is None,
            Some((p, q, h)) => r matches Some((rp, rq, rh)) && rp@ == p && rq@ == q && match h {
                None => rh is None,
                Some(hv) => rh matches Some(x) && x@ == hv,
            },
        },
{
    if t.len() == 0 {
        return None;
    }
    let star = str_chars("*");
    if chars_eq(t, star.as_slice()) {
        return Some((star, Vec::new(), None));
    }
    if t[0] == '/' {
        let (p, q) = split_path_query(t);
        return Some((p, q, None));
    }
    let http = str_chars("http://");
    let https = str_chars("https://");
    let rest = if chars_starts_with(t, http.as_slice()) {
        vstd::slice::slice_subrange(t, http.len(), t.len())
    } else if chars_starts_with(t, https.as_slice()) {
        vstd::slice::slice_subrange(t, https.len(), t.len())
    } else if method == Method::Connect {
        return Some((vstd::slice::slice_to_vec(t), Vec::new(), None));
    } else {
        return None;
    };
    assert(after_scheme(t@) == Some(rest@));
    let slash = match find_char(rest, '/', 0) {
        Some(i) => i,
        None => rest.len(),
    };
    let hostport = vstd::slice::slice_subrange(rest, 0, slash);
    assert(hostport@ =~= rest@.take(slash as int));
    if hostport.len() == 0 {
        return None;
    }
    let host = host_chars(hostport);
    if host.len() == 0 {
        return None;
    }
    let pq = if slash < rest.len() {
        let v = vstd::slice::slice_to_vec(vstd::slice::slice_subrange(rest, slash, rest.len()));
        assert(v@ =~= rest@.skip(slash as int));
        v
    } else {
        str_chars("/")
    };
    let (p, q) = split_path_query(pq.as_slice());
    Some((p, q, Some(host)))
}

/// The request target as `(path, query, uri host)`; `Err` when it is refused.
pub fn normalize_target(method: Method, target: &str) -> (r: Result<(String, String, Option<String>), ServeError>)
    ensures
        match target_spec(method, target@) {
            None => r matches Err(ServeError::Parse),
            Some((p, q, h)) => r matches Ok((rp, rq, rh)) && rp@ == p && rq@ == q && match h {
                None => rh is None,
                Some(hv) => rh matches Some(x) && x@ == hv,
            },
        },
{
    let t = str_chars(target);
    match normalize_chars(method, t.as_slice()) {
        None => Err(ServeError::Parse),
        Some((p, q, h)) => {
            let hs = match h {
                None => None,
                Some(x) => Some(chars_string(x.as_slice())),
            };
            Ok((chars_string(p.as_slice()), chars_string(q.as_slice()), hs))
        },
    }
}

/// How many of the pieces are non-empty once trimmed.
pub open spec fn nonempty_count(parts: Seq<Seq<char>>) -> nat
    decreases parts.len(),
{
    if parts.len() == 0 {
        0
    } else {
        nonempty_count(parts.drop_last()) + if trim(parts.last()).len() > 0 {
            1nat
        } else {
            0nat
        }
    }
}

/// A Transfer-Encoding value naming `chunked` alone: exactly one
/// non-empty comma-separated coding, and it is `chunked`.
pub open spec fn te_ok(val: Seq<char>) -> bool {
    let parts = split_from(val, ',', 0);
    &&& nonempty_count(parts) == 1
    &&& forall|k: int|
        0 <= k < parts.len() && trim(#[trigger] parts[k]).len() > 0 ==> eq_ic_c(trim(parts[k]), "chunked"@)
}

fn te_is_chunked_only(val: &[char]) -> (r: bool)
    ensures
        r == te_ok(val@),
{
    let parts = split_char(val, ',');
    let ghost pv = parts@.map_values(|x: Vec<char>| x@);
    let chunked = str_chars("chunked");
    let mut n: u8 = 0;
    let mut k: usize = 0;
    while k < parts.len()
        invariant
            k <= parts.len(),
            pv == parts@.map_values(|x: Vec<char>| x@),
            pv == split_from(val@, ',', 0),
            chunked@ == "chunked"@,
            n == (if nonempty_count(pv.take(k as int)) > 255 { 255 } else { nonempty_count(pv.take(k as int)) }),
            forall|j: int| 0 <= j < k && trim(#[trigger] pv[j]).len() > 0 ==> eq_ic_c(trim(pv[j]), "chunked"@),
        decreases parts.len() - k,
    {
        let p = trim_chars(parts[k].as_slice());
        assert(pv.take(k + 1).drop_last() =~= pv.take(k as int));
        assert(pv.take(k + 1).last() == pv[k as int]);
        if p.len() > 0 {
            n = n.saturating_add(1);
            if !chars_eq_ic(p.as_slice(), chunked.as_slice()) {
                return false;
            }
        }
        k = k + 1;
    }
    assert(pv.take(parts.len() as int) =~= pv);
    n == 1
}

/// A Connection value lists the token (trimmed, ASCII case-insensitive).
pub open spec fn conn_has(val: Seq<char>, token: Seq<char>) -> bool {
    let parts = split_from(val, ',', 0);
    exists|k: int| 0 <= k < parts.len() && eq_ic_c(trim(#[trigger] parts[k]), token)
}

fn connection_has(val: &[char], token: &[char]) -> (r: bool)
    ensures
        r == conn_has(val@, token@),
{
    let parts = split_char(val, ',');
    let ghost pv = parts@.map_values(|x: Vec<char>| x@);
    let mut k: usize = 0;
    while k < parts.len()
        invariant
            k <= parts.len(),
            pv == parts@.map_values(|x: Vec<char>| x@),
            pv == split_from(val@, ',', 0),
            forall|j: int| 0 <= j < k ==> !eq_ic_c(trim(#[trigger] pv[j]), token@),
        decreases parts.len() - k,
    {
        let p = trim_chars(parts[k].as_slice());
        if chars_eq_ic(p.as_slice(), token) {
            assert(eq_ic_c(trim(pv[k as int]), token@));
            return true;
        }
        k = k + 1;
    }
    false
}

/// The framing facts gathered from the header fields.
pub struct HdrState {
    pub cl: int,
    pub saw_cl: bool,
    pub saw_te: bool,
    pub keepalive: bool,
    pub upgrade: bool,
    pub host: Option<Seq<char>>,
}

/// One header field: the value must be UTF-8; a second Content-Length,
/// a bad one, a second Transfer-Encoding or one that is not `chunked`
/// alone, or a second Host is refused (`None`). Connection `close` clears
/// keep-alive, `keep-alive` sets it, `upgrade` (or an Upgrade field) marks
/// an upgrade.
pub open spec fn header_step(st: HdrState, name: Seq<char>, value: Seq<u8>) -> Option<HdrState> {
    if !valid_utf8(value) {
        None
    } else {
        let val = decode_utf8(value);
        let s1 = if eq_ic_c(name, "content-length"@) {
            if st.saw_cl {
                None
            } else {
                match parse_usize(trim(val)) {
                    None => None,
                    Some(n) => Some(HdrState { cl: n, saw_cl: true, ..st }),
                }
            }
        } else {
            Some(st)
        };
        match s1 {
            None => None,
            Some(s1) => {
                let s2 = if eq_ic_c(name, "transfer-encoding"@) {
                    if s1.saw_te || !te_ok(val) {
                        None
                    } else {
                        Some(HdrState { saw_te: true, ..s1 })
                    }
                } else {
                    Some(s1)
                };
                match s2 {
                    None => None,
                    Some(s2) => {
                        let s3 = if eq_ic_c(name, "connection"@) {
                            HdrState {
                                keepalive: if conn_has(val, "keep-alive"@) {
                                    true
                                } else if conn_has(val, "close"@) {
                                    false
                                } else {
                                    s2.keepalive
                                },
                                upgrade: s2.upgrade || conn_has(val, "upgrade"@),
                                ..s2
                            }
                        } else {
                            s2
                        };
                        let s4 = if eq_ic_c(name, "upgrade"@) {
                            HdrState { upgrade: true, ..s3 }
                        } else {
                            s3
                        };
                        if eq_ic_c(name, "host"@) {
                            if s4.host is Some {
                                None
                            } else {
                                Some(HdrState { host: Some(val), ..s4 })
                            }
                        } else {
                            Some(s4)
                        }
                    },
                }
            },
        }
    }
}

/// The header fields in order; `None` once one is refused.
pub open spec fn headers_fold(hs: Seq<(Seq<char>, Seq<u8>)>, st: HdrState) -> Option<HdrState>
    decreases hs.len(),
{
    if hs.len() == 0 {
        Some(st)
    } else {
        match headers_fold(hs.drop_last(), st) {
            None => None,
            Some(s) => header_step(s, hs.last().0, hs.last().1),
        }
    }
}

/// Framing facts as the parser holds them.
struct Hdr {
    cl: usize,
    saw_cl: bool,
    saw_te: bool,
    keepalive: bool,
    upgrade: bool,
    host: Option<Vec<char>>,
}

impl View for Hdr {
    type V = HdrState;

    closed spec fn view(&self) -> HdrState {
        HdrState {
            cl: self.cl as int,
            saw_cl: self.saw_cl,
            saw_te: self.saw_te,
            keepalive: self.keepalive,
            upgrade: self.upgrade,
            host: match self.host {
                Some(v) => Some(v@),
                None => None,
            },
        }
    }
}

/// One header field (see `header_step`); its value as text.
fn step_header(st: Hdr, name: &str, value: &[u8]) -> (r: Option<(Hdr, String)>)
    ensures
        match header_step(st@, name@, value@) {
            None => r is None,
            Some(s) => r matches Some((h, v)) && h@ == s && v@ == decode_utf8(value@),
        },
{
    let vs = match utf8_str(value) {
        None => {
            return None;
        },
        Some(v) => v,
    };
    let val = str_chars(vs);
    let n = str_chars(name);
    let mut st = st;
    if chars_eq_ic(n.as_slice(), str_chars("content-length").as_slice()) {
        if st.saw_cl {
            return None;
        }
        match parse_usize_chars(trim_chars(val.as_slice()).as_slice()) {
            None => {
                return None;
            },
            Some(x) => {
                st.cl = x;
                st.saw_cl = true;
            },
        }
    }
    if chars_eq_ic(n.as_slice(), str_chars("transfer-encoding").as_slice()) {
        if st.saw_te || !te_is_chunked_only(val.as_slice()) {
            return None;
        }
        st.saw_te = true;
    }
    if chars_eq_ic(n.as_slice(), str_chars("connection").as_slice()) {
        if connection_has(val.as_slice(), str_chars("close").as_slice()) {
            st.keepalive = false;
        }
        if connection_has(val.as_slice(), str_chars("keep-alive").as_slice()) {
            st.keepalive = true;
        }
        if connection_has(val.as_slice(), str_chars("upgrade").as_slice()) {
            st.upgrade = true;
        }
    }
    if chars_eq_ic(n.as_slice(), str_chars("upgrade").as_slice()) {
        st.upgrade = true;
    }
    if chars_eq_ic(n.as_slice(), str_chars("host").as_slice()) {
        if st.host.is_some() {
            return None;
        }
        st.host = Some(val);
    }
    let text = vs.to_owned();
    Some((st, text))
}

/// Header slots offered to the head parser.
pub const MAX_HEADERS: usize = 64;

/// A request head as the HTTP/1 head parser reports it: the offset of
/// the body, the method and target tokens, the minor version, and the
/// header fields (name, raw value).
pub struct Head {
    pub len: usize,
    pub method: Option<String>,
    pub target: Option<String>,
    pub version: Option<u8>,
    pub headers: Vec<(String, Vec<u8>)>,
}

pub enum HeadStatus {
    Complete(Head),
    Partial,
    Invalid,
}

pub struct HeadV {
    pub len: int,
    pub method: Option<Seq<char>>,
    pub target: Option<Seq<char>>,
    pub version: Option<u8>,
    pub headers: Seq<(Seq<char>, Seq<u8>)>,
}

pub enum HeadStatusV {
    Complete(HeadV),
    Partial,
    Invalid,
}

pub open spec fn opt_text(o: Option<String>) -> Option<Seq<char>> {
    match o {
        Some(s) => Some(s@),
        None => None,
    }
}

impl View for Head {
    type V = HeadV;

    open spec fn view(&self) -> HeadV {
        HeadV {
            len: self.len as int,
            method: opt_text(self.method),
            target: opt_text(self.target),
            version: self.version,
            headers: self.headers@.map_values(|h: (String, Vec<u8>)| (h.0@, h.1@)),
        }
    }
}

impl View for HeadStatus {
    type V = HeadStatusV;

    open spec fn view(&self) -> HeadStatusV {
        match self {
            HeadStatus::Complete(h) => HeadStatusV::Complete(h@),
            HeadStatus::Partial => HeadStatusV::Partial,
            HeadStatus::Invalid => HeadStatusV::Invalid,
        }
    }
}

/// What `httparse::Request::parse` reports for a buffer, given room for
/// `max_headers` header fields.
pub uninterp spec fn httparse_head(buf: Seq<u8>, max_headers: usize) -> HeadStatusV;

/// `httparse::Request::parse` with `max_headers` header slots, its
/// outcome copied out; a complete head ends within the buffer.
#[verifier::external_body]
fn parse_head(buf: &[u8], max_headers: usize) -> (r: HeadStatus)
    ensures
        r@ == httparse_head(buf@, max_headers),
        r matches HeadStatus::Complete(h) ==> h.len <= buf.len(),
{
    let mut hs = vec![httparse::EMPTY_HEADER; max_headers];
    let mut req = httparse::Request::new(&mut hs);
    match req.parse(buf) {
        Ok(httparse::Status::Complete(n)) => HeadStatus::Complete(Head {
            len: n,
            method: req.method.map(String::from),
            target: req.path.map(String::from),
            version: req.version,
            headers: req.headers.iter().map(|h| (h.name.to_string(), h.value.to_vec())).collect(),
        }),
        Ok(httparse::Status::Partial) => HeadStatus::Partial,
        Err(_) => HeadStatus::Invalid,
    }
}

/// A framed request.
pub struct Parsed {
    pub method: Method,
    pub path: String,
    pub query: String,
    pub headers: Vec<(String, String)>,
    pub header_end: usize,
    /// End of this message on the wire, from the start of the buffer.
    pub wire_end: usize,
    /// Decoded body length; for identity bodies the Content-Length.
    pub content_length: usize,
    pub chunked: bool,
    pub keepalive: bool,
    /// An upgrade was asked for; the engine answers 426 and closes.
    pub upgrade: bool,
}

pub enum ParseStatus {
    Complete(Parsed),
    Partial,
}

pub struct ParsedV {
    pub method: Method,
    pub path: Seq<char>,
    pub query: Seq<char>,
    pub headers: Seq<(Seq<char>, Seq<char>)>,
    pub header_end: int,
    pub wire_end: int,
    pub content_length: int,
    pub chunked: bool,
    pub keepalive: bool,
    pub upgrade: bool,
}

impl View for Parsed {
    type V = ParsedV;

    open spec fn view(&self) -> ParsedV {
        ParsedV {
            method: self.method,
            path: self.path@,
            query: self.query@,
            headers: self.headers@.map_values(|h: (String, String)| (h.0@, h.1@)),
            header_end: self.header_end as int,
            wire_end: self.wire_end as int,
            content_length: self.content_length as int,
            chunked: self.chunked,
            keepalive: self.keepalive,
            upgrade: self.upgrade,
        }
    }
}

/// What framing comes to.
pub enum RequestV {
    Bad,
    Partial,
    Complete(ParsedV),
}

/// The header fields with their values as text.
pub open spec fn text_pairs(hs: Seq<(Seq<char>, Seq<u8>)>) -> Seq<(Seq<char>, Seq<char>)> {
    hs.map_values(|h: (Seq<char>, Seq<u8>)| (h.0, decode_utf8(h.1)))
}

/// Framing after the head parser: a known method and an accepted
/// target; the header fields folded; Content-Length with
/// Transfer-Encoding refused; Host required from HTTP/1.1 on and, with
/// an absolute-form target, naming the same host (ports aside, ASCII
/// case-insensitive); an identity body ends `Content-Length` bytes past
/// the head (a sum past `usize::MAX` is refused), a chunked one where
/// `chunked_spec` says.
pub open spec fn request_from_head(buf: Seq<u8>, h: HeadStatusV) -> RequestV {
    match h {
        HeadStatusV::Invalid => RequestV::Bad,
        HeadStatusV::Partial => RequestV::Partial,
        HeadStatusV::Complete(hd) => {
            let v = match hd.version {
                Some(v) => v,
                None => 0u8,
            };
            let init = HdrState { cl: 0, saw_cl: false, saw_te: false, keepalive: v >= 1, upgrade: false, host: None };
            if hd.method is None || hd.target is None {
                RequestV::Bad
            } else {
                match method_of_bytes(encode_utf8(hd.method->0)) {
                    None => RequestV::Bad,
                    Some(m) => match target_spec(m, hd.target->0) {
                        None => RequestV::Bad,
                        Some((p, q, uh)) => match headers_fold(hd.headers, init) {
                            None => RequestV::Bad,
                            Some(st) => if st.saw_cl && st.saw_te {
                                RequestV::Bad
                            } else if v >= 1 && st.host is None {
                                RequestV::Bad
                            } else if uh is Some && st.host is Some && !eq_ic_c(
                                host_part(uh->0),
                                host_part(trim(st.host->0)),
                            ) {
                                RequestV::Bad
                            } else if !st.saw_te {
                                if hd.len + st.cl > usize::MAX {
                                    RequestV::Bad
                                } else {
                                    RequestV::Complete(
                                        ParsedV {
                                            method: m,
                                            path: p,
                                            query: q,
                                            headers: text_pairs(hd.headers),
                                            header_end: hd.len,
                                            wire_end: hd.len + st.cl,
                                            content_length: st.cl,
                                            chunked: false,
                                            keepalive: st.keepalive,
                                            upgrade: st.upgrade,
                                        },
                                    )
                                }
                            } else {
                                match chunked_spec(buf.skip(hd.len)) {
                                    Err(_) => RequestV::Bad,
                                    Ok(None) => RequestV::Partial,
                                    Ok(Some((d, w))) => RequestV::Complete(
                                        ParsedV {
                                            method: m,
                                            path: p,
                                            query: q,
                                            headers: text_pairs(hd.headers),
                                            header_end: hd.len,
                                            wire_end: hd.len + w,
                                            content_length: d,
                                            chunked: true,
                                            keepalive: st.keepalive,
                                            upgrade: st.upgrade,
                                        },
                                    ),
                                }
                            },
                        },
                    },
                }
            }
        },
    }
}

/// Frame a request from what the head parser reported for `buf`.
pub fn finish_request(buf: &[u8], head: HeadStatus) -> (r: Result<ParseStatus, ServeError>)
    requires
        head matches HeadStatus::Complete(h) ==> h.len <= buf.len(),
    ensures
        match request_from_head(buf@, head@) {
            RequestV::Bad => r matches Err(ServeError::Parse),
            RequestV::Partial => r matches Ok(ParseStatus::Partial),
            RequestV::Complete(pv) => r matches Ok(ParseStatus::Complete(p)) && p@ == pv,
        },
{
    let hd = match head {
        HeadStatus::Invalid => {
            return Err(ServeError::Parse);
        },
        HeadStatus::Partial => {
            return Ok(ParseStatus::Partial);
        },
        HeadStatus::Complete(hd) => hd,
    };
    let ghost hv = hd@;
    let ms = match &hd.method {
        None => {
            return Err(ServeError::Parse);
        },
        Some(m) => m,
    };
    let target = match &hd.target {
        None => {
            return Err(ServeError::Parse);
        },
        Some(t) => t,
    };
    let method = match Method::parse(ms.as_str()) {
        None => {
            return Err(ServeError::Parse);
        },
        Some(m) => m,
    };
    let tc = str_chars(target.as_str());
    let (path, query, uri_host) = match normalize_chars(method, tc.as_slice()) {
        None => {
            return Err(ServeError::Parse);
        },
        Some(x) => x,
    };
    let version: u8 = match hd.version {
        Some(v) => v,
        None => 0,
    };
    let ghost init = HdrState { cl: 0, saw_cl: false, saw_te: false, keepalive: version >= 1, upgrade: false, host: None };
    let mut st = Hdr { cl: 0, saw_cl: false, saw_te: false, keepalive: version >= 1, upgrade: false, host: None };
    let mut pairs: Vec<(String, String)> = Vec::new();
    let mut i: usize = 0;
    proof {
        assert(hv.headers.take(0) =~= Seq::<(Seq<char>, Seq<u8>)>::empty());
        assert(st@ == init);
    }
    while i < hd.headers.len()
        invariant
            hv == hd@,
            head@ == HeadStatusV::Complete(hv),
            hv.method is Some && hv.target is Some,
            method_of_bytes(encode_utf8(hv.method->0)) == Some(method),
            target_spec(method, hv.target->0) is Some,
            init == (HdrState { cl: 0, saw_cl: false, saw_te: false, keepalive: hv.version.unwrap_or(0u8) >= 1, upgrade: false, host: None }),
            i <= hd.headers.len(),
            headers_fold(hv.headers.take(i as int), init) == Some(st@),
            pairs@.map_values(|h: (String, String)| (h.0@, h.1@)) == text_pairs(hv.headers.take(i as int)),
        decreases hd.headers.len() - i,
    {
        let ghost before = st@;
        let ghost pv = pairs@.map_values(|h: (String, String)| (h.0@, h.1@));
        let (name, value) = &hd.headers[i];
        assert(hv.headers[i as int] == (name@, value@));
        assert(hv.headers.take(i + 1).drop_last() =~= hv.headers.take(i as int));
        assert(hv.headers.take(i + 1).last() == hv.headers[i as int]);
        match step_header(st, name.as_str(), value.as_slice()) {
            None => {
                proof {
                    lemma_fold_stays_refused(hv.headers, init, i + 1);
                }
                return Err(ServeError::Parse);
            },
            Some((next, text)) => {
                st = next;
                let nm = name.clone();
                pairs.push((nm, text));
                assert(text_pairs(hv.headers.take(i + 1)) =~= text_pairs(hv.headers.take(i as int)).push(
                    (name@, decode_utf8(value@)),
                ));
                assert(pairs@.map_values(|h: (String, String)| (h.0@, h.1@)) =~= text_pairs(hv.headers.take(i + 1)));
            },
        }
        i = i + 1;
    }
    proof {
        assert(hv.headers.take(hd.headers.len() as int) =~= hv.headers);
    }
    if st.saw_cl && st.saw_te {
        return Err(ServeError::Parse);
    }
    if version >= 1 && st.host.is_none() {
        return Err(ServeError::Parse);
    }
    match (&uri_host, &st.host) {
        (Some(uh), Some(hh)) => {
            let a = host_chars(uh.as_slice());
            let b = host_chars(trim_chars(hh.as_slice()).as_slice());
            if !chars_eq_ic(a.as_slice(), b.as_slice()) {
                return Err(ServeError::Parse);
            }
        },
        _ => {},
    }
    let n = hd.len;
    let p = chars_string(path.as_slice());
    let q = chars_string(query.as_slice());
    if !st.saw_te {
        if st.cl > usize::MAX - n {
            return Err(ServeError::Parse);
        }
        return Ok(
            ParseStatus::Complete(
                Parsed {
                    method,
                    path: p,
                    query: q,
                    headers: pairs,
                    header_end: n,
                    wire_end: n + st.cl,
                    content_length: st.cl,
                    chunked: false,
                    keepalive: st.keepalive,
                    upgrade: st.upgrade,
                },
            ),
        );
    }
    let body = vstd::slice::slice_subrange(buf, n, buf.len());
    assert(body@ =~= buf@.skip(n as int));
    match measure_chunked(body) {
        Err(e) => Err(e),
        Ok(None) => Ok(ParseStatus::Partial),
        Ok(Some((decoded, wire))) => Ok(
            ParseStatus::Complete(
                Parsed {
                    method,
                    path: p,
                    query: q,
                    headers: pairs,
                    header_end: n,
                    wire_end: n + wire,
                    content_length: decoded,
                    chunked: true,
                    keepalive: st.keepalive,
                    upgrade: st.upgrade,
                },
            ),
        ),
    }
}

/// Frame one HTTP/1.1 request at the start of `buf`: the header block is
/// checked first (`scan_spec`), then parsed, then framed
/// (`request_from_head`).
/// What framing the buffer comes to, header limit and all.
pub open spec fn request_spec(buf: Seq<u8>, max_header: usize) -> RequestV {
    match scan_spec(buf, max_header) {
        Err(_) => RequestV::Bad,
        Ok(None) => RequestV::Partial,
        Ok(Some(_)) => request_from_head(buf, httparse_head(buf, MAX_HEADERS)),
    }
}

pub fn parse_request(buf: &[u8], max_header: usize) -> (r: Result<ParseStatus, ServeError>)
    ensures
        match scan_spec(buf@, max_header) {
            Err(_) => r matches Err(ServeError::Parse),
            Ok(None) => r matches Ok(ParseStatus::Partial),
            Ok(Some(_)) => match request_from_head(buf@, httparse_head(buf@, MAX_HEADERS)) {
                RequestV::Bad => r matches Err(ServeError::Parse),
                RequestV::Partial => r matches Ok(ParseStatus::Partial),
                RequestV::Complete(pv) => r matches Ok(ParseStatus::Complete(p)) && p@ == pv,
            },
        },
{
    match scan_header_block(buf, max_header) {
        Err(e) => {
            return Err(e);
        },
        Ok(None) => {
            return Ok(ParseStatus::Partial);
        },
        Ok(Some(_)) => {},
    }
    let head = parse_head(buf, MAX_HEADERS);
    finish_request(buf, head)
}

/// A framed request, owned: method, path, query, headers, header end,
/// body length, keep-alive.
pub type OwnedReq = (Method, String, String, Vec<(String, String)>, usize, usize, bool);

/// As `parse_request`, with a request that is not complete refused.
pub fn parse_request_owned(buf: &[u8], max_header: usize) -> (r: Result<OwnedReq, ServeError>)
    ensures
        match scan_spec(buf@, max_header) {
            Err(_) => r matches Err(ServeError::Parse),
            Ok(None) => r matches Err(ServeError::Parse),
            Ok(Some(_)) => match request_from_head(buf@, httparse_head(buf@, MAX_HEADERS)) {
                RequestV::Complete(pv) => r matches Ok((m, p, q, hs, he, cl, ka)) && m == pv.method && p@ == pv.path
                    && q@ == pv.query && hs@.map_values(|h: (String, String)| (h.0@, h.1@)) == pv.headers
                    && he == pv.header_end && cl == pv.content_length && ka == pv.keepalive,
                _ => r matches Err(ServeError::Parse),
            },
        },
{
    match parse_request(buf, max_header) {
        Err(e) => Err(e),
        Ok(ParseStatus::Partial) => Err(ServeError::Parse),
        Ok(ParseStatus::Complete(p)) => Ok((p.method, p.path, p.query, p.headers, p.header_end, p.content_length, p.keepalive)),
    }
}

/// Once a header field is refused, so is every longer list.
proof fn lemma_fold_stays_refused(hs: Seq<(Seq<char>, Seq<u8>)>, init: HdrState, k: int)
    requires
        0 <= k <= hs.len(),
        headers_fold(hs.take(k), init) is None,
    ensures
        headers_fold(hs, init) is None,
    decreases hs.len() - k,
{
    if k < hs.len() {
        assert(hs.take(k + 1).drop_last() =~= hs.take(k));
        lemma_fold_stays_refused(hs, init, k + 1);
    } else {
        assert(hs.take(k) =~= hs);
    }
}

/// `u8::is_ascii_whitespace`: SP, TAB, LF, FF, CR.
pub open spec fn ascii_ws(b: u8) -> bool {
    b == 32u8 || b == 9u8 || b == 10u8 || b == 12u8 || b == 13u8
}

/// The first position at or after `i` that is not ASCII whitespace.
pub open spec fn skip_ws(s: Seq<u8>, i: int) -> int
    decreases s.len() - i,
{
    if 0 <= i < s.len() && ascii_ws(s[i]) {
        skip_ws(s, i + 1)
    } else {
        i
    }
}

fn skip_ws_exec(s: &[u8]) -> (r: usize)
    ensures
        r == skip_ws(s@, 0),
        r <= s.len(),
{
    let mut i: usize = 0;
    while i < s.len() && (s[i] == 32u8 || s[i] == 9u8 || s[i] == 10u8 || s[i] == 12u8 || s[i] == 13u8)
        invariant
            i <= s.len(),
            skip_ws(s@, 0) == skip_ws(s@, i as int),
        decreases s.len() - i,
    {
        i = i + 1;
    }
    i
}

/// Outcome of the JSON scan.
pub enum JsonScan {
    Good,
    Invalid,
    TooDeep,
}

/// The scan from position `i`: strings (with escapes) are skipped,
/// `{`/`[` open a level (more than `max` levels is too deep), `}`/`]`
/// close one (none open is invalid); at the end no string or level may
/// be open.
pub open spec fn json_from(s: Seq<u8>, i: int, depth: int, in_str: bool, esc: bool, max: u32) -> JsonScan
    decreases s.len() - i,
{
    if i < 0 || i >= s.len() {
        if in_str || depth != 0 {
            JsonScan::Invalid
        } else {
            JsonScan::Good
        }
    } else {
        let b = s[i];
        if in_str {
            if esc {
                json_from(s, i + 1, depth, true, false, max)
            } else if b == 92u8 {
                json_from(s, i + 1, depth, true, true, max)
            } else if b == 34u8 {
                json_from(s, i + 1, depth, false, false, max)
            } else {
                json_from(s, i + 1, depth, true, false, max)
            }
        } else if b == 34u8 {
            json_from(s, i + 1, depth, true, false, max)
        } else if b == 123u8 || b == 91u8 {
            if depth + 1 > u32::MAX || depth + 1 > max {
                JsonScan::TooDeep
            } else {
                json_from(s, i + 1, depth + 1, false, false, max)
            }
        } else if b == 125u8 || b == 93u8 {
            if depth == 0 {
                JsonScan::Invalid
            } else {
                json_from(s, i + 1, depth - 1, false, false, max)
            }
        } else {
            json_from(s, i + 1, depth, false, false, max)
        }
    }
}

/// A body must open with `{` or `[` after optional whitespace, then scan as above.
pub open spec fn json_scan(s: Seq<u8>, max: u32) -> JsonScan {
    let i = skip_ws(s, 0);
    if i >= s.len() || !(s[i] == 123u8 || s[i] == 91u8) {
        JsonScan::Invalid
    } else {
        json_from(s, i, 0, false, false, max)
    }
}

/// Depth-limited JSON scan: O(n) time, O(1) space.
pub fn scan_json(body: &[u8], max_depth: u32) -> (r: Result<(), ServeError>)
    ensures
        match json_scan(body@, max_depth) {
            JsonScan::Good => r is Ok,
            JsonScan::Invalid => r matches Err(ServeError::JsonInvalid),
            JsonScan::TooDeep => r matches Err(ServeError::JsonDepth),
        },
{
    let mut i = skip_ws_exec(body);
    if i >= body.len() {
        return Err(ServeError::JsonInvalid);
    }
    let first = body[i];
    if first != 123u8 && first != 91u8 {
        return Err(ServeError::JsonInvalid);
    }
    let mut depth: u32 = 0;
    let mut in_str = false;
    let mut esc = false;
    while i < body.len()
        invariant
            i <= body.len(),
            json_scan(body@, max_depth) == json_from(body@, i as int, depth as int, in_str, esc, max_depth),
        decreases body.len() - i,
    {
        let b = body[i];
        if in_str {
            if esc {
                esc = false;
            } else if b == 92u8 {
                esc = true;
            } else if b == 34u8 {
                in_str = false;
            }
            i = i + 1;
        } else {
            if b == 34u8 {
                in_str = true;
            } else if b == 123u8 || b == 91u8 {
                depth = match depth.checked_add(1) {
                    None => {
                        return Err(ServeError::JsonDepth);
                    },
                    Some(d) => d,
                };
                if depth > max_depth {
                    return Err(ServeError::JsonDepth);
                }
            } else if b == 125u8 || b == 93u8 {
                if depth == 0 {
                    return Err(ServeError::JsonInvalid);
                }
                depth = depth - 1;
            }
            esc = false;
            i = i + 1;
        }
    }
    if in_str || depth != 0 {
        return Err(ServeError::JsonInvalid);
    }
    Ok(())
}

/// After optional whitespace, the body opens with `{` or `[`.
pub fn looks_like_json(body: &[u8]) -> (r: bool)
    ensures
        r == (skip_ws(body@, 0) < body.len() && (body@[skip_ws(body@, 0)] == 123u8 || body@[skip_ws(body@, 0)] == 91u8)),
{
    let i = skip_ws_exec(body);
    i < body.len() && (body[i] == 123u8 || body[i] == 91u8)
}

/// Two names that are the same letters up to ASCII case: at each place
/// the same char, or an upper-case ASCII letter against its lower case.
pub open spec fn ascii_recasing(a: Seq<char>, b: Seq<char>) -> bool {
    &&& a.len() == b.len()
    &&& forall|i: int|
        0 <= i < a.len() ==> {
            let x = #[trigger] a[i] as u32;
            let y = b[i] as u32;
            x == y || (65 <= x <= 90 && y == x + 32) || (65 <= y <= 90 && x == y + 32)
        }
}

/// Names that are one ASCII casing of each other compare equal
/// case-insensitively.
pub proof fn law_recasing_compares_equal(a: Seq<char>, b: Seq<char>)
    requires
        ascii_recasing(a, b),
    ensures
        eq_ic_c(a, b),
{
    assert forall|i: int| 0 <= i < a.len() implies lower_c(#[trigger] a[i]) == lower_c(b[i]) by {
        let x = a[i] as u32;
        let y = b[i] as u32;
        assert(x == y || (65 <= x <= 90 && y == x + 32) || (65 <= y <= 90 && x == y + 32));
    }
}

/// Two field names that are one ASCII casing of each other agree on
/// which names they match case-insensitively.
proof fn lemma_eq_ic_same_class(a: Seq<char>, b: Seq<char>, x: Seq<char>)
    requires
        eq_ic_c(a, b),
    ensures
        eq_ic_c(a, x) == eq_ic_c(b, x),
{
    if eq_ic_c(a, x) {
        assert forall|i: int| 0 <= i < b.len() implies lower_c(#[trigger] b[i]) == lower_c(x[i]) by {
            assert(lower_c(a[i]) == lower_c(b[i]));
        }
    }
    if eq_ic_c(b, x) {
        assert forall|i: int| 0 <= i < a.len() implies lower_c(#[trigger] a[i]) == lower_c(x[i]) by {
            assert(lower_c(a[i]) == lower_c(b[i]));
        }
    }
}

/// Law: header field names are matched ASCII case-insensitively: one
/// field under two casings of its name has the same effect.
pub proof fn law_header_name_case(st: HdrState, n1: Seq<char>, n2: Seq<char>, value: Seq<u8>)
    requires
        ascii_recasing(n1, n2),
    ensures
        header_step(st, n1, value) == header_step(st, n2, value),
{
    law_recasing_compares_equal(n1, n2);
    lemma_eq_ic_same_class(n1, n2, "content-length"@);
    lemma_eq_ic_same_class(n1, n2, "transfer-encoding"@);
    lemma_eq_ic_same_class(n1, n2, "connection"@);
    lemma_eq_ic_same_class(n1, n2, "upgrade"@);
    lemma_eq_ic_same_class(n1, n2, "host"@);
}

/// Two header lists that differ only in the casing of their field names.
pub open spec fn recased(a: Seq<(Seq<char>, Seq<u8>)>, b: Seq<(Seq<char>, Seq<u8>)>) -> bool {
    &&& a.len() == b.len()
    &&& forall|i: int| 0 <= i < a.len() ==> ascii_recasing(#[trigger] a[i].0, b[i].0) && a[i].1 == b[i].1
}

/// Law: recasing field names leaves the fold of the header fields as it was.
pub proof fn law_headers_fold_case(a: Seq<(Seq<char>, Seq<u8>)>, b: Seq<(Seq<char>, Seq<u8>)>, st: HdrState)
    requires
        recased(a, b),
    ensures
        headers_fold(a, st) == headers_fold(b, st),
    decreases a.len(),
{
    if a.len() > 0 {
        let n = a.len() - 1;
        assert(recased(a.drop_last(), b.drop_last())) by {
            assert forall|i: int| 0 <= i < a.drop_last().len() implies ascii_recasing(
                #[trigger] a.drop_last()[i].0,
                b.drop_last()[i].0,
            ) && a.drop_last()[i].1 == b.drop_last()[i].1 by {
                assert(ascii_recasing(a[i].0, b[i].0));
            }
        }
        law_headers_fold_case(a.drop_last(), b.drop_last(), st);
        assert(ascii_recasing(a[n].0, b[n].0));
        match headers_fold(a.drop_last(), st) {
            None => {},
            Some(s) => {
                law_header_name_case(s, a.last().0, b.last().0, a.last().1);
            },
        }
    }
}

/// A framing outcome with the header list itself set aside.
pub open spec fn framing_only(r: RequestV) -> RequestV {
    match r {
        RequestV::Complete(p) => RequestV::Complete(ParsedV { headers: Seq::empty(), ..p }),
        other => other,
    }
}

/// Law: recasing any header field name of a head changes nothing in
/// how the request is framed (the reported header list keeps the names
/// as written): refused, partial and complete alike, with the same
/// method, target, body, keep-alive and upgrade.
pub proof fn law_request_header_case(buf: Seq<u8>, h1: HeadV, h2: HeadV)
    requires
        h1.len == h2.len,
        h1.method == h2.method,
        h1.target == h2.target,
        h1.version == h2.version,
        recased(h1.headers, h2.headers),
    ensures
        framing_only(request_from_head(buf, HeadStatusV::Complete(h1))) == framing_only(
            request_from_head(buf, HeadStatusV::Complete(h2)),
        ),
{
    let v = match h1.version {
        Some(v) => v,
        None => 0u8,
    };
    let init = HdrState { cl: 0, saw_cl: false, saw_te: false, keepalive: v >= 1, upgrade: false, host: None };
    law_headers_fold_case(h1.headers, h2.headers, init);
}

/// Law: a Host field under any ASCII casing of its name is the Host
/// field: on a state with no Host yet, it records its value as the host
/// and changes nothing else.
pub proof fn law_host_any_case(st: HdrState, name: Seq<char>, value: Seq<u8>)
    requires
        ascii_recasing(name, "host"@),
        valid_utf8(value),
        st.host is None,
    ensures
        header_step(st, name, value) == Some(HdrState { host: Some(decode_utf8(value)), ..st }),
{
    law_recasing_compares_equal(name, "host"@);
    reveal_strlit("host");
    reveal_strlit("content-length");
    reveal_strlit("transfer-encoding");
    reveal_strlit("connection");
    reveal_strlit("upgrade");
}

/// Law: an HTTP/1.1 head with a known method, an origin-form target and
/// one header field, named `host` in any ASCII casing, frames as a
/// complete request for that method and path, kept alive, with no body.
pub proof fn law_http11_host_any_case_completes(buf: Seq<u8>, hd: HeadV, m: Method, p: Seq<char>, q: Seq<char>)
    requires
        hd.version == Some(1u8),
        0 <= hd.len <= usize::MAX,
        hd.method is Some,
        hd.target is Some,
        method_of_bytes(encode_utf8(hd.method->0)) == Some(m),
        target_spec(m, hd.target->0) == Some((p, q, None::<Seq<char>>)),
        hd.headers.len() == 1,
        ascii_recasing(hd.headers[0].0, "host"@),
        valid_utf8(hd.headers[0].1),
    ensures
        request_from_head(buf, HeadStatusV::Complete(hd)) matches RequestV::Complete(pv) && pv.method == m
            && pv.path == p && pv.query == q && pv.keepalive && !pv.chunked && pv.content_length == 0,
{
    let init = HdrState { cl: 0, saw_cl: false, saw_te: false, keepalive: true, upgrade: false, host: None };
    assert(hd.headers.drop_last() =~= Seq::<(Seq<char>, Seq<u8>)>::empty());
    law_host_any_case(init, hd.headers[0].0, hd.headers[0].1);
    assert(headers_fold(hd.headers.drop_last(), init) == Some(init));
    assert(hd.headers.last() == hd.headers[0]);
    assert(headers_fold(hd.headers, init) == header_step(init, hd.headers[0].0, hd.headers[0].1));
}

} // verus!
