//! Static files: byte ranges, safe relative paths, and the responses
//! built around them.
use vstd::prelude::*;
use vstd::string::StringSliceAdditionalSpecFns;
use crate::io::{HeaderView, Out, OutBody, CacheDirective, header_from};
use crate::num::{dec_chars, push_dec_chars, push_chars};
use crate::status::Status;
use crate::method::Method;
use crate::error::ServeError;
use crate::text::{
    char_from, find_char, str_chars, chars_string, parse_u64, parse_u64_chars, split_from, split_char,
};

verus! {

pub open spec fn starts_with_chars(s: Seq<char>, p: Seq<char>) -> bool {
    p.len() <= s.len() && s.take(p.len() as int) == p
}

pub open spec fn min_int(a: int, b: int) -> int {
    if a < b {
        a
    } else {
        b
    }
}

/// A `Range` header against an entity of `len` bytes: `Ok(None)` for no
/// header (the whole entity), `Ok(Some((offset, count)))` for one
/// satisfiable range (`bytes=a-b`, `bytes=a-`, or the suffix
/// `bytes=-n`), `Err` (416) for anything else.
pub open spec fn byte_range_spec(h: Option<Seq<char>>, len: u64) -> Result<Option<(int, int)>, ()> {
    match h {
        None => Ok(None),
        Some(s) => if !starts_with_chars(s, "bytes="@) {
            Err(())
        } else {
            let rest = s.skip("bytes="@.len() as int);
            if char_from(rest, ',', 0) is Some {
                Err(())
            } else if rest.len() > 0 && rest[0] == '-' {
                match parse_u64(rest.drop_first()) {
                    None => Err(()),
                    Some(n) => if n == 0 || len == 0 {
                        Err(())
                    } else {
                        let k = min_int(n, len as int);
                        Ok(Some((len - k, k)))
                    },
                }
            } else {
                match char_from(rest, '-', 0) {
                    None => Err(()),
                    Some(i) => match parse_u64(rest.take(i)) {
                        None => Err(()),
                        Some(start) => if start >= len {
                            Err(())
                        } else {
                            let b = rest.skip(i + 1);
                            let end = if b.len() == 0 {
                                Some(len - 1)
                            } else {
                                parse_u64(b)
                            };
                            match end {
                                None => Err(()),
                                Some(e) => if e < start {
                                    Err(())
                                } else {
                                    Ok(Some((start, min_int(e, len - 1) - start + 1)))
                                },
                            }
                        },
                    },
                }
            }
        },
    }
}

fn chars_start_with(s: &[char], p: &[char]) -> (r: bool)
    ensures
        r == starts_with_chars(s@, p@),
{
    if p.len() > s.len() {
        return false;
    }
    let mut i: usize = 0;
    while i < p.len()
        invariant
            p.len() <= s.len(),
            i <= p.len(),
            forall|k: int| 0 <= k < i ==> s@[k] == p@[k],
        decreases p.len() - i,
    {
        if s[i] != p[i] {
            assert(s@.take(p.len() as int)[i as int] != p@[i as int]);
            return false;
        }
        i = i + 1;
    }
    assert(s@.take(p.len() as int) =~= p@);
    true
}

pub fn parse_byte_range(h: Option<&str>, len: u64) -> (r: Result<Option<(u64, u64)>, ()>)
    ensures
        match byte_range_spec(
            match h {
                Some(s) => Some(s@),
                None => None,
            },
            len,
        ) {
            Err(_) => r is Err,
            Ok(None) => r matches Ok(None),
            Ok(Some((o, n))) => r matches Ok(Some((ro, rn))) && ro == o && rn == n,
        },
{
    let hs = match h {
        None => {
            return Ok(None);
        },
        Some(hs) => hs,
    };
    let s = str_chars(hs);
    let prefix = str_chars("bytes=");
    if !chars_start_with(s.as_slice(), prefix.as_slice()) {
        return Err(());
    }
    let rest = vstd::slice::slice_subrange(s.as_slice(), prefix.len(), s.len());
    assert(rest@ =~= s@.skip(prefix@.len() as int));
    if find_char(rest, ',', 0).is_some() {
        return Err(());
    }
    if rest.len() > 0 && rest[0] == '-' {
        let suf = vstd::slice::slice_subrange(rest, 1, rest.len());
        assert(suf@ =~= rest@.drop_first());
        let n = match parse_u64_chars(suf) {
            None => {
                return Err(());
            },
            Some(n) => n,
        };
        if n == 0 || len == 0 {
            return Err(());
        }
        let k = if n < len { n } else { len };
        return Ok(Some((len - k, k)));
    }
    let i = match find_char(rest, '-', 0) {
        None => {
            return Err(());
        },
        Some(i) => i,
    };
    let a = vstd::slice::slice_subrange(rest, 0, i);
    assert(a@ =~= rest@.take(i as int));
    let start = match parse_u64_chars(a) {
        None => {
            return Err(());
        },
        Some(v) => v,
    };
    if start >= len {
        return Err(());
    }
    let b = vstd::slice::slice_subrange(rest, i + 1, rest.len());
    assert(b@ =~= rest@.skip(i + 1));
    let end = if b.len() == 0 {
        len - 1
    } else {
        match parse_u64_chars(b) {
            None => {
                return Err(());
            },
            Some(v) => v,
        }
    };
    if end < start {
        return Err(());
    }
    let e = if end < len - 1 { end } else { len - 1 };
    Ok(Some((start, e - start + 1)))
}

/// The components of a relative path, as `Path::components` yields
/// them on Unix, when it is safe to join under a root: no NUL, not
/// absolute, no `..`; empty and `.` components dropped.
pub open spec fn safe_components_spec(rel: Seq<char>) -> Option<Seq<Seq<char>>> {
    let parts = split_from(rel, '/', 0).filter(|p: Seq<char>| p.len() > 0 && p != "."@);
    if char_from(rel, '\0', 0) is Some {
        None
    } else if rel.len() > 0 && rel[0] == '/' {
        None
    } else if parts.contains(".."@) {
        None
    } else {
        Some(parts)
    }
}

pub fn safe_components(rel: &str) -> (r: Option<Vec<String>>)
    ensures
        match safe_components_spec(rel@) {
            None => r is None,
            Some(ps) => r matches Some(v) && v@.map_values(|x: String| x@) == ps,
        },
{
    let c = str_chars(rel);
    if find_char(c.as_slice(), '\0', 0).is_some() {
        return None;
    }
    if c.len() > 0 && c[0] == '/' {
        return None;
    }
    let parts = split_char(c.as_slice(), '/');
    let ghost pv = parts@.map_values(|x: Vec<char>| x@);
    let ghost filt = |p: Seq<char>| p.len() > 0 && p != "."@;
    let dot = str_chars(".");
    let dotdot = str_chars("..");
    let mut out: Vec<String> = Vec::new();
    let mut k: usize = 0;
    while k < parts.len()
        invariant
            k <= parts.len(),
            pv == parts@.map_values(|x: Vec<char>| x@),
            pv == split_from(c@, '/', 0),
            c@ == rel@,
            dot@ == "."@,
            dotdot@ == ".."@,
            filt == (|p: Seq<char>| p.len() > 0 && p != "."@),
            out@.map_values(|x: String| x@) == pv.take(k as int).filter(filt),
            !pv.take(k as int).filter(filt).contains(".."@),
        decreases parts.len() - k,
    {
        let p = &parts[k];
        assert(pv.take(k + 1) =~= pv.take(k as int).push(p@));
        proof {
            pv.take(k as int).lemma_filter_push(p@, filt);
        }
        if p.len() > 0 && !chars_eq(p.as_slice(), dot.as_slice()) {
            if chars_eq(p.as_slice(), dotdot.as_slice()) {
                proof {
                    assert(pv.take(k + 1).filter(filt).last() == ".."@);
                    lemma_filter_prefix_contains(pv, filt, k + 1, ".."@);
                }
                return None;
            }
            let s = chars_string(p.as_slice());
            out.push(s);
            assert(out@.map_values(|x: String| x@) =~= pv.take(k + 1).filter(filt));
        } else {
            assert(out@.map_values(|x: String| x@) =~= pv.take(k + 1).filter(filt));
        }
        k = k + 1;
    }
    assert(pv.take(parts.len() as int) =~= pv);
    Some(out)
}

fn chars_eq(a: &[char], b: &[char]) -> (r: bool)
    ensures
        r == (a@ == b@),
{
    if a.len() != b.len() {
        return false;
    }
    let mut i: usize = 0;
    while i < a.len()
        invariant
            a.len() == b.len(),
            i <= a.len(),
            forall|k: int| 0 <= k < i ==> a@[k] == b@[k],
        decreases a.len() - i,
    {
        if a[i] != b[i] {
            return false;
        }
        i = i + 1;
    }
    assert(a@ =~= b@);
    true
}

/// An element of a prefix's filtered part lies in the whole's filtered part.
proof fn lemma_filter_prefix_contains(s: Seq<Seq<char>>, f: spec_fn(Seq<char>) -> bool, k: int, x: Seq<char>)
    requires
        0 <= k <= s.len(),
        s.take(k).filter(f).contains(x),
    ensures
        s.filter(f).contains(x),
{
    s.take(k).lemma_filter_contains_rev(f, x);
    let i = choose|i: int| 0 <= i < s.take(k).len() && s.take(k)[i] == x;
    assert(s[i] == x);
    s.lemma_filter_contains(f, i);
}

/// The header pairs of a response, by their text.
pub open spec fn pairs_view(hs: Seq<(String, String)>) -> Seq<(Seq<char>, Seq<char>)> {
    hs.map_values(|h: (String, String)| (h.0@, h.1@))
}

/// `bytes a-b/len`.
pub open spec fn content_range(off: int, n: int, len: int) -> Seq<char> {
    "bytes "@ + dec_chars(off as nat) + "-"@ + dec_chars((off + n - 1) as nat) + "/"@ + dec_chars(len as nat)
}

/// `"len"`: the entity tag of an entity of that length.
pub open spec fn etag(len: int) -> Seq<char> {
    "\""@ + dec_chars(len as nat) + "\""@
}

fn content_range_string(off: u64, n: u64, len: u64) -> (r: String)
    requires
        n >= 1,
        off + n - 1 <= u64::MAX,
    ensures
        r@ == content_range(off as int, n as int, len as int),
{
    let mut v: Vec<char> = Vec::new();
    push_chars(&mut v, str_chars("bytes ").as_slice());
    push_dec_chars(&mut v, off);
    push_chars(&mut v, str_chars("-").as_slice());
    push_dec_chars(&mut v, off + (n - 1));
    push_chars(&mut v, str_chars("/").as_slice());
    push_dec_chars(&mut v, len);
    chars_string(v.as_slice())
}

/// A static response: content type, byte ranges accepted, the entity
/// length as tag, then the extra headers; cached for `ttl` ms.
pub fn static_out(status: Status, ct: &str, ttl: u32, entity_len: u64, extra: Vec<(String, String)>, body: OutBody) -> (r: Out)
    ensures
        r.status == status,
        r.reason is None,
        pairs_view(r.headers@) == seq![("Content-Type"@, ct@), ("Accept-Ranges"@, "bytes"@), ("ETag"@, etag(entity_len as int))]
            + pairs_view(extra@),
        r.body == body,
        r.cache == (CacheDirective::Global { ttl_ms: ttl }),
{
    let mut tag: Vec<char> = Vec::new();
    push_chars(&mut tag, str_chars("\"").as_slice());
    push_dec_chars(&mut tag, entity_len);
    push_chars(&mut tag, str_chars("\"").as_slice());
    let mut headers: Vec<(String, String)> = Vec::new();
    headers.push(("Content-Type".to_string(), ct.to_string()));
    headers.push(("Accept-Ranges".to_string(), "bytes".to_string()));
    headers.push(("ETag".to_string(), chars_string(tag.as_slice())));
    let ghost first = pairs_view(headers@);
    let mut i: usize = 0;
    while i < extra.len()
        invariant
            i <= extra.len(),
            pairs_view(headers@) == first + pairs_view(extra@.take(i as int)),
        decreases extra.len() - i,
    {
        let (k, v) = &extra[i];
        let ghost before = headers@;
        let kc = k.clone();
        let vc = v.clone();
        headers.push((kc, vc));
        assert(extra@.take(i + 1) =~= extra@.take(i as int).push(extra@[i as int]));
        assert(pairs_view(headers@) =~= pairs_view(before).push((k@, v@)));
        assert(pairs_view(headers@) =~= first + pairs_view(extra@.take(i + 1)));
        i = i + 1;
    }
    assert(extra@.take(extra.len() as int) =~= extra@);
    assert(pairs_view(headers@) =~= seq![("Content-Type"@, ct@), ("Accept-Ranges"@, "bytes"@), ("ETag"@, etag(entity_len as int))]
        + pairs_view(extra@));
    Out { status, reason: None, headers, body, cache: CacheDirective::Global { ttl_ms: ttl } }
}

/// 416 with `Content-Range: bytes */len`.
pub fn range_not_satisfiable(ct: &str, len: u64) -> (r: Out)
    ensures
        r.status@ == 416,
        r.reason is None,
        pairs_view(r.headers@) == seq![("Content-Type"@, ct@), ("Content-Range"@, "bytes */"@ + dec_chars(len as nat))],
        r.body == OutBody::Empty,
        r.cache == CacheDirective::No,
{
    let mut v: Vec<char> = Vec::new();
    push_chars(&mut v, str_chars("bytes */").as_slice());
    push_dec_chars(&mut v, len);
    let mut headers: Vec<(String, String)> = Vec::new();
    headers.push(("Content-Type".to_string(), ct.to_string()));
    headers.push(("Content-Range".to_string(), chars_string(v.as_slice())));
    assert(pairs_view(headers@) =~= seq![("Content-Type"@, ct@), ("Content-Range"@, "bytes */"@ + dec_chars(len as nat))]);
    Out { status: Status::from_u16(416), reason: None, headers, body: OutBody::Empty, cache: CacheDirective::No }
}

/// The `Range` header's text, if any.
pub open spec fn range_header(h: HeaderView) -> Option<Seq<char>> {
    match header_from(h.pairs@, "range".spec_bytes(), 0) {
        Some(i) => Some(h.pairs@[i].1@),
        None => None,
    }
}

/// An in-memory entity under the request's `Range`: 200 with all of it,
/// 206 with the range and its `Content-Range`, or 416.
pub fn ranged_bytes(headers: &HeaderView, ct: &str, ttl: u32, b: Vec<u8>) -> (r: Out)
    ensures
        match byte_range_spec(range_header(*headers), b@.len() as u64) {
            Ok(None) => r.status@ == 200 && r.body == OutBody::Raw(b) && pairs_view(r.headers@) == seq![
                ("Content-Type"@, ct@),
                ("Accept-Ranges"@, "bytes"@),
                ("ETag"@, etag(b@.len() as int)),
            ],
            Ok(Some((o, n))) => (r.body matches OutBody::Raw(part) && part@ == b@.subrange(o, o + n)) && r.status@ == 206
                && pairs_view(r.headers@) == seq![
                ("Content-Type"@, ct@),
                ("Accept-Ranges"@, "bytes"@),
                ("ETag"@, etag(b@.len() as int)),
                ("Content-Range"@, content_range(o, n, b@.len() as int)),
            ],
            Err(_) => r.status@ == 416 && r.body == OutBody::Empty,
        },
{
    let len = b.len() as u64;
    match parse_byte_range(headers.get("range"), len) {
        Ok(None) => {
            let out = static_out(Status::from_u16(200), ct, ttl, len, Vec::new(), OutBody::Raw(b));
            assert(pairs_view(Seq::<(String, String)>::empty()) =~= Seq::empty());
            out
        },
        Ok(Some((off, n))) => {
            let s = off as usize;
            let e = s + n as usize;
            let part = vstd::slice::slice_to_vec(vstd::slice::slice_subrange(b.as_slice(), s, e));
            let mut extra: Vec<(String, String)> = Vec::new();
            extra.push(("Content-Range".to_string(), content_range_string(off, n, len)));
            static_out(Status::from_u16(206), ct, ttl, len, extra, OutBody::Raw(part))
        },
        Err(()) => range_not_satisfiable(ct, len),
    }
}

/// A file entity of `len` bytes under the request's `Range`: 200 with
/// all of it, 206 with the range and its `Content-Range`, or 416.
pub fn ranged_file(headers: &HeaderView, ct: &str, ttl: u32, len: u64) -> (r: Out)
    ensures
        match byte_range_spec(range_header(*headers), len) {
            Ok(None) => r.status@ == 200 && r.body == (OutBody::File { offset: 0, len }) && pairs_view(r.headers@) == seq![
                ("Content-Type"@, ct@),
                ("Accept-Ranges"@, "bytes"@),
                ("ETag"@, etag(len as int)),
            ],
            Ok(Some((o, n))) => r.status@ == 206 && r.body == (OutBody::File { offset: o as u64, len: n as u64 })
                && pairs_view(r.headers@) == seq![
                ("Content-Type"@, ct@),
                ("Accept-Ranges"@, "bytes"@),
                ("ETag"@, etag(len as int)),
                ("Content-Range"@, content_range(o, n, len as int)),
            ],
            Err(_) => r.status@ == 416 && r.body == OutBody::Empty,
        },
{
    match parse_byte_range(headers.get("range"), len) {
        Ok(None) => {
            let out = static_out(Status::from_u16(200), ct, ttl, len, Vec::new(), OutBody::File { offset: 0, len });
            assert(pairs_view(Seq::<(String, String)>::empty()) =~= Seq::empty());
            out
        },
        Ok(Some((off, n))) => {
            let mut extra: Vec<(String, String)> = Vec::new();
            extra.push(("Content-Range".to_string(), content_range_string(off, n, len)));
            static_out(Status::from_u16(206), ct, ttl, len, extra, OutBody::File { offset: off, len: n })
        },
        Err(()) => range_not_satisfiable(ct, len),
    }
}

/// Law: a satisfiable range lies within the entity and is not empty.
pub proof fn law_range_within_entity(h: Option<Seq<char>>, len: u64)
    ensures
        byte_range_spec(h, len) matches Ok(Some((o, n))) ==> 0 <= o && 1 <= n && o + n <= len,
{
    if h is Some {
        let s = h->0;
        let rest = s.skip("bytes="@.len() as int);
        if rest.len() > 0 && rest[0] == '-' {
        } else {
            match char_from(rest, '-', 0) {
                Some(i) => {
                    crate::text::lemma_char_from(rest, '-', 0);
                    if let Some(start) = parse_u64(rest.take(i)) {
                        lemma_parse_nonneg(rest.take(i));
                        if rest.skip(i + 1).len() != 0 {
                            lemma_parse_nonneg(rest.skip(i + 1));
                        }
                    }
                },
                None => {},
            }
        }
        if rest.len() > 0 {
            lemma_parse_nonneg(rest.drop_first());
        }
    }
}

proof fn lemma_parse_nonneg(s: Seq<char>)
    ensures
        parse_u64(s) matches Some(n) ==> n >= 0,
{
    if crate::text::all_digits(crate::text::unsigned_digits(s)) {
        crate::text::lemma_dec_nonneg(crate::text::unsigned_digits(s));
    }
}

/// The path with every leading `/` removed (`trim_start_matches('/')`).
pub open spec fn strip_slashes(p: Seq<char>) -> Seq<char>
    decreases p.len(),
{
    if p.len() > 0 && p[0] == '/' {
        strip_slashes(p.skip(1))
    } else {
        p
    }
}

/// The file a static request names, relative to the root: `/` is
/// `index.html`; only GET and HEAD are served.
pub open spec fn static_rel_spec(m: Method, path: Seq<char>) -> Option<Seq<char>> {
    if m != Method::Get && m != Method::Head {
        None
    } else if path == "/"@ {
        Some("index.html"@)
    } else {
        Some(strip_slashes(path))
    }
}

pub fn static_rel(method: Method, path: &str) -> (r: Result<String, ServeError>)
    ensures
        match static_rel_spec(method, path@) {
            None => r matches Err(ServeError::Parse),
            Some(rel) => r matches Ok(x) && x@ == rel,
        },
{
    match method {
        Method::Get | Method::Head => {},
        _ => return Err(ServeError::Parse),
    }
    let c = str_chars(path);
    proof {
        reveal_strlit("/");
    }
    if c.len() == 1 && c[0] == '/' {
        assert(path@ =~= "/"@);
        return Ok("index.html".to_string());
    }
    let mut i: usize = 0;
    assert(c@.skip(0) =~= c@);
    while i < c.len() && c[i] == '/'
        invariant
            i <= c.len(),
            strip_slashes(c@) == strip_slashes(c@.skip(i as int)),
        decreases c.len() - i,
    {
        assert(c@.skip(i as int).skip(1) =~= c@.skip(i + 1));
        i = i + 1;
    }
    assert(path@ != "/"@ ==> !(c@ =~= "/"@));
    let rest = vstd::slice::slice_subrange(c.as_slice(), i, c.len());
    assert(rest@ =~= c@.skip(i as int));
    Ok(chars_string(rest))
}

/// How long a static response may be cached: HTML briefly (5 s), the
/// rest for a minute.
pub open spec fn static_ttl_spec(ct: Seq<char>) -> u32 {
    if starts_with_chars(ct, "text/html"@) {
        5_000
    } else {
        60_000
    }
}

pub fn static_ttl(ct: &str) -> (r: u32)
    ensures
        r == static_ttl_spec(ct@),
{
    let c = str_chars(ct);
    let p = str_chars("text/html");
    if c.len() < p.len() {
        return 60_000;
    }
    let mut i: usize = 0;
    while i < p.len()
        invariant
            p@ == "text/html"@,
            c@ == ct@,
            p.len() <= c.len(),
            i <= p.len(),
            forall|k: int| 0 <= k < i ==> c@[k] == p@[k],
        decreases p.len() - i,
    {
        if c[i] != p[i] {
            assert(c@.take(p.len() as int)[i as int] != p@[i as int]);
            return 60_000;
        }
        i = i + 1;
    }
    assert(c@.take(p.len() as int) =~= p@);
    5_000
}

} // verus!
