//! File extension to MIME type; an unknown extension is
//! `application/octet-stream`.
use vstd::prelude::*;
use vstd::string::StringSliceAdditionalSpecFns;
use crate::bytes::{lower, bytes_eq};

verus! {

/// The position of the last `c` before position `i`.
pub open spec fn last_before(s: Seq<u8>, c: u8, i: int) -> Option<int>
    decreases i,
{
    if i <= 0 || i > s.len() {
        None
    } else if s[i - 1] == c {
        Some(i - 1)
    } else {
        last_before(s, c, i - 1)
    }
}

fn find_last(s: &[u8], c: u8) -> (r: Option<usize>)
    ensures
        match last_before(s@, c, s@.len() as int) {
            Some(j) => r == Some(j as usize) && 0 <= j < s.len(),
            None => r is None,
        },
{
    let mut i = s.len();
    while i > 0
        invariant
            i <= s.len(),
            last_before(s@, c, s@.len() as int) == last_before(s@, c, i as int),
        decreases i,
    {
        if s[i - 1] == c {
            return Some(i - 1);
        }
        i = i - 1;
    }
    None
}

/// The last segment of a path: what follows its last `/`.
pub open spec fn last_segment(p: Seq<u8>) -> Seq<u8> {
    match last_before(p, 47u8, p.len() as int) {
        Some(i) => p.skip(i + 1),
        None => p,
    }
}

/// The extension of a segment: what follows its last `.`, if any.
pub open spec fn extension(seg: Seq<u8>) -> Option<Seq<u8>> {
    match last_before(seg, 46u8, seg.len() as int) {
        Some(i) => Some(seg.skip(i + 1)),
        None => None,
    }
}

/// The MIME type of a lower-case extension.
#[verifier::opaque]
pub open spec fn mime_for_ext(e: Seq<u8>) -> Seq<char> {
    if e == "html".spec_bytes() || e == "htm".spec_bytes() {
        "text/html; charset=utf-8"@
    } else if e == "css".spec_bytes() {
        "text/css; charset=utf-8"@
    } else if e == "js".spec_bytes() || e == "mjs".spec_bytes() {
        "text/javascript; charset=utf-8"@
    } else if e == "json".spec_bytes() || e == "map".spec_bytes() {
        "application/json"@
    } else if e == "txt".spec_bytes() {
        "text/plain; charset=utf-8"@
    } else if e == "md".spec_bytes() {
        "text/markdown; charset=utf-8"@
    } else if e == "xml".spec_bytes() {
        "application/xml"@
    } else if e == "csv".spec_bytes() {
        "text/csv; charset=utf-8"@
    } else if e == "png".spec_bytes() {
        "image/png"@
    } else if e == "jpg".spec_bytes() || e == "jpeg".spec_bytes() {
        "image/jpeg"@
    } else if e == "gif".spec_bytes() {
        "image/gif"@
    } else if e == "svg".spec_bytes() {
        "image/svg+xml"@
    } else if e == "webp".spec_bytes() {
        "image/webp"@
    } else if e == "ico".spec_bytes() {
        "image/x-icon"@
    } else if e == "bmp".spec_bytes() {
        "image/bmp"@
    } else if e == "avif".spec_bytes() {
        "image/avif"@
    } else if e == "mp3".spec_bytes() {
        "audio/mpeg"@
    } else if e == "wav".spec_bytes() {
        "audio/wav"@
    } else if e == "ogg".spec_bytes() {
        "audio/ogg"@
    } else if e == "mp4".spec_bytes() {
        "video/mp4"@
    } else if e == "webm".spec_bytes() {
        "video/webm"@
    } else if e == "wasm".spec_bytes() {
        "application/wasm"@
    } else if e == "woff".spec_bytes() {
        "font/woff"@
    } else if e == "woff2".spec_bytes() {
        "font/woff2"@
    } else if e == "ttf".spec_bytes() {
        "font/ttf"@
    } else if e == "otf".spec_bytes() {
        "font/otf"@
    } else if e == "pdf".spec_bytes() {
        "application/pdf"@
    } else if e == "zip".spec_bytes() {
        "application/zip"@
    } else if e == "gz".spec_bytes() {
        "application/gzip"@
    } else if e == "tar".spec_bytes() {
        "application/x-tar"@
    } else if e == "bin".spec_bytes() {
        "application/octet-stream"@
    } else if e == "toml".spec_bytes() {
        "application/toml"@
    } else if e == "yaml".spec_bytes() || e == "yml".spec_bytes() {
        "application/yaml"@
    } else {
        "application/octet-stream"@
    }
}

/// The MIME type of a URL or file path, by the extension of its last
/// segment: non-empty, ASCII, at most 16 bytes, compared lower-cased.
pub open spec fn mime_spec(path: Seq<u8>) -> Seq<char> {
    match extension(last_segment(path)) {
        Some(e) => if e.len() > 0 && e.len() <= 16 && (forall|i: int| 0 <= i < e.len() ==> #[trigger] e[i] < 128) {
            mime_for_ext(e.map_values(|b: u8| lower(b)))
        } else {
            "application/octet-stream"@
        },
        None => "application/octet-stream"@,
    }
}

fn mime_of_lower(e: &[u8]) -> (r: &'static str)
    ensures
        r@ == mime_for_ext(e@),
{
    reveal(mime_for_ext);
    if bytes_eq(e, "html".as_bytes()) || bytes_eq(e, "htm".as_bytes()) {
        "text/html; charset=utf-8"
    } else if bytes_eq(e, "css".as_bytes()) {
        "text/css; charset=utf-8"
    } else if bytes_eq(e, "js".as_bytes()) || bytes_eq(e, "mjs".as_bytes()) {
        "text/javascript; charset=utf-8"
    } else if bytes_eq(e, "json".as_bytes()) || bytes_eq(e, "map".as_bytes()) {
        "application/json"
    } else if bytes_eq(e, "txt".as_bytes()) {
        "text/plain; charset=utf-8"
    } else if bytes_eq(e, "md".as_bytes()) {
        "text/markdown; charset=utf-8"
    } else if bytes_eq(e, "xml".as_bytes()) {
        "application/xml"
    } else if bytes_eq(e, "csv".as_bytes()) {
        "text/csv; charset=utf-8"
    } else if bytes_eq(e, "png".as_bytes()) {
        "image/png"
    } else if bytes_eq(e, "jpg".as_bytes()) || bytes_eq(e, "jpeg".as_bytes()) {
        "image/jpeg"
    } else if bytes_eq(e, "gif".as_bytes()) {
        "image/gif"
    } else if bytes_eq(e, "svg".as_bytes()) {
        "image/svg+xml"
    } else if bytes_eq(e, "webp".as_bytes()) {
        "image/webp"
    } else if bytes_eq(e, "ico".as_bytes()) {
        "image/x-icon"
    } else if bytes_eq(e, "bmp".as_bytes()) {
        "image/bmp"
    } else if bytes_eq(e, "avif".as_bytes()) {
        "image/avif"
    } else if bytes_eq(e, "mp3".as_bytes()) {
        "audio/mpeg"
    } else if bytes_eq(e, "wav".as_bytes()) {
        "audio/wav"
    } else if bytes_eq(e, "ogg".as_bytes()) {
        "audio/ogg"
    } else if bytes_eq(e, "mp4".as_bytes()) {
        "video/mp4"
    } else if bytes_eq(e, "webm".as_bytes()) {
        "video/webm"
    } else if bytes_eq(e, "wasm".as_bytes()) {
        "application/wasm"
    } else if bytes_eq(e, "woff".as_bytes()) {
        "font/woff"
    } else if bytes_eq(e, "woff2".as_bytes()) {
        "font/woff2"
    } else if bytes_eq(e, "ttf".as_bytes()) {
        "font/ttf"
    } else if bytes_eq(e, "otf".as_bytes()) {
        "font/otf"
    } else if bytes_eq(e, "pdf".as_bytes()) {
        "application/pdf"
    } else if bytes_eq(e, "zip".as_bytes()) {
        "application/zip"
    } else if bytes_eq(e, "gz".as_bytes()) {
        "application/gzip"
    } else if bytes_eq(e, "tar".as_bytes()) {
        "application/x-tar"
    } else if bytes_eq(e, "bin".as_bytes()) {
        "application/octet-stream"
    } else if bytes_eq(e, "toml".as_bytes()) {
        "application/toml"
    } else if bytes_eq(e, "yaml".as_bytes()) || bytes_eq(e, "yml".as_bytes()) {
        "application/yaml"
    } else {
        "application/octet-stream"
    }
}

pub fn from_path(path: &str) -> (r: &'static str)
    ensures
        r@ == mime_spec(path.spec_bytes()),
{
    let p = path.as_bytes();
    let seg = match find_last(p, 47u8) {
        Some(i) => vstd::slice::slice_subrange(p, i + 1, p.len()),
        None => p,
    };
    assert(seg@ =~= last_segment(p@));
    let ext = match find_last(seg, 46u8) {
        Some(i) => vstd::slice::slice_subrange(seg, i + 1, seg.len()),
        None => {
            return "application/octet-stream";
        },
    };
    assert(extension(seg@) == Some(ext@));
    if ext.len() == 0 || ext.len() > 16 {
        return "application/octet-stream";
    }
    let mut low: Vec<u8> = Vec::new();
    let mut i: usize = 0;
    while i < ext.len()
        invariant
            i <= ext.len(),
            0 < ext.len() <= 16,
            extension(last_segment(path.spec_bytes())) == Some(ext@),
            forall|k: int| 0 <= k < i ==> #[trigger] ext@[k] < 128,
            low@ == ext@.take(i as int).map_values(|b: u8| lower(b)),
        decreases ext.len() - i,
    {
        let b = ext[i];
        if b >= 128 {
            assert(ext@[i as int] >= 128);
            return "application/octet-stream";
        }
        let l = if 65 <= b && b <= 90 { b + 32 } else { b };
        low.push(l);
        assert(ext@.take(i + 1).map_values(|b: u8| lower(b)) =~= ext@.take(i as int).map_values(|b: u8| lower(b)).push(lower(b)));
        i = i + 1;
    }
    assert(ext@.take(ext.len() as int) =~= ext@);
    mime_of_lower(low.as_slice())
}

proof fn lemma_last_before(s: Seq<u8>, c: u8, i: int)
    requires
        0 <= i <= s.len(),
    ensures
        match last_before(s, c, i) {
            None => forall|k: int| 0 <= k < i ==> s[k] != c,
            Some(j) => 0 <= j < i && s[j] == c && forall|k: int| j < k < i ==> s[k] != c,
        },
    decreases i,
{
    if i > 0 {
        lemma_last_before(s, c, i - 1);
    }
}

proof fn lemma_last_before_none(s: Seq<u8>, c: u8, i: int)
    requires
        0 <= i <= s.len(),
        forall|k: int| 0 <= k < i ==> s[k] != c,
    ensures
        last_before(s, c, i) is None,
    decreases i,
{
    if i > 0 {
        lemma_last_before_none(s, c, i - 1);
    }
}

/// The last segment holds no `/`.
proof fn lemma_segment_has_no_slash(p: Seq<u8>)
    ensures
        forall|k: int| 0 <= k < last_segment(p).len() ==> last_segment(p)[k] != 47u8,
{
    lemma_last_before(p, 47u8, p.len() as int);
    match last_before(p, 47u8, p.len() as int) {
        Some(i) => {
            assert forall|k: int| 0 <= k < last_segment(p).len() implies last_segment(p)[k] != 47u8 by {
                assert(last_segment(p)[k] == p[i + 1 + k]);
            }
        },
        None => {},
    }
}

/// Law: only the last segment decides the MIME type.
pub proof fn law_mime_by_last_segment(p: Seq<u8>)
    ensures
        mime_spec(p) == mime_spec(last_segment(p)),
{
    let seg = last_segment(p);
    lemma_segment_has_no_slash(p);
    lemma_last_before_none(seg, 47u8, seg.len() as int);
    assert(last_segment(seg) == seg);
}

pub open spec fn lower_all(s: Seq<u8>) -> Seq<u8> {
    s.map_values(|b: u8| lower(b))
}

/// Lower-casing keeps the positions of `/` and `.`.
proof fn lemma_last_before_lower(s: Seq<u8>, c: u8, i: int)
    requires
        0 <= i <= s.len(),
        c == 47u8 || c == 46u8,
    ensures
        last_before(lower_all(s), c, i) == last_before(s, c, i),
    decreases i,
{
    if i > 0 {
        assert(lower_all(s)[i - 1] == lower(s[i - 1]));
        lemma_last_before_lower(s, c, i - 1);
    }
}

/// Law: the MIME type of a path does not depend on its letters' case.
pub proof fn law_mime_ignores_case(p: Seq<u8>)
    ensures
        mime_spec(lower_all(p)) == mime_spec(p),
{
    let lp = lower_all(p);
    lemma_last_before_lower(p, 47u8, p.len() as int);
    lemma_last_before(p, 47u8, p.len() as int);
    let seg = last_segment(p);
    let lseg = last_segment(lp);
    assert(lseg =~= lower_all(seg)) by {
        match last_before(p, 47u8, p.len() as int) {
            Some(i) => {
                let t1 = lp.skip(i + 1);
                let t2 = lower_all(p.skip(i + 1));
                assert forall|k: int| 0 <= k < t1.len() implies #[trigger] t1[k] == t2[k] by {
                    assert(lp[i + 1 + k] == lower(p[i + 1 + k]));
                }
                assert(lp.skip(i + 1) =~= lower_all(p.skip(i + 1)));
            },
            None => {},
        }
    }
    lemma_last_before_lower(seg, 46u8, seg.len() as int);
    lemma_last_before(seg, 46u8, seg.len() as int);
    match last_before(seg, 46u8, seg.len() as int) {
        Some(i) => {
            let e = seg.skip(i + 1);
            let le = lseg.skip(i + 1);
            let le2 = lower_all(e);
            assert forall|k: int| 0 <= k < le.len() implies #[trigger] le[k] == le2[k] by {
                assert(lseg[i + 1 + k] == lower(seg[i + 1 + k]));
            }
            assert(le =~= lower_all(e));
            assert(extension(lseg) == Some(le));
            assert(extension(seg) == Some(e));
            assert((forall|k: int| 0 <= k < le.len() ==> #[trigger] le[k] < 128) == (forall|k: int|
                0 <= k < e.len() ==> #[trigger] e[k] < 128)) by {
                assert forall|k: int| 0 <= k < e.len() implies (le[k] < 128) == (e[k] < 128) by {
                    assert(le[k] == lower(e[k]));
                }
            }
            assert(le.map_values(|b: u8| lower(b)) =~= e.map_values(|b: u8| lower(b))) by {
                assert forall|k: int| 0 <= k < e.len() implies lower(#[trigger] le[k]) == lower(e[k]) by {
                    assert(le[k] == lower(e[k]));
                }
            }
        },
        None => {},
    }
}

} // verus!
