//! Text as sequences of chars: Unicode trimming, splitting on a char,
//! ASCII case-insensitive comparison, and decimal parsing.
use vstd::prelude::*;

verus! {

/// `str::chars`, collected: claims the chars are the string's own, in order.
#[verifier::external_body]
pub(crate) fn str_chars(s: &str) -> (r: Vec<char>)
    ensures
        r@ == s@,
{
    s.chars().collect()
}

/// `String: FromIterator<&char>`: claims the string holds exactly the
/// given chars, in order.
#[verifier::external_body]
pub(crate) fn chars_string(v: &[char]) -> (r: String)
    ensures
        r@ == v@,
{
    v.iter().collect()
}

/// `std::str::from_utf8`: `Some` exactly when the bytes are UTF-8, and
/// then the text they encode.
#[verifier::external_body]
pub(crate) fn utf8_str(b: &[u8]) -> (r: Option<&str>)
    ensures
        r is Some <==> vstd::utf8::valid_utf8(b@),
        r matches Some(s) ==> s@ == vstd::utf8::decode_utf8(b@),
{
    std::str::from_utf8(b).ok()
}

/// The Unicode `White_Space` property (`char::is_whitespace`).
pub open spec fn ws(c: char) -> bool {
    let x = c as u32;
    ||| 9 <= x <= 13
    ||| x == 32
    ||| x == 0x85
    ||| x == 0xa0
    ||| x == 0x1680
    ||| 0x2000 <= x <= 0x200a
    ||| x == 0x2028
    ||| x == 0x2029
    ||| x == 0x202f
    ||| x == 0x205f
    ||| x == 0x3000
}

pub fn is_ws(c: char) -> (r: bool)
    ensures
        r == ws(c),
{
    let x = c as u32;
    (9 <= x && x <= 13) || x == 32 || x == 0x85 || x == 0xa0 || x == 0x1680 || (0x2000 <= x && x <= 0x200a)
        || x == 0x2028 || x == 0x2029 || x == 0x202f || x == 0x205f || x == 0x3000
}

pub open spec fn trim_start(s: Seq<char>) -> Seq<char>
    decreases s.len(),
{
    if s.len() > 0 && ws(s[0]) {
        trim_start(s.drop_first())
    } else {
        s
    }
}

pub open spec fn trim_end(s: Seq<char>) -> Seq<char>
    decreases s.len(),
{
    if s.len() > 0 && ws(s.last()) {
        trim_end(s.drop_last())
    } else {
        s
    }
}

/// `str::trim`: leading and trailing whitespace removed.
pub open spec fn trim(s: Seq<char>) -> Seq<char> {
    trim_end(trim_start(s))
}

proof fn lemma_trim_start(s: Seq<char>, a: int)
    requires
        0 <= a <= s.len(),
        forall|k: int| 0 <= k < a ==> ws(#[trigger] s[k]),
        a < s.len() ==> !ws(s[a]),
    ensures
        trim_start(s) == s.skip(a),
    decreases a,
{
    if a > 0 {
        let t = s.drop_first();
        assert forall|k: int| 0 <= k < a - 1 implies ws(#[trigger] t[k]) by {
            assert(t[k] == s[k + 1]);
        }
        if a - 1 < t.len() {
            assert(t[a - 1] == s[a]);
        }
        lemma_trim_start(t, a - 1);
        assert(t.skip(a - 1) =~= s.skip(a));
        assert(ws(s[0]));
    } else {
        assert(s.skip(0) =~= s);
    }
}

proof fn lemma_trim_end(s: Seq<char>, b: int)
    requires
        0 <= b <= s.len(),
        forall|k: int| b <= k < s.len() ==> ws(#[trigger] s[k]),
        b > 0 ==> !ws(s[b - 1]),
    ensures
        trim_end(s) == s.take(b),
    decreases s.len() - b,
{
    if b < s.len() {
        let t = s.drop_last();
        assert forall|k: int| b <= k < t.len() implies ws(#[trigger] t[k]) by {
            assert(t[k] == s[k]);
        }
        if b > 0 {
            assert(t[b - 1] == s[b - 1]);
        }
        assert(ws(s[s.len() - 1]));
        lemma_trim_end(t, b);
        assert(t.take(b) =~= s.take(b));
    } else {
        assert(s.take(b) =~= s);
    }
}

pub fn trim_chars(v: &[char]) -> (r: Vec<char>)
    ensures
        r@ == trim(v@),
{
    let mut a: usize = 0;
    while a < v.len() && is_ws(v[a])
        invariant
            a <= v.len(),
            forall|k: int| 0 <= k < a ==> ws(#[trigger] v@[k]),
        decreases v.len() - a,
    {
        a = a + 1;
    }
    proof {
        lemma_trim_start(v@, a as int);
    }
    let mut b: usize = v.len();
    while b > a && is_ws(v[b - 1])
        invariant
            a <= b <= v.len(),
            forall|k: int| b <= k < v.len() ==> ws(#[trigger] v@[k]),
        decreases b - a,
    {
        b = b - 1;
    }
    let ghost t = v@.skip(a as int);
    proof {
        assert forall|k: int| b - a <= k < t.len() implies ws(#[trigger] t[k]) by {
            assert(t[k] == v@[a + k]);
        }
        if b > a {
            assert(t[b - a - 1] == v@[b - 1]);
        }
        lemma_trim_end(t, b - a);
    }
    let s = vstd::slice::slice_subrange(v, a, b);
    let r = vstd::slice::slice_to_vec(s);
    assert(r@ =~= t.take(b - a));
    r
}

/// ASCII lower-casing of a char's code.
pub open spec fn lower_c(c: char) -> u32 {
    let x = c as u32;
    if 65 <= x <= 90 {
        (x + 32) as u32
    } else {
        x
    }
}

/// ASCII case-insensitive equality.
pub open spec fn eq_ic_c(a: Seq<char>, b: Seq<char>) -> bool {
    a.len() == b.len() && forall|i: int| 0 <= i < a.len() ==> lower_c(#[trigger] a[i]) == lower_c(b[i])
}

pub fn chars_eq_ic(a: &[char], b: &[char]) -> (r: bool)
    ensures
        r == eq_ic_c(a@, b@),
{
    if a.len() != b.len() {
        return false;
    }
    let mut i: usize = 0;
    while i < a.len()
        invariant
            a.len() == b.len(),
            i <= a.len(),
            forall|k: int| 0 <= k < i ==> lower_c(#[trigger] a@[k]) == lower_c(b@[k]),
        decreases a.len() - i,
    {
        let x = a[i] as u32;
        let y = b[i] as u32;
        let lx = if 65 <= x && x <= 90 { x + 32 } else { x };
        let ly = if 65 <= y && y <= 90 { y + 32 } else { y };
        if lx != ly {
            assert(lower_c(a@[i as int]) != lower_c(b@[i as int]));
            return false;
        }
        i = i + 1;
    }
    true
}

/// Position of the first `c` at or after `i`.
pub open spec fn char_from(s: Seq<char>, c: char, i: int) -> Option<int>
    decreases s.len() - i,
{
    if i < 0 || i >= s.len() {
        None
    } else if s[i] == c {
        Some(i)
    } else {
        char_from(s, c, i + 1)
    }
}

pub proof fn lemma_char_from(s: Seq<char>, c: char, i: int)
    requires
        0 <= i,
    ensures
        match char_from(s, c, i) {
            Some(j) => i <= j < s.len() && s[j] == c && forall|k: int| i <= k < j ==> s[k] != c,
            None => forall|k: int| i <= k < s.len() ==> s[k] != c,
        },
    decreases s.len() - i,
{
    if i < s.len() && s[i] != c {
        lemma_char_from(s, c, i + 1);
    }
}

pub fn find_char(s: &[char], c: char, i: usize) -> (r: Option<usize>)
    requires
        i <= s.len(),
    ensures
        match char_from(s@, c, i as int) {
            Some(j) => r == Some(j as usize) && i <= j < s.len(),
            None => r is None,
        },
{
    proof {
        lemma_char_from(s@, c, i as int);
    }
    let mut k = i;
    while k < s.len()
        invariant
            i <= k <= s.len(),
            char_from(s@, c, i as int) == char_from(s@, c, k as int),
        decreases s.len() - k,
    {
        if s[k] == c {
            return Some(k);
        }
        k = k + 1;
    }
    None
}

/// `str::split(c)` from position `i`: the pieces between the `c`s,
/// empty pieces included.
pub open spec fn split_from(s: Seq<char>, c: char, i: int) -> Seq<Seq<char>>
    decreases s.len() - i,
{
    if i < 0 || i > s.len() {
        seq![]
    } else {
        match char_from(s, c, i) {
            None => seq![s.subrange(i, s.len() as int)],
            Some(j) => {
                proof {
                    lemma_char_from(s, c, i);
                }
                seq![s.subrange(i, j)] + split_from(s, c, j + 1)
            },
        }
    }
}

pub fn split_char(v: &[char], c: char) -> (r: Vec<Vec<char>>)
    ensures
        r@.map_values(|x: Vec<char>| x@) == split_from(v@, c, 0),
{
    let mut out: Vec<Vec<char>> = Vec::new();
    let mut i: usize = 0;
    loop
        invariant
            i <= v.len(),
            split_from(v@, c, 0) == out@.map_values(|x: Vec<char>| x@) + split_from(v@, c, i as int),
        decreases v.len() - i,
    {
        let ghost before = out@.map_values(|x: Vec<char>| x@);
        match find_char(v, c, i) {
            None => {
                let piece = vstd::slice::slice_to_vec(vstd::slice::slice_subrange(v, i, v.len()));
                out.push(piece);
                assert(out@.map_values(|x: Vec<char>| x@) =~= before + seq![v@.subrange(i as int, v@.len() as int)]);
                return out;
            },
            Some(j) => {
                let piece = vstd::slice::slice_to_vec(vstd::slice::slice_subrange(v, i, j));
                out.push(piece);
                assert(out@.map_values(|x: Vec<char>| x@) =~= before + seq![v@.subrange(i as int, j as int)]);
                assert(split_from(v@, c, i as int) == seq![v@.subrange(i as int, j as int)] + split_from(v@, c, j + 1));
                assert(before + split_from(v@, c, i as int) =~= (before + seq![v@.subrange(i as int, j as int)])
                    + split_from(v@, c, j + 1));
                i = j + 1;
            },
        }
    }
}

pub open spec fn is_digit(c: char) -> bool {
    48 <= (c as u32) <= 57
}

/// The value of a string of decimal digits.
pub open spec fn dec_value(s: Seq<char>) -> int
    decreases s.len(),
{
    if s.len() == 0 {
        0
    } else {
        dec_value(s.drop_last()) * 10 + ((s.last() as u32) - 48)
    }
}

/// The digits of an unsigned number: the text without a leading `+`.
pub open spec fn unsigned_digits(s: Seq<char>) -> Seq<char> {
    if s.len() > 0 && s[0] == '+' {
        s.drop_first()
    } else {
        s
    }
}

pub open spec fn all_digits(d: Seq<char>) -> bool {
    forall|i: int| 0 <= i < d.len() ==> is_digit(#[trigger] d[i])
}

/// An unsigned `from_str`: an optional `+`, then one or more decimal
/// digits, whose value is at most `max`.
pub open spec fn parse_uint(s: Seq<char>, max: int) -> Option<int> {
    let d = unsigned_digits(s);
    if d.len() > 0 && all_digits(d) && dec_value(d) <= max {
        Some(dec_value(d))
    } else {
        None
    }
}

/// `usize::from_str`.
pub open spec fn parse_usize(s: Seq<char>) -> Option<int> {
    parse_uint(s, usize::MAX as int)
}

/// `u64::from_str`.
pub open spec fn parse_u64(s: Seq<char>) -> Option<int> {
    parse_uint(s, u64::MAX as int)
}

/// A longer digit string is worth at least as much as its prefix.
proof fn lemma_dec_mono(s: Seq<char>, k: int)
    requires
        0 <= k <= s.len(),
        forall|i: int| 0 <= i < s.len() ==> is_digit(#[trigger] s[i]),
    ensures
        dec_value(s.take(k)) <= dec_value(s),
        0 <= dec_value(s.take(k)),
    decreases s.len() - k,
{
    if k < s.len() {
        let t = s.take(k + 1);
        assert(t.drop_last() =~= s.take(k));
        assert(t.last() == s[k]);
        lemma_dec_mono(s, k + 1);
        assert(is_digit(s[k]));
        assert(dec_value(s.take(k)) * 10 >= dec_value(s.take(k))) by (nonlinear_arith)
            requires
                dec_value(s.take(k)) >= 0,
        ;
    } else {
        assert(s.take(k) =~= s);
        lemma_dec_nonneg(s);
    }
}

pub proof fn lemma_dec_nonneg(s: Seq<char>)
    requires
        forall|i: int| 0 <= i < s.len() ==> is_digit(#[trigger] s[i]),
    ensures
        dec_value(s) >= 0,
    decreases s.len(),
{
    if s.len() > 0 {
        let t = s.drop_last();
        assert forall|i: int| 0 <= i < t.len() implies is_digit(#[trigger] t[i]) by {
            assert(t[i] == s[i]);
        }
        lemma_dec_nonneg(t);
        assert(is_digit(s[s.len() - 1]));
    }
}

pub fn parse_u64_chars(s: &[char]) -> (r: Option<u64>)
    ensures
        match parse_u64(s@) {
            Some(n) => r == Some(n as u64) && 0 <= n <= u64::MAX,
            None => r is None,
        },
{
    proof {
        if all_digits(unsigned_digits(s@)) {
            lemma_dec_nonneg(unsigned_digits(s@));
        }
    }
    let start: usize = if s.len() > 0 && s[0] == '+' { 1 } else { 0 };
    let ghost d = unsigned_digits(s@);
    assert(d =~= s@.skip(start as int));
    if start >= s.len() {
        return None;
    }
    let mut acc: u64 = 0;
    let mut i: usize = start;
    while i < s.len()
        invariant
            start <= i <= s.len(),
            d == s@.skip(start as int),
            d == unsigned_digits(s@),
            forall|k: int| 0 <= k < i - start ==> is_digit(#[trigger] d[k]),
            acc == dec_value(d.take(i - start)),
        decreases s.len() - i,
    {
        let c = s[i];
        let x = c as u32;
        assert(d[i - start] == c);
        if !(48 <= x && x <= 57) {
            assert(!is_digit(d[i - start]));
            assert(!all_digits(d));
            return None;
        }
        let dv = (x - 48) as u64;
        assert(d.take(i - start + 1).drop_last() =~= d.take(i - start));
        assert(d.take(i - start + 1).last() == c);
        match acc.checked_mul(10) {
            None => {
                proof {
                    assert forall|k: int| 0 <= k < i - start + 1 implies is_digit(#[trigger] d.take(i - start + 1)[k]) by {
                        assert(d.take(i - start + 1)[k] == d[k]);
                    }
                }
                return overflow_none(s, start, i, Ghost(d));
            },
            Some(m) => match m.checked_add(dv) {
                None => {
                    return overflow_none(s, start, i, Ghost(d));
                },
                Some(n) => {
                    acc = n;
                },
            },
        }
        i = i + 1;
    }
    assert(d.take(s.len() - start) =~= d);
    Some(acc)
}

pub fn parse_usize_chars(s: &[char]) -> (r: Option<usize>)
    ensures
        match parse_usize(s@) {
            Some(n) => r == Some(n as usize) && 0 <= n <= usize::MAX,
            None => r is None,
        },
{
    match parse_u64_chars(s) {
        None => None,
        Some(n) => if n <= usize::MAX as u64 {
            Some(n as usize)
        } else {
            None
        },
    }
}

/// Past an overflow at position `i`, the answer is `None` whether or
/// not the rest are digits.
fn overflow_none(s: &[char], start: usize, i: usize, Ghost(d): Ghost<Seq<char>>) -> (r: Option<u64>)
    requires
        start <= i < s.len(),
        d == s@.skip(start as int),
        d == unsigned_digits(s@),
        dec_value(d.take(i - start + 1)) > u64::MAX,
        forall|k: int| 0 <= k <= i - start ==> is_digit(#[trigger] d[k]),
    ensures
        r is None,
        parse_u64(s@) is None,
{
    assert(parse_u64(s@) is None) by {
        if all_digits(d) {
            lemma_dec_mono(d, i - start + 1);
            assert(dec_value(d) > u64::MAX);
        }
    }
    None
}

/// The words of a text and the word under way, reading left to right:
/// whitespace ends a word, other chars extend it.
pub open spec fn split_ws_state(s: Seq<char>) -> (Seq<Seq<char>>, Seq<char>)
    decreases s.len(),
{
    if s.len() == 0 {
        (Seq::empty(), Seq::empty())
    } else {
        let (w, cur) = split_ws_state(s.drop_last());
        let c = s.last();
        if ws(c) {
            if cur.len() > 0 {
                (w.push(cur), Seq::empty())
            } else {
                (w, cur)
            }
        } else {
            (w, cur.push(c))
        }
    }
}

/// The maximal runs of non-whitespace chars, in order (`str::split_whitespace`).
pub open spec fn split_ws(s: Seq<char>) -> Seq<Seq<char>> {
    let (w, cur) = split_ws_state(s);
    if cur.len() > 0 {
        w.push(cur)
    } else {
        w
    }
}

/// The whitespace-separated words of a text (`str::split_whitespace`).
pub fn words_of(t: &[char]) -> (r: Vec<Vec<char>>)
    ensures
        r@.map_values(|x: Vec<char>| x@) == split_ws(t@),
{
    let mut words: Vec<Vec<char>> = Vec::new();
    let mut cur: Vec<char> = Vec::new();
    let mut i: usize = 0;
    while i < t.len()
        invariant
            i <= t.len(),
            (words@.map_values(|x: Vec<char>| x@), cur@) == split_ws_state(t@.take(i as int)),
        decreases t.len() - i,
    {
        let c = t[i];
        assert(t@.take(i + 1).drop_last() =~= t@.take(i as int));
        assert(t@.take(i + 1).last() == c);
        if is_ws(c) {
            if cur.len() > 0 {
                let ghost before = words@.map_values(|x: Vec<char>| x@);
                let ghost cv = cur@;
                words.push(cur);
                assert(words@.map_values(|x: Vec<char>| x@) =~= before.push(cv));
                cur = Vec::new();
                assert(cur@ =~= Seq::<char>::empty());
            }
        } else {
            cur.push(c);
        }
        i = i + 1;
    }
    assert(t@.take(t.len() as int) =~= t@);
    if cur.len() > 0 {
        let ghost before = words@.map_values(|x: Vec<char>| x@);
        let ghost cv = cur@;
        words.push(cur);
        assert(words@.map_values(|x: Vec<char>| x@) =~= before.push(cv));
    }
    words
}

} // verus!
