//! Memory bound: over the cap, `Hard` refuses (503) and `Degrade` flags.
use vstd::prelude::*;
use crate::config::MemoryMode;
use crate::text::{
    str_chars, split_from, split_char, split_ws, words_of, parse_u64, parse_uint, parse_u64_chars, is_digit,
    lemma_dec_nonneg, unsigned_digits,
};

verus! {

pub struct Governor {
    pub cap: u64,
    pub mode: MemoryMode,
}

impl Governor {
    /// The process is over the cap at the given resident size.
    pub fn over_mem(&self, rss: u64) -> (r: bool)
        ensures
            r == (rss > self.cap),
    {
        rss > self.cap
    }

    /// Requests are refused at the given resident size.
    pub fn hard_block(&self, rss: u64) -> (r: bool)
        ensures
            r == (self.mode == MemoryMode::Hard && rss > self.cap),
    {
        self.mode == MemoryMode::Hard && self.over_mem(rss)
    }
}

pub open spec fn has_prefix(s: Seq<char>, p: Seq<char>) -> bool {
    p.len() <= s.len() && s.take(p.len() as int) == p
}

/// The first line from `i` on that starts with `p`.
pub open spec fn line_with_prefix(lines: Seq<Seq<char>>, p: Seq<char>, i: int) -> Option<int>
    decreases lines.len() - i,
{
    if i < 0 || i >= lines.len() {
        None
    } else if has_prefix(lines[i], p) {
        Some(i)
    } else {
        line_with_prefix(lines, p, i + 1)
    }
}

/// The resident size in a `/proc/self/status` text: the first `VmRSS:`
/// line's first word, in KiB, as bytes (none where there is no such
/// line, the word is no number, or the bytes overflow).
pub open spec fn vm_rss_spec(s: Seq<char>) -> Option<int> {
    let lines = split_from(s, '\n', 0);
    match line_with_prefix(lines, "VmRSS:"@, 0) {
        None => None,
        Some(i) => {
            let words = split_ws(lines[i].skip(6));
            if words.len() == 0 {
                None
            } else {
                match parse_u64(words[0]) {
                    None => None,
                    Some(kb) => if kb * 1024 <= u64::MAX {
                        Some(kb * 1024)
                    } else {
                        None
                    },
                }
            }
        },
    }
}

fn prefix_is(s: &[char], p: &[char]) -> (r: bool)
    ensures
        r == has_prefix(s@, p@),
{
    if p.len() > s.len() {
        return false;
    }
    let mut i: usize = 0;
    while i < p.len()
        invariant
            p.len() <= s.len(),
            i <= p.len(),
            forall|k: int| 0 <= k < i ==> s@[k] == p@[k],
        decreases p.len() - i,
    {
        if s[i] != p[i] {
            assert(s@.take(p.len() as int)[i as int] != p@[i as int]);
            return false;
        }
        i = i + 1;
    }
    assert(s@.take(p.len() as int) =~= p@);
    true
}

proof fn lemma_u64_nonneg(s: Seq<char>)
    ensures
        parse_u64(s) matches Some(n) ==> 0 <= n <= u64::MAX,
{
    if parse_u64(s) is Some {
        lemma_dec_nonneg(unsigned_digits(s));
    }
}

/// Reads the resident size out of a `/proc/self/status` text.
pub fn vm_rss_from_status(status: &str) -> (r: Option<u64>)
    ensures
        match vm_rss_spec(status@) {
            Some(n) => r == Some(n as u64),
            None => r is None,
        },
{
    let c = str_chars(status);
    let lines = split_char(c.as_slice(), '\n');
    let ghost lv = lines@.map_values(|x: Vec<char>| x@);
    assert(lv == split_from(status@, '\n', 0));
    let p = str_chars("VmRSS:");
    proof {
        reveal_strlit("VmRSS:");
    }
    let mut i: usize = 0;
    while i < lines.len()
        invariant
            i <= lines.len(),
            lv == lines@.map_values(|x: Vec<char>| x@),
            lv == split_from(status@, '\n', 0),
            p@ == "VmRSS:"@,
            p.len() == 6,
            line_with_prefix(lv, "VmRSS:"@, 0) == line_with_prefix(lv, "VmRSS:"@, i as int),
        decreases lines.len() - i,
    {
        assert(lv[i as int] == lines@[i as int]@);
        if prefix_is(lines[i].as_slice(), p.as_slice()) {
            assert(line_with_prefix(lv, "VmRSS:"@, i as int) == Some(i as int));
            let rest = vstd::slice::slice_subrange(lines[i].as_slice(), 6, lines[i].len());
            assert(rest@ =~= lv[i as int].skip(6));
            let words = words_of(rest);
            let ghost wv = words@.map_values(|x: Vec<char>| x@);
            if words.len() == 0 {
                return None;
            }
            assert(wv[0] == words@[0]@);
            proof {
                lemma_u64_nonneg(wv[0]);
            }
            return match parse_u64_chars(words[0].as_slice()) {
                None => None,
                Some(kb) => kb.checked_mul(1024),
            };
        }
        i = i + 1;
    }
    None
}

/// The text after the last `c` (all of it when there is none).
pub open spec fn after_last(s: Seq<char>, c: char) -> Seq<char>
    decreases s.len(),
{
    if s.len() == 0 {
        s
    } else if s.last() == c {
        Seq::empty()
    } else {
        after_last(s.drop_last(), c).push(s.last())
    }
}

/// The CPU time in a `/proc/self/stat` text: after the command's closing
/// parenthesis, the 12th and 13th words (user and system ticks), summed.
pub open spec fn cpu_ticks_spec(s: Seq<char>) -> Option<int> {
    let words = split_ws(after_last(s, ')'));
    if words.len() < 13 {
        None
    } else {
        match (parse_u64(words[11]), parse_u64(words[12])) {
            (Some(u), Some(t)) => if u + t <= u64::MAX {
                Some(u + t)
            } else {
                None
            },
            _ => None,
        }
    }
}

fn after_last_exec(s: &[char], c: char) -> (r: Vec<char>)
    ensures
        r@ == after_last(s@, c),
{
    let mut j: usize = s.len();
    assert(s@.take(s.len() as int) =~= s@);
    assert(s@ + s@.skip(s.len() as int) =~= s@);
    while j > 0 && s[j - 1] != c
        invariant
            j <= s.len(),
            after_last(s@, c) == after_last(s@.take(j as int), c) + s@.skip(j as int),
        decreases j,
    {
        let ghost t = s@.take(j as int);
        assert(t.drop_last() =~= s@.take(j - 1));
        assert(t.last() == s@[j - 1]);
        assert(after_last(t, c) == after_last(s@.take(j - 1), c).push(s@[j - 1]));
        assert(after_last(s@.take(j - 1), c).push(s@[j - 1]) + s@.skip(j as int) =~= after_last(s@.take(j - 1), c)
            + s@.skip(j - 1));
        j = j - 1;
    }
    if j > 0 {
        let ghost t = s@.take(j as int);
        assert(t.last() == c);
        assert(after_last(t, c) =~= Seq::<char>::empty());
    } else {
        assert(s@.take(0) =~= Seq::<char>::empty());
    }
    let rest = vstd::slice::slice_subrange(s, j, s.len());
    assert(rest@ =~= s@.skip(j as int));
    assert(Seq::<char>::empty() + s@.skip(j as int) =~= s@.skip(j as int));
    vstd::slice::slice_to_vec(rest)
}

/// Reads the process CPU ticks out of a `/proc/self/stat` text.
pub fn cpu_ticks_from_stat(stat: &str) -> (r: Option<u64>)
    ensures
        match cpu_ticks_spec(stat@) {
            Some(n) => r == Some(n as u64),
            None => r is None,
        },
{
    let c = str_chars(stat);
    proof {
        assert(after_last(c@, ')') == after_last(stat@, ')'));
    }
    let rest = after_last_exec(c.as_slice(), ')');
    assert(c@.take(c@.len() as int) =~= c@);
    let words = words_of(rest.as_slice());
    let ghost wv = words@.map_values(|x: Vec<char>| x@);
    if words.len() < 13 {
        return None;
    }
    assert(wv[11] == words@[11]@ && wv[12] == words@[12]@);
    proof {
        lemma_u64_nonneg(wv[11]);
        lemma_u64_nonneg(wv[12]);
    }
    let u = match parse_u64_chars(words[11].as_slice()) {
        None => return None,
        Some(u) => u,
    };
    let t = match parse_u64_chars(words[12].as_slice()) {
        None => return None,
        Some(t) => t,
    };
    u.checked_add(t)
}

} // verus!
