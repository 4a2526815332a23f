use vstd::prelude::*;
use crate::bytes::bytes_eq;
use crate::rules::pattern::{Pat, PatKind, PatV, Rule, RuleV, METHODS_ALL};

verus! {

/// `Exact`: the path is the pattern. `Prefix` with `pre`: the path starts
/// with `pre/` (any path starting with `/` when `pre` is empty).
pub open spec fn pat_matches(p: PatV, path: Seq<u8>) -> bool {
    match p.0 {
        PatKind::Exact => path == p.1,
        PatKind::Prefix => {
            &&& path.len() > p.1.len()
            &&& path[p.1.len() as int] == 47u8
            &&& path.take(p.1.len() as int) == p.1
        },
    }
}

pub open spec fn any_matches(ps: Seq<PatV>, path: Seq<u8>) -> bool {
    exists|j: int| 0 <= j < ps.len() && pat_matches(#[trigger] ps[j], path)
}

/// A rule admits a method bit when it names all methods or shares the bit.
pub open spec fn method_ok(methods: u16, bit: u16) -> bool {
    methods == METHODS_ALL || (methods & bit) != 0
}

/// A rule matches when its methods admit the bit, some include pattern
/// matches the path, and no exclude pattern does.
pub open spec fn rule_matches_spec(r: RuleV, bit: u16, path: Seq<u8>) -> bool {
    &&& method_ok(r.methods, bit)
    &&& any_matches(r.includes, path)
    &&& !any_matches(r.excludes, path)
}

pub open spec fn rules_view(rules: Seq<Rule>) -> Seq<RuleV> {
    rules.map_values(|r: Rule| r@)
}

/// Index of the first rule at or after `i` that matches.
pub open spec fn first_match_from(rules: Seq<RuleV>, bit: u16, path: Seq<u8>, i: int) -> Option<int>
    decreases rules.len() - i,
{
    if i < 0 || i >= rules.len() {
        None
    } else if rule_matches_spec(rules[i], bit, path) {
        Some(i)
    } else {
        first_match_from(rules, bit, path, i + 1)
    }
}

/// The linear-scan answer: the first rule in order that matches.
pub open spec fn linear_match(rules: Seq<RuleV>, bit: u16, path: Seq<u8>) -> Option<int> {
    first_match_from(rules, bit, path, 0)
}

pub proof fn lemma_first_match_skip(rules: Seq<RuleV>, bit: u16, path: Seq<u8>, i: int)
    requires
        0 <= i,
        forall|j: int| 0 <= j < i && j < rules.len() ==> !rule_matches_spec(#[trigger] rules[j], bit, path),
    ensures
        linear_match(rules, bit, path) == first_match_from(rules, bit, path, i),
    decreases i,
{
    if i > 0 {
        lemma_first_match_skip(rules, bit, path, i - 1);
        if i - 1 < rules.len() {
            assert(!rule_matches_spec(rules[i - 1], bit, path));
        }
    }
}

/// Characterization of the linear answer.
pub proof fn lemma_first_match_props(rules: Seq<RuleV>, bit: u16, path: Seq<u8>, i: int)
    requires
        0 <= i,
    ensures
        match first_match_from(rules, bit, path, i) {
            Some(k) => i <= k < rules.len() && rule_matches_spec(rules[k], bit, path)
                && forall|j: int| i <= j < k ==> !rule_matches_spec(#[trigger] rules[j], bit, path),
            None => forall|j: int| i <= j < rules.len() ==> !rule_matches_spec(#[trigger] rules[j], bit, path),
        },
    decreases rules.len() - i,
{
    if i < rules.len() && !rule_matches_spec(rules[i], bit, path) {
        lemma_first_match_props(rules, bit, path, i + 1);
    }
}

pub fn pat_match(p: &Pat, path: &[u8]) -> (r: bool)
    ensures
        r == pat_matches(p@, path@),
{
    match p.kind {
        PatKind::Exact => bytes_eq(path, p.bytes.as_slice()),
        PatKind::Prefix => {
            let pb = p.bytes.as_slice();
            if !(path.len() > pb.len() && path[pb.len()] == 47u8) {
                return false;
            }
            let mut i: usize = 0;
            while i < pb.len()
                invariant
                    i <= pb.len(),
                    pb.len() < path.len(),
                    pb@ == p.bytes@,
                    forall|j: int| 0 <= j < i ==> path@[j] == pb@[j],
                decreases pb.len() - i,
            {
                if path[i] != pb[i] {
                    assert(path@.take(pb.len() as int)[i as int] != pb@[i as int]);
                    return false;
                }
                i = i + 1;
            }
            assert(path@.take(pb.len() as int) =~= pb@);
            true
        },
    }
}

pub fn any_pat_match(ps: &Vec<Pat>, path: &[u8]) -> (r: bool)
    ensures
        r == any_matches(ps@.map_values(|p: Pat| p@), path@),
{
    let ghost v = ps@.map_values(|p: Pat| p@);
    let mut j: usize = 0;
    while j < ps.len()
        invariant
            j <= ps.len(),
            v == ps@.map_values(|p: Pat| p@),
            forall|k: int| 0 <= k < j ==> !pat_matches(#[trigger] v[k], path@),
        decreases ps.len() - j,
    {
        if pat_match(&ps[j], path) {
            assert(pat_matches(v[j as int], path@));
            return true;
        }
        j = j + 1;
    }
    false
}

pub fn rule_matches(r: &Rule, method_bit: u16, path: &[u8]) -> (res: bool)
    ensures
        res == rule_matches_spec(r@, method_bit, path@),
{
    if r.methods != METHODS_ALL && (r.methods & method_bit) == 0 {
        return false;
    }
    if !any_pat_match(&r.includes, path) {
        return false;
    }
    !any_pat_match(&r.excludes, path)
}

/// The index of the first rule that matches, by a linear scan.
pub fn match_linear_index(rules: &Vec<Rule>, bit: u16, path: &[u8]) -> (r: Option<usize>)
    ensures
        match linear_match(rules_view(rules@), bit, path@) {
            Some(k) => r == Some(k as usize) && 0 <= k < rules.len(),
            None => r is None,
        },
{
    let ghost rv = rules_view(rules@);
    proof {
        lemma_first_match_props(rv, bit, path@, 0);
    }
    let mut i: usize = 0;
    while i < rules.len()
        invariant
            i <= rules.len(),
            rv == rules_view(rules@),
            forall|j: int| 0 <= j < i ==> !rule_matches_spec(#[trigger] rv[j], bit, path@),
        decreases rules.len() - i,
    {
        if rule_matches(&rules[i], bit, path) {
            proof {
                lemma_first_match_skip(rv, bit, path@, i as int);
            }
            return Some(i);
        }
        i = i + 1;
    }
    proof {
        lemma_first_match_skip(rv, bit, path@, i as int);
    }
    None
}

/// Two masks share no method (a mask of all methods shares every one).
pub open spec fn disjoint_spec(a: u16, b: u16) -> bool {
    a != METHODS_ALL && b != METHODS_ALL && (a & b) == 0
}

pub fn methods_disjoint(a: u16, b: u16) -> (r: bool)
    ensures
        r == disjoint_spec(a, b),
{
    if a == METHODS_ALL || b == METHODS_ALL {
        return false;
    }
    a & b == 0
}

/// The lowest set bit of `x` at or above position `k` (0 when none).
pub open spec fn low_bit_from(x: u16, k: u32) -> u16
    decreases 16 - k,
{
    if k >= 16 {
        0
    } else if (x >> k) & 1 == 1 {
        (1u16 << k) as u16
    } else {
        low_bit_from(x, (k + 1) as u32)
    }
}

pub open spec fn low_bit(x: u16) -> u16 {
    low_bit_from(x, 0)
}

fn lowest_bit(x: u16) -> (r: u16)
    ensures
        r == low_bit(x),
{
    let mut k: u32 = 0;
    while k < 16
        invariant
            k <= 16,
            low_bit(x) == low_bit_from(x, k),
        decreases 16 - k,
    {
        if (x >> k) & 1 == 1 {
            return 1u16 << k;
        }
        k = k + 1;
    }
    0
}

/// A method bit both masks admit, used to probe for overlaps.
pub open spec fn shared_bit_spec(a: u16, b: u16) -> u16 {
    if a == METHODS_ALL && b == METHODS_ALL {
        1
    } else if a == METHODS_ALL {
        if b == 0 { 1 } else { low_bit(b) }
    } else if b == METHODS_ALL {
        if a == 0 { 1 } else { low_bit(a) }
    } else if (a & b) == 0 {
        1
    } else {
        low_bit(a & b)
    }
}

pub fn shared_bit(a: u16, b: u16) -> (r: u16)
    ensures
        r == shared_bit_spec(a, b),
{
    if a == METHODS_ALL && b == METHODS_ALL {
        return 1;
    }
    if a == METHODS_ALL {
        return if b == 0 { 1 } else { lowest_bit(b) };
    }
    if b == METHODS_ALL {
        return if a == 0 { 1 } else { lowest_bit(a) };
    }
    let both = a & b;
    if both == 0 {
        1
    } else {
        lowest_bit(both)
    }
}

/// Probe paths for one include pattern.
pub open spec fn cand_one(p: PatV) -> Seq<Seq<u8>> {
    match p.0 {
        PatKind::Prefix => if p.1.len() == 0 {
            seq![seq![47u8], seq![47u8, 120u8], seq![47u8, 97u8, 112u8, 105u8, 47u8, 120u8]]
        } else {
            seq![p.1, p.1.push(47u8), p.1.push(47u8).push(120u8)]
        },
        PatKind::Exact => seq![p.1],
    }
}

/// Probe paths for a rule: those of its include patterns, in order.
pub open spec fn cands_of(ps: Seq<PatV>) -> Seq<Seq<u8>>
    decreases ps.len(),
{
    if ps.len() == 0 {
        seq![]
    } else {
        cands_of(ps.drop_last()) + cand_one(ps.last())
    }
}

fn push_lit(v: &mut Vec<u8>, b: u8)
    ensures
        final(v)@ == old(v)@.push(b),
{
    v.push(b);
}

pub fn candidates(r: &Rule) -> (out: Vec<Vec<u8>>)
    ensures
        out@.map_values(|c: Vec<u8>| c@) == cands_of(r@.includes),
{
    let ghost ps = r@.includes;
    let mut out: Vec<Vec<u8>> = Vec::new();
    let mut j: usize = 0;
    while j < r.includes.len()
        invariant
            j <= r.includes.len(),
            ps == r@.includes,
            out@.map_values(|c: Vec<u8>| c@) == cands_of(ps.take(j as int)),
        decreases r.includes.len() - j,
    {
        let p = &r.includes[j];
        let ghost before = out@.map_values(|c: Vec<u8>| c@);
        assert(ps.take(j + 1).drop_last() =~= ps.take(j as int));
        assert(ps.take(j + 1).last() == p@);
        match p.kind {
            PatKind::Prefix => {
                if p.bytes.len() == 0 {
                    let c1 = vec![47u8];
                    let c2 = vec![47u8, 120u8];
                    let c3 = vec![47u8, 97u8, 112u8, 105u8, 47u8, 120u8];
                    assert(c1@ =~= seq![47u8]);
                    assert(c2@ =~= seq![47u8, 120u8]);
                    assert(c3@ =~= seq![47u8, 97u8, 112u8, 105u8, 47u8, 120u8]);
                    out.push(c1);
                    out.push(c2);
                    out.push(c3);
                } else {
                    let a = p.bytes.clone();
                    assert(a@ =~= p.bytes@);
                    let mut s = p.bytes.clone();
                    assert(s@ =~= p.bytes@);
                    push_lit(&mut s, 47u8);
                    let mut x = p.bytes.clone();
                    assert(x@ =~= p.bytes@);
                    push_lit(&mut x, 47u8);
                    push_lit(&mut x, 120u8);
                    out.push(a);
                    out.push(s);
                    out.push(x);
                }
            },
            PatKind::Exact => {
                let a = p.bytes.clone();
                assert(a@ =~= p.bytes@);
                out.push(a);
            },
        }
        assert(out@.map_values(|c: Vec<u8>| c@) =~= before + cand_one(p@));
        j = j + 1;
    }
    assert(ps.take(r.includes.len() as int) =~= ps);
    out
}

} // verus!
