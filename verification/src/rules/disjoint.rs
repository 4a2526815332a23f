//! When two rules can answer the same request. Whether a path matches a
//! rule's patterns depends only on which pattern bases (an exact path, or
//! a prefix with its `/`) start the path and which equal it; so a path
//! two rules share, if there is one, can be found among the bases of
//! their patterns and the bases with one more byte.
use vstd::prelude::*;
use crate::rules::pattern::{Pat, PatKind, PatV, Rule, RuleV, METHODS_ALL};
use crate::rules::scan::{any_matches, any_pat_match, method_ok, pat_matches, rule_matches_spec};

verus! {

/// The method bits a request can carry: none (an unknown method), or the
/// bit of one method.
pub open spec fn is_request_bit(bit: u16) -> bool {
    bit == 0 || bit == 1 || bit == 2 || bit == 4 || bit == 8 || bit == 16 || bit == 32 || bit == 64 || bit == 128
        || bit == 256
}

/// The method bits a mask admits.
pub open spec fn method_bits(m: u16) -> u16 {
    if m == METHODS_ALL {
        511
    } else {
        m & 511
    }
}

/// Two method masks admit a common request.
pub open spec fn methods_meet(a: u16, b: u16) -> bool {
    (a == METHODS_ALL && b == METHODS_ALL) || (method_bits(a) & method_bits(b)) != 0
}

pub fn methods_meet_exec(a: u16, b: u16) -> (r: bool)
    ensures
        r == methods_meet(a, b),
{
    if a == METHODS_ALL && b == METHODS_ALL {
        return true;
    }
    let ma: u16 = if a == METHODS_ALL { 511 } else { a & 511 };
    let mb: u16 = if b == METHODS_ALL { 511 } else { b & 511 };
    (ma & mb) != 0
}

/// A request bit that both masks admit means the masks meet.
pub proof fn lemma_bit_meets(a: u16, b: u16, bit: u16)
    requires
        is_request_bit(bit),
        method_ok(a, bit),
        method_ok(b, bit),
    ensures
        methods_meet(a, b),
{
    if bit == 0 {
        assert(a & 0 == 0) by (bit_vector);
        assert(b & 0 == 0) by (bit_vector);
    } else {
        assert((a == 0xFFFFu16 && b == 0xFFFFu16) || ((if a == 0xFFFFu16 { 511u16 } else { a & 511u16 }) & (if b
            == 0xFFFFu16 { 511u16 } else { b & 511u16 })) != 0u16) by (bit_vector)
            requires
                bit == 1u16 || bit == 2u16 || bit == 4u16 || bit == 8u16 || bit == 16u16 || bit == 32u16 || bit
                    == 64u16 || bit == 128u16 || bit == 256u16,
                a == 0xFFFFu16 || (a & bit) != 0u16,
                b == 0xFFFFu16 || (b & bit) != 0u16,
        ;
    }
}

/// The path part of a rule: some include matches and no exclude does.
pub open spec fn paths_admit(r: RuleV, path: Seq<u8>) -> bool {
    any_matches(r.includes, path) && !any_matches(r.excludes, path)
}

pub fn paths_admit_exec(r: &Rule, path: &[u8]) -> (res: bool)
    ensures
        res == paths_admit(r@, path@),
{
    any_pat_match(&r.includes, path) && !any_pat_match(&r.excludes, path)
}

/// Two rules answer a common request: some request bit and path match
/// both.
pub open spec fn rules_meet(a: RuleV, b: RuleV) -> bool {
    exists|bit: u16, path: Seq<u8>|
        is_request_bit(bit) && #[trigger] rule_matches_spec(a, bit, path) && #[trigger] rule_matches_spec(b, bit, path)
}

/// The string a pattern is about: the exact path, or the prefix with
/// its `/`.
pub open spec fn base(p: PatV) -> Seq<u8> {
    match p.0 {
        PatKind::Exact => p.1,
        PatKind::Prefix => p.1.push(47u8),
    }
}

pub open spec fn starts(x: Seq<u8>, w: Seq<u8>) -> bool {
    x.len() <= w.len() && w.take(x.len() as int) == x
}

/// A pattern matches exactly when the path is its base (exact) or
/// starts with it (prefix).
proof fn lemma_pat_base(p: PatV, w: Seq<u8>)
    ensures
        pat_matches(p, w) == match p.0 {
            PatKind::Exact => w == base(p),
            PatKind::Prefix => starts(base(p), w),
        },
{
    if p.0 == PatKind::Prefix {
        let n = p.1.len() as int;
        if pat_matches(p, w) {
            assert(w.take(n + 1) =~= p.1.push(47u8)) by {
                assert(w.take(n) == p.1);
                assert forall|k: int| 0 <= k < n implies w.take(n + 1)[k] == p.1.push(47u8)[k] by {
                    assert(w.take(n)[k] == p.1[k]);
                }
            }
        }
        if starts(base(p), w) {
            assert(w.take(n + 1)[n] == 47u8);
            assert(w.take(n) =~= w.take(n + 1).take(n));
            assert(p.1.push(47u8).take(n) =~= p.1);
        }
    }
}

pub open spec fn bases(ps: Seq<PatV>) -> Seq<Seq<u8>> {
    ps.map_values(|p: PatV| base(p))
}

/// The byte strings a base stands for as probes: itself, then itself
/// with each byte added.
pub open spec fn probes_one(x: Seq<u8>) -> Seq<Seq<u8>> {
    seq![x] + Seq::new(256, |c: int| x.push(c as u8))
}

pub open spec fn probes_of(bs: Seq<Seq<u8>>) -> Seq<Seq<u8>>
    decreases bs.len(),
{
    if bs.len() == 0 {
        seq![]
    } else {
        probes_of(bs.drop_last()) + probes_one(bs.last())
    }
}

/// The probes for a pair of rules: those of the bases of `a`'s includes
/// and excludes, then of `b`'s.
pub open spec fn pair_probes(a: RuleV, b: RuleV) -> Seq<Seq<u8>> {
    probes_of(bases(a.includes)) + probes_of(bases(a.excludes)) + probes_of(bases(b.includes)) + probes_of(
        bases(b.excludes),
    )
}

pub open spec fn has_probe(ps: Seq<Seq<u8>>, x: Seq<u8>) -> bool {
    exists|k: int| 0 <= k < ps.len() && ps[k] == x
}

proof fn lemma_probes_of_has(bs: Seq<Seq<u8>>, i: int, c: int)
    requires
        0 <= i < bs.len(),
        0 <= c < 256,
    ensures
        has_probe(probes_of(bs), bs[i]),
        has_probe(probes_of(bs), bs[i].push(c as u8)),
    decreases bs.len(),
{
    let pre = probes_of(bs.drop_last());
    let one = probes_one(bs.last());
    assert(probes_of(bs) == pre + one);
    if i == bs.len() - 1 {
        assert((pre + one)[pre.len() as int] == bs[i]);
        assert((pre + one)[pre.len() + 1 + c] == one[1 + c]);
        assert(one[1 + c] == bs[i].push(c as u8));
    } else {
        lemma_probes_of_has(bs.drop_last(), i, c);
        assert(bs.drop_last()[i] == bs[i]);
        let k1 = choose|k: int| 0 <= k < pre.len() && pre[k] == bs[i];
        assert((pre + one)[k1] == pre[k1]);
        let k2 = choose|k: int| 0 <= k < pre.len() && pre[k] == bs[i].push(c as u8);
        assert((pre + one)[k2] == pre[k2]);
    }
}

/// All bases of the pair, in probe order.
pub open spec fn pair_bases(a: RuleV, b: RuleV) -> Seq<Seq<u8>> {
    bases(a.includes) + bases(a.excludes) + bases(b.includes) + bases(b.excludes)
}

proof fn lemma_pair_probes_has(a: RuleV, b: RuleV, i: int, c: int)
    requires
        0 <= i < pair_bases(a, b).len(),
        0 <= c < 256,
    ensures
        has_probe(pair_probes(a, b), pair_bases(a, b)[i]),
        has_probe(pair_probes(a, b), pair_bases(a, b)[i].push(c as u8)),
{
    let b1 = bases(a.includes);
    let b2 = bases(a.excludes);
    let b3 = bases(b.includes);
    let b4 = bases(b.excludes);
    let p1 = probes_of(b1);
    let p2 = probes_of(b2);
    let p3 = probes_of(b3);
    let p4 = probes_of(b4);
    let all = p1 + p2 + p3 + p4;
    let x = pair_bases(a, b)[i];
    let y = x.push(c as u8);
    if i < b1.len() {
        lemma_probes_of_has(b1, i, c);
        assert(x == b1[i]);
        let k1 = choose|k: int| 0 <= k < p1.len() && p1[k] == x;
        assert(all[k1] == p1[k1]);
        let k2 = choose|k: int| 0 <= k < p1.len() && p1[k] == y;
        assert(all[k2] == p1[k2]);
    } else if i < b1.len() + b2.len() {
        let j = i - b1.len();
        lemma_probes_of_has(b2, j, c);
        assert(x == b2[j]);
        let k1 = choose|k: int| 0 <= k < p2.len() && p2[k] == x;
        assert(all[p1.len() + k1] == p2[k1]);
        let k2 = choose|k: int| 0 <= k < p2.len() && p2[k] == y;
        assert(all[p1.len() + k2] == p2[k2]);
    } else if i < b1.len() + b2.len() + b3.len() {
        let j = i - b1.len() - b2.len();
        lemma_probes_of_has(b3, j, c);
        assert(x == b3[j]);
        let k1 = choose|k: int| 0 <= k < p3.len() && p3[k] == x;
        assert(all[p1.len() + p2.len() + k1] == p3[k1]);
        let k2 = choose|k: int| 0 <= k < p3.len() && p3[k] == y;
        assert(all[p1.len() + p2.len() + k2] == p3[k2]);
    } else {
        let j = i - b1.len() - b2.len() - b3.len();
        lemma_probes_of_has(b4, j, c);
        assert(x == b4[j]);
        let k1 = choose|k: int| 0 <= k < p4.len() && p4[k] == x;
        assert(all[p1.len() + p2.len() + p3.len() + k1] == p4[k1]);
        let k2 = choose|k: int| 0 <= k < p4.len() && p4[k] == y;
        assert(all[p1.len() + p2.len() + p3.len() + k2] == p4[k2]);
    }
}

/// The longest base among the first `n` that starts `w` (-1: none).
pub open spec fn longest_from(bs: Seq<Seq<u8>>, w: Seq<u8>, n: int) -> int
    decreases n,
{
    if n <= 0 {
        -1
    } else {
        let k = longest_from(bs, w, n - 1);
        if starts(bs[n - 1], w) && (k < 0 || bs[k].len() < bs[n - 1].len()) {
            n - 1
        } else {
            k
        }
    }
}

proof fn lemma_longest(bs: Seq<Seq<u8>>, w: Seq<u8>, n: int)
    requires
        0 <= n <= bs.len(),
    ensures
        -1 <= longest_from(bs, w, n) < n,
        longest_from(bs, w, n) >= 0 ==> starts(bs[longest_from(bs, w, n)], w),
        forall|k: int|
            0 <= k < n && #[trigger] starts(bs[k], w) ==> longest_from(bs, w, n) >= 0 && bs[k].len() <= bs[longest_from(
                bs,
                w,
                n,
            )].len(),
    decreases n,
{
    if n > 0 {
        lemma_longest(bs, w, n - 1);
    }
}

/// Every pattern of the pair has its base among the pair's bases.
proof fn lemma_base_in(ps: Seq<PatV>, j: int, all: Seq<Seq<u8>>, off: int)
    requires
        0 <= j < ps.len(),
        0 <= off,
        off + ps.len() <= all.len(),
        forall|k: int| 0 <= k < ps.len() ==> all[off + k] == #[trigger] bases(ps)[k],
    ensures
        all[off + j] == base(ps[j]),
{
    assert(bases(ps)[j] == base(ps[j]));
}

/// A path `w` and the same path cut one byte after its longest starting
/// base match every pattern of the pair alike.
proof fn lemma_cut_same(ps: Seq<PatV>, all: Seq<Seq<u8>>, off: int, w: Seq<u8>, x: int)
    requires
        0 <= off,
        off + ps.len() <= all.len(),
        forall|k: int| 0 <= k < ps.len() ==> all[off + k] == #[trigger] bases(ps)[k],
        0 <= x < all.len(),
        starts(all[x], w),
        all[x].len() < w.len(),
        forall|k: int| 0 <= k < all.len() && #[trigger] starts(all[k], w) ==> all[k].len() <= all[x].len(),
    ensures
        any_matches(ps, w) == any_matches(ps, w.take(all[x].len() as int + 1)),
{
    let w2 = w.take(all[x].len() as int + 1);
    assert forall|j: int| 0 <= j < ps.len() implies pat_matches(#[trigger] ps[j], w) == pat_matches(ps[j], w2) by {
        lemma_base_in(ps, j, all, off);
        let bj = base(ps[j]);
        assert(all[off + j] == bj);
        lemma_pat_base(ps[j], w);
        lemma_pat_base(ps[j], w2);
        if ps[j].0 == PatKind::Exact {
            if w == bj {
                assert(w.take(bj.len() as int) =~= bj);
                assert(starts(all[off + j], w));
            }
            if w2 == bj {
                assert(w.take(bj.len() as int) =~= w2);
                assert(starts(all[off + j], w));
            }
        } else {
            if starts(bj, w) {
                assert(starts(all[off + j], w));
                assert(w2.take(bj.len() as int) =~= w.take(bj.len() as int));
            }
            if starts(bj, w2) {
                assert(w.take(bj.len() as int) =~= w2.take(bj.len() as int));
            }
        }
    }
    if any_matches(ps, w) {
        let j = choose|j: int| 0 <= j < ps.len() && pat_matches(#[trigger] ps[j], w);
        assert(pat_matches(ps[j], w2));
    }
    if any_matches(ps, w2) {
        let j = choose|j: int| 0 <= j < ps.len() && pat_matches(#[trigger] ps[j], w2);
        assert(pat_matches(ps[j], w));
    }
}

/// Completeness of the probes: a path both rules admit yields a probe
/// both rules admit.
pub proof fn lemma_probe_complete(a: RuleV, b: RuleV, w: Seq<u8>)
    requires
        paths_admit(a, w),
        paths_admit(b, w),
    ensures
        exists|k: int|
            0 <= k < pair_probes(a, b).len() && paths_admit(a, #[trigger] pair_probes(a, b)[k]) && paths_admit(
                b,
                pair_probes(a, b)[k],
            ),
{
    let all = pair_bases(a, b);
    let o2 = bases(a.includes).len() as int;
    let o3 = o2 + bases(a.excludes).len();
    let o4 = o3 + bases(b.includes).len();
    assert forall|k: int| 0 <= k < a.includes.len() implies all[0 + k] == #[trigger] bases(a.includes)[k] by {}
    assert forall|k: int| 0 <= k < a.excludes.len() implies all[o2 + k] == #[trigger] bases(a.excludes)[k] by {}
    assert forall|k: int| 0 <= k < b.includes.len() implies all[o3 + k] == #[trigger] bases(b.includes)[k] by {}
    assert forall|k: int| 0 <= k < b.excludes.len() implies all[o4 + k] == #[trigger] bases(b.excludes)[k] by {}
    // a's include that matches w has its base starting w
    let j = choose|j: int| 0 <= j < a.includes.len() && pat_matches(#[trigger] a.includes[j], w);
    lemma_base_in(a.includes, j, all, 0);
    lemma_pat_base(a.includes[j], w);
    if a.includes[j].0 == PatKind::Exact {
        assert(w.take(w.len() as int) =~= w);
    }
    assert(starts(all[j], w));
    lemma_longest(all, w, all.len() as int);
    let x = longest_from(all, w, all.len() as int);
    assert(0 <= x < all.len());
    let xs = all[x];
    if xs.len() == w.len() {
        assert(w =~= xs) by {
            assert(w.take(xs.len() as int) =~= w);
        }
        lemma_pair_probes_has(a, b, x, 0);
        let k = choose|k: int| 0 <= k < pair_probes(a, b).len() && pair_probes(a, b)[k] == xs;
        assert(paths_admit(a, pair_probes(a, b)[k]));
    } else {
        let w2 = w.take(xs.len() as int + 1);
        lemma_cut_same(a.includes, all, 0, w, x);
        lemma_cut_same(a.excludes, all, o2, w, x);
        lemma_cut_same(b.includes, all, o3, w, x);
        lemma_cut_same(b.excludes, all, o4, w, x);
        let c = w[xs.len() as int];
        lemma_pair_probes_has(a, b, x, c as int);
        assert(w2 =~= xs.push(c)) by {
            assert(w.take(xs.len() as int) == xs);
        }
        let k = choose|k: int| 0 <= k < pair_probes(a, b).len() && pair_probes(a, b)[k] == xs.push((c as int) as u8);
        assert(pair_probes(a, b)[k] == w2);
    }
}

/// Adds the probes of a list of patterns.
fn push_probes(out: &mut Vec<Vec<u8>>, ps: &Vec<Pat>)
    ensures
        final(out)@.map_values(|v: Vec<u8>| v@) == old(out)@.map_values(|v: Vec<u8>| v@) + probes_of(
            bases(ps@.map_values(|p: Pat| p@)),
        ),
{
    let ghost pv = ps@.map_values(|p: Pat| p@);
    let ghost start = out@.map_values(|v: Vec<u8>| v@);
    let mut j: usize = 0;
    while j < ps.len()
        invariant
            j <= ps.len(),
            pv == ps@.map_values(|p: Pat| p@),
            out@.map_values(|v: Vec<u8>| v@) == start + probes_of(bases(pv.take(j as int))),
        decreases ps.len() - j,
    {
        let ghost before = out@.map_values(|v: Vec<u8>| v@);
        let p = &ps[j];
        let mut x = p.bytes.clone();
        assert(x@ =~= p.bytes@);
        match p.kind {
            PatKind::Prefix => x.push(47u8),
            PatKind::Exact => {},
        }
        assert(x@ == base(pv[j as int]));
        out.push(x.clone());
        let mut c: usize = 0;
        while c < 256
            invariant
                c <= 256,
                out@.map_values(|v: Vec<u8>| v@) == before + seq![x@] + Seq::new(
                    c as nat,
                    |k: int| x@.push(k as u8),
                ),
            decreases 256 - c,
        {
            let ghost mid = out@.map_values(|v: Vec<u8>| v@);
            let mut y = x.clone();
            y.push(c as u8);
            out.push(y);
            assert(out@.map_values(|v: Vec<u8>| v@) =~= mid.push(x@.push(c as u8)));
            assert(Seq::new((c + 1) as nat, |k: int| x@.push(k as u8)) =~= Seq::new(
                c as nat,
                |k: int| x@.push(k as u8),
            ).push(x@.push(c as u8)));
            c = c + 1;
        }
        proof {
            let t1 = pv.take(j + 1);
            assert(bases(t1).drop_last() =~= bases(pv.take(j as int)));
            assert(bases(t1).last() == x@);
            assert(seq![x@] + Seq::new(256, |k: int| x@.push(k as u8)) == probes_one(x@));
            assert(out@.map_values(|v: Vec<u8>| v@) =~= start + probes_of(bases(t1)));
        }
        j = j + 1;
    }
    assert(pv.take(ps.len() as int) =~= pv);
}

/// The probes for a pair of rules.
pub fn pair_probes_exec(a: &Rule, b: &Rule) -> (out: Vec<Vec<u8>>)
    ensures
        out@.map_values(|v: Vec<u8>| v@) == pair_probes(a@, b@),
{
    let mut out: Vec<Vec<u8>> = Vec::new();
    assert(out@.map_values(|v: Vec<u8>| v@) =~= Seq::<Seq<u8>>::empty());
    push_probes(&mut out, &a.includes);
    push_probes(&mut out, &a.excludes);
    push_probes(&mut out, &b.includes);
    push_probes(&mut out, &b.excludes);
    assert(out@.map_values(|v: Vec<u8>| v@) =~= pair_probes(a@, b@));
    out
}

} // verus!
