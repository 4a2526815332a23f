//! The automaton answers every request as the linear scan does.
use vstd::prelude::*;
use crate::rules::pattern::{PatKind, PatV, RuleV};
use crate::rules::scan::{pat_matches, any_matches, method_ok, rule_matches_spec, linear_match, lemma_first_match_props};
use crate::rules::trie::{
    Item, node_str, rule_items, items_upto, all_items, is_term, term_pairs, term_idx, prefix_of, in_trie,
    walk_from, walk_len, pairs_admit, pfx_included_upto, pfx_excluded_upto, trie_hit, trie_answer, lemma_lowest_hit,
    lemma_items_upto_index, TRIE_MAX_RULES,
};

verus! {

/// Each item of the first `n` rules is a pattern of the rule it names,
/// with that rule's method mask.
proof fn lemma_item_sound(rv: Seq<RuleV>, n: int, x: int)
    requires
        0 <= n <= rv.len(),
        0 <= x < items_upto(rv, n).len(),
    ensures
        0 <= items_upto(rv, n)[x].0 < n,
        items_upto(rv, n)[x].1 == rv[items_upto(rv, n)[x].0].methods,
        items_upto(rv, n)[x].2 ==> rv[items_upto(rv, n)[x].0].includes.contains(items_upto(rv, n)[x].3),
        !items_upto(rv, n)[x].2 ==> rv[items_upto(rv, n)[x].0].excludes.contains(items_upto(rv, n)[x].3),
    decreases n,
{
    let a = items_upto(rv, n - 1);
    let r = rv[n - 1];
    let b = rule_items(n - 1, r);
    assert(items_upto(rv, n) == a + b);
    if x < a.len() {
        lemma_item_sound(rv, n - 1, x);
        assert(items_upto(rv, n)[x] == a[x]);
    } else {
        let k = x - a.len();
        assert(items_upto(rv, n)[x] == b[k]);
        if k < r.includes.len() {
            assert(b[k] == (n - 1, r.methods, true, r.includes[k]));
            assert(r.includes.contains(r.includes[k]));
        } else {
            let e = k - r.includes.len();
            assert(b[k] == (n - 1, r.methods, false, r.excludes[e]));
            assert(r.excludes.contains(r.excludes[e]));
        }
    }
}

/// Each pattern of each of the first `n` rules is an item.
proof fn lemma_item_complete(rv: Seq<RuleV>, n: int, r: int, p: PatV, inc: bool)
    requires
        0 <= r < n <= rv.len(),
        inc ==> rv[r].includes.contains(p),
        !inc ==> rv[r].excludes.contains(p),
    ensures
        exists|x: int| 0 <= x < items_upto(rv, n).len() && #[trigger] items_upto(rv, n)[x] == (r, rv[r].methods, inc, p),
    decreases n,
{
    let a = items_upto(rv, n - 1);
    let rr = rv[n - 1];
    let b = rule_items(n - 1, rr);
    assert(items_upto(rv, n) == a + b);
    if r < n - 1 {
        lemma_item_complete(rv, n - 1, r, p, inc);
        let x = choose|x: int| 0 <= x < a.len() && #[trigger] a[x] == (r, rv[r].methods, inc, p);
        assert(items_upto(rv, n)[x] == a[x]);
    } else if inc {
        let k = choose|k: int| 0 <= k < rr.includes.len() && rr.includes[k] == p;
        assert(b[k] == (n - 1, rr.methods, true, rr.includes[k]));
        assert(items_upto(rv, n)[a.len() + k] == b[k]);
    } else {
        let k = choose|k: int| 0 <= k < rr.excludes.len() && rr.excludes[k] == p;
        assert(b[rr.includes.len() + k] == (n - 1, rr.methods, false, rr.excludes[k]));
        assert(items_upto(rv, n)[a.len() + rr.includes.len() + k] == b[rr.includes.len() + k]);
    }
}

/// Each terminal pair comes from a terminal item.
proof fn lemma_pairs_sound(its: Seq<Item>, inc: bool, kind: PatKind, s: Seq<u8>, k: int)
    requires
        0 <= k < term_pairs(its, inc, kind, s).len(),
    ensures
        exists|x: int|
            0 <= x < its.len() && is_term(#[trigger] its[x], inc, kind, s) && term_pairs(its, inc, kind, s)[k] == (
                its[x].0 as u16,
                its[x].1,
            ),
    decreases its.len(),
{
    let init = its.drop_last();
    let rest = term_pairs(init, inc, kind, s);
    if k < rest.len() {
        lemma_pairs_sound(init, inc, kind, s, k);
        let x = choose|x: int|
            0 <= x < init.len() && is_term(#[trigger] init[x], inc, kind, s) && rest[k] == (init[x].0 as u16, init[x].1);
        assert(its[x] == init[x]);
        assert(term_pairs(its, inc, kind, s)[k] == rest[k]);
    } else {
        assert(its[its.len() - 1] == its.last());
    }
}

/// Each terminal item gives a terminal pair.
proof fn lemma_pairs_complete(its: Seq<Item>, inc: bool, kind: PatKind, s: Seq<u8>, x: int)
    requires
        0 <= x < its.len(),
        is_term(its[x], inc, kind, s),
    ensures
        exists|k: int|
            0 <= k < term_pairs(its, inc, kind, s).len() && #[trigger] term_pairs(its, inc, kind, s)[k] == (
                its[x].0 as u16,
                its[x].1,
            ),
    decreases its.len(),
{
    let init = its.drop_last();
    let rest = term_pairs(init, inc, kind, s);
    if x < init.len() {
        assert(its[x] == init[x]);
        lemma_pairs_complete(init, inc, kind, s, x);
        let k = choose|k: int| 0 <= k < rest.len() && #[trigger] rest[k] == (init[x].0 as u16, init[x].1);
        assert(term_pairs(its, inc, kind, s)[k] == rest[k]);
    } else {
        assert(its[x] == its.last());
        assert(term_pairs(its, inc, kind, s)[rest.len() as int] == (its[x].0 as u16, its[x].1));
    }
}

/// A rule index is among the terminal indices exactly when a terminal item names it.
proof fn lemma_idx_iff(its: Seq<Item>, inc: bool, kind: PatKind, s: Seq<u8>, r: u16)
    ensures
        term_idx(its, inc, kind, s).contains(r) <==> exists|x: int|
            0 <= x < its.len() && is_term(#[trigger] its[x], inc, kind, s) && its[x].0 as u16 == r,
    decreases its.len(),
{
    if its.len() > 0 {
        let init = its.drop_last();
        let rest = term_idx(init, inc, kind, s);
        lemma_idx_iff(init, inc, kind, s, r);
        let full = term_idx(its, inc, kind, s);
        if rest.contains(r) {
            let k = choose|k: int| 0 <= k < rest.len() && rest[k] == r;
            assert(full[k] == rest[k]);
            let x = choose|x: int| 0 <= x < init.len() && is_term(#[trigger] init[x], inc, kind, s) && init[x].0 as u16 == r;
            assert(its[x] == init[x]);
        }
        if exists|x: int| 0 <= x < its.len() && is_term(#[trigger] its[x], inc, kind, s) && its[x].0 as u16 == r {
            let x = choose|x: int| 0 <= x < its.len() && is_term(#[trigger] its[x], inc, kind, s) && its[x].0 as u16 == r;
            if x < init.len() {
                assert(its[x] == init[x]);
                assert(rest.contains(r));
                let k = choose|k: int| 0 <= k < rest.len() && rest[k] == r;
                assert(full[k] == rest[k]);
            } else {
                assert(its[x] == its.last());
                assert(full[rest.len() as int] == r);
            }
        }
        if full.contains(r) {
            let k = choose|k: int| 0 <= k < full.len() && full[k] == r;
            if k < rest.len() {
                assert(full[k] == rest[k]);
            } else {
                assert(its[its.len() - 1] == its.last());
            }
        }
    }
}

proof fn lemma_walk_bounds(its: Seq<Item>, path: Seq<u8>, k: int)
    requires
        0 <= k <= path.len(),
    ensures
        k <= walk_from(its, path, k) <= path.len(),
    decreases path.len() - k,
{
    if k < path.len() && in_trie(its, path.take(k + 1)) {
        lemma_walk_bounds(its, path, k + 1);
    }
}

proof fn lemma_walk_reaches(its: Seq<Item>, path: Seq<u8>, k: int, m: int)
    requires
        0 <= k <= m <= path.len(),
        forall|j: int| k < j <= m ==> in_trie(its, #[trigger] path.take(j)),
    ensures
        walk_from(its, path, k) >= m,
    decreases m - k,
{
    if k < m {
        assert(in_trie(its, path.take(k + 1)));
        lemma_walk_reaches(its, path, k + 1, m);
    } else {
        lemma_walk_bounds(its, path, k);
    }
}

/// The walk gets at least as far as any item's string that begins the path.
proof fn lemma_walk_covers(its: Seq<Item>, path: Seq<u8>, x: int)
    requires
        0 <= x < its.len(),
        prefix_of(node_str(its[x].3), path),
    ensures
        walk_len(its, path) >= node_str(its[x].3).len(),
{
    let t = node_str(its[x].3);
    assert forall|j: int| 0 < j <= t.len() implies in_trie(its, #[trigger] path.take(j)) by {
        assert(t.take(j) =~= path.take(j));
        assert(prefix_of(path.take(j), node_str(its[x].3)));
    }
    lemma_walk_reaches(its, path, 0, t.len() as int);
}

/// A rule has an admitting prefix include on the first `i` steps exactly
/// when one of those states lists it with an admitting mask.
proof fn lemma_pfx_included(its: Seq<Item>, bit: u16, path: Seq<u8>, i: int, r: u16)
    requires
        0 <= i,
    ensures
        pfx_included_upto(its, bit, path, i, r) <==> exists|q: int|
            1 <= q <= i && #[trigger] pairs_admit(term_pairs(its, true, PatKind::Prefix, path.take(q)), bit, r),
    decreases i,
{
    if i > 0 {
        lemma_pfx_included(its, bit, path, i - 1, r);
        if exists|q: int| 1 <= q <= i && #[trigger] pairs_admit(term_pairs(its, true, PatKind::Prefix, path.take(q)), bit, r) {
            let q = choose|q: int|
                1 <= q <= i && #[trigger] pairs_admit(term_pairs(its, true, PatKind::Prefix, path.take(q)), bit, r);
            if q < i {
                assert(pairs_admit(term_pairs(its, true, PatKind::Prefix, path.take(q)), bit, r));
            }
        }
    }
}

/// A rule is excluded by the prefix states of the first `i` steps exactly
/// when one of those states lists it.
proof fn lemma_pfx_excluded(its: Seq<Item>, path: Seq<u8>, i: int, r: u16)
    requires
        0 <= i,
    ensures
        pfx_excluded_upto(its, path, i, r) <==> exists|q: int|
            1 <= q <= i && #[trigger] term_idx(its, false, PatKind::Prefix, path.take(q)).contains(r),
    decreases i,
{
    if i > 0 {
        lemma_pfx_excluded(its, path, i - 1, r);
        if exists|q: int| 1 <= q <= i && #[trigger] term_idx(its, false, PatKind::Prefix, path.take(q)).contains(r) {
            let q = choose|q: int| 1 <= q <= i && #[trigger] term_idx(its, false, PatKind::Prefix, path.take(q)).contains(r);
            if q < i {
                assert(term_idx(its, false, PatKind::Prefix, path.take(q)).contains(r));
            }
        }
    }
}

/// A prefix pattern matches exactly when its automaton string begins the path.
proof fn lemma_prefix_match(p: PatV, path: Seq<u8>)
    requires
        p.0 == PatKind::Prefix,
    ensures
        pat_matches(p, path) <==> prefix_of(node_str(p), path),
{
    let t = node_str(p);
    if pat_matches(p, path) {
        assert(path.take(t.len() as int) =~= t);
    }
    if prefix_of(t, path) {
        assert(path.take(t.len() as int)[p.1.len() as int] == t[p.1.len() as int]);
        assert(path.take(p.1.len() as int) =~= t.take(p.1.len() as int));
        assert(t.take(p.1.len() as int) =~= p.1);
    }
}

/// An exact pattern equal to the path matches it.
proof fn lemma_exact_match(p: PatV, path: Seq<u8>)
    requires
        p.0 == PatKind::Exact,
    ensures
        pat_matches(p, path) <==> node_str(p) == path,
{
}

/// The automaton finds an include of rule `ri` exactly when one of its
/// include patterns matches the path under an admitting method.
proof fn lemma_inc_iff(rv: Seq<RuleV>, bit: u16, path: Seq<u8>, ri: int)
    requires
        rv.len() <= TRIE_MAX_RULES,
        0 <= ri < rv.len(),
    ensures
        ({
            let its = all_items(rv);
            let w = walk_len(its, path);
            pfx_included_upto(its, bit, path, w, ri as u16) || (w == path.len() && pairs_admit(
                term_pairs(its, true, PatKind::Exact, path.take(w)),
                bit,
                ri as u16,
            ))
        }) <==> (method_ok(rv[ri].methods, bit) && any_matches(rv[ri].includes, path)),
{
    let its = all_items(rv);
    let n = rv.len() as int;
    let w = walk_len(its, path);
    let r = ri as u16;
    lemma_walk_bounds(its, path, 0);
    lemma_pfx_included(its, bit, path, w, r);
    lemma_items_upto_index(rv, n);
    if pfx_included_upto(its, bit, path, w, r) {
        let q = choose|q: int|
            1 <= q <= w && #[trigger] pairs_admit(term_pairs(its, true, PatKind::Prefix, path.take(q)), bit, r);
        let xs = term_pairs(its, true, PatKind::Prefix, path.take(q));
        let k = choose|k: int| 0 <= k < xs.len() && (#[trigger] xs[k]).0 == r && method_ok(xs[k].1, bit);
        lemma_pairs_sound(its, true, PatKind::Prefix, path.take(q), k);
        let x = choose|x: int|
            0 <= x < its.len() && is_term(#[trigger] its[x], true, PatKind::Prefix, path.take(q)) && xs[k] == (
                its[x].0 as u16,
                its[x].1,
            );
        lemma_item_sound(rv, n, x);
        assert(its[x].0 == ri);
        let p = its[x].3;
        assert(prefix_of(node_str(p), path));
        lemma_prefix_match(p, path);
        let j = choose|j: int| 0 <= j < rv[ri].includes.len() && rv[ri].includes[j] == p;
        assert(pat_matches(rv[ri].includes[j], path));
    }
    if w == path.len() && pairs_admit(term_pairs(its, true, PatKind::Exact, path.take(w)), bit, r) {
        let xs = term_pairs(its, true, PatKind::Exact, path.take(w));
        let k = choose|k: int| 0 <= k < xs.len() && (#[trigger] xs[k]).0 == r && method_ok(xs[k].1, bit);
        lemma_pairs_sound(its, true, PatKind::Exact, path.take(w), k);
        let x = choose|x: int|
            0 <= x < its.len() && is_term(#[trigger] its[x], true, PatKind::Exact, path.take(w)) && xs[k] == (
                its[x].0 as u16,
                its[x].1,
            );
        lemma_item_sound(rv, n, x);
        assert(its[x].0 == ri);
        let p = its[x].3;
        assert(path.take(w) =~= path);
        lemma_exact_match(p, path);
        let j = choose|j: int| 0 <= j < rv[ri].includes.len() && rv[ri].includes[j] == p;
        assert(pat_matches(rv[ri].includes[j], path));
    }
    if method_ok(rv[ri].methods, bit) && any_matches(rv[ri].includes, path) {
        let j = choose|j: int| 0 <= j < rv[ri].includes.len() && pat_matches(#[trigger] rv[ri].includes[j], path);
        let p = rv[ri].includes[j];
        assert(rv[ri].includes.contains(p));
        lemma_item_complete(rv, n, ri, p, true);
        let x = choose|x: int| 0 <= x < its.len() && #[trigger] its[x] == (ri, rv[ri].methods, true, p);
        if p.0 == PatKind::Prefix {
            lemma_prefix_match(p, path);
            lemma_walk_covers(its, path, x);
            let q = node_str(p).len() as int;
            assert(path.take(q) == node_str(p));
            lemma_pairs_complete(its, true, PatKind::Prefix, path.take(q), x);
            let xs = term_pairs(its, true, PatKind::Prefix, path.take(q));
            let k = choose|k: int| 0 <= k < xs.len() && #[trigger] xs[k] == (its[x].0 as u16, its[x].1);
            assert(xs[k].0 == r && method_ok(xs[k].1, bit));
            assert(pairs_admit(xs, bit, r));
            assert(node_str(p).len() >= 1);
        } else {
            lemma_exact_match(p, path);
            assert(path.take(path.len() as int) =~= path);
            assert(prefix_of(node_str(p), path));
            lemma_walk_covers(its, path, x);
            assert(path.take(w) =~= path);
            lemma_pairs_complete(its, true, PatKind::Exact, path.take(w), x);
            let xs = term_pairs(its, true, PatKind::Exact, path.take(w));
            let k = choose|k: int| 0 <= k < xs.len() && #[trigger] xs[k] == (its[x].0 as u16, its[x].1);
            assert(xs[k].0 == r && method_ok(xs[k].1, bit));
            assert(pairs_admit(xs, bit, r));
        }
    }
}

/// The automaton finds an exclude of rule `ri` exactly when one of its
/// exclude patterns matches the path.
proof fn lemma_exc_iff(rv: Seq<RuleV>, path: Seq<u8>, ri: int)
    requires
        rv.len() <= TRIE_MAX_RULES,
        0 <= ri < rv.len(),
    ensures
        ({
            let its = all_items(rv);
            let w = walk_len(its, path);
            pfx_excluded_upto(its, path, w, ri as u16) || (w == path.len() && term_idx(
                its,
                false,
                PatKind::Exact,
                path.take(w),
            ).contains(ri as u16))
        }) <==> any_matches(rv[ri].excludes, path),
{
    let its = all_items(rv);
    let n = rv.len() as int;
    let w = walk_len(its, path);
    let r = ri as u16;
    lemma_walk_bounds(its, path, 0);
    lemma_pfx_excluded(its, path, w, r);
    lemma_idx_iff(its, false, PatKind::Exact, path.take(w), r);
    lemma_items_upto_index(rv, n);
    if pfx_excluded_upto(its, path, w, r) {
        let q = choose|q: int| 1 <= q <= w && #[trigger] term_idx(its, false, PatKind::Prefix, path.take(q)).contains(r);
        lemma_idx_iff(its, false, PatKind::Prefix, path.take(q), r);
        let x = choose|x: int|
            0 <= x < its.len() && is_term(#[trigger] its[x], false, PatKind::Prefix, path.take(q)) && its[x].0 as u16 == r;
        lemma_item_sound(rv, n, x);
        assert(its[x].0 == ri);
        let p = its[x].3;
        assert(prefix_of(node_str(p), path));
        lemma_prefix_match(p, path);
        let j = choose|j: int| 0 <= j < rv[ri].excludes.len() && rv[ri].excludes[j] == p;
        assert(pat_matches(rv[ri].excludes[j], path));
    }
    if w == path.len() && term_idx(its, false, PatKind::Exact, path.take(w)).contains(r) {
        let x = choose|x: int|
            0 <= x < its.len() && is_term(#[trigger] its[x], false, PatKind::Exact, path.take(w)) && its[x].0 as u16 == r;
        lemma_item_sound(rv, n, x);
        assert(its[x].0 == ri);
        let p = its[x].3;
        assert(path.take(w) =~= path);
        lemma_exact_match(p, path);
        let j = choose|j: int| 0 <= j < rv[ri].excludes.len() && rv[ri].excludes[j] == p;
        assert(pat_matches(rv[ri].excludes[j], path));
    }
    if any_matches(rv[ri].excludes, path) {
        let j = choose|j: int| 0 <= j < rv[ri].excludes.len() && pat_matches(#[trigger] rv[ri].excludes[j], path);
        let p = rv[ri].excludes[j];
        assert(rv[ri].excludes.contains(p));
        lemma_item_complete(rv, n, ri, p, false);
        let x = choose|x: int| 0 <= x < its.len() && #[trigger] its[x] == (ri, rv[ri].methods, false, p);
        if p.0 == PatKind::Prefix {
            lemma_prefix_match(p, path);
            lemma_walk_covers(its, path, x);
            let q = node_str(p).len() as int;
            assert(path.take(q) == node_str(p));
            lemma_idx_iff(its, false, PatKind::Prefix, path.take(q), r);
            assert(term_idx(its, false, PatKind::Prefix, path.take(q)).contains(r));
            assert(node_str(p).len() >= 1);
        } else {
            lemma_exact_match(p, path);
            assert(path.take(path.len() as int) =~= path);
            assert(prefix_of(node_str(p), path));
            lemma_walk_covers(its, path, x);
            assert(path.take(w) =~= path);
            assert(is_term(its[x], false, PatKind::Exact, path.take(w)));
        }
    }
}

/// No item names a rule index at or past the rule count, so the
/// automaton finds none there.
proof fn lemma_hit_out(rv: Seq<RuleV>, bit: u16, path: Seq<u8>, q: int)
    requires
        rv.len() <= TRIE_MAX_RULES,
        rv.len() <= q < 64,
    ensures
        !trie_hit(all_items(rv), bit, path, q as u16),
{
    let its = all_items(rv);
    let w = walk_len(its, path);
    let r = q as u16;
    lemma_walk_bounds(its, path, 0);
    lemma_pfx_included(its, bit, path, w, r);
    lemma_items_upto_index(rv, rv.len() as int);
    if pfx_included_upto(its, bit, path, w, r) {
        let q2 = choose|q2: int|
            1 <= q2 <= w && #[trigger] pairs_admit(term_pairs(its, true, PatKind::Prefix, path.take(q2)), bit, r);
        let xs = term_pairs(its, true, PatKind::Prefix, path.take(q2));
        let k = choose|k: int| 0 <= k < xs.len() && (#[trigger] xs[k]).0 == r && method_ok(xs[k].1, bit);
        lemma_pairs_sound(its, true, PatKind::Prefix, path.take(q2), k);
        let x = choose|x: int|
            0 <= x < its.len() && is_term(#[trigger] its[x], true, PatKind::Prefix, path.take(q2)) && xs[k] == (
                its[x].0 as u16,
                its[x].1,
            );
        assert(0 <= its[x].0 < rv.len());
    }
    if w == path.len() && pairs_admit(term_pairs(its, true, PatKind::Exact, path.take(w)), bit, r) {
        let xs = term_pairs(its, true, PatKind::Exact, path.take(w));
        let k = choose|k: int| 0 <= k < xs.len() && (#[trigger] xs[k]).0 == r && method_ok(xs[k].1, bit);
        lemma_pairs_sound(its, true, PatKind::Exact, path.take(w), k);
        let x = choose|x: int|
            0 <= x < its.len() && is_term(#[trigger] its[x], true, PatKind::Exact, path.take(w)) && xs[k] == (
                its[x].0 as u16,
                its[x].1,
            );
        assert(0 <= its[x].0 < rv.len());
    }
}

/// Law: the automaton answers every request as the linear scan does: it
/// finds exactly the rules that match, and answers the lowest of them.
pub proof fn law_automaton_agrees_with_scan(rv: Seq<RuleV>, bit: u16, path: Seq<u8>)
    requires
        rv.len() <= TRIE_MAX_RULES,
    ensures
        trie_answer(all_items(rv), bit, path) == linear_match(rv, bit, path),
{
    let its = all_items(rv);
    let n = rv.len() as int;
    assert forall|q: u16| q < n implies #[trigger] trie_hit(its, bit, path, q) == rule_matches_spec(
        rv[q as int],
        bit,
        path,
    ) by {
        lemma_inc_iff(rv, bit, path, q as int);
        lemma_exc_iff(rv, path, q as int);
    }
    assert forall|q: u16| n <= q < 64 implies !#[trigger] trie_hit(its, bit, path, q) by {
        lemma_hit_out(rv, bit, path, q as int);
    }
    lemma_lowest_hit(its, bit, path, 0);
    lemma_first_match_props(rv, bit, path, 0);
    match linear_match(rv, bit, path) {
        Some(k) => {
            assert(trie_hit(its, bit, path, k as u16));
            match trie_answer(its, bit, path) {
                Some(t) => {
                    if t < k {
                        assert(trie_hit(its, bit, path, t as u16));
                        assert(rule_matches_spec(rv[(t as u16) as int], bit, path));
                        assert(!rule_matches_spec(rv[t], bit, path));
                    }
                    if k < t {
                        assert(!trie_hit(its, bit, path, k as u16));
                    }
                },
                None => {},
            }
        },
        None => {
            match trie_answer(its, bit, path) {
                Some(t) => {
                    assert(trie_hit(its, bit, path, t as u16));
                    if t < n {
                        assert(rule_matches_spec(rv[(t as u16) as int], bit, path));
                        assert(!rule_matches_spec(rv[t], bit, path));
                    }
                },
                None => {},
            }
        },
    }
}

} // verus!
