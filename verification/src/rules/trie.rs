use vstd::prelude::*;
use crate::rules::pattern::{Pat, PatKind, PatV, Rule, RuleV};
use crate::rules::scan::{rules_view, method_ok};

verus! {

/// Below this many rules the linear scan is the cheaper realization.
pub const TRIE_MIN_RULES: usize = 16;
/// At most this many rules are realized as an automaton (the exclusion
/// set is a `u64` mask).
pub const TRIE_MAX_RULES: usize = 64;
/// Construction guard on the total pattern bytes.
pub const TRIE_MAX_BYTES: usize = 16 * 1024;

/// One pattern as the automaton sees it: rule index, the rule's method
/// mask, whether it includes (`true`) or excludes, and the pattern.
pub type Item = (int, u16, bool, PatV);

/// The string a pattern occupies in the automaton: `pre/` for `pre/*`,
/// the pattern itself for an exact one.
pub open spec fn node_str(p: PatV) -> Seq<u8> {
    if p.0 == PatKind::Prefix {
        p.1.push(47u8)
    } else {
        p.1
    }
}

pub open spec fn rule_items(r: int, rule: RuleV) -> Seq<Item> {
    rule.includes.map_values(|p: PatV| (r, rule.methods, true, p)) + rule.excludes.map_values(
        |p: PatV| (r, rule.methods, false, p),
    )
}

/// The patterns of the first `n` rules, rule by rule, includes before excludes.
pub open spec fn items_upto(rules: Seq<RuleV>, n: int) -> Seq<Item>
    decreases n,
{
    if n <= 0 || n > rules.len() {
        seq![]
    } else {
        items_upto(rules, n - 1) + rule_items(n - 1, rules[n - 1])
    }
}

pub open spec fn all_items(rules: Seq<RuleV>) -> Seq<Item> {
    items_upto(rules, rules.len() as int)
}

pub open spec fn is_term(it: Item, inc: bool, kind: PatKind, s: Seq<u8>) -> bool {
    it.2 == inc && it.3.0 == kind && node_str(it.3) == s
}

/// `(rule, methods)` of the items of the given side and kind that end at `s`, in order.
pub open spec fn term_pairs(its: Seq<Item>, inc: bool, kind: PatKind, s: Seq<u8>) -> Seq<(u16, u16)>
    decreases its.len(),
{
    if its.len() == 0 {
        seq![]
    } else {
        let rest = term_pairs(its.drop_last(), inc, kind, s);
        if is_term(its.last(), inc, kind, s) {
            rest.push((its.last().0 as u16, its.last().1))
        } else {
            rest
        }
    }
}

/// Rule indices of the items of the given side and kind that end at `s`, in order.
pub open spec fn term_idx(its: Seq<Item>, inc: bool, kind: PatKind, s: Seq<u8>) -> Seq<u16>
    decreases its.len(),
{
    if its.len() == 0 {
        seq![]
    } else {
        let rest = term_idx(its.drop_last(), inc, kind, s);
        if is_term(its.last(), inc, kind, s) {
            rest.push(its.last().0 as u16)
        } else {
            rest
        }
    }
}

pub open spec fn prefix_of(s: Seq<u8>, t: Seq<u8>) -> bool {
    s.len() <= t.len() && t.take(s.len() as int) == s
}

/// A string is a state of the automaton when it is empty or a prefix of
/// some pattern's string.
pub open spec fn in_trie(its: Seq<Item>, s: Seq<u8>) -> bool {
    s.len() == 0 || exists|i: int| 0 <= i < its.len() && prefix_of(s, node_str(#[trigger] its[i].3))
}

pub open spec fn total_len(its: Seq<Item>) -> nat
    decreases its.len(),
{
    if its.len() == 0 {
        0
    } else {
        total_len(its.drop_last()) + node_str(its.last().3).len()
    }
}

/// One automaton state: sorted byte transitions and the terminals ending here.
#[derive(Debug)]
pub struct TrieNode {
    pub children: Vec<(u8, u32)>,
    pub prefix_terms: Vec<(u16, u16)>,
    pub prefix_excludes: Vec<u16>,
    pub exact_terms: Vec<(u16, u16)>,
    pub exact_excludes: Vec<u16>,
}

impl TrieNode {
    pub fn empty() -> (r: TrieNode)
        ensures
            r.children@.len() == 0,
            r.prefix_terms@.len() == 0,
            r.prefix_excludes@.len() == 0,
            r.exact_terms@.len() == 0,
            r.exact_excludes@.len() == 0,
    {
        TrieNode {
            children: Vec::new(),
            prefix_terms: Vec::new(),
            prefix_excludes: Vec::new(),
            exact_terms: Vec::new(),
            exact_excludes: Vec::new(),
        }
    }
}

/// Deterministic automaton over the rule patterns. Node 0 is the root;
/// `paths` records the string that leads to each node.
pub struct PathTrie {
    pub nodes: Vec<TrieNode>,
    pub paths: Ghost<Seq<Seq<u8>>>,
}

pub open spec fn sorted_children(ch: Seq<(u8, u32)>) -> bool {
    forall|k1: int, k2: int| 0 <= k1 < k2 < ch.len() ==> (#[trigger] ch[k1]).0 < (#[trigger] ch[k2]).0
}

pub open spec fn has_child(ch: Seq<(u8, u32)>, b: u8, c: int) -> bool {
    exists|k: int| 0 <= k < ch.len() && (#[trigger] ch[k]).0 == b && ch[k].1 == c
}

impl PathTrie {
    pub open spec fn n(&self) -> int {
        self.nodes@.len() as int
    }

    pub open spec fn path(&self, v: int) -> Seq<u8> {
        self.paths@[v]
    }

    /// The shape invariant: node strings are distinct, the root is the
    /// empty string, every edge appends its byte, transitions are sorted,
    /// and every node other than the root hangs off its parent.
    pub open spec fn wf_struct(&self) -> bool {
        &&& self.n() >= 1
        &&& self.paths@.len() == self.n()
        &&& self.path(0) == Seq::<u8>::empty()
        &&& self.n() < 0x8000_0000
        &&& forall|v: int, w: int|
            0 <= v < self.n() && 0 <= w < self.n() && #[trigger] self.path(v) == #[trigger] self.path(w) ==> v == w
        &&& forall|v: int, k: int|
            0 <= v < self.n() && 0 <= k < self.nodes@[v].children@.len() ==> {
                let e = #[trigger] self.nodes@[v].children@[k];
                &&& (e.1 as int) < self.n()
                &&& self.path(e.1 as int) == self.path(v).push(e.0)
            }
        &&& forall|v: int| 0 <= v < self.n() ==> sorted_children(#[trigger] self.nodes@[v].children@)
        &&& forall|v: int, w: int|
            0 <= v < self.n() && 0 <= w < self.n() && (#[trigger] self.path(w)).len() > 0
                && self.path(w).drop_last() == #[trigger] self.path(v) ==> has_child(
                self.nodes@[v].children@,
                self.path(w).last(),
                w,
            )
        &&& forall|w: int|
            0 <= w < self.n() && (#[trigger] self.path(w)).len() > 0 ==> exists|q: int|
                0 <= q < self.n() && self.path(q) == self.path(w).drop_last()
    }

    /// The terminal lists of each node are exactly those of the items.
    pub open spec fn lists_for(&self, its: Seq<Item>) -> bool {
        forall|v: int|
            0 <= v < self.n() ==> {
                &&& (#[trigger] self.nodes@[v]).prefix_terms@ == term_pairs(its, true, PatKind::Prefix, self.path(v))
                &&& self.nodes@[v].exact_terms@ == term_pairs(its, true, PatKind::Exact, self.path(v))
                &&& self.nodes@[v].prefix_excludes@ == term_idx(its, false, PatKind::Prefix, self.path(v))
                &&& self.nodes@[v].exact_excludes@ == term_idx(its, false, PatKind::Exact, self.path(v))
            }
    }

    /// The automaton realizes exactly the given items.
    pub open spec fn wf(&self, its: Seq<Item>) -> bool {
        &&& self.wf_struct()
        &&& forall|v: int| 0 <= v < self.n() ==> in_trie(its, #[trigger] self.path(v))
        &&& forall|s: Seq<u8>| #[trigger] in_trie(its, s) ==> exists|w: int| 0 <= w < self.n() && self.path(w) == s
        &&& self.lists_for(its)
        &&& forall|i: int| 0 <= i < its.len() ==> 0 <= (#[trigger] its[i]).0 < 64
    }
}

/// Position of the first transition whose byte is not below `b`.
fn partition_point(ch: &Vec<(u8, u32)>, b: u8) -> (i: usize)
    requires
        sorted_children(ch@),
    ensures
        i <= ch@.len(),
        forall|k: int| 0 <= k < i ==> (#[trigger] ch@[k]).0 < b,
        forall|k: int| i <= k < ch@.len() ==> (#[trigger] ch@[k]).0 >= b,
{
    let mut lo: usize = 0;
    let mut hi: usize = ch.len();
    while lo < hi
        invariant
            lo <= hi <= ch@.len(),
            sorted_children(ch@),
            forall|k: int| 0 <= k < lo ==> (#[trigger] ch@[k]).0 < b,
            forall|k: int| hi <= k < ch@.len() ==> (#[trigger] ch@[k]).0 >= b,
        decreases hi - lo,
    {
        let mid = lo + (hi - lo) / 2;
        if ch[mid].0 < b {
            proof {
                assert forall|k: int| 0 <= k < mid + 1 implies (#[trigger] ch@[k]).0 < b by {
                    if k < mid {
                        assert(ch@[k].0 < ch@[mid as int].0);
                    }
                }
            }
            lo = mid + 1;
        } else {
            proof {
                assert forall|k: int| mid <= k < ch@.len() implies (#[trigger] ch@[k]).0 >= b by {
                    if k > mid {
                        assert(ch@[mid as int].0 < ch@[k].0);
                    }
                }
            }
            hi = mid;
        }
    }
    lo
}

impl PathTrie {
    proof fn lemma_no_child_no_node(&self, node: int, b: u8, i: int)
        requires
            self.wf_struct(),
            0 <= node < self.n(),
            0 <= i <= self.nodes@[node].children@.len(),
            forall|k: int| 0 <= k < i ==> (#[trigger] self.nodes@[node].children@[k]).0 < b,
            forall|k: int| i <= k < self.nodes@[node].children@.len() ==> (#[trigger] self.nodes@[node].children@[k]).0 >= b,
            i == self.nodes@[node].children@.len() || self.nodes@[node].children@[i].0 != b,
        ensures
            forall|w: int| 0 <= w < self.n() ==> self.path(w) != self.path(node).push(b),
    {
        let ch = self.nodes@[node].children@;
        assert forall|w: int| 0 <= w < self.n() implies self.path(w) != self.path(node).push(b) by {
            if self.path(w) == self.path(node).push(b) {
                assert(self.path(w).drop_last() =~= self.path(node));
                assert(self.path(w).len() > 0);
                assert(has_child(ch, self.path(w).last(), w));
                let k = choose|k: int| 0 <= k < ch.len() && (#[trigger] ch[k]).0 == b && ch[k].1 == w;
                if k > i {
                    assert(ch[i].0 < ch[k].0);
                }
            }
        }
    }

    /// One transition from `node` on byte `b`, if the automaton has it.
    pub fn descend(&self, node: usize, b: u8) -> (r: Option<usize>)
        requires
            self.wf_struct(),
            node < self.n(),
        ensures
            match r {
                Some(c) => c < self.n() && self.path(c as int) == self.path(node as int).push(b),
                None => forall|w: int| 0 <= w < self.n() ==> self.path(w) != self.path(node as int).push(b),
            },
    {
        let ch = &self.nodes[node].children;
        let i = partition_point(ch, b);
        if i < ch.len() && ch[i].0 == b {
            Some(ch[i].1 as usize)
        } else {
            proof {
                self.lemma_no_child_no_node(node as int, b, i as int);
            }
            None
        }
    }

    /// Descend on `b`, creating the state when it is missing.
    pub fn insert_byte(&mut self, node: usize, b: u8) -> (r: usize)
        requires
            old(self).wf_struct(),
            node < old(self).n(),
            old(self).n() + 1 < 0x8000_0000,
        ensures
            final(self).wf_struct(),
            final(self).n() == old(self).n() || final(self).n() == old(self).n() + 1,
            forall|v: int| 0 <= v < old(self).n() ==> #[trigger] final(self).path(v) == old(self).path(v),
            r < final(self).n(),
            final(self).path(r as int) == old(self).path(node as int).push(b),
            final(self).n() == old(self).n() + 1 ==> r == old(self).n() && forall|w: int|
                0 <= w < old(self).n() ==> old(self).path(w) != old(self).path(node as int).push(b),
            forall|v: int|
                0 <= v < old(self).n() ==> {
                    &&& (#[trigger] final(self).nodes@[v]).prefix_terms@ == old(self).nodes@[v].prefix_terms@
                    &&& final(self).nodes@[v].exact_terms@ == old(self).nodes@[v].exact_terms@
                    &&& final(self).nodes@[v].prefix_excludes@ == old(self).nodes@[v].prefix_excludes@
                    &&& final(self).nodes@[v].exact_excludes@ == old(self).nodes@[v].exact_excludes@
                },
            final(self).n() == old(self).n() + 1 ==> {
                &&& final(self).nodes@[old(self).n()].prefix_terms@.len() == 0
                &&& final(self).nodes@[old(self).n()].exact_terms@.len() == 0
                &&& final(self).nodes@[old(self).n()].prefix_excludes@.len() == 0
                &&& final(self).nodes@[old(self).n()].exact_excludes@.len() == 0
            },
    {
        let i = partition_point(&self.nodes[node].children, b);
        if i < self.nodes[node].children.len() && self.nodes[node].children[i].0 == b {
            return self.nodes[node].children[i].1 as usize;
        }
        proof {
            self.lemma_no_child_no_node(node as int, b, i as int);
        }
        let ghost old_self = *self;
        let ghost target = self.path(node as int).push(b);
        let id = self.nodes.len();
        self.nodes.push(TrieNode::empty());
        self.paths = Ghost(self.paths@.push(target));
        self.nodes[node].children.insert(i, (b, id as u32));
        proof {
            let n0 = old_self.n();
            assert(self.n() == n0 + 1);
            assert forall|v: int| 0 <= v < n0 implies #[trigger] self.path(v) == old_self.path(v) by {}
            assert(self.path(n0) == target);
            // distinct strings
            assert forall|v: int, w: int|
                0 <= v < self.n() && 0 <= w < self.n() && #[trigger] self.path(v) == #[trigger] self.path(w) implies v == w by {
                if v < n0 && w < n0 {
                } else if v == n0 && w < n0 {
                    assert(old_self.path(w) != target);
                } else if w == n0 && v < n0 {
                    assert(old_self.path(v) != target);
                }
            }
            // edges
            assert forall|v: int, k: int|
                0 <= v < self.n() && 0 <= k < self.nodes@[v].children@.len() implies {
                    let e = #[trigger] self.nodes@[v].children@[k];
                    &&& (e.1 as int) < self.n()
                    &&& self.path(e.1 as int) == self.path(v).push(e.0)
                } by {
                if v == node as int {
                    let och = old_self.nodes@[v].children@;
                    if k < i {
                        assert(self.nodes@[v].children@[k] == och[k]);
                    } else if k > i {
                        assert(self.nodes@[v].children@[k] == och[k - 1]);
                    }
                } else if v < n0 {
                    assert(self.nodes@[v] == old_self.nodes@[v]);
                }
            }
            // sorted
            assert forall|v: int| 0 <= v < self.n() implies sorted_children(#[trigger] self.nodes@[v].children@) by {
                if v == node as int {
                    let och = old_self.nodes@[v].children@;
                    let nch = self.nodes@[v].children@;
                    assert forall|k1: int, k2: int| 0 <= k1 < k2 < nch.len() implies (#[trigger] nch[k1]).0 < (#[trigger] nch[k2]).0 by {
                        if k2 < i {
                        } else if k1 < i && k2 == i {
                        } else if k1 < i && k2 > i {
                            assert(nch[k2] == och[k2 - 1]);
                        } else if k1 == i {
                            assert(nch[k2] == och[k2 - 1]);
                            if k2 - 1 > i {
                                assert(och[i as int].0 < och[k2 - 1].0);
                            }
                        } else {
                            assert(nch[k1] == och[k1 - 1]);
                            assert(nch[k2] == och[k2 - 1]);
                        }
                    }
                } else if v < n0 {
                    assert(self.nodes@[v] == old_self.nodes@[v]);
                }
            }
            // parents
            assert forall|v: int, w: int|
                0 <= v < self.n() && 0 <= w < self.n() && (#[trigger] self.path(w)).len() > 0
                    && self.path(w).drop_last() == #[trigger] self.path(v) implies has_child(
                    self.nodes@[v].children@,
                    self.path(w).last(),
                    w,
                ) by {
                let nch = self.nodes@[v].children@;
                if w == n0 {
                    assert(target.drop_last() =~= old_self.path(node as int));
                    assert(self.path(v) == self.path(node as int));
                    assert(v == node as int);
                    assert(nch[i as int] == (b, id as u32));
                    assert(has_child(nch, self.path(w).last(), w));
                } else {
                    if v == n0 {
                        // the new node has no children and no string extends it among old nodes
                        assert(old_self.path(w).drop_last() == target);
                        assert(old_self.path(w).len() > 0);
                        let p = old_self.path(w).drop_last();
                        // its parent string would be a node of the old trie
                        assert(false) by {
                            let q = choose|q: int| 0 <= q < n0 && old_self.path(q) == old_self.path(w).drop_last();
                            assert(old_self.path(q) == target);
                        }
                    } else {
                        assert(has_child(old_self.nodes@[v].children@, old_self.path(w).last(), w));
                        let och = old_self.nodes@[v].children@;
                        let k = choose|k: int| 0 <= k < och.len() && (#[trigger] och[k]).0 == old_self.path(w).last() && och[k].1 == w;
                        if v == node as int {
                            if k < i {
                                assert(nch[k] == och[k]);
                            } else {
                                assert(nch[k + 1] == och[k]);
                            }
                        } else {
                            assert(self.nodes@[v] == old_self.nodes@[v]);
                        }
                    }
                }
            }
            assert forall|w: int|
                0 <= w < self.n() && (#[trigger] self.path(w)).len() > 0 implies exists|q: int|
                    0 <= q < self.n() && self.path(q) == self.path(w).drop_last() by {
                if w == n0 {
                    assert(target.drop_last() =~= self.path(node as int));
                } else {
                    let q = choose|q: int| 0 <= q < n0 && old_self.path(q) == old_self.path(w).drop_last();
                    assert(self.path(q) == self.path(w).drop_last());
                }
            }
            assert forall|v: int| 0 <= v < n0 implies {
                &&& (#[trigger] self.nodes@[v]).prefix_terms@ == old_self.nodes@[v].prefix_terms@
                &&& self.nodes@[v].exact_terms@ == old_self.nodes@[v].exact_terms@
                &&& self.nodes@[v].prefix_excludes@ == old_self.nodes@[v].prefix_excludes@
                &&& self.nodes@[v].exact_excludes@ == old_self.nodes@[v].exact_excludes@
            } by {
                if v != node as int {
                    assert(self.nodes@[v] == old_self.nodes@[v]);
                }
            }
        }
        id
    }
}

/// New states and terminal lists are empty for strings outside the automaton.
pub proof fn lemma_terms_in_trie(its: Seq<Item>, inc: bool, kind: PatKind, s: Seq<u8>)
    ensures
        term_pairs(its, inc, kind, s).len() > 0 ==> in_trie(its, s),
        term_idx(its, inc, kind, s).len() > 0 ==> in_trie(its, s),
    decreases its.len(),
{
    if its.len() > 0 {
        let init = its.drop_last();
        lemma_terms_in_trie(init, inc, kind, s);
        if in_trie(init, s) && s.len() > 0 {
            let i = choose|i: int| 0 <= i < init.len() && prefix_of(s, node_str(#[trigger] init[i].3));
            assert(its[i] == init[i]);
        }
        if is_term(its.last(), inc, kind, s) {
            assert(node_str(its[its.len() - 1].3) == s);
            assert(s.take(s.len() as int) =~= s);
            assert(prefix_of(s, node_str(its[its.len() - 1].3)));
        }
    }
}

pub proof fn lemma_terms_push(its: Seq<Item>, x: Item, inc: bool, kind: PatKind, s: Seq<u8>)
    ensures
        term_pairs(its.push(x), inc, kind, s) == if is_term(x, inc, kind, s) {
            term_pairs(its, inc, kind, s).push((x.0 as u16, x.1))
        } else {
            term_pairs(its, inc, kind, s)
        },
        term_idx(its.push(x), inc, kind, s) == if is_term(x, inc, kind, s) {
            term_idx(its, inc, kind, s).push(x.0 as u16)
        } else {
            term_idx(its, inc, kind, s)
        },
{
    assert(its.push(x).drop_last() =~= its);
}

pub proof fn lemma_total_len_concat(a: Seq<Item>, b: Seq<Item>)
    ensures
        total_len(a + b) == total_len(a) + total_len(b),
    decreases b.len(),
{
    if b.len() == 0 {
        assert(a + b =~= a);
    } else {
        lemma_total_len_concat(a, b.drop_last());
        assert((a + b).drop_last() =~= a + b.drop_last());
    }
}

pub proof fn lemma_items_upto_mono(rules: Seq<RuleV>, i: int, j: int)
    requires
        0 <= i <= j <= rules.len(),
    ensures
        total_len(items_upto(rules, i)) <= total_len(items_upto(rules, j)),
    decreases j - i,
{
    if i < j {
        lemma_items_upto_mono(rules, i, j - 1);
        lemma_total_len_concat(items_upto(rules, j - 1), rule_items(j - 1, rules[j - 1]));
    }
}

pub open spec fn pattern_len_spec(p: PatV) -> nat {
    node_str(p).len()
}

/// Length of a pattern in the automaton: `pre/` for a prefix pattern.
pub fn pattern_len(p: &Pat) -> (r: usize)
    ensures
        r as int == if pattern_len_spec(p@) <= usize::MAX { pattern_len_spec(p@) as int } else { usize::MAX as int },
{
    match p.kind {
        PatKind::Prefix => p.bytes.len().saturating_add(1),
        PatKind::Exact => p.bytes.len(),
    }
}

impl PathTrie {
    /// Insert a byte path from the root, creating states as needed.
    #[verifier::rlimit(60)]
    pub fn insert(&mut self, bytes: &[u8]) -> (r: usize)
        requires
            old(self).wf_struct(),
            old(self).n() + bytes@.len() + 1 < 0x8000_0000,
        ensures
            final(self).wf_struct(),
            old(self).n() <= final(self).n() <= old(self).n() + bytes@.len(),
            forall|v: int| 0 <= v < old(self).n() ==> #[trigger] final(self).path(v) == old(self).path(v),
            r < final(self).n(),
            final(self).path(r as int) == bytes@,
            forall|k: int| #![trigger bytes@.take(k)] 0 <= k <= bytes@.len() ==> exists|w: int| 0 <= w < final(self).n() && #[trigger] final(self).path(w) == bytes@.take(k),
            forall|w: int| old(self).n() <= w < final(self).n() ==> prefix_of(#[trigger] final(self).path(w), bytes@),
            forall|v: int|
                0 <= v < old(self).n() ==> {
                    &&& (#[trigger] final(self).nodes@[v]).prefix_terms@ == old(self).nodes@[v].prefix_terms@
                    &&& final(self).nodes@[v].exact_terms@ == old(self).nodes@[v].exact_terms@
                    &&& final(self).nodes@[v].prefix_excludes@ == old(self).nodes@[v].prefix_excludes@
                    &&& final(self).nodes@[v].exact_excludes@ == old(self).nodes@[v].exact_excludes@
                },
            forall|v: int|
                old(self).n() <= v < final(self).n() ==> {
                    &&& (#[trigger] final(self).nodes@[v]).prefix_terms@.len() == 0
                    &&& final(self).nodes@[v].exact_terms@.len() == 0
                    &&& final(self).nodes@[v].prefix_excludes@.len() == 0
                    &&& final(self).nodes@[v].exact_excludes@.len() == 0
                },
    {
        let ghost o = *self;
        let mut node: usize = 0;
        let mut i: usize = 0;
        assert(self.path(0) =~= bytes@.take(0));
        while i < bytes.len()
            invariant
                i <= bytes@.len(),
                self.wf_struct(),
                o.n() <= self.n() <= o.n() + i,
                o.n() + bytes@.len() + 1 < 0x8000_0000,
                node < self.n(),
                self.path(node as int) == bytes@.take(i as int),
                forall|v: int| 0 <= v < o.n() ==> #[trigger] self.path(v) == o.path(v),
                forall|k: int| #![trigger bytes@.take(k)] 0 <= k <= i ==> exists|w: int| 0 <= w < self.n() && #[trigger] self.path(w) == bytes@.take(k),
                forall|w: int| o.n() <= w < self.n() ==> prefix_of(#[trigger] self.path(w), bytes@.take(i as int)),
                forall|v: int|
                    0 <= v < o.n() ==> {
                        &&& (#[trigger] self.nodes@[v]).prefix_terms@ == o.nodes@[v].prefix_terms@
                        &&& self.nodes@[v].exact_terms@ == o.nodes@[v].exact_terms@
                        &&& self.nodes@[v].prefix_excludes@ == o.nodes@[v].prefix_excludes@
                        &&& self.nodes@[v].exact_excludes@ == o.nodes@[v].exact_excludes@
                    },
                forall|v: int|
                    o.n() <= v < self.n() ==> {
                        &&& (#[trigger] self.nodes@[v]).prefix_terms@.len() == 0
                        &&& self.nodes@[v].exact_terms@.len() == 0
                        &&& self.nodes@[v].prefix_excludes@.len() == 0
                        &&& self.nodes@[v].exact_excludes@.len() == 0
                    },
            decreases bytes.len() - i,
        {
            let ghost before = *self;
            let ghost bi = i;
            node = self.insert_byte(node, bytes[i]);
            i = i + 1;
            proof {
                assert(bytes@.take(bi as int).push(bytes@[bi as int]) =~= bytes@.take(i as int));
                assert forall|k: int| #![trigger bytes@.take(k)] 0 <= k <= i implies exists|w: int| 0 <= w < self.n() && #[trigger] self.path(w) == bytes@.take(k) by {
                    if k == i {
                        assert(self.path(node as int) == bytes@.take(k));
                    } else {
                        let w = choose|w: int| 0 <= w < before.n() && #[trigger] before.path(w) == bytes@.take(k);
                        assert(self.path(w) == bytes@.take(k));
                    }
                }
                assert forall|w: int| o.n() <= w < self.n() implies prefix_of(#[trigger] self.path(w), bytes@.take(i as int)) by {
                    if w < before.n() {
                        assert(prefix_of(before.path(w), bytes@.take(bi as int)));
                        assert(bytes@.take(i as int).take(before.path(w).len() as int) =~= bytes@.take(bi as int).take(before.path(w).len() as int));
                    } else {
                        assert(self.path(w) == bytes@.take(i as int));
                        assert(bytes@.take(i as int).take(self.path(w).len() as int) =~= self.path(w));
                    }
                }
                assert forall|v: int|
                    o.n() <= v < self.n() implies {
                        &&& (#[trigger] self.nodes@[v]).prefix_terms@.len() == 0
                        &&& self.nodes@[v].exact_terms@.len() == 0
                        &&& self.nodes@[v].prefix_excludes@.len() == 0
                        &&& self.nodes@[v].exact_excludes@.len() == 0
                    } by {
                    if v < before.n() {
                        assert(self.nodes@[v].prefix_terms@ == before.nodes@[v].prefix_terms@);
                    }
                }
            }
        }
        assert(bytes@.take(i as int) =~= bytes@);
        node
    }

    /// `pre/*` occupies `pre/` in the automaton.
    pub fn insert_pre(&mut self, pre: &[u8]) -> (r: usize)
        requires
            old(self).wf_struct(),
            old(self).n() + pre@.len() + 2 < 0x8000_0000,
        ensures
            final(self).wf_struct(),
            old(self).n() <= final(self).n() <= old(self).n() + pre@.len() + 1,
            forall|v: int| 0 <= v < old(self).n() ==> #[trigger] final(self).path(v) == old(self).path(v),
            r < final(self).n(),
            final(self).path(r as int) == pre@.push(47u8),
            forall|k: int| #![trigger pre@.push(47u8).take(k)] 0 <= k <= pre@.len() + 1 ==> exists|w: int| 0 <= w < final(self).n() && #[trigger] final(self).path(w) == pre@.push(47u8).take(k),
            forall|w: int| old(self).n() <= w < final(self).n() ==> prefix_of(#[trigger] final(self).path(w), pre@.push(47u8)),
            forall|v: int|
                0 <= v < old(self).n() ==> {
                    &&& (#[trigger] final(self).nodes@[v]).prefix_terms@ == old(self).nodes@[v].prefix_terms@
                    &&& final(self).nodes@[v].exact_terms@ == old(self).nodes@[v].exact_terms@
                    &&& final(self).nodes@[v].prefix_excludes@ == old(self).nodes@[v].prefix_excludes@
                    &&& final(self).nodes@[v].exact_excludes@ == old(self).nodes@[v].exact_excludes@
                },
            forall|v: int|
                old(self).n() <= v < final(self).n() ==> {
                    &&& (#[trigger] final(self).nodes@[v]).prefix_terms@.len() == 0
                    &&& final(self).nodes@[v].exact_terms@.len() == 0
                    &&& final(self).nodes@[v].prefix_excludes@.len() == 0
                    &&& final(self).nodes@[v].exact_excludes@.len() == 0
                },
    {
        let ghost o = *self;
        let node = self.insert(pre);
        let ghost mid = *self;
        let r = self.insert_byte(node, 47u8);
        proof {
            let t = pre@.push(47u8);
            assert forall|k: int| #![trigger t.take(k)] 0 <= k <= pre@.len() + 1 implies exists|w: int| 0 <= w < self.n() && #[trigger] self.path(w) == t.take(k) by {
                if k == pre@.len() + 1 {
                    assert(t.take(k) =~= t);
                    assert(self.path(r as int) == t.take(k));
                } else {
                    assert(t.take(k) =~= pre@.take(k));
                    let w = choose|w: int| 0 <= w < mid.n() && #[trigger] mid.path(w) == pre@.take(k);
                    assert(self.path(w) == t.take(k));
                }
            }
            assert forall|w: int| o.n() <= w < self.n() implies prefix_of(#[trigger] self.path(w), t) by {
                if w < mid.n() {
                    assert(prefix_of(mid.path(w), pre@));
                    assert(t.take(mid.path(w).len() as int) =~= pre@.take(mid.path(w).len() as int));
                } else {
                    assert(self.path(w) == t);
                    assert(t.take(t.len() as int) =~= t);
                }
            }
            assert forall|v: int|
                o.n() <= v < self.n() implies {
                    &&& (#[trigger] self.nodes@[v]).prefix_terms@.len() == 0
                    &&& self.nodes@[v].exact_terms@.len() == 0
                    &&& self.nodes@[v].prefix_excludes@.len() == 0
                    &&& self.nodes@[v].exact_excludes@.len() == 0
                } by {
                if v < mid.n() {
                    assert(self.nodes@[v].prefix_terms@ == mid.nodes@[v].prefix_terms@);
                }
            }
        }
        r
    }
}

impl PathTrie {
    /// A single-node automaton with no patterns.
    pub fn new_root() -> (t: PathTrie)
        ensures
            t.wf(Seq::<Item>::empty()),
            t.n() == 1,
    {
        let mut nodes: Vec<TrieNode> = Vec::new();
        nodes.push(TrieNode::empty());
        let ghost p0: Seq<Seq<u8>> = seq![Seq::<u8>::empty()];
        let t = PathTrie { nodes, paths: Ghost(p0) };
        proof {
            assert(t.n() == 1);
            assert(t.path(0) == Seq::<u8>::empty());
            assert(sorted_children(t.nodes@[0].children@));
            assert(t.wf_struct());
            let e = Seq::<Item>::empty();
            assert(term_pairs(e, true, PatKind::Prefix, t.path(0)) =~= Seq::<(u16, u16)>::empty());
            assert(term_pairs(e, true, PatKind::Exact, t.path(0)) =~= Seq::<(u16, u16)>::empty());
            assert(term_idx(e, false, PatKind::Prefix, t.path(0)) =~= Seq::<u16>::empty());
            assert(term_idx(e, false, PatKind::Exact, t.path(0)) =~= Seq::<u16>::empty());
            assert(t.nodes@[0].prefix_terms@ =~= Seq::<(u16, u16)>::empty());
            assert(t.nodes@[0].exact_terms@ =~= Seq::<(u16, u16)>::empty());
            assert(t.nodes@[0].prefix_excludes@ =~= Seq::<u16>::empty());
            assert(t.nodes@[0].exact_excludes@ =~= Seq::<u16>::empty());
            assert(t.lists_for(Seq::<Item>::empty()));
            assert forall|s: Seq<u8>| #[trigger] in_trie(Seq::<Item>::empty(), s) implies exists|w: int|
                0 <= w < t.n() && t.path(w) == s by {
                assert(s.len() == 0);
                assert(t.path(0) =~= s);
            }
            assert forall|w: int| 0 <= w < t.n() && (#[trigger] t.path(w)).len() > 0 implies exists|q: int|
                0 <= q < t.n() && t.path(q) == t.path(w).drop_last() by {
                assert(w == 0);
            }
        }
        t
    }

    /// Add one pattern of rule `ri` (with method mask `methods`) to the automaton.
    #[verifier::rlimit(80)]
    pub fn add_item(&mut self, p: &Pat, ri: u16, methods: u16, inc: bool, Ghost(its): Ghost<Seq<Item>>)
        requires
            old(self).wf(its),
            ri < 64,
            old(self).n() + p@.1.len() + 2 < 0x8000_0000,
        ensures
            final(self).wf(its.push((ri as int, methods, inc, p@))),
            final(self).n() <= old(self).n() + node_str(p@).len(),
    {
        let ghost o = *self;
        let ghost x: Item = (ri as int, methods, inc, p@);
        let ghost its2 = its.push(x);
        let ghost t = node_str(p@);
        let node = match p.kind {
            PatKind::Prefix => self.insert_pre(p.bytes.as_slice()),
            PatKind::Exact => self.insert(p.bytes.as_slice()),
        };
        let ghost mid = *self;
        proof {
            assert(mid.path(node as int) == t);
            if p.kind == PatKind::Prefix {
                assert(t == p.bytes@.push(47u8));
            } else {
                assert(t == p.bytes@);
            }
            assert(forall|k: int| #![trigger t.take(k)] 0 <= k <= t.len() ==> exists|w: int|
                0 <= w < mid.n() && #[trigger] mid.path(w) == t.take(k));
            assert(forall|w: int| o.n() <= w < mid.n() ==> prefix_of(#[trigger] mid.path(w), t));
        }
        if inc {
            match p.kind {
                PatKind::Prefix => self.nodes[node].prefix_terms.push((ri, methods)),
                PatKind::Exact => self.nodes[node].exact_terms.push((ri, methods)),
            }
        } else {
            match p.kind {
                PatKind::Prefix => self.nodes[node].prefix_excludes.push(ri),
                PatKind::Exact => self.nodes[node].exact_excludes.push(ri),
            }
        }
        proof {
            assert forall|v: int| 0 <= v < self.n() && v != node as int implies #[trigger] self.nodes@[v] == mid.nodes@[v] by {}
            lemma_add_item_wf(o, mid, *self, node as int, x, its);
        }
    }
}

pub proof fn lemma_struct_same(a: PathTrie, b: PathTrie)
    requires
        a.wf_struct(),
        a.nodes@.len() == b.nodes@.len(),
        a.paths@ == b.paths@,
        forall|v: int| 0 <= v < b.n() ==> #[trigger] b.nodes@[v].children@ == a.nodes@[v].children@,
    ensures
        b.wf_struct(),
{
    assert(b.n() >= 1);
    assert(b.path(0) == Seq::<u8>::empty());
    assert forall|v: int, w: int|
        0 <= v < b.n() && 0 <= w < b.n() && #[trigger] b.path(v) == #[trigger] b.path(w) implies v == w by {
        assert(a.path(v) == a.path(w));
    }
    assert forall|v: int, k: int|
        0 <= v < b.n() && 0 <= k < b.nodes@[v].children@.len() implies {
            let e = #[trigger] b.nodes@[v].children@[k];
            &&& (e.1 as int) < b.n()
            &&& b.path(e.1 as int) == b.path(v).push(e.0)
        } by {
        assert(b.nodes@[v].children@ == a.nodes@[v].children@);
        assert(a.nodes@[v].children@[k] == b.nodes@[v].children@[k]);
    }
    assert forall|v: int| 0 <= v < b.n() implies sorted_children(#[trigger] b.nodes@[v].children@) by {
        assert(b.nodes@[v].children@ == a.nodes@[v].children@);
        assert(sorted_children(a.nodes@[v].children@));
    }
    assert forall|v: int, w: int|
        0 <= v < b.n() && 0 <= w < b.n() && (#[trigger] b.path(w)).len() > 0
            && b.path(w).drop_last() == #[trigger] b.path(v) implies has_child(
            b.nodes@[v].children@,
            b.path(w).last(),
            w,
        ) by {
        assert(b.nodes@[v].children@ == a.nodes@[v].children@);
        assert(a.path(w) == b.path(w) && a.path(v) == b.path(v));
        assert(has_child(a.nodes@[v].children@, a.path(w).last(), w));
    }
    assert forall|w: int|
        0 <= w < b.n() && (#[trigger] b.path(w)).len() > 0 implies exists|q: int|
            0 <= q < b.n() && b.path(q) == b.path(w).drop_last() by {
        assert(a.path(w) == b.path(w));
        let q = choose|q: int| 0 <= q < a.n() && a.path(q) == a.path(w).drop_last();
        assert(b.path(q) == a.path(q));
    }
}

/// The effect of adding one item: the states after the insertion walk, and
/// the single terminal list that grows.
pub proof fn lemma_add_item_wf(o: PathTrie, mid: PathTrie, f: PathTrie, node: int, x: Item, its: Seq<Item>)
    requires
        o.wf(its),
        0 <= x.0 < 64,
        mid.wf_struct(),
        o.n() <= mid.n(),
        forall|v: int| 0 <= v < o.n() ==> #[trigger] mid.path(v) == o.path(v),
        forall|v: int|
            0 <= v < o.n() ==> {
                &&& (#[trigger] mid.nodes@[v]).prefix_terms@ == o.nodes@[v].prefix_terms@
                &&& mid.nodes@[v].exact_terms@ == o.nodes@[v].exact_terms@
                &&& mid.nodes@[v].prefix_excludes@ == o.nodes@[v].prefix_excludes@
                &&& mid.nodes@[v].exact_excludes@ == o.nodes@[v].exact_excludes@
            },
        forall|v: int|
            o.n() <= v < mid.n() ==> {
                &&& (#[trigger] mid.nodes@[v]).prefix_terms@.len() == 0
                &&& mid.nodes@[v].exact_terms@.len() == 0
                &&& mid.nodes@[v].prefix_excludes@.len() == 0
                &&& mid.nodes@[v].exact_excludes@.len() == 0
            },
        0 <= node < mid.n(),
        mid.path(node) == node_str(x.3),
        forall|k: int| #![trigger node_str(x.3).take(k)] 0 <= k <= node_str(x.3).len() ==> exists|w: int|
            0 <= w < mid.n() && #[trigger] mid.path(w) == node_str(x.3).take(k),
        forall|w: int| o.n() <= w < mid.n() ==> prefix_of(#[trigger] mid.path(w), node_str(x.3)),
        f.nodes@.len() == mid.nodes@.len(),
        f.paths@ == mid.paths@,
        forall|v: int| 0 <= v < f.n() && v != node ==> #[trigger] f.nodes@[v] == mid.nodes@[v],
        f.nodes@[node].children@ == mid.nodes@[node].children@,
        f.nodes@[node].prefix_terms@ == if x.2 && x.3.0 == PatKind::Prefix {
            mid.nodes@[node].prefix_terms@.push((x.0 as u16, x.1))
        } else {
            mid.nodes@[node].prefix_terms@
        },
        f.nodes@[node].exact_terms@ == if x.2 && x.3.0 == PatKind::Exact {
            mid.nodes@[node].exact_terms@.push((x.0 as u16, x.1))
        } else {
            mid.nodes@[node].exact_terms@
        },
        f.nodes@[node].prefix_excludes@ == if !x.2 && x.3.0 == PatKind::Prefix {
            mid.nodes@[node].prefix_excludes@.push(x.0 as u16)
        } else {
            mid.nodes@[node].prefix_excludes@
        },
        f.nodes@[node].exact_excludes@ == if !x.2 && x.3.0 == PatKind::Exact {
            mid.nodes@[node].exact_excludes@.push(x.0 as u16)
        } else {
            mid.nodes@[node].exact_excludes@
        },
    ensures
        f.wf(its.push(x)),
{
    let its2 = its.push(x);
    let t = node_str(x.3);
    assert forall|v: int| 0 <= v < f.n() implies #[trigger] f.nodes@[v].children@ == mid.nodes@[v].children@ by {
        if v != node {
            assert(f.nodes@[v] == mid.nodes@[v]);
        }
    }
    lemma_struct_same(mid, f);
    assert forall|v: int| 0 <= v < f.n() implies #[trigger] f.path(v) == mid.path(v) by {}
    lemma_add_item_states(o, mid, f, x, its);
    lemma_add_item_complete(o, mid, f, x, its);
    assert forall|v: int| 0 <= v < f.n() implies {
        &&& (#[trigger] f.nodes@[v]).prefix_terms@ == term_pairs(its2, true, PatKind::Prefix, f.path(v))
        &&& f.nodes@[v].exact_terms@ == term_pairs(its2, true, PatKind::Exact, f.path(v))
        &&& f.nodes@[v].prefix_excludes@ == term_idx(its2, false, PatKind::Prefix, f.path(v))
        &&& f.nodes@[v].exact_excludes@ == term_idx(its2, false, PatKind::Exact, f.path(v))
    } by {
        lemma_add_item_lists_at(o, mid, f, node, x, its, v);
    }
    assert forall|i: int| 0 <= i < its2.len() implies 0 <= (#[trigger] its2[i]).0 < 64 by {
        if i < its.len() {
            assert(its2[i] == its[i]);
        }
    }
}

proof fn lemma_add_item_states(o: PathTrie, mid: PathTrie, f: PathTrie, x: Item, its: Seq<Item>)
    requires
        o.wf(its),
        o.n() <= mid.n(),
        f.nodes@.len() == mid.nodes@.len(),
        f.paths@ == mid.paths@,
        forall|v: int| 0 <= v < o.n() ==> #[trigger] mid.path(v) == o.path(v),
        forall|w: int| o.n() <= w < mid.n() ==> prefix_of(#[trigger] mid.path(w), node_str(x.3)),
    ensures
        forall|v: int| 0 <= v < f.n() ==> in_trie(its.push(x), #[trigger] f.path(v)),
{
    let its2 = its.push(x);
    assert forall|v: int| 0 <= v < f.n() implies in_trie(its2, #[trigger] f.path(v)) by {
        assert(f.path(v) == mid.path(v));
        if v < o.n() {
            assert(in_trie(its, o.path(v)));
            if o.path(v).len() > 0 {
                let i = choose|i: int| 0 <= i < its.len() && prefix_of(o.path(v), node_str(#[trigger] its[i].3));
                assert(its2[i] == its[i]);
                assert(prefix_of(f.path(v), node_str(its2[i].3)));
            }
        } else {
            assert(its2[its.len() as int] == x);
            assert(prefix_of(f.path(v), node_str(its2[its.len() as int].3)));
        }
    }
}

proof fn lemma_add_item_complete(o: PathTrie, mid: PathTrie, f: PathTrie, x: Item, its: Seq<Item>)
    requires
        o.wf(its),
        o.n() <= mid.n(),
        f.nodes@.len() == mid.nodes@.len(),
        f.paths@ == mid.paths@,
        forall|v: int| 0 <= v < o.n() ==> #[trigger] mid.path(v) == o.path(v),
        forall|k: int| #![trigger node_str(x.3).take(k)] 0 <= k <= node_str(x.3).len() ==> exists|w: int|
            0 <= w < mid.n() && #[trigger] mid.path(w) == node_str(x.3).take(k),
    ensures
        forall|st: Seq<u8>| #[trigger] in_trie(its.push(x), st) ==> exists|w: int| 0 <= w < f.n() && f.path(w) == st,
{
    let its2 = its.push(x);
    let t = node_str(x.3);
    assert forall|st: Seq<u8>| #[trigger] in_trie(its2, st) implies exists|w: int| 0 <= w < f.n() && f.path(w) == st by {
        if st.len() == 0 {
            assert(o.n() >= 1);
            assert(mid.path(0) == o.path(0));
            assert(f.path(0) == mid.path(0));
            assert(f.path(0) =~= st);
        } else {
            let i = choose|i: int| 0 <= i < its2.len() && prefix_of(st, node_str(#[trigger] its2[i].3));
            if i < its.len() {
                assert(its2[i] == its[i]);
                assert(in_trie(its, st));
                let w = choose|w: int| 0 <= w < o.n() && o.path(w) == st;
                assert(f.path(w) == mid.path(w));
                assert(f.path(w) == st);
            } else {
                assert(its2[i] == x);
                let k = st.len() as int;
                assert(st == t.take(k));
                let w = choose|w: int| 0 <= w < mid.n() && #[trigger] mid.path(w) == t.take(k);
                assert(f.path(w) == st);
            }
        }
    }
}

proof fn lemma_add_item_lists_at(o: PathTrie, mid: PathTrie, f: PathTrie, node: int, x: Item, its: Seq<Item>, v: int)
    requires
        o.wf(its),
        mid.wf_struct(),
        o.n() <= mid.n(),
        0 <= v < f.n(),
        forall|v: int| 0 <= v < o.n() ==> #[trigger] mid.path(v) == o.path(v),
        forall|v: int|
            0 <= v < o.n() ==> {
                &&& (#[trigger] mid.nodes@[v]).prefix_terms@ == o.nodes@[v].prefix_terms@
                &&& mid.nodes@[v].exact_terms@ == o.nodes@[v].exact_terms@
                &&& mid.nodes@[v].prefix_excludes@ == o.nodes@[v].prefix_excludes@
                &&& mid.nodes@[v].exact_excludes@ == o.nodes@[v].exact_excludes@
            },
        forall|v: int|
            o.n() <= v < mid.n() ==> {
                &&& (#[trigger] mid.nodes@[v]).prefix_terms@.len() == 0
                &&& mid.nodes@[v].exact_terms@.len() == 0
                &&& mid.nodes@[v].prefix_excludes@.len() == 0
                &&& mid.nodes@[v].exact_excludes@.len() == 0
            },
        0 <= node < mid.n(),
        mid.path(node) == node_str(x.3),
        f.nodes@.len() == mid.nodes@.len(),
        f.paths@ == mid.paths@,
        forall|v: int| 0 <= v < f.n() && v != node ==> #[trigger] f.nodes@[v] == mid.nodes@[v],
        f.nodes@[node].prefix_terms@ == if x.2 && x.3.0 == PatKind::Prefix {
            mid.nodes@[node].prefix_terms@.push((x.0 as u16, x.1))
        } else {
            mid.nodes@[node].prefix_terms@
        },
        f.nodes@[node].exact_terms@ == if x.2 && x.3.0 == PatKind::Exact {
            mid.nodes@[node].exact_terms@.push((x.0 as u16, x.1))
        } else {
            mid.nodes@[node].exact_terms@
        },
        f.nodes@[node].prefix_excludes@ == if !x.2 && x.3.0 == PatKind::Prefix {
            mid.nodes@[node].prefix_excludes@.push(x.0 as u16)
        } else {
            mid.nodes@[node].prefix_excludes@
        },
        f.nodes@[node].exact_excludes@ == if !x.2 && x.3.0 == PatKind::Exact {
            mid.nodes@[node].exact_excludes@.push(x.0 as u16)
        } else {
            mid.nodes@[node].exact_excludes@
        },
    ensures
        f.nodes@[v].prefix_terms@ == term_pairs(its.push(x), true, PatKind::Prefix, f.path(v)),
        f.nodes@[v].exact_terms@ == term_pairs(its.push(x), true, PatKind::Exact, f.path(v)),
        f.nodes@[v].prefix_excludes@ == term_idx(its.push(x), false, PatKind::Prefix, f.path(v)),
        f.nodes@[v].exact_excludes@ == term_idx(its.push(x), false, PatKind::Exact, f.path(v)),
{
    let sv = f.path(v);
    let t = node_str(x.3);
    assert(sv == mid.path(v));
    lemma_terms_push(its, x, true, PatKind::Prefix, sv);
    lemma_terms_push(its, x, true, PatKind::Exact, sv);
    lemma_terms_push(its, x, false, PatKind::Prefix, sv);
    lemma_terms_push(its, x, false, PatKind::Exact, sv);
    // the lists of `its` at sv, as held by mid
    if v >= o.n() {
        if in_trie(its, sv) {
            let w = choose|w: int| 0 <= w < o.n() && o.path(w) == sv;
            assert(mid.path(w) == sv);
            assert(mid.path(w) == mid.path(v));
            assert(false);
        }
        lemma_terms_in_trie(its, true, PatKind::Prefix, sv);
        lemma_terms_in_trie(its, true, PatKind::Exact, sv);
        lemma_terms_in_trie(its, false, PatKind::Prefix, sv);
        lemma_terms_in_trie(its, false, PatKind::Exact, sv);
        assert(mid.nodes@[v].prefix_terms@ =~= term_pairs(its, true, PatKind::Prefix, sv));
        assert(mid.nodes@[v].exact_terms@ =~= term_pairs(its, true, PatKind::Exact, sv));
        assert(mid.nodes@[v].prefix_excludes@ =~= term_idx(its, false, PatKind::Prefix, sv));
        assert(mid.nodes@[v].exact_excludes@ =~= term_idx(its, false, PatKind::Exact, sv));
    } else {
        assert(mid.path(v) == o.path(v));
        assert(o.nodes@[v].prefix_terms@ == term_pairs(its, true, PatKind::Prefix, sv));
    }
    if v != node {
        assert(f.nodes@[v] == mid.nodes@[v]);
        assert(sv != t);
    }
}

pub open spec fn sat(x: nat) -> int {
    if x <= usize::MAX { x as int } else { usize::MAX as int }
}

/// The automaton is derived when the rule count is within
/// `[min_rules, TRIE_MAX_RULES]` and the patterns total at most
/// `TRIE_MAX_BYTES` automaton bytes.
pub open spec fn trie_built(rules: Seq<RuleV>, min_rules: int) -> bool {
    &&& min_rules <= rules.len()
    &&& rules.len() <= TRIE_MAX_RULES
    &&& total_len(all_items(rules)) <= TRIE_MAX_BYTES
}

pub proof fn lemma_total_take(a: Seq<Item>, k: int)
    requires
        0 <= k <= a.len(),
    ensures
        total_len(a.take(k)) <= total_len(a),
{
    lemma_total_len_concat(a.take(k), a.skip(k));
    assert(a.take(k) + a.skip(k) =~= a);
}

pub proof fn lemma_total_push(a: Seq<Item>, x: Item)
    ensures
        total_len(a.push(x)) == total_len(a) + node_str(x.3).len(),
{
    assert(a.push(x).drop_last() =~= a);
}

/// The items before position `m` of rule `ri`, and that item itself.
pub proof fn lemma_item_step(rules: Seq<RuleV>, ri: int, m: int)
    requires
        0 <= ri < rules.len(),
        0 <= m < rule_items(ri, rules[ri]).len(),
    ensures
        (items_upto(rules, ri) + rule_items(ri, rules[ri]).take(m)).push(rule_items(ri, rules[ri])[m])
            == items_upto(rules, ri) + rule_items(ri, rules[ri]).take(m + 1),
        total_len(items_upto(rules, ri) + rule_items(ri, rules[ri]).take(m + 1)) <= total_len(all_items(rules)),
{
    let ri_items = rule_items(ri, rules[ri]);
    assert((items_upto(rules, ri) + ri_items.take(m)).push(ri_items[m]) =~= items_upto(rules, ri) + ri_items.take(m + 1));
    lemma_total_len_concat(items_upto(rules, ri), ri_items.take(m + 1));
    lemma_total_len_concat(items_upto(rules, ri), ri_items);
    lemma_total_take(ri_items, m + 1);
    assert(items_upto(rules, ri + 1) == items_upto(rules, ri) + ri_items);
    lemma_items_upto_mono(rules, ri + 1, rules.len() as int);
}

pub proof fn lemma_rule_done(rules: Seq<RuleV>, ri: int)
    requires
        0 <= ri < rules.len(),
    ensures
        items_upto(rules, ri) + rule_items(ri, rules[ri]).take(rule_items(ri, rules[ri]).len() as int)
            == items_upto(rules, ri + 1),
{
    let ri_items = rule_items(ri, rules[ri]);
    assert(ri_items.take(ri_items.len() as int) =~= ri_items);
}

pub proof fn lemma_rule_items_len(rules: Seq<Rule>, ri: int)
    requires
        0 <= ri < rules.len(),
    ensures
        rule_items(ri, rules_view(rules)[ri]).len() == rules[ri].includes@.len() + rules[ri].excludes@.len(),
{
}

pub proof fn lemma_rule_item_at(rules: Seq<Rule>, ri: int, j: int, inc: bool)
    requires
        0 <= ri < rules.len(),
        inc ==> 0 <= j < rules[ri].includes@.len(),
        !inc ==> 0 <= j < rules[ri].excludes@.len(),
    ensures
        inc ==> rule_items(ri, rules_view(rules)[ri])[j] == (ri, rules[ri].methods, true, rules[ri].includes@[j]@),
        !inc ==> rule_items(ri, rules_view(rules)[ri])[rules[ri].includes@.len() + j] == (
            ri,
            rules[ri].methods,
            false,
            rules[ri].excludes@[j]@,
        ),
        rule_items(ri, rules_view(rules)[ri]).len() == rules[ri].includes@.len() + rules[ri].excludes@.len(),
{
}

impl PathTrie {
    /// Build the automaton, or `None` when the linear scan is to be kept:
    /// fewer than `min_rules` rules, more than `TRIE_MAX_RULES`, or more
    /// than `TRIE_MAX_BYTES` pattern bytes.
    #[verifier::rlimit(60)]
    pub fn build(rules: &Vec<Rule>, min_rules: usize) -> (r: Option<PathTrie>)
        ensures
            r is Some <==> trie_built(rules_view(rules@), min_rules as int),
            r matches Some(t) ==> t.wf(all_items(rules_view(rules@))),
    {
        let ghost rv = rules_view(rules@);
        let n = rules.len();
        if n < min_rules || n > TRIE_MAX_RULES {
            return None;
        }
        let mut bytes: usize = 0;
        let mut ri: usize = 0;
        while ri < n
            invariant
                n == rules.len(),
                ri <= n,
                rv == rules_view(rules@),
                bytes == sat(total_len(items_upto(rv, ri as int))),
            decreases n - ri,
        {
            let r = &rules[ri];
            let ghost ritems = rule_items(ri as int, rv[ri as int]);
            proof {
                lemma_rule_items_len(rules@, ri as int);
                assert(items_upto(rv, ri as int) + ritems.take(0) =~= items_upto(rv, ri as int));
            }
            let mut j: usize = 0;
            while j < r.includes.len()
                invariant
                    n == rules.len(),
                    ri < n,
                    r == &rules@[ri as int],
                    rv == rules_view(rules@),
                    ritems == rule_items(ri as int, rv[ri as int]),
                    ritems.len() == r.includes@.len() + r.excludes@.len(),
                    j <= r.includes@.len(),
                    bytes == sat(total_len(items_upto(rv, ri as int) + ritems.take(j as int))),
                decreases r.includes.len() - j,
            {
                proof {
                    lemma_rule_item_at(rules@, ri as int, j as int, true);
                    lemma_item_step(rv, ri as int, j as int);
                    lemma_total_push(items_upto(rv, ri as int) + ritems.take(j as int), ritems[j as int]);
                }
                bytes = bytes.saturating_add(pattern_len(&r.includes[j]));
                j = j + 1;
            }
            let mut j: usize = 0;
            while j < r.excludes.len()
                invariant
                    n == rules.len(),
                    ri < n,
                    r == &rules@[ri as int],
                    rv == rules_view(rules@),
                    ritems == rule_items(ri as int, rv[ri as int]),
                    ritems.len() == r.includes@.len() + r.excludes@.len(),
                    j <= r.excludes@.len(),
                    bytes == sat(total_len(items_upto(rv, ri as int) + ritems.take(r.includes@.len() + j))),
                decreases r.excludes.len() - j,
            {
                proof {
                    lemma_rule_item_at(rules@, ri as int, j as int, false);
                    lemma_item_step(rv, ri as int, r.includes@.len() + j);
                    lemma_total_push(
                        items_upto(rv, ri as int) + ritems.take(r.includes@.len() + j),
                        ritems[r.includes@.len() + j],
                    );
                }
                bytes = bytes.saturating_add(pattern_len(&r.excludes[j]));
                j = j + 1;
            }
            proof {
                lemma_rule_done(rv, ri as int);
            }
            ri = ri + 1;
        }
        if bytes > TRIE_MAX_BYTES {
            return None;
        }
        let mut t = PathTrie::new_root();
        let ghost mut its: Seq<Item> = Seq::empty();
        let mut ri: usize = 0;
        while ri < n
            invariant
                n == rules.len(),
                n <= TRIE_MAX_RULES,
                ri <= n,
                rv == rules_view(rules@),
                total_len(all_items(rv)) <= TRIE_MAX_BYTES,
                its == items_upto(rv, ri as int),
                t.wf(its),
                t.n() <= 1 + total_len(its),
            decreases n - ri,
        {
            let r = &rules[ri];
            let ghost ritems = rule_items(ri as int, rv[ri as int]);
            proof {
                lemma_rule_items_len(rules@, ri as int);
                assert(items_upto(rv, ri as int) + ritems.take(0) =~= items_upto(rv, ri as int));
            }
            let mut j: usize = 0;
            while j < r.includes.len()
                invariant
                    n == rules.len(),
                    n <= TRIE_MAX_RULES,
                    ri < n,
                    r == &rules@[ri as int],
                    rv == rules_view(rules@),
                    total_len(all_items(rv)) <= TRIE_MAX_BYTES,
                    ritems == rule_items(ri as int, rv[ri as int]),
                    ritems.len() == r.includes@.len() + r.excludes@.len(),
                    j <= r.includes@.len(),
                    its == items_upto(rv, ri as int) + ritems.take(j as int),
                    t.wf(its),
                    t.n() <= 1 + total_len(its),
                decreases r.includes.len() - j,
            {
                proof {
                    lemma_rule_item_at(rules@, ri as int, j as int, true);
                    lemma_item_step(rv, ri as int, j as int);
                    lemma_total_push(its, ritems[j as int]);
                }
                t.add_item(&r.includes[j], ri as u16, r.methods, true, Ghost(its));
                proof {
                    its = its.push(ritems[j as int]);
                }
                j = j + 1;
            }
            let mut j: usize = 0;
            while j < r.excludes.len()
                invariant
                    n == rules.len(),
                    n <= TRIE_MAX_RULES,
                    ri < n,
                    r == &rules@[ri as int],
                    rv == rules_view(rules@),
                    total_len(all_items(rv)) <= TRIE_MAX_BYTES,
                    ritems == rule_items(ri as int, rv[ri as int]),
                    ritems.len() == r.includes@.len() + r.excludes@.len(),
                    j <= r.excludes@.len(),
                    its == items_upto(rv, ri as int) + ritems.take(r.includes@.len() + j),
                    t.wf(its),
                    t.n() <= 1 + total_len(its),
                decreases r.excludes.len() - j,
            {
                proof {
                    lemma_rule_item_at(rules@, ri as int, j as int, false);
                    lemma_item_step(rv, ri as int, r.includes@.len() + j);
                    lemma_total_push(its, ritems[r.includes@.len() + j]);
                }
                t.add_item(&r.excludes[j], ri as u16, r.methods, false, Ghost(its));
                proof {
                    its = its.push(ritems[r.includes@.len() + j]);
                }
                j = j + 1;
            }
            proof {
                lemma_rule_done(rv, ri as int);
            }
            ri = ri + 1;
        }
        Some(t)
    }
}

/// How many path bytes the automaton walk consumes before it falls off.
pub open spec fn walk_from(its: Seq<Item>, path: Seq<u8>, k: int) -> int
    decreases path.len() - k,
{
    if 0 <= k < path.len() && in_trie(its, path.take(k + 1)) {
        walk_from(its, path, k + 1)
    } else {
        k
    }
}

pub open spec fn walk_len(its: Seq<Item>, path: Seq<u8>) -> int {
    walk_from(its, path, 0)
}

/// A terminal list names rule `r` with a method mask that admits `bit`.
pub open spec fn pairs_admit(xs: Seq<(u16, u16)>, bit: u16, r: u16) -> bool {
    exists|k: int| 0 <= k < xs.len() && (#[trigger] xs[k]).0 == r && method_ok(xs[k].1, bit)
}

/// Rule `r` has an admitting prefix include among the first `i` states
/// of the walk.
pub open spec fn pfx_included_upto(its: Seq<Item>, bit: u16, path: Seq<u8>, i: int, r: u16) -> bool
    decreases i,
{
    if i <= 0 {
        false
    } else {
        pfx_included_upto(its, bit, path, i - 1, r) || pairs_admit(
            term_pairs(its, true, PatKind::Prefix, path.take(i)),
            bit,
            r,
        )
    }
}

/// Rule `r` has a prefix exclude among the states of the first `i` steps.
pub open spec fn pfx_excluded_upto(its: Seq<Item>, path: Seq<u8>, i: int, r: u16) -> bool
    decreases i,
{
    if i <= 0 {
        false
    } else {
        pfx_excluded_upto(its, path, i - 1, r) || term_idx(its, false, PatKind::Prefix, path.take(i)).contains(r)
    }
}

/// The automaton finds rule `r` for the request: walking as far as the
/// automaton goes, an admitting prefix include of `r` lies on the way,
/// or the walk took the whole path and ends on an admitting exact
/// include of `r`; and no prefix exclude of `r` lies on the way, nor, when
/// the walk took the whole path, an exact exclude of `r` at its end.
pub open spec fn trie_hit(its: Seq<Item>, bit: u16, path: Seq<u8>, r: u16) -> bool {
    let w = walk_len(its, path);
    let full = w == path.len();
    let inc = pfx_included_upto(its, bit, path, w, r) || (full && pairs_admit(
        term_pairs(its, true, PatKind::Exact, path.take(w)),
        bit,
        r,
    ));
    let exc = pfx_excluded_upto(its, path, w, r) || (full && term_idx(its, false, PatKind::Exact, path.take(w)).contains(
        r,
    ));
    inc && !exc
}

/// The lowest rule index from `r` on that the automaton finds.
pub open spec fn lowest_hit(its: Seq<Item>, bit: u16, path: Seq<u8>, r: int) -> Option<int>
    decreases 64 - r,
{
    if r < 0 || r >= 64 {
        None
    } else if trie_hit(its, bit, path, r as u16) {
        Some(r)
    } else {
        lowest_hit(its, bit, path, r + 1)
    }
}

/// The automaton's answer: the lowest rule it finds.
pub open spec fn trie_answer(its: Seq<Item>, bit: u16, path: Seq<u8>) -> Option<int> {
    lowest_hit(its, bit, path, 0)
}

pub open spec fn mask_has(x: u64, r: u16) -> bool {
    (x >> (r as u64)) & 1u64 == 1u64
}

proof fn lemma_mask_set(x: u64, r: u64, q: u64)
    requires
        r < 64,
        q < 64,
    ensures
        ((x | (1u64 << r)) >> q) & 1u64 == 1u64 <==> (r == q || (x >> q) & 1u64 == 1u64),
{
    assert(r < 64 && q < 64 ==> (((x | (1u64 << r)) >> q) & 1u64 == 1u64 <==> (r == q || (x >> q) & 1u64 == 1u64))) by (bit_vector);
}

proof fn lemma_mask_zero(q: u64)
    requires
        q < 64,
    ensures
        (0u64 >> q) & 1u64 != 1u64,
{
    assert(q < 64 ==> (0u64 >> q) & 1u64 != 1u64) by (bit_vector);
}

pub proof fn lemma_terms_bounded(its: Seq<Item>, inc: bool, kind: PatKind, s: Seq<u8>)
    requires
        forall|i: int| 0 <= i < its.len() ==> 0 <= (#[trigger] its[i]).0 < 64,
    ensures
        forall|k: int| 0 <= k < term_pairs(its, inc, kind, s).len() ==> (#[trigger] term_pairs(its, inc, kind, s)[k]).0 < 64,
        forall|k: int| 0 <= k < term_idx(its, inc, kind, s).len() ==> #[trigger] term_idx(its, inc, kind, s)[k] < 64,
{
    lemma_terms_below(its, inc, kind, s, 64);
}

/// Terminal rule indices are below any bound on the item rule indices.
pub proof fn lemma_terms_below(its: Seq<Item>, inc: bool, kind: PatKind, s: Seq<u8>, b: int)
    requires
        b <= 64,
        forall|i: int| 0 <= i < its.len() ==> 0 <= (#[trigger] its[i]).0 < b,
    ensures
        forall|k: int| 0 <= k < term_pairs(its, inc, kind, s).len() ==> (#[trigger] term_pairs(its, inc, kind, s)[k]).0 < b,
        forall|k: int| 0 <= k < term_idx(its, inc, kind, s).len() ==> #[trigger] term_idx(its, inc, kind, s)[k] < b,
    decreases its.len(),
{
    if its.len() > 0 {
        let init = its.drop_last();
        assert forall|i: int| 0 <= i < init.len() implies 0 <= (#[trigger] init[i]).0 < b by {
            assert(init[i] == its[i]);
        }
        lemma_terms_below(init, inc, kind, s, b);
        assert(its[its.len() - 1] == its.last());
        let rp = term_pairs(init, inc, kind, s);
        let ri = term_idx(init, inc, kind, s);
        if is_term(its.last(), inc, kind, s) {
            assert forall|k: int| 0 <= k < term_pairs(its, inc, kind, s).len() implies (#[trigger] term_pairs(its, inc, kind, s)[k]).0 < b by {
                if k < rp.len() {
                    assert(term_pairs(its, inc, kind, s)[k] == rp[k]);
                }
            }
            assert forall|k: int| 0 <= k < term_idx(its, inc, kind, s).len() implies #[trigger] term_idx(its, inc, kind, s)[k] < b by {
                if k < ri.len() {
                    assert(term_idx(its, inc, kind, s)[k] == ri[k]);
                }
            }
        }
    }
}

/// Set the mask bit of every rule index in the list.
fn mark_all(x: u64, xs: &Vec<u16>) -> (r: u64)
    requires
        forall|k: int| 0 <= k < xs@.len() ==> #[trigger] xs@[k] < 64,
    ensures
        forall|q: u16| q < 64 ==> (mask_has(r, q) <==> (mask_has(x, q) || xs@.contains(q))),
{
    let mut m = x;
    let mut j: usize = 0;
    while j < xs.len()
        invariant
            j <= xs@.len(),
            forall|k: int| 0 <= k < xs@.len() ==> #[trigger] xs@[k] < 64,
            forall|q: u16| q < 64 ==> (mask_has(m, q) <==> (mask_has(x, q) || xs@.take(j as int).contains(q))),
        decreases xs.len() - j,
    {
        let r = xs[j];
        let ghost old_m = m;
        m = m | (1u64 << (r as u64));
        proof {
            let tj = xs@.take(j as int);
            let tj1 = xs@.take(j + 1);
            assert(tj1 =~= tj.push(r));
            assert forall|q: u16| q < 64 implies (tj1.contains(q) <==> (tj.contains(q) || r == q)) by {
                if tj1.contains(q) && !tj.contains(q) {
                    let k = choose|k: int| 0 <= k < tj1.len() && #[trigger] tj1[k] == q;
                    if k < j {
                        assert(tj[k] == q);
                    }
                }
                if tj.contains(q) {
                    let k = choose|k: int| 0 <= k < tj.len() && #[trigger] tj[k] == q;
                    assert(tj1[k] == q);
                }
                if r == q {
                    assert(tj1[j as int] == q);
                }
            }
            assert forall|q: u16| q < 64 implies (mask_has(m, q) <==> (mask_has(x, q) || tj1.contains(q))) by {
                lemma_mask_set(old_m, r as u64, q as u64);
            }
        }
        j = j + 1;
    }
    assert(xs@.take(xs@.len() as int) =~= xs@);
    m
}

/// Set the mask bit of every rule in the list whose method mask admits
/// `bit`.
fn mark_admitting(x: u64, xs: &Vec<(u16, u16)>, bit: u16) -> (r: u64)
    requires
        forall|k: int| 0 <= k < xs@.len() ==> (#[trigger] xs@[k]).0 < 64,
    ensures
        forall|q: u16| q < 64 ==> (mask_has(r, q) <==> (mask_has(x, q) || pairs_admit(xs@, bit, q))),
{
    let mut m = x;
    let mut j: usize = 0;
    while j < xs.len()
        invariant
            j <= xs@.len(),
            forall|k: int| 0 <= k < xs@.len() ==> (#[trigger] xs@[k]).0 < 64,
            forall|q: u16| q < 64 ==> (mask_has(m, q) <==> (mask_has(x, q) || pairs_admit(xs@.take(j as int), bit, q))),
        decreases xs.len() - j,
    {
        let (r, mk) = xs[j];
        let ghost old_m = m;
        let ok = mk == 0xFFFF || (mk & bit) != 0;
        if ok {
            m = m | (1u64 << (r as u64));
        }
        proof {
            let tj = xs@.take(j as int);
            let tj1 = xs@.take(j + 1);
            assert(tj1 =~= tj.push((r, mk)));
            assert forall|q: u16| q < 64 implies (pairs_admit(tj1, bit, q) <==> (pairs_admit(tj, bit, q) || (ok && r
                == q))) by {
                if pairs_admit(tj1, bit, q) && !pairs_admit(tj, bit, q) {
                    let k = choose|k: int| 0 <= k < tj1.len() && (#[trigger] tj1[k]).0 == q && method_ok(tj1[k].1, bit);
                    if k < j {
                        assert(tj[k] == tj1[k]);
                    }
                }
                if pairs_admit(tj, bit, q) {
                    let k = choose|k: int| 0 <= k < tj.len() && (#[trigger] tj[k]).0 == q && method_ok(tj[k].1, bit);
                    assert(tj1[k] == tj[k]);
                }
                if ok && r == q {
                    assert(tj1[j as int] == (r, mk));
                }
            }
            assert forall|q: u16| q < 64 implies (mask_has(m, q) <==> (mask_has(x, q) || pairs_admit(tj1, bit, q))) by {
                if ok {
                    lemma_mask_set(old_m, r as u64, q as u64);
                }
            }
        }
        j = j + 1;
    }
    assert(xs@.take(xs@.len() as int) =~= xs@);
    m
}

fn mask_bit(x: u64, r: u16) -> (b: bool)
    requires
        r < 64,
    ensures
        b == mask_has(x, r),
{
    (x >> (r as u64)) & 1u64 == 1u64
}

impl PathTrie {
    /// One pass over the path bytes (see `trie_answer`).
    #[verifier::rlimit(60)]
    pub fn match_rule(&self, bit: u16, path: &[u8], Ghost(its): Ghost<Seq<Item>>) -> (r: Option<usize>)
        requires
            self.wf(its),
        ensures
            match trie_answer(its, bit, path@) {
                Some(k) => r == Some(k as usize),
                None => r is None,
            },
    {
        let mut node: usize = 0;
        let mut inc_seen: u64 = 0;
        let mut exc_seen: u64 = 0;
        let mut i: usize = 0;
        let mut stop = false;
        proof {
            assert(path@.take(0) =~= self.path(0));
            assert forall|q: u16| q < 64 implies (mask_has(exc_seen, q) <==> pfx_excluded_upto(its, path@, 0, q)) by {
                lemma_mask_zero(q as u64);
            }
            assert forall|q: u16| q < 64 implies (mask_has(inc_seen, q) <==> pfx_included_upto(its, bit, path@, 0, q)) by {
                lemma_mask_zero(q as u64);
            }
        }
        while !stop && i < path.len()
            invariant
                self.wf(its),
                i <= path@.len(),
                node < self.n(),
                self.path(node as int) == path@.take(i as int),
                stop ==> walk_len(its, path@) == i,
                !stop ==> walk_len(its, path@) == walk_from(its, path@, i as int),
                forall|q: u16| q < 64 ==> (mask_has(inc_seen, q) <==> pfx_included_upto(its, bit, path@, i as int, q)),
                forall|q: u16| q < 64 ==> (mask_has(exc_seen, q) <==> pfx_excluded_upto(its, path@, i as int, q)),
            decreases path.len() - i + (if stop { 0int } else { 1int }),
        {
            match self.descend(node, path[i]) {
                None => {
                    proof {
                        assert(path@.take(i as int).push(path@[i as int]) =~= path@.take(i + 1));
                        if in_trie(its, path@.take(i + 1)) {
                            let w = choose|w: int| 0 <= w < self.n() && self.path(w) == path@.take(i + 1);
                            assert(false);
                        }
                    }
                    stop = true;
                },
                Some(next) => {
                    proof {
                        assert(path@.take(i as int).push(path@[i as int]) =~= path@.take(i + 1));
                        assert(in_trie(its, self.path(next as int)));
                    }
                    node = next;
                    let nd = &self.nodes[node];
                    proof {
                        lemma_terms_bounded(its, false, PatKind::Prefix, self.path(node as int));
                        lemma_terms_bounded(its, true, PatKind::Prefix, self.path(node as int));
                    }
                    let ghost old_exc = exc_seen;
                    let ghost old_inc = inc_seen;
                    exc_seen = mark_all(exc_seen, &nd.prefix_excludes);
                    inc_seen = mark_admitting(inc_seen, &nd.prefix_terms, bit);
                    i = i + 1;
                    proof {
                        assert forall|q: u16| q < 64 implies (mask_has(exc_seen, q) <==> pfx_excluded_upto(its, path@, i as int, q)) by {
                            assert(mask_has(old_exc, q) == pfx_excluded_upto(its, path@, i - 1, q));
                        }
                        assert forall|q: u16| q < 64 implies (mask_has(inc_seen, q) <==> pfx_included_upto(its, bit, path@, i as int, q)) by {
                            assert(mask_has(old_inc, q) == pfx_included_upto(its, bit, path@, i - 1, q));
                        }
                    }
                },
            }
        }
        proof {
            if !stop {
                assert(i == path@.len());
                assert(walk_from(its, path@, i as int) == i);
            }
            assert(walk_len(its, path@) == i);
        }
        let ghost w = i as int;
        let full = i == path.len();
        if full {
            let nd = &self.nodes[node];
            proof {
                assert(nd.exact_excludes@ == term_idx(its, false, PatKind::Exact, path@.take(i as int)));
                assert(nd.exact_terms@ == term_pairs(its, true, PatKind::Exact, path@.take(i as int)));
                lemma_terms_bounded(its, false, PatKind::Exact, self.path(node as int));
                lemma_terms_bounded(its, true, PatKind::Exact, self.path(node as int));
            }
            let ghost pre_exc = exc_seen;
            let ghost pre_inc = inc_seen;
            exc_seen = mark_all(exc_seen, &nd.exact_excludes);
            inc_seen = mark_admitting(inc_seen, &nd.exact_terms, bit);
            proof {
                assert forall|q: u16| q < 64 implies (mask_has(exc_seen, q) <==> (pfx_excluded_upto(its, path@, w, q)
                    || term_idx(its, false, PatKind::Exact, path@.take(w)).contains(q))) by {
                    assert(mask_has(pre_exc, q) == pfx_excluded_upto(its, path@, w, q));
                }
                assert forall|q: u16| q < 64 implies (mask_has(inc_seen, q) <==> (pfx_included_upto(its, bit, path@, w, q)
                    || pairs_admit(term_pairs(its, true, PatKind::Exact, path@.take(w)), bit, q))) by {
                    assert(mask_has(pre_inc, q) == pfx_included_upto(its, bit, path@, w, q));
                }
            }
        }
        proof {
            assert forall|q: u16| q < 64 implies (trie_hit(its, bit, path@, q) <==> (mask_has(inc_seen, q) && !mask_has(
                exc_seen,
                q,
            ))) by {}
        }
        let mut r: u16 = 0;
        while r < 64
            invariant
                r <= 64,
                trie_answer(its, bit, path@) == lowest_hit(its, bit, path@, r as int),
                forall|q: u16| q < 64 ==> (trie_hit(its, bit, path@, q) <==> (mask_has(inc_seen, q) && !mask_has(exc_seen, q))),
            decreases 64 - r,
        {
            if mask_bit(inc_seen, r) && !mask_bit(exc_seen, r) {
                return Some(r as usize);
            }
            r = r + 1;
        }
        None
    }
}

/// The automaton's answer is a rule that it finds, and it finds no lower
/// one.
pub proof fn lemma_lowest_hit(its: Seq<Item>, bit: u16, path: Seq<u8>, r: int)
    requires
        0 <= r <= 64,
    ensures
        match lowest_hit(its, bit, path, r) {
            Some(k) => r <= k < 64 && trie_hit(its, bit, path, k as u16) && forall|q: u16|
                r <= q < k ==> !#[trigger] trie_hit(its, bit, path, q),
            None => forall|q: u16| r <= q < 64 ==> !#[trigger] trie_hit(its, bit, path, q),
        },
    decreases 64 - r,
{
    if r < 64 {
        lemma_lowest_hit(its, bit, path, r + 1);
    }
}

/// Each item of the first `n` rules belongs to one of them.
pub proof fn lemma_items_upto_index(rules: Seq<RuleV>, n: int)
    ensures
        forall|i: int|
            0 <= i < items_upto(rules, n).len() ==> 0 <= (#[trigger] items_upto(rules, n)[i]).0 < rules.len(),
    decreases n,
{
    if n > 0 && n <= rules.len() {
        lemma_items_upto_index(rules, n - 1);
        let a = items_upto(rules, n - 1);
        let r = rules[n - 1];
        let b = rule_items(n - 1, r);
        assert(items_upto(rules, n) == a + b);
        assert forall|i: int| 0 <= i < (a + b).len() implies 0 <= (#[trigger] (a + b)[i]).0 < rules.len() by {
            if i < a.len() {
                assert((a + b)[i] == a[i]);
            } else {
                let k = i - a.len();
                assert((a + b)[i] == b[k]);
                if k < r.includes.len() {
                    assert(b[k] == (n - 1, r.methods, true, r.includes[k]));
                } else {
                    assert(b[k] == (n - 1, r.methods, false, r.excludes[k - r.includes.len()]));
                }
            }
        }
    }
}

} // verus!
