//! Disjoint path rules: a linear scan for small rule sets, a path
//! automaton for large ones, chosen at load time.
pub mod disjoint;
pub mod equiv;
pub mod pattern;
pub mod scan;
pub mod trie;

use vstd::prelude::*;
use vstd::string::StringSliceAdditionalSpecFns;
use crate::method::{Method, method_of_bytes, method_bit};
use crate::num::push_chars;
use crate::text::{str_chars, chars_string};
use crate::rules::pattern::{
    Rule, RuleV, RuleWire, pack_rule, pack_rule_spec, packs, str_bytes, check_pat_bytes, pat_ok,
    MAX_RULES,
};
use crate::rules::scan::{rules_view, linear_match, lemma_first_match_props, rule_matches_spec, match_linear_index};
use crate::rules::disjoint::{
    is_request_bit, lemma_bit_meets, lemma_probe_complete, methods_meet, methods_meet_exec, pair_probes,
    pair_probes_exec, paths_admit, paths_admit_exec, rules_meet,
};
use crate::rules::equiv::law_automaton_agrees_with_scan;
use crate::rules::trie::{
    PathTrie, all_items, trie_answer, trie_built,
    TRIE_MIN_RULES, TRIE_MAX_RULES,
};

verus! {

/// Why a ruleset is refused.
#[derive(Debug)]
pub enum RuleError {
    Json(String),
    Overlap { a: String, b: String, example_path: String },
    TooMany,
    EmptyId,
    BadPattern(String),
}

/// A refusal, by the text it carries.
pub enum RuleErrorV {
    Json(Seq<char>),
    Overlap(Seq<char>, Seq<char>, Seq<char>),
    TooMany,
    EmptyId,
    BadPattern(Seq<char>),
}

impl View for RuleError {
    type V = RuleErrorV;

    open spec fn view(&self) -> RuleErrorV {
        match self {
            RuleError::Json(s) => RuleErrorV::Json(s@),
            RuleError::Overlap { a, b, example_path } => RuleErrorV::Overlap(a@, b@, example_path@),
            RuleError::TooMany => RuleErrorV::TooMany,
            RuleError::EmptyId => RuleErrorV::EmptyId,
            RuleError::BadPattern(p) => RuleErrorV::BadPattern(p@),
        }
    }
}

/// What a refusal says: `json: ..`, `overlap A and B at PATH`,
/// `too many rules`, `empty id`, `bad pattern P`.
pub open spec fn rule_error_text(e: RuleErrorV) -> Seq<char> {
    match e {
        RuleErrorV::Json(m) => "json: "@ + m,
        RuleErrorV::Overlap(a, b, p) => "overlap "@ + a + " and "@ + b + " at "@ + p,
        RuleErrorV::TooMany => "too many rules"@,
        RuleErrorV::EmptyId => "empty id"@,
        RuleErrorV::BadPattern(p) => "bad pattern "@ + p,
    }
}

fn cat_texts(parts: &[&str]) -> (r: String)
    ensures
        r@ == cat_spec(parts@),
{
    let mut v: Vec<char> = Vec::new();
    let mut i: usize = 0;
    while i < parts.len()
        invariant
            i <= parts.len(),
            v@ == cat_spec(parts@.take(i as int)),
        decreases parts.len() - i,
    {
        push_chars(&mut v, str_chars(parts[i]).as_slice());
        assert(parts@.take(i + 1).drop_last() =~= parts@.take(i as int));
        i = i + 1;
    }
    assert(parts@.take(parts.len() as int) =~= parts@);
    chars_string(v.as_slice())
}

/// The texts one after another.
pub open spec fn cat_spec(parts: Seq<&str>) -> Seq<char>
    decreases parts.len(),
{
    if parts.len() == 0 {
        Seq::empty()
    } else {
        cat_spec(parts.drop_last()) + parts.last()@
    }
}

impl RuleError {
    /// The refusal as text.
    pub fn message(&self) -> (r: String)
        ensures
            r@ == rule_error_text(self@),
    {
        match self {
            RuleError::Json(m) => {
                let parts = ["json: ", m.as_str()];
                let r = cat_texts(&parts);
                proof {
                    reveal_with_fuel(cat_spec, 3);
                    assert(parts@.drop_last().drop_last() =~= Seq::<&str>::empty());
                }
                r
            },
            RuleError::Overlap { a, b, example_path } => {
                let parts = ["overlap ", a.as_str(), " and ", b.as_str(), " at ", example_path.as_str()];
                let r = cat_texts(&parts);
                proof {
                    reveal_with_fuel(cat_spec, 7);
                    let s = parts@;
                    assert(s.drop_last().drop_last().drop_last().drop_last().drop_last().drop_last() =~= Seq::<&str>::empty());
                }
                r
            },
            RuleError::TooMany => "too many rules".to_string(),
            RuleError::EmptyId => "empty id".to_string(),
            RuleError::BadPattern(p) => {
                let parts = ["bad pattern ", p.as_str()];
                let r = cat_texts(&parts);
                proof {
                    reveal_with_fuel(cat_spec, 3);
                    assert(parts@.drop_last().drop_last() =~= Seq::<&str>::empty());
                }
                r
            },
        }
    }
}

/// The text `String::from_utf8_lossy` makes of a byte string.
pub uninterp spec fn utf8_lossy(b: Seq<u8>) -> Seq<char>;

/// `String::from_utf8_lossy`, owned. Valid UTF-8 decodes exactly; what
/// an invalid sequence becomes is left to the name.
#[verifier::external_body]
fn lossy_string(b: &[u8]) -> (s: String)
    ensures
        s@ == utf8_lossy(b@),
        vstd::utf8::valid_utf8(b@) ==> s@ == vstd::utf8::decode_utf8(b@),
{
    String::from_utf8_lossy(b).into_owned()
}

/// The first probe path that both rules' patterns admit.
pub open spec fn first_hit(ps: Seq<Seq<u8>>, a: RuleV, b: RuleV) -> Option<Seq<u8>>
    decreases ps.len(),
{
    if ps.len() == 0 {
        None
    } else if paths_admit(a, ps[0]) && paths_admit(b, ps[0]) {
        Some(ps[0])
    } else {
        first_hit(ps.drop_first(), a, b)
    }
}

proof fn lemma_first_hit(ps: Seq<Seq<u8>>, a: RuleV, b: RuleV)
    ensures
        first_hit(ps, a, b) is None <==> !(exists|k: int|
            0 <= k < ps.len() && paths_admit(a, #[trigger] ps[k]) && paths_admit(b, ps[k])),
        first_hit(ps, a, b) matches Some(p) ==> paths_admit(a, p) && paths_admit(b, p),
    decreases ps.len(),
{
    if ps.len() > 0 {
        lemma_first_hit(ps.drop_first(), a, b);
        if exists|k: int| 0 <= k < ps.len() && paths_admit(a, #[trigger] ps[k]) && paths_admit(b, ps[k]) {
            let k = choose|k: int| 0 <= k < ps.len() && paths_admit(a, #[trigger] ps[k]) && paths_admit(b, ps[k]);
            if k > 0 {
                assert(ps.drop_first()[k - 1] == ps[k]);
            }
        }
        if exists|k: int|
            0 <= k < ps.drop_first().len() && paths_admit(a, #[trigger] ps.drop_first()[k]) && paths_admit(
                b,
                ps.drop_first()[k],
            ) {
            let k = choose|k: int|
                0 <= k < ps.drop_first().len() && paths_admit(a, #[trigger] ps.drop_first()[k]) && paths_admit(
                    b,
                    ps.drop_first()[k],
                );
            assert(ps[k + 1] == ps.drop_first()[k]);
        }
    }
}

/// The overlap found for a pair of rules: none when no request method
/// reaches both, else the first probe path (see `pair_probes`) that both
/// rules' patterns admit.
pub open spec fn pair_overlap(a: RuleV, b: RuleV) -> Option<Seq<u8>> {
    if !methods_meet(a.methods, b.methods) {
        None
    } else {
        first_hit(pair_probes(a, b), a, b)
    }
}

/// The check is exact: a pair is reported exactly when some request
/// method and path match both rules, with a path both admit.
pub proof fn lemma_pair_overlap_exact(a: RuleV, b: RuleV)
    ensures
        rules_meet(a, b) ==> pair_overlap(a, b) is Some,
        pair_overlap(a, b) matches Some(p) ==> methods_meet(a.methods, b.methods) && paths_admit(a, p) && paths_admit(
            b,
            p,
        ),
{
    lemma_first_hit(pair_probes(a, b), a, b);
    if rules_meet(a, b) {
        let (bit, w) = choose|bit: u16, w: Seq<u8>|
            is_request_bit(bit) && #[trigger] rule_matches_spec(a, bit, w) && #[trigger] rule_matches_spec(b, bit, w);
        lemma_bit_meets(a.methods, b.methods, bit);
        lemma_probe_complete(a, b, w);
    }
}

/// The first overlap of rule `i` with a later rule, from rule `j` on.
pub open spec fn overlap_row(rv: Seq<RuleV>, i: int, j: int) -> Option<(int, int, Seq<u8>)>
    decreases rv.len() - j,
{
    if j < 0 || j >= rv.len() {
        None
    } else {
        match pair_overlap(rv[i], rv[j]) {
            Some(p) => Some((i, j, p)),
            None => overlap_row(rv, i, j + 1),
        }
    }
}

/// The first overlapping pair `(i, j)`, `i < j`, from rule `i` on, in
/// the order `(0, 1), (0, 2), ..., (1, 2), ...`.
pub open spec fn overlap_from(rv: Seq<RuleV>, i: int) -> Option<(int, int, Seq<u8>)>
    decreases rv.len() - i,
{
    if i < 0 || i >= rv.len() {
        None
    } else {
        match overlap_row(rv, i, i + 1) {
            Some(x) => Some(x),
            None => overlap_from(rv, i + 1),
        }
    }
}

pub open spec fn first_overlap(rv: Seq<RuleV>) -> Option<(int, int, Seq<u8>)> {
    overlap_from(rv, 0)
}

proof fn lemma_row_none(rv: Seq<RuleV>, i: int, j0: int, j: int)
    requires
        overlap_row(rv, i, j0) is None,
        0 <= j0 <= j < rv.len(),
    ensures
        pair_overlap(rv[i], rv[j]) is None,
    decreases j - j0,
{
    if j0 < j {
        lemma_row_none(rv, i, j0 + 1, j);
    }
}

proof fn lemma_from_none(rv: Seq<RuleV>, i0: int, i: int, j: int)
    requires
        overlap_from(rv, i0) is None,
        0 <= i0 <= i < j < rv.len(),
    ensures
        pair_overlap(rv[i], rv[j]) is None,
    decreases i - i0,
{
    if i0 < i {
        lemma_from_none(rv, i0 + 1, i, j);
    } else {
        lemma_row_none(rv, i, i + 1, j);
    }
}

/// No two rules of an accepted list answer a common request: when the
/// load check finds no overlap, no request method and path match two of
/// its rules.
pub proof fn law_accepted_rules_never_meet(rv: Seq<RuleV>, i: int, j: int)
    requires
        first_overlap(rv) is None,
        0 <= i < j < rv.len(),
    ensures
        !rules_meet(rv[i], rv[j]),
{
    lemma_from_none(rv, 0, i, j);
    lemma_pair_overlap_exact(rv[i], rv[j]);
}

proof fn lemma_row_some(rv: Seq<RuleV>, i: int, j0: int, j: int)
    requires
        pair_overlap(rv[i], rv[j]) is Some,
        0 <= j0 <= j < rv.len(),
    ensures
        overlap_row(rv, i, j0) is Some,
    decreases j - j0,
{
    if j0 < j && pair_overlap(rv[i], rv[j0]) is None {
        lemma_row_some(rv, i, j0 + 1, j);
    }
}

proof fn lemma_from_some(rv: Seq<RuleV>, i0: int, i: int, j: int)
    requires
        pair_overlap(rv[i], rv[j]) is Some,
        0 <= i0 <= i < j < rv.len(),
    ensures
        overlap_from(rv, i0) is Some,
    decreases i - i0,
{
    if i0 < i {
        if overlap_row(rv, i0, i0 + 1) is None {
            lemma_from_some(rv, i0 + 1, i, j);
        }
    } else {
        lemma_row_some(rv, i, i + 1, j);
    }
}

/// Load-time overlap is an error: when some request method and path
/// match two rules of a list, loading it fails with an overlap.
pub proof fn law_overlapping_rules_are_refused(rv: Seq<RuleV>, i: int, j: int, min_rules: int)
    requires
        0 <= i < j < rv.len(),
        rules_meet(rv[i], rv[j]),
    ensures
        load_outcome(rv, min_rules) matches Err(e) && e is Overlap,
{
    lemma_pair_overlap_exact(rv[i], rv[j]);
    lemma_from_some(rv, 0, i, j);
}

/// What loading a rule list comes to: the first overlap is refused,
/// else the ruleset loads, with the automaton when `trie_built` says so.
pub open spec fn load_outcome(rv: Seq<RuleV>, min_rules: int) -> Result<bool, RuleErrorV> {
    match first_overlap(rv) {
        Some((i, j, p)) => Err(RuleErrorV::Overlap(rv[i].id, rv[j].id, utf8_lossy(p))),
        None => Ok(trie_built(rv, min_rules)),
    }
}

/// The first bad pattern of a list.
pub open spec fn first_bad(ps: Seq<String>) -> Option<String>
    decreases ps.len(),
{
    if ps.len() == 0 {
        None
    } else if !pat_ok(str_bytes(ps[0])) {
        Some(ps[0])
    } else {
        first_bad(ps.drop_first())
    }
}

/// Why a wire rule is refused: an empty id, else its first bad pattern
/// (includes before excludes).
pub open spec fn wire_fault(w: RuleWire) -> Option<RuleErrorV> {
    if w.id@.len() == 0 {
        Some(RuleErrorV::EmptyId)
    } else {
        match first_bad(w.includes@ + w.excludes@) {
            Some(p) => Some(RuleErrorV::BadPattern(p@)),
            None => None,
        }
    }
}

/// The fault of the first refused wire rule.
pub open spec fn wires_fault(ws: Seq<RuleWire>) -> Option<RuleErrorV>
    decreases ws.len(),
{
    if ws.len() == 0 {
        None
    } else {
        match wire_fault(ws[0]) {
            Some(e) => Some(e),
            None => wires_fault(ws.drop_first()),
        }
    }
}

/// The method bit a request token stands for (0 for an unknown token).
pub open spec fn request_bit(method: Seq<u8>) -> u16 {
    match method_of_bytes(method) {
        Some(m) => method_bit(m),
        None => 0,
    }
}

/// The rule a ruleset answers: the automaton's answer when it is
/// active, else the first matching rule.
pub open spec fn ruleset_answer(rv: Seq<RuleV>, trie_on: bool, bit: u16, path: Seq<u8>) -> Option<int> {
    if trie_on {
        trie_answer(all_items(rv), bit, path)
    } else {
        linear_match(rv, bit, path)
    }
}

/// The first probe path both rules admit, by a scan of the probes.
fn overlap_witness(a: &Rule, b: &Rule) -> (r: Option<Vec<u8>>)
    ensures
        match pair_overlap(a@, b@) {
            None => r is None,
            Some(p) => r matches Some(v) && v@ == p,
        },
{
    if !methods_meet_exec(a.methods, b.methods) {
        return None;
    }
    let ps = pair_probes_exec(a, b);
    let ghost pv = ps@.map_values(|c: Vec<u8>| c@);
    proof {
        assert(pv.skip(0) =~= pv);
    }
    let mut k: usize = 0;
    while k < ps.len()
        invariant
            k <= ps.len(),
            methods_meet(a@.methods, b@.methods),
            pv == ps@.map_values(|c: Vec<u8>| c@),
            pv == pair_probes(a@, b@),
            first_hit(pv, a@, b@) == first_hit(pv.skip(k as int), a@, b@),
        decreases ps.len() - k,
    {
        assert(pv.skip(k as int)[0] == ps@[k as int]@);
        assert(pv.skip(k as int).drop_first() =~= pv.skip(k + 1));
        if paths_admit_exec(a, ps[k].as_slice()) && paths_admit_exec(b, ps[k].as_slice()) {
            let v = ps[k].clone();
            assert(v@ =~= ps@[k as int]@);
            assert(pv[k as int] == ps@[k as int]@);
            assert(first_hit(pv.skip(k as int), a@, b@) == Some(pv[k as int]));
            return Some(v);
        }
        k = k + 1;
    }
    assert(pv.skip(k as int).len() == 0);
    None
}

/// Every pair of rules that a request method reaches is probed on the
/// probe paths of both; the first path both admit is an overlap.
pub fn check_disjoint(rules: &Vec<Rule>) -> (r: Result<(), RuleError>)
    ensures
        match first_overlap(rules_view(rules@)) {
            None => r is Ok,
            Some((i, j, p)) => r matches Err(e) && e@ == RuleErrorV::Overlap(
                rules_view(rules@)[i].id,
                rules_view(rules@)[j].id,
                utf8_lossy(p),
            ),
        },
{
    let ghost rv = rules_view(rules@);
    let n = rules.len();
    let mut i: usize = 0;
    while i < n
        invariant
            n == rules.len(),
            i <= n,
            rv == rules_view(rules@),
            first_overlap(rv) == overlap_from(rv, i as int),
        decreases n - i,
    {
        let mut j: usize = i + 1;
        while j < n
            invariant
                n == rules.len(),
                i < n,
                i + 1 <= j <= n,
                rv == rules_view(rules@),
                first_overlap(rv) == overlap_from(rv, i as int),
                overlap_row(rv, i as int, i + 1) == overlap_row(rv, i as int, j as int),
            decreases n - j,
        {
            match overlap_witness(&rules[i], &rules[j]) {
                Some(p) => {
                    let s = lossy_string(p.as_slice());
                    return Err(RuleError::Overlap { a: rules[i].id.clone(), b: rules[j].id.clone(), example_path: s });
                },
                None => {},
            }
            j = j + 1;
        }
        i = i + 1;
    }
    Ok(())
}

/// A validated rule list with its load-time realization.
pub struct Ruleset {
    rules: Vec<Rule>,
    trie: Option<PathTrie>,
}

impl View for Ruleset {
    type V = Seq<RuleV>;

    closed spec fn view(&self) -> Seq<RuleV> {
        rules_view(self.rules@)
    }
}

impl Ruleset {
    /// At most `MAX_RULES` rules, no overlap found among them, and an
    /// automaton, when present, that realizes exactly their patterns.
    #[verifier::type_invariant]
    closed spec fn inv(self) -> bool {
        &&& self.rules@.len() <= MAX_RULES
        &&& first_overlap(rules_view(self.rules@)) is None
        &&& match self.trie {
            Some(t) => self.rules@.len() <= TRIE_MAX_RULES && t.wf(all_items(rules_view(self.rules@))),
            None => true,
        }
    }

    /// The rules, in load order.
    pub closed spec fn rule_seq(&self) -> Seq<Rule> {
        self.rules@
    }

    /// The automaton realization is active (it only ever is for at most
    /// `TRIE_MAX_RULES` rules).
    pub closed spec fn trie_on(&self) -> bool {
        self.trie is Some && self.rules@.len() <= TRIE_MAX_RULES
    }

    /// The view is the rules' views.
    pub proof fn lemma_view(&self)
        ensures
            self@ == rules_view(self.rule_seq()),
    {
    }

    pub fn rules(&self) -> (r: &Vec<Rule>)
        ensures
            r@ == self.rule_seq(),
    {
        &self.rules
    }

    /// Load a rule list: at most `MAX_RULES` rules, no overlap.
    pub fn from_rules(rules: Vec<Rule>) -> (r: Result<Ruleset, RuleError>)
        ensures
            rules@.len() > MAX_RULES ==> (r matches Err(e) && e@ == RuleErrorV::TooMany),
            rules@.len() <= MAX_RULES ==> match load_outcome(rules_view(rules@), TRIE_MIN_RULES as int) {
                Ok(t) => r matches Ok(s) && s.rule_seq() == rules@ && s.trie_on() == t,
                Err(e) => r matches Err(x) && x@ == e,
            },
    {
        if rules.len() > MAX_RULES {
            return Err(RuleError::TooMany);
        }
        Self::build_inner(rules, false)
    }

    /// As `from_rules`, but the automaton is derived whenever it fits,
    /// whatever the rule count.
    pub fn from_rules_forced(rules: Vec<Rule>) -> (r: Result<Ruleset, RuleError>)
        ensures
            rules@.len() > MAX_RULES ==> (r matches Err(e) && e@ == RuleErrorV::TooMany),
            rules@.len() <= MAX_RULES ==> match load_outcome(rules_view(rules@), 0) {
                Ok(t) => r matches Ok(s) && s.rule_seq() == rules@ && s.trie_on() == t,
                Err(e) => r matches Err(x) && x@ == e,
            },
    {
        if rules.len() > MAX_RULES {
            return Err(RuleError::TooMany);
        }
        Self::build_inner(rules, true)
    }

    fn build_inner(rules: Vec<Rule>, force: bool) -> (r: Result<Ruleset, RuleError>)
        requires
            rules@.len() <= MAX_RULES,
        ensures
            match load_outcome(rules_view(rules@), if force { 0 } else { TRIE_MIN_RULES as int }) {
                Ok(t) => r matches Ok(s) && s.rule_seq() == rules@ && s.trie_on() == t,
                Err(e) => r matches Err(x) && x@ == e,
            },
    {
        match check_disjoint(&rules) {
            Err(e) => {
                return Err(e);
            },
            Ok(()) => {},
        }
        let min = if force { 0 } else { TRIE_MIN_RULES };
        let trie = PathTrie::build(&rules, min);
        Ok(Ruleset { rules, trie })
    }

    /// Load wire rules: at most `MAX_RULES`, each with an id and good
    /// patterns, then packed and loaded as by `from_rules`.
    pub fn from_wire(wires: Vec<RuleWire>) -> (r: Result<Ruleset, RuleError>)
        ensures
            wires@.len() > MAX_RULES ==> (r matches Err(e) && e@ == RuleErrorV::TooMany),
            wires@.len() <= MAX_RULES ==> match wires_fault(wires@) {
                Some(e) => r matches Err(x) && x@ == e,
                None => match load_outcome(wires@.map_values(|w: RuleWire| pack_rule_spec(w)), TRIE_MIN_RULES as int) {
                    Ok(t) => r matches Ok(s) && s@ == wires@.map_values(|w: RuleWire| pack_rule_spec(w))
                        && s.trie_on() == t && s.rule_seq().len() == wires@.len()
                        && forall|k: int| 0 <= k < wires@.len() ==> packs(#[trigger] s.rule_seq()[k], wires@[k]),
                    Err(e) => r matches Err(x) && x@ == e,
                },
            },
    {
        let n = wires.len();
        if n > MAX_RULES {
            return Err(RuleError::TooMany);
        }
        let mut i: usize = 0;
        proof {
            assert(wires@.skip(0) =~= wires@);
        }
        while i < n
            invariant
                n == wires.len(),
                n <= MAX_RULES,
                i <= n,
                wires_fault(wires@) == wires_fault(wires@.skip(i as int)),
            decreases n - i,
        {
            let w = &wires[i];
            proof {
                assert(wires@.skip(i as int)[0] == wires@[i as int]);
                assert(wires@.skip(i as int).drop_first() =~= wires@.skip(i + 1));
            }
            if w.id.as_str().is_empty() {
                return Err(RuleError::EmptyId);
            }
            match first_bad_of(&w.includes, &w.excludes) {
                Some(p) => {
                    return Err(RuleError::BadPattern(p));
                },
                None => {},
            }
            i = i + 1;
        }
        proof {
            assert(wires@.skip(n as int).len() == 0);
        }
        let ghost ws = wires@;
        let mut rest = wires;
        let mut rev: Vec<Rule> = Vec::new();
        while rest.len() > 0
            invariant
                rest@.len() + rev@.len() == n,
                n == ws.len(),
                rest@ == ws.take(rest@.len() as int),
                forall|k: int| 0 <= k < rev@.len() ==> packs(#[trigger] rev@[k], ws[n - 1 - k]),
            decreases rest@.len(),
        {
            let w = rest.pop().unwrap();
            proof {
                assert(w == ws[rest@.len() as int]);
                assert(ws.take(rest@.len() as int + 1).drop_last() =~= ws.take(rest@.len() as int));
            }
            rev.push(pack_rule(w));
        }
        let mut packed: Vec<Rule> = Vec::new();
        while rev.len() > 0
            invariant
                rev@.len() + packed@.len() == n,
                n == ws.len(),
                forall|k: int| 0 <= k < rev@.len() ==> packs(#[trigger] rev@[k], ws[n - 1 - k]),
                forall|k: int| 0 <= k < packed@.len() ==> packs(#[trigger] packed@[k], ws[k]),
            decreases rev@.len(),
        {
            let r = rev.pop().unwrap();
            packed.push(r);
        }
        proof {
            assert(rules_view(packed@) =~= ws.map_values(|w: RuleWire| pack_rule_spec(w)));
        }
        Self::build_inner(packed, false)
    }

    /// The answer under a method bit: the first rule that matches, by
    /// whichever realization the set loaded with.
    fn match_bit(&self, bit: u16, path: &[u8]) -> (r: Option<&Rule>)
        ensures
            match linear_match(self@, bit, path@) {
                Some(k) => 0 <= k < self.rule_seq().len() && r == Some(&self.rule_seq()[k]),
                None => r is None,
            },
    {
        proof {
            use_type_invariant(self);
            lemma_first_match_props(self@, bit, path@, 0);
        }
        match &self.trie {
            Some(t) => {
                let ghost rv = rules_view(self.rules@);
                proof {
                    law_automaton_agrees_with_scan(rv, bit, path@);
                }
                match t.match_rule(bit, path, Ghost(all_items(rv))) {
                    Some(i) => Some(&self.rules[i]),
                    None => None,
                }
            },
            None => match match_linear_index(&self.rules, bit, path) {
                Some(i) => Some(&self.rules[i]),
                None => None,
            },
        }
    }

    /// The rule for a request given by its method token and path.
    pub fn match_path(&self, method: &str, path: &str) -> (r: Option<&Rule>)
        ensures
            match linear_match(self@, request_bit(method.spec_bytes()), path.spec_bytes()) {
                Some(k) => 0 <= k < self.rule_seq().len() && r == Some(&self.rule_seq()[k]),
                None => r is None,
            },
    {
        let bit = match Method::parse(method) {
            Some(m) => m.bit(),
            None => 0,
        };
        self.match_bit(bit, path.as_bytes())
    }

    /// The rule for a request given by its method and path.
    pub fn match_method(&self, method: Method, path: &str) -> (r: Option<&Rule>)
        ensures
            match linear_match(self@, method_bit(method), path.spec_bytes()) {
                Some(k) => 0 <= k < self.rule_seq().len() && r == Some(&self.rule_seq()[k]),
                None => r is None,
            },
    {
        self.match_bit(method.bit(), path.as_bytes())
    }

    /// The rule the linear scan finds: the first that matches.
    pub fn match_linear(&self, method: Method, path: &str) -> (r: Option<&Rule>)
        ensures
            match linear_match(self@, method_bit(method), path.spec_bytes()) {
                Some(k) => 0 <= k < self.rule_seq().len() && r == Some(&self.rule_seq()[k]),
                None => r is None,
            },
    {
        match match_linear_index(&self.rules, method.bit(), path.as_bytes()) {
            Some(i) => Some(&self.rules[i]),
            None => None,
        }
    }

    /// Whether the automaton realization is active.
    pub fn trie_active(&self) -> (r: bool)
        ensures
            r == self.trie_on(),
    {
        proof {
            use_type_invariant(self);
        }
        self.trie.is_some()
    }

    /// Re-check the loaded rules for overlaps. None is ever found: a
    /// ruleset is only built from rules that pass this check, so no
    /// request method and path match two of its rules.
    pub fn assert_disjoint(&self) -> (r: Result<(), RuleError>)
        ensures
            r is Ok,
            forall|i: int, j: int| 0 <= i < j < self@.len() ==> !rules_meet(#[trigger] self@[i], #[trigger] self@[j]),
    {
        proof {
            use_type_invariant(self);
            assert forall|i: int, j: int| 0 <= i < j < self@.len() implies !rules_meet(
                #[trigger] self@[i],
                #[trigger] self@[j],
            ) by {
                law_accepted_rules_never_meet(self@, i, j);
            }
        }
        check_disjoint(&self.rules)
    }
}

/// Law: whichever realization a ruleset loaded with, every request is
/// answered as the linear scan answers it.
pub proof fn law_match_method_is_linear(s: Ruleset, bit: u16, path: Seq<u8>)
    ensures
        ruleset_answer(s@, s.trie_on(), bit, path) == linear_match(s@, bit, path),
{
    if s.trie_on() {
        law_automaton_agrees_with_scan(s@, bit, path);
    }
}

/// The first bad pattern among includes then excludes, cloned.
fn first_bad_of(inc: &Vec<String>, exc: &Vec<String>) -> (r: Option<String>)
    ensures
        match first_bad(inc@ + exc@) {
            Some(p) => r == Some(p),
            None => r is None,
        },
{
    let ghost all = inc@ + exc@;
    let mut i: usize = 0;
    proof {
        assert(all.skip(0) =~= all);
    }
    while i < inc.len()
        invariant
            i <= inc.len(),
            all == inc@ + exc@,
            first_bad(all) == first_bad(all.skip(i as int)),
        decreases inc.len() - i,
    {
        assert(all.skip(i as int)[0] == inc@[i as int]);
        assert(all.skip(i as int).drop_first() =~= all.skip(i + 1));
        if !check_pat_bytes(inc[i].as_str().as_bytes()) {
            return Some(inc[i].clone());
        }
        i = i + 1;
    }
    let mut j: usize = 0;
    while j < exc.len()
        invariant
            j <= exc.len(),
            all == inc@ + exc@,
            first_bad(all) == first_bad(all.skip(inc@.len() + j)),
        decreases exc.len() - j,
    {
        assert(all.skip(inc@.len() + j)[0] == exc@[j as int]);
        assert(all.skip(inc@.len() + j).drop_first() =~= all.skip(inc@.len() + j + 1));
        if !check_pat_bytes(exc[j].as_str().as_bytes()) {
            return Some(exc[j].clone());
        }
        j = j + 1;
    }
    assert(all.skip((inc@.len() + exc@.len()) as int).len() == 0);
    None
}

} // verus!
