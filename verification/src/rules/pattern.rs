use vstd::prelude::*;
use vstd::string::StringSliceAdditionalSpecFns;
use crate::method::{Method, method_of_bytes, method_bit, law_method_bits};
use crate::rules::scan::method_ok;

verus! {

/// Maximum number of rules in one ruleset.
pub const MAX_RULES: usize = 256;
/// Maximum byte length of one pattern.
pub const MAX_PAT: usize = 1024;
/// Method mask meaning "every method".
pub const METHODS_ALL: u16 = 0xFFFF;

/// Exact path, or `pre/*` (every path under `pre/`).
#[derive(Clone, Copy, Debug, PartialEq, Eq, Structural)]
pub enum PatKind {
    Exact,
    Prefix,
}

/// A packed path pattern. For `Prefix`, `bytes` is `pre` without the `/*`.
#[derive(Clone, Debug)]
pub struct Pat {
    pub kind: PatKind,
    pub bytes: Vec<u8>,
}

pub type PatV = (PatKind, Seq<u8>);

impl View for Pat {
    type V = PatV;

    open spec fn view(&self) -> PatV {
        (self.kind, self.bytes@)
    }
}

/// A header requirement attached to a rule (carried, not evaluated here).
#[derive(Clone, Debug)]
pub struct HeaderRule {
    pub name: String,
    pub exists: Option<bool>,
    pub cidr: Option<String>,
    pub on_fail: Option<u16>,
}

/// A runtime rule: method mask, includes and excludes patterns, ids.
#[derive(Clone, Debug)]
pub struct Rule {
    /// `0xFFFF` = all methods. Else an OR of method bits.
    pub methods: u16,
    pub includes: Vec<Pat>,
    pub excludes: Vec<Pat>,
    pub id: String,
    pub module: String,
    pub headers: Vec<HeaderRule>,
}

pub struct RuleV {
    pub methods: u16,
    pub includes: Seq<PatV>,
    pub excludes: Seq<PatV>,
    pub id: Seq<char>,
}

impl View for Rule {
    type V = RuleV;

    open spec fn view(&self) -> RuleV {
        RuleV {
            methods: self.methods,
            includes: self.includes@.map_values(|p: Pat| p@),
            excludes: self.excludes@.map_values(|p: Pat| p@),
            id: self.id@,
        }
    }
}

/// A rule as it arrives on the wire, before packing.
#[derive(Clone, Debug)]
pub struct RuleWire {
    pub id: String,
    pub module: String,
    pub methods: Vec<String>,
    pub includes: Vec<String>,
    pub excludes: Vec<String>,
    pub headers: Vec<HeaderRule>,
}

/// `pre/*` packs to `(Prefix, pre)`; anything else is an exact pattern.
pub open spec fn pack_spec(s: Seq<u8>) -> PatV {
    if s.len() >= 2 && s[s.len() - 2] == 47u8 && s[s.len() - 1] == 42u8 {
        (PatKind::Prefix, s.take(s.len() - 2))
    } else {
        (PatKind::Exact, s)
    }
}

pub fn pack_pat_bytes(b: &[u8]) -> (r: Pat)
    ensures
        r@ == pack_spec(b@),
{
    let n = b.len();
    if n >= 2 && b[n - 2] == 47u8 && b[n - 1] == 42u8 {
        let pre = vstd::slice::slice_subrange(b, 0, n - 2);
        let v = vstd::slice::slice_to_vec(pre);
        assert(v@ =~= b@.take(n - 2));
        Pat { kind: PatKind::Prefix, bytes: v }
    } else {
        Pat { kind: PatKind::Exact, bytes: vstd::slice::slice_to_vec(b) }
    }
}

pub fn pack_pat(p: String) -> (r: Pat)
    ensures
        r@ == pack_spec(str_bytes(p)),
{
    pack_pat_bytes(p.as_str().as_bytes())
}

/// The method mask of a list of method names: all methods when the list
/// is empty, else the OR of the bits of the names that are methods.
pub open spec fn mask_of(names: Seq<Seq<u8>>) -> u16
    decreases names.len(),
{
    if names.len() == 0 {
        0u16
    } else {
        let rest = mask_of(names.drop_last());
        match method_of_bytes(names.last()) {
            Some(m) => rest | method_bit(m),
            None => rest,
        }
    }
}

pub open spec fn methods_mask_spec(names: Seq<Seq<u8>>) -> u16 {
    if names.len() == 0 { METHODS_ALL } else { mask_of(names) }
}

pub open spec fn str_bytes(s: String) -> Seq<u8> {
    vstd::utf8::encode_utf8(s@)
}

pub fn methods_mask(v: &Vec<String>) -> (r: u16)
    ensures
        r == methods_mask_spec(v@.map_values(|s: String| str_bytes(s))),
{
    let ghost names = v@.map_values(|s: String| str_bytes(s));
    if v.len() == 0 {
        return METHODS_ALL;
    }
    let mut m: u16 = 0;
    let mut i: usize = 0;
    while i < v.len()
        invariant
            i <= v.len(),
            names == v@.map_values(|s: String| str_bytes(s)),
            m == mask_of(names.take(i as int)),
        decreases v.len() - i,
    {
        assert(names.take(i + 1).drop_last() =~= names.take(i as int));
        if let Some(meth) = Method::parse(v[i].as_str()) {
            m = m | meth.bit();
        }
        i = i + 1;
    }
    assert(names.take(v.len() as int) =~= names);
    m
}

/// Why a pattern is refused.
pub open spec fn contains_byte(s: Seq<u8>, c: u8) -> bool {
    exists|i: int| 0 <= i < s.len() && s[i] == c
}

pub open spec fn contains_pair(s: Seq<u8>, c: u8, d: u8) -> bool {
    exists|i: int| 0 <= i < s.len() - 1 && #[trigger] s[i] == c && s[i + 1] == d
}

/// A pattern is accepted when it is non-empty, at most `MAX_PAT` bytes,
/// starts with `/`, holds no `**`, `?` or `[`, and holds a `*` only as
/// the final `/*`.
pub open spec fn pat_ok(s: Seq<u8>) -> bool {
    &&& s.len() > 0
    &&& s.len() <= MAX_PAT
    &&& s[0] == 47u8
    &&& !contains_pair(s, 42u8, 42u8)
    &&& !contains_byte(s, 63u8)
    &&& !contains_byte(s, 91u8)
    &&& (contains_byte(s, 42u8) ==> s.len() >= 2 && s[s.len() - 2] == 47u8 && s[s.len() - 1] == 42u8)
}

fn has_byte(s: &[u8], c: u8) -> (r: bool)
    ensures
        r == contains_byte(s@, c),
{
    let mut i: usize = 0;
    while i < s.len()
        invariant
            i <= s.len(),
            forall|j: int| 0 <= j < i ==> s@[j] != c,
        decreases s.len() - i,
    {
        if s[i] == c {
            return true;
        }
        i = i + 1;
    }
    false
}

fn has_pair(s: &[u8], c: u8, d: u8) -> (r: bool)
    ensures
        r == contains_pair(s@, c, d),
{
    if s.len() < 2 {
        return false;
    }
    let mut i: usize = 0;
    while i < s.len() - 1
        invariant
            s.len() >= 2,
            forall|j: int| 0 <= j < i && j < s.len() - 1 ==> !(#[trigger] s@[j] == c && s@[j + 1] == d),
        decreases s.len() - i,
    {
        if s[i] == c && s[i + 1] == d {
            return true;
        }
        i = i + 1;
    }
    false
}

/// Checks one pattern; `Err(())` when it is refused.
pub fn check_pat_bytes(p: &[u8]) -> (r: bool)
    ensures
        r == pat_ok(p@),
{
    if p.len() == 0 || p.len() > MAX_PAT || p[0] != 47u8 {
        return false;
    }
    if has_pair(p, 42u8, 42u8) || has_byte(p, 63u8) || has_byte(p, 91u8) {
        return false;
    }
    if has_byte(p, 42u8) {
        let n = p.len();
        if !(n >= 2 && p[n - 2] == 47u8 && p[n - 1] == 42u8) {
            return false;
        }
    }
    true
}

/// The packed form of a wire rule.
pub open spec fn pack_rule_spec(w: RuleWire) -> RuleV {
    RuleV {
        methods: methods_mask_spec(w.methods@.map_values(|s: String| str_bytes(s))),
        includes: w.includes@.map_values(|s: String| pack_spec(str_bytes(s))),
        excludes: w.excludes@.map_values(|s: String| pack_spec(str_bytes(s))),
        id: w.id@,
    }
}

/// A runtime rule packs a wire rule: the view as above, module and headers moved over.
pub open spec fn packs(r: Rule, w: RuleWire) -> bool {
    &&& r@ == pack_rule_spec(w)
    &&& r.module == w.module
    &&& r.headers == w.headers
}

fn pack_all(ps: &Vec<String>) -> (r: Vec<Pat>)
    ensures
        r@.map_values(|p: Pat| p@) == ps@.map_values(|s: String| pack_spec(str_bytes(s))),
{
    let mut out: Vec<Pat> = Vec::new();
    let mut i: usize = 0;
    while i < ps.len()
        invariant
            i <= ps.len(),
            out@.map_values(|p: Pat| p@) == ps@.take(i as int).map_values(|s: String| pack_spec(str_bytes(s))),
        decreases ps.len() - i,
    {
        let p = pack_pat(ps[i].clone());
        let ghost pv = p@;
        let ghost before = out@;
        assert(pv == pack_spec(str_bytes(ps@[i as int])));
        out.push(p);
        assert(ps@.take(i + 1) =~= ps@.take(i as int).push(ps@[i as int]));
        assert(out@.map_values(|p: Pat| p@) =~= before.map_values(|p: Pat| p@).push(pv));
        assert(ps@.take(i + 1).map_values(|s: String| pack_spec(str_bytes(s))) =~= ps@.take(i as int).map_values(
            |s: String| pack_spec(str_bytes(s)),
        ).push(pv));
        i = i + 1;
    }
    assert(ps@.take(ps.len() as int) =~= ps@);
    out
}

/// Pack a wire rule into its runtime form.
pub fn pack_rule(w: RuleWire) -> (r: Rule)
    ensures
        packs(r, w),
{
    let methods = methods_mask(&w.methods);
    let includes = pack_all(&w.includes);
    let excludes = pack_all(&w.excludes);
    Rule { methods, includes, excludes, id: w.id, module: w.module, headers: w.headers }
}

proof fn lemma_or_bit(r: u16, b: u16, c: u16)
    ensures
        ((r | b) & c) != 0 <==> ((r & c) != 0 || (b & c) != 0),
        r < 512 && b < 512 ==> (r | b) < 512,
{
    assert(((r | b) & c) != 0 <==> ((r & c) != 0 || (b & c) != 0)) by (bit_vector);
    assert(r < 512 && b < 512 ==> (r | b) < 512) by (bit_vector);
}

spec fn lists(names: Seq<Seq<u8>>, m: Method) -> bool {
    exists|i: int| 0 <= i < names.len() && method_of_bytes(#[trigger] names[i]) == Some(m)
}

proof fn lemma_lists_push(names: Seq<Seq<u8>>, m: Method)
    requires
        names.len() > 0,
    ensures
        lists(names, m) <==> (lists(names.drop_last(), m) || method_of_bytes(names.last()) == Some(m)),
{
    let init = names.drop_last();
    let n = names.len() - 1;
    if lists(init, m) {
        let i = choose|i: int| 0 <= i < init.len() && method_of_bytes(#[trigger] init[i]) == Some(m);
        assert(names[i] == init[i]);
    }
    if method_of_bytes(names.last()) == Some(m) {
        assert(names[n] == names.last());
    }
    if lists(names, m) {
        let i = choose|i: int| 0 <= i < names.len() && method_of_bytes(#[trigger] names[i]) == Some(m);
        if i < n {
            assert(init[i] == names[i]);
        }
    }
}

proof fn lemma_mask_of(names: Seq<Seq<u8>>, m: Method)
    ensures
        mask_of(names) < 512,
        (mask_of(names) & method_bit(m)) != 0 <==> lists(names, m),
    decreases names.len(),
{
    if names.len() == 0 {
        assert((0u16 & method_bit(m)) == 0) by (bit_vector);
    } else {
        let init = names.drop_last();
        lemma_mask_of(init, m);
        lemma_lists_push(names, m);
        let rest = mask_of(init);
        match method_of_bytes(names.last()) {
            Some(k) => {
                law_method_bits(k, m);
                lemma_or_bit(rest, method_bit(k), method_bit(m));
                assert(method_bit(k) < 512);
            },
            None => {},
        }
    }
}

/// Law: a method list admits exactly the methods it names, every one of
/// them (the bits are OR-ed in), and an empty list admits every method.
pub proof fn law_methods_mask_lists(names: Seq<Seq<u8>>, m: Method)
    ensures
        names.len() == 0 ==> method_ok(methods_mask_spec(names), method_bit(m)),
        names.len() > 0 ==> ((methods_mask_spec(names) & method_bit(m)) != 0 <==> exists|i: int|
            0 <= i < names.len() && method_of_bytes(#[trigger] names[i]) == Some(m)),
        names.len() > 0 ==> (method_ok(methods_mask_spec(names), method_bit(m)) <==> exists|i: int|
            0 <= i < names.len() && method_of_bytes(#[trigger] names[i]) == Some(m)),
{
    lemma_mask_of(names, m);
}

/// Law: a packed wire rule admits a method exactly when its method list
/// is empty or names that method among others.
pub proof fn law_packed_rule_methods(w: RuleWire, m: Method)
    ensures
        method_ok(pack_rule_spec(w).methods, method_bit(m)) <==> (w.methods@.len() == 0 || exists|i: int|
            0 <= i < w.methods@.len() && method_of_bytes(str_bytes(#[trigger] w.methods@[i])) == Some(m)),
{
    let names = w.methods@.map_values(|s: String| str_bytes(s));
    law_methods_mask_lists(names, m);
    if exists|i: int| 0 <= i < w.methods@.len() && method_of_bytes(str_bytes(#[trigger] w.methods@[i])) == Some(m) {
        let i = choose|i: int| 0 <= i < w.methods@.len() && method_of_bytes(str_bytes(#[trigger] w.methods@[i])) == Some(m);
        assert(names[i] == str_bytes(w.methods@[i]));
    }
    if exists|i: int| 0 <= i < names.len() && method_of_bytes(#[trigger] names[i]) == Some(m) {
        let i = choose|i: int| 0 <= i < names.len() && method_of_bytes(#[trigger] names[i]) == Some(m);
        assert(names[i] == str_bytes(w.methods@[i]));
    }
}

} // verus!
