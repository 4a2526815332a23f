//! A JSON document and edits by JSON pointer.
use vstd::prelude::*;
use crate::atom::{AtomError, PointerV, pointer_spec, split_pointer};
use crate::text::{str_chars, parse_usize, parse_usize_chars, unsigned_digits, lemma_dec_nonneg};

verus! {

/// A JSON value. Numbers keep their text; an object keeps its members in
/// order, each key once.
#[derive(Debug)]
pub enum Json {
    Null,
    Bool(bool),
    Num(String),
    Str(String),
    Arr(Vec<Json>),
    Obj(Vec<(String, Json)>),
}

pub enum JsonV {
    Null,
    Bool(bool),
    Num(Seq<char>),
    Str(Seq<char>),
    Arr(Seq<JsonV>),
    Obj(Seq<(Seq<char>, JsonV)>),
}

impl Json {
    pub open spec fn jv(self) -> JsonV
        decreases self,
    {
        match self {
            Json::Null => JsonV::Null,
            Json::Bool(b) => JsonV::Bool(b),
            Json::Num(n) => JsonV::Num(n@),
            Json::Str(s) => JsonV::Str(s@),
            Json::Arr(a) => JsonV::Arr(seq_jv(a@)),
            Json::Obj(o) => JsonV::Obj(pairs_jv(o@)),
        }
    }
}

pub open spec fn seq_jv(s: Seq<Json>) -> Seq<JsonV>
    decreases s,
{
    if s.len() == 0 {
        Seq::empty()
    } else {
        seq![s[0].jv()] + seq_jv(s.subrange(1, s.len() as int))
    }
}

pub open spec fn pairs_jv(s: Seq<(String, Json)>) -> Seq<(Seq<char>, JsonV)>
    decreases s,
{
    if s.len() == 0 {
        Seq::empty()
    } else {
        seq![(s[0].0@, s[0].1.jv())] + pairs_jv(s.subrange(1, s.len() as int))
    }
}

proof fn lemma_seq_jv(s: Seq<Json>)
    ensures
        seq_jv(s).len() == s.len(),
        forall|i: int| 0 <= i < s.len() ==> #[trigger] seq_jv(s)[i] == s[i].jv(),
    decreases s.len(),
{
    if s.len() > 0 {
        let t = s.subrange(1, s.len() as int);
        lemma_seq_jv(t);
        assert forall|i: int| 0 <= i < s.len() implies #[trigger] seq_jv(s)[i] == s[i].jv() by {
            if i > 0 {
                assert(seq_jv(s)[i] == seq_jv(t)[i - 1]);
                assert(t[i - 1] == s[i]);
            }
        }
    }
}

proof fn lemma_pairs_jv(s: Seq<(String, Json)>)
    ensures
        pairs_jv(s).len() == s.len(),
        forall|i: int| 0 <= i < s.len() ==> #[trigger] pairs_jv(s)[i] == (s[i].0@, s[i].1.jv()),
    decreases s.len(),
{
    if s.len() > 0 {
        let t = s.subrange(1, s.len() as int);
        lemma_pairs_jv(t);
        assert forall|i: int| 0 <= i < s.len() implies #[trigger] pairs_jv(s)[i] == (s[i].0@, s[i].1.jv()) by {
            if i > 0 {
                assert(pairs_jv(s)[i] == pairs_jv(t)[i - 1]);
                assert(t[i - 1] == s[i]);
            }
        }
    }
}

/// Why an edit by pointer fails.
pub enum Fault {
    /// The pointer is malformed, or empty where a member is needed.
    Pointer,
    /// `-` names the end of something that is not an array.
    NotArray,
    /// An array is indexed by something that is not an index.
    Index,
    /// The member's parent is neither an object nor an array.
    Parent,
    NotFound,
    Conflict,
    /// The pointer has too many segments.
    Bound,
}

/// The error an edit reports for a fault.
pub open spec fn fault_of(e: AtomError) -> Option<Fault> {
    match e {
        AtomError::Input(m) => if m@ == "pointer"@ {
            Some(Fault::Pointer)
        } else if m@ == "not array"@ {
            Some(Fault::NotArray)
        } else if m@ == "index"@ {
            Some(Fault::Index)
        } else if m@ == "parent"@ {
            Some(Fault::Parent)
        } else {
            None
        },
        AtomError::NotFound => Some(Fault::NotFound),
        AtomError::Conflict => Some(Fault::Conflict),
        AtomError::Bound => Some(Fault::Bound),
        _ => None,
    }
}

/// The first member with key `k`, from position `i`.
pub open spec fn key_from(es: Seq<(Seq<char>, JsonV)>, k: Seq<char>, i: int) -> Option<int>
    decreases es.len() - i,
{
    if i < 0 || i >= es.len() {
        None
    } else if es[i].0 == k {
        Some(i)
    } else {
        key_from(es, k, i + 1)
    }
}

proof fn lemma_key_from(es: Seq<(Seq<char>, JsonV)>, k: Seq<char>, i: int)
    requires
        0 <= i,
    ensures
        match key_from(es, k, i) {
            Some(j) => i <= j < es.len() && es[j].0 == k,
            None => forall|j: int| i <= j < es.len() ==> es[j].0 != k,
        },
    decreases es.len() - i,
{
    if i < es.len() && es[i].0 != k {
        lemma_key_from(es, k, i + 1);
    }
}

/// The child a segment names: an object's member by key, an array's
/// element by decimal index.
pub open spec fn child(d: JsonV, part: Seq<char>) -> Result<JsonV, Fault> {
    match d {
        JsonV::Obj(es) => match key_from(es, part, 0) {
            Some(i) => Ok(es[i].1),
            None => Err(Fault::NotFound),
        },
        JsonV::Arr(a) => match parse_usize(part) {
            None => Err(Fault::Index),
            Some(i) => if i < a.len() {
                Ok(a[i])
            } else {
                Err(Fault::NotFound)
            },
        },
        _ => Err(Fault::NotFound),
    }
}

/// The value at the end of the segments.
pub open spec fn walk(d: JsonV, parts: Seq<Seq<char>>) -> Result<JsonV, Fault>
    decreases parts.len(),
{
    if parts.len() == 0 {
        Ok(d)
    } else {
        match child(d, parts[0]) {
            Err(f) => Err(f),
            Ok(c) => walk(c, parts.drop_first()),
        }
    }
}

/// `d` with the child that `part` names replaced by `c`.
pub open spec fn with_child(d: JsonV, part: Seq<char>, c: JsonV) -> JsonV {
    match d {
        JsonV::Obj(es) => match key_from(es, part, 0) {
            Some(i) => JsonV::Obj(es.update(i, (es[i].0, c))),
            None => d,
        },
        JsonV::Arr(a) => match parse_usize(part) {
            Some(i) => JsonV::Arr(a.update(i, c)),
            None => d,
        },
        _ => d,
    }
}

/// What an edit does at the member's parent.
pub enum Edit {
    Add(JsonV),
    Put(JsonV),
    Del,
}

/// An edit at the parent `slot` of the member `last`: add puts a new
/// member (`-` appends to an array; an existing key is a conflict; an
/// index may be the array's length), put sets an existing element or any
/// key, del removes an existing member.
pub open spec fn leaf(slot: JsonV, last: Seq<char>, e: Edit) -> Result<JsonV, Fault> {
    match e {
        Edit::Add(v) => if last == "-"@ {
            match slot {
                JsonV::Arr(a) => Ok(JsonV::Arr(a.push(v))),
                _ => Err(Fault::NotArray),
            }
        } else {
            match slot {
                JsonV::Obj(es) => if key_from(es, last, 0) is Some {
                    Err(Fault::Conflict)
                } else {
                    Ok(JsonV::Obj(es.push((last, v))))
                },
                JsonV::Arr(a) => match parse_usize(last) {
                    None => Err(Fault::Index),
                    Some(i) => if i > a.len() {
                        Err(Fault::NotFound)
                    } else {
                        Ok(JsonV::Arr(a.insert(i, v)))
                    },
                },
                _ => Err(Fault::Parent),
            }
        },
        Edit::Put(v) => match slot {
            JsonV::Obj(es) => match key_from(es, last, 0) {
                Some(i) => Ok(JsonV::Obj(es.update(i, (last, v)))),
                None => Ok(JsonV::Obj(es.push((last, v)))),
            },
            JsonV::Arr(a) => match parse_usize(last) {
                None => Err(Fault::Index),
                Some(i) => if i >= a.len() {
                    Err(Fault::NotFound)
                } else {
                    Ok(JsonV::Arr(a.update(i, v)))
                },
            },
            _ => Err(Fault::Parent),
        },
        Edit::Del => match slot {
            JsonV::Obj(es) => match key_from(es, last, 0) {
                Some(i) => Ok(JsonV::Obj(es.remove(i))),
                None => Err(Fault::NotFound),
            },
            JsonV::Arr(a) => match parse_usize(last) {
                None => Err(Fault::Index),
                Some(i) => if i >= a.len() {
                    Err(Fault::NotFound)
                } else {
                    Ok(JsonV::Arr(a.remove(i)))
                },
            },
            _ => Err(Fault::Parent),
        },
    }
}

/// The document after the edit at the member the segments name: the
/// parents are walked, the edit is made at the last one, and each parent
/// takes back its edited child.
pub open spec fn edit_at(d: JsonV, parents: Seq<Seq<char>>, last: Seq<char>, e: Edit) -> Result<JsonV, Fault>
    decreases parents.len(),
{
    if parents.len() == 0 {
        leaf(d, last, e)
    } else {
        match child(d, parents[0]) {
            Err(f) => Err(f),
            Ok(c) => match edit_at(c, parents.drop_first(), last, e) {
                Err(f) => Err(f),
                Ok(c2) => Ok(with_child(d, parents[0], c2)),
            },
        }
    }
}

/// An edit by JSON pointer. An empty pointer is the whole document: put
/// replaces it; add and del refuse it.
pub open spec fn pointer_edit(d: JsonV, pointer: Seq<char>, e: Edit) -> Result<JsonV, Fault> {
    match pointer_spec(pointer) {
        PointerV::NotPointer => Err(Fault::Pointer),
        PointerV::TooDeep => Err(Fault::Bound),
        PointerV::Parts(ps) => if ps.len() == 0 {
            match e {
                Edit::Put(v) => Ok(v),
                _ => Err(Fault::Pointer),
            }
        } else {
            edit_at(d, ps.drop_last(), ps.last(), e)
        },
    }
}

/// An edit as the caller asks for it.
#[derive(Debug)]
pub enum EditOp {
    Add(Json),
    Put(Json),
    Del,
}

impl EditOp {
    pub open spec fn ev(self) -> Edit {
        match self {
            EditOp::Add(v) => Edit::Add(v.jv()),
            EditOp::Put(v) => Edit::Put(v.jv()),
            EditOp::Del => Edit::Del,
        }
    }
}

/// The outcome of an edit against what the model says.
pub open spec fn edit_result(r: Result<Json, AtomError>, s: Result<JsonV, Fault>) -> bool {
    match s {
        Ok(v) => r matches Ok(x) && x.jv() == v,
        Err(f) => r matches Err(e) && fault_of(e) == Some(f),
    }
}

pub open spec fn texts_of(v: Seq<String>) -> Seq<Seq<char>> {
    v.map_values(|s: String| s@)
}

/// The input faults by their texts.
proof fn lemma_input_texts()
    ensures
        "pointer"@ != "not array"@,
        "pointer"@ != "index"@,
        "pointer"@ != "parent"@,
        "not array"@ != "index"@,
        "not array"@ != "parent"@,
        "index"@ != "parent"@,
{
    reveal_strlit("pointer");
    reveal_strlit("not array");
    reveal_strlit("index");
    reveal_strlit("parent");
    assert("pointer"@[0] != "index"@[0]);
    assert("pointer"@.len() != "not array"@.len());
    assert("pointer"@.len() != "parent"@.len());
    assert("not array"@.len() != "index"@.len());
    assert("not array"@.len() != "parent"@.len());
    assert("index"@.len() != "parent"@.len());
}

fn input(m: &str) -> (r: AtomError)
    ensures
        r matches AtomError::Input(s) && s@ == m@,
{
    AtomError::Input(m.to_string())
}

fn find_key(es: &Vec<(String, Json)>, k: &String) -> (r: Option<usize>)
    ensures
        r matches Some(i) ==> key_from(pairs_jv(es@), k@, 0) == Some(i as int) && i < es.len(),
        r is None ==> key_from(pairs_jv(es@), k@, 0) is None,
{
    proof {
        lemma_pairs_jv(es@);
    }
    let ghost pv = pairs_jv(es@);
    let mut i: usize = 0;
    while i < es.len()
        invariant
            i <= es.len(),
            pv == pairs_jv(es@),
            pv.len() == es.len(),
            forall|j: int| 0 <= j < es.len() ==> #[trigger] pv[j] == (es@[j].0@, es@[j].1.jv()),
            key_from(pv, k@, 0) == key_from(pv, k@, i as int),
        decreases es.len() - i,
    {
        assert(pv[i as int].0 == es@[i as int].0@);
        if es[i].0 == *k {
            return Some(i);
        }
        i = i + 1;
    }
    None
}

fn parse_index(part: &String) -> (r: Option<usize>)
    ensures
        match parse_usize(part@) {
            Some(n) => r == Some(n as usize) && 0 <= n <= usize::MAX,
            None => r is None,
        },
{
    let c = str_chars(part.as_str());
    parse_usize_chars(c.as_slice())
}

proof fn lemma_arr_jv(a: Seq<Json>, b: Seq<Json>, w: Seq<JsonV>)
    requires
        b.len() == w.len(),
        forall|i: int| 0 <= i < b.len() ==> #[trigger] w[i] == b[i].jv(),
    ensures
        seq_jv(b) == w,
{
    lemma_seq_jv(b);
    assert(seq_jv(b) =~= w);
}

proof fn lemma_obj_jv(b: Seq<(String, Json)>, w: Seq<(Seq<char>, JsonV)>)
    requires
        b.len() == w.len(),
        forall|i: int| 0 <= i < b.len() ==> #[trigger] w[i] == (b[i].0@, b[i].1.jv()),
    ensures
        pairs_jv(b) == w,
{
    lemma_pairs_jv(b);
    assert(pairs_jv(b) =~= w);
}

fn leaf_exec(slot: Json, last: &String, op: EditOp) -> (r: Result<Json, AtomError>)
    ensures
        edit_result(r, leaf(slot.jv(), last@, op.ev())),
{
    let lc = str_chars(last.as_str());
    let dash = lc.len() == 1 && lc[0] == '-';
    proof {
        lemma_input_texts();
        reveal_strlit("-");
        if last@ == "-"@ {
            assert(lc@.len() == 1 && lc@[0] == '-');
        }
        if dash {
            assert(last@ =~= "-"@);
        }
    }
    match op {
        EditOp::Add(v) => {
            if dash {
                match slot {
                    Json::Arr(mut a) => {
                        let ghost old_a = a@;
                        proof { lemma_seq_jv(old_a); }
                        let ghost vv = v.jv();
                        a.push(v);
                        proof { lemma_arr_jv(old_a, a@, seq_jv(old_a).push(vv)); }
                        Ok(Json::Arr(a))
                    },
                    _ => Err(input("not array")),
                }
            } else {
                match slot {
                    Json::Obj(mut es) => {
                        if find_key(&es, last).is_some() {
                            return Err(AtomError::Conflict);
                        }
                        let ghost old_es = es@;
                        proof { lemma_pairs_jv(old_es); }
                        let ghost vv = v.jv();
                        es.push((last.clone(), v));
                        proof { lemma_obj_jv(es@, pairs_jv(old_es).push((last@, vv))); }
                        Ok(Json::Obj(es))
                    },
                    Json::Arr(mut a) => match parse_index(last) {
                        None => Err(input("index")),
                        Some(i) => {
                            proof { lemma_seq_jv(a@); }
                            if i > a.len() {
                                return Err(AtomError::NotFound);
                            }
                            let ghost old_a = a@;
                            proof { lemma_seq_jv(old_a); }
                            let ghost vv = v.jv();
                            a.insert(i, v);
                            proof { lemma_arr_jv(old_a, a@, seq_jv(old_a).insert(i as int, vv)); }
                            Ok(Json::Arr(a))
                        },
                    },
                    _ => Err(input("parent")),
                }
            }
        },
        EditOp::Put(v) => match slot {
            Json::Obj(mut es) => {
                let ghost old_es = es@;
                proof {
                    lemma_pairs_jv(old_es);
                    lemma_key_from(pairs_jv(old_es), last@, 0);
                }
                let ghost vv = v.jv();
                match find_key(&es, last) {
                    Some(i) => {
                        es.set(i, (last.clone(), v));
                        proof { lemma_obj_jv(es@, pairs_jv(old_es).update(i as int, (last@, vv))); }
                        Ok(Json::Obj(es))
                    },
                    None => {
                        es.push((last.clone(), v));
                        proof { lemma_obj_jv(es@, pairs_jv(old_es).push((last@, vv))); }
                        Ok(Json::Obj(es))
                    },
                }
            },
            Json::Arr(mut a) => match parse_index(last) {
                None => Err(input("index")),
                Some(i) => {
                    proof { lemma_seq_jv(a@); }
                    if i >= a.len() {
                        return Err(AtomError::NotFound);
                    }
                    let ghost old_a = a@;
                    proof { lemma_seq_jv(old_a); }
                    let ghost vv = v.jv();
                    a.set(i, v);
                    proof { lemma_arr_jv(old_a, a@, seq_jv(old_a).update(i as int, vv)); }
                    Ok(Json::Arr(a))
                },
            },
            _ => Err(input("parent")),
        },
        EditOp::Del => match slot {
            Json::Obj(mut es) => {
                let ghost old_es = es@;
                proof {
                    lemma_pairs_jv(old_es);
                    lemma_key_from(pairs_jv(old_es), last@, 0);
                }
                match find_key(&es, last) {
                    Some(i) => {
                        let _gone = es.remove(i);
                        proof { lemma_obj_jv(es@, pairs_jv(old_es).remove(i as int)); }
                        Ok(Json::Obj(es))
                    },
                    None => Err(AtomError::NotFound),
                }
            },
            Json::Arr(mut a) => match parse_index(last) {
                None => Err(input("index")),
                Some(i) => {
                    proof { lemma_seq_jv(a@); }
                    if i >= a.len() {
                        return Err(AtomError::NotFound);
                    }
                    let ghost old_a = a@;
                    proof { lemma_seq_jv(old_a); }
                    let _gone = a.remove(i);
                    proof { lemma_arr_jv(old_a, a@, seq_jv(old_a).remove(i as int)); }
                    Ok(Json::Arr(a))
                },
            },
            _ => Err(input("parent")),
        },
    }
}

/// The edit at the member `ps[n]` below the parents `ps[k..n]` of `d`.
fn edit_exec(d: Json, ps: &Vec<String>, k: usize, n: usize, op: EditOp) -> (r: Result<Json, AtomError>)
    requires
        k <= n < ps.len(),
    ensures
        edit_result(r, edit_at(d.jv(), texts_of(ps@).subrange(k as int, n as int), ps@[n as int]@, op.ev())),
    decreases n - k,
{
    let ghost parents = texts_of(ps@).subrange(k as int, n as int);
    let ghost e = op.ev();
    let ghost dv = d.jv();
    proof {
        lemma_input_texts();
    }
    if k == n {
        assert(parents.len() == 0);
        return leaf_exec(d, &ps[n], op);
    }
    let ghost rest = texts_of(ps@).subrange(k + 1, n as int);
    assert(parents.drop_first() =~= rest);
    assert(parents[0] == ps@[k as int]@);
    let part = &ps[k];
    match d {
        Json::Obj(mut es) => {
            let ghost old_es = es@;
            proof {
                lemma_pairs_jv(old_es);
            }
            match find_key(&es, part) {
                None => Err(AtomError::NotFound),
                Some(i) => {
                    let (key, c) = es.remove(i);
                    assert(old_es[i as int] == (key, c));
                    assert(child(dv, parents[0]) == Ok::<JsonV, Fault>(c.jv()));
                    match edit_exec(c, ps, k + 1, n, op) {
                        Err(err) => Err(err),
                        Ok(c2) => {
                            let ghost c2v = c2.jv();
                            es.insert(i, (key, c2));
                            proof {
                                lemma_obj_jv(es@, pairs_jv(old_es).update(i as int, (key@, c2v)));
                            }
                            assert(with_child(dv, parents[0], c2v) == Json::Obj(es).jv());
                            Ok(Json::Obj(es))
                        },
                    }
                },
            }
        },
        Json::Arr(mut a) => match parse_index(part) {
            None => Err(input("index")),
            Some(i) => {
                let ghost old_a = a@;
                proof {
                    lemma_seq_jv(old_a);
                }
                if i >= a.len() {
                    return Err(AtomError::NotFound);
                }
                let c = a.remove(i);
                assert(child(dv, parents[0]) == Ok::<JsonV, Fault>(c.jv()));
                match edit_exec(c, ps, k + 1, n, op) {
                    Err(err) => Err(err),
                    Ok(c2) => {
                        let ghost c2v = c2.jv();
                        a.insert(i, c2);
                        proof {
                            lemma_arr_jv(old_a, a@, seq_jv(old_a).update(i as int, c2v));
                        }
                        assert(with_child(dv, parents[0], c2v) == Json::Arr(a).jv());
                        Ok(Json::Arr(a))
                    },
                }
            },
        },
        _ => Err(AtomError::NotFound),
    }
}

/// Edits a document at a JSON pointer.
pub fn pointer_edit_exec(doc: Json, pointer: &str, op: EditOp) -> (r: Result<Json, AtomError>)
    ensures
        edit_result(r, pointer_edit(doc.jv(), pointer@, op.ev())),
{
    proof {
        lemma_input_texts();
    }
    let parts = match split_pointer(pointer) {
        Err(err) => return Err(err),
        Ok(p) => p,
    };
    let n = parts.len();
    if n == 0 {
        return match op {
            EditOp::Put(v) => Ok(v),
            _ => Err(input("pointer")),
        };
    }
    let ghost ps = texts_of(parts@);
    assert(ps.drop_last() =~= ps.subrange(0, n - 1));
    assert(ps.last() == parts@[n - 1]@);
    edit_exec(doc, &parts, 0, n - 1, op)
}

/// Adds a member: `-` appends to an array.
pub fn pointer_add(doc: Json, pointer: &str, val: Json) -> (r: Result<Json, AtomError>)
    ensures
        edit_result(r, pointer_edit(doc.jv(), pointer@, Edit::Add(val.jv()))),
{
    pointer_edit_exec(doc, pointer, EditOp::Add(val))
}

/// Sets a member (or the whole document for the empty pointer).
pub fn pointer_put(doc: Json, pointer: &str, val: Json) -> (r: Result<Json, AtomError>)
    ensures
        edit_result(r, pointer_edit(doc.jv(), pointer@, Edit::Put(val.jv()))),
{
    pointer_edit_exec(doc, pointer, EditOp::Put(val))
}

/// Removes a member.
pub fn pointer_del(doc: Json, pointer: &str) -> (r: Result<Json, AtomError>)
    ensures
        edit_result(r, pointer_edit(doc.jv(), pointer@, Edit::Del)),
{
    pointer_edit_exec(doc, pointer, EditOp::Del)
}

proof fn lemma_index_nonneg(p: Seq<char>)
    ensures
        parse_usize(p) matches Some(n) ==> 0 <= n,
{
    if parse_usize(p) is Some {
        lemma_dec_nonneg(unsigned_digits(p));
    }
}

/// The value of a successful edit or step.
pub open spec fn ok_val(r: Result<JsonV, Fault>) -> JsonV {
    match r {
        Ok(v) => v,
        Err(_) => JsonV::Null,
    }
}

proof fn lemma_key_from_same_keys(a: Seq<(Seq<char>, JsonV)>, b: Seq<(Seq<char>, JsonV)>, k: Seq<char>, j: int)
    requires
        a.len() == b.len(),
        forall|x: int| 0 <= x < a.len() ==> (#[trigger] a[x]).0 == b[x].0,
    ensures
        key_from(a, k, j) == key_from(b, k, j),
    decreases a.len() - j,
{
    if 0 <= j < a.len() {
        assert(a[j].0 == b[j].0);
        lemma_key_from_same_keys(a, b, k, j + 1);
    }
}

proof fn lemma_key_from_push(es: Seq<(Seq<char>, JsonV)>, k: Seq<char>, v: JsonV, j: int)
    requires
        0 <= j <= es.len(),
        forall|x: int| 0 <= x < es.len() ==> (#[trigger] es[x]).0 != k,
    ensures
        key_from(es.push((k, v)), k, j) == Some(es.len() as int),
    decreases es.len() - j,
{
    let t = es.push((k, v));
    if j < es.len() {
        assert(t[j] == es[j]);
        lemma_key_from_push(es, k, v, j + 1);
    } else {
        assert(t[j] == (k, v));
    }
}

proof fn lemma_child_of_with_child(d: JsonV, p: Seq<char>, c: JsonV, c2: JsonV)
    requires
        child(d, p) == Ok::<JsonV, Fault>(c),
    ensures
        child(with_child(d, p, c2), p) == Ok::<JsonV, Fault>(c2),
        with_child(with_child(d, p, c2), p, c) == d,
{
    match d {
        JsonV::Obj(es) => {
            lemma_key_from(es, p, 0);
            let i = key_from(es, p, 0)->0;
            assert(key_from(es, p, 0) == Some(i));
            assert(0 <= i < es.len() && es[i].1 == c);
            let es2 = es.update(i, (es[i].0, c2));
            lemma_key_from_same_keys(es, es2, p, 0);
            assert(key_from(es2, p, 0) == Some(i));
            assert(with_child(d, p, c2) == JsonV::Obj(es2));
            assert(es2[i].1 == c2);
            assert(es2.update(i, (es2[i].0, c)) =~= es);
        },
        JsonV::Arr(a) => {
            lemma_index_nonneg(p);
            let i = parse_usize(p)->0;
            assert(parse_usize(p) == Some(i));
            assert(0 <= i < a.len() && a[i] == c);
            assert(with_child(d, p, c2) == JsonV::Arr(a.update(i, c2)));
            assert(a.update(i, c2).update(i, c) =~= a);
        },
        _ => {},
    }
}

proof fn lemma_put_reads_back(d: JsonV, parents: Seq<Seq<char>>, last: Seq<char>, v: JsonV)
    requires
        edit_at(d, parents, last, Edit::Put(v)) is Ok,
    ensures
        walk(ok_val(edit_at(d, parents, last, Edit::Put(v))), parents.push(last)) == Ok::<JsonV, Fault>(v),
    decreases parents.len(),
{
    let d2 = ok_val(edit_at(d, parents, last, Edit::Put(v)));
    let path = parents.push(last);
    if parents.len() == 0 {
        assert(path.drop_first() =~= Seq::<Seq<char>>::empty());
        assert(path[0] == last);
        assert(walk(d2, path) == match child(d2, last) {
            Err(f) => Err(f),
            Ok(x) => walk(x, Seq::<Seq<char>>::empty()),
        });
        match d {
            JsonV::Obj(es) => {
                lemma_key_from(es, last, 0);
                match key_from(es, last, 0) {
                    Some(i) => {
                        let es2 = es.update(i, (last, v));
                        lemma_key_from_same_keys(es, es2, last, 0);
                        assert(d2 == JsonV::Obj(es2));
                        assert(child(d2, last) == Ok::<JsonV, Fault>(v));
                    },
                    None => {
                        lemma_key_from_push(es, last, v, 0);
                        assert(d2 == JsonV::Obj(es.push((last, v))));
                        assert(child(d2, last) == Ok::<JsonV, Fault>(v));
                    },
                }
            },
            JsonV::Arr(a) => {
                lemma_index_nonneg(last);
                let i = parse_usize(last)->0;
                assert(d2 == JsonV::Arr(a.update(i, v)));
                assert(child(d2, last) == Ok::<JsonV, Fault>(v));
            },
            _ => {},
        }
    } else {
        let c = ok_val(child(d, parents[0]));
        let c2 = ok_val(edit_at(c, parents.drop_first(), last, Edit::Put(v)));
        lemma_put_reads_back(c, parents.drop_first(), last, v);
        lemma_child_of_with_child(d, parents[0], c, c2);
        assert(path[0] == parents[0]);
        assert(path.drop_first() =~= parents.drop_first().push(last));
    }
}

proof fn lemma_add_then_del(d: JsonV, parents: Seq<Seq<char>>, last: Seq<char>, v: JsonV)
    requires
        edit_at(d, parents, last, Edit::Add(v)) is Ok,
        last != "-"@,
    ensures
        edit_at(ok_val(edit_at(d, parents, last, Edit::Add(v))), parents, last, Edit::Del) == Ok::<JsonV, Fault>(d),
    decreases parents.len(),
{
    if parents.len() == 0 {
        match d {
            JsonV::Obj(es) => {
                lemma_key_from(es, last, 0);
                lemma_key_from_push(es, last, v, 0);
                assert(es.push((last, v)).remove(es.len() as int) =~= es);
            },
            JsonV::Arr(a) => {
                lemma_index_nonneg(last);
                let i = parse_usize(last)->0;
                assert(parse_usize(last) == Some(i));
                assert(0 <= i <= a.len());
                assert(a.insert(i, v).remove(i) =~= a);
            },
            _ => {},
        }
    } else {
        let c = ok_val(child(d, parents[0]));
        let c2 = ok_val(edit_at(c, parents.drop_first(), last, Edit::Add(v)));
        lemma_add_then_del(c, parents.drop_first(), last, v);
        lemma_child_of_with_child(d, parents[0], c, c2);
    }
}

/// Law: what a put sets reads back. After a successful put at a
/// non-empty pointer, walking the edited document along the pointer
/// gives the value put.
pub proof fn law_put_then_read(d: JsonV, pointer: Seq<char>, v: JsonV)
    requires
        pointer.len() > 0,
        pointer_edit(d, pointer, Edit::Put(v)) is Ok,
    ensures
        pointer_spec(pointer) matches PointerV::Parts(ps) && walk(ok_val(pointer_edit(d, pointer, Edit::Put(v))), ps)
            == Ok::<JsonV, Fault>(v),
{
    if let PointerV::Parts(ps) = pointer_spec(pointer) {
        if ps.len() > 0 {
            lemma_put_reads_back(d, ps.drop_last(), ps.last(), v);
            assert(ps.drop_last().push(ps.last()) =~= ps);
        }
    }
}

/// Law: a delete at the same pointer undoes an add (of a key, or of an
/// array element by index), giving back the document as it was.
pub proof fn law_add_then_del_restores(d: JsonV, pointer: Seq<char>, v: JsonV)
    requires
        pointer_edit(d, pointer, Edit::Add(v)) is Ok,
        pointer_spec(pointer) matches PointerV::Parts(ps) && ps.len() > 0 && ps.last() != "-"@,
    ensures
        pointer_edit(ok_val(pointer_edit(d, pointer, Edit::Add(v))), pointer, Edit::Del) == Ok::<JsonV, Fault>(d),
{
    if let PointerV::Parts(ps) = pointer_spec(pointer) {
        lemma_add_then_del(d, ps.drop_last(), ps.last(), v);
    }
}

/// The edit a CRUD request names: `add`, `put` or `del`, the value
/// defaulting to null; no edit for any other name.
pub open spec fn crud_op(op: Seq<char>, v: JsonV) -> Option<Edit> {
    if op == "add"@ {
        Some(Edit::Add(v))
    } else if op == "put"@ {
        Some(Edit::Put(v))
    } else if op == "del"@ {
        Some(Edit::Del)
    } else {
        None
    }
}

pub open spec fn value_or_null(v: Option<Json>) -> JsonV {
    match v {
        Some(j) => j.jv(),
        None => JsonV::Null,
    }
}

fn op_is(op: &[char], lit: &str) -> (r: bool)
    ensures
        r == (op@ == lit@),
{
    let l = str_chars(lit);
    if op.len() != l.len() {
        return false;
    }
    let mut i: usize = 0;
    while i < op.len()
        invariant
            op.len() == l.len(),
            l@ == lit@,
            i <= op.len(),
            forall|k: int| 0 <= k < i ==> op@[k] == l@[k],
        decreases op.len() - i,
    {
        if op[i] != l[i] {
            assert(op@[i as int] != l@[i as int]);
            return false;
        }
        i = i + 1;
    }
    assert(op@ =~= l@);
    true
}

/// A CRUD request on a document: the edit its operation names at its
/// pointer. An unknown operation is refused as bad input (`op`).
pub fn crud_edit(doc: Json, op: &str, pointer: &str, value: Option<Json>) -> (r: Result<Json, AtomError>)
    ensures
        match crud_op(op@, value_or_null(value)) {
            None => r matches Err(AtomError::Input(m)) && m@ == "op"@,
            Some(e) => edit_result(r, pointer_edit(doc.jv(), pointer@, e)),
        },
{
    let oc = str_chars(op);
    let v = match value {
        Some(j) => j,
        None => Json::Null,
    };
    if op_is(oc.as_slice(), "add") {
        pointer_add(doc, pointer, v)
    } else if op_is(oc.as_slice(), "put") {
        pointer_put(doc, pointer, v)
    } else if op_is(oc.as_slice(), "del") {
        pointer_del(doc, pointer)
    } else {
        Err(input("op"))
    }
}

} // verus!
