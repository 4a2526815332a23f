//! The static module's table of open files: at most `FD_CACHE_MAX` by
//! path, the least recently used one dropped first.
use vstd::prelude::*;

verus! {

/// Most open files the static module keeps at once.
pub const FD_CACHE_MAX: usize = 64;

/// One cached open file: its path, the handle, its length and its
/// recency stamp.
pub struct FdSlot<V> {
    pub path: String,
    pub value: V,
    pub len: u64,
    pub last: u64,
}

/// No path is cached twice.
pub open spec fn paths_distinct<V>(s: Seq<FdSlot<V>>) -> bool {
    forall|i: int, j: int| 0 <= i < j < s.len() ==> s[i].path@ != s[j].path@
}

/// Every stamp was handed out by the counter, and no two are alike.
pub open spec fn stamps_fresh<V>(s: Seq<FdSlot<V>>, seq: u64) -> bool {
    &&& forall|i: int| 0 <= i < s.len() ==> s[i].last <= seq
    &&& forall|i: int, j: int| 0 <= i < j < s.len() ==> s[i].last != s[j].last
}

/// Where `p` is cached, if it is.
pub open spec fn slot_index<V>(s: Seq<FdSlot<V>>, p: Seq<char>) -> Option<int> {
    if exists|i: int| 0 <= i < s.len() && s[i].path@ == p {
        Some(choose|i: int| 0 <= i < s.len() && s[i].path@ == p)
    } else {
        None
    }
}

/// The first entry with the least stamp.
pub open spec fn stalest<V>(s: Seq<FdSlot<V>>) -> int
    decreases s.len(),
{
    if s.len() <= 1 {
        0
    } else {
        let k = stalest(s.drop_last());
        if s.last().last < s[k].last {
            s.len() - 1
        } else {
            k
        }
    }
}

/// An entry with a new stamp.
pub open spec fn touched<V>(s: FdSlot<V>, stamp: u64) -> FdSlot<V> {
    FdSlot { path: s.path, value: s.value, len: s.len, last: stamp }
}

/// The table after caching `slot`: it replaces an entry for the same
/// path or joins the end; past the cap the stalest entry leaves.
pub open spec fn with_file<V>(s: Seq<FdSlot<V>>, slot: FdSlot<V>) -> Seq<FdSlot<V>> {
    let mid = match slot_index(s, slot.path@) {
        Some(i) => s.update(i, slot),
        None => s.push(slot),
    };
    if mid.len() > FD_CACHE_MAX {
        mid.remove(stalest(mid))
    } else {
        mid
    }
}

proof fn lemma_stalest<V>(s: Seq<FdSlot<V>>)
    requires
        s.len() >= 1,
    ensures
        0 <= stalest(s) < s.len(),
        forall|j: int| 0 <= j < s.len() ==> s[stalest(s)].last <= #[trigger] s[j].last,
    decreases s.len(),
{
    if s.len() > 1 {
        let t = s.drop_last();
        lemma_stalest(t);
        assert forall|j: int| 0 <= j < s.len() implies s[stalest(s)].last <= #[trigger] s[j].last by {
            if j < s.len() - 1 {
                assert(s[j] == t[j]);
            }
        }
    }
}

proof fn lemma_slot_index<V>(s: Seq<FdSlot<V>>, p: Seq<char>, i: int)
    requires
        paths_distinct(s),
        0 <= i < s.len(),
        s[i].path@ == p,
    ensures
        slot_index(s, p) == Some(i),
{
    let k = choose|k: int| 0 <= k < s.len() && s[k].path@ == p;
    assert(0 <= k < s.len() && s[k].path@ == p);
    if k < i {
        assert(s[k].path@ != s[i].path@);
    } else if i < k {
        assert(s[i].path@ != s[k].path@);
    }
}

/// Caching a file always leaves it in the table: past the cap, the entry
/// that leaves is an older one, never the file just cached.
pub proof fn law_cached_file_is_found<V>(s: Seq<FdSlot<V>>, seq: u64, slot: FdSlot<V>)
    requires
        s.len() <= FD_CACHE_MAX,
        paths_distinct(s),
        stamps_fresh(s, seq),
        slot.last > seq,
    ensures
        slot_index(with_file(s, slot), slot.path@) matches Some(i) && with_file(s, slot)[i] == slot,
        with_file(s, slot).len() <= FD_CACHE_MAX,
        paths_distinct(with_file(s, slot)),
        stamps_fresh(with_file(s, slot), slot.last),
{
    let p = slot.path@;
    let mid = match slot_index(s, p) {
        Some(i) => s.update(i, slot),
        None => s.push(slot),
    };
    let at: int = match slot_index(s, p) {
        Some(i) => i,
        None => s.len() as int,
    };
    assert(0 <= at < mid.len() && mid[at] == slot);
    assert(paths_distinct(mid)) by {
        assert forall|i: int, j: int| 0 <= i < j < mid.len() implies mid[i].path@ != mid[j].path@ by {
            if slot_index(s, p) is None {
                if j == s.len() {
                    assert(!(0 <= i < s.len() && s[i].path@ == p));
                }
            } else {
                let k = slot_index(s, p)->0;
                assert(0 <= k < s.len() && s[k].path@ == p);
                if i == k {
                    assert(s[k].path@ != s[j].path@);
                } else if j == k {
                    assert(s[i].path@ != s[k].path@);
                }
            }
        }
    }
    assert(stamps_fresh(mid, slot.last)) by {
        assert forall|i: int, j: int| 0 <= i < j < mid.len() implies mid[i].last != mid[j].last by {
            if i != at && j != at {
                assert(mid[i] == s[i] && mid[j] == s[j]);
            } else if i == at {
                assert(mid[j] == s[j]);
            } else {
                assert(mid[i] == s[i]);
            }
        }
        assert forall|i: int| 0 <= i < mid.len() implies mid[i].last <= slot.last by {
            if i != at {
                assert(mid[i] == s[i]);
            }
        }
    }
    if mid.len() > FD_CACHE_MAX {
        lemma_stalest(mid);
        let m = stalest(mid);
        let other: int = if at == 0 { 1 } else { 0 };
        assert(mid[other] == s[other]);
        assert(mid[m].last <= mid[other].last);
        assert(m != at);
        let out = mid.remove(m);
        let at2: int = if m < at { at - 1 } else { at };
        assert(out[at2] == slot);
        assert(paths_distinct(out)) by {
            assert forall|i: int, j: int| 0 <= i < j < out.len() implies out[i].path@ != out[j].path@ by {
                let i0 = if i < m { i } else { i + 1 };
                let j0 = if j < m { j } else { j + 1 };
                assert(out[i] == mid[i0] && out[j] == mid[j0]);
            }
        }
        assert(stamps_fresh(out, slot.last)) by {
            assert forall|i: int, j: int| 0 <= i < j < out.len() implies out[i].last != out[j].last by {
                let i0 = if i < m { i } else { i + 1 };
                let j0 = if j < m { j } else { j + 1 };
                assert(out[i] == mid[i0] && out[j] == mid[j0]);
            }
            assert forall|i: int| 0 <= i < out.len() implies out[i].last <= slot.last by {
                let i0 = if i < m { i } else { i + 1 };
                assert(out[i] == mid[i0]);
            }
        }
        lemma_slot_index(out, p, at2);
    } else {
        lemma_slot_index(mid, p, at);
    }
}

/// A bounded least-recently-used table of open files, by path.
pub struct FdLru<V> {
    slots: Vec<FdSlot<V>>,
    seq: u64,
}

impl<V> FdLru<V> {
    pub closed spec fn slots(&self) -> Seq<FdSlot<V>> {
        self.slots@
    }

    /// The recency counter: the stamp last handed out.
    pub closed spec fn stamp(&self) -> u64 {
        self.seq
    }

    pub open spec fn wf(&self) -> bool {
        &&& self.slots().len() <= FD_CACHE_MAX
        &&& paths_distinct(self.slots())
        &&& stamps_fresh(self.slots(), self.stamp())
    }

    /// An empty table.
    pub fn new() -> (r: Self)
        ensures
            r.wf(),
            r.slots().len() == 0,
            r.stamp() == 0,
    {
        FdLru { slots: Vec::new(), seq: 0 }
    }

    /// Whether another stamp can be handed out.
    pub fn can_stamp(&self) -> (r: bool)
        ensures
            r == (self.stamp() < u64::MAX),
    {
        self.seq < u64::MAX
    }

    /// The number of cached files.
    pub fn count(&self) -> (r: usize)
        ensures
            r == self.slots().len(),
    {
        self.slots.len()
    }

    fn find(&self, key: &String) -> (r: Option<usize>)
        requires
            paths_distinct(self.slots()),
        ensures
            match slot_index(self.slots(), key@) {
                Some(i) => r == Some(i as usize),
                None => r is None,
            },
    {
        let mut i: usize = 0;
        while i < self.slots.len()
            invariant
                i <= self.slots@.len(),
                paths_distinct(self.slots@),
                forall|k: int| 0 <= k < i ==> self.slots@[k].path@ != key@,
            decreases self.slots@.len() - i,
        {
            if self.slots[i].path == *key {
                proof {
                    lemma_slot_index(self.slots@, key@, i as int);
                }
                return Some(i);
            }
            i = i + 1;
        }
        assert(!(exists|k: int| 0 <= k < self.slots@.len() && self.slots@[k].path@ == key@));
        None
    }

    fn stalest_index(&self) -> (k: usize)
        requires
            self.slots@.len() >= 1,
        ensures
            k == stalest(self.slots@),
    {
        let mut k: usize = 0;
        let mut i: usize = 1;
        proof {
            assert(self.slots@.take(1).drop_last().len() == 0);
        }
        while i < self.slots.len()
            invariant
                1 <= i <= self.slots@.len(),
                k == stalest(self.slots@.take(i as int)),
            decreases self.slots@.len() - i,
        {
            let ghost t = self.slots@.take(i as int);
            let ghost t1 = self.slots@.take(i + 1);
            proof {
                lemma_stalest(t);
                assert(t1.drop_last() =~= t);
                assert(t[k as int] == self.slots@[k as int]);
                assert(t1.last() == self.slots@[i as int]);
            }
            if self.slots[i].last < self.slots[k].last {
                k = i;
            }
            i = i + 1;
        }
        assert(self.slots@.take(self.slots@.len() as int) =~= self.slots@);
        k
    }

    /// Looks a path up and, found, marks it as just used. Every lookup
    /// takes a stamp, found or not.
    pub fn lookup(&mut self, path: &str) -> (r: Option<usize>)
        requires
            old(self).wf(),
            old(self).stamp() < u64::MAX,
        ensures
            final(self).wf(),
            final(self).stamp() == old(self).stamp() + 1,
            match slot_index(old(self).slots(), path@) {
                Some(i) => r == Some(i as usize) && final(self).slots() == old(self).slots().update(
                    i,
                    touched(old(self).slots()[i], final(self).stamp()),
                ),
                None => r is None && final(self).slots() == old(self).slots(),
            },
    {
        let stamp = self.seq + 1;
        self.seq = stamp;
        let key = path.to_owned();
        match self.find(&key) {
            Some(i) => {
                let ghost before = self.slots@;
                let mut s = self.slots.remove(i);
                s.last = stamp;
                self.slots.insert(i, s);
                proof {
                    assert(self.slots@ =~= before.update(i as int, touched(before[i as int], stamp)));
                    assert forall|a: int, b: int| 0 <= a < b < self.slots@.len() implies self.slots@[a].last
                        != self.slots@[b].last by {
                        if a != i && b != i {
                            assert(self.slots@[a] == before[a] && self.slots@[b] == before[b]);
                        } else if a == i {
                            assert(self.slots@[b] == before[b]);
                        } else {
                            assert(self.slots@[a] == before[a]);
                        }
                    }
                    assert forall|a: int, b: int| 0 <= a < b < self.slots@.len() implies self.slots@[a].path@
                        != self.slots@[b].path@ by {
                        assert(self.slots@[a].path == before[a].path && self.slots@[b].path == before[b].path);
                    }
                    assert forall|a: int| 0 <= a < self.slots@.len() implies self.slots@[a].last <= stamp by {
                        if a != i {
                            assert(self.slots@[a] == before[a]);
                        }
                    }
                }
                Some(i)
            },
            None => None,
        }
    }

    /// The handle in an entry.
    pub fn value(&self, i: usize) -> (r: &V)
        requires
            i < self.slots().len(),
        ensures
            *r == self.slots()[i as int].value,
    {
        &self.slots[i].value
    }

    /// The file length in an entry.
    pub fn len_at(&self, i: usize) -> (r: u64)
        requires
            i < self.slots().len(),
        ensures
            r == self.slots()[i as int].len,
    {
        self.slots[i].len
    }

    /// Caches an open file under a fresh stamp and returns where it
    /// stands; past the cap the stalest entry is dropped first.
    pub fn insert(&mut self, path: String, value: V, len: u64) -> (r: usize)
        requires
            old(self).wf(),
            old(self).stamp() < u64::MAX,
        ensures
            final(self).wf(),
            final(self).stamp() == old(self).stamp() + 1,
            final(self).slots() == with_file(
                old(self).slots(),
                (FdSlot { path, value, len, last: final(self).stamp() }),
            ),
            r < final(self).slots().len(),
            final(self).slots()[r as int] == (FdSlot { path, value, len, last: final(self).stamp() }),
    {
        let stamp = self.seq + 1;
        self.seq = stamp;
        let ghost s0 = self.slots@;
        let ghost slot_g = FdSlot { path, value, len, last: stamp };
        let at = self.find(&path);
        let slot = FdSlot { path, value, len, last: stamp };
        let idx: usize = match at {
            Some(i) => {
                self.slots.set(i, slot);
                i
            },
            None => {
                self.slots.push(slot);
                self.slots.len() - 1
            },
        };
        proof {
            law_cached_file_is_found(s0, (stamp - 1) as u64, slot_g);
        }
        let ghost mid = self.slots@;
        assert(mid[idx as int] == slot_g);
        if self.slots.len() > FD_CACHE_MAX {
            let m = self.stalest_index();
            proof {
                lemma_stalest(mid);
                let other: int = if idx == 0 { 1 } else { 0 };
                if other < s0.len() {
                    assert(mid[other] == s0[other]);
                }
                assert(mid[m as int].last <= mid[other].last);
            }
            self.slots.remove(m);
            let r: usize = if m < idx { idx - 1 } else { idx };
            assert(self.slots@[r as int] == mid[idx as int]);
            r
        } else {
            idx
        }
    }
}

} // verus!
