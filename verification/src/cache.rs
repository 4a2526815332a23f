//! The response cache: per-worker maps from method, path and query to a
//! response and its encoded bytes, bounded in entries and bytes, with the
//! oldest insertion dropped first. Generation counters shared by all
//! workers invalidate entries: one for unnamed (global) entries, one per
//! ruleset name for named ones. Time is a nanosecond clock supplied by
//! the caller.
use vstd::prelude::*;
use crate::io::{CacheDirective, Out, OutBody};
use crate::method::Method;
use crate::net::encode::{encode_response, response_bytes};

verus! {

/// The key a response is cached under.
#[derive(Debug)]
pub struct CacheKey {
    pub method: Method,
    pub path: String,
    pub query: String,
}

pub open spec fn key_view(k: CacheKey) -> (Method, Seq<char>, Seq<char>) {
    (k.method, k.path@, k.query@)
}

/// A cached response: when it was stored, for how long it lives, the
/// generation it was stored under, its ruleset name, its encoded size,
/// the response and its encoded bytes.
#[derive(Debug)]
pub struct Cached {
    pub key: CacheKey,
    pub at_ns: u64,
    pub ttl_ns: u64,
    pub epoch: u64,
    pub name: Option<String>,
    pub bytes: usize,
    pub out: Out,
    pub wire: Vec<u8>,
}

pub open spec fn opt_view(n: Option<String>) -> Option<Seq<char>> {
    match n {
        Some(s) => Some(s@),
        None => None,
    }
}

/// The generation counters: one global, and one per ruleset name (zero
/// until first bumped).
pub struct Generations {
    global: u64,
    named: Vec<(String, u64)>,
}

/// A name's counter: its last entry, or zero.
pub open spec fn named_gen(s: Seq<(String, u64)>, n: Seq<char>) -> u64
    decreases s.len(),
{
    if s.len() == 0 {
        0
    } else if s.last().0@ == n {
        s.last().1
    } else {
        named_gen(s.drop_last(), n)
    }
}

impl Generations {
    pub closed spec fn global(&self) -> u64 {
        self.global
    }

    pub closed spec fn named(&self, n: Seq<char>) -> u64 {
        named_gen(self.named@, n)
    }

    /// The counter an entry with this name is checked against.
    pub open spec fn of(&self, name: Option<Seq<char>>) -> u64 {
        match name {
            Some(n) => self.named(n),
            None => self.global(),
        }
    }

    pub fn new() -> (r: Self)
        ensures
            r.global() == 0,
            forall|n: Seq<char>| r.named(n) == 0,
    {
        Generations { global: 0, named: Vec::new() }
    }

    fn named_at(&self, n: &str) -> (r: Option<usize>)
        ensures
            match r {
                Some(i) => i < self.named@.len() && self.named@[i as int].0@ == n@ && named_gen(self.named@, n@)
                    == self.named@[i as int].1 && (forall|j: int|
                    i < j < self.named@.len() ==> self.named@[j].0@ != n@),
                None => named_gen(self.named@, n@) == 0 && forall|j: int|
                    0 <= j < self.named@.len() ==> self.named@[j].0@ != n@,
            },
    {
        let key = n.to_owned();
        let mut i: usize = self.named.len();
        assert(self.named@.take(i as int) =~= self.named@);
        while i > 0
            invariant
                i <= self.named@.len(),
                key@ == n@,
                named_gen(self.named@, n@) == named_gen(self.named@.take(i as int), n@),
                forall|j: int| i <= j < self.named@.len() ==> self.named@[j].0@ != n@,
            decreases i,
        {
            let ghost t = self.named@.take(i as int);
            assert(t.drop_last() =~= self.named@.take(i - 1));
            if self.named[i - 1].0 == key {
                return Some(i - 1);
            }
            i = i - 1;
        }
        assert(self.named@.take(0) =~= Seq::<(String, u64)>::empty());
        None
    }

    /// The counter for an optional name.
    pub fn current(&self, name: &Option<String>) -> (r: u64)
        ensures
            r == self.of(opt_view(*name)),
    {
        match name {
            None => self.global,
            Some(n) => match self.named_at(n.as_str()) {
                Some(i) => self.named[i].1,
                None => 0,
            },
        }
    }

    /// Drops every global entry: the global counter moves on (wrapping).
    pub fn invalidate(&mut self)
        ensures
            final(self).global() == (if old(self).global() == u64::MAX { 0 } else { (old(self).global() + 1) as u64 }),
            forall|n: Seq<char>| final(self).named(n) == old(self).named(n),
    {
        self.global = self.global.wrapping_add(1);
    }

    /// Drops the entries stored under ruleset `id`: its counter moves on
    /// (saturating).
    pub fn invalidate_named(&mut self, id: &str)
        ensures
            final(self).global() == old(self).global(),
            final(self).named(id@) == (if old(self).named(id@) == u64::MAX { u64::MAX } else { (old(
                self,
            ).named(id@) + 1) as u64 }),
            forall|n: Seq<char>| n != id@ ==> final(self).named(n) == old(self).named(n),
    {
        match self.named_at(id) {
            Some(i) => {
                let v = self.named[i].1.saturating_add(1);
                let ghost before = self.named@;
                self.named.set(i, (id.to_owned(), v));
                proof {
                    lemma_named_update(before, i as int, id@, self.named@[i as int]);
                }
            },
            None => {
                let ghost before = self.named@;
                self.named.push((id.to_owned(), 1));
                proof {
                    assert(self.named@.drop_last() =~= before);
                }
            },
        }
    }
}

proof fn lemma_named_update(s: Seq<(String, u64)>, i: int, id: Seq<char>, p: (String, u64))
    requires
        0 <= i < s.len(),
        s[i].0@ == id,
        p.0@ == id,
        forall|j: int| i < j < s.len() ==> s[j].0@ != id,
    ensures
        named_gen(s.update(i, p), id) == p.1,
        forall|n: Seq<char>| n != id ==> #[trigger] named_gen(s.update(i, p), n) == named_gen(s, n),
    decreases s.len(),
{
    let t = s.update(i, p);
    if i < s.len() - 1 {
        assert(t.drop_last() =~= s.drop_last().update(i, p));
        lemma_named_update(s.drop_last(), i, id, p);
        assert(t.last() == s.last());
        assert forall|n: Seq<char>| n != id implies #[trigger] named_gen(t, n) == named_gen(s, n) by {
            assert(named_gen(t.drop_last(), n) == named_gen(s.drop_last(), n));
        }
    } else {
        assert(t.drop_last() =~= s.drop_last());
        assert forall|n: Seq<char>| n != id implies #[trigger] named_gen(t, n) == named_gen(s, n) by {
            assert(named_gen(t.drop_last(), n) == named_gen(s.drop_last(), n));
        }
    }
}

/// No key is cached twice.
pub open spec fn keys_distinct(s: Seq<Cached>) -> bool {
    forall|i: int, j: int| 0 <= i < j < s.len() ==> key_view(s[i].key) != key_view(s[j].key)
}

/// A key waits in the insertion queue.
pub open spec fn queued(order: Seq<CacheKey>, k: CacheKey) -> bool {
    exists|j: int| 0 <= j < order.len() && #[trigger] key_view(order[j]) == key_view(k)
}

/// Every cached key waits in the insertion queue.
pub open spec fn keys_queued(s: Seq<Cached>, order: Seq<CacheKey>) -> bool {
    forall|i: int| 0 <= i < s.len() ==> queued(order, #[trigger] s[i].key)
}

/// Where a key is cached, if it is.
pub open spec fn entry_index(s: Seq<Cached>, k: (Method, Seq<char>, Seq<char>)) -> Option<int> {
    if exists|i: int| 0 <= i < s.len() && key_view(s[i].key) == k {
        Some(choose|i: int| 0 <= i < s.len() && key_view(s[i].key) == k)
    } else {
        None
    }
}

pub open spec fn sat_add(a: usize, b: usize) -> usize {
    if a + b > usize::MAX {
        usize::MAX
    } else {
        (a + b) as usize
    }
}

pub open spec fn sat_sub(a: usize, b: usize) -> usize {
    if a >= b {
        (a - b) as usize
    } else {
        0
    }
}

/// Room must be made before `n` more bytes are cached.
pub open spec fn full(count: int, bytes: usize, n: usize, cap: usize, cap_bytes: usize) -> bool {
    count >= cap || sat_add(bytes, n) > cap_bytes
}

/// Making room: while full, the oldest queued key leaves the queue and,
/// where it is still cached, the map and the byte count.
pub open spec fn evicted(s: Seq<Cached>, order: Seq<CacheKey>, bytes: usize, n: usize, cap: usize, cap_bytes: usize) -> (
    Seq<Cached>,
    Seq<CacheKey>,
    usize,
)
    decreases order.len(),
{
    if full(s.len() as int, bytes, n, cap, cap_bytes) && order.len() > 0 {
        match entry_index(s, key_view(order[0])) {
            Some(i) => evicted(s.remove(i), order.drop_first(), sat_sub(bytes, s[i].bytes), n, cap, cap_bytes),
            None => evicted(s, order.drop_first(), bytes, n, cap, cap_bytes),
        }
    } else {
        (s, order, bytes)
    }
}

proof fn lemma_entry_index(s: Seq<Cached>, k: (Method, Seq<char>, Seq<char>), i: int)
    requires
        keys_distinct(s),
        0 <= i < s.len(),
        key_view(s[i].key) == k,
    ensures
        entry_index(s, k) == Some(i),
{
    let c = choose|c: int| 0 <= c < s.len() && key_view(s[c].key) == k;
    assert(0 <= c < s.len() && key_view(s[c].key) == k);
    if c < i {
        assert(key_view(s[c].key) != key_view(s[i].key));
    } else if i < c {
        assert(key_view(s[i].key) != key_view(s[c].key));
    }
}

/// One eviction step keeps the keys distinct and queued.
proof fn lemma_evict_step(s: Seq<Cached>, order: Seq<CacheKey>)
    requires
        keys_distinct(s),
        keys_queued(s, order),
        order.len() > 0,
    ensures
        match entry_index(s, key_view(order[0])) {
            Some(i) => 0 <= i < s.len() && keys_distinct(s.remove(i)) && keys_queued(s.remove(i), order.drop_first()),
            None => keys_queued(s, order.drop_first()),
        },
{
    let k0 = key_view(order[0]);
    let rest = order.drop_first();
    match entry_index(s, k0) {
        Some(i) => {
            assert(0 <= i < s.len() && key_view(s[i].key) == k0);
            let t = s.remove(i);
            assert forall|a: int, b: int| 0 <= a < b < t.len() implies key_view(t[a].key) != key_view(t[b].key) by {
                let a0 = if a < i { a } else { a + 1 };
                let b0 = if b < i { b } else { b + 1 };
                assert(t[a] == s[a0] && t[b] == s[b0]);
            }
            assert forall|a: int| 0 <= a < t.len() implies queued(rest, #[trigger] t[a].key) by {
                let a0 = if a < i { a } else { a + 1 };
                assert(t[a] == s[a0]);
                let j = choose|j: int| 0 <= j < order.len() && #[trigger] key_view(order[j]) == key_view(s[a0].key);
                if j == 0 {
                    if a0 < i {
                        assert(key_view(s[a0].key) != key_view(s[i].key));
                    } else {
                        assert(key_view(s[i].key) != key_view(s[a0].key));
                    }
                }
                assert(rest[j - 1] == order[j]);
            }
        },
        None => {
            assert forall|a: int| 0 <= a < s.len() implies queued(rest, #[trigger] s[a].key) by {
                let j = choose|j: int| 0 <= j < order.len() && #[trigger] key_view(order[j]) == key_view(s[a].key);
                if j == 0 {
                    assert(0 <= a < s.len() && key_view(s[a].key) == k0);
                }
                assert(rest[j - 1] == order[j]);
            }
        },
    }
}

/// After making room the map is below its cap, or empty.
pub proof fn lemma_evicted_room(s: Seq<Cached>, order: Seq<CacheKey>, bytes: usize, n: usize, cap: usize, cap_bytes: usize)
    requires
        keys_distinct(s),
        keys_queued(s, order),
    ensures
        ({
            let (s2, o2, b2) = evicted(s, order, bytes, n, cap, cap_bytes);
            &&& keys_distinct(s2)
            &&& keys_queued(s2, o2)
            &&& (s2.len() < cap || s2.len() == 0)
            &&& (!full(s2.len() as int, b2, n, cap, cap_bytes) || s2.len() == 0)
        }),
    decreases order.len(),
{
    if full(s.len() as int, bytes, n, cap, cap_bytes) && order.len() > 0 {
        lemma_evict_step(s, order);
        match entry_index(s, key_view(order[0])) {
            Some(i) => lemma_evicted_room(s.remove(i), order.drop_first(), sat_sub(bytes, s[i].bytes), n, cap, cap_bytes),
            None => lemma_evicted_room(s, order.drop_first(), bytes, n, cap, cap_bytes),
        }
    } else if order.len() == 0 && s.len() > 0 {
        assert(queued(order, s[0].key));
    }
}

/// One worker's cached responses and their insertion queue.
pub struct CacheMap {
    entries: Vec<Cached>,
    order: Vec<CacheKey>,
    bytes: usize,
}

impl CacheMap {
    pub closed spec fn entries(&self) -> Seq<Cached> {
        self.entries@
    }

    pub closed spec fn order(&self) -> Seq<CacheKey> {
        self.order@
    }

    /// The byte count kept for the caps.
    pub closed spec fn bytes(&self) -> usize {
        self.bytes
    }

    pub open spec fn wf(&self) -> bool {
        &&& keys_distinct(self.entries())
        &&& keys_queued(self.entries(), self.order())
    }

    pub fn new() -> (r: Self)
        ensures
            r.wf(),
            r.entries().len() == 0,
            r.order().len() == 0,
            r.bytes() == 0,
    {
        CacheMap { entries: Vec::new(), order: Vec::new(), bytes: 0 }
    }

    /// The number of cached responses.
    pub fn count(&self) -> (r: usize)
        ensures
            r == self.entries().len(),
    {
        self.entries.len()
    }

    fn find(&self, method: Method, path: &String, query: &String) -> (r: Option<usize>)
        requires
            keys_distinct(self.entries@),
        ensures
            match r {
                Some(j) => entry_index(self.entries@, (method, path@, query@)) == Some(j as int),
                None => entry_index(self.entries@, (method, path@, query@)) is None,
            },
    {
        let mut i: usize = 0;
        while i < self.entries.len()
            invariant
                i <= self.entries@.len(),
                keys_distinct(self.entries@),
                forall|k: int| 0 <= k < i ==> key_view(self.entries@[k].key) != (method, path@, query@),
            decreases self.entries@.len() - i,
        {
            let e = &self.entries[i];
            if e.key.method == method && e.key.path == *path && e.key.query == *query {
                proof {
                    lemma_entry_index(self.entries@, (method, path@, query@), i as int);
                }
                return Some(i);
            }
            i = i + 1;
        }
        assert(!(exists|k: int| 0 <= k < self.entries@.len() && key_view(self.entries@[k].key) == (method, path@, query@)));
        None
    }

    fn is_full(&self, n: usize, cap: usize, cap_bytes: usize) -> (r: bool)
        ensures
            r == full(self.entries@.len() as int, self.bytes, n, cap, cap_bytes),
    {
        self.entries.len() >= cap || self.bytes.saturating_add(n) > cap_bytes
    }

    fn evict(&mut self, n: usize, cap: usize, cap_bytes: usize)
        requires
            old(self).wf(),
        ensures
            final(self).wf(),
            (final(self).entries(), final(self).order(), final(self).bytes()) == evicted(
                old(self).entries(),
                old(self).order(),
                old(self).bytes(),
                n,
                cap,
                cap_bytes,
            ),
    {
        let ghost goal = evicted(self.entries@, self.order@, self.bytes, n, cap, cap_bytes);
        while self.is_full(n, cap, cap_bytes) && self.order.len() > 0
            invariant
                keys_distinct(self.entries@),
                keys_queued(self.entries@, self.order@),
                evicted(self.entries@, self.order@, self.bytes, n, cap, cap_bytes) == goal,
            decreases self.order@.len(),
        {
            proof {
                lemma_evict_step(self.entries@, self.order@);
            }
            let ghost s0 = self.entries@;
            let ghost o0 = self.order@;
            let k = self.order.remove(0);
            assert(self.order@ =~= o0.drop_first());
            match self.find(k.method, &k.path, &k.query) {
                Some(i) => {
                    let e = self.entries.remove(i);
                    self.bytes = if self.bytes >= e.bytes { self.bytes - e.bytes } else { 0 };
                    assert(self.entries@ =~= s0.remove(i as int));
                },
                None => {},
            }
        }
    }
}

/// How long a cached response may live, in milliseconds.
pub open spec fn cache_ttl(d: CacheDirective) -> u32 {
    match d {
        CacheDirective::No => 0,
        CacheDirective::Global { ttl_ms } => ttl_ms,
        CacheDirective::Named { ttl_ms, .. } => ttl_ms,
    }
}

/// The ruleset a cached response belongs to, if any.
pub open spec fn cache_name(d: CacheDirective) -> Option<Seq<char>> {
    match d {
        CacheDirective::Named { ruleset, .. } => Some(ruleset@),
        _ => None,
    }
}

/// Streams and files are never cached, nor responses without a positive
/// lifetime.
pub open spec fn storable(out: Out) -> bool {
    !(out.body is Stream) && !(out.body is File) && cache_ttl(out.cache) > 0
}

/// Time since `at`, zero when the clock reads earlier.
pub open spec fn elapsed(now_ns: u64, at_ns: u64) -> int {
    if now_ns >= at_ns {
        now_ns - at_ns
    } else {
        0
    }
}

/// The map with `e` cached: it replaces the entry for the same key, or
/// joins the end.
pub open spec fn with_entry(s: Seq<Cached>, e: Cached) -> Seq<Cached> {
    match entry_index(s, key_view(e.key)) {
        Some(i) => s.update(i, e),
        None => s.push(e),
    }
}

proof fn lemma_with_entry(s: Seq<Cached>, order: Seq<CacheKey>, e: Cached, k: CacheKey)
    requires
        keys_distinct(s),
        keys_queued(s, order),
        key_view(k) == key_view(e.key),
    ensures
        keys_distinct(with_entry(s, e)),
        keys_queued(with_entry(s, e), order.push(k)),
        with_entry(s, e).len() <= s.len() + 1,
        entry_index(with_entry(s, e), key_view(e.key)) matches Some(i) && with_entry(s, e)[i] == e,
{
    let t = with_entry(s, e);
    let o = order.push(k);
    let at: int = match entry_index(s, key_view(e.key)) {
        Some(i) => i,
        None => s.len() as int,
    };
    if let Some(i) = entry_index(s, key_view(e.key)) {
        assert(0 <= i < s.len() && key_view(s[i].key) == key_view(e.key));
    } else {
        assert(forall|j: int| 0 <= j < s.len() ==> key_view(s[j].key) != key_view(e.key));
    }
    assert(0 <= at < t.len() && t[at] == e);
    assert forall|a: int, b: int| 0 <= a < b < t.len() implies key_view(t[a].key) != key_view(t[b].key) by {
        if a != at && b != at {
            assert(t[a] == s[a] && t[b] == s[b]);
        } else if a == at {
            assert(t[b] == s[b]);
            if let Some(i) = entry_index(s, key_view(e.key)) {
                assert(key_view(s[i].key) != key_view(s[b].key));
            }
        } else {
            assert(t[a] == s[a]);
            if let Some(i) = entry_index(s, key_view(e.key)) {
                assert(key_view(s[a].key) != key_view(s[i].key));
            }
        }
    }
    assert forall|a: int| 0 <= a < t.len() implies queued(o, #[trigger] t[a].key) by {
        if a == at {
            assert(key_view(o[o.len() - 1]) == key_view(t[a].key));
        } else {
            assert(t[a] == s[a]);
            assert(queued(order, s[a].key));
            let j = choose|j: int| 0 <= j < order.len() && #[trigger] key_view(order[j]) == key_view(s[a].key);
            assert(o[j] == order[j]);
        }
    }
    lemma_entry_index(t, key_view(e.key), at);
}

/// How `put` stores a response: under the request's key, at `now_ns`,
/// living for its directive's milliseconds, under the generation current
/// for its ruleset name, with its encoded bytes.
pub open spec fn stored_as(e: Cached, k: (Method, Seq<char>, Seq<char>), out: Out, now_ns: u64, epoch: u64) -> bool {
    &&& key_view(e.key) == k
    &&& e.at_ns == now_ns
    &&& e.ttl_ns == cache_ttl(out.cache) * 1_000_000
    &&& e.epoch == epoch
    &&& opt_view(e.name) == cache_name(out.cache)
    &&& e.wire@ == response_bytes(out, false)
    &&& e.bytes == e.wire@.len()
    &&& e.out == out
}

/// The caps and the generation counters that all workers share.
pub struct ResponseCache {
    cap: usize,
    cap_bytes: usize,
    gens: Generations,
}

impl ResponseCache {
    pub closed spec fn cap(&self) -> usize {
        self.cap
    }

    pub closed spec fn cap_bytes(&self) -> usize {
        self.cap_bytes
    }

    pub closed spec fn gens(&self) -> Generations {
        self.gens
    }

    #[verifier::type_invariant]
    spec fn at_least_one(&self) -> bool {
        self.cap >= 1
    }

    /// An entry answers while its lifetime has not run out and its
    /// generation is still the current one.
    pub open spec fn live(&self, e: Cached, now_ns: u64) -> bool {
        elapsed(now_ns, e.at_ns) <= e.ttl_ns && e.epoch == self.gens().of(opt_view(e.name))
    }

    /// Where a lookup hits: the key's entry, when it is live.
    pub open spec fn hit(&self, s: Seq<Cached>, k: (Method, Seq<char>, Seq<char>), now_ns: u64) -> Option<int> {
        match entry_index(s, k) {
            Some(i) => if self.live(s[i], now_ns) {
                Some(i)
            } else {
                None
            },
            None => None,
        }
    }

    /// At least one entry and 1024 bytes.
    pub fn new(cap: usize, cap_bytes: usize) -> (r: Self)
        ensures
            r.cap() == (if cap < 1 { 1 } else { cap }),
            r.cap_bytes() == (if cap_bytes < 1024 { 1024 } else { cap_bytes }),
            r.gens().global() == 0,
            forall|n: Seq<char>| r.gens().named(n) == 0,
    {
        ResponseCache {
            cap: if cap < 1 { 1 } else { cap },
            cap_bytes: if cap_bytes < 1024 { 1024 } else { cap_bytes },
            gens: Generations::new(),
        }
    }

    /// Drops every global hit.
    pub fn invalidate(&mut self)
        ensures
            final(self).cap() == old(self).cap(),
            final(self).cap_bytes() == old(self).cap_bytes(),
            final(self).gens().global() == (if old(self).gens().global() == u64::MAX { 0 } else { (old(
                self,
            ).gens().global() + 1) as u64 }),
            forall|n: Seq<char>| final(self).gens().named(n) == old(self).gens().named(n),
    {
        proof {
            use_type_invariant(&*self);
        }
        let mut g = Generations::new();
        std::mem::swap(&mut g, &mut self.gens);
        g.invalidate();
        self.gens = g;
    }

    /// Drops the hits stored under ruleset `id`.
    pub fn invalidate_named(&mut self, id: &str)
        ensures
            final(self).cap() == old(self).cap(),
            final(self).cap_bytes() == old(self).cap_bytes(),
            final(self).gens().global() == old(self).gens().global(),
            final(self).gens().named(id@) == (if old(self).gens().named(id@) == u64::MAX { u64::MAX } else { (old(
                self,
            ).gens().named(id@) + 1) as u64 }),
            forall|n: Seq<char>| n != id@ ==> final(self).gens().named(n) == old(self).gens().named(n),
    {
        proof {
            use_type_invariant(&*self);
        }
        let mut g = Generations::new();
        std::mem::swap(&mut g, &mut self.gens);
        g.invalidate_named(id);
        self.gens = g;
    }

    fn lookup(&self, local: &CacheMap, method: Method, path: &str, query: &str, now_ns: u64) -> (r: Option<usize>)
        requires
            local.wf(),
        ensures
            match r {
                Some(j) => self.hit(local.entries(), (method, path@, query@), now_ns) == Some(j as int),
                None => self.hit(local.entries(), (method, path@, query@), now_ns) is None,
            },
    {
        let p = path.to_owned();
        let q = query.to_owned();
        match local.find(method, &p, &q) {
            Some(i) => {
                let e = &local.entries[i];
                let age: u64 = if now_ns >= e.at_ns { now_ns - e.at_ns } else { 0 };
                if age <= e.ttl_ns && e.epoch == self.gens.current(&e.name) {
                    Some(i)
                } else {
                    None
                }
            },
            None => None,
        }
    }

    /// The cached response for a request, when it is live.
    pub fn get<'a>(&self, local: &'a CacheMap, method: Method, path: &str, query: &str, now_ns: u64) -> (r: Option<&'a Out>)
        requires
            local.wf(),
        ensures
            match self.hit(local.entries(), (method, path@, query@), now_ns) {
                Some(i) => r matches Some(o) && *o == local.entries()[i].out,
                None => r is None,
            },
    {
        match self.lookup(local, method, path, query, now_ns) {
            Some(i) => Some(&local.entries[i].out),
            None => None,
        }
    }

    /// The cached on-the-wire HTTP/1.1 bytes for a request, when live.
    pub fn get_wire<'a>(&self, local: &'a CacheMap, method: Method, path: &str, query: &str, now_ns: u64) -> (r: Option<
        &'a Vec<u8>,
    >)
        requires
            local.wf(),
        ensures
            match self.hit(local.entries(), (method, path@, query@), now_ns) {
                Some(i) => r matches Some(w) && w@ == local.entries()[i].wire@,
                None => r is None,
            },
    {
        match self.lookup(local, method, path, query, now_ns) {
            Some(i) => Some(&local.entries[i].wire),
            None => None,
        }
    }

    /// Caches a response that may be cached (not a stream or a file,
    /// with a positive lifetime): room is made first, oldest insertions
    /// leaving, then it replaces the entry for its key or joins the map,
    /// and its key joins the queue.
    pub fn put(&self, local: &mut CacheMap, method: Method, path: &str, query: &str, out: Out, now_ns: u64)
        requires
            old(local).wf(),
        ensures
            final(local).wf(),
            !storable(out) ==> final(local).entries() == old(local).entries() && final(local).order() == old(
                local,
            ).order() && final(local).bytes() == old(local).bytes(),
            storable(out) ==> ({
                let n = response_bytes(out, false).len() as usize;
                let (s2, o2, b2) = evicted(
                    old(local).entries(),
                    old(local).order(),
                    old(local).bytes(),
                    n,
                    self.cap(),
                    self.cap_bytes(),
                );
                let k = (method, path@, query@);
                &&& entry_index(final(local).entries(), k) matches Some(i) && stored_as(
                    final(local).entries()[i],
                    k,
                    out,
                    now_ns,
                    self.gens().of(cache_name(out.cache)),
                ) && final(local).entries() == with_entry(s2, final(local).entries()[i])
                &&& final(local).order().drop_last() == o2
                &&& final(local).order().len() == o2.len() + 1
                &&& key_view(final(local).order().last()) == k
                &&& final(local).bytes() == sat_add(b2, n)
                &&& final(local).entries().len() <= self.cap()
                &&& self.hit(final(local).entries(), k, now_ns) matches Some(i) && final(local).entries()[i].out == out
            }),
    {
        proof {
            use_type_invariant(self);
        }
        let cacheable = match &out.body {
            OutBody::Stream => false,
            OutBody::File { .. } => false,
            _ => true,
        };
        if !cacheable {
            return;
        }
        let (ttl_ms, name): (u32, Option<String>) = match &out.cache {
            CacheDirective::No => (0, None),
            CacheDirective::Global { ttl_ms } => (*ttl_ms, None),
            CacheDirective::Named { ruleset, ttl_ms } => (*ttl_ms, Some(ruleset.clone())),
        };
        if ttl_ms == 0 {
            return;
        }
        let mut wire: Vec<u8> = Vec::new();
        encode_response(&out, &mut wire);
        let n = wire.len();
        let epoch = self.gens.current(&name);
        let ghost s0 = local.entries@;
        let ghost o0 = local.order@;
        let ghost b0 = local.bytes;
        local.evict(n, self.cap, self.cap_bytes);
        proof {
            lemma_evicted_room(s0, o0, b0, n, self.cap, self.cap_bytes);
        }
        let ghost s2 = local.entries@;
        let ghost o2 = local.order@;
        let ps = path.to_owned();
        let qs = query.to_owned();
        let at = local.find(method, &ps, &qs);
        let e = Cached {
            key: CacheKey { method, path: ps, query: qs },
            at_ns: now_ns,
            ttl_ns: ttl_ms as u64 * 1_000_000,
            epoch,
            name,
            bytes: n,
            out,
            wire,
        };
        let okey = CacheKey { method, path: path.to_owned(), query: query.to_owned() };
        let ghost eg = e;
        let ghost kg = okey;
        match at {
            Some(i) => local.entries.set(i, e),
            None => local.entries.push(e),
        }
        local.bytes = local.bytes.saturating_add(n);
        local.order.push(okey);
        proof {
            lemma_with_entry(s2, o2, eg, kg);
            assert(local.entries@ == with_entry(s2, eg));
            assert(local.order@.drop_last() =~= o2);
        }
    }
}

/// Caching a response never changes what another key answers: the other
/// keys keep exactly their entries.
pub proof fn law_put_leaves_other_keys(s: Seq<Cached>, e: Cached, k: (Method, Seq<char>, Seq<char>))
    requires
        keys_distinct(s),
        k != key_view(e.key),
    ensures
        entry_index(s, k) matches Some(j) ==> entry_index(with_entry(s, e), k) matches Some(i) && with_entry(s, e)[i]
            == s[j],
        entry_index(s, k) is None ==> entry_index(with_entry(s, e), k) is None,
{
    let t = with_entry(s, e);
    let at: int = match entry_index(s, key_view(e.key)) {
        Some(i) => i,
        None => s.len() as int,
    };
    if let Some(i) = entry_index(s, key_view(e.key)) {
        assert(0 <= i < s.len() && key_view(s[i].key) == key_view(e.key));
    }
    assert(0 <= at < t.len() && t[at] == e);
    assert forall|a: int| 0 <= a < t.len() && a != at implies t[a] == s[a] by {}
    match entry_index(s, k) {
        Some(j) => {
            assert(0 <= j < s.len() && key_view(s[j].key) == k);
            assert(j != at);
            assert(t[j] == s[j]);
            assert(keys_distinct(t)) by {
                assert forall|a: int, b: int| 0 <= a < b < t.len() implies key_view(t[a].key) != key_view(t[b].key) by {
                    if a != at && b != at {
                        assert(t[a] == s[a] && t[b] == s[b]);
                    } else if a == at {
                        assert(t[b] == s[b]);
                        if let Some(i) = entry_index(s, key_view(e.key)) {
                            assert(key_view(s[i].key) != key_view(s[b].key));
                        }
                    } else {
                        assert(t[a] == s[a]);
                        if let Some(i) = entry_index(s, key_view(e.key)) {
                            assert(key_view(s[a].key) != key_view(s[i].key));
                        }
                    }
                }
            }
            lemma_entry_index(t, k, j);
        },
        None => {
            assert forall|a: int| 0 <= a < t.len() implies key_view(t[a].key) != k by {
                if a != at {
                    assert(t[a] == s[a]);
                }
            }
        },
    }
}

/// Invalidating drops every global entry that was live, and leaves the
/// named entries as they were. `requires` leaves out a global counter at
/// its largest value, which wraps to zero.
pub proof fn law_invalidate_drops_global_not_named(before: ResponseCache, after: ResponseCache, e: Cached, now_ns: u64)
    requires
        before.gens().global() < u64::MAX,
        after.gens().global() == before.gens().global() + 1,
        forall|n: Seq<char>| after.gens().named(n) == before.gens().named(n),
    ensures
        e.name is None && before.live(e, now_ns) ==> !after.live(e, now_ns),
        e.name is Some ==> after.live(e, now_ns) == before.live(e, now_ns),
{
}

/// Invalidating a name drops every live entry of that name, and leaves
/// global entries and other names as they were. `requires` leaves out a
/// counter at its largest value, which stays there.
pub proof fn law_invalidate_named_drops_only_that_name(
    before: ResponseCache,
    after: ResponseCache,
    id: Seq<char>,
    e: Cached,
    now_ns: u64,
)
    requires
        before.gens().named(id) < u64::MAX,
        after.gens().named(id) == before.gens().named(id) + 1,
        after.gens().global() == before.gens().global(),
        forall|n: Seq<char>| n != id ==> after.gens().named(n) == before.gens().named(n),
    ensures
        opt_view(e.name) == Some(id) && before.live(e, now_ns) ==> !after.live(e, now_ns),
        opt_view(e.name) != Some(id) ==> after.live(e, now_ns) == before.live(e, now_ns),
{
}

} // verus!
