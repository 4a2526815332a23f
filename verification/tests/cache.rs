use atomos_core::cache::{CacheMap, ResponseCache};
use atomos_core::io::{CacheDirective, Out, OutBody};
use atomos_core::method::Method;
use atomos_core::status::Status;

fn sample() -> Out {
    Out {
        status: Status::from_u16(200),
        reason: None,
        headers: vec![],
        body: OutBody::Json(br#"{"ok":true}"#.to_vec()),
        cache: CacheDirective::Global { ttl_ms: 60_000 },
    }
}

fn named(id: &str) -> Out {
    let mut o = sample();
    o.cache = CacheDirective::Named { ruleset: id.into(), ttl_ms: 60_000 };
    o
}

#[test]
fn same_thread_put_get() {
    let c = ResponseCache::new(16, 1 << 20);
    let mut local = CacheMap::new();
    c.put(&mut local, Method::Get, "/health", "", sample(), 0);
    assert!(c.get(&local, Method::Get, "/health", "", 0).is_some());
    assert!(c.get_wire(&local, Method::Get, "/health", "", 0).is_some());
}

#[test]
fn distinct_paths_are_not_aliases() {
    let c = ResponseCache::new(16, 1 << 20);
    let mut local = CacheMap::new();
    c.put(&mut local, Method::Get, "/a", "", sample(), 0);
    c.put(&mut local, Method::Get, "/b", "", sample(), 0);
    assert!(c.get(&local, Method::Get, "/a", "", 0).is_some());
    assert!(c.get(&local, Method::Get, "/b", "", 0).is_some());
    assert!(c.get(&local, Method::Get, "/c", "", 0).is_none());
}

#[test]
fn invalidate_drops_global_not_named() {
    let mut c = ResponseCache::new(16, 1 << 20);
    let mut local = CacheMap::new();
    c.put(&mut local, Method::Get, "/g", "", sample(), 0);
    c.put(&mut local, Method::Get, "/n", "", named("notes"), 0);
    c.invalidate();
    assert!(c.get_wire(&local, Method::Get, "/g", "", 0).is_none());
    assert!(c.get_wire(&local, Method::Get, "/n", "", 0).is_some());
}

#[test]
fn invalidate_named_drops_only_that_name() {
    let mut c = ResponseCache::new(16, 1 << 20);
    let mut local = CacheMap::new();
    c.put(&mut local, Method::Get, "/g", "", sample(), 0);
    c.put(&mut local, Method::Get, "/n", "", named("notes"), 0);
    c.invalidate_named("notes");
    assert!(c.get_wire(&local, Method::Get, "/g", "", 0).is_some());
    assert!(c.get_wire(&local, Method::Get, "/n", "", 0).is_none());
}

#[test]
fn cached_wire_is_the_encoded_response() {
    let c = ResponseCache::new(16, 1 << 20);
    let mut local = CacheMap::new();
    c.put(&mut local, Method::Get, "/w", "q=1", sample(), 0);
    let mut want = Vec::new();
    atomos_core::net::encode::encode_response(&sample(), &mut want);
    assert_eq!(c.get_wire(&local, Method::Get, "/w", "q=1", 0).unwrap(), &want);
    // the query is part of the key, and so is the method
    assert!(c.get(&local, Method::Get, "/w", "", 0).is_none());
    assert!(c.get(&local, Method::Head, "/w", "q=1", 0).is_none());
}

#[test]
fn entries_expire_after_their_lifetime() {
    let c = ResponseCache::new(16, 1 << 20);
    let mut local = CacheMap::new();
    c.put(&mut local, Method::Get, "/t", "", sample(), 1_000);
    assert!(c.get(&local, Method::Get, "/t", "", 1_000 + 60_000 * 1_000_000).is_some());
    assert!(c.get(&local, Method::Get, "/t", "", 1_000 + 60_000 * 1_000_000 + 1).is_none());
}

#[test]
fn uncacheable_responses_are_not_stored() {
    let c = ResponseCache::new(16, 1 << 20);
    let mut local = CacheMap::new();
    let mut o = sample();
    o.cache = CacheDirective::No;
    c.put(&mut local, Method::Get, "/x", "", o, 0);
    let mut f = sample();
    f.body = OutBody::File { offset: 0, len: 10 };
    c.put(&mut local, Method::Get, "/f", "", f, 0);
    let mut z = sample();
    z.cache = CacheDirective::Global { ttl_ms: 0 };
    c.put(&mut local, Method::Get, "/z", "", z, 0);
    assert_eq!(local.count(), 0);
}

#[test]
fn oldest_insertion_leaves_first() {
    let c = ResponseCache::new(2, 1 << 20);
    let mut local = CacheMap::new();
    c.put(&mut local, Method::Get, "/1", "", sample(), 0);
    c.put(&mut local, Method::Get, "/2", "", sample(), 0);
    c.put(&mut local, Method::Get, "/3", "", sample(), 0);
    assert_eq!(local.count(), 2);
    assert!(c.get(&local, Method::Get, "/1", "", 0).is_none());
    assert!(c.get(&local, Method::Get, "/2", "", 0).is_some());
    assert!(c.get(&local, Method::Get, "/3", "", 0).is_some());
}
