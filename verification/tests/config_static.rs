use atomos_core::fd_cache::{FdLru, FD_CACHE_MAX};
use atomos_core::config::defaults::{
    default_backlog, default_body_bytes, default_engine, default_false, default_header_bytes, default_json_depth,
    default_mem, default_mem_mode, default_sock_name, default_true,
};
use atomos_core::config::{engine_ok, overlay_host, validate, ConfigCheck, HostFacts, MemoryMode, SchedConfig, Tunables};
use atomos_core::error::ServeError;
use atomos_core::io::{HeaderView, OutBody};
use atomos_core::method::Method;
use atomos_core::sched::{Limits, Weights};
use atomos_core::static_files::{
    parse_byte_range, range_not_satisfiable, ranged_bytes, ranged_file, safe_components, static_out, static_rel,
    static_ttl,
};
use atomos_core::status::Status;

fn check(bind: &str, loopback: Option<bool>) -> ConfigCheck {
    ConfigCheck {
        bind: bind.to_string(),
        bind_loopback: loopback,
        allow_non_loopback: false,
        workers: 1,
        max_json_depth: default_json_depth(),
        max_body_bytes: default_body_bytes(),
        memory_cap_bytes: default_mem(),
        cpu_fraction_in_range: true,
        tls_cert_set: false,
        tls_key_set: false,
        engine: default_engine(),
        http2: default_false(),
        http3: default_false(),
    }
}

fn config_message(c: &ConfigCheck) -> String {
    match validate(c) {
        Err(ServeError::Config(m)) => m,
        other => panic!("expected a config error, got {other:?}"),
    }
}

#[test]
fn rejects_non_loopback_by_default() {
    let e = validate(&check("0.0.0.0:80", Some(false))).unwrap_err();
    assert!(matches!(e, ServeError::Config(_)));
}

#[test]
fn clamps_json_depth_over_64() {
    let c = ConfigCheck { max_json_depth: 99, ..check("127.0.0.1:1", Some(true)) };
    let e = validate(&c).unwrap_err();
    assert!(matches!(e, ServeError::Config(_)));
}

#[test]
fn default_engine_is_epoll() {
    let c = check("127.0.0.1:0", Some(true));
    assert!(validate(&c).is_ok());
    assert_eq!(c.engine, "epoll");
    assert!(!c.http2);
    assert!(!c.http3);
}

#[test]
fn epoll_with_http2_is_config_error() {
    let c = ConfigCheck { http2: true, ..check("127.0.0.1:0", Some(true)) };
    let s = config_message(&c);
    assert!(s.contains("epoll"), "{s}");
    assert!(s.contains("http2") || s.contains("engine"), "{s}");
}

#[test]
fn tokio_may_enable_http2() {
    let c = ConfigCheck { engine: "tokio".to_string(), http2: true, ..check("127.0.0.1:0", Some(true)) };
    validate(&c).unwrap();
}

#[test]
fn default_bind_is_loopback() {
    let c = check("127.0.0.1:8090", Some(true));
    assert!(validate(&c).is_ok());
    assert!(default_true());
    assert_eq!(default_engine(), "epoll");
    assert!(default_sock_name().contains("atomos.sock"));
    assert_eq!(default_backlog(), 1024);
    assert_eq!(default_header_bytes(), 16 * 1024);
    assert_eq!(default_mem_mode(), MemoryMode::Hard);
}

#[test]
fn overlay_host_sets_workers_and_refuse() {
    let mut t = Tunables { workers: 2, cpu_pin: false, cache_bytes: 1 << 20, cache_entries: 64, refuse_ports: vec![] };
    overlay_host(
        &mut t,
        &HostFacts { workers: Some(8), cpu_pin: Some(true), cache_bytes: Some(4096), cache_entries: None, refuse_ports: Some(vec![9]) },
    );
    assert_eq!(t.workers, 8);
    assert_eq!(t.refuse_ports, vec![9]);
    assert_eq!(t.cache_bytes, 4096);
    assert_eq!(t.cache_entries, 64);
    assert!(t.cpu_pin);
    overlay_host(
        &mut t,
        &HostFacts { workers: Some(0), cpu_pin: None, cache_bytes: Some(10), cache_entries: Some(0), refuse_ports: None },
    );
    assert_eq!((t.workers, t.cache_bytes, t.cache_entries), (1, 1024, 1));
    assert_eq!(t.refuse_ports, vec![9]);
}

#[test]
fn every_config_error_has_its_message() {
    let base = check("127.0.0.1:1", Some(true));
    let cases: Vec<(ConfigCheck, &str)> = vec![
        (check("", Some(true)), "empty bind"),
        (check("nohost", None), "bind is not host:port"),
        (check("10.0.0.1:1", Some(false)), "non-loopback bind refused"),
        (ConfigCheck { workers: 0, ..check("127.0.0.1:1", Some(true)) }, "workers == 0"),
        (ConfigCheck { max_json_depth: 0, ..check("127.0.0.1:1", Some(true)) }, "max_json_depth not in 1..=64"),
        (ConfigCheck { max_body_bytes: 1023, ..check("127.0.0.1:1", Some(true)) }, "max_body_bytes < 1024"),
        (ConfigCheck { memory_cap_bytes: 1, ..check("127.0.0.1:1", Some(true)) }, "memory_cap_bytes < 16MiB"),
        (ConfigCheck { cpu_fraction_in_range: false, ..check("127.0.0.1:1", Some(true)) }, "cpu_fraction not in (0,1]"),
        (ConfigCheck { tls_cert_set: true, ..check("127.0.0.1:1", Some(true)) }, "tls_cert and tls_key must both be set"),
        (ConfigCheck { engine: "uring".to_string(), ..check("127.0.0.1:1", Some(true)) }, "unknown engine"),
        (ConfigCheck { engine: "af-xdp".to_string(), ..check("127.0.0.1:1", Some(true)) }, "engine xdp is not linked in this site"),
    ];
    for (c, want) in cases {
        assert_eq!(config_message(&c), want);
    }
    let open = ConfigCheck { allow_non_loopback: true, ..check("0.0.0.0:80", Some(false)) };
    assert!(validate(&open).is_ok());
    assert!(validate(&base).is_ok());
    assert!(engine_ok("xdp"));
    assert!(!engine_ok("EPOLL"));
}

#[test]
fn default_sched_block_builds_default_limits() {
    let (l, w) = SchedConfig::default().build();
    assert_eq!(l, Limits::default());
    assert_eq!(w, Weights::default());
}

fn headers(range: Option<&str>) -> HeaderView {
    let mut pairs = vec![("Host".to_string(), "x".to_string())];
    if let Some(r) = range {
        pairs.push(("RANGE".to_string(), r.to_string()));
    }
    HeaderView { pairs }
}

#[test]
fn byte_ranges() {
    assert_eq!(parse_byte_range(None, 10), Ok(None));
    assert_eq!(parse_byte_range(Some("bytes=0-4"), 10), Ok(Some((0, 5))));
    assert_eq!(parse_byte_range(Some("bytes=5-"), 10), Ok(Some((5, 5))));
    assert_eq!(parse_byte_range(Some("bytes=-3"), 10), Ok(Some((7, 3))));
    assert_eq!(parse_byte_range(Some("bytes=-30"), 10), Ok(Some((0, 10))));
    assert_eq!(parse_byte_range(Some("bytes=2-100"), 10), Ok(Some((2, 8))));
    assert_eq!(parse_byte_range(Some("bytes=10-"), 10), Err(()));
    assert_eq!(parse_byte_range(Some("bytes=4-2"), 10), Err(()));
    assert_eq!(parse_byte_range(Some("bytes=0-1,3-4"), 10), Err(()));
    assert_eq!(parse_byte_range(Some("items=0-1"), 10), Err(()));
    assert_eq!(parse_byte_range(Some("bytes=-0"), 10), Err(()));
    assert_eq!(parse_byte_range(Some("bytes=-1"), 0), Err(()));
}

#[test]
fn ranged_responses() {
    let o = ranged_bytes(&headers(None), "text/plain", 60_000, b"hello world".to_vec());
    assert_eq!(o.status.as_u16(), 200);
    assert!(matches!(&o.body, OutBody::Raw(b) if b == b"hello world"));
    let o = ranged_bytes(&headers(Some("bytes=6-")), "text/plain", 60_000, b"hello world".to_vec());
    assert_eq!(o.status.as_u16(), 206);
    assert!(matches!(&o.body, OutBody::Raw(b) if b == b"world"));
    assert!(o.headers.iter().any(|(k, v)| k == "Content-Range" && v == "bytes 6-10/11"));
    assert!(o.headers.iter().any(|(k, v)| k == "ETag" && v == "\"11\""));
    let o = ranged_bytes(&headers(Some("bytes=20-")), "text/plain", 60_000, b"hello".to_vec());
    assert_eq!(o.status.as_u16(), 416);
    assert!(o.headers.iter().any(|(k, v)| k == "Content-Range" && v == "bytes */5"));
    let o = ranged_file(&headers(Some("bytes=-4")), "video/mp4", 60_000, 1000);
    assert_eq!(o.status.as_u16(), 206);
    assert!(matches!(o.body, OutBody::File { offset: 996, len: 4 }));
    let o = ranged_file(&headers(None), "video/mp4", 60_000, 1000);
    assert!(matches!(o.body, OutBody::File { offset: 0, len: 1000 }));
    let o = range_not_satisfiable("a/b", 3);
    assert_eq!(o.status.as_u16(), 416);
    let o = static_out(Status::from_u16(200), "a/b", 5, 9, vec![("X".to_string(), "y".to_string())], OutBody::Empty);
    assert_eq!(o.headers.len(), 4);
    assert_eq!(o.headers[3].0, "X");
}

#[test]
fn safe_relative_paths() {
    assert_eq!(safe_components("a/./b//c"), Some(vec!["a".to_string(), "b".to_string(), "c".to_string()]));
    assert_eq!(safe_components("a/../b"), None);
    assert_eq!(safe_components("/etc/passwd"), None);
    assert_eq!(safe_components("a\0b"), None);
    assert_eq!(safe_components(""), Some(vec![]));
}

#[test]
fn static_request_names_a_file() {
    assert_eq!(static_rel(Method::Get, "/").unwrap(), "index.html");
    assert_eq!(static_rel(Method::Head, "//a/b.css").unwrap(), "a/b.css");
    assert!(matches!(static_rel(Method::Post, "/x"), Err(ServeError::Parse)));
    assert_eq!(static_ttl("text/html; charset=utf-8"), 5_000);
    assert_eq!(static_ttl("text/css; charset=utf-8"), 60_000);
    assert_eq!(static_ttl("text/htm"), 60_000);
}

#[test]
fn open_file_table_finds_what_it_cached() {
    let mut t: FdLru<u32> = FdLru::new();
    assert_eq!(t.lookup("/srv/a"), None);
    let i = t.insert("/srv/a".to_string(), 7, 1000);
    assert_eq!(*t.value(i), 7);
    let j = t.lookup("/srv/a").unwrap();
    assert_eq!(*t.value(j), 7);
    assert_eq!(t.len_at(j), 1000);
    // same path again replaces the entry
    let k = t.insert("/srv/a".to_string(), 8, 2000);
    assert_eq!(t.count(), 1);
    assert_eq!(*t.value(k), 8);
}

#[test]
fn open_file_table_drops_the_least_recently_used() {
    let mut t: FdLru<usize> = FdLru::new();
    for n in 0..FD_CACHE_MAX {
        t.insert(format!("/f{n}"), n, 1);
    }
    assert_eq!(t.count(), FD_CACHE_MAX);
    // touch /f0 so /f1 becomes the stalest
    assert!(t.lookup("/f0").is_some());
    let i = t.insert("/new".to_string(), 999, 1);
    assert_eq!(t.count(), FD_CACHE_MAX);
    assert_eq!(*t.value(i), 999);
    assert!(t.lookup("/f0").is_some());
    assert!(t.lookup("/f1").is_none());
    assert!(t.lookup("/f2").is_some());
}

#[test]
fn fd_cache_stays_bounded() {
    let mut t: FdLru<usize> = FdLru::new();
    for i in 0..(FD_CACHE_MAX * 2) {
        let name = format!("/f{i}.bin");
        assert!(t.lookup(&name).is_none());
        let at = t.insert(name, i, 131072);
        assert_eq!(*t.value(at), i);
    }
    assert!(t.count() <= FD_CACHE_MAX, "fd LRU exceeded its cap: {}", t.count());
}
