use atomos_core::net::epoll::{out_after_write, FlushStep};
use atomos_core::net::epoll::{range_after_send, FileRange, SendStep};
use atomos_core::net::epoll::append_within;
use atomos_core::net::epoll::{idle_verdict, IdleBudgets, IdleVerdict};
use atomos_core::net::epoll::drain_done;
use atomos_core::error::ServeError;
use atomos_core::io::{CacheDirective, Out, OutBody};
use atomos_core::method::Method;
use atomos_core::net::access_log;
use atomos_core::net::encode::{append_chunk, append_chunk_end, encode_head, encode_response, is_chunked};
use atomos_core::net::engine::EngineKind;
use atomos_core::net::epoll::{
    append_bounded, append_in_cap, buf_capacity_for, copy_into_out, out_max, park_out, IN_CAP, OUT_CAP, SF_MIN,
};
use atomos_core::net::h1::{compact, h1_step, BodyKind, H1Step};
use atomos_core::net::parse::{
    decode_chunked_into, find_header_end, host_without_port, looks_like_json, measure_chunked, normalize_target,
    parse_request, parse_request_owned, scan_json, ParseStatus, Parsed,
};
use atomos_core::net::pin::cpu_for_worker;
use atomos_core::net::frame::{frame_step, over_budget, FrameStep};
use atomos_core::net::detect::looks_like_h1;
use atomos_core::net::proto::{hop_by_hop, raw_header_bytes};
use atomos_core::status::Status;

fn complete(raw: &[u8]) -> Parsed {
    match parse_request(raw, 16384).unwrap() {
        ParseStatus::Complete(p) => p,
        ParseStatus::Partial => panic!("expected complete"),
    }
}

fn err(raw: &[u8]) {
    assert!(
        matches!(parse_request(raw, 16384), Err(ServeError::Parse)),
        "expected parse error for {:?}",
        std::str::from_utf8(raw)
    );
}

#[test]
fn rejects_deep_array() {
    let s = vec![b'['; 40];
    assert!(matches!(scan_json(&s, 32), Err(ServeError::JsonDepth)));
}

#[test]
fn accepts_object_depth_2() {
    assert!(scan_json(br#"{"a":{"b":1}}"#, 32).is_ok());
}

#[test]
fn json_scan_edges() {
    assert!(matches!(scan_json(b"   ", 32), Err(ServeError::JsonInvalid)));
    assert!(matches!(scan_json(b"{\"a\":1", 32), Err(ServeError::JsonInvalid)));
    assert!(matches!(scan_json(b"]", 32), Err(ServeError::JsonInvalid)));
    assert!(scan_json(br#"{"a":"}}]]"}"#, 32).is_ok());
    assert!(scan_json(br#"["\"["]"#, 1).is_ok());
    assert!(matches!(scan_json(b"[[]]", 1), Err(ServeError::JsonDepth)));
    assert!(looks_like_json(b"  {"));
    assert!(looks_like_json(b"\n["));
    assert!(!looks_like_json(b"x{"));
    assert!(!looks_like_json(b""));
}

#[test]
fn parses_get_path() {
    let raw = b"GET /ai.txt HTTP/1.1\r\nHost: x\r\n\r\n";
    let (m, path, _, _, _, _, _) = parse_request_owned(raw, 16384).unwrap();
    assert_eq!(path, "/ai.txt");
    assert_eq!(m, Method::Get);
}

#[test]
fn borrowed_parse_points_into_buf() {
    let raw = b"GET /api/health HTTP/1.1\r\nHost: x\r\n\r\n";
    let p = complete(raw);
    assert_eq!(p.path, "/api/health");
    assert_eq!(p.method, Method::Get);
    assert!(p.keepalive);
    assert_eq!(p.content_length, 0);
    assert_eq!(p.wire_end, p.header_end);
}

#[test]
fn cl_te_both() {
    err(b"POST / HTTP/1.1\r\nHost: x\r\nContent-Length: 4\r\nTransfer-Encoding: chunked\r\n\r\nWAIT");
}

#[test]
fn duplicate_cl() {
    err(b"POST / HTTP/1.1\r\nHost: x\r\nContent-Length: 4\r\nContent-Length: 4\r\n\r\nWAIT");
}

#[test]
fn te_chunked_junk() {
    err(b"POST / HTTP/1.1\r\nHost: x\r\nTransfer-Encoding: chunked, identity\r\n\r\n0\r\n\r\n");
}

#[test]
fn obs_fold() {
    err(b"GET / HTTP/1.1\r\nHost: x\r\nX-Foo:\r\n bar\r\n\r\n");
}

#[test]
fn abs_uri_path_is_origin() {
    let p = complete(b"GET http://evil/admin HTTP/1.1\r\nHost: evil\r\n\r\n");
    assert_eq!(p.path, "/admin");
    let p = complete(b"GET http://127.0.0.1/ HTTP/1.1\r\nHost: 127.0.0.1\r\nConnection: close\r\n\r\n");
    assert_eq!(p.path, "/");
    assert!(!p.keepalive);
}

#[test]
fn host_mismatch() {
    err(b"GET http://evil/admin HTTP/1.1\r\nHost: good\r\n\r\n");
}

#[test]
fn tab_in_name() {
    err(b"GET / HTTP/1.1\r\nHost: x\r\nX-Foo\tBar: 1\r\n\r\n");
}

#[test]
fn chunk_ext_smuggle() {
    err(b"POST / HTTP/1.1\r\nHost: x\r\nTransfer-Encoding: chunked\r\n\r\n4;\nGET / HTTP/1.1\r\n\r\n0\r\n\r\n");
}

#[test]
fn chunked_ok() {
    let p = complete(b"POST / HTTP/1.1\r\nHost: x\r\nTransfer-Encoding: chunked\r\n\r\n4\r\nWAIT\r\n0\r\n\r\n");
    assert!(p.chunked);
    assert_eq!(p.content_length, 4);
    let mut body = Vec::new();
    decode_chunked_into(b"4\r\nWAIT\r\n0\r\n\r\n", &mut body).ok();
    assert_eq!(&body, b"WAIT");
}

#[test]
fn upgrade_flag() {
    let p = complete(b"GET / HTTP/1.1\r\nHost: x\r\nConnection: Upgrade\r\nUpgrade: websocket\r\n\r\n");
    assert!(p.upgrade);
}

#[test]
fn partial_headers_are_partial() {
    let raw = b"GET / HTTP/1.1\r\nHost: x\r\n";
    match parse_request(raw, 16384).unwrap() {
        ParseStatus::Partial => {}
        ParseStatus::Complete(_) => panic!("expected partial"),
    }
}

#[test]
fn cl_plus_te_is_error() {
    let raw = b"POST / HTTP/1.1\r\nHost: x\r\nContent-Length: 4\r\nTransfer-Encoding: chunked\r\n\r\nWAIT";
    assert!(matches!(parse_request(raw, 16384), Err(ServeError::Parse)));
}

#[test]
fn http11_missing_host_is_error() {
    err(b"GET / HTTP/1.1\r\n\r\n");
}

#[test]
fn http10_no_host_is_ok() {
    let p = complete(b"GET / HTTP/1.0\r\n\r\n");
    assert_eq!(p.path, "/");
    assert!(!p.keepalive);
}

#[test]
fn cl_non_numeric_is_error() {
    err(b"POST / HTTP/1.1\r\nHost: x\r\nContent-Length: abc\r\n\r\n");
}

#[test]
fn cl_negative_is_error() {
    err(b"POST / HTTP/1.1\r\nHost: x\r\nContent-Length: -1\r\n\r\n");
}

#[test]
fn te_gzip_chunked_is_error() {
    err(b"POST / HTTP/1.1\r\nHost: x\r\nTransfer-Encoding: gzip, chunked\r\n\r\n0\r\n\r\n");
}

#[test]
fn header_line_over_max_is_error() {
    let mut raw = b"GET / HTTP/1.1\r\nHost: x\r\nX: ".to_vec();
    raw.extend(std::iter::repeat_n(b'a', 100));
    raw.extend_from_slice(b"\r\n\r\n");
    assert!(matches!(parse_request(&raw, 64), Err(ServeError::Parse)));
}

#[test]
fn content_length_body_and_query() {
    let p = complete(b"POST /a/b?x=1&y=2 HTTP/1.1\r\nHost: x\r\nContent-Length: 3\r\n\r\nabc");
    assert_eq!(p.path, "/a/b");
    assert_eq!(p.query, "x=1&y=2");
    assert_eq!(p.content_length, 3);
    assert_eq!(p.wire_end, p.header_end + 3);
    assert!(!p.chunked);
    assert_eq!(p.headers.len(), 2);
    assert_eq!(p.headers[1].0, "Content-Length");
    assert_eq!(p.headers[1].1, "3");
}

#[test]
fn header_end_and_target_helpers() {
    assert_eq!(find_header_end(b"GET / HTTP/1.1\r\n\r\nrest"), Some(18));
    assert_eq!(find_header_end(b"GET / HTTP/1.1\r\n"), None);
    assert_eq!(host_without_port("example.com:8080"), "example.com");
    assert_eq!(host_without_port("[::1]:80"), "::1");
    assert_eq!(host_without_port("plain"), "plain");
    let (p, q, h) = normalize_target(Method::Get, "/x?y").unwrap();
    assert_eq!((p.as_str(), q.as_str(), h), ("/x", "y", None));
    let (p, _, h) = normalize_target(Method::Get, "https://h:1").unwrap();
    assert_eq!(p, "/");
    assert_eq!(h.as_deref(), Some("h"));
    assert!(matches!(normalize_target(Method::Get, ""), Err(ServeError::Parse)));
    assert!(matches!(normalize_target(Method::Get, "relative"), Err(ServeError::Parse)));
}

#[test]
fn measure_chunked_cases() {
    assert_eq!(measure_chunked(b"4\r\nWAIT\r\n0\r\n\r\n").unwrap(), Some((4, 14)));
    assert_eq!(measure_chunked(b"4\r\nWA").unwrap(), None);
    assert_eq!(measure_chunked(b"A\r\n0123456789\r\n0\r\n\r\nnext").unwrap(), Some((10, 20)));
    assert!(matches!(measure_chunked(b"zz\r\n"), Err(ServeError::Parse)));
    assert!(matches!(measure_chunked(b"4\r\nWAITxx0\r\n\r\n"), Err(ServeError::Parse)));
}

#[test]
fn chunked_encoding_reads_back() {
    let mut b = Vec::new();
    append_chunk(&mut b, b"hello");
    append_chunk(&mut b, &[7u8; 17]);
    append_chunk_end(&mut b);
    assert!(b.starts_with(b"5\r\nhello\r\n11\r\n"));
    assert_eq!(measure_chunked(&b).unwrap(), Some((22, b.len())));
    let mut d = Vec::new();
    assert_eq!(decode_chunked_into(&b, &mut d).unwrap(), b.len());
    let mut want = b"hello".to_vec();
    want.extend_from_slice(&[7u8; 17]);
    assert_eq!(d, want);
}

fn json_out() -> Out {
    Out {
        status: Status::from_u16(200),
        reason: None,
        headers: vec![("Content-Type".into(), "application/json".into())],
        body: OutBody::Json(br#"{"ok":true}"#.to_vec()),
        cache: CacheDirective::No,
    }
}

#[test]
fn encode_one_buffer_has_length_and_body() {
    let out = json_out();
    let mut b = Vec::new();
    encode_response(&out, &mut b);
    let s = std::str::from_utf8(&b).unwrap();
    assert!(s.starts_with("HTTP/1.1 200 OK\r\n"), "{s}");
    assert!(s.contains("Content-Length: 11\r\n"), "{s}");
    assert!(b.ends_with(br#"{"ok":true}"#), "{s}");
    assert_eq!(s.matches("\r\n\r\n").count(), 1);
}

#[test]
fn encode_head_omits_body_keeps_length() {
    let out = Out {
        status: Status::from_u16(200),
        reason: None,
        headers: vec![("Content-Type".into(), "text/plain".into())],
        body: OutBody::Raw(b"hello".to_vec()),
        cache: CacheDirective::No,
    };
    let mut b = Vec::new();
    encode_head(&out, &mut b);
    let s = std::str::from_utf8(&b).unwrap();
    assert!(s.contains("Content-Length: 5\r\n"), "{s}");
    assert!(!s.contains("hello"), "{s}");
}

#[test]
fn encode_uses_reason_and_stream_is_chunked() {
    let mut out = Out::empty(Status::from_u16(599));
    out.reason = Some("Custom".to_string());
    let mut b = Vec::new();
    encode_response(&out, &mut b);
    assert!(b.starts_with(b"HTTP/1.1 599 Custom\r\n"));
    assert!(!is_chunked(&out));
    let s = Out { body: OutBody::Stream, ..Out::empty(Status::from_u16(200)) };
    assert!(is_chunked(&s));
    let mut b = Vec::new();
    encode_response(&s, &mut b);
    let t = std::str::from_utf8(&b).unwrap();
    assert!(t.contains("Transfer-Encoding: chunked\r\n"), "{t}");
}

#[test]
fn line_contains_path_and_status() {
    let mut dst = Vec::new();
    access_log::line(Method::Get, "/metrics", 200, 12, &mut dst);
    let s = std::str::from_utf8(&dst).unwrap();
    assert!(s.contains("/metrics"), "{s}");
    assert!(s.contains("200"), "{s}");
    assert!(s.starts_with("GET "), "{s}");
}

#[test]
fn log_line_exact_and_path_cut() {
    let mut dst = b"x".to_vec();
    access_log::line(Method::Post, "/a", 404, 0, &mut dst);
    assert_eq!(dst, b"xPOST /a 404 0\n");
    let long = "/".repeat(3000);
    let mut d = Vec::new();
    access_log::line(Method::Get, &long, 200, 7, &mut d);
    assert_eq!(d.len(), 4 + 2048 + 1 + 3 + 1 + 1 + 1);
}

#[test]
fn default_kind_is_epoll() {
    assert_eq!(EngineKind::default(), EngineKind::Epoll);
}

#[test]
fn engine_names_round_trip() {
    for k in [EngineKind::Epoll, EngineKind::Tokio, EngineKind::Xdp] {
        assert_eq!(EngineKind::parse(k.as_str()), Some(k));
    }
    assert_eq!(EngineKind::parse("af-xdp"), Some(EngineKind::Xdp));
    assert_eq!(EngineKind::parse("Epoll"), None);
}

#[test]
fn buf_capacity_covers_header_and_body() {
    assert_eq!(buf_capacity_for(16, 32), 48);
    assert_eq!(buf_capacity_for(usize::MAX, 1), usize::MAX);
}

#[test]
fn append_in_cap_does_not_grow() {
    let mut b = Vec::with_capacity(16);
    assert!(append_in_cap(&mut b, b"hello"));
    assert_eq!(b.capacity(), 16);
    assert_eq!(&b, b"hello");
    assert!(!append_in_cap(&mut b, &[0u8; 32]));
    assert_eq!(b.capacity(), 16);
    assert_eq!(&b, b"hello");
}

#[test]
fn copy_into_out_does_not_grow() {
    let mut out = Vec::with_capacity(8);
    assert!(copy_into_out(&mut out, b"abcd"));
    assert_eq!(out.capacity(), 8);
    assert!(!copy_into_out(&mut out, b"12345"));
    assert_eq!(out.capacity(), 8);
    assert_eq!(&out, b"abcd");
}

#[test]
fn append_bounded_respects_max() {
    let mut b = b"ab".to_vec();
    assert!(append_bounded(&mut b, b"cd", 4));
    assert!(!append_bounded(&mut b, b"e", 4));
    assert_eq!(b, b"abcd");
}

#[test]
fn encode_scratch_fits_small_json_without_grow() {
    let out = json_out();
    let mut enc = Vec::with_capacity(OUT_CAP);
    let cap = enc.capacity();
    encode_response(&out, &mut enc);
    assert_eq!(enc.capacity(), cap);
    assert!(!enc.is_empty());
    assert!(enc.len() <= OUT_CAP);
}

#[test]
fn out_max_covers_byte_path_file() {
    assert_eq!(out_max(), SF_MIN as usize + OUT_CAP);
    assert!(out_max() > 64 * 1024);
}

#[test]
fn accept_reserve_is_4k() {
    assert_eq!(IN_CAP, 4096);
    assert!(IN_CAP < 16 * 1024);
}

#[test]
fn compact_drops_consumed_prefix() {
    let mut b = b"abcdef".to_vec();
    compact(&mut b, 2);
    assert_eq!(b, b"cdef");
    compact(&mut b, 10);
    assert!(b.is_empty());
}

#[test]
fn h1_step_walks_a_connection() {
    match h1_step(b"", 64, 16, 8) {
        H1Step::NeedMore { idle, eof_is_error } => assert!(idle && !eof_is_error),
        _ => panic!("empty buffer waits"),
    }
    match h1_step(b"GET / HTTP/1.1\r\n", 64, 16, 8) {
        H1Step::NeedMore { idle, eof_is_error } => assert!(!idle && !eof_is_error),
        _ => panic!("partial head waits"),
    }
    match h1_step(&[b'a'; 80], 64, 16, 8) {
        H1Step::Fail { status, detail } => assert_eq!((status, detail.as_str()), (400, "parse")),
        _ => panic!("oversized head fails"),
    }
    let slow = b"POST / HTTP/1.1\r\nHost: x\r\nTransfer-Encoding: chunked\r\n\r\n10\r\n0123456789";
    match h1_step(slow, 64, 16, 8) {
        H1Step::Fail { status, detail } => assert_eq!((status, detail.as_str()), (400, "headers")),
        _ => panic!("a partial request past the header limit fails"),
    }
    match h1_step(b"BREW / HTTP/1.1\r\nHost: x\r\n\r\n", 64, 16, 8) {
        H1Step::Fail { status, detail } => assert_eq!((status, detail.as_str()), (400, "parse")),
        _ => panic!("unknown method fails"),
    }
    let big = b"POST / HTTP/1.1\r\nHost: x\r\nContent-Length: 17\r\n\r\n";
    match h1_step(big, 64, 16, 8) {
        H1Step::Fail { status, detail } => assert_eq!((status, detail.as_str()), (413, "body")),
        _ => panic!("large body fails"),
    }
    let short = b"POST / HTTP/1.1\r\nHost: x\r\nContent-Length: 4\r\n\r\nab";
    match h1_step(short, 64, 16, 8) {
        H1Step::NeedMore { idle, eof_is_error } => assert!(!idle && eof_is_error),
        _ => panic!("short body waits"),
    }
    let bad = b"POST / HTTP/1.1\r\nHost: x\r\nContent-Length: 4\r\n\r\n[[[[";
    match h1_step(bad, 64, 16, 2) {
        H1Step::BadJson { err, used, keepalive } => {
            assert!(matches!(err, ServeError::JsonDepth));
            assert_eq!(used, bad.len());
            assert!(keepalive);
        }
        _ => panic!("deep JSON is refused"),
    }
    let ok = b"POST /j HTTP/1.1\r\nHost: x\r\nContent-Length: 2\r\n\r\n{}GET";
    match h1_step(ok, 64, 16, 2) {
        H1Step::Serve { req, used, body, keepalive } => {
            assert_eq!(req.path, "/j");
            assert_eq!(used, ok.len() - 3);
            assert_eq!(body, BodyKind::Json);
            assert!(keepalive);
        }
        _ => panic!("complete request is served"),
    }
    let raw = b"POST / HTTP/1.0\r\nContent-Length: 2\r\n\r\nhi";
    match h1_step(raw, 64, 16, 2) {
        H1Step::Serve { body, keepalive, .. } => {
            assert_eq!(body, BodyKind::Raw);
            assert!(!keepalive);
        }
        _ => panic!("raw body is served"),
    }
    match h1_step(b"GET / HTTP/1.1\r\nHost: x\r\n\r\n", 64, 16, 2) {
        H1Step::Serve { body, .. } => assert_eq!(body, BodyKind::Empty),
        _ => panic!("empty body is served"),
    }
}

#[test]
fn workers_map_to_distinct_physical_cores() {
    let phys = [0usize, 2, 4, 6];
    assert_ne!(cpu_for_worker(0, &phys, 8), cpu_for_worker(1, &phys, 8));
    assert_eq!(cpu_for_worker(0, &phys, 8), phys[0]);
    assert_eq!(cpu_for_worker(1, &phys, 8), phys[1]);
    assert_eq!(cpu_for_worker(5, &phys, 8), 5);
    assert_eq!(cpu_for_worker(9, &phys, 8), 1);
}

#[test]
fn h1_detection_and_hop_headers() {
    assert!(looks_like_h1(b"GET / HTTP/1.1\r\n"));
    assert!(!looks_like_h1(b"PRI * HTTP/2.0\r\n"));
    assert!(hop_by_hop("Connection"));
    assert!(hop_by_hop("transfer-encoding"));
    assert!(!hop_by_hop("Content-Type"));
}

#[test]
fn epoll_frame_steps() {
    assert!(matches!(frame_step(b"GET / HTTP/1.1\r\n", 64, 16, 8, false), FrameStep::Wait { keep: true }));
    assert!(matches!(frame_step(b"GET / HTTP/1.1\r\n", 64, 16, 8, true), FrameStep::Wait { keep: false }));
    assert!(matches!(frame_step(b"BREW / HTTP/1.1\r\nHost: x\r\n\r\n", 64, 16, 8, false), FrameStep::Reply { status: 400 }));
    let big = b"POST / HTTP/1.1\r\nHost: x\r\nContent-Length: 17\r\n\r\n";
    assert!(matches!(frame_step(big, 64, 16, 8, false), FrameStep::Reply { status: 413 }));
    let short = b"POST / HTTP/1.1\r\nHost: x\r\nContent-Length: 4\r\n\r\nab";
    assert!(matches!(frame_step(short, 64, 16, 8, false), FrameStep::Wait { keep: true }));
    let up = b"GET / HTTP/1.1\r\nHost: x\r\nConnection: Upgrade\r\nUpgrade: websocket\r\n\r\n";
    assert!(matches!(frame_step(up, 128, 16, 8, false), FrameStep::Reply { status: 426 }));
    let deep = b"POST / HTTP/1.1\r\nHost: x\r\nContent-Length: 4\r\n\r\n[[[[";
    assert!(matches!(frame_step(deep, 64, 16, 2, false), FrameStep::Reply { status: 400 }));
    let chunked = b"POST /c HTTP/1.1\r\nHost: x\r\nTransfer-Encoding: chunked\r\n\r\n4\r\nWAIT\r\n0\r\n\r\nNEXT";
    match frame_step(chunked, 128, 16, 8, false) {
        FrameStep::Serve { req, used, body, kind, head, keepalive } => {
            assert_eq!(req.path, "/c");
            assert_eq!(used, chunked.len() - 4);
            assert_eq!(body, b"WAIT");
            assert_eq!(kind, BodyKind::Raw);
            assert!(!head && keepalive);
        }
        _ => panic!("chunked request is served"),
    }
    match frame_step(b"HEAD / HTTP/1.1\r\nHost: x\r\n\r\n", 64, 16, 8, false) {
        FrameStep::Serve { kind, head, .. } => {
            assert_eq!(kind, BodyKind::Empty);
            assert!(head);
        }
        _ => panic!("head request is served"),
    }
    assert!(over_budget(2, 1));
    assert!(!over_budget(1, 0));
    assert!(over_budget(2, 0));
    assert!(!over_budget(5, 5));
}

#[test]
fn h2_head_size_counts_framing() {
    assert_eq!(raw_header_bytes(3, 1, &[]), 4);
    assert_eq!(raw_header_bytes(3, 5, &[(4, 9), (6, 3)]), 3 + 5 + (4 + 9 + 4) + (6 + 3 + 4));
}

#[test]
fn park_out_grows_up_to_out_max() {
    let mut out = Vec::with_capacity(4);
    assert!(park_out(&mut out, b"abcdefgh"));
    assert_eq!(out, b"abcdefgh");
    let big = vec![0u8; out_max()];
    assert!(!park_out(&mut out, &big));
    assert_eq!(out, b"abcdefgh");
}

#[test]
fn partial_writes_keep_the_tail() {
    assert_eq!(out_after_write(0, 10, 4), FlushStep::Again(4));
    assert_eq!(out_after_write(4, 10, 6), FlushStep::Drained);
    assert_eq!(out_after_write(4, 10, 0), FlushStep::WriteZero);
}

#[test]
fn sendfile_ranges_advance_to_their_end() {
    let r = FileRange { offset: 100, len: 50 };
    assert_eq!(range_after_send(r, 20), SendStep::Rest(FileRange { offset: 120, len: 30 }));
    assert_eq!(range_after_send(FileRange { offset: 120, len: 30 }, 30), SendStep::Done);
    assert_eq!(range_after_send(r, 0), SendStep::Shrunk);
}

#[test]
fn outbound_parking_is_bounded() {
    let mut b = vec![1u8, 2];
    assert!(append_within(&mut b, &[3], 3));
    assert_eq!(b, vec![1, 2, 3]);
    assert!(!append_within(&mut b, &[4], 3));
    assert_eq!(b, vec![1, 2, 3]);
    let mut out = Vec::new();
    assert!(park_out(&mut out, &[9u8; 16]));
    assert_eq!(out.len(), 16);
    let big = vec![0u8; out_max()];
    assert!(!park_out(&mut out, &big));
    assert_eq!(out.len(), 16);
}

#[test]
fn idle_sweep_times_out_bodies_and_drops_the_rest() {
    let b = IdleBudgets { header_ms: 100, body_ms: 500, idle_ms: 1000 };
    // fresh connection, no bytes: header budget
    assert_eq!(idle_verdict(false, false, false, 100, None, b), IdleVerdict::Keep);
    assert_eq!(idle_verdict(false, false, false, 101, None, b), IdleVerdict::Close);
    // keep-alive after a served request: idle budget
    assert_eq!(idle_verdict(false, false, true, 900, None, b), IdleVerdict::Keep);
    // incomplete header: counted from its first byte
    assert_eq!(idle_verdict(true, false, true, 0, Some(150), b), IdleVerdict::Close);
    // complete header, slow body: 408
    assert_eq!(idle_verdict(true, true, true, 501, Some(0), b), IdleVerdict::TimeOut);
    // a zero budget still allows one millisecond
    let z = IdleBudgets { header_ms: 0, body_ms: 0, idle_ms: 0 };
    assert_eq!(idle_verdict(false, false, false, 1, None, z), IdleVerdict::Keep);
}

#[test]
fn draining_stops_when_empty_or_expired() {
    assert!(drain_done(0, 5000, true));
    assert!(!drain_done(4999, 5000, false));
    assert!(drain_done(5000, 5000, false));
    assert!(drain_done(1, 0, false));
}

#[test]
fn streamed_bodies_stop_at_the_limit() {
    assert!(matches!(atomos_core::net::proto::feed_chunk(10, 5, 15), Ok(15)));
    assert!(matches!(atomos_core::net::proto::feed_chunk(10, 6, 15), Err(ServeError::BodyTooLarge)));
    assert!(matches!(atomos_core::net::proto::feed_chunk(usize::MAX, 1, usize::MAX), Err(ServeError::BodyTooLarge)));
}

#[test]
fn buffered_requests_pass_the_gate_in_order() {
    let g = atomos_core::net::proto::gate_parts;
    assert!(matches!(g(false, b"{}", 10, 8), atomos_core::net::proto::PartsGate::Busy));
    assert!(matches!(g(true, b"0123456789x", 10, 8), atomos_core::net::proto::PartsGate::TooLarge));
    assert!(matches!(g(true, b" {\"a\":", 10, 8), atomos_core::net::proto::PartsGate::BadJson(ServeError::JsonInvalid)));
    assert!(matches!(g(true, b"[[[]]]", 10, 2), atomos_core::net::proto::PartsGate::BadJson(ServeError::JsonDepth)));
    assert!(matches!(g(true, b"{}", 10, 8), atomos_core::net::proto::PartsGate::Pass(BodyKind::Json)));
    assert!(matches!(g(true, b"", 10, 8), atomos_core::net::proto::PartsGate::Pass(BodyKind::Empty)));
    assert!(matches!(g(true, b"hi", 10, 8), atomos_core::net::proto::PartsGate::Pass(BodyKind::Raw)));
}

#[test]
fn hop_by_hop_headers_do_not_cross_protocols() {
    let hs = vec![
        ("Content-Type".to_string(), "text/plain".to_string()),
        ("Connection".to_string(), "keep-alive".to_string()),
        ("TRANSFER-ENCODING".to_string(), "chunked".to_string()),
        ("X-A".to_string(), "1".to_string()),
        ("upgrade".to_string(), "h2c".to_string()),
        ("Keep-Alive".to_string(), "5".to_string()),
        ("Proxy-Connection".to_string(), "x".to_string()),
    ];
    assert_eq!(
        atomos_core::net::proto::forwarded_headers(&hs),
        vec![("Content-Type".to_string(), "text/plain".to_string()), ("X-A".to_string(), "1".to_string())]
    );
}

#[test]
fn cache_answers_only_bodiless_hits() {
    let a = atomos_core::net::frame::cache_answer;
    assert_eq!(a(5, true, false, false, true), atomos_core::net::frame::CacheAnswer::Dispatch);
    assert_eq!(a(0, false, false, false, false), atomos_core::net::frame::CacheAnswer::Dispatch);
    assert_eq!(a(0, true, true, true, true), atomos_core::net::frame::CacheAnswer::NotModified);
    assert_eq!(a(0, true, false, true, true), atomos_core::net::frame::CacheAnswer::HeadOf);
    assert_eq!(a(0, true, false, false, true), atomos_core::net::frame::CacheAnswer::Wire);
    assert_eq!(a(0, true, false, false, false), atomos_core::net::frame::CacheAnswer::Dispatch);
}

#[test]
fn refused_ports_are_not_bound() {
    let p = atomos_core::net::listen::listen_plan;
    match p(8080, &vec![22, 8080], true, 4) {
        Err(ServeError::Config(m)) => assert_eq!(m, "bind port 8080 is in refuse_ports"),
        _ => panic!("refused port"),
    }
    assert!(matches!(p(8080, &vec![22], true, 4), Ok(4)));
    assert!(matches!(p(8080, &vec![], true, 0), Ok(1)));
    assert!(matches!(p(8080, &vec![], false, 4), Ok(1)));
}
