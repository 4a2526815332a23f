use atomos_core::config::MemoryMode;
use atomos_core::governor::Governor;
use atomos_core::mime::from_path;
use atomos_core::status::Status;
use atomos_core::plugin::{capacity_to_504, check_manifest, PluginKind, PluginManifest};
use atomos_core::error::ServeError;
use atomos_core::io::OutBody;

/// A resident size any running process has (one page).
const ONE_PAGE: u64 = 4096;

#[test]
fn tiny_cap_is_over() {
    let g = Governor { cap: 1, mode: MemoryMode::Hard };
    assert!(g.over_mem(ONE_PAGE));
    assert!(g.hard_block(ONE_PAGE));
}

#[test]
fn degrade_mode_never_blocks() {
    let g = Governor { cap: 1, mode: MemoryMode::Degrade };
    assert!(g.over_mem(ONE_PAGE));
    assert!(!g.hard_block(ONE_PAGE));
    let g = Governor { cap: 1 << 40, mode: MemoryMode::Hard };
    assert!(!g.over_mem(ONE_PAGE));
    assert!(!g.hard_block(ONE_PAGE));
    assert!(!g.over_mem(1 << 40));
    assert!(g.over_mem((1 << 40) + 1));
}

#[test]
fn html_mime() {
    assert_eq!(from_path("/index.html"), "text/html; charset=utf-8");
}

#[test]
fn unknown_ext_is_octet() {
    assert_eq!(from_path("/x.unknownext"), "application/octet-stream");
}

#[test]
fn json_mime() {
    assert_eq!(from_path("/a.json"), "application/json");
}

#[test]
fn table() {
    let pairs = [
        ("a.htm", "text/html; charset=utf-8"),
        ("a.css", "text/css; charset=utf-8"),
        ("a.js", "text/javascript; charset=utf-8"),
        ("a.mjs", "text/javascript; charset=utf-8"),
        ("a.txt", "text/plain; charset=utf-8"),
        ("a.md", "text/markdown; charset=utf-8"),
        ("a.xml", "application/xml"),
        ("a.csv", "text/csv; charset=utf-8"),
        ("a.png", "image/png"),
        ("a.jpg", "image/jpeg"),
        ("a.jpeg", "image/jpeg"),
        ("a.gif", "image/gif"),
        ("a.svg", "image/svg+xml"),
        ("a.webp", "image/webp"),
        ("a.ico", "image/x-icon"),
        ("a.bmp", "image/bmp"),
        ("a.avif", "image/avif"),
        ("a.mp3", "audio/mpeg"),
        ("a.wav", "audio/wav"),
        ("a.ogg", "audio/ogg"),
        ("a.mp4", "video/mp4"),
        ("a.webm", "video/webm"),
        ("a.wasm", "application/wasm"),
        ("a.woff", "font/woff"),
        ("a.woff2", "font/woff2"),
        ("a.ttf", "font/ttf"),
        ("a.otf", "font/otf"),
        ("a.pdf", "application/pdf"),
        ("a.zip", "application/zip"),
        ("a.gz", "application/gzip"),
        ("a.tar", "application/x-tar"),
        ("a.bin", "application/octet-stream"),
        ("a.toml", "application/toml"),
        ("a.yaml", "application/yaml"),
        ("a.yml", "application/yaml"),
        ("a.map", "application/json"),
        ("noext", "application/octet-stream"),
        ("a.PNG", "image/png"),
        ("/dir/x.JSON", "application/json"),
    ];
    for (p, want) in pairs {
        assert_eq!(from_path(p), want, "{p}");
    }
}

#[test]
fn mime_edge_cases() {
    // The last dot of the last segment decides; a dot in a directory does not.
    assert_eq!(from_path("/a.d/file"), "application/octet-stream");
    assert_eq!(from_path("/x.tar.gz"), "application/gzip");
    assert_eq!(from_path("/trailing."), "application/octet-stream");
    assert_eq!(from_path("/a.abcdefghijklmnopq"), "application/octet-stream");
    assert_eq!(from_path("/a.h\u{e9}ml"), "application/octet-stream");
    assert_eq!(from_path(""), "application/octet-stream");
}

#[test]
fn phrase_404() {
    assert_eq!(Status::from_u16(404).phrase(), "Not Found");
}

#[test]
fn unknown_status_does_not_panic() {
    assert_eq!(Status::from_u16(599).as_u16(), 599);
    assert_eq!(Status::from_u16(599).phrase(), "Unknown");
}

#[test]
fn every_listed_code_has_nonempty_phrase() {
    const CODES: &[u16] = &[
        100, 101, 102, 103, 200, 201, 202, 203, 204, 205, 206, 207, 208, 226, 300, 301, 302, 303, 304, 305,
        307, 308, 400, 401, 402, 403, 404, 405, 406, 407, 408, 409, 410, 411, 412, 413, 414, 415, 416, 417,
        418, 421, 422, 423, 424, 425, 426, 428, 429, 431, 451, 500, 501, 502, 503, 504, 505, 506, 507, 508,
        510, 511,
    ];
    for &c in CODES {
        let p = Status::from_u16(c).phrase();
        assert!(!p.is_empty(), "{c}");
        assert_ne!(p, "Unknown", "{c}");
    }
}

#[test]
fn status_from_u16_trait_keeps_code() {
    let s: Status = Status::from(418u16);
    assert_eq!(s.as_u16(), 418);
    assert_eq!(s.phrase(), "I'm a teapot");
}

#[test]
fn capacity_maps_to_504() {
    let o = capacity_to_504(ServeError::Capacity).unwrap();
    assert_eq!(o.status.as_u16(), 504);
    assert!(matches!(o.body, OutBody::Empty));
}

#[test]
fn other_plugin_errors_pass_through() {
    let e = capacity_to_504(ServeError::Timeout).unwrap_err();
    assert!(matches!(e, ServeError::Timeout));
    match capacity_to_504(ServeError::Module("boom".to_string())) {
        Err(ServeError::Module(m)) => assert_eq!(m, "boom"),
        _ => panic!("module error must pass through"),
    }
}

fn manifest(name: &str, kind: PluginKind, path: Option<&str>) -> PluginManifest {
    PluginManifest { name: name.to_string(), kind, path: path.map(|p| p.to_string()) }
}

fn config_text(e: ServeError) -> String {
    match e {
        ServeError::Config(m) => m,
        other => panic!("config error expected, got {other:?}"),
    }
}

#[test]
fn native_so_is_refused() {
    let e = check_manifest(&manifest("x", PluginKind::Native, Some("x.so")), false).unwrap_err();
    let s = config_text(e);
    assert!(s.contains("refused"), "{s}");
    assert_eq!(s, "native .so plugin x refused (not a sandbox)");
}

#[test]
fn wasm_kind_without_feature_errors() {
    let e = check_manifest(&manifest("echo", PluginKind::Wasm, Some("echo.wasm")), true).unwrap_err();
    let s = config_text(e);
    assert!(s.contains("host") || s.contains("wasm"), "{s}");
    assert_eq!(s, "wasm plugin echo (echo.wasm): host not linked; compile with a wasmtime backend");
    let e = check_manifest(&manifest("echo", PluginKind::Wasm, None), true).unwrap_err();
    assert!(config_text(e).contains("(?)"));
}

#[test]
fn builtin_plugins_need_a_registered_module() {
    assert_eq!(check_manifest(&manifest("static", PluginKind::Builtin, None), true).unwrap(), "static");
    match check_manifest(&manifest("ghost", PluginKind::Builtin, None), false) {
        Err(ServeError::Module(m)) => assert_eq!(m, "ghost"),
        _ => panic!("unregistered builtin"),
    }
}

#[test]
fn fuel_to_capacity_maps_out_of_fuel() {
    let e = atomos_core::plugin::module_failure(true, "all fuel consumed by WebAssembly".to_string());
    assert!(matches!(e, ServeError::Capacity));
}

#[test]
fn fuel_to_capacity_maps_interrupt() {
    let e = atomos_core::plugin::module_failure(true, "interrupt".to_string());
    assert!(matches!(e, ServeError::Capacity));
}

#[test]
fn fuel_to_capacity_other_trap_is_module() {
    let e = atomos_core::plugin::module_failure(false, "wasm `unreachable` instruction executed".to_string());
    assert!(matches!(e, ServeError::Module(_)));
}

#[test]
fn budget_words_in_a_message_mean_capacity() {
    for m in ["out of fuel", "epoch deadline", "memory grow failed", "table limit", "resource exhausted"] {
        assert!(matches!(atomos_core::plugin::module_failure(false, m.to_string()), ServeError::Capacity), "{m}");
    }
    match atomos_core::plugin::module_failure(false, "boom".to_string()) {
        ServeError::Module(t) => assert_eq!(t, "boom"),
        _ => panic!("plain failure is the module's"),
    }
}

#[test]
fn module_answers_become_responses() {
    let o = atomos_core::plugin::out_from_response(201, vec![("X".to_string(), "1".to_string())], b"hi".to_vec(), 500);
    assert_eq!(o.status.as_u16(), 201);
    assert!(matches!(o.body, OutBody::Raw(ref b) if b == b"hi"));
    assert!(matches!(o.cache, atomos_core::io::CacheDirective::Global { ttl_ms: 500 }));
    assert_eq!(o.headers, vec![("X".to_string(), "1".to_string())]);
    let e = atomos_core::plugin::out_from_response(204, vec![], vec![], 0);
    assert!(matches!(e.body, OutBody::Empty));
    assert!(matches!(e.cache, atomos_core::io::CacheDirective::No));
}
