use atomos_core::bytes::{bytes_eq, eq_ignore_case, to_lower};
use atomos_core::method::Method;
use atomos_core::num::{push_dec, push_hex};
use atomos_core::jail::path_parent_for_rule;

#[test]
fn method_names_round_trip() {
    for m in [
        Method::Get,
        Method::Head,
        Method::Post,
        Method::Put,
        Method::Delete,
        Method::Patch,
        Method::Options,
        Method::Connect,
        Method::Trace,
    ] {
        assert_eq!(Method::parse(m.as_str()), Some(m));
        assert_eq!(m.bit().count_ones(), 1);
    }
    assert_eq!(Method::parse("get"), None);
    assert_eq!(Method::parse_bytes(b"PATCH"), Some(Method::Patch));
    assert_ne!(Method::Get.bit(), Method::Post.bit());
}

#[test]
fn byte_helpers() {
    assert_eq!(to_lower(b'A'), b'a');
    assert_eq!(to_lower(b'1'), b'1');
    assert!(eq_ignore_case(b"Content-Length", b"content-length"));
    assert!(!eq_ignore_case(b"abc", b"abd"));
    assert!(bytes_eq(b"x", b"x"));
    assert!(!bytes_eq(b"x", b"xy"));
}

#[test]
fn decimal_and_hex_digits() {
    let mut v = Vec::new();
    push_dec(&mut v, 0);
    push_dec(&mut v, 1234567890123);
    assert_eq!(v, b"01234567890123");
    let mut h = Vec::new();
    push_hex(&mut h, 0);
    push_hex(&mut h, 0xbeef);
    assert_eq!(h, b"0beef");
}

#[test]
fn landlock_rule_directories() {
    assert_eq!(path_parent_for_rule("/run/user/1/atomos.sock"), Some("/run/user/1".to_string()));
    assert_eq!(path_parent_for_rule("rules.json"), Some(".".to_string()));
    assert_eq!(path_parent_for_rule("/"), None);
}
