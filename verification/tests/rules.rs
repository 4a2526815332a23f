use atomos_core::mime::from_path;
use atomos_core::method::Method;
use atomos_core::rules::pattern::{pack_pat, Rule, RuleWire, METHODS_ALL};
use atomos_core::rules::{RuleError, Ruleset};

fn wire(id: &str, module: &str, methods: &[&str], inc: &[&str], exc: &[&str]) -> RuleWire {
    RuleWire {
        id: id.to_string(),
        module: module.to_string(),
        methods: methods.iter().map(|s| s.to_string()).collect(),
        includes: inc.iter().map(|s| s.to_string()).collect(),
        excludes: exc.iter().map(|s| s.to_string()).collect(),
        headers: Vec::new(),
    }
}

fn mk_rule(id: &str, methods: u16, inc: &[&str], exc: &[&str]) -> Rule {
    Rule {
        methods,
        includes: inc.iter().map(|s| pack_pat((*s).to_string())).collect(),
        excludes: exc.iter().map(|s| pack_pat((*s).to_string())).collect(),
        id: id.into(),
        module: id.into(),
        headers: Vec::new(),
    }
}

/// 40 pairwise-disjoint GET prefix rules: `/r{i}/*`.
fn forty_rules() -> Vec<Rule> {
    (0..40).map(|i| mk_rule(&format!("r{i}"), Method::Get.bit(), &[&format!("/r{i}/*")], &[])).collect()
}

#[test]
fn two_star_rules_overlap() {
    let r = Ruleset::from_wire(vec![
        wire("a", "static", &["GET"], &["/*"], &[]),
        wire("b", "api", &["GET"], &["/*"], &[]),
    ]);
    assert!(matches!(r, Err(RuleError::Overlap { .. })));
}

#[test]
fn exclude_makes_disjoint() {
    let r = Ruleset::from_wire(vec![
        wire("s", "static", &["GET"], &["/*"], &["/api/*"]),
        wire("a", "api", &["GET"], &["/api/*"], &[]),
    ])
    .unwrap();
    assert_eq!(&*r.match_path("GET", "/").unwrap().id, "s");
    assert_eq!(&*r.match_path("GET", "/api/search").unwrap().id, "a");
}

#[test]
fn post_does_not_hit_get_only() {
    let r = Ruleset::from_wire(vec![wire("s", "static", &["GET"], &["/*"], &[])]).unwrap();
    assert!(r.match_path("POST", "/").is_none());
}

#[test]
fn prefix_does_not_match_without_slash() {
    let r = Ruleset::from_wire(vec![wire("a", "api", &["GET"], &["/api/*"], &[])]).unwrap();
    assert!(r.match_path("GET", "/api").is_none());
    assert!(r.match_path("GET", "/apix").is_none());
    assert!(r.match_path("GET", "/api/").is_some());
    assert!(r.match_path("GET", "/api/health").is_some());
    assert_eq!(r.match_method(Method::Get, "/api/health").unwrap().id.as_str(), "a");
}

#[test]
fn wire_faults_are_refused() {
    assert!(matches!(
        Ruleset::from_wire(vec![wire("", "m", &["GET"], &["/x"], &[])]),
        Err(RuleError::EmptyId)
    ));
    match Ruleset::from_wire(vec![wire("a", "m", &["GET"], &["/a/**"], &[])]) {
        Err(RuleError::BadPattern(p)) => assert_eq!(p, "/a/**"),
        _ => panic!("double star is refused"),
    }
    match Ruleset::from_wire(vec![wire("a", "m", &["GET"], &["/ok"], &["no-slash"])]) {
        Err(RuleError::BadPattern(p)) => assert_eq!(p, "no-slash"),
        _ => panic!("relative pattern is refused"),
    }
    assert!(matches!(
        Ruleset::from_wire(vec![wire("a", "m", &["GET"], &["/a*b"], &[])]),
        Err(RuleError::BadPattern(_))
    ));
    let many: Vec<RuleWire> = (0..257).map(|i| wire(&format!("r{i}"), "m", &["GET"], &[&format!("/r{i}")], &[])).collect();
    assert!(matches!(Ruleset::from_wire(many), Err(RuleError::TooMany)));
}

#[test]
fn unknown_method_matches_only_all_methods_rules() {
    let r = Ruleset::from_wire(vec![wire("s", "static", &[], &["/*"], &[])]).unwrap();
    assert!(r.match_path("BREW", "/x").is_some());
    assert!(r.match_path("GET", "/x").is_some());
    let r = Ruleset::from_wire(vec![wire("s", "static", &["GET"], &["/*"], &[])]).unwrap();
    assert!(r.match_path("BREW", "/x").is_none());
}

#[test]
fn small_rule_sets_keep_the_linear_scan() {
    let rs = Ruleset::from_rules(vec![
        mk_rule("s", METHODS_ALL, &["/*"], &["/api/*"]),
        mk_rule("a", METHODS_ALL, &["/api/*"], &[]),
    ])
    .unwrap();
    assert!(!rs.trie_active());
}

#[test]
fn large_rule_sets_use_the_automaton() {
    let rs = Ruleset::from_rules(forty_rules()).unwrap();
    assert!(rs.trie_active());
    for i in 0..40 {
        let r = rs.match_method(Method::Get, &format!("/r{i}/x")).unwrap();
        assert_eq!(&*r.id, format!("r{i}"));
    }
    assert!(rs.match_method(Method::Get, "/nope/xyz").is_none());
    assert!(rs.match_method(Method::Get, "/r3").is_none());
    assert!(rs.match_method(Method::Get, "/r3/").is_some());
}

#[test]
fn method_split_patterns_are_disjoint_by_method() {
    let rs = Ruleset::from_rules(vec![
        mk_rule("g", Method::Get.bit(), &["/api/*"], &[]),
        mk_rule("p", Method::Post.bit(), &["/api/*"], &[]),
    ])
    .unwrap();
    let rs_t = Ruleset::from_rules_forced(vec![
        mk_rule("g", Method::Get.bit(), &["/api/*"], &[]),
        mk_rule("p", Method::Post.bit(), &["/api/*"], &[]),
    ])
    .unwrap();
    assert!(rs_t.trie_active());
    for rs in [&rs, &rs_t] {
        assert_eq!(&*rs.match_method(Method::Get, "/api/x").unwrap().id, "g");
        assert_eq!(&*rs.match_method(Method::Post, "/api/x").unwrap().id, "p");
        assert!(rs.match_method(Method::Put, "/api/x").is_none());
    }
}

#[test]
fn prefix_exclude_deeper_than_include_vetoes() {
    let mut rules = forty_rules();
    rules.push(mk_rule("api", Method::Get.bit(), &["/api/*"], &["/api/private/*"]));
    let rs = Ruleset::from_rules_forced(rules).unwrap();
    assert!(rs.trie_active());
    assert_eq!(&*rs.match_method(Method::Get, "/api/public/x").unwrap().id, "api");
    assert!(rs.match_method(Method::Get, "/api/private/x").is_none());
    assert!(rs.match_method(Method::Get, "/api/private").is_some());
}

#[test]
fn exact_exclude_fires_only_at_path_end() {
    let mut rules = forty_rules();
    rules.push(mk_rule("api", Method::Get.bit(), &["/api/*"], &["/api/x"]));
    let rs = Ruleset::from_rules_forced(rules).unwrap();
    assert_eq!(&*rs.match_method(Method::Get, "/api/y").unwrap().id, "api");
    assert!(rs.match_method(Method::Get, "/api/x").is_none());
    assert!(rs.match_method(Method::Get, "/apix").is_none());
}

#[test]
fn catchall_star_matches_everything() {
    let mut rules = forty_rules();
    rules.push(mk_rule("catch", Method::Get.bit(), &["/*"], &[]));
    assert!(Ruleset::from_rules_forced(rules).is_err());
}

#[test]
fn overlap_names_both_rules_and_a_witness() {
    match Ruleset::from_rules(vec![
        mk_rule("a", Method::Get.bit(), &["/x/*"], &[]),
        mk_rule("b", METHODS_ALL, &["/x/y"], &[]),
    ]) {
        Err(RuleError::Overlap { a, b, example_path }) => {
            assert_eq!((a.as_str(), b.as_str()), ("a", "b"));
            assert_eq!(example_path, "/x/y");
        }
        _ => panic!("overlap expected"),
    }
    let rs = Ruleset::from_rules(vec![mk_rule("a", Method::Get.bit(), &["/x/*"], &[])]).unwrap();
    assert!(rs.assert_disjoint().is_ok());
    assert_eq!(rs.rules().len(), 1);
}

#[test]
fn automaton_equals_linear_scan_on_fuzz() {
    let rs = Ruleset::from_rules_forced(forty_rules()).unwrap();
    assert!(rs.trie_active());
    let mut seed = 0x9E37_79B9_7F4A_7C15u64;
    let mut next = move || {
        seed ^= seed << 13;
        seed ^= seed >> 7;
        seed ^= seed << 17;
        seed
    };
    for _ in 0..200_000 {
        let r = (next() % 40) as usize;
        let mut path = format!("/r{r}/");
        for _ in 0..(next() % 4) {
            path.push((b'a' + (next() % 26) as u8) as char);
        }
        let path = match next() % 10 {
            0 => format!("/r{r}"),
            1 => format!("/r{r}/"),
            2 => "/other/x".to_string(),
            3 => "/r".to_string(),
            _ => path,
        };
        let m = next() % 3;
        let method = match m {
            0 => Method::Get,
            1 => Method::Post,
            _ => Method::Delete,
        };
        let a = rs.match_method(method, &path).map(|r| r.id.as_str());
        let b = rs.match_linear(method, &path).map(|r| r.id.as_str());
        assert_eq!(a, b, "disagreement on {method:?} {path:?}");
    }
}

#[test]
fn overlap_outside_the_excluded_paths_is_refused() {
    let r = Ruleset::from_wire(vec![
        wire("a", "static", &["GET"], &["/*"], &["/q", "/q/", "/q/x"]),
        wire("b", "api", &["GET"], &["/q/*"], &[]),
    ]);
    match r {
        Err(RuleError::Overlap { a, b, example_path }) => {
            assert_eq!((a.as_str(), b.as_str()), ("a", "b"));
            assert!(example_path.starts_with("/q/") && example_path != "/q/" && example_path != "/q/x", "{example_path}");
        }
        _ => panic!("rules a and b both match GET /q/y"),
    }
}

#[test]
fn rules_separated_by_their_methods_or_excludes_load() {
    let r = Ruleset::from_wire(vec![
        wire("a", "static", &["GET"], &["/*"], &["/q/*"]),
        wire("b", "api", &["GET"], &["/q/*"], &[]),
        wire("c", "api", &["POST"], &["/*"], &[]),
    ]);
    let rs = r.unwrap_or_else(|_| panic!("disjoint rules load"));
    assert!(rs.assert_disjoint().is_ok());
    // an unknown-method mask meets nothing
    let r = Ruleset::from_rules(vec![mk_rule("x", 0, &["/*"], &[]), mk_rule("y", METHODS_ALL, &["/*"], &[])]);
    assert!(r.is_ok());
}

#[test]
fn automaton_matches_exact_patterns_only_at_the_whole_path() {
    let rs = Ruleset::from_rules_forced(vec![mk_rule("a", Method::Get.bit(), &["/a"], &[])])
        .unwrap_or_else(|_| panic!("loads"));
    assert!(rs.trie_active());
    for path in ["/a", "/ab", "/a/", "/", ""] {
        let a = rs.match_method(Method::Get, path).map(|r| r.id.as_str());
        let b = rs.match_linear(Method::Get, path).map(|r| r.id.as_str());
        assert_eq!(a, b, "disagreement on {path:?}");
    }
    assert_eq!(rs.match_method(Method::Get, "/a").map(|r| r.id.as_str()), Some("a"));
    assert_eq!(rs.match_method(Method::Get, "/ab").map(|r| r.id.as_str()), None);
}

#[test]
fn automaton_skips_a_claimant_that_excludes_the_path() {
    let rs = Ruleset::from_rules_forced(vec![
        mk_rule("a", Method::Get.bit(), &["/a/*"], &["/a/b/*"]),
        mk_rule("b", Method::Get.bit(), &["/a/b/*"], &[]),
    ])
    .unwrap_or_else(|_| panic!("disjoint rules load"));
    assert!(rs.trie_active());
    assert_eq!(rs.match_method(Method::Get, "/a/b/c").map(|r| r.id.as_str()), Some("b"));
    assert_eq!(rs.match_linear(Method::Get, "/a/b/c").map(|r| r.id.as_str()), Some("b"));
    assert_eq!(rs.match_method(Method::Get, "/a/c").map(|r| r.id.as_str()), Some("a"));
    assert_eq!(rs.match_method(Method::Get, "/a/b").map(|r| r.id.as_str()), Some("a"));
}

#[test]
fn automaton_equals_linear_scan_on_mixed_patterns() {
    // Exact and prefix includes, excludes at several depths, a catch-all
    // for every method and a rule that only POST reaches.
    let rs = Ruleset::from_rules_forced(vec![
        mk_rule("x", Method::Get.bit(), &["/x/*"], &["/x/y/*", "/x/z"]),
        mk_rule("y", Method::Get.bit(), &["/x/y/*"], &["/x/y/q"]),
        mk_rule("z", Method::Get.bit(), &["/x/z", "/x/y/q"], &[]),
        mk_rule("e", Method::Get.bit(), &["/e", "/ee"], &[]),
        mk_rule("p", Method::Post.bit(), &["/*"], &[]),
        mk_rule("d", Method::Delete.bit() | Method::Put.bit(), &["/*"], &["/x/*"]),
        mk_rule("u", 0, &["/u/*"], &[]),
    ])
    .unwrap_or_else(|_| panic!("disjoint rules load"));
    assert!(rs.trie_active());
    let parts = ["", "/", "x", "y", "z", "q", "e", "u", "/x", "/x/", "/x/y", "/x/y/", "/e", "/ee"];
    let methods = [Method::Get, Method::Post, Method::Delete, Method::Put, Method::Head];
    let mut seed = 0x2545_F491_4F6C_DD1Du64;
    let mut next = move || {
        seed ^= seed << 13;
        seed ^= seed >> 7;
        seed ^= seed << 17;
        seed
    };
    for _ in 0..50_000 {
        let mut path = String::new();
        for _ in 0..(next() % 5) {
            path.push_str(parts[(next() % parts.len() as u64) as usize]);
        }
        let method = methods[(next() % methods.len() as u64) as usize];
        let a = rs.match_method(method, &path).map(|r| r.id.as_str());
        let b = rs.match_linear(method, &path).map(|r| r.id.as_str());
        assert_eq!(a, b, "disagreement on {method:?} {path:?}");
        let c = rs.match_path("BREW", &path).map(|r| r.id.as_str());
        assert_eq!(c, None, "an unknown method reaches no rule here: {path:?}");
    }
    assert_eq!(rs.match_method(Method::Get, "/x/y/q").map(|r| r.id.as_str()), Some("z"));
    assert_eq!(rs.match_method(Method::Get, "/x/z").map(|r| r.id.as_str()), Some("z"));
    assert_eq!(rs.match_method(Method::Get, "/x/zz").map(|r| r.id.as_str()), Some("x"));
    assert_eq!(rs.match_method(Method::Get, "/e/").map(|r| r.id.as_str()), None);
    assert_eq!(rs.match_method(Method::Put, "/x/a").map(|r| r.id.as_str()), None);
    assert_eq!(rs.match_method(Method::Put, "/a").map(|r| r.id.as_str()), Some("d"));
}

#[test]
fn automaton_answers_unknown_methods_from_all_methods_rules() {
    let rs = Ruleset::from_rules_forced(vec![
        mk_rule("g", Method::Get.bit(), &["/g/*"], &[]),
        mk_rule("all", METHODS_ALL, &["/*"], &["/g/*"]),
    ])
    .unwrap_or_else(|_| panic!("disjoint rules load"));
    assert!(rs.trie_active());
    assert_eq!(rs.match_path("BREW", "/a").map(|r| r.id.as_str()), Some("all"));
    assert_eq!(rs.match_path("BREW", "/g/a").map(|r| r.id.as_str()), None);
    assert_eq!(rs.match_path("GET", "/g/a").map(|r| r.id.as_str()), Some("g"));
}

#[test]
fn mime_ignores_case_and_directories() {
    assert_eq!(from_path("/a/B.HTML"), from_path("/a/b.html"));
    assert_eq!(from_path("/dir.d/file"), "application/octet-stream");
    assert_eq!(from_path("/x/y/z.css"), from_path("z.css"));
}
