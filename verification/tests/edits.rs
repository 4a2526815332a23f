use atomos_core::atom::{
    atom_by_name, dry_outcome, server_restart, server_set, signal_name, AtomError, AtomId, DryReport, ServerState, Signal,
};
use atomos_core::config::{cpu_count, first_cpu_id};
use atomos_core::governor::{cpu_ticks_from_stat, vm_rss_from_status};
use atomos_core::json::{crud_edit, pointer_add, pointer_del, pointer_put, Json};
use atomos_core::rules::RuleError;
use atomos_core::seccomp::{
    bpf_jump, bpf_stmt, check_allowlist, seccomp_filter_prog, SockFilter, AUDIT_ARCH_X86_64, SECCOMP_RET_ALLOW,
    SECCOMP_RET_KILL_THREAD,
};

fn s(t: &str) -> Json {
    Json::Str(t.to_string())
}

fn keys_doc() -> Json {
    Json::Obj(vec![("keys".to_string(), Json::Arr(vec![]))])
}

fn keys(d: &Json) -> &Vec<Json> {
    match d {
        Json::Obj(es) => match &es[0] {
            (k, Json::Arr(a)) if k == "keys" => a,
            _ => panic!("keys array"),
        },
        _ => panic!("object"),
    }
}

fn text(j: &Json) -> &str {
    match j {
        Json::Str(t) => t,
        _ => panic!("string"),
    }
}

#[test]
fn json_crud_add_put_del() {
    let d = crud_edit(keys_doc(), "add", "/keys/-", Some(s("A"))).unwrap();
    assert_eq!(text(&keys(&d)[0]), "A");
    let d = crud_edit(d, "put", "/keys/0", Some(s("B"))).unwrap();
    assert_eq!(text(&keys(&d)[0]), "B");
    let d = crud_edit(d, "del", "/keys/0", None).unwrap();
    assert_eq!(keys(&d).len(), 0);
    match crud_edit(keys_doc(), "merge", "/keys", None) {
        Err(AtomError::Input(m)) => assert_eq!(m, "op"),
        _ => panic!("unknown op refused"),
    }
}

#[test]
fn pointer_edit_faults() {
    assert!(matches!(pointer_add(keys_doc(), "/keys", s("x")), Err(AtomError::Conflict)));
    assert!(matches!(pointer_add(keys_doc(), "/keys/5", s("x")), Err(AtomError::NotFound)));
    match pointer_add(keys_doc(), "/keys/x", s("x")) {
        Err(AtomError::Input(m)) => assert_eq!(m, "index"),
        _ => panic!("bad index"),
    }
    match pointer_add(Json::Null, "/-", s("x")) {
        Err(AtomError::Input(m)) => assert_eq!(m, "not array"),
        _ => panic!("dash on non-array"),
    }
    match pointer_put(Json::Null, "/a", s("x")) {
        Err(AtomError::Input(m)) => assert_eq!(m, "parent"),
        _ => panic!("scalar parent"),
    }
    assert!(matches!(pointer_put(keys_doc(), "/nope/a", s("x")), Err(AtomError::NotFound)));
    assert!(matches!(pointer_del(keys_doc(), "/other"), Err(AtomError::NotFound)));
    match pointer_del(keys_doc(), "") {
        Err(AtomError::Input(m)) => assert_eq!(m, "pointer"),
        _ => panic!("empty pointer"),
    }
    assert!(matches!(pointer_put(keys_doc(), "", Json::Bool(true)), Ok(Json::Bool(true))));
    assert!(matches!(pointer_put(keys_doc(), "/1/2/3/4/5/6/7/8/9", Json::Null), Err(AtomError::Bound)));
}

#[test]
fn add_then_del_restores_object() {
    let d = pointer_add(keys_doc(), "/note", s("n")).unwrap();
    match &d {
        Json::Obj(es) => assert_eq!(es.len(), 2),
        _ => panic!("object"),
    }
    let d = pointer_del(d, "/note").unwrap();
    match &d {
        Json::Obj(es) => {
            assert_eq!(es.len(), 1);
            assert_eq!(es[0].0, "keys");
        }
        _ => panic!("object"),
    }
    let d = pointer_add(d, "/keys/0", s("a")).unwrap();
    let d = pointer_add(d, "/keys/0", s("b")).unwrap();
    assert_eq!(text(&keys(&d)[0]), "b");
    assert_eq!(text(&keys(&d)[1]), "a");
    let d = pointer_del(d, "/keys/0").unwrap();
    assert_eq!(keys(&d).len(), 1);
    assert_eq!(text(&keys(&d)[0]), "a");
}

#[test]
fn nested_put_reads_back() {
    let doc = Json::Obj(vec![("a".to_string(), Json::Obj(vec![("b~c/d".to_string(), Json::Num("1".to_string()))]))]);
    let d = pointer_put(doc, "/a/b~0c~1d", s("v")).unwrap();
    match &d {
        Json::Obj(es) => match &es[0].1 {
            Json::Obj(inner) => {
                assert_eq!(inner.len(), 1);
                assert_eq!(inner[0].0, "b~c/d");
                assert_eq!(text(&inner[0].1), "v");
            }
            _ => panic!("inner object"),
        },
        _ => panic!("object"),
    }
}

#[test]
fn filter_allows_exactly_the_list() {
    let allow = [0i64, 1, 232];
    let p = seccomp_filter_prog(&allow);
    assert_eq!(p.len(), 4 + 2 * allow.len() + 1);
    assert_eq!(p[0], SockFilter { code: 0x20, jt: 0, jf: 0, k: 4 });
    assert_eq!(p[1], SockFilter { code: 0x15, jt: 1, jf: 0, k: AUDIT_ARCH_X86_64 });
    assert_eq!(p[2], bpf_stmt(0x06, SECCOMP_RET_KILL_THREAD));
    assert_eq!(p[3], SockFilter { code: 0x20, jt: 0, jf: 0, k: 0 });
    assert_eq!(p[8], bpf_jump(0x15, 232, 0, 1));
    assert_eq!(p[9], bpf_stmt(0x06, SECCOMP_RET_ALLOW));
    assert_eq!(p[10], bpf_stmt(0x06, SECCOMP_RET_KILL_THREAD));
    assert!(check_allowlist(&allow, 59).is_ok());
    assert!(check_allowlist(&[0, 59], 59).is_err());
}

#[test]
fn proc_texts_parse() {
    let status = "Name:\tx\nVmPeak:\t  100 kB\nVmRSS:\t    2048 kB\nThreads: 1\n";
    assert_eq!(vm_rss_from_status(status), Some(2048 * 1024));
    assert_eq!(vm_rss_from_status("Name: x\n"), None);
    assert_eq!(vm_rss_from_status("VmRSS: lots\n"), None);
    let stat = "42 (my (odd) prog) S 1 2 3 4 5 6 7 8 9 10 17 5 0 0 20 0 1 0";
    assert_eq!(cpu_ticks_from_stat(stat), Some(22));
    assert_eq!(cpu_ticks_from_stat("1 (x) S 2"), None);
    assert_eq!(first_cpu_id("0,4\n"), Some(0));
    assert_eq!(first_cpu_id("  12-13"), Some(12));
    assert_eq!(first_cpu_id("none"), None);
    assert_eq!(first_cpu_id("99999999999"), None);
    assert_eq!(cpu_count(0, 8), 8);
    assert_eq!(cpu_count(4, 8), 4);
    assert_eq!(cpu_count(16, 8), 8);
}

#[test]
fn atoms_by_name_and_dry_runs() {
    assert_eq!(atom_by_name("json.crud").unwrap(), AtomId::JsonCrud);
    assert_eq!(atom_by_name("server.restart").unwrap(), AtomId::ServerRestart);
    match atom_by_name("rm.rf") {
        Err(AtomError::Unknown(n)) => assert_eq!(n, "rm.rf"),
        _ => panic!("unknown atom"),
    }
    assert!(matches!(dry_outcome(None), Ok(DryReport::Clean)));
    let o = RuleError::Overlap { a: "a".to_string(), b: "b".to_string(), example_path: "/x".to_string() };
    match dry_outcome(Some(o)) {
        Ok(DryReport::Overlap { a, b, example_path }) => assert_eq!((a.as_str(), b.as_str(), example_path.as_str()), ("a", "b", "/x")),
        _ => panic!("overlap report"),
    }
    match dry_outcome(Some(RuleError::BadPattern("/a**".to_string()))) {
        Err(AtomError::Json(m)) => assert_eq!(m, "bad pattern /a**"),
        _ => panic!("other refusals fail"),
    }
}

#[test]
fn rule_error_messages() {
    assert_eq!(RuleError::TooMany.message(), "too many rules");
    assert_eq!(RuleError::EmptyId.message(), "empty id");
    assert_eq!(RuleError::Json("eof".to_string()).message(), "json: eof");
    let o = RuleError::Overlap { a: "s".to_string(), b: "a".to_string(), example_path: "/api/x".to_string() };
    assert_eq!(o.message(), "overlap s and a at /api/x");
}

fn fresh_signal() -> Signal {
    Signal { state: ServerState::Off, stop: false }
}

#[test]
fn signal_starts_off() {
    let sig = fresh_signal();
    assert_eq!(signal_name(sig.state), "off");
}

#[test]
fn restart_is_stop_then_start() {
    let mut sig = fresh_signal();
    server_restart(true, &mut sig).unwrap();
    assert_eq!(signal_name(sig.state), "on");
    assert!(!sig.stop);
}

#[test]
fn read_only_context_cannot_actuate() {
    let mut sig = Signal { state: ServerState::On, stop: false };
    assert!(matches!(server_set(false, &mut sig, ServerState::Off), Err(AtomError::PureActuate)));
    assert_eq!(sig.state, ServerState::On);
    server_set(true, &mut sig, ServerState::Off).unwrap();
    assert!(sig.stop);
    server_set(true, &mut sig, ServerState::Restarting).unwrap();
    assert!(sig.stop);
    assert_eq!(signal_name(sig.state), "restarting");
}
