use atomos_core::atom::{control_atom, split_pointer, AtomError, AtomId};
use atomos_core::ctl::{
    atom_err_msg, connect_error_reply, format_human, help_text, io_error_reply, key_rows, line_form,
    looks_like_path, mask, parse_cli_args, parse_json, parse_words, AtomFault, Cmd, CmdFields, IoKind, KeyEntry,
    KeyRow, LineForm, ReplyFields, HELP,
};
use atomos_core::jail::rule_dir;
use atomos_core::keyproto::{decode_rep, decode_req, encode_rep, encode_req, KIND_SIGN, MAX_FRAME};

#[test]
fn sign_request_roundtrip_bytes() {
    let d = [7u8; 32];
    let b = encode_req(1, &d);
    let (k, p) = decode_req(&b).unwrap();
    assert_eq!(k, 1);
    assert_eq!(p, d);
}

#[test]
fn sign_reply_roundtrip_bytes() {
    let sig = [9u8; 64];
    let b = encode_rep(&sig);
    assert_eq!(decode_rep(&b).unwrap(), sig.as_slice());
}

#[test]
fn decode_req_fail_closed_truncated_or_empty() {
    let b = encode_req(KIND_SIGN, &[7u8; 32]);
    assert!(decode_req(&[]).is_none());
    assert!(decode_req(&b[..3]).is_none());
    assert!(decode_req(&b[..4]).is_none());
    assert!(decode_req(&b[..b.len() - 1]).is_none());
    assert!(decode_req(&[0, 0, 0, 0]).is_none());
}

#[test]
fn frames_have_big_endian_length_and_bound() {
    assert_eq!(encode_req(KIND_SIGN, b"ab"), vec![0, 0, 0, 3, 1, b'a', b'b']);
    assert_eq!(encode_rep(b"xyz"), vec![0, 0, 0, 3, b'x', b'y', b'z']);
    assert_eq!(decode_rep(&[0, 0, 0, 0]).unwrap(), &[] as &[u8]);
    let mut big = vec![0u8, 1, 0, 1];
    big.extend(std::iter::repeat_n(0u8, MAX_FRAME + 1));
    assert!(decode_rep(&big).is_none());
    assert_eq!(decode_rep(&[0, 0, 0, 1, 5, 6]).unwrap(), &[5u8]);
}

#[test]
fn words_parse_commands_and_flags() {
    assert_eq!(parse_words(&["help"]), Ok(Cmd::Help));
    assert_eq!(parse_words(&["ping"]), Ok(Cmd::Status));
    assert_eq!(parse_words(&["--reveal", "keys"]), Ok(Cmd::KeysList { reveal: true }));
    assert_eq!(parse_words(&["json", "ls"]), Ok(Cmd::KeysList { reveal: false }));
    assert_eq!(parse_words(&["json"]), Ok(Cmd::JsonDump));
    assert_eq!(
        parse_words(&["keys", "add", "lab", "box"]),
        Ok(Cmd::KeysAdd { note: "lab box".to_string() })
    );
    assert_eq!(parse_words(&["keys", "add"]), Ok(Cmd::KeysAdd { note: String::new() }));
    assert_eq!(parse_words(&["keys", "del", "3", "-y"]), Ok(Cmd::KeysDel { index: 3, yes: true }));
    assert_eq!(parse_words(&["keys", "rm"]), Err("keys del <index>".to_string()));
    assert_eq!(parse_words(&["keys", "del", "x"]), Err("keys del <index> must be a number".to_string()));
    assert_eq!(parse_words(&["keys", "zap"]), Err("unknown keys subcommand: zap".to_string()));
    assert_eq!(parse_words(&["json", "zap"]), Err("unknown json subcommand: zap".to_string()));
    assert_eq!(parse_words(&["restart", "--yes"]), Ok(Cmd::Restart { yes: true }));
    assert_eq!(parse_words(&["stop"]), Ok(Cmd::Stop { yes: false }));
    assert_eq!(parse_words(&["dry_test"]), Ok(Cmd::DryTest));
    assert_eq!(parse_words(&["refresh-endpoints"]), Ok(Cmd::Refresh));
    assert_eq!(parse_words(&["q"]), Ok(Cmd::Quit));
    assert_eq!(parse_words(&["--yes"]), Err("empty".to_string()));
    assert_eq!(parse_words(&["frob"]), Err("unknown command: frob (try help)".to_string()));
}

fn fields(cmd: Option<&str>) -> CmdFields {
    CmdFields { cmd: cmd.map(|s| s.to_string()), yes: None, reveal: None, note: None, index: None, op: None }
}

#[test]
fn json_commands() {
    assert_eq!(parse_json(&fields(None)), Err("missing cmd".to_string()));
    assert_eq!(parse_json(&fields(Some("status"))), Ok(Cmd::Status));
    assert_eq!(parse_json(&fields(Some("json.dump"))), Ok(Cmd::JsonDump));
    let f = CmdFields { reveal: Some(true), ..fields(Some("keys.list")) };
    assert_eq!(parse_json(&f), Ok(Cmd::KeysList { reveal: true }));
    let f = CmdFields { note: Some("lab".to_string()), ..fields(Some("keys.add")) };
    assert_eq!(parse_json(&f), Ok(Cmd::KeysAdd { note: "lab".to_string() }));
    let f = CmdFields { index: Some(0), yes: Some(true), ..fields(Some("keys.del")) };
    assert_eq!(parse_json(&f), Ok(Cmd::KeysDel { index: 0, yes: true }));
    assert_eq!(parse_json(&fields(Some("keys_del"))), Err("keys.del needs index".to_string()));
    assert_eq!(parse_json(&fields(Some("keys"))), Ok(Cmd::KeysList { reveal: false }));
    let f = CmdFields { op: Some("del".to_string()), ..fields(Some("keys")) };
    assert_eq!(parse_json(&f), Err("keys del needs index".to_string()));
    let f = CmdFields { op: Some("frob".to_string()), ..fields(Some("keys")) };
    assert_eq!(parse_json(&f), Err("unknown keys op: frob".to_string()));
    let f = CmdFields { yes: Some(true), ..fields(Some("restart")) };
    assert_eq!(parse_json(&f), Ok(Cmd::Restart { yes: true }));
    assert_eq!(parse_json(&fields(Some("q"))), Err("unknown cmd: q".to_string()));
}

#[test]
fn unknown_cmd_is_json_error() {
    assert_eq!(control_atom("nope"), None);
    assert_eq!(parse_json(&fields(Some("nope"))), Err("unknown cmd: nope".to_string()));
}

#[test]
fn control_words_name_their_actions() {
    assert_eq!(control_atom("status"), Some(AtomId::SignalGet));
    assert_eq!(control_atom("refresh-endpoints"), Some(AtomId::RulesReload));
    assert_eq!(control_atom("rules.reload"), Some(AtomId::RulesReload));
    assert_eq!(control_atom("purge"), Some(AtomId::CachePurge));
    assert_eq!(control_atom("cache.purge"), Some(AtomId::CachePurge));
    assert_eq!(control_atom("stop"), Some(AtomId::ServerStop));
    assert_eq!(control_atom("start"), Some(AtomId::ServerStart));
    assert_eq!(control_atom("restart"), Some(AtomId::ServerRestart));
    assert_eq!(control_atom("dry-test-rules"), Some(AtomId::RulesDryTest));
    assert_eq!(control_atom("signal.get"), None);
}

#[test]
fn lines_are_blank_json_or_words() {
    assert!(matches!(line_form("  \t "), LineForm::Empty));
    match line_form("  {\"cmd\":\"status\"} ") {
        LineForm::Json(t) => assert_eq!(t, "{\"cmd\":\"status\"}"),
        _ => panic!("json line"),
    }
    match line_form(" keys  del\t2 ") {
        LineForm::Words(w) => assert_eq!(w, vec!["keys".to_string(), "del".to_string(), "2".to_string()]),
        _ => panic!("word line"),
    }
}

#[test]
fn mask_keeps_two_bytes_each_side() {
    assert_eq!(mask("abcd"), "****");
    assert_eq!(mask(""), "****");
    assert_eq!(mask("0123456789abcdef"), "01\u{2026}ef");
}

#[test]
fn looks_like_path_cases() {
    assert!(looks_like_path("a/b"));
    assert!(looks_like_path("keys.json"));
    assert!(looks_like_path(".hidden"));
    assert!(!looks_like_path("status"));
    assert!(!looks_like_path("json"));
}

fn args(v: &[&str]) -> Vec<String> {
    v.iter().map(|s| s.to_string()).collect()
}

#[test]
fn cli_arguments() {
    let a = parse_cli_args(&args(&["--json"])).unwrap();
    assert!(a.json);
    assert!(a.data.is_none());
    let a = parse_cli_args(&args(&["--json", "k.json", "keys"])).unwrap();
    assert!(!a.json);
    assert_eq!(a.data.as_deref(), Some("k.json"));
    assert_eq!(a.words, args(&["keys"]));
    let a = parse_cli_args(&args(&["--json", "-x.json"])).unwrap();
    assert!(a.json);
    assert_eq!(a.words, args(&["-x.json"]));
    let a = parse_cli_args(&args(&["--config", "c.json", "--socket", "/s", "keys", "-h"])).unwrap();
    assert_eq!(a.config.as_deref(), Some("c.json"));
    assert_eq!(a.socket.as_deref(), Some("/s"));
    assert_eq!(a.words, args(&["help"]));
    assert_eq!(parse_cli_args(&args(&["--data"])).unwrap_err(), "--data needs a path");
    assert_eq!(parse_cli_args(&args(&["x", "--config"])).unwrap_err(), "--config needs a path");
    assert_eq!(parse_cli_args(&args(&["--socket"])).unwrap_err(), "--socket needs a path");
}

#[test]
fn help_mentions_commands() {
    let h = help_text();
    assert_eq!(h, HELP);
    assert!(h.starts_with("ATOMOS operator ctl"));
    assert!(h.contains("keys del <index>"));
    assert!(h.contains("{\"cmd\":\"status\"}"));
}

#[test]
fn io_error_replies() {
    let r = io_error_reply(IoKind::PermissionDenied, "x", "/p");
    assert_eq!(r.error, "permission_denied");
    assert_eq!(r.message, "permission denied opening /p (mode 0600, same EUID only)");
    let r = io_error_reply(IoKind::NotFound, "x", "/run/a.sock");
    assert_eq!(r.error, "server_unreachable");
    let r = io_error_reply(IoKind::NotFound, "x", "/d.json");
    assert_eq!((r.error.as_str(), r.message.as_str()), ("not_found", "not found: /d.json"));
    let r = io_error_reply(IoKind::ConnectionReset, "x", "/s");
    assert_eq!(r.message, "nothing is listening on /s (stale socket file?)");
    let r = io_error_reply(IoKind::WouldBlock, "x", "/s");
    assert_eq!((r.error.as_str(), r.message.as_str()), ("timeout", "timeout talking to /s"));
    let r = io_error_reply(IoKind::Other, "disk full", "/s");
    assert_eq!((r.error.as_str(), r.message.as_str()), ("io", "/s: disk full"));
    let r = connect_error_reply(IoKind::NotFound, "x", "/sock");
    assert_eq!(r.error, "server_unreachable");
    assert_eq!(r.message, "control Unix socket /sock is missing (not a TCP port; HTTP bind is separate)");
    assert_eq!(atom_err_msg(AtomFault::Other("bad".to_string()), "/p"), "bad");
    assert_eq!(
        atom_err_msg(AtomFault::Io { kind: IoKind::TimedOut, text: "t".to_string() }, "/p"),
        "timeout talking to /p"
    );
}

#[test]
fn key_rows_mask_unless_revealed() {
    let entries = vec![
        KeyEntry { token: Some("0123456789".to_string()), note: Some("lab".to_string()), created_s: Some(7) },
        KeyEntry { token: None, note: None, created_s: None },
        KeyEntry { token: Some("abc".to_string()), note: None, created_s: None },
    ];
    let rows = key_rows(&entries, false);
    assert_eq!(rows.len(), 3);
    match &rows[0] {
        KeyRow::Token { index, token, note, created_s } => {
            assert_eq!((*index, token.as_str(), note.as_str(), *created_s), (0, "01\u{2026}89", "lab", 7));
        }
        _ => panic!("token row"),
    }
    assert!(matches!(rows[1], KeyRow::Other { index: 1 }));
    match &rows[2] {
        KeyRow::Token { token, note, created_s, .. } => {
            assert_eq!((token.as_str(), note.as_str(), *created_s), ("****", "", 0));
        }
        _ => panic!("token row"),
    }
    match &key_rows(&entries, true)[0] {
        KeyRow::Token { token, .. } => assert_eq!(token, "0123456789"),
        _ => panic!("token row"),
    }
}

#[test]
fn human_rendering() {
    let none = ReplyFields { help: None, ok: None, error: None, message: None, hint: None };
    assert_eq!(format_human(&ReplyFields { help: Some("h".to_string()), ..none.clone() }), Some("h".to_string()));
    assert_eq!(format_human(&none), Some("error".to_string()));
    let f = ReplyFields {
        error: Some("usage".to_string()),
        message: Some("bad".to_string()),
        hint: Some("try help".to_string()),
        ..none.clone()
    };
    assert_eq!(format_human(&f), Some("usage: bad\ntry help".to_string()));
    assert_eq!(format_human(&ReplyFields { ok: Some(true), ..none.clone() }), None);
}

#[test]
fn pointers_split_and_unescape() {
    assert_eq!(split_pointer("").unwrap(), Vec::<String>::new());
    assert_eq!(split_pointer("/keys/-").unwrap(), vec!["keys".to_string(), "-".to_string()]);
    assert_eq!(split_pointer("/a~1b/c~0d/~01").unwrap(), vec!["a/b".to_string(), "c~d".to_string(), "~1".to_string()]);
    assert_eq!(split_pointer("/").unwrap(), vec![String::new()]);
    match split_pointer("keys") {
        Err(AtomError::Input(m)) => assert_eq!(m, "pointer"),
        _ => panic!("relative pointer refused"),
    }
    assert!(split_pointer("/1/2/3/4/5/6/7/8").is_ok());
    assert!(matches!(split_pointer("/1/2/3/4/5/6/7/8/9"), Err(AtomError::Bound)));
}

#[test]
fn rule_dir_of_parents() {
    assert_eq!(rule_dir(None), None);
    assert_eq!(rule_dir(Some(String::new())), Some(".".to_string()));
    assert_eq!(rule_dir(Some("/etc".to_string())), Some("/etc".to_string()));
}

#[test]
fn control_peer_must_be_same_user_or_root() {
    assert!(atomos_core::jail::peer_uid_ok(1000, 1000));
    assert!(atomos_core::jail::peer_uid_ok(0, 1000));
    assert!(!atomos_core::jail::peer_uid_ok(1001, 1000));
}

#[test]
fn landlock_opens_root_read_only_and_state_dirs_read_write() {
    let r = atomos_core::jail::landlock_rules("/srv/www", "/etc/atomos/rules.json", "ctl.sock");
    let v: Vec<(String, u64)> = r.into_iter().map(|x| (x.dir, x.access)).collect();
    assert_eq!(
        v,
        vec![
            ("/srv/www".to_string(), atomos_core::jail::LANDLOCK_READ_ONLY),
            ("/etc/atomos".to_string(), atomos_core::jail::LANDLOCK_READ_WRITE),
            (".".to_string(), atomos_core::jail::LANDLOCK_READ_WRITE),
        ]
    );
    assert_eq!(atomos_core::jail::LANDLOCK_READ_ONLY, atomos_core::jail::LANDLOCK_ACCESS_FS_READ_FILE | atomos_core::jail::LANDLOCK_ACCESS_FS_READ_DIR);
    assert_eq!(atomos_core::jail::LANDLOCK_READ_WRITE, atomos_core::jail::LANDLOCK_READ_ONLY | atomos_core::jail::LANDLOCK_ACCESS_FS_WRITE_FILE);
}
