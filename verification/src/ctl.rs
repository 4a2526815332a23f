//! Operator commands: parsed from words or from a JSON object.
use vstd::prelude::*;
use vstd::string::StringSliceAdditionalSpecFns;
use vstd::utf8::{decode_utf8, encode_utf8, encode_utf8_decode_utf8, is_char_boundary};
use crate::text::{str_chars, chars_string, parse_usize, parse_usize_chars, trim, trim_chars, split_ws, words_of};
use crate::num::push_chars;

verus! {

/// An operator command.
#[derive(Debug, Clone, PartialEq, Eq)]
pub enum Cmd {
    Help,
    Status,
    KeysList { reveal: bool },
    KeysAdd { note: String },
    KeysDel { index: usize, yes: bool },
    JsonDump,
    ConfigShow,
    Restart { yes: bool },
    Stop { yes: bool },
    Start,
    Refresh,
    Backup,
    DryTest,
    Quit,
}

/// A command by the text it carries.
pub enum CmdV {
    Help,
    Status,
    KeysList { reveal: bool },
    KeysAdd { note: Seq<char> },
    KeysDel { index: usize, yes: bool },
    JsonDump,
    ConfigShow,
    Restart { yes: bool },
    Stop { yes: bool },
    Start,
    Refresh,
    Backup,
    DryTest,
    Quit,
}

impl View for Cmd {
    type V = CmdV;

    open spec fn view(&self) -> CmdV {
        match self {
            Cmd::Help => CmdV::Help,
            Cmd::Status => CmdV::Status,
            Cmd::KeysList { reveal } => CmdV::KeysList { reveal: *reveal },
            Cmd::KeysAdd { note } => CmdV::KeysAdd { note: note@ },
            Cmd::KeysDel { index, yes } => CmdV::KeysDel { index: *index, yes: *yes },
            Cmd::JsonDump => CmdV::JsonDump,
            Cmd::ConfigShow => CmdV::ConfigShow,
            Cmd::Restart { yes } => CmdV::Restart { yes: *yes },
            Cmd::Stop { yes } => CmdV::Stop { yes: *yes },
            Cmd::Start => CmdV::Start,
            Cmd::Refresh => CmdV::Refresh,
            Cmd::Backup => CmdV::Backup,
            Cmd::DryTest => CmdV::DryTest,
            Cmd::Quit => CmdV::Quit,
        }
    }
}

/// The word is one of the flags (`--yes`, `-y`, `--reveal`).
pub open spec fn is_flag(w: Seq<char>) -> bool {
    w == "--yes"@ || w == "-y"@ || w == "--reveal"@
}

/// Words joined with single spaces.
pub open spec fn join_words(ws: Seq<Seq<char>>) -> Seq<char>
    decreases ws.len(),
{
    if ws.len() == 0 {
        Seq::empty()
    } else if ws.len() == 1 {
        ws[0]
    } else {
        join_words(ws.drop_last()) + " "@ + ws.last()
    }
}

/// The command the remaining words name, the flags having been taken out.
pub open spec fn words_cmd(w: Seq<Seq<char>>, yes: bool, reveal: bool) -> Result<CmdV, Seq<char>> {
    let c = w[0];
    if c == "help"@ || c == "-h"@ || c == "--help"@ {
        Ok(CmdV::Help)
    } else if c == "status"@ || c == "ping"@ {
        Ok(CmdV::Status)
    } else if c == "quit"@ || c == "exit"@ || c == "q"@ {
        Ok(CmdV::Quit)
    } else if c == "config"@ {
        Ok(CmdV::ConfigShow)
    } else if c == "json"@ {
        let sub = if w.len() > 1 { w[1] } else { "dump"@ };
        if sub == "dump"@ || sub == "pretty"@ || sub == "show"@ {
            Ok(CmdV::JsonDump)
        } else if sub == "list"@ || sub == "ls"@ {
            Ok(CmdV::KeysList { reveal })
        } else {
            Err("unknown json subcommand: "@ + sub)
        }
    } else if c == "keys"@ {
        let sub = if w.len() > 1 { w[1] } else { "list"@ };
        if sub == "list"@ || sub == "ls"@ {
            Ok(CmdV::KeysList { reveal })
        } else if sub == "add"@ {
            Ok(CmdV::KeysAdd { note: join_words(w.skip(2)) })
        } else if sub == "del"@ || sub == "rm"@ || sub == "delete"@ {
            if w.len() <= 2 {
                Err("keys del <index>"@)
            } else {
                match parse_usize(w[2]) {
                    None => Err("keys del <index> must be a number"@),
                    Some(n) => Ok(CmdV::KeysDel { index: n as usize, yes }),
                }
            }
        } else {
            Err("unknown keys subcommand: "@ + sub)
        }
    } else if c == "restart"@ {
        Ok(CmdV::Restart { yes })
    } else if c == "stop"@ {
        Ok(CmdV::Stop { yes })
    } else if c == "start"@ {
        Ok(CmdV::Start)
    } else if c == "refresh"@ || c == "refresh-endpoints"@ {
        Ok(CmdV::Refresh)
    } else if c == "backup"@ {
        Ok(CmdV::Backup)
    } else if c == "dry-test"@ || c == "dry_test"@ || c == "dry-test-rules"@ {
        Ok(CmdV::DryTest)
    } else {
        Err("unknown command: "@ + c + " (try help)"@)
    }
}

/// Flags anywhere (`--yes`/`-y` confirm, `--reveal` shows tokens); the
/// first other word is the command, the next ones its arguments.
pub open spec fn parse_words_spec(ws: Seq<Seq<char>>) -> Result<CmdV, Seq<char>> {
    let yes = ws.contains("--yes"@) || ws.contains("-y"@);
    let reveal = ws.contains("--reveal"@);
    let w = ws.filter(|x: Seq<char>| !is_flag(x));
    if w.len() == 0 {
        Err("empty"@)
    } else {
        words_cmd(w, yes, reveal)
    }
}

/// Flags work in any position: two word lists with the same non-flag
/// words in the same order, asking for confirmation alike (`--yes` or
/// `-y`) and for tokens alike (`--reveal`), parse to the same result.
pub proof fn law_flags_anywhere(ws1: Seq<Seq<char>>, ws2: Seq<Seq<char>>)
    requires
        ws1.filter(|x: Seq<char>| !is_flag(x)) == ws2.filter(|x: Seq<char>| !is_flag(x)),
        (ws1.contains("--yes"@) || ws1.contains("-y"@)) == (ws2.contains("--yes"@) || ws2.contains("-y"@)),
        ws1.contains("--reveal"@) == ws2.contains("--reveal"@),
    ensures
        parse_words_spec(ws1) == parse_words_spec(ws2),
{
}

/// Moving a flag between two stretches of words leaves the parse as it
/// was.
pub proof fn law_flag_moves(u: Seq<Seq<char>>, v: Seq<Seq<char>>, f: Seq<char>)
    requires
        is_flag(f),
    ensures
        parse_words_spec(u + seq![f] + v) == parse_words_spec(seq![f] + u + v),
{
    let nf = |x: Seq<char>| !is_flag(x);
    let a = u + seq![f] + v;
    let b = seq![f] + u + v;
    broadcast use vstd::seq::Seq::filter_distributes_over_add;
    assert(seq![f].filter(nf) =~= Seq::<Seq<char>>::empty()) by {
        reveal_with_fuel(Seq::filter, 2);
    }
    assert(a.filter(nf) =~= b.filter(nf)) by {
        assert((u + seq![f]).filter(nf) == u.filter(nf) + seq![f].filter(nf));
        assert(a.filter(nf) == (u + seq![f]).filter(nf) + v.filter(nf));
        assert((seq![f] + u).filter(nf) == seq![f].filter(nf) + u.filter(nf));
        assert(b.filter(nf) == (seq![f] + u).filter(nf) + v.filter(nf));
    }
    assert forall|w: Seq<char>| a.contains(w) == b.contains(w) by {
        if a.contains(w) {
            let i = choose|i: int| 0 <= i < a.len() && a[i] == w;
            if i < u.len() {
                assert(b[i + 1] == w);
            } else if i == u.len() {
                assert(b[0] == w);
            } else {
                assert(b[i] == w);
            }
        }
        if b.contains(w) {
            let i = choose|i: int| 0 <= i < b.len() && b[i] == w;
            if i == 0 {
                assert(a[u.len() as int] == w);
            } else if i <= u.len() {
                assert(a[i - 1] == w);
            } else {
                assert(a[i] == w);
            }
        }
    }
    law_flags_anywhere(a, b);
}

/// `-y` and `--yes` are the same flag.
pub proof fn law_short_yes(u: Seq<Seq<char>>, v: Seq<Seq<char>>)
    ensures
        parse_words_spec(u + seq!["-y"@] + v) == parse_words_spec(u + seq!["--yes"@] + v),
{
    let nf = |x: Seq<char>| !is_flag(x);
    let a = u + seq!["-y"@] + v;
    let b = u + seq!["--yes"@] + v;
    broadcast use vstd::seq::Seq::filter_distributes_over_add;
    assert(seq!["-y"@].filter(nf) =~= Seq::<Seq<char>>::empty()) by {
        reveal_with_fuel(Seq::filter, 2);
    }
    assert(seq!["--yes"@].filter(nf) =~= Seq::<Seq<char>>::empty()) by {
        reveal_with_fuel(Seq::filter, 2);
    }
    assert(a.filter(nf) =~= b.filter(nf)) by {
        assert(a.filter(nf) == (u + seq!["-y"@]).filter(nf) + v.filter(nf));
        assert(b.filter(nf) == (u + seq!["--yes"@]).filter(nf) + v.filter(nf));
        assert((u + seq!["-y"@]).filter(nf) == u.filter(nf) + seq!["-y"@].filter(nf));
        assert((u + seq!["--yes"@]).filter(nf) == u.filter(nf) + seq!["--yes"@].filter(nf));
    }
    assert(a[u.len() as int] == "-y"@);
    assert(b[u.len() as int] == "--yes"@);
    assert forall|w: Seq<char>| w != "-y"@ && w != "--yes"@ implies a.contains(w) == b.contains(w) by {
        if a.contains(w) {
            let i = choose|i: int| 0 <= i < a.len() && a[i] == w;
            assert(i != u.len());
            assert(b[i] == w);
        }
        if b.contains(w) {
            let i = choose|i: int| 0 <= i < b.len() && b[i] == w;
            assert(i != u.len());
            assert(a[i] == w);
        }
    }
    reveal_strlit("-y");
    reveal_strlit("--yes");
    reveal_strlit("--reveal");
    assert("--reveal"@ != "-y"@ && "--reveal"@ != "--yes"@) by {
        assert("--reveal"@.len() != "-y"@.len());
        assert("--reveal"@.len() != "--yes"@.len());
    }
    law_flags_anywhere(a, b);
}

fn is_lit(w: &[char], lit: &str) -> (r: bool)
    ensures
        r == (w@ == lit@),
{
    let l = str_chars(lit);
    if w.len() != l.len() {
        return false;
    }
    let mut i: usize = 0;
    while i < w.len()
        invariant
            w.len() == l.len(),
            l@ == lit@,
            i <= w.len(),
            forall|k: int| 0 <= k < i ==> w@[k] == l@[k],
        decreases w.len() - i,
    {
        if w[i] != l[i] {
            assert(w@[i as int] != l@[i as int]);
            return false;
        }
        i = i + 1;
    }
    assert(w@ =~= l@);
    true
}

fn text2(a: &str, b: &[char]) -> (r: String)
    ensures
        r@ == a@ + b@,
{
    let mut v: Vec<char> = Vec::new();
    push_chars(&mut v, str_chars(a).as_slice());
    push_chars(&mut v, b);
    chars_string(v.as_slice())
}

fn text_plus(a: &str, b: &[char], c: &str) -> (r: String)
    ensures
        r@ == a@ + b@ + c@,
{
    let mut v: Vec<char> = Vec::new();
    push_chars(&mut v, str_chars(a).as_slice());
    push_chars(&mut v, b);
    push_chars(&mut v, str_chars(c).as_slice());
    chars_string(v.as_slice())
}

fn join_exec(ws: &Vec<Vec<char>>, from: usize) -> (r: String)
    requires
        from <= ws.len(),
    ensures
        r@ == join_words(ws@.map_values(|x: Vec<char>| x@).skip(from as int)),
{
    let ghost all = ws@.map_values(|x: Vec<char>| x@);
    let mut v: Vec<char> = Vec::new();
    let mut i = from;
    let sp = str_chars(" ");
    while i < ws.len()
        invariant
            from <= i <= ws.len(),
            all == ws@.map_values(|x: Vec<char>| x@),
            sp@ == " "@,
            v@ == join_words(all.subrange(from as int, i as int)),
        decreases ws.len() - i,
    {
        let ghost before = all.subrange(from as int, i as int);
        if i > from {
            push_chars(&mut v, sp.as_slice());
        }
        push_chars(&mut v, ws[i].as_slice());
        assert(all.subrange(from as int, i + 1).drop_last() =~= before);
        assert(all.subrange(from as int, i + 1).last() == all[i as int]);
        i = i + 1;
    }
    assert(all.subrange(from as int, ws.len() as int) =~= all.skip(from as int));
    chars_string(v.as_slice())
}

pub fn parse_words(words: &[&str]) -> (r: Result<Cmd, String>)
    ensures
        match parse_words_spec(words@.map_values(|s: &str| s@)) {
            Ok(c) => r matches Ok(x) && x@ == c,
            Err(m) => r matches Err(e) && e@ == m,
        },
{
    let ghost ws = words@.map_values(|s: &str| s@);
    let ghost pred = |x: Seq<char>| !is_flag(x);
    let mut yes = false;
    let mut show = false;
    let mut w: Vec<Vec<char>> = Vec::new();
    let mut i: usize = 0;
    while i < words.len()
        invariant
            i <= words.len(),
            ws == words@.map_values(|s: &str| s@),
            pred == (|x: Seq<char>| !is_flag(x)),
            yes == (ws.take(i as int).contains("--yes"@) || ws.take(i as int).contains("-y"@)),
            show == ws.take(i as int).contains("--reveal"@),
            w@.map_values(|x: Vec<char>| x@) == ws.take(i as int).filter(pred),
        decreases words.len() - i,
    {
        let x = str_chars(words[i]);
        let ghost t = ws.take(i as int);
        assert(ws.take(i + 1) =~= t.push(x@));
        proof {
            t.lemma_filter_push(x@, pred);
            lemma_contains_push(t, x@, "--yes"@);
            lemma_contains_push(t, x@, "-y"@);
            lemma_contains_push(t, x@, "--reveal"@);
            lemma_flags_distinct();
        }
        let is_yes = is_lit(x.as_slice(), "--yes") || is_lit(x.as_slice(), "-y");
        let is_reveal = is_lit(x.as_slice(), "--reveal");
        if is_yes {
            yes = true;
        } else if is_reveal {
            show = true;
        } else {
            let ghost before = w@.map_values(|x: Vec<char>| x@);
            w.push(x);
            assert(w@.map_values(|x: Vec<char>| x@) =~= before.push(x@));
        }
        i = i + 1;
    }
    assert(ws.take(words.len() as int) =~= ws);
    let ghost wv = w@.map_values(|x: Vec<char>| x@);
    if w.len() == 0 {
        return Err("empty".to_string());
    }
    let c = w[0].as_slice();
    assert(c@ == wv[0]);
    if is_lit(c, "help") || is_lit(c, "-h") || is_lit(c, "--help") {
        return Ok(Cmd::Help);
    }
    if is_lit(c, "status") || is_lit(c, "ping") {
        return Ok(Cmd::Status);
    }
    if is_lit(c, "quit") || is_lit(c, "exit") || is_lit(c, "q") {
        return Ok(Cmd::Quit);
    }
    if is_lit(c, "config") {
        return Ok(Cmd::ConfigShow);
    }
    if is_lit(c, "json") {
        let sub = if w.len() > 1 { w[1].clone() } else { str_chars("dump") };
        assert(w.len() > 1 ==> sub@ == wv[1]);
        if is_lit(sub.as_slice(), "dump") || is_lit(sub.as_slice(), "pretty") || is_lit(sub.as_slice(), "show") {
            return Ok(Cmd::JsonDump);
        }
        if is_lit(sub.as_slice(), "list") || is_lit(sub.as_slice(), "ls") {
            return Ok(Cmd::KeysList { reveal: show });
        }
        return Err(text2("unknown json subcommand: ", sub.as_slice()));
    }
    if is_lit(c, "keys") {
        let sub = if w.len() > 1 { w[1].clone() } else { str_chars("list") };
        assert(w.len() > 1 ==> sub@ == wv[1]);
        if is_lit(sub.as_slice(), "list") || is_lit(sub.as_slice(), "ls") {
            return Ok(Cmd::KeysList { reveal: show });
        }
        if is_lit(sub.as_slice(), "add") {
            let note = if w.len() > 2 {
                join_exec(&w, 2)
            } else {
                proof {
                    assert(wv.skip(2) =~= Seq::<Seq<char>>::empty());
                }
                String::new()
            };
            return Ok(Cmd::KeysAdd { note });
        }
        if is_lit(sub.as_slice(), "del") || is_lit(sub.as_slice(), "rm") || is_lit(sub.as_slice(), "delete") {
            if w.len() <= 2 {
                return Err("keys del <index>".to_string());
            }
            assert(w[2]@ == wv[2]);
            return match parse_usize_chars(w[2].as_slice()) {
                None => Err("keys del <index> must be a number".to_string()),
                Some(index) => Ok(Cmd::KeysDel { index, yes }),
            };
        }
        return Err(text2("unknown keys subcommand: ", sub.as_slice()));
    }
    if is_lit(c, "restart") {
        return Ok(Cmd::Restart { yes });
    }
    if is_lit(c, "stop") {
        return Ok(Cmd::Stop { yes });
    }
    if is_lit(c, "start") {
        return Ok(Cmd::Start);
    }
    if is_lit(c, "refresh") || is_lit(c, "refresh-endpoints") {
        return Ok(Cmd::Refresh);
    }
    if is_lit(c, "backup") {
        return Ok(Cmd::Backup);
    }
    if is_lit(c, "dry-test") || is_lit(c, "dry_test") || is_lit(c, "dry-test-rules") {
        return Ok(Cmd::DryTest);
    }
    Err(text_plus("unknown command: ", c, " (try help)"))
}

/// The fields of a JSON command object that the command reads, each as the
/// object gave it: `None` where the key is missing or holds another type.
#[derive(Debug, Clone)]
pub struct CmdFields {
    pub cmd: Option<String>,
    pub yes: Option<bool>,
    pub reveal: Option<bool>,
    pub note: Option<String>,
    pub index: Option<u64>,
    pub op: Option<String>,
}

/// A text field by its chars.
pub open spec fn opt_text(o: Option<String>) -> Option<Seq<char>> {
    match o {
        Some(s) => Some(s@),
        None => None,
    }
}

/// The command a JSON object names: `cmd` picks it, `yes`/`reveal` default
/// to false, `note` to empty, `op` to `list`.
pub open spec fn json_cmd(f: CmdFields) -> Result<CmdV, Seq<char>> {
    let yes = match f.yes { Some(b) => b, None => false };
    let reveal = match f.reveal { Some(b) => b, None => false };
    let note = match opt_text(f.note) { Some(n) => n, None => Seq::empty() };
    let op = match opt_text(f.op) { Some(o) => o, None => "list"@ };
    match opt_text(f.cmd) {
        None => Err("missing cmd"@),
        Some(c) => if c == "help"@ {
            Ok(CmdV::Help)
        } else if c == "status"@ || c == "ping"@ {
            Ok(CmdV::Status)
        } else if c == "quit"@ || c == "exit"@ {
            Ok(CmdV::Quit)
        } else if c == "config"@ {
            Ok(CmdV::ConfigShow)
        } else if c == "json.dump"@ || c == "json_dump"@ || c == "json"@ {
            Ok(CmdV::JsonDump)
        } else if c == "keys.list"@ || c == "keys_list"@ {
            Ok(CmdV::KeysList { reveal })
        } else if c == "keys.add"@ || c == "keys_add"@ {
            Ok(CmdV::KeysAdd { note })
        } else if c == "keys.del"@ || c == "keys_del"@ {
            match f.index {
                None => Err("keys.del needs index"@),
                Some(n) => Ok(CmdV::KeysDel { index: n as usize, yes }),
            }
        } else if c == "keys"@ {
            if op == "list"@ {
                Ok(CmdV::KeysList { reveal })
            } else if op == "add"@ {
                Ok(CmdV::KeysAdd { note })
            } else if op == "del"@ {
                match f.index {
                    None => Err("keys del needs index"@),
                    Some(n) => Ok(CmdV::KeysDel { index: n as usize, yes }),
                }
            } else {
                Err("unknown keys op: "@ + op)
            }
        } else if c == "restart"@ {
            Ok(CmdV::Restart { yes })
        } else if c == "stop"@ {
            Ok(CmdV::Stop { yes })
        } else if c == "start"@ {
            Ok(CmdV::Start)
        } else if c == "refresh"@ || c == "refresh-endpoints"@ {
            Ok(CmdV::Refresh)
        } else if c == "backup"@ {
            Ok(CmdV::Backup)
        } else if c == "dry-test"@ || c == "dry_test"@ || c == "dry-test-rules"@ {
            Ok(CmdV::DryTest)
        } else {
            Err("unknown cmd: "@ + c)
        },
    }
}

fn text_of(o: &Option<String>, dflt: &str) -> (r: Vec<char>)
    ensures
        r@ == (match opt_text(*o) { Some(t) => t, None => dflt@ }),
{
    match o {
        Some(t) => str_chars(t.as_str()),
        None => str_chars(dflt),
    }
}

/// The command a JSON command object names.
pub fn parse_json(f: &CmdFields) -> (r: Result<Cmd, String>)
    ensures
        match json_cmd(*f) {
            Ok(c) => r matches Ok(x) && x@ == c,
            Err(m) => r matches Err(e) && e@ == m,
        },
{
    let yes = match f.yes { Some(b) => b, None => false };
    let reveal = match f.reveal { Some(b) => b, None => false };
    let c = match &f.cmd {
        None => return Err("missing cmd".to_string()),
        Some(c) => str_chars(c.as_str()),
    };
    let c = c.as_slice();
    if is_lit(c, "help") {
        return Ok(Cmd::Help);
    }
    if is_lit(c, "status") || is_lit(c, "ping") {
        return Ok(Cmd::Status);
    }
    if is_lit(c, "quit") || is_lit(c, "exit") {
        return Ok(Cmd::Quit);
    }
    if is_lit(c, "config") {
        return Ok(Cmd::ConfigShow);
    }
    if is_lit(c, "json.dump") || is_lit(c, "json_dump") || is_lit(c, "json") {
        return Ok(Cmd::JsonDump);
    }
    if is_lit(c, "keys.list") || is_lit(c, "keys_list") {
        return Ok(Cmd::KeysList { reveal });
    }
    if is_lit(c, "keys.add") || is_lit(c, "keys_add") {
        let note = chars_string(text_of(&f.note, "").as_slice());
        proof {
            reveal_strlit("");
            assert(""@ =~= Seq::<char>::empty());
        }
        return Ok(Cmd::KeysAdd { note });
    }
    if is_lit(c, "keys.del") || is_lit(c, "keys_del") {
        return match f.index {
            None => Err("keys.del needs index".to_string()),
            Some(n) => Ok(Cmd::KeysDel { index: n as usize, yes }),
        };
    }
    if is_lit(c, "keys") {
        let op = text_of(&f.op, "list");
        let op = op.as_slice();
        if is_lit(op, "list") {
            return Ok(Cmd::KeysList { reveal });
        }
        if is_lit(op, "add") {
            let note = chars_string(text_of(&f.note, "").as_slice());
            proof {
            reveal_strlit("");
            assert(""@ =~= Seq::<char>::empty());
        }
            return Ok(Cmd::KeysAdd { note });
        }
        if is_lit(op, "del") {
            return match f.index {
                None => Err("keys del needs index".to_string()),
                Some(n) => Ok(Cmd::KeysDel { index: n as usize, yes }),
            };
        }
        return Err(text2("unknown keys op: ", op));
    }
    if is_lit(c, "restart") {
        return Ok(Cmd::Restart { yes });
    }
    if is_lit(c, "stop") {
        return Ok(Cmd::Stop { yes });
    }
    if is_lit(c, "start") {
        return Ok(Cmd::Start);
    }
    if is_lit(c, "refresh") || is_lit(c, "refresh-endpoints") {
        return Ok(Cmd::Refresh);
    }
    if is_lit(c, "backup") {
        return Ok(Cmd::Backup);
    }
    if is_lit(c, "dry-test") || is_lit(c, "dry_test") || is_lit(c, "dry-test-rules") {
        return Ok(Cmd::DryTest);
    }
    Err(text2("unknown cmd: ", c))
}

/// How an operator line reads: blank, a JSON object, or words.
#[derive(Debug)]
pub enum LineForm {
    Empty,
    Json(String),
    Words(Vec<String>),
}

pub open spec fn texts(v: Seq<String>) -> Seq<Seq<char>> {
    v.map_values(|s: String| s@)
}

/// A line trimmed of whitespace: empty, or a JSON object when it starts
/// with `{` (handed on trimmed), or else its whitespace-separated words.
pub fn line_form(line: &str) -> (r: LineForm)
    ensures
        trim(line@).len() == 0 ==> r is Empty,
        trim(line@).len() > 0 && trim(line@)[0] == '{' ==> (r matches LineForm::Json(j) && j@ == trim(line@)),
        trim(line@).len() > 0 && trim(line@)[0] != '{' ==> (r matches LineForm::Words(w) && texts(w@) == split_ws(trim(line@))),
{
    let v = str_chars(line);
    let t = trim_chars(v.as_slice());
    if t.len() == 0 {
        return LineForm::Empty;
    }
    if t[0] == '{' {
        return LineForm::Json(chars_string(t.as_slice()));
    }
    let ws = words_of(t.as_slice());
    let mut words: Vec<String> = Vec::new();
    let mut i: usize = 0;
    while i < ws.len()
        invariant
            i <= ws.len(),
            texts(words@) == ws@.map_values(|x: Vec<char>| x@).take(i as int),
        decreases ws.len() - i,
    {
        let ghost before = texts(words@);
        words.push(chars_string(ws[i].as_slice()));
        assert(texts(words@) =~= before.push(ws@[i as int]@));
        assert(ws@.map_values(|x: Vec<char>| x@).take(i + 1) =~= before.push(ws@[i as int]@));
        i = i + 1;
    }
    assert(ws@.map_values(|x: Vec<char>| x@).take(ws.len() as int) =~= ws@.map_values(|x: Vec<char>| x@));
    LineForm::Words(words)
}

/// A token shown without its middle: up to four bytes become `****`,
/// longer ones keep their first and last two bytes around an ellipsis.
pub open spec fn masked(b: Seq<u8>) -> Seq<char> {
    if b.len() <= 4 {
        "****"@
    } else {
        decode_utf8(b.subrange(0, 2)) + "\u{2026}"@ + decode_utf8(b.subrange(b.len() - 2, b.len() as int))
    }
}

/// The two cuts that masking makes fall on char boundaries.
pub open spec fn mask_cuts_ok(b: Seq<u8>) -> bool {
    b.len() > 4 ==> is_char_boundary(b, 2) && is_char_boundary(b, b.len() - 2)
}

pub fn mask(s: &str) -> (r: String)
    requires
        mask_cuts_ok(s.spec_bytes()),
    ensures
        r@ == masked(s.spec_bytes()),
{
    let n = s.as_bytes().len();
    if n <= 4 {
        return "****".to_string();
    }
    let (head, _) = s.split_at(2);
    let (_, tail) = s.split_at(n - 2);
    proof {
        encode_utf8_decode_utf8(head@);
        encode_utf8_decode_utf8(tail@);
    }
    let mut v: Vec<char> = Vec::new();
    push_chars(&mut v, str_chars(head).as_slice());
    push_chars(&mut v, str_chars("\u{2026}").as_slice());
    push_chars(&mut v, str_chars(tail).as_slice());
    chars_string(v.as_slice())
}

fn has_char(s: &[char], c: char) -> (r: bool)
    ensures
        r == s@.contains(c),
{
    let mut i: usize = 0;
    while i < s.len()
        invariant
            i <= s.len(),
            forall|k: int| 0 <= k < i ==> s@[k] != c,
        decreases s.len() - i,
    {
        if s[i] == c {
            assert(s@[i as int] == c);
            return true;
        }
        i = i + 1;
    }
    false
}

fn ends_with_lit(s: &[char], lit: &str) -> (r: bool)
    ensures
        r == (s@.len() >= lit@.len() && s@.skip(s@.len() - lit@.len()) == lit@),
{
    let l = str_chars(lit);
    if s.len() < l.len() {
        return false;
    }
    let off = s.len() - l.len();
    let mut i: usize = 0;
    while i < l.len()
        invariant
            off + l.len() == s.len(),
            l@ == lit@,
            i <= l.len(),
            forall|k: int| 0 <= k < i ==> s@[off + k] == l@[k],
        decreases l.len() - i,
    {
        if s[off + i] != l[i] {
            assert(s@.skip(off as int)[i as int] != l@[i as int]);
            return false;
        }
        i = i + 1;
    }
    assert(s@.skip(off as int) =~= l@);
    true
}

/// A word that names a file: it holds `/`, ends in `.json` or starts with `.`.
pub open spec fn path_like(s: Seq<char>) -> bool {
    ||| s.contains('/')
    ||| (s.len() >= 5 && s.skip(s.len() - 5) == ".json"@)
    ||| (s.len() > 0 && s[0] == '.')
}

pub fn looks_like_path(s: &str) -> (r: bool)
    ensures
        r == path_like(s@),
{
    let c = str_chars(s);
    proof {
        reveal_strlit(".json");
    }
    has_char(c.as_slice(), '/') || ends_with_lit(c.as_slice(), ".json") || (c.len() > 0 && c[0] == '.')
}

/// What the operator's command line asks for.
#[derive(Debug)]
pub struct CliArgs {
    pub json: bool,
    pub config: Option<String>,
    pub data: Option<String>,
    pub socket: Option<String>,
    pub words: Vec<String>,
}

pub struct CliV {
    pub json: bool,
    pub config: Option<Seq<char>>,
    pub data: Option<Seq<char>>,
    pub socket: Option<Seq<char>>,
    pub words: Seq<Seq<char>>,
}

impl View for CliArgs {
    type V = CliV;

    open spec fn view(&self) -> CliV {
        CliV {
            json: self.json,
            config: opt_text(self.config),
            data: opt_text(self.data),
            socket: opt_text(self.socket),
            words: texts(self.words@),
        }
    }
}

/// The arguments from `i` on, read into `st`: `--json` takes a following
/// file-like word that is no flag as the data path and otherwise turns on
/// JSON lines; `--data`, `--config` and `--socket` take the next word (an
/// error where there is none); `-h`/`--help` leaves only `help`; anything
/// else is a command word.
pub open spec fn cli_from(args: Seq<Seq<char>>, i: int, st: CliV) -> Result<CliV, Seq<char>>
    decreases args.len() - i,
{
    if i < 0 || i >= args.len() {
        Ok(st)
    } else {
        let a = args[i];
        if a == "--json"@ {
            if i + 1 < args.len() && path_like(args[i + 1]) && !(args[i + 1].len() > 0 && args[i + 1][0] == '-') {
                cli_from(args, i + 2, CliV { data: Some(args[i + 1]), ..st })
            } else {
                cli_from(args, i + 1, CliV { json: true, ..st })
            }
        } else if a == "--data"@ {
            if i + 1 < args.len() {
                cli_from(args, i + 2, CliV { data: Some(args[i + 1]), ..st })
            } else {
                Err("--data needs a path"@)
            }
        } else if a == "--config"@ {
            if i + 1 < args.len() {
                cli_from(args, i + 2, CliV { config: Some(args[i + 1]), ..st })
            } else {
                Err("--config needs a path"@)
            }
        } else if a == "--socket"@ {
            if i + 1 < args.len() {
                cli_from(args, i + 2, CliV { socket: Some(args[i + 1]), ..st })
            } else {
                Err("--socket needs a path"@)
            }
        } else if a == "-h"@ || a == "--help"@ {
            cli_from(args, i + 1, CliV { words: seq!["help"@], ..st })
        } else {
            cli_from(args, i + 1, CliV { words: st.words.push(a), ..st })
        }
    }
}

pub open spec fn cli_start() -> CliV {
    CliV { json: false, config: None, data: None, socket: None, words: Seq::empty() }
}

/// Reads the operator's arguments (the program name left out).
pub fn parse_cli_args(args: &[String]) -> (r: Result<CliArgs, String>)
    ensures
        match cli_from(texts(args@), 0, cli_start()) {
            Ok(c) => r matches Ok(x) && x@ == c,
            Err(m) => r matches Err(e) && e@ == m,
        },
{
    let ghost all = texts(args@);
    let mut st = CliArgs { json: false, config: None, data: None, socket: None, words: Vec::new() };
    proof {
        assert(texts(st.words@) =~= Seq::<Seq<char>>::empty());
    }
    let mut i: usize = 0;
    while i < args.len()
        invariant
            all == texts(args@),
            i <= args.len(),
            cli_from(all, i as int, st@) == cli_from(all, 0, cli_start()),
        decreases args.len() - i,
    {
        let a = str_chars(args[i].as_str());
        let a = a.as_slice();
        assert(all[i as int] == args@[i as int]@);
        if is_lit(a, "--json") {
            if i + 1 < args.len() {
                let next = args[i + 1].as_str();
                assert(all[i + 1] == next@);
                let nc = str_chars(next);
                if looks_like_path(next) && !(nc.len() > 0 && nc[0] == '-') {
                    st.data = Some(args[i + 1].clone());
                    i = i + 2;
                    continue;
                }
            }
            st.json = true;
            i = i + 1;
        } else if is_lit(a, "--data") || is_lit(a, "--config") || is_lit(a, "--socket") {
            if i + 1 >= args.len() {
                if is_lit(a, "--data") {
                    return Err("--data needs a path".to_string());
                } else if is_lit(a, "--config") {
                    return Err("--config needs a path".to_string());
                } else {
                    return Err("--socket needs a path".to_string());
                }
            }
            assert(all[i + 1] == args@[i + 1]@);
            let v = args[i + 1].clone();
            if is_lit(a, "--data") {
                st.data = Some(v);
            } else if is_lit(a, "--config") {
                st.config = Some(v);
            } else {
                st.socket = Some(v);
            }
            i = i + 2;
        } else if is_lit(a, "-h") || is_lit(a, "--help") {
            let mut w: Vec<String> = Vec::new();
            w.push("help".to_string());
            st.words = w;
            assert(texts(st.words@) =~= seq!["help"@]);
            i = i + 1;
        } else {
            let ghost before = texts(st.words@);
            st.words.push(args[i].clone());
            assert(texts(st.words@) =~= before.push(all[i as int]));
            i = i + 1;
        }
    }
    Ok(st)
}

/// The operator's help text.
pub const HELP: &'static str = "ATOMOS operator ctl

Usage:
  atomos-ctl [--config PATH] [--data PATH] [--json] <command> [args]
  atomos-ctl                          interactive prompt  >
  atomos-ctl --json                   JSON lines on stdin → JSON lines on stdout

Commands:
  help                 this text
  status | ping        control Unix socket + HTTP bind liveness
  keys list            list /keys in the data file (masked unless --reveal)
  keys add [note]      append a random token via json.crud
  keys del <index>     delete key at index (needs --yes)
  json dump            pretty-print the data file
  config               bind, socket, rules_path, static_root
  start | stop | restart | refresh | backup | dry-test
  quit                 leave the prompt

Flags:
  --config PATH        ATOMOS_CONFIG or config.json
  --data PATH          JSON file for keys CRUD (default data.json)
  --socket PATH        override control Unix socket
  --json               machine envelope (one JSON object per line)
  --yes                confirm destructive commands
  --reveal             show full tokens
  -h, --help

JSON line API (GUI / scripts):
  {\"cmd\":\"status\"}
  {\"cmd\":\"keys.list\",\"reveal\":false}
  {\"cmd\":\"keys.add\",\"note\":\"lab\"}
  {\"cmd\":\"keys.del\",\"index\":0,\"yes\":true}
  {\"cmd\":\"json.dump\"}
  {\"cmd\":\"refresh\"}
  {\"cmd\":\"restart\",\"yes\":true}

Control plane is the Unix socket ($XDG_RUNTIME_DIR/atomos.sock), not the HTTP bind.
";

pub fn help_text() -> (r: String)
    ensures
        r@ == HELP@,
{
    HELP.to_string()
}

/// The kind of an I/O failure, as far as replies tell kinds apart.
#[derive(Debug, Clone, Copy, PartialEq, Eq)]
pub enum IoKind {
    PermissionDenied,
    NotFound,
    ConnectionRefused,
    ConnectionReset,
    TimedOut,
    WouldBlock,
    Other,
}

/// The error code and message of a failed reply.
#[derive(Debug)]
pub struct ErrorReply {
    pub error: String,
    pub message: String,
}

/// What a reply about an I/O failure on `path` says: its code and message.
pub open spec fn io_reply(kind: IoKind, text: Seq<char>, path: Seq<char>) -> (Seq<char>, Seq<char>) {
    match kind {
        IoKind::PermissionDenied => ("permission_denied"@, "permission denied opening "@ + path + " (mode 0600, same EUID only)"@),
        IoKind::NotFound => if path.len() >= 5 && path.skip(path.len() - 5) == ".sock"@ {
            ("server_unreachable"@, socket_missing(path))
        } else {
            ("not_found"@, "not found: "@ + path)
        },
        IoKind::ConnectionRefused | IoKind::ConnectionReset => ("server_unreachable"@, "nothing is listening on "@ + path + " (stale socket file?)"@),
        IoKind::TimedOut | IoKind::WouldBlock => ("timeout"@, "timeout talking to "@ + path),
        IoKind::Other => ("io"@, path + ": "@ + text),
    }
}

pub open spec fn socket_missing(path: Seq<char>) -> Seq<char> {
    "control Unix socket "@ + path + " is missing (not a TCP port; HTTP bind is separate)"@
}

/// Connecting to the control socket: a missing file means the server is
/// unreachable, whatever the path is called.
pub open spec fn connect_reply(kind: IoKind, text: Seq<char>, path: Seq<char>) -> (Seq<char>, Seq<char>) {
    let r = io_reply(kind, text, path);
    if r.0 == "not_found"@ {
        ("server_unreachable"@, socket_missing(path))
    } else {
        r
    }
}

fn cat3(a: &str, b: &[char], c: &str) -> (r: Vec<char>)
    ensures
        r@ == a@ + b@ + c@,
{
    let mut v: Vec<char> = Vec::new();
    push_chars(&mut v, str_chars(a).as_slice());
    push_chars(&mut v, b);
    push_chars(&mut v, str_chars(c).as_slice());
    v
}

fn reply(code: &str, msg: Vec<char>) -> (r: ErrorReply)
    ensures
        r.error@ == code@,
        r.message@ == msg@,
{
    ErrorReply { error: code.to_string(), message: chars_string(msg.as_slice()) }
}

pub fn io_error_reply(kind: IoKind, text: &str, path: &str) -> (r: ErrorReply)
    ensures
        (r.error@, r.message@) == io_reply(kind, text@, path@),
{
    let p = str_chars(path);
    let p = p.as_slice();
    proof {
        reveal_strlit("");
        assert(""@ =~= Seq::<char>::empty());
    }
    match kind {
        IoKind::PermissionDenied => reply("permission_denied", cat3("permission denied opening ", p, " (mode 0600, same EUID only)")),
        IoKind::NotFound => if ends_with_lit(p, ".sock") {
            proof { reveal_strlit(".sock"); }
            reply("server_unreachable", cat3("control Unix socket ", p, " is missing (not a TCP port; HTTP bind is separate)"))
        } else {
            proof { reveal_strlit(".sock"); }
            let r = reply("not_found", cat3("not found: ", p, ""));
            assert("not found: "@ + p@ + ""@ =~= "not found: "@ + p@);
            r
        },
        IoKind::ConnectionRefused | IoKind::ConnectionReset => reply("server_unreachable", cat3("nothing is listening on ", p, " (stale socket file?)")),
        IoKind::TimedOut | IoKind::WouldBlock => {
            let r = reply("timeout", cat3("timeout talking to ", p, ""));
            assert("timeout talking to "@ + p@ + ""@ =~= "timeout talking to "@ + p@);
            r
        },
        IoKind::Other => {
            let mut m: Vec<char> = Vec::new();
            push_chars(&mut m, p);
            push_chars(&mut m, str_chars(": ").as_slice());
            push_chars(&mut m, str_chars(text).as_slice());
            reply("io", m)
        },
    }
}

pub fn connect_error_reply(kind: IoKind, text: &str, path: &str) -> (r: ErrorReply)
    ensures
        (r.error@, r.message@) == connect_reply(kind, text@, path@),
{
    let r = io_error_reply(kind, text, path);
    let code = str_chars(r.error.as_str());
    if is_lit(code.as_slice(), "not_found") {
        let p = str_chars(path);
        reply("server_unreachable", cat3("control Unix socket ", p.as_slice(), " is missing (not a TCP port; HTTP bind is separate)"))
    } else {
        r
    }
}

/// An operation's failure, as the operator sees it: an I/O failure with
/// its kind and text, or any other failure by its text.
#[derive(Debug)]
pub enum AtomFault {
    Io { kind: IoKind, text: String },
    Other(String),
}

pub open spec fn atom_message(err: AtomFault, path: Seq<char>) -> Seq<char> {
    match err {
        AtomFault::Io { kind, text } => io_reply(kind, text@, path).1,
        AtomFault::Other(t) => t@,
    }
}

/// The message a failed operation is reported with.
pub fn atom_err_msg(err: AtomFault, path: &str) -> (r: String)
    ensures
        r@ == atom_message(err, path@),
{
    match err {
        AtomFault::Io { kind, text } => io_error_reply(kind, text.as_str(), path).message,
        AtomFault::Other(t) => t,
    }
}

/// A stored key as the key list reads it: its token, note and creation
/// time where they are present with the right type.
#[derive(Debug, Clone)]
pub struct KeyEntry {
    pub token: Option<String>,
    pub note: Option<String>,
    pub created_s: Option<u64>,
}

/// A row of the key list: a key with a token (masked unless revealed),
/// or an entry of another shape, shown as it is stored.
#[derive(Debug)]
pub enum KeyRow {
    Token { index: usize, token: String, note: String, created_s: u64 },
    Other { index: usize },
}

pub enum KeyRowV {
    Token { index: usize, token: Seq<char>, note: Seq<char>, created_s: u64 },
    Other { index: usize },
}

impl View for KeyRow {
    type V = KeyRowV;

    open spec fn view(&self) -> KeyRowV {
        match self {
            KeyRow::Token { index, token, note, created_s } => KeyRowV::Token {
                index: *index,
                token: token@,
                note: note@,
                created_s: *created_s,
            },
            KeyRow::Other { index } => KeyRowV::Other { index: *index },
        }
    }
}

/// Every token that will be masked can be cut where masking cuts.
pub open spec fn maskable(entries: Seq<KeyEntry>, reveal: bool) -> bool {
    !reveal ==> forall|i: int| 0 <= i < entries.len() ==> entry_maskable(#[trigger] entries[i])
}

pub open spec fn entry_maskable(e: KeyEntry) -> bool {
    e.token matches Some(t) ==> mask_cuts_ok(encode_utf8(t@))
}

/// The row the `i`-th entry is listed as.
pub open spec fn key_row(e: KeyEntry, i: int, reveal: bool) -> KeyRowV {
    match e.token {
        Some(t) => KeyRowV::Token {
            index: i as usize,
            token: if reveal { t@ } else { masked(encode_utf8(t@)) },
            note: match opt_text(e.note) { Some(n) => n, None => Seq::empty() },
            created_s: match e.created_s { Some(c) => c, None => 0 },
        },
        None => KeyRowV::Other { index: i as usize },
    }
}

/// The key list: one row per entry, in order.
pub fn key_rows(entries: &[KeyEntry], reveal: bool) -> (r: Vec<KeyRow>)
    requires
        maskable(entries@, reveal),
    ensures
        r.len() == entries.len(),
        forall|i: int| 0 <= i < r.len() ==> #[trigger] r@[i]@ == key_row(entries@[i], i, reveal),
{
    let mut rows: Vec<KeyRow> = Vec::new();
    let mut i: usize = 0;
    while i < entries.len()
        invariant
            i <= entries.len(),
            rows.len() == i,
            maskable(entries@, reveal),
            forall|k: int| 0 <= k < i ==> #[trigger] rows@[k]@ == key_row(entries@[k], k, reveal),
        decreases entries.len() - i,
    {
        let e = &entries[i];
        assert(!reveal ==> entry_maskable(entries@[i as int]));
        let row = match &e.token {
            Some(t) => {
                let token = if reveal { t.clone() } else { mask(t.as_str()) };
                let note = match &e.note {
                    Some(n) => n.clone(),
                    None => String::new(),
                };
                let created_s = match e.created_s {
                    Some(c) => c,
                    None => 0,
                };
                KeyRow::Token { index: i, token, note, created_s }
            },
            None => KeyRow::Other { index: i },
        };
        rows.push(row);
        i = i + 1;
    }
    rows
}

/// The fields of a reply that its human rendering reads.
#[derive(Debug, Clone)]
pub struct ReplyFields {
    pub help: Option<String>,
    pub ok: Option<bool>,
    pub error: Option<String>,
    pub message: Option<String>,
    pub hint: Option<String>,
}

/// A reply for a person: the help text where there is one; for a failure
/// the error code, `: ` and the message where it is not empty, and the
/// hint on a line of its own; `None` where the reply itself is to be
/// pretty-printed.
pub open spec fn human(f: ReplyFields) -> Option<Seq<char>> {
    match opt_text(f.help) {
        Some(h) => Some(h),
        None => if f.ok != Some(true) {
            let err = match opt_text(f.error) { Some(e) => e, None => "error"@ };
            let msg = match opt_text(f.message) { Some(m) => m, None => Seq::empty() };
            let head = if msg.len() == 0 { err } else { err + ": "@ + msg };
            match opt_text(f.hint) {
                Some(h) => Some(head.push('\n') + h),
                None => Some(head),
            }
        } else {
            None
        },
    }
}

pub fn format_human(f: &ReplyFields) -> (r: Option<String>)
    ensures
        opt_text(r) == human(*f),
{
    if let Some(h) = &f.help {
        return Some(h.clone());
    }
    let ok = match f.ok { Some(b) => b, None => false };
    if ok {
        return None;
    }
    let err = text_of(&f.error, "error");
    let msg = text_of(&f.message, "");
    proof {
        reveal_strlit("");
        assert(""@ =~= Seq::<char>::empty());
    }
    let mut v: Vec<char> = Vec::new();
    push_chars(&mut v, err.as_slice());
    if msg.len() > 0 {
        push_chars(&mut v, str_chars(": ").as_slice());
        push_chars(&mut v, msg.as_slice());
    }
    if let Some(h) = &f.hint {
        v.push('\n');
        push_chars(&mut v, str_chars(h.as_str()).as_slice());
    }
    Some(chars_string(v.as_slice()))
}

proof fn lemma_contains_push(t: Seq<Seq<char>>, x: Seq<char>, y: Seq<char>)
    ensures
        t.push(x).contains(y) == (t.contains(y) || x == y),
{
    if t.push(x).contains(y) && !t.contains(y) {
        let j = choose|j: int| 0 <= j < t.push(x).len() && #[trigger] t.push(x)[j] == y;
        if j < t.len() {
            assert(t[j] == y);
        }
    }
    if t.contains(y) {
        let j = choose|j: int| 0 <= j < t.len() && #[trigger] t[j] == y;
        assert(t.push(x)[j] == y);
    }
    if x == y {
        assert(t.push(x)[t.len() as int] == y);
    }
}

proof fn lemma_flags_distinct()
    ensures
        "--yes"@ != "--reveal"@,
        "-y"@ != "--reveal"@,
{
    reveal_strlit("--yes");
    reveal_strlit("-y");
    reveal_strlit("--reveal");
    assert("--yes"@.len() != "--reveal"@.len());
    assert("-y"@.len() != "--reveal"@.len());
}

/// Law: the command word alone decides start, stop and restart. With the
/// flags taken out, a word list parses to Start exactly when its first
/// word is `start`, to Stop exactly when it is `stop`, and to Restart
/// exactly when it is `restart`; the last two are confirmed exactly when
/// `--yes` or `-y` is among the words.
pub proof fn law_lifecycle_words(ws: Seq<Seq<char>>)
    ensures
        ({
            let w = ws.filter(|x: Seq<char>| !is_flag(x));
            let yes = ws.contains("--yes"@) || ws.contains("-y"@);
            let first = |c: Seq<char>| w.len() > 0 && w[0] == c;
            &&& (parse_words_spec(ws) matches Ok(CmdV::Start)) <==> first("start"@)
            &&& (parse_words_spec(ws) matches Ok(CmdV::Stop { .. })) <==> first("stop"@)
            &&& (parse_words_spec(ws) matches Ok(CmdV::Restart { .. })) <==> first("restart"@)
            &&& first("stop"@) ==> (parse_words_spec(ws) matches Ok(CmdV::Stop { yes: y }) && y == yes)
            &&& first("restart"@) ==> (parse_words_spec(ws) matches Ok(CmdV::Restart { yes: y }) && y == yes)
        }),
{
    reveal_strlit("help");
    reveal_strlit("-h");
    reveal_strlit("--help");
    reveal_strlit("status");
    reveal_strlit("ping");
    reveal_strlit("quit");
    reveal_strlit("exit");
    reveal_strlit("q");
    reveal_strlit("config");
    reveal_strlit("json");
    reveal_strlit("keys");
    reveal_strlit("restart");
    reveal_strlit("stop");
    reveal_strlit("start");
    assert("restart"@.len() != "help"@.len());
    assert("restart"@.len() != "-h"@.len());
    assert("restart"@.len() != "--help"@.len());
    assert("restart"@.len() != "status"@.len());
    assert("restart"@.len() != "ping"@.len());
    assert("restart"@.len() != "quit"@.len());
    assert("restart"@.len() != "exit"@.len());
    assert("restart"@.len() != "q"@.len());
    assert("restart"@.len() != "config"@.len());
    assert("restart"@.len() != "json"@.len());
    assert("restart"@.len() != "keys"@.len());
    assert("stop"@[0] != "help"@[0]);
    assert("stop"@.len() != "-h"@.len());
    assert("stop"@.len() != "--help"@.len());
    assert("stop"@.len() != "status"@.len());
    assert("stop"@[0] != "ping"@[0]);
    assert("stop"@[0] != "quit"@[0]);
    assert("stop"@[0] != "exit"@[0]);
    assert("stop"@.len() != "q"@.len());
    assert("stop"@.len() != "config"@.len());
    assert("stop"@[0] != "json"@[0]);
    assert("stop"@[0] != "keys"@[0]);
    assert("stop"@.len() != "restart"@.len());
    assert("start"@.len() != "help"@.len());
    assert("start"@.len() != "-h"@.len());
    assert("start"@.len() != "--help"@.len());
    assert("start"@.len() != "status"@.len());
    assert("start"@.len() != "ping"@.len());
    assert("start"@.len() != "quit"@.len());
    assert("start"@.len() != "exit"@.len());
    assert("start"@.len() != "q"@.len());
    assert("start"@.len() != "config"@.len());
    assert("start"@.len() != "json"@.len());
    assert("start"@.len() != "keys"@.len());
    assert("start"@.len() != "restart"@.len());
    assert("start"@.len() != "stop"@.len());
}

/// Law: in the JSON form the `cmd` field alone decides start, stop and
/// restart: Start exactly for `start`, Stop exactly for `stop` and
/// Restart exactly for `restart`, the last two confirmed by `yes`.
pub proof fn law_lifecycle_json(f: CmdFields)
    ensures
        (json_cmd(f) matches Ok(CmdV::Start)) <==> opt_text(f.cmd) == Some("start"@),
        (json_cmd(f) matches Ok(CmdV::Stop { .. })) <==> opt_text(f.cmd) == Some("stop"@),
        (json_cmd(f) matches Ok(CmdV::Restart { .. })) <==> opt_text(f.cmd) == Some("restart"@),
        opt_text(f.cmd) == Some("stop"@) ==> (json_cmd(f) matches Ok(CmdV::Stop { yes: y }) && y == (f.yes == Some(true))),
{
    reveal_strlit("help");
    reveal_strlit("status");
    reveal_strlit("ping");
    reveal_strlit("quit");
    reveal_strlit("exit");
    reveal_strlit("config");
    reveal_strlit("json.dump");
    reveal_strlit("json_dump");
    reveal_strlit("json");
    reveal_strlit("keys.list");
    reveal_strlit("keys_list");
    reveal_strlit("keys.add");
    reveal_strlit("keys_add");
    reveal_strlit("keys.del");
    reveal_strlit("keys_del");
    reveal_strlit("keys");
    reveal_strlit("restart");
    reveal_strlit("stop");
    reveal_strlit("start");
    assert("restart"@.len() != "help"@.len());
    assert("restart"@.len() != "status"@.len());
    assert("restart"@.len() != "ping"@.len());
    assert("restart"@.len() != "quit"@.len());
    assert("restart"@.len() != "exit"@.len());
    assert("restart"@.len() != "config"@.len());
    assert("restart"@.len() != "json.dump"@.len());
    assert("restart"@.len() != "json_dump"@.len());
    assert("restart"@.len() != "json"@.len());
    assert("restart"@.len() != "keys.list"@.len());
    assert("restart"@.len() != "keys_list"@.len());
    assert("restart"@.len() != "keys.add"@.len());
    assert("restart"@.len() != "keys_add"@.len());
    assert("restart"@.len() != "keys.del"@.len());
    assert("restart"@.len() != "keys_del"@.len());
    assert("restart"@.len() != "keys"@.len());
    assert("stop"@[0] != "help"@[0]);
    assert("stop"@.len() != "status"@.len());
    assert("stop"@[0] != "ping"@[0]);
    assert("stop"@[0] != "quit"@[0]);
    assert("stop"@[0] != "exit"@[0]);
    assert("stop"@.len() != "config"@.len());
    assert("stop"@.len() != "json.dump"@.len());
    assert("stop"@.len() != "json_dump"@.len());
    assert("stop"@[0] != "json"@[0]);
    assert("stop"@.len() != "keys.list"@.len());
    assert("stop"@.len() != "keys_list"@.len());
    assert("stop"@.len() != "keys.add"@.len());
    assert("stop"@.len() != "keys_add"@.len());
    assert("stop"@.len() != "keys.del"@.len());
    assert("stop"@.len() != "keys_del"@.len());
    assert("stop"@[0] != "keys"@[0]);
    assert("stop"@.len() != "restart"@.len());
    assert("start"@.len() != "help"@.len());
    assert("start"@.len() != "status"@.len());
    assert("start"@.len() != "ping"@.len());
    assert("start"@.len() != "quit"@.len());
    assert("start"@.len() != "exit"@.len());
    assert("start"@.len() != "config"@.len());
    assert("start"@.len() != "json.dump"@.len());
    assert("start"@.len() != "json_dump"@.len());
    assert("start"@.len() != "json"@.len());
    assert("start"@.len() != "keys.list"@.len());
    assert("start"@.len() != "keys_list"@.len());
    assert("start"@.len() != "keys.add"@.len());
    assert("start"@.len() != "keys_add"@.len());
    assert("start"@.len() != "keys.del"@.len());
    assert("start"@.len() != "keys_del"@.len());
    assert("start"@.len() != "keys"@.len());
    assert("start"@.len() != "restart"@.len());
    assert("start"@.len() != "stop"@.len());
}

} // verus!
