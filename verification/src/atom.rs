//! Operator actions: their kinds, their failures, and JSON pointers.
use vstd::prelude::*;
use crate::text::{str_chars, chars_string, split_from, split_char};
use crate::rules::{RuleError, RuleErrorV, rule_error_text};

verus! {

/// Whether an action only reads, or also changes the world.
#[derive(Debug, Clone, Copy, PartialEq, Eq)]
pub enum AtomKind {
    Pure,
    Effectful,
}

/// Why an operator action failed.
#[derive(Debug)]
pub enum AtomError {
    Input(String),
    Bound,
    Json(String),
    NotFound,
    Conflict,
    PureActuate,
    Unknown(String),
}

/// The most segments a pointer may have.
pub const MAX_POINTER_PARTS: usize = 8;

/// Every non-overlapping `a b` pair, left to right, replaced by `to`.
pub open spec fn replace_pair(s: Seq<char>, a: char, b: char, to: char) -> Seq<char>
    decreases s.len(),
{
    if s.len() < 2 {
        s
    } else if s[0] == a && s[1] == b {
        seq![to] + replace_pair(s.skip(2), a, b, to)
    } else {
        seq![s[0]] + replace_pair(s.skip(1), a, b, to)
    }
}

/// A pointer segment unescaped: `~1` becomes `/`, then `~0` becomes `~`.
pub open spec fn unescape(s: Seq<char>) -> Seq<char> {
    replace_pair(replace_pair(s, '~', '1', '/'), '~', '0', '~')
}

/// The unescaped segments after the leading `/`.
pub open spec fn pointer_parts(p: Seq<char>) -> Seq<Seq<char>> {
    split_from(p, '/', 0).skip(1).map_values(|x: Seq<char>| unescape(x))
}

pub enum PointerV {
    Parts(Seq<Seq<char>>),
    NotPointer,
    TooDeep,
}

/// A JSON pointer read: empty is the whole document; otherwise it must
/// start with `/` and have at most eight segments.
pub open spec fn pointer_spec(p: Seq<char>) -> PointerV {
    if p.len() == 0 {
        PointerV::Parts(Seq::empty())
    } else if p[0] != '/' {
        PointerV::NotPointer
    } else if pointer_parts(p).len() > MAX_POINTER_PARTS {
        PointerV::TooDeep
    } else {
        PointerV::Parts(pointer_parts(p))
    }
}

fn replace_pair_exec(s: &[char], a: char, b: char, to: char) -> (r: Vec<char>)
    ensures
        r@ == replace_pair(s@, a, b, to),
{
    let mut out: Vec<char> = Vec::new();
    let mut i: usize = 0;
    assert(out@ + s@.skip(0) =~= s@);
    assert(out@ + replace_pair(s@.skip(0), a, b, to) =~= replace_pair(s@.skip(0), a, b, to));
    while i < s.len()
        invariant
            i <= s.len(),
            out@ + replace_pair(s@.skip(i as int), a, b, to) == replace_pair(s@, a, b, to),
        decreases s.len() - i,
    {
        let ghost rest = s@.skip(i as int);
        if i + 1 < s.len() && s[i] == a && s[i + 1] == b {
            assert(rest.skip(2) =~= s@.skip(i + 2));
            out.push(to);
            assert(out@ + replace_pair(s@.skip(i + 2), a, b, to) =~= (out@.drop_last()) + (seq![to] + replace_pair(rest.skip(2), a, b, to)));
            i = i + 2;
        } else {
            assert(rest.skip(1) =~= s@.skip(i + 1));
            proof {
                if rest.len() < 2 {
                    assert(replace_pair(rest, a, b, to) == rest);
                    assert(replace_pair(rest.skip(1), a, b, to) == rest.skip(1));
                    assert(rest =~= seq![rest[0]] + rest.skip(1));
                }
            }
            out.push(s[i]);
            assert(out@ + replace_pair(s@.skip(i + 1), a, b, to) =~= (out@.drop_last()) + (seq![rest[0]] + replace_pair(rest.skip(1), a, b, to)));
            i = i + 1;
        }
    }
    assert(s@.skip(s.len() as int) =~= Seq::<char>::empty());
    assert(out@ + Seq::<char>::empty() =~= out@);
    out
}

/// Splits a JSON pointer into its unescaped segments.
pub fn split_pointer(p: &str) -> (r: Result<Vec<String>, AtomError>)
    ensures
        match pointer_spec(p@) {
            PointerV::Parts(ps) => r matches Ok(v) && v@.map_values(|x: String| x@) == ps,
            PointerV::NotPointer => r matches Err(AtomError::Input(m)) && m@ == "pointer"@,
            PointerV::TooDeep => r matches Err(AtomError::Bound),
        },
{
    let c = str_chars(p);
    if c.len() == 0 {
        let v: Vec<String> = Vec::new();
        assert(v@.map_values(|x: String| x@) =~= Seq::<Seq<char>>::empty());
        return Ok(v);
    }
    if c[0] != '/' {
        return Err(AtomError::Input("pointer".to_string()));
    }
    let pieces = split_char(c.as_slice(), '/');
    let ghost sp = split_from(p@, '/', 0);
    assert(pieces@.map_values(|x: Vec<char>| x@) == sp);
    let ghost want = pointer_parts(p@);
    let mut out: Vec<String> = Vec::new();
    let mut i: usize = 1;
    if pieces.len() > MAX_POINTER_PARTS + 1 {
        assert(want.len() == sp.len() - 1);
        return Err(AtomError::Bound);
    }
    while i < pieces.len()
        invariant
            1 <= i <= pieces.len(),
            pieces@.map_values(|x: Vec<char>| x@) == sp,
            want == sp.skip(1).map_values(|x: Seq<char>| unescape(x)),
            out@.map_values(|x: String| x@) == want.take(i - 1),
        decreases pieces.len() - i,
    {
        let once = replace_pair_exec(pieces[i].as_slice(), '~', '1', '/');
        let twice = replace_pair_exec(once.as_slice(), '~', '0', '~');
        let ghost before = out@.map_values(|x: String| x@);
        assert(pieces@[i as int]@ == sp[i as int]);
        assert(twice@ == unescape(sp[i as int]));
        assert(want[i - 1] == unescape(sp.skip(1)[i - 1]));
        assert(sp.skip(1)[i - 1] == sp[i as int]);
        out.push(chars_string(twice.as_slice()));
        assert(want.take(i as int) =~= want.take(i - 1).push(want[i - 1]));
        assert(out@.map_values(|x: String| x@) =~= want.take(i as int));
        i = i + 1;
    }
    assert(want.take(pieces.len() - 1) =~= want);
    Ok(out)
}

/// The operator actions, by name.
#[derive(Debug, Clone, Copy, PartialEq, Eq)]
pub enum AtomId {
    SignalGet,
    JsonPretty,
    ResourceGet,
    RulesDryTest,
    JsonCrud,
    SettingsBackup,
    ServerStart,
    ServerStop,
    ServerRestart,
    RulesReload,
    CachePurge,
    TunnelApply,
}

pub open spec fn atom_named(n: Seq<char>) -> Option<AtomId> {
    if n == "signal.get"@ {
        Some(AtomId::SignalGet)
    } else if n == "json.pretty"@ {
        Some(AtomId::JsonPretty)
    } else if n == "resource.get"@ {
        Some(AtomId::ResourceGet)
    } else if n == "rules.dry_test"@ {
        Some(AtomId::RulesDryTest)
    } else if n == "json.crud"@ {
        Some(AtomId::JsonCrud)
    } else if n == "settings.backup"@ {
        Some(AtomId::SettingsBackup)
    } else if n == "server.start"@ {
        Some(AtomId::ServerStart)
    } else if n == "server.stop"@ {
        Some(AtomId::ServerStop)
    } else if n == "server.restart"@ {
        Some(AtomId::ServerRestart)
    } else if n == "rules.reload"@ {
        Some(AtomId::RulesReload)
    } else if n == "cache.purge"@ {
        Some(AtomId::CachePurge)
    } else if n == "tunnel.apply"@ {
        Some(AtomId::TunnelApply)
    } else {
        None
    }
}

fn name_is(n: &[char], lit: &str) -> (r: bool)
    ensures
        r == (n@ == lit@),
{
    let l = str_chars(lit);
    if n.len() != l.len() {
        return false;
    }
    let mut i: usize = 0;
    while i < n.len()
        invariant
            n.len() == l.len(),
            l@ == lit@,
            i <= n.len(),
            forall|k: int| 0 <= k < i ==> n@[k] == l@[k],
        decreases n.len() - i,
    {
        if n[i] != l[i] {
            assert(n@[i as int] != l@[i as int]);
            return false;
        }
        i = i + 1;
    }
    assert(n@ =~= l@);
    true
}

/// The action a name asks for; an unknown name is refused with the name.
pub fn atom_by_name(name: &str) -> (r: Result<AtomId, AtomError>)
    ensures
        match atom_named(name@) {
            Some(a) => r == Ok::<AtomId, AtomError>(a),
            None => r matches Err(AtomError::Unknown(n)) && n@ == name@,
        },
{
    let c = str_chars(name);
    let n = c.as_slice();
    if name_is(n, "signal.get") {
        Ok(AtomId::SignalGet)
    } else if name_is(n, "json.pretty") {
        Ok(AtomId::JsonPretty)
    } else if name_is(n, "resource.get") {
        Ok(AtomId::ResourceGet)
    } else if name_is(n, "rules.dry_test") {
        Ok(AtomId::RulesDryTest)
    } else if name_is(n, "json.crud") {
        Ok(AtomId::JsonCrud)
    } else if name_is(n, "settings.backup") {
        Ok(AtomId::SettingsBackup)
    } else if name_is(n, "server.start") {
        Ok(AtomId::ServerStart)
    } else if name_is(n, "server.stop") {
        Ok(AtomId::ServerStop)
    } else if name_is(n, "server.restart") {
        Ok(AtomId::ServerRestart)
    } else if name_is(n, "rules.reload") {
        Ok(AtomId::RulesReload)
    } else if name_is(n, "cache.purge") {
        Ok(AtomId::CachePurge)
    } else if name_is(n, "tunnel.apply") {
        Ok(AtomId::TunnelApply)
    } else {
        Err(AtomError::Unknown(name.to_string()))
    }
}

/// The action that a word of the plain control socket stands for.
pub open spec fn control_named(c: Seq<char>) -> Option<AtomId> {
    if c == "status"@ {
        Some(AtomId::SignalGet)
    } else if c == "refresh-endpoints"@ || c == "rules.reload"@ {
        Some(AtomId::RulesReload)
    } else if c == "cache.purge"@ || c == "purge"@ {
        Some(AtomId::CachePurge)
    } else if c == "stop"@ {
        Some(AtomId::ServerStop)
    } else if c == "start"@ {
        Some(AtomId::ServerStart)
    } else if c == "restart"@ {
        Some(AtomId::ServerRestart)
    } else if c == "dry-test-rules"@ {
        Some(AtomId::RulesDryTest)
    } else {
        None
    }
}

/// The action a control word asks for; `None` is an unknown command.
pub fn control_atom(cmd: &str) -> (r: Option<AtomId>)
    ensures
        r == control_named(cmd@),
{
    let c = str_chars(cmd);
    let n = c.as_slice();
    if name_is(n, "status") {
        Some(AtomId::SignalGet)
    } else if name_is(n, "refresh-endpoints") || name_is(n, "rules.reload") {
        Some(AtomId::RulesReload)
    } else if name_is(n, "cache.purge") || name_is(n, "purge") {
        Some(AtomId::CachePurge)
    } else if name_is(n, "stop") {
        Some(AtomId::ServerStop)
    } else if name_is(n, "start") {
        Some(AtomId::ServerStart)
    } else if name_is(n, "restart") {
        Some(AtomId::ServerRestart)
    } else if name_is(n, "dry-test-rules") {
        Some(AtomId::RulesDryTest)
    } else {
        None
    }
}

/// What a dry run of a ruleset reports.
#[derive(Debug)]
pub enum DryReport {
    Clean,
    Overlap { a: String, b: String, example_path: String },
}

/// A dry run's outcome: no refusal is clean, an overlap is reported with
/// its rules and witness path, any other refusal fails with its text.
pub fn dry_outcome(refusal: Option<RuleError>) -> (r: Result<DryReport, AtomError>)
    ensures
        match refusal {
            None => r matches Ok(DryReport::Clean),
            Some(e) => match e@ {
                RuleErrorV::Overlap(a, b, p) => r matches Ok(DryReport::Overlap { a: ra, b: rb, example_path: rp })
                    && ra@ == a && rb@ == b && rp@ == p,
                other => r matches Err(AtomError::Json(m)) && m@ == rule_error_text(other),
            },
        },
{
    match refusal {
        None => Ok(DryReport::Clean),
        Some(RuleError::Overlap { a, b, example_path }) => Ok(DryReport::Overlap { a, b, example_path }),
        Some(other) => Err(AtomError::Json(other.message())),
    }
}

/// The server's run state as the operator sets it.
#[derive(Debug, Clone, Copy, PartialEq, Eq)]
pub enum ServerState {
    Off,
    On,
    Restarting,
}

/// The run state and the stop flag the engine watches.
#[derive(Debug, Clone, Copy)]
pub struct Signal {
    pub state: ServerState,
    pub stop: bool,
}

/// The state's name in replies.
pub fn signal_name(s: ServerState) -> (r: &'static str)
    ensures
        r@ == (match s {
            ServerState::On => "on"@,
            ServerState::Restarting => "restarting"@,
            ServerState::Off => "off"@,
        }),
{
    match s {
        ServerState::On => "on",
        ServerState::Restarting => "restarting",
        ServerState::Off => "off",
    }
}

/// The signal after setting a state: off raises the stop flag, on
/// lowers it, restarting leaves it.
pub open spec fn set_state(sig: Signal, st: ServerState) -> Signal {
    Signal {
        state: st,
        stop: match st {
            ServerState::Off => true,
            ServerState::On => false,
            ServerState::Restarting => sig.stop,
        },
    }
}

/// Sets the run state; a read-only context refuses.
pub fn server_set(allow_write: bool, sig: &mut Signal, st: ServerState) -> (r: Result<(), AtomError>)
    ensures
        !allow_write ==> (r matches Err(AtomError::PureActuate) && *final(sig) == *old(sig)),
        allow_write ==> (r is Ok && *final(sig) == set_state(*old(sig), st)),
{
    if !allow_write {
        return Err(AtomError::PureActuate);
    }
    sig.state = st;
    match st {
        ServerState::Off => sig.stop = true,
        ServerState::On => sig.stop = false,
        ServerState::Restarting => {},
    }
    Ok(())
}

/// Restart: restarting, then off, then on.
pub fn server_restart(allow_write: bool, sig: &mut Signal) -> (r: Result<(), AtomError>)
    ensures
        !allow_write ==> (r matches Err(AtomError::PureActuate) && *final(sig) == *old(sig)),
        allow_write ==> (r is Ok && *final(sig) == set_state(
            set_state(set_state(*old(sig), ServerState::Restarting), ServerState::Off),
            ServerState::On,
        )),
{
    server_set(allow_write, sig, ServerState::Restarting)?;
    server_set(allow_write, sig, ServerState::Off)?;
    server_set(allow_write, sig, ServerState::On)
}

/// Law: a restart leaves the server on with the stop flag down, from
/// any signal.
pub proof fn law_restart_ends_on(sig: Signal)
    ensures
        set_state(set_state(set_state(sig, ServerState::Restarting), ServerState::Off), ServerState::On)
            == (Signal { state: ServerState::On, stop: false }),
{
}

} // verus!
