//! Plugin outcomes as responses.
use vstd::prelude::*;
use crate::error::ServeError;
use crate::io::{Out, OutBody, CacheDirective};
use crate::status::Status;
use crate::num::push_chars;
use crate::text::{str_chars, chars_string};

verus! {

/// A plugin that ran out of its budget is answered with an empty 504;
/// any other failure is passed on as it is.
pub fn capacity_to_504(err: ServeError) -> (r: Result<Out, ServeError>)
    ensures
        err is Capacity ==> (r matches Ok(o) && o.status@ == 504 && o.body == OutBody::Empty && o.reason is None
            && o.headers@.len() == 0 && o.cache == CacheDirective::No),
        !(err is Capacity) ==> r == Err::<Out, ServeError>(err),
{
    match err {
        ServeError::Capacity => Ok(Out::empty(Status::from_u16(504))),
        other => Err(other),
    }
}

/// A module's answer as a response: an empty body is no body; a positive
/// lifetime makes it cacheable for everyone, else it is not cached.
pub fn out_from_response(status: u16, headers: Vec<(String, String)>, body: Vec<u8>, cache_ttl_ms: u32) -> (r: Out)
    ensures
        r.status@ == status,
        r.reason is None,
        r.headers == headers,
        body@.len() == 0 ==> r.body == OutBody::Empty,
        body@.len() > 0 ==> r.body == OutBody::Raw(body),
        cache_ttl_ms > 0 ==> r.cache == (CacheDirective::Global { ttl_ms: cache_ttl_ms }),
        cache_ttl_ms == 0 ==> r.cache == CacheDirective::No,
{
    let b = if body.len() == 0 {
        OutBody::Empty
    } else {
        OutBody::Raw(body)
    };
    let cache = if cache_ttl_ms > 0 {
        CacheDirective::Global { ttl_ms: cache_ttl_ms }
    } else {
        CacheDirective::No
    };
    Out { status: Status::from_u16(status), reason: None, headers, body: b, cache }
}

/// `p` occurs in `s` at some position.
pub open spec fn has_infix(s: Seq<char>, p: Seq<char>) -> bool {
    exists|i: int| 0 <= i <= s.len() - p.len() && #[trigger] s.subrange(i, i + p.len()) == p
}

fn occurs_at(s: &[char], p: &[char], i: usize) -> (r: bool)
    requires
        i + p.len() <= s.len(),
    ensures
        r == (s@.subrange(i as int, i + p@.len()) == p@),
{
    let mut k: usize = 0;
    while k < p.len()
        invariant
            k <= p@.len(),
            i + p.len() <= s.len(),
            forall|j: int| 0 <= j < k ==> s@[i + j] == p@[j],
        decreases p@.len() - k,
    {
        if s[i + k] != p[k] {
            assert(s@.subrange(i as int, i + p@.len())[k as int] != p@[k as int]);
            return false;
        }
        k = k + 1;
    }
    assert(s@.subrange(i as int, i + p@.len()) =~= p@);
    true
}

fn contains_text(s: &[char], p: &str) -> (r: bool)
    ensures
        r == has_infix(s@, p@),
{
    let pc = str_chars(p);
    let pv = pc.as_slice();
    if pv.len() > s.len() {
        assert(!has_infix(s@, p@));
        return false;
    }
    let last = s.len() - pv.len();
    let mut i: usize = 0;
    loop
        invariant
            pv@ == p@,
            last == s@.len() - p@.len(),
            i <= last,
            forall|j: int| 0 <= j < i ==> #[trigger] s@.subrange(j, j + p@.len()) != p@,
        ensures
            forall|j: int| 0 <= j <= last ==> #[trigger] s@.subrange(j, j + p@.len()) != p@,
        decreases last - i,
    {
        if occurs_at(s, pv, i) {
            assert(s@.subrange(i as int, i + p@.len()) == p@);
            return true;
        }
        if i == last {
            break;
        }
        i = i + 1;
    }
    false
}

/// A module's failure as the server answers it: a fuel or interrupt
/// trap, or a message that names a fuel, epoch, memory, limit or resource
/// bound, is the module running out of its budget; anything else is the
/// module's error with its message.
pub open spec fn module_failure_spec(limit_trap: bool, text: Seq<char>) -> Option<Seq<char>> {
    if limit_trap || has_infix(text, "fuel"@) || has_infix(text, "epoch"@) || has_infix(text, "memory"@)
        || has_infix(text, "limit"@) || has_infix(text, "resource"@) {
        None
    } else {
        Some(text)
    }
}

/// The error a failed module call becomes: `Capacity` for a budget
/// (see `module_failure_spec`), else `Module` with the message.
pub fn module_failure(limit_trap: bool, text: String) -> (r: ServeError)
    ensures
        match module_failure_spec(limit_trap, text@) {
            None => r is Capacity,
            Some(m) => r matches ServeError::Module(t) && t@ == m,
        },
{
    if limit_trap {
        return ServeError::Capacity;
    }
    let c = str_chars(text.as_str());
    let cs = c.as_slice();
    if contains_text(cs, "fuel") || contains_text(cs, "epoch") || contains_text(cs, "memory") || contains_text(
        cs,
        "limit",
    ) || contains_text(cs, "resource") {
        ServeError::Capacity
    } else {
        ServeError::Module(text)
    }
}

/// How a plugin is provided.
#[derive(Debug, Clone, Copy, PartialEq, Eq)]
pub enum PluginKind {
    /// A module compiled into the server, named by the manifest.
    Builtin,
    /// A WebAssembly component.
    Wasm,
    /// A native shared object.
    Native,
}

/// A plugin manifest.
#[derive(Debug, Clone)]
pub struct PluginManifest {
    pub name: String,
    pub kind: PluginKind,
    pub path: Option<String>,
}

/// What loading a manifest comes to in this build (no WebAssembly host):
/// a builtin loads when it is registered, else it is a module error; a
/// WebAssembly plugin cannot be hosted; a native object is refused.
pub open spec fn manifest_outcome(name: Seq<char>, kind: PluginKind, path: Option<Seq<char>>, registered: bool) -> Result<
    Seq<char>,
    ServeErrorV,
> {
    match kind {
        PluginKind::Builtin => if registered {
            Ok(name)
        } else {
            Err(ServeErrorV::Module(name))
        },
        PluginKind::Wasm => Err(
            ServeErrorV::Config(
                "wasm plugin "@ + name + " ("@ + (match path {
                    Some(p) => p,
                    None => "?"@,
                }) + "): host not linked; compile with a wasmtime backend"@,
            ),
        ),
        PluginKind::Native => Err(ServeErrorV::Config("native .so plugin "@ + name + " refused (not a sandbox)"@)),
    }
}

/// A module or configuration failure by its text.
pub enum ServeErrorV {
    Module(Seq<char>),
    Config(Seq<char>),
}

pub open spec fn serve_error_text(e: ServeError) -> Option<ServeErrorV> {
    match e {
        ServeError::Module(m) => Some(ServeErrorV::Module(m@)),
        ServeError::Config(m) => Some(ServeErrorV::Config(m@)),
        _ => None,
    }
}

/// Checks one manifest; `registered` tells whether a builtin of that name exists.
pub fn check_manifest(m: &PluginManifest, registered: bool) -> (r: Result<String, ServeError>)
    ensures
        match manifest_outcome(m.name@, m.kind, match m.path { Some(p) => Some(p@), None => None }, registered) {
            Ok(n) => r matches Ok(x) && x@ == n,
            Err(e) => r matches Err(x) && serve_error_text(x) == Some(e),
        },
{
    match m.kind {
        PluginKind::Builtin => if registered {
            Ok(m.name.clone())
        } else {
            Err(ServeError::Module(m.name.clone()))
        },
        PluginKind::Wasm => {
            let mut v: Vec<char> = Vec::new();
            push_chars(&mut v, str_chars("wasm plugin ").as_slice());
            push_chars(&mut v, str_chars(m.name.as_str()).as_slice());
            push_chars(&mut v, str_chars(" (").as_slice());
            match &m.path {
                Some(p) => push_chars(&mut v, str_chars(p.as_str()).as_slice()),
                None => push_chars(&mut v, str_chars("?").as_slice()),
            }
            push_chars(&mut v, str_chars("): host not linked; compile with a wasmtime backend").as_slice());
            Err(ServeError::Config(chars_string(v.as_slice())))
        },
        PluginKind::Native => {
            let mut v: Vec<char> = Vec::new();
            push_chars(&mut v, str_chars("native .so plugin ").as_slice());
            push_chars(&mut v, str_chars(m.name.as_str()).as_slice());
            push_chars(&mut v, str_chars(" refused (not a sandbox)").as_slice());
            Err(ServeError::Config(chars_string(v.as_slice())))
        },
    }
}

} // verus!
