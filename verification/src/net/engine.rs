//! The I/O engine a server runs on.
use vstd::prelude::*;
use vstd::string::StringSliceAdditionalSpecFns;
use crate::bytes::bytes_eq;

verus! {

#[derive(Clone, Copy, Debug, PartialEq, Eq, Structural)]
pub enum EngineKind {
    /// HTTP/1.1 on epoll, one loop per pinned thread.
    Epoll,
    /// Pinned current-thread tokio: HTTP/2, HTTP/3, TLS.
    Tokio,
    /// AF_XDP; not linked in this build.
    Xdp,
}

impl Default for EngineKind {
    fn default() -> (r: EngineKind)
        ensures
            r == EngineKind::Epoll,
    {
        EngineKind::Epoll
    }
}

pub open spec fn engine_name(k: EngineKind) -> Seq<u8> {
    match k {
        EngineKind::Tokio => "tokio".spec_bytes(),
        EngineKind::Epoll => "epoll".spec_bytes(),
        EngineKind::Xdp => "xdp".spec_bytes(),
    }
}

/// The engine a configuration name selects (`af-xdp` too names XDP).
pub open spec fn engine_of(s: Seq<u8>) -> Option<EngineKind> {
    if s == "tokio".spec_bytes() {
        Some(EngineKind::Tokio)
    } else if s == "epoll".spec_bytes() {
        Some(EngineKind::Epoll)
    } else if s == "xdp".spec_bytes() || s == "af-xdp".spec_bytes() {
        Some(EngineKind::Xdp)
    } else {
        None
    }
}

impl EngineKind {
    pub fn as_str(self) -> (r: &'static str)
        ensures
            r.spec_bytes() == engine_name(self),
    {
        match self {
            EngineKind::Tokio => "tokio",
            EngineKind::Epoll => "epoll",
            EngineKind::Xdp => "xdp",
        }
    }

    pub fn parse(s: &str) -> (r: Option<EngineKind>)
        ensures
            r == engine_of(s.spec_bytes()),
    {
        let b = s.as_bytes();
        if bytes_eq(b, "tokio".as_bytes()) {
            Some(EngineKind::Tokio)
        } else if bytes_eq(b, "epoll".as_bytes()) {
            Some(EngineKind::Epoll)
        } else if bytes_eq(b, "xdp".as_bytes()) || bytes_eq(b, "af-xdp".as_bytes()) {
            Some(EngineKind::Xdp)
        } else {
            None
        }
    }
}

/// Law: the name of an engine parses back to that engine.
pub proof fn law_engine_name_roundtrip(k: EngineKind)
    ensures
        engine_of(engine_name(k)) == Some(k),
{
    reveal_strlit("tokio");
    reveal_strlit("epoll");
    reveal_strlit("xdp");
    reveal_strlit("af-xdp");
    vstd::string::is_ascii_spec_bytes("tokio");
    vstd::string::is_ascii_spec_bytes("epoll");
    vstd::string::is_ascii_spec_bytes("xdp");
    vstd::string::is_ascii_spec_bytes("af-xdp");
    assert("tokio".spec_bytes() =~= seq![116u8, 111u8, 107u8, 105u8, 111u8]);
    assert("epoll".spec_bytes() =~= seq![101u8, 112u8, 111u8, 108u8, 108u8]);
    assert("xdp".spec_bytes() =~= seq![120u8, 100u8, 112u8]);
    assert("af-xdp".spec_bytes().len() == 6);
    assert(seq![101u8, 112u8, 111u8, 108u8, 108u8][0] != seq![116u8, 111u8, 107u8, 105u8, 111u8][0]);
}

} // verus!
