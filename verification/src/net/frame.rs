//! The epoll engine's framing step: what to do with the bytes a
//! connection has buffered.
use vstd::prelude::*;
use vstd::string::StringSliceAdditionalSpecFns;
use crate::method::Method;
use crate::net::detect::{bytes_start_with, starts_with_b};
use crate::net::h1::{looks_json, BodyKind};
use crate::net::parse::{
    parse_request, request_spec, decode_chunked_into, dechunk_from, looks_like_json, scan_json, json_scan, Parsed,
    ParsedV, ParseStatus, RequestV, JsonScan,
};

verus! {

/// The next thing the epoll engine does with a connection's bytes.
pub enum FrameStep {
    /// Wait for more bytes; `keep` is false when the peer has closed.
    Wait { keep: bool },
    /// Answer with an empty response of this status, then close.
    Reply { status: u16 },
    /// Close without an answer (an HTTP/2 preface, or a chunked body
    /// that does not decode).
    Close,
    /// Serve the request framed in the first `used` bytes; `body` is the
    /// decoded body.
    Serve { req: Parsed, used: usize, body: Vec<u8>, kind: BodyKind, head: bool, keepalive: bool },
}

pub enum FrameStepV {
    Wait { keep: bool },
    Reply { status: u16 },
    Close,
    Serve { req: ParsedV, used: int, body: Seq<u8>, kind: BodyKind, head: bool, keepalive: bool },
}

impl FrameStep {
    pub open spec fn view_step(&self) -> FrameStepV {
        match self {
            FrameStep::Wait { keep } => FrameStepV::Wait { keep: *keep },
            FrameStep::Reply { status } => FrameStepV::Reply { status: *status },
            FrameStep::Close => FrameStepV::Close,
            FrameStep::Serve { req, used, body, kind, head, keepalive } => FrameStepV::Serve {
                req: req@,
                used: *used as int,
                body: body@,
                kind: *kind,
                head: *head,
                keepalive: *keepalive,
            },
        }
    }
}

/// The body a framed request carries: the decoded chunks, or the bytes
/// between the head and the end of the message.
pub open spec fn frame_body(buf: Seq<u8>, p: ParsedV) -> Result<Seq<u8>, ()> {
    let wire = buf.subrange(p.header_end, p.wire_end);
    if p.chunked {
        match dechunk_from(wire, 0).1 {
            Ok(_) => Ok(dechunk_from(wire, 0).0),
            Err(_) => Err(()),
        }
    } else {
        Ok(wire)
    }
}

/// The step: a malformed request is answered 400; a short one waits
/// (unless the peer has closed); a body over the limit is answered 413;
/// an incomplete message waits; an HTTP/2 preface closes; an upgrade is
/// answered 426; a chunked body that does not decode closes; a body that
/// looks like JSON must pass the scan (else 400); then the request is
/// served with its body empty, JSON or raw.
pub open spec fn frame_step_spec(buf: Seq<u8>, max_header: usize, max_body: usize, depth: u32, eof: bool) -> FrameStepV {
    match request_spec(buf, max_header) {
        RequestV::Bad => FrameStepV::Reply { status: 400 },
        RequestV::Partial => FrameStepV::Wait { keep: !eof },
        RequestV::Complete(p) => if p.content_length > max_body {
            FrameStepV::Reply { status: 413 }
        } else if buf.len() < p.wire_end {
            FrameStepV::Wait { keep: true }
        } else if starts_with_b(buf, "PRI ".spec_bytes()) {
            FrameStepV::Close
        } else if p.upgrade {
            FrameStepV::Reply { status: 426 }
        } else if !(0 <= p.header_end <= p.wire_end) {
            FrameStepV::Close
        } else {
            match frame_body(buf, p) {
                Err(_) => FrameStepV::Close,
                Ok(b) => if looks_json(b) && json_scan(b, depth) != JsonScan::Good {
                    FrameStepV::Reply { status: 400 }
                } else {
                    FrameStepV::Serve {
                        req: p,
                        used: p.wire_end,
                        body: b,
                        kind: if b.len() == 0 {
                            BodyKind::Empty
                        } else if looks_json(b) {
                            BodyKind::Json
                        } else {
                            BodyKind::Raw
                        },
                        head: p.method == Method::Head,
                        keepalive: p.keepalive,
                    }
                },
            }
        },
    }
}

/// Decides the epoll engine's next step from a connection's unconsumed
/// bytes and whether the peer has closed.
pub fn frame_step(buf: &[u8], max_header: usize, max_body: usize, depth: u32, eof: bool) -> (r: FrameStep)
    requires
        buf@.len() + 2 <= usize::MAX,
    ensures
        r.view_step() == frame_step_spec(buf@, max_header, max_body, depth, eof),
{
    let p = match parse_request(buf, max_header) {
        Err(_) => return FrameStep::Reply { status: 400 },
        Ok(ParseStatus::Partial) => return FrameStep::Wait { keep: !eof },
        Ok(ParseStatus::Complete(p)) => p,
    };
    if p.content_length > max_body {
        return FrameStep::Reply { status: 413 };
    }
    if buf.len() < p.wire_end {
        return FrameStep::Wait { keep: true };
    }
    if bytes_start_with(buf, "PRI ".as_bytes()) {
        return FrameStep::Close;
    }
    if p.upgrade {
        return FrameStep::Reply { status: 426 };
    }
    if p.header_end > p.wire_end {
        return FrameStep::Close;
    }
    let wire = vstd::slice::slice_subrange(buf, p.header_end, p.wire_end);
    let body: Vec<u8> = if p.chunked {
        let mut decoded: Vec<u8> = Vec::new();
        match decode_chunked_into(wire, &mut decoded) {
            Err(_) => return FrameStep::Close,
            Ok(_) => {},
        }
        assert(decoded@ =~= dechunk_from(wire@, 0).0);
        decoded
    } else {
        vstd::slice::slice_to_vec(wire)
    };
    let json = looks_like_json(body.as_slice());
    if json {
        match scan_json(body.as_slice(), depth) {
            Err(_) => return FrameStep::Reply { status: 400 },
            Ok(()) => {},
        }
    }
    let kind = if body.len() == 0 {
        BodyKind::Empty
    } else if json {
        BodyKind::Json
    } else {
        BodyKind::Raw
    };
    let head = match p.method {
        Method::Head => true,
        _ => false,
    };
    let keepalive = p.keepalive;
    let used = p.wire_end;
    FrameStep::Serve { req: p, used, body, kind, head, keepalive }
}

/// A module that ran past its time budget is answered with an empty 504.
pub fn over_budget(elapsed_ms: u64, budget_ms: u64) -> (r: bool)
    ensures
        r == (elapsed_ms > (if budget_ms < 1 { 1 } else { budget_ms })),
{
    elapsed_ms > (if budget_ms < 1 { 1 } else { budget_ms })
}

/// What answers a framed request when the response cache may: the
/// module (`Dispatch`), an empty 304, the cached response's head (for
/// `HEAD`), or the cached wire bytes.
#[derive(Debug, Clone, Copy, PartialEq, Eq)]
pub enum CacheAnswer {
    Dispatch,
    NotModified,
    HeadOf,
    Wire,
}

/// Only a bodiless request is answered from the cache: on a hit, a
/// not-modified check wins, then `HEAD` gets the head, then the cached
/// bytes are sent when there are any; a miss goes to the module.
pub fn cache_answer(content_length: usize, hit: bool, not_modified: bool, head: bool, wire: bool) -> (r: CacheAnswer)
    ensures
        r == (if content_length != 0 || !hit {
            CacheAnswer::Dispatch
        } else if not_modified {
            CacheAnswer::NotModified
        } else if head {
            CacheAnswer::HeadOf
        } else if wire {
            CacheAnswer::Wire
        } else {
            CacheAnswer::Dispatch
        }),
{
    if content_length != 0 || !hit {
        CacheAnswer::Dispatch
    } else if not_modified {
        CacheAnswer::NotModified
    } else if head {
        CacheAnswer::HeadOf
    } else if wire {
        CacheAnswer::Wire
    } else {
        CacheAnswer::Dispatch
    }
}

} // verus!
