//! Receive-buffer upkeep for the HTTP/1.1 paths.
use vstd::prelude::*;
use crate::error::ServeError;
use crate::net::parse::{
    parse_request, request_spec, looks_like_json, scan_json, json_scan, skip_ws, Parsed, ParsedV, ParseStatus,
    RequestV, JsonScan,
};

verus! {

/// Drop the first `used` bytes of the buffer (all of it when `used`
/// reaches its length).
pub fn compact(buf: &mut Vec<u8>, used: usize)
    ensures
        used >= old(buf)@.len() ==> final(buf)@.len() == 0,
        used < old(buf)@.len() ==> final(buf)@ == old(buf)@.skip(used as int),
{
    let n = buf.len();
    if used >= n {
        buf.clear();
        return;
    }
    let mut i: usize = 0;
    while i < n - used
        invariant
            used < n,
            buf@.len() == n,
            i <= n - used,
            forall|k: int| 0 <= k < i ==> buf@[k] == old(buf)@[used + k],
            forall|k: int| i <= k < n ==> buf@[k] == old(buf)@[k],
        decreases n - used - i,
    {
        let b = buf[used + i];
        buf.set(i, b);
        i = i + 1;
    }
    buf.truncate(n - used);
    assert(buf@ =~= old(buf)@.skip(used as int));
}

/// What a request body is handed to the module as.
#[derive(Debug, Clone, Copy, PartialEq, Eq)]
pub enum BodyKind {
    Empty,
    Json,
    Raw,
}

/// The next thing an HTTP/1.1 connection does with what it has buffered.
pub enum H1Step {
    /// Read more. `idle`: nothing is buffered, so the read may time out;
    /// `eof_is_error`: the peer closing now leaves a request short (400).
    NeedMore { idle: bool, eof_is_error: bool },
    /// Answer with this status and detail, then close.
    Fail { status: u16, detail: String },
    /// The body looks like JSON and the scan refused it: answer the error,
    /// drop the `used` bytes, and go on if the request kept the connection.
    BadJson { err: ServeError, used: usize, keepalive: bool },
    /// Serve the request framed in the first `used` bytes.
    Serve { req: Parsed, used: usize, body: BodyKind, keepalive: bool },
}

pub enum H1StepV {
    NeedMore { idle: bool, eof_is_error: bool },
    Fail { status: u16, detail: Seq<char> },
    BadJson { scan: JsonScan, used: int, keepalive: bool },
    Serve { req: ParsedV, used: int, body: BodyKind, keepalive: bool },
}

pub open spec fn looks_json(b: Seq<u8>) -> bool {
    skip_ws(b, 0) < b.len() && (b[skip_ws(b, 0)] == 123u8 || b[skip_ws(b, 0)] == 91u8)
}

/// The step: a malformed request fails with 400 `parse`; headers still
/// short fail with 400 `headers` once past the header limit, else more is
/// read; a body over the limit fails with 413 `body`; a body not yet all
/// here is read for; a body that looks like JSON must pass the scan; then
/// the request is served, its body empty, JSON or raw.
pub open spec fn h1_step_spec(buf: Seq<u8>, max_header: usize, max_body: usize, depth: u32) -> H1StepV {
    match request_spec(buf, max_header) {
        RequestV::Bad => H1StepV::Fail { status: 400, detail: "parse"@ },
        RequestV::Partial => if buf.len() > max_header {
            H1StepV::Fail { status: 400, detail: "headers"@ }
        } else {
            H1StepV::NeedMore { idle: buf.len() == 0, eof_is_error: false }
        },
        RequestV::Complete(p) => if p.content_length > max_body {
            H1StepV::Fail { status: 413, detail: "body"@ }
        } else if p.header_end + p.content_length > usize::MAX {
            H1StepV::Fail { status: 400, detail: "parse"@ }
        } else if buf.len() < p.header_end + p.content_length {
            H1StepV::NeedMore { idle: false, eof_is_error: true }
        } else {
            let need = p.header_end + p.content_length;
            let body = buf.subrange(p.header_end, need);
            if looks_json(body) && json_scan(body, depth) != JsonScan::Good {
                H1StepV::BadJson { scan: json_scan(body, depth), used: need, keepalive: p.keepalive }
            } else {
                H1StepV::Serve {
                    req: p,
                    used: need,
                    body: if p.content_length == 0 {
                        BodyKind::Empty
                    } else if looks_json(body) {
                        BodyKind::Json
                    } else {
                        BodyKind::Raw
                    },
                    keepalive: p.keepalive,
                }
            }
        },
    }
}

pub open spec fn scan_error(e: ServeError) -> JsonScan {
    match e {
        ServeError::JsonDepth => JsonScan::TooDeep,
        _ => JsonScan::Invalid,
    }
}

impl H1Step {
    pub open spec fn view_step(&self) -> H1StepV {
        match self {
            H1Step::NeedMore { idle, eof_is_error } => H1StepV::NeedMore { idle: *idle, eof_is_error: *eof_is_error },
            H1Step::Fail { status, detail } => H1StepV::Fail { status: *status, detail: detail@ },
            H1Step::BadJson { err, used, keepalive } => H1StepV::BadJson {
                scan: scan_error(*err),
                used: *used as int,
                keepalive: *keepalive,
            },
            H1Step::Serve { req, used, body, keepalive } => H1StepV::Serve {
                req: req@,
                used: *used as int,
                body: *body,
                keepalive: *keepalive,
            },
        }
    }
}

/// Decides the next step of an HTTP/1.1 connection from its buffer.
pub fn h1_step(buf: &[u8], max_header: usize, max_body: usize, depth: u32) -> (r: H1Step)
    ensures
        r.view_step() == h1_step_spec(buf@, max_header, max_body, depth),
{
    match parse_request(buf, max_header) {
        Err(_) => H1Step::Fail { status: 400, detail: "parse".to_string() },
        Ok(ParseStatus::Partial) => {
            if buf.len() > max_header {
                H1Step::Fail { status: 400, detail: "headers".to_string() }
            } else {
                H1Step::NeedMore { idle: buf.len() == 0, eof_is_error: false }
            }
        },
        Ok(ParseStatus::Complete(p)) => {
            if p.content_length > max_body {
                return H1Step::Fail { status: 413, detail: "body".to_string() };
            }
            let need = match p.header_end.checked_add(p.content_length) {
                None => return H1Step::Fail { status: 400, detail: "parse".to_string() },
                Some(n) => n,
            };
            if buf.len() < need {
                return H1Step::NeedMore { idle: false, eof_is_error: true };
            }
            let body = vstd::slice::slice_subrange(buf, p.header_end, need);
            let json = looks_like_json(body);
            if json {
                match scan_json(body, depth) {
                    Err(e) => {
                        let keepalive = p.keepalive;
                        return H1Step::BadJson { err: e, used: need, keepalive };
                    },
                    Ok(()) => {},
                }
            }
            let kind = if p.content_length == 0 {
                BodyKind::Empty
            } else if json {
                BodyKind::Json
            } else {
                BodyKind::Raw
            };
            let keepalive = p.keepalive;
            H1Step::Serve { req: p, used: need, body: kind, keepalive }
        },
    }
}

} // verus!
