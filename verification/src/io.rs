//! Request and response values as modules see them.
use vstd::prelude::*;
use vstd::string::StringSliceAdditionalSpecFns;
use vstd::utf8::encode_utf8;
use crate::bytes::{eq_ic, eq_ignore_case};
use crate::status::Status;

verus! {

/// Header pairs of a request, in arrival order.
#[derive(Clone, Debug)]
pub struct HeaderView {
    pub pairs: Vec<(String, String)>,
}

/// The first pair at or after `i` whose name equals `name` ignoring ASCII case.
pub open spec fn header_from(pairs: Seq<(String, String)>, name: Seq<u8>, i: int) -> Option<int>
    decreases pairs.len() - i,
{
    if i < 0 || i >= pairs.len() {
        None
    } else if eq_ic(encode_utf8(pairs[i].0@), name) {
        Some(i)
    } else {
        header_from(pairs, name, i + 1)
    }
}

impl HeaderView {
    /// The value of the first header of that name (ASCII case-insensitive).
    pub fn get(&self, name: &str) -> (r: Option<&str>)
        ensures
            match header_from(self.pairs@, name.spec_bytes(), 0) {
                Some(i) => r matches Some(v) && v@ == self.pairs@[i].1@,
                None => r is None,
            },
    {
        let mut i: usize = 0;
        while i < self.pairs.len()
            invariant
                i <= self.pairs.len(),
                header_from(self.pairs@, name.spec_bytes(), 0) == header_from(self.pairs@, name.spec_bytes(), i as int),
            decreases self.pairs.len() - i,
        {
            if eq_ignore_case(self.pairs[i].0.as_str().as_bytes(), name.as_bytes()) {
                return Some(self.pairs[i].1.as_str());
            }
            i = i + 1;
        }
        None
    }
}

/// A request body as received.
#[derive(Clone, Copy, Debug)]
pub enum Body<'buf> {
    Empty,
    Raw(&'buf [u8]),
    /// Starts with `{` or `[`; depth and size already checked.
    Json(&'buf [u8]),
}

/// How a response may be cached.
#[derive(Clone, Debug, PartialEq, Eq)]
pub enum CacheDirective {
    No,
    Global { ttl_ms: u32 },
    Named { ruleset: String, ttl_ms: u32 },
}

/// A response body: in memory, streamed, or an open file range of the
/// given length.
#[derive(Clone, Debug)]
pub enum OutBody {
    Empty,
    Raw(Vec<u8>),
    Json(Vec<u8>),
    Stream,
    File { offset: u64, len: u64 },
}

/// The bytes a body holds in memory (none for streams and files).
pub open spec fn body_bytes(b: OutBody) -> Seq<u8> {
    match b {
        OutBody::Raw(v) => v@,
        OutBody::Json(v) => v@,
        _ => Seq::empty(),
    }
}

/// The length a body declares: a file range's length (as a `usize`),
/// zero for a stream, else its bytes' length.
pub open spec fn body_len(b: OutBody) -> int {
    match b {
        OutBody::Stream => 0,
        OutBody::File { len, .. } => (len as usize) as int,
        _ => body_bytes(b).len() as int,
    }
}

impl OutBody {
    pub fn as_bytes(&self) -> (r: &[u8])
        ensures
            r@ == body_bytes(*self),
    {
        match self {
            OutBody::Raw(b) => b.as_slice(),
            OutBody::Json(b) => b.as_slice(),
            _ => &[],
        }
    }

    pub fn len(&self) -> (r: usize)
        ensures
            r == body_len(*self),
    {
        match self {
            OutBody::Stream => 0,
            OutBody::File { len, .. } => *len as usize,
            _ => self.as_bytes().len(),
        }
    }

    pub fn is_empty(&self) -> (r: bool)
        ensures
            r == (body_len(*self) == 0),
    {
        self.len() == 0
    }

    /// The bytes of an in-memory body, copied.
    pub fn to_bytes(&self) -> (r: Option<Vec<u8>>)
        ensures
            match *self {
                OutBody::Raw(v) => r matches Some(x) && x@ == v@,
                OutBody::Json(v) => r matches Some(x) && x@ == v@,
                _ => r is None,
            },
    {
        match self {
            OutBody::Raw(b) => {
                let c = b.clone();
                assert(c@ =~= b@);
                Some(c)
            },
            OutBody::Json(b) => {
                let c = b.clone();
                assert(c@ =~= b@);
                Some(c)
            },
            _ => None,
        }
    }
}

/// One module result.
#[derive(Clone, Debug)]
pub struct Out {
    pub status: Status,
    /// `None`: the status's own phrase.
    pub reason: Option<String>,
    pub headers: Vec<(String, String)>,
    pub body: OutBody,
    pub cache: CacheDirective,
}

impl Out {
    pub fn empty(status: Status) -> (r: Out)
        ensures
            r.status == status,
            r.reason is None,
            r.headers@.len() == 0,
            r.body == OutBody::Empty,
            r.cache == CacheDirective::No,
    {
        Out { status, reason: None, headers: Vec::new(), body: OutBody::Empty, cache: CacheDirective::No }
    }

    pub fn raw(status: Status, body: Vec<u8>, content_type: &str) -> (r: Out)
        ensures
            r.status == status,
            r.reason is None,
            r.headers@.len() == 1,
            r.headers@[0].0@ == "Content-Type"@,
            r.headers@[0].1@ == content_type@,
            r.body == OutBody::Raw(body),
            r.cache == CacheDirective::No,
    {
        let mut headers = Vec::new();
        headers.push(("Content-Type".to_string(), content_type.to_string()));
        Out { status, reason: None, headers, body: OutBody::Raw(body), cache: CacheDirective::No }
    }

    pub fn json(status: Status, body: Vec<u8>) -> (r: Out)
        ensures
            r.status == status,
            r.reason is None,
            r.headers@.len() == 1,
            r.headers@[0].0@ == "Content-Type"@,
            r.headers@[0].1@ == "application/json"@,
            r.body == OutBody::Json(body),
            r.cache == CacheDirective::No,
    {
        let mut headers = Vec::new();
        headers.push(("Content-Type".to_string(), "application/json".to_string()));
        Out { status, reason: None, headers, body: OutBody::Json(body), cache: CacheDirective::No }
    }
}

} // verus!
