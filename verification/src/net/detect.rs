//! What the first bytes of a TCP connection look like.
use vstd::prelude::*;
use vstd::string::StringSliceAdditionalSpecFns;

verus! {

pub open spec fn starts_with_b(s: Seq<u8>, p: Seq<u8>) -> bool {
    p.len() <= s.len() && s.take(p.len() as int) == p
}

pub fn bytes_start_with(s: &[u8], p: &[u8]) -> (r: bool)
    ensures
        r == starts_with_b(s@, p@),
{
    if p.len() > s.len() {
        return false;
    }
    let mut i: usize = 0;
    while i < p.len()
        invariant
            p.len() <= s.len(),
            i <= p.len(),
            forall|k: int| 0 <= k < i ==> s@[k] == p@[k],
        decreases p.len() - i,
    {
        if s[i] != p[i] {
            assert(s@.take(p.len() as int)[i as int] != p@[i as int]);
            return false;
        }
        i = i + 1;
    }
    assert(s@.take(p.len() as int) =~= p@);
    true
}

/// The bytes open an HTTP/1.1 request line: a method token and a space.
pub open spec fn h1_start(peek: Seq<u8>) -> bool {
    ||| starts_with_b(peek, "GET ".spec_bytes())
    ||| starts_with_b(peek, "POST ".spec_bytes())
    ||| starts_with_b(peek, "HEAD ".spec_bytes())
    ||| starts_with_b(peek, "PUT ".spec_bytes())
    ||| starts_with_b(peek, "DELETE ".spec_bytes())
    ||| starts_with_b(peek, "PATCH ".spec_bytes())
    ||| starts_with_b(peek, "OPTIONS ".spec_bytes())
    ||| starts_with_b(peek, "CONNECT ".spec_bytes())
    ||| starts_with_b(peek, "TRACE ".spec_bytes())
}

pub fn looks_like_h1(peek: &[u8]) -> (r: bool)
    ensures
        r == h1_start(peek@),
{
    bytes_start_with(peek, "GET ".as_bytes()) || bytes_start_with(peek, "POST ".as_bytes()) || bytes_start_with(
        peek,
        "HEAD ".as_bytes(),
    ) || bytes_start_with(peek, "PUT ".as_bytes()) || bytes_start_with(peek, "DELETE ".as_bytes())
        || bytes_start_with(peek, "PATCH ".as_bytes()) || bytes_start_with(peek, "OPTIONS ".as_bytes())
        || bytes_start_with(peek, "CONNECT ".as_bytes()) || bytes_start_with(peek, "TRACE ".as_bytes())
}

} // verus!
