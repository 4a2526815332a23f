use vstd::prelude::*;
use crate::bytes::bytes_eq;
use vstd::string::StringSliceAdditionalSpecFns;

verus! {

/// HTTP request method.
#[derive(Clone, Copy, Debug, PartialEq, Eq, Structural, Hash)]
pub enum Method {
    Get,
    Head,
    Post,
    Put,
    Delete,
    Patch,
    Options,
    Trace,
    Connect,
}

/// The method a token names, compared byte for byte (case-sensitive).
pub open spec fn method_of_bytes(s: Seq<u8>) -> Option<Method> {
    if s == "GET".spec_bytes() {
        Some(Method::Get)
    } else if s == "HEAD".spec_bytes() {
        Some(Method::Head)
    } else if s == "POST".spec_bytes() {
        Some(Method::Post)
    } else if s == "PUT".spec_bytes() {
        Some(Method::Put)
    } else if s == "DELETE".spec_bytes() {
        Some(Method::Delete)
    } else if s == "PATCH".spec_bytes() {
        Some(Method::Patch)
    } else if s == "OPTIONS".spec_bytes() {
        Some(Method::Options)
    } else if s == "TRACE".spec_bytes() {
        Some(Method::Trace)
    } else if s == "CONNECT".spec_bytes() {
        Some(Method::Connect)
    } else {
        None
    }
}

/// The canonical token of a method.
pub open spec fn method_token(m: Method) -> Seq<u8> {
    match m {
        Method::Get => "GET".spec_bytes(),
        Method::Head => "HEAD".spec_bytes(),
        Method::Post => "POST".spec_bytes(),
        Method::Put => "PUT".spec_bytes(),
        Method::Delete => "DELETE".spec_bytes(),
        Method::Patch => "PATCH".spec_bytes(),
        Method::Options => "OPTIONS".spec_bytes(),
        Method::Trace => "TRACE".spec_bytes(),
        Method::Connect => "CONNECT".spec_bytes(),
    }
}

/// The bit of a method in a rule's method mask.
pub open spec fn method_bit(m: Method) -> u16 {
    match m {
        Method::Get => 1,
        Method::Head => 2,
        Method::Post => 4,
        Method::Put => 8,
        Method::Delete => 16,
        Method::Patch => 32,
        Method::Options => 64,
        Method::Trace => 128,
        Method::Connect => 256,
    }
}

impl Method {
    pub fn parse(s: &str) -> (r: Option<Method>)
        ensures
            r == method_of_bytes(s.spec_bytes()),
    {
        Self::parse_bytes(s.as_bytes())
    }

    pub fn parse_bytes(b: &[u8]) -> (r: Option<Method>)
        ensures
            r == method_of_bytes(b@),
    {
        if bytes_eq(b, "GET".as_bytes()) {
            Some(Method::Get)
        } else if bytes_eq(b, "HEAD".as_bytes()) {
            Some(Method::Head)
        } else if bytes_eq(b, "POST".as_bytes()) {
            Some(Method::Post)
        } else if bytes_eq(b, "PUT".as_bytes()) {
            Some(Method::Put)
        } else if bytes_eq(b, "DELETE".as_bytes()) {
            Some(Method::Delete)
        } else if bytes_eq(b, "PATCH".as_bytes()) {
            Some(Method::Patch)
        } else if bytes_eq(b, "OPTIONS".as_bytes()) {
            Some(Method::Options)
        } else if bytes_eq(b, "TRACE".as_bytes()) {
            Some(Method::Trace)
        } else if bytes_eq(b, "CONNECT".as_bytes()) {
            Some(Method::Connect)
        } else {
            None
        }
    }

    pub fn as_str(self) -> (r: &'static str)
        ensures
            r.spec_bytes() == method_token(self),
    {
        match self {
            Method::Get => "GET",
            Method::Head => "HEAD",
            Method::Post => "POST",
            Method::Put => "PUT",
            Method::Delete => "DELETE",
            Method::Patch => "PATCH",
            Method::Options => "OPTIONS",
            Method::Trace => "TRACE",
            Method::Connect => "CONNECT",
        }
    }

    pub fn bit(self) -> (r: u16)
        ensures
            r == method_bit(self),
    {
        match self {
            Method::Get => 1,
            Method::Head => 2,
            Method::Post => 4,
            Method::Put => 8,
            Method::Delete => 16,
            Method::Patch => 32,
            Method::Options => 64,
            Method::Trace => 128,
            Method::Connect => 256,
        }
    }
}

/// The byte encodings of the nine method tokens, spelled out.
pub proof fn lemma_method_tokens()
    ensures
        "GET".spec_bytes() == seq![71u8, 69, 84],
        "HEAD".spec_bytes() == seq![72u8, 69, 65, 68],
        "POST".spec_bytes() == seq![80u8, 79, 83, 84],
        "PUT".spec_bytes() == seq![80u8, 85, 84],
        "DELETE".spec_bytes() == seq![68u8, 69, 76, 69, 84, 69],
        "PATCH".spec_bytes() == seq![80u8, 65, 84, 67, 72],
        "OPTIONS".spec_bytes() == seq![79u8, 80, 84, 73, 79, 78, 83],
        "TRACE".spec_bytes() == seq![84u8, 82, 65, 67, 69],
        "CONNECT".spec_bytes() == seq![67u8, 79, 78, 78, 69, 67, 84],
{
    reveal_strlit("GET");
    reveal_strlit("HEAD");
    reveal_strlit("POST");
    reveal_strlit("PUT");
    reveal_strlit("DELETE");
    reveal_strlit("PATCH");
    reveal_strlit("OPTIONS");
    reveal_strlit("TRACE");
    reveal_strlit("CONNECT");
    vstd::string::is_ascii_spec_bytes("GET");
    vstd::string::is_ascii_spec_bytes("HEAD");
    vstd::string::is_ascii_spec_bytes("POST");
    vstd::string::is_ascii_spec_bytes("PUT");
    vstd::string::is_ascii_spec_bytes("DELETE");
    vstd::string::is_ascii_spec_bytes("PATCH");
    vstd::string::is_ascii_spec_bytes("OPTIONS");
    vstd::string::is_ascii_spec_bytes("TRACE");
    vstd::string::is_ascii_spec_bytes("CONNECT");
    assert("GET".spec_bytes() =~= seq![71u8, 69, 84]);
    assert("HEAD".spec_bytes() =~= seq![72u8, 69, 65, 68]);
    assert("POST".spec_bytes() =~= seq![80u8, 79, 83, 84]);
    assert("PUT".spec_bytes() =~= seq![80u8, 85, 84]);
    assert("DELETE".spec_bytes() =~= seq![68u8, 69, 76, 69, 84, 69]);
    assert("PATCH".spec_bytes() =~= seq![80u8, 65, 84, 67, 72]);
    assert("OPTIONS".spec_bytes() =~= seq![79u8, 80, 84, 73, 79, 78, 83]);
    assert("TRACE".spec_bytes() =~= seq![84u8, 82, 65, 67, 69]);
    assert("CONNECT".spec_bytes() =~= seq![67u8, 79, 78, 78, 69, 67, 84]);
}

/// Parsing the token of a method gives that method back.
pub proof fn law_method_token_roundtrip(m: Method)
    ensures
        method_of_bytes(method_token(m)) == Some(m),
{
    lemma_method_tokens();
    assert(seq![72u8, 69, 65, 68] != seq![71u8, 69, 84]);
    assert(seq![80u8, 79, 83, 84] != seq![71u8, 69, 84]);
    assert(seq![80u8, 79, 83, 84] != seq![72u8, 69, 65, 68]);
    assert(seq![80u8, 85, 84] != seq![71u8, 69, 84]);
    assert(seq![80u8, 85, 84][1] != seq![80u8, 79, 83, 84][1]);
    assert(seq![68u8, 69, 76, 69, 84, 69][0] != seq![71u8, 69, 84][0]);
    assert(seq![80u8, 65, 84, 67, 72][1] != seq![80u8, 79, 83, 84][1]);
    assert(seq![79u8, 80, 84, 73, 79, 78, 83][0] != seq![71u8, 69, 84][0]);
    assert(seq![84u8, 82, 65, 67, 69][0] != seq![71u8, 69, 84][0]);
    assert(seq![67u8, 79, 78, 78, 69, 67, 84][0] != seq![71u8, 69, 84][0]);
}

/// Every method has exactly one bit set, and distinct methods have distinct bits.
pub proof fn law_method_bits(m: Method, n: Method)
    ensures
        method_bit(m) != 0,
        method_bit(m) != 0xFFFFu16,
        (method_bit(m) & method_bit(n)) != 0 <==> m == n,
{
    let a = method_bit(m);
    let b = method_bit(n);
    assert(a == 1 || a == 2 || a == 4 || a == 8 || a == 16 || a == 32 || a == 64 || a == 128 || a == 256);
    assert(b == 1 || b == 2 || b == 4 || b == 8 || b == 16 || b == 32 || b == 64 || b == 128 || b == 256);
    assert((a == 1 || a == 2 || a == 4 || a == 8 || a == 16 || a == 32 || a == 64 || a == 128 || a == 256)
        && (b == 1 || b == 2 || b == 4 || b == 8 || b == 16 || b == 32 || b == 64 || b == 128 || b == 256)
        ==> ((a & b) != 0 <==> a == b)) by (bit_vector);
}

} // verus!
