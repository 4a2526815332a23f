//! One access-log line per response.
use vstd::prelude::*;
use vstd::string::StringSliceAdditionalSpecFns;
use crate::method::{Method, method_token};
use crate::num::{dec_bytes, push_dec, push_bytes};

verus! {

/// Longest path kept in a log line, in bytes.
pub const MAX_LOG_PATH: usize = 2048;

/// `METHOD path status body_len\n`, the path cut at `MAX_LOG_PATH` bytes.
pub open spec fn log_line(method: Method, path: Seq<u8>, status: u16, body_len: usize) -> Seq<u8> {
    let n = if path.len() < MAX_LOG_PATH { path.len() as int } else { MAX_LOG_PATH as int };
    method_token(method) + seq![32u8] + path.take(n) + seq![32u8] + dec_bytes(status as nat) + seq![32u8] + dec_bytes(
        body_len as nat,
    ) + seq![10u8]
}

/// Append one log line to `dst`.
pub fn line(method: Method, path: &str, status: u16, body_len: usize, dst: &mut Vec<u8>)
    ensures
        final(dst)@ == old(dst)@ + log_line(method, path.spec_bytes(), status, body_len),
{
    push_bytes(dst, method.as_str().as_bytes());
    dst.push(32u8);
    let p = path.as_bytes();
    let n = if p.len() < MAX_LOG_PATH { p.len() } else { MAX_LOG_PATH };
    push_bytes(dst, vstd::slice::slice_subrange(p, 0, n));
    dst.push(32u8);
    push_dec(dst, status as u64);
    dst.push(32u8);
    push_dec(dst, body_len as u64);
    dst.push(10u8);
    assert(final(dst)@ =~= old(dst)@ + log_line(method, path.spec_bytes(), status, body_len));
}

} // verus!
