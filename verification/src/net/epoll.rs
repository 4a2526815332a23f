//! Buffer sizing for the HTTP/1.1 epoll engine.
use vstd::prelude::*;

verus! {

/// Accept-time request buffer size.
pub const IN_CAP: usize = 4096;
/// Encoded-header scratch and leftover-park cap.
pub const OUT_CAP: usize = 2048;
/// Bodies at or above this many bytes go through `sendfile`.
pub const SF_MIN: u64 = 131072;

/// Most outbound bytes parked at once: one byte-path response plus
/// header scratch.
pub fn out_max() -> (r: usize)
    ensures
        r == SF_MIN + OUT_CAP,
{
    SF_MIN as usize + OUT_CAP
}

/// Buffer capacity for a request of at most `max_header` header and
/// `max_body` body bytes (saturating).
pub fn buf_capacity_for(max_header: usize, max_body: usize) -> (r: usize)
    ensures
        r == max_header.saturating_add(max_body),
{
    max_header.saturating_add(max_body)
}

/// `Vec::capacity`: claims only that it is at least the length; what
/// the allocator gave is left unsaid.
#[verifier::external_body]
fn vec_capacity(v: &Vec<u8>) -> (r: usize)
    ensures
        r >= v.len(),
{
    v.capacity()
}

/// Append `src` when it fits in `cap - len` bytes; else leave `buf` as it is.
pub fn append_within(buf: &mut Vec<u8>, src: &[u8], cap: usize) -> (r: bool)
    ensures
        r == (src.len() <= cap.saturating_sub(old(buf).len())),
        r ==> final(buf)@ == old(buf)@ + src@,
        !r ==> final(buf)@ == old(buf)@,
{
    if src.len() > cap.saturating_sub(buf.len()) {
        return false;
    }
    buf.extend_from_slice(src);
    true
}

/// Append `src` only when it fits in the buffer's present capacity.
pub fn append_in_cap(buf: &mut Vec<u8>, src: &[u8]) -> (r: bool)
    ensures
        src@.len() == 0 ==> r,
        r ==> final(buf)@ == old(buf)@ + src@,
        !r ==> final(buf)@ == old(buf)@,
{
    let cap = vec_capacity(buf);
    append_within(buf, src, cap)
}

/// Copy `src` onto `out` only when it fits in its present capacity.
pub fn copy_into_out(out: &mut Vec<u8>, src: &[u8]) -> (r: bool)
    ensures
        src@.len() == 0 ==> r,
        r ==> final(out)@ == old(out)@ + src@,
        !r ==> final(out)@ == old(out)@,
{
    append_in_cap(out, src)
}

/// Append toward a declared maximum: refused when the result would
/// pass `max` bytes; reserves once when the present capacity is short.
pub fn append_bounded(buf: &mut Vec<u8>, src: &[u8], max: usize) -> (r: bool)
    ensures
        r == (old(buf).len().saturating_add(src.len()) <= max),
        r ==> final(buf)@ == old(buf)@ + src@,
        !r ==> final(buf)@ == old(buf)@,
{
    let need = buf.len().saturating_add(src.len());
    if need > max {
        return false;
    }
    if src.len() > vec_capacity(buf).saturating_sub(buf.len()) {
        buf.reserve(src.len());
    }
    buf.extend_from_slice(src);
    true
}

/// Parks bytes in the outbound buffer: copied when they fit its present
/// capacity, else appended while the total stays within `out_max()`
/// (`SF_MIN + OUT_CAP`),
/// else refused with the buffer as it was.
pub fn park_out(out: &mut Vec<u8>, bytes: &[u8]) -> (r: bool)
    ensures
        r ==> final(out)@ == old(out)@ + bytes@,
        !r ==> final(out)@ == old(out)@,
        old(out)@.len() + bytes@.len() <= SF_MIN + OUT_CAP ==> r,
{
    if copy_into_out(out, bytes) {
        return true;
    }
    let need = out.len().saturating_add(bytes.len());
    if need > out_max() {
        return false;
    }
    out.extend_from_slice(bytes);
    true
}

/// What a write of `wrote` bytes leaves of the outbound buffer, whose
/// unsent part starts at `off` of `len` bytes.
#[derive(Debug, Clone, Copy, PartialEq, Eq)]
pub enum FlushStep {
    /// More to send, from this offset.
    Again(usize),
    /// Everything was sent: the buffer is cleared.
    Drained,
    /// The socket took nothing: the connection is failed.
    WriteZero,
}

/// The outbound buffer after one write: the offset moves past what was
/// taken, so a partial write never drops the tail.
pub fn out_after_write(off: usize, len: usize, wrote: usize) -> (r: FlushStep)
    requires
        off < len,
        wrote <= len - off,
    ensures
        wrote == 0 ==> r == FlushStep::WriteZero,
        wrote > 0 && off + wrote == len ==> r == FlushStep::Drained,
        wrote > 0 && off + wrote < len ==> r == FlushStep::Again((off + wrote) as usize),
{
    if wrote == 0 {
        FlushStep::WriteZero
    } else if off + wrote == len {
        FlushStep::Drained
    } else {
        FlushStep::Again(off + wrote)
    }
}

/// A part of a file still to be sent kernel-side.
#[derive(Debug, Clone, Copy, PartialEq, Eq)]
pub struct FileRange {
    pub offset: u64,
    pub len: u64,
}

/// What a `sendfile` of `sent` bytes leaves of a range.
#[derive(Debug, Clone, Copy, PartialEq, Eq)]
pub enum SendStep {
    /// The range was sent whole.
    Done,
    /// The rest of the range.
    Rest(FileRange),
    /// Nothing came: the file is shorter than the range.
    Shrunk,
}

pub open spec fn range_step(r: FileRange, sent: u64) -> SendStep {
    if sent == 0 {
        SendStep::Shrunk
    } else if sent >= r.len {
        SendStep::Done
    } else {
        SendStep::Rest(FileRange { offset: (r.offset + sent) as u64, len: (r.len - sent) as u64 })
    }
}

/// The range after one `sendfile` call. `requires` holds the range within
/// the file offsets that a `u64` counts.
pub fn range_after_send(r: FileRange, sent: u64) -> (s: SendStep)
    requires
        r.offset + r.len <= u64::MAX,
    ensures
        s == range_step(r, sent),
{
    if sent == 0 {
        SendStep::Shrunk
    } else if sent >= r.len {
        SendStep::Done
    } else {
        SendStep::Rest(FileRange { offset: r.offset + sent, len: r.len - sent })
    }
}

/// Sending a range in pieces never moves its end, and each piece that
/// leaves a rest makes the rest strictly shorter.
pub proof fn law_range_end_stays(r: FileRange, sent: u64)
    requires
        r.offset + r.len <= u64::MAX,
    ensures
        range_step(r, sent) matches SendStep::Rest(rest) ==> rest.offset + rest.len == r.offset + r.len
            && rest.len < r.len && rest.len > 0,
        range_step(r, sent) is Done <==> (sent > 0 && sent >= r.len),
{
}

/// The per-connection time budgets, in milliseconds.
#[derive(Debug, Clone, Copy, PartialEq, Eq)]
pub struct IdleBudgets {
    pub header_ms: u64,
    pub body_ms: u64,
    pub idle_ms: u64,
}

/// What the idle sweep does with a connection.
#[derive(Debug, Clone, Copy, PartialEq, Eq)]
pub enum IdleVerdict {
    Keep,
    /// Dropped without a reply.
    Close,
    /// Answered `408 Request Timeout`, then dropped.
    TimeOut,
}

/// The budget a connection is held to and the time it has used: with no
/// bytes pending, the header budget (or, after a served request, the
/// keep-alive budget) since the last transfer; with a header still
/// incomplete, the header budget since its first byte; with a complete
/// header, the body budget since the last transfer.
pub open spec fn idle_clock(pending: bool, headers_done: bool, served: bool, since_rw_ms: u64,
    since_header_ms: Option<u64>, b: IdleBudgets) -> (u64, u64, bool) {
    if !pending {
        (since_rw_ms, if served { b.idle_ms } else { b.header_ms }, false)
    } else if !headers_done {
        (match since_header_ms { Some(h) => h, None => since_rw_ms }, b.header_ms, false)
    } else {
        (since_rw_ms, b.body_ms, true)
    }
}

pub open spec fn idle_verdict_spec(pending: bool, headers_done: bool, served: bool, since_rw_ms: u64,
    since_header_ms: Option<u64>, b: IdleBudgets) -> IdleVerdict {
    let (used, limit, in_body) = idle_clock(pending, headers_done, served, since_rw_ms, since_header_ms, b);
    if used <= (if limit < 1 { 1 } else { limit }) {
        IdleVerdict::Keep
    } else if in_body {
        IdleVerdict::TimeOut
    } else {
        IdleVerdict::Close
    }
}

/// The idle sweep's decision for one connection; a zero budget counts as
/// one millisecond.
pub fn idle_verdict(pending: bool, headers_done: bool, served: bool, since_rw_ms: u64,
    since_header_ms: Option<u64>, b: IdleBudgets) -> (r: IdleVerdict)
    ensures
        r == idle_verdict_spec(pending, headers_done, served, since_rw_ms, since_header_ms, b),
{
    let (used, limit, in_body) = if !pending {
        (since_rw_ms, if served { b.idle_ms } else { b.header_ms }, false)
    } else if !headers_done {
        let h = match since_header_ms {
            Some(h) => h,
            None => since_rw_ms,
        };
        (h, b.header_ms, false)
    } else {
        (since_rw_ms, b.body_ms, true)
    };
    let floor: u64 = if limit < 1 { 1 } else { limit };
    if used <= floor {
        IdleVerdict::Keep
    } else if in_body {
        IdleVerdict::TimeOut
    } else {
        IdleVerdict::Close
    }
}

/// A draining worker stops once its wait (at least one millisecond) has
/// run out or no connection is left.
pub fn drain_done(elapsed_ms: u64, wait_ms: u64, no_connections: bool) -> (r: bool)
    ensures
        r == (no_connections || elapsed_ms >= (if wait_ms < 1 { 1 } else { wait_ms })),
{
    let wait: u64 = if wait_ms < 1 { 1 } else { wait_ms };
    no_connections || elapsed_ms >= wait
}

} // verus!
