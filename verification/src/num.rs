//! Integers as ASCII digits, written straight into a byte buffer.
use vstd::prelude::*;

verus! {

/// The decimal digits of `n`, most significant first, no leading zeros
/// (`"0"` for zero).
pub open spec fn dec_bytes(n: nat) -> Seq<u8>
    decreases n,
{
    if n < 10 {
        seq![(48 + n) as u8]
    } else {
        dec_bytes(n / 10).push((48 + n % 10) as u8)
    }
}

/// Append the decimal digits of `n`.
pub fn push_dec(dst: &mut Vec<u8>, n: u64)
    ensures
        final(dst)@ == old(dst)@ + dec_bytes(n as nat),
    decreases n,
{
    if n >= 10 {
        push_dec(dst, n / 10);
    }
    let d = (n % 10) as u8;
    dst.push(48 + d);
    assert(final(dst)@ =~= old(dst)@ + dec_bytes(n as nat));
}

/// The lower-case hex digit of `d < 16`.
pub open spec fn hex_digit_byte(d: nat) -> u8 {
    if d < 10 {
        (48 + d) as u8
    } else {
        (87 + d) as u8
    }
}

/// The lower-case hex digits of `n`, most significant first, no leading
/// zeros (`"0"` for zero).
pub open spec fn hex_bytes(n: nat) -> Seq<u8>
    decreases n,
{
    if n < 16 {
        seq![hex_digit_byte(n)]
    } else {
        hex_bytes(n / 16).push(hex_digit_byte(n % 16))
    }
}

/// Append the lower-case hex digits of `n`.
pub fn push_hex(dst: &mut Vec<u8>, n: usize)
    ensures
        final(dst)@ == old(dst)@ + hex_bytes(n as nat),
    decreases n,
{
    if n >= 16 {
        push_hex(dst, n / 16);
    }
    let d = (n % 16) as u8;
    let b = if d < 10 { 48 + d } else { 87 + d };
    dst.push(b);
    assert(final(dst)@ =~= old(dst)@ + hex_bytes(n as nat));
}

/// Append a byte string.
pub fn push_bytes(dst: &mut Vec<u8>, data: &[u8])
    ensures
        final(dst)@ == old(dst)@ + data@,
{
    let mut i: usize = 0;
    while i < data.len()
        invariant
            i <= data.len(),
            dst@ == old(dst)@ + data@.take(i as int),
        decreases data.len() - i,
    {
        dst.push(data[i]);
        assert(data@.take(i + 1) =~= data@.take(i as int).push(data@[i as int]));
        i = i + 1;
    }
    assert(data@.take(data.len() as int) =~= data@);
}

/// The decimal digits of `n` as chars.
pub open spec fn dec_chars(n: nat) -> Seq<char>
    decreases n,
{
    if n < 10 {
        seq![((48 + n) as u8) as char]
    } else {
        dec_chars(n / 10).push(((48 + n % 10) as u8) as char)
    }
}

/// Append the decimal digits of `n` as chars.
pub fn push_dec_chars(dst: &mut Vec<char>, n: u64)
    ensures
        final(dst)@ == old(dst)@ + dec_chars(n as nat),
    decreases n,
{
    if n >= 10 {
        push_dec_chars(dst, n / 10);
    }
    let d = (n % 10) as u8;
    dst.push((48 + d) as char);
    assert(final(dst)@ =~= old(dst)@ + dec_chars(n as nat));
}

/// Append chars.
pub fn push_chars(dst: &mut Vec<char>, data: &[char])
    ensures
        final(dst)@ == old(dst)@ + data@,
{
    let mut i: usize = 0;
    while i < data.len()
        invariant
            i <= data.len(),
            dst@ == old(dst)@ + data@.take(i as int),
        decreases data.len() - i,
    {
        dst.push(data[i]);
        assert(data@.take(i + 1) =~= data@.take(i as int).push(data@[i as int]));
        i = i + 1;
    }
    assert(data@.take(data.len() as int) =~= data@);
}

} // verus!
