//! Big-endian integers in byte strings.

use vstd::prelude::*;

use crate::error::{ErrorKind, ParseFailure, ParseResult, Severity};

verus! {

/// The two bytes of `x`, most significant first.
pub open spec fn u16_bytes(x: u16) -> Seq<u8> {
    seq![(x / 256) as u8, (x % 256) as u8]
}

/// The number in the two bytes of `s` at `i`.
pub open spec fn u16_at(s: Seq<u8>, i: int) -> u16 {
    (s[i] * 256 + s[i + 1]) as u16
}

/// The number in the three bytes of `s` at `i`.
pub open spec fn u24_at(s: Seq<u8>, i: int) -> u32 {
    (s[i] * 0x1_0000 + s[i + 1] * 0x100 + s[i + 2]) as u32
}

/// The number in the six bytes of `s` at `i`.
pub open spec fn u48_at(s: Seq<u8>, i: int) -> u64 {
    (s[i] * 0x100_0000_0000 + s[i + 1] * 0x1_0000_0000 + s[i + 2] * 0x100_0000 + s[i + 3] * 0x1_0000
        + s[i + 4] * 0x100 + s[i + 5]) as u64
}

/// The low six bytes of `x`, most significant first.
pub open spec fn u48_bytes(x: u64) -> Seq<u8> {
    seq![
        (x / 0x100_0000_0000 % 256) as u8,
        (x / 0x1_0000_0000 % 256) as u8,
        (x / 0x100_0000 % 256) as u8,
        (x / 0x1_0000 % 256) as u8,
        (x / 0x100 % 256) as u8,
        (x % 256) as u8,
    ]
}

/// Reading back what [`u16_bytes`] wrote gives the number.
pub proof fn law_u16_is_read_back(x: u16)
    ensures
        u16_at(u16_bytes(x), 0) == x,
{
}

/// Two bytes are the bytes of the number that they hold.
pub proof fn law_u16_is_written_back(s: Seq<u8>)
    requires
        s.len() == 2,
    ensures
        u16_bytes(u16_at(s, 0)) == s,
{
    assert(u16_bytes(u16_at(s, 0)) =~= s);
}

/// Reading back what [`u48_bytes`] wrote gives the number, for every number of at
/// most 48 bits.
pub proof fn law_u48_is_read_back(x: u64)
    requires
        x < 0x1_0000_0000_0000,
    ensures
        u48_at(u48_bytes(x), 0) == x,
{
    assert((x / 0x100_0000_0000 % 256) * 0x100_0000_0000 + (x / 0x1_0000_0000 % 256) * 0x1_0000_0000
        + (x / 0x100_0000 % 256) * 0x100_0000 + (x / 0x1_0000 % 256) * 0x1_0000 + (x / 0x100 % 256)
        * 0x100 + (x % 256) == x) by (bit_vector)
        requires
            x < 0x1_0000_0000_0000u64,
    ;
}

/// Two numbers of at most 48 bits with the same bytes are the same number.
pub proof fn law_u48_injective(x: u64, y: u64)
    requires
        x < 0x1_0000_0000_0000,
        y < 0x1_0000_0000_0000,
        u48_bytes(x) == u48_bytes(y),
    ensures
        x == y,
{
    law_u48_is_read_back(x);
    law_u48_is_read_back(y);
}

pub fn read_u16(s: &[u8], i: usize) -> (x: u16)
    requires
        i + 2 <= s@.len(),
    ensures
        x == u16_at(s@, i as int),
{
    (s[i] as u16) * 256 + (s[i + 1] as u16)
}

pub fn read_u24(s: &[u8], i: usize) -> (x: u32)
    requires
        i + 3 <= s@.len(),
    ensures
        x == u24_at(s@, i as int),
{
    (s[i] as u32) * 0x1_0000 + (s[i + 1] as u32) * 0x100 + (s[i + 2] as u32)
}

pub fn read_u48(s: &[u8], i: usize) -> (x: u64)
    requires
        i + 6 <= s@.len(),
    ensures
        x == u48_at(s@, i as int),
{
    (s[i] as u64) * 0x100_0000_0000 + (s[i + 1] as u64) * 0x1_0000_0000 + (s[i + 2] as u64)
        * 0x100_0000 + (s[i + 3] as u64) * 0x1_0000 + (s[i + 4] as u64) * 0x100 + (s[i + 5] as u64)
}

/// Appends the two bytes of `x`.
pub fn push_u16(out: &mut Vec<u8>, x: u16)
    ensures
        final(out)@ == old(out)@ + u16_bytes(x),
{
    out.push((x / 256) as u8);
    out.push((x % 256) as u8);
    assert(out@ =~= old(out)@ + u16_bytes(x));
}

/// The low six bytes of `x`, most significant first.
pub fn split_u48(x: u64) -> (b: [u8; 6])
    ensures
        b@ == u48_bytes(x),
{
    let b: [u8; 6] = [
        (x / 0x100_0000_0000 % 256) as u8,
        (x / 0x1_0000_0000 % 256) as u8,
        (x / 0x100_0000 % 256) as u8,
        (x / 0x1_0000 % 256) as u8,
        (x / 0x100 % 256) as u8,
        (x % 256) as u8,
    ];
    assert(b@ =~= u48_bytes(x));
    b
}

/// Splits the first `n` bytes off `input`.
pub fn take(input: &[u8], n: usize) -> (r: ParseResult<'_, &[u8]>)
    ensures
        n <= input@.len() ==> (r matches Ok((rest, head)) && rest@ == input@.skip(n as int)
            && head@ == input@.take(n as int)),
        n > input@.len() ==> crate::error::eof_in(r, input@),
{
    if n > input.len() {
        return Err(ParseFailure { severity: Severity::Error, input, code: ErrorKind::Eof });
    }
    Ok((&input[n..input.len()], &input[0..n]))
}

/// Splits one byte off `input`.
pub fn be_u8(input: &[u8]) -> (r: ParseResult<'_, u8>)
    ensures
        1 <= input@.len() ==> (r matches Ok((rest, x)) && rest@ == input@.skip(1) && x == input@[0]),
        1 > input@.len() ==> crate::error::eof_in(r, input@),
{
    if input.len() < 1 {
        return Err(ParseFailure { severity: Severity::Error, input, code: ErrorKind::Eof });
    }
    Ok((&input[1..input.len()], input[0]))
}

/// Splits a two-byte number off `input`.
pub fn be_u16(input: &[u8]) -> (r: ParseResult<'_, u16>)
    ensures
        2 <= input@.len() ==> (r matches Ok((rest, x)) && rest@ == input@.skip(2) && x == u16_at(
            input@,
            0,
        )),
        2 > input@.len() ==> crate::error::eof_in(r, input@),
{
    if input.len() < 2 {
        return Err(ParseFailure { severity: Severity::Error, input, code: ErrorKind::Eof });
    }
    Ok((&input[2..input.len()], read_u16(input, 0)))
}

/// The first of two bytes counts 256 times as much as the second.
pub proof fn law_u16_is_most_significant_first(s: Seq<u8>, i: int, x: u16)
    ensures
        u16_at(s, i) == s[i] * 256 + s[i + 1],
        u16_bytes(x).len() == 2,
        u16_bytes(x)[0] * 256 + u16_bytes(x)[1] == x,
{
}

/// Each of three bytes counts 256 times as much as the next.
pub proof fn law_u24_is_most_significant_first(s: Seq<u8>, i: int)
    ensures
        u24_at(s, i) == s[i] * 65536 + s[i + 1] * 256 + s[i + 2],
{
}

/// Each of six bytes counts 256 times as much as the next, and what does not fit into
/// them is left out.
pub proof fn law_u48_is_most_significant_first(s: Seq<u8>, i: int, x: u64)
    ensures
        u48_at(s, i) == s[i] * 1099511627776 + s[i + 1] * 4294967296 + s[i + 2] * 16777216 + s[i
            + 3] * 65536 + s[i + 4] * 256 + s[i + 5],
        u48_bytes(x).len() == 6,
        u48_bytes(x)[0] * 1099511627776 + u48_bytes(x)[1] * 4294967296 + u48_bytes(x)[2] * 16777216
            + u48_bytes(x)[3] * 65536 + u48_bytes(x)[4] * 256 + u48_bytes(x)[5] == x as int
            % 281474976710656,
{
    assert((x / 0x100_0000_0000 % 256) * 0x100_0000_0000 + (x / 0x1_0000_0000 % 256) * 0x1_0000_0000
        + (x / 0x100_0000 % 256) * 0x100_0000 + (x / 0x1_0000 % 256) * 0x1_0000 + (x / 0x100 % 256)
        * 0x100 + (x % 256) == x % 0x1_0000_0000_0000) by (bit_vector);
}

} // verus!
