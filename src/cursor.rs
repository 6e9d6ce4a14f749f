//! Bounds-checked, forward-only reads over a byte slice.
//!
//! A cursor is a `&mut &[u8]`: a successful read hands out the leading bytes
//! and leaves the slice pointing past them; a failed read leaves it untouched.

use vstd::prelude::*;

verus! {

/// The cursor moved from `before` to `after` by consuming exactly its first `n` bytes.
pub open spec fn advanced(before: Seq<u8>, after: Seq<u8>, n: nat) -> bool {
    n <= before.len() && after == before.subrange(n as int, before.len() as int)
}

/// A fixed-width read of `n` bytes from `before`: it yields the leading `n`
/// bytes and advances past them, or, when fewer remain, yields nothing and
/// leaves the cursor where it was.
pub open spec fn fixed_read<const N: usize>(
    before: Seq<u8>,
    after: Seq<u8>,
    r: Option<[u8; N]>,
) -> bool {
    &&& (before.len() >= N <==> r is Some)
    &&& (r matches Some(b) ==> b@ == before.subrange(0, N as int) && advanced(before, after, N as nat))
    &&& (r is None ==> after == before)
}

/// Takes the first `n` bytes of `input` and advances it past them.
/// Fails, leaving `input` unchanged, when fewer than `n` bytes remain.
pub fn read<'a>(input: &mut &'a [u8], n: usize) -> (r: Option<&'a [u8]>)
    ensures
        old(input)@.len() >= n <==> r is Some,
        r matches Some(b) ==> b@ == old(input)@.subrange(0, n as int) && advanced(
            old(input)@,
            final(input)@,
            n as nat,
        ),
        r is None ==> *final(input) == *old(input),
{
    let s: &'a [u8] = *input;
    if s.len() < n {
        return None;
    }
    let head = &s[0..n];
    let tail = &s[n..s.len()];
    *input = tail;
    Some(head)
}

/// Reads one byte.
pub fn read_8(input: &mut &[u8]) -> (r: Option<[u8; 1]>)
    ensures
        fixed_read(old(input)@, final(input)@, r),
{
    let b = read(input, 1)?;
    let a = [b[0]];
    assert(a@ =~= b@);
    Some(a)
}

/// Reads two bytes.
pub fn read_16(input: &mut &[u8]) -> (r: Option<[u8; 2]>)
    ensures
        fixed_read(old(input)@, final(input)@, r),
{
    let b = read(input, 2)?;
    let a = [b[0], b[1]];
    assert(a@ =~= b@);
    Some(a)
}

/// Reads four bytes.
pub fn read_32(input: &mut &[u8]) -> (r: Option<[u8; 4]>)
    ensures
        fixed_read(old(input)@, final(input)@, r),
{
    let b = read(input, 4)?;
    let a = [b[0], b[1], b[2], b[3]];
    assert(a@ =~= b@);
    Some(a)
}

/// Reads eight bytes.
pub fn read_64(input: &mut &[u8]) -> (r: Option<[u8; 8]>)
    ensures
        fixed_read(old(input)@, final(input)@, r),
{
    let b = read(input, 8)?;
    let a = [b[0], b[1], b[2], b[3], b[4], b[5], b[6], b[7]];
    assert(a@ =~= b@);
    Some(a)
}

} // verus!
