//! Fixed-size byte groups taken from the front of a cursor, by count.

use vstd::prelude::*;
use crate::cursor::{fixed_read, read_8, read_16, read_32, read_64};

verus! {

/// Takes one byte.
pub fn one(input: &mut &[u8]) -> (r: Option<[u8; 1]>)
    ensures
        fixed_read(old(input)@, final(input)@, r),
{
    read_8(input)
}

/// Takes two bytes.
pub fn two(input: &mut &[u8]) -> (r: Option<[u8; 2]>)
    ensures
        fixed_read(old(input)@, final(input)@, r),
{
    read_16(input)
}

/// Takes four bytes.
pub fn four(input: &mut &[u8]) -> (r: Option<[u8; 4]>)
    ensures
        fixed_read(old(input)@, final(input)@, r),
{
    read_32(input)
}

/// Takes eight bytes.
pub fn eight(input: &mut &[u8]) -> (r: Option<[u8; 8]>)
    ensures
        fixed_read(old(input)@, final(input)@, r),
{
    read_64(input)
}

} // verus!
