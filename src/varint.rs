//! Variable-length 32-bit integers: 7-bit groups, least-significant group
//! first, the top bit of each byte set on every group but the last, at most
//! five groups.

use vstd::prelude::*;
use crate::cursor::{advanced, read};
use crate::value::{CodecError, Protodef};

verus! {

/// 128 to the power `n`.
pub open spec fn pow128(n: nat) -> nat
    decreases n,
{
    if n == 0 {
        1
    } else {
        128 * pow128((n - 1) as nat)
    }
}

/// The encoding of the unsigned bit pattern `u`.
pub open spec fn varint_encode(u: u32) -> Seq<u8>
    decreases u,
{
    if u < 128 {
        seq![u as u8]
    } else {
        seq![(u % 128 + 128) as u8] + varint_encode(u / 128)
    }
}

/// Where a varint that starts at the front of `s` ends, scanning from group
/// `i`: the number of bytes it takes, or why it cannot be decoded.
pub open spec fn varint_extent(s: Seq<u8>, i: nat) -> Result<nat, CodecError>
    decreases 5 - i,
{
    if i >= 5 {
        Err(CodecError::VarIntOverflow)
    } else if i >= s.len() {
        Err(CodecError::Truncated)
    } else if s[i as int] < 128 {
        if i == 4 && s[i as int] >= 16 {
            Err(CodecError::VarIntOverflow)
        } else {
            Ok(i + 1)
        }
    } else {
        varint_extent(s, i + 1)
    }
}

/// The number that the low 7 bits of each byte of `s` spell, first byte
/// least significant.
pub open spec fn groups_value(s: Seq<u8>) -> nat
    decreases s.len(),
{
    if s.len() == 0 {
        0
    } else {
        groups_value(s.drop_last()) + (s.last() % 128) as nat * pow128((s.len() - 1) as nat)
    }
}

/// What decoding a varint from the front of `s` yields.
pub open spec fn varint_decoded(s: Seq<u8>) -> Result<Protodef, CodecError> {
    match varint_extent(s, 0) {
        Ok(n) => Ok(Protodef::Int32((groups_value(s.subrange(0, n as int)) as u32) as i32)),
        Err(e) => Err(e),
    }
}

/// Largest bit pattern (exclusive) that still fits once `i` groups are used.
spec fn group_cap(i: nat) -> nat {
    if i == 0 {
        0x1_0000_0000
    } else if i == 1 {
        0x200_0000
    } else if i == 2 {
        0x4_0000
    } else if i == 3 {
        0x800
    } else {
        16
    }
}

proof fn lemma_pow128_small()
    ensures
        pow128(0) == 1,
        pow128(1) == 0x80,
        pow128(2) == 0x4000,
        pow128(3) == 0x20_0000,
        pow128(4) == 0x1000_0000,
{
    reveal_with_fuel(pow128, 5);
}

proof fn lemma_groups_value_cons(b: u8, t: Seq<u8>)
    ensures
        groups_value(seq![b] + t) == (b % 128) as nat + 128 * groups_value(t),
    decreases t.len(),
{
    let s = seq![b] + t;
    if t.len() == 0 {
        assert(s.drop_last() == Seq::<u8>::empty());
        assert(s.last() == b);
        assert(pow128(0) == 1);
        assert(groups_value(Seq::<u8>::empty()) == 0);
        assert(groups_value(t) == 0);
        assert(s.len() == 1);
        assert(groups_value(s) == groups_value(s.drop_last()) + (s.last() % 128) as nat * pow128(
            0,
        ));
    } else {
        assert(s.drop_last() == seq![b] + t.drop_last());
        lemma_groups_value_cons(b, t.drop_last());
        let g = groups_value(t.drop_last());
        let c = (t.last() % 128) as nat;
        let p = pow128((t.len() - 1) as nat);
        assert(s.last() == t.last());
        assert(pow128((s.len() - 1) as nat) == 128 * p);
        assert(groups_value(t) == g + c * p);
        assert(groups_value(s) == groups_value(s.drop_last()) + c * (128 * p));
        assert((b % 128) as nat + 128 * g + c * (128 * p) == (b % 128) as nat + 128 * (g + c * p))
            by (nonlinear_arith);
    }
}

proof fn lemma_encode_value(u: u32)
    ensures
        groups_value(varint_encode(u)) == u,
        varint_encode(u).len() >= 1,
    decreases u,
{
    if u < 128 {
        let s = varint_encode(u);
        assert(s.drop_last() == Seq::<u8>::empty());
        assert(s.last() == u as u8);
        assert(pow128(0) == 1);
        assert(groups_value(Seq::<u8>::empty()) == 0);
        assert(s.len() == 1);
        assert(groups_value(s) == groups_value(s.drop_last()) + (s.last() % 128) as nat * pow128(
            0,
        ));
    } else {
        lemma_encode_value(u / 128);
        let b = (u % 128 + 128) as u8;
        lemma_groups_value_cons(b, varint_encode(u / 128));
        assert(b % 128 == u % 128);
        assert(varint_encode(u) == seq![b] + varint_encode(u / 128));
        assert(u == u % 128 + 128 * (u / 128));
    }
}

proof fn lemma_encode_extent(s: Seq<u8>, i: nat, u: u32)
    requires
        i <= 4,
        u < group_cap(i),
        i + varint_encode(u).len() <= s.len(),
        s.subrange(i as int, (i + varint_encode(u).len()) as int) == varint_encode(u),
    ensures
        varint_extent(s, i) == Ok::<nat, CodecError>(i + varint_encode(u).len()),
        i + varint_encode(u).len() <= 5,
    decreases u,
{
    let e = varint_encode(u);
    assert(s[i as int] == s.subrange(i as int, (i + e.len()) as int)[0]);
    if u >= 128 {
        let t = varint_encode(u / 128);
        assert(e.drop_first() == t);
        assert(s.subrange((i + 1) as int, (i + 1 + t.len()) as int) == e.drop_first());
        lemma_encode_extent(s, i + 1, u / 128);
    }
}

/// Encoding any 32-bit signed integer as a varint takes one to five bytes,
/// and decoding them gives the integer back and consumes exactly them,
/// whatever bytes follow.
pub proof fn lemma_varint_round_trip(x: i32, rest: Seq<u8>)
    ensures
        ({
            let e = varint_encode(x as u32);
            let s = e + rest;
            &&& 1 <= e.len() <= 5
            &&& varint_extent(s, 0) == Ok::<nat, CodecError>(e.len())
            &&& varint_decoded(s) == Ok::<Protodef, CodecError>(Protodef::Int32(x))
        }),
{
    let u = x as u32;
    let e = varint_encode(u);
    let s = e + rest;
    lemma_encode_value(u);
    assert(s.subrange(0, e.len() as int) == e);
    lemma_encode_extent(s, 0, u);
    assert(((x as u32) as i32) == x) by (bit_vector);
}

impl Protodef {
    /// Decodes a varint from the front of `input` into an `Int32`. On failure
    /// (`Truncated` or `VarIntOverflow`) `input` is left unchanged.
    pub fn parse_varint(input: &mut &[u8]) -> (r: Result<Self, CodecError>)
        ensures
            r == varint_decoded(old(input)@),
            match varint_extent(old(input)@, 0) {
                Ok(n) => advanced(old(input)@, final(input)@, n),
                Err(_) => *final(input) == *old(input),
            },
    {
        let s: &[u8] = *input;
        let mut value: u32 = 0;
        let mut mult: u32 = 1;
        let mut i: usize = 0;
        loop
            invariant
                i <= 4,
                s@ == old(input)@,
                *input == s,
                value == groups_value(s@.subrange(0, i as int)),
                mult == pow128(i as nat),
                value < mult,
                i as nat <= s@.len(),
                varint_extent(s@, 0) == varint_extent(s@, i as nat),
            decreases 5 - i,
        {
            proof {
                lemma_pow128_small();
            }
            let ghost next = s@.subrange(0, i as int + 1);
            if i >= s.len() {
                return Err(CodecError::Truncated);
            }
            let n = s[i];
            assert(next.drop_last() == s@.subrange(0, i as int));
            if n < 128 {
                if i == 4 && n >= 16 {
                    return Err(CodecError::VarIntOverflow);
                }
                assert(value + (n as nat) * mult < 0x1_0000_0000) by (nonlinear_arith)
                    requires
                        value < mult,
                        i < 4 ==> mult <= 0x20_0000,
                        i <= 4,
                        i < 4 ==> n < 128,
                        i == 4 ==> mult == 0x1000_0000 && n < 16,
                ;
                value = value + (n as u32) * mult;
                let _ = read(input, i + 1);
                return Ok(Protodef::Int32(value as i32));
            }
            if i == 4 {
                assert(varint_extent(s@, 5) == Err::<nat, CodecError>(CodecError::VarIntOverflow));
                return Err(CodecError::VarIntOverflow);
            }
            assert(value + ((n % 128) as nat) * mult < 128 * mult) by (nonlinear_arith)
                requires
                    value < mult,
                    n % 128 < 128,
            ;
            value = value + ((n % 128) as u32) * mult;
            mult = mult * 128;
            i = i + 1;
        }
    }

    /// Appends the varint encoding of an `Int32`'s bit pattern; fails with
    /// `TypeMismatch` on any other variant and writes nothing.
    pub fn serial_varint(data: &Self, output: &mut Vec<u8>) -> (r: Result<(), CodecError>)
        ensures
            match *data {
                Protodef::Int32(x) => r is Ok && final(output)@ == old(output)@ + varint_encode(
                    x as u32,
                ),
                _ => r == Err::<(), CodecError>(CodecError::TypeMismatch) && final(output)@ == old(
                    output,
                )@,
            },
    {
        match data {
            Protodef::Int32(x) => {
                let mut val: u32 = *x as u32;
                while val >= 128
                    invariant
                        output@ + varint_encode(val) == old(output)@ + varint_encode(*x as u32),
                    decreases val,
                {
                    let ghost pre = output@;
                    output.push((val % 128 + 128) as u8);
                    assert(pre + varint_encode(val) == output@ + varint_encode(val / 128));
                    val = val / 128;
                }
                output.push(val as u8);
                Ok(())
            },
            _ => Err(CodecError::TypeMismatch),
        }
    }
}

} // verus!
