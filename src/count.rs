//! Turning a numeric value into a length for a later counted read.

use vstd::prelude::*;
use vstd::arithmetic::power2::{
    pow2,
    lemma2_to64,
    lemma2_to64_rest,
    lemma_pow2_adds,
    lemma_pow2_pos,
    lemma_pow2_unfold,
};
use vstd::arithmetic::div_mod::{lemma_div_multiples_vanish, lemma_fundamental_div_mod, lemma_mod_multiples_basic};
use crate::value::Protodef;

verus! {

/// `s * 2^e` when that is a whole number; nothing when it has a fraction.
pub open spec fn scaled(s: nat, e: int) -> Option<nat> {
    if e >= 0 {
        Some(s * pow2(e as nat))
    } else if s % pow2((-e) as nat) == 0 {
        Some(s / pow2((-e) as nat))
    } else {
        None
    }
}

/// The whole number that an IEEE-754 pattern with the given fields stands
/// for, when it is finite, not negative and has no fractional part. Zero
/// counts whatever its sign bit.
/// `mant_bits` is the width of the stored significand, `exp_top` the all-ones
/// exponent, `bias` the exponent bias.
pub open spec fn float_count(
    sign: nat,
    exp: nat,
    mant: nat,
    mant_bits: nat,
    exp_top: nat,
    bias: int,
) -> Option<nat> {
    if exp == 0 && mant == 0 {
        Some(0)
    } else if sign != 0 || exp == exp_top {
        None
    } else if exp == 0 {
        scaled(mant, 1 - bias - mant_bits)
    } else {
        scaled(mant + pow2(mant_bits), exp - bias - mant_bits)
    }
}

/// The count a binary32 bit pattern stands for.
pub open spec fn f32_count(b: u32) -> Option<nat> {
    float_count(b as nat / pow2(31), (b as nat / pow2(23)) % 256, b as nat % pow2(23), 23, 255, 127)
}

/// The count a binary64 bit pattern stands for.
pub open spec fn f64_count(b: u64) -> Option<nat> {
    float_count(
        b as nat / pow2(63),
        (b as nat / pow2(52)) % 2048,
        b as nat % pow2(52),
        52,
        2047,
        1023,
    )
}

/// The non-negative length a value stands for: any unsigned integer, a signed
/// integer that is not negative, a float or double that is finite, not
/// negative and a whole number (either zero among them). Nothing for any
/// other value.
pub open spec fn count_of(v: Protodef) -> Option<nat> {
    match v {
        Protodef::Uint8(x) => Some(x as nat),
        Protodef::Uint16(x) => Some(x as nat),
        Protodef::Uint32(x) => Some(x as nat),
        Protodef::Uint64(x) => Some(x as nat),
        Protodef::Int8(x) => if x >= 0 { Some(x as nat) } else { None },
        Protodef::Int16(x) => if x >= 0 { Some(x as nat) } else { None },
        Protodef::Int32(x) => if x >= 0 { Some(x as nat) } else { None },
        Protodef::Int64(x) => if x >= 0 { Some(x as nat) } else { None },
        Protodef::Float(b) => f32_count(b),
        Protodef::Double(b) => f64_count(b),
        _ => None,
    }
}

/// `n`, or the largest `usize` when `n` is larger.
pub open spec fn saturate(n: nat) -> nat {
    if n > usize::MAX {
        usize::MAX as nat
    } else {
        n
    }
}

proof fn lemma_odd_not_divisible(s: nat, v: nat, i: nat, q: nat)
    requires
        s == v * pow2(i),
        v % 2 == 1,
        i < q,
    ensures
        s % pow2(q) != 0,
{
    if s % pow2(q) == 0 {
        let d = (q - i) as nat;
        lemma_pow2_pos(q);
        lemma_pow2_pos(i);
        lemma_pow2_adds(i, d);
        assert(i + d == q);
        lemma_pow2_unfold(d);
        lemma_fundamental_div_mod(s as int, pow2(q) as int);
        let k = s / pow2(q);
        let m = pow2((d - 1) as nat) * k;
        assert(v * pow2(i) == (2 * m) * pow2(i)) by (nonlinear_arith)
            requires
                s == v * pow2(i),
                s == pow2(q) * k,
                pow2(q) == pow2(i) * pow2(d),
                pow2(d) == 2 * pow2((d - 1) as nat),
                m == pow2((d - 1) as nat) * k,
        ;
        assert(v == 2 * m) by (nonlinear_arith)
            requires
                v * pow2(i) == (2 * m) * pow2(i),
                pow2(i) > 0,
        ;
        lemma_mod_multiples_basic(m as int, 2);
        assert(m * 2 == v);
    }
}

/// `s * 2^e` capped at `u64::MAX`, or nothing when it is not whole.
fn scaled_count(s: u64, e: i64) -> (r: Option<u64>)
    requires
        -1100 <= e <= 1100,
    ensures
        match scaled(s as nat, e as int) {
            Some(n) => r == Some(
                if n > u64::MAX {
                    u64::MAX
                } else {
                    n as u64
                },
            ),
            None => r is None,
        },
{
    proof {
        lemma2_to64();
    }
    if e >= 0 {
        let k = e as u64;
        let mut v: u64 = s;
        let mut i: u64 = 0;
        while i < k
            invariant
                i <= k,
                k == e,
                v == (if s * pow2(i as nat) > u64::MAX {
                    u64::MAX as int
                } else {
                    s * pow2(i as nat)
                }),
            decreases k - i,
        {
            proof {
                lemma_pow2_unfold((i + 1) as nat);
                let x = s * pow2(i as nat);
                assert(s * pow2((i + 1) as nat) == 2 * x) by (nonlinear_arith)
                    requires
                        pow2((i + 1) as nat) == 2 * pow2(i as nat),
                        x == s * pow2(i as nat),
                ;
            }
            v = if v > u64::MAX / 2 {
                u64::MAX
            } else {
                v * 2
            };
            i = i + 1;
        }
        Some(v)
    } else {
        let q: u64 = (0 - e) as u64;
        let mut v: u64 = s;
        let mut i: u64 = 0;
        proof {
            reveal(pow2);
            assert(pow2(0) == 1) by {
                lemma2_to64();
            }
        }
        while i < q
            invariant
                i <= q,
                q == -e,
                s as nat == v * pow2(i as nat),
            decreases q - i,
        {
            if v == 0 {
                proof {
                    lemma_pow2_pos(q as nat);
                    assert(s == 0);
                }
                return Some(0);
            }
            if v % 2 != 0 {
                proof {
                    lemma_odd_not_divisible(s as nat, v as nat, i as nat, q as nat);
                }
                return None;
            }
            proof {
                lemma_pow2_unfold((i + 1) as nat);
                assert(s == (v / 2) as nat * pow2((i + 1) as nat)) by (nonlinear_arith)
                    requires
                        s as nat == v * pow2(i as nat),
                        pow2((i + 1) as nat) == 2 * pow2(i as nat),
                        v % 2 == 0,
                ;
            }
            v = v / 2;
            i = i + 1;
        }
        proof {
            lemma_pow2_pos(q as nat);
            lemma_mod_multiples_basic(v as int, pow2(q as nat) as int);
            lemma_div_multiples_vanish(v as int, pow2(q as nat) as int);
            assert(pow2(q as nat) * v == v * pow2(q as nat));
        }
        Some(v)
    }
}

/// `n`, or the largest `usize` when `n` does not fit.
fn to_count(n: u64) -> (r: usize)
    ensures
        r == saturate(n as nat),
{
    if n > usize::MAX as u64 {
        usize::MAX
    } else {
        n as usize
    }
}

/// A capped `u64` count narrowed to `usize`, capped again.
fn capped(c: Option<u64>) -> (r: Option<usize>)
    ensures
        match c {
            Some(n) => r matches Some(x) && x == saturate(n as nat),
            None => r is None,
        },
{
    match c {
        Some(n) => Some(to_count(n)),
        None => None,
    }
}

/// The count of a binary32 bit pattern, capped at `usize::MAX`.
fn f32_to_count(b: u32) -> (r: Option<usize>)
    ensures
        match f32_count(b) {
            Some(n) => r matches Some(c) && c == saturate(n),
            None => r is None,
        },
{
    proof {
        lemma2_to64();
    }
    let sign = b / 0x8000_0000;
    let exp = (b / 0x80_0000) % 256;
    let mant = b % 0x80_0000;
    if exp == 0 && mant == 0 {
        Some(0)
    } else if sign != 0 || exp == 255 {
        None
    } else if exp == 0 {
        capped(scaled_count(mant as u64, -149))
    } else {
        capped(scaled_count(mant as u64 + 0x80_0000, exp as i64 - 150))
    }
}

/// The count of a binary64 bit pattern, capped at `usize::MAX`.
fn f64_to_count(b: u64) -> (r: Option<usize>)
    ensures
        match f64_count(b) {
            Some(n) => r matches Some(c) && c == saturate(n),
            None => r is None,
        },
{
    proof {
        lemma2_to64();
        lemma2_to64_rest();
    }
    let sign = b / 0x8000_0000_0000_0000;
    let exp = (b / 0x10_0000_0000_0000) % 2048;
    let mant = b % 0x10_0000_0000_0000;
    if exp == 0 && mant == 0 {
        Some(0)
    } else if sign != 0 || exp == 2047 {
        None
    } else if exp == 0 {
        capped(scaled_count(mant, -1074))
    } else {
        capped(scaled_count(mant + 0x10_0000_0000_0000, exp as i64 - 1075))
    }
}

impl Protodef {
    /// The length this value stands for, capped at `usize::MAX`: see
    /// `count_of` for which values have one.
    pub fn as_count(&self) -> (r: Option<usize>)
        ensures
            match count_of(*self) {
                Some(n) => r matches Some(c) && c == saturate(n),
                None => r is None,
            },
    {
        match self {
            Protodef::Uint8(x) => Some(to_count(*x as u64)),
            Protodef::Uint16(x) => Some(to_count(*x as u64)),
            Protodef::Uint32(x) => Some(to_count(*x as u64)),
            Protodef::Uint64(x) => Some(to_count(*x as u64)),
            Protodef::Int8(x) => if *x >= 0 { Some(to_count(*x as u64)) } else { None },
            Protodef::Int16(x) => if *x >= 0 { Some(to_count(*x as u64)) } else { None },
            Protodef::Int32(x) => if *x >= 0 { Some(to_count(*x as u64)) } else { None },
            Protodef::Int64(x) => if *x >= 0 { Some(to_count(*x as u64)) } else { None },
            Protodef::Float(b) => f32_to_count(*b),
            Protodef::Double(b) => f64_to_count(*b),
            _ => None,
        }
    }
}

} // verus!
