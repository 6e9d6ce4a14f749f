//! Fixed-width numbers: big-endian (most-significant byte first) encodings of
//! the integer variants and of the IEEE-754 bit patterns of the float ones.

use vstd::prelude::*;
use crate::cursor::{advanced, read};
use crate::value::{CodecError, Protodef};

verus! {

/// The fixed-width numeric variants of a value.
#[derive(Debug, Clone, Copy, PartialEq, Eq, Structural)]
pub enum NumKind {
    Uint8,
    Uint16,
    Uint32,
    Uint64,
    Int8,
    Int16,
    Int32,
    Int64,
    Float,
    Double,
}

/// Number of bytes a kind occupies on the wire.
pub open spec fn width(k: NumKind) -> nat {
    match k {
        NumKind::Uint8 | NumKind::Int8 => 1,
        NumKind::Uint16 | NumKind::Int16 => 2,
        NumKind::Uint32 | NumKind::Int32 | NumKind::Float => 4,
        NumKind::Uint64 | NumKind::Int64 | NumKind::Double => 8,
    }
}

/// `v` is the variant that kind `k` names.
pub open spec fn has_kind(v: Protodef, k: NumKind) -> bool {
    match (v, k) {
        (Protodef::Uint8(_), NumKind::Uint8) => true,
        (Protodef::Uint16(_), NumKind::Uint16) => true,
        (Protodef::Uint32(_), NumKind::Uint32) => true,
        (Protodef::Uint64(_), NumKind::Uint64) => true,
        (Protodef::Int8(_), NumKind::Int8) => true,
        (Protodef::Int16(_), NumKind::Int16) => true,
        (Protodef::Int32(_), NumKind::Int32) => true,
        (Protodef::Int64(_), NumKind::Int64) => true,
        (Protodef::Float(_), NumKind::Float) => true,
        (Protodef::Double(_), NumKind::Double) => true,
        _ => false,
    }
}

/// The unsigned bit pattern of a numeric payload (two's complement for the
/// signed variants); zero for the other variants.
pub open spec fn bits_of(v: Protodef) -> u64 {
    match v {
        Protodef::Uint8(x) => x as u64,
        Protodef::Uint16(x) => x as u64,
        Protodef::Uint32(x) => x as u64,
        Protodef::Uint64(x) => x,
        Protodef::Int8(x) => (x as u8) as u64,
        Protodef::Int16(x) => (x as u16) as u64,
        Protodef::Int32(x) => (x as u32) as u64,
        Protodef::Int64(x) => x as u64,
        Protodef::Float(x) => x as u64,
        Protodef::Double(x) => x,
        _ => 0,
    }
}

/// The value of kind `k` whose bit pattern is the low `width(k)` bytes of `b`.
pub open spec fn value_of_bits(k: NumKind, b: u64) -> Protodef {
    match k {
        NumKind::Uint8 => Protodef::Uint8(b as u8),
        NumKind::Uint16 => Protodef::Uint16(b as u16),
        NumKind::Uint32 => Protodef::Uint32(b as u32),
        NumKind::Uint64 => Protodef::Uint64(b),
        NumKind::Int8 => Protodef::Int8(b as i8),
        NumKind::Int16 => Protodef::Int16(b as i16),
        NumKind::Int32 => Protodef::Int32(b as i32),
        NumKind::Int64 => Protodef::Int64(b as i64),
        NumKind::Float => Protodef::Float(b as u32),
        NumKind::Double => Protodef::Double(b),
    }
}

/// 256 to the power `n`.
pub open spec fn pow256(n: nat) -> nat
    decreases n,
{
    if n == 0 {
        1
    } else {
        256 * pow256((n - 1) as nat)
    }
}

/// The number that bytes `s` spell most-significant first.
pub open spec fn be_value(s: Seq<u8>) -> nat
    decreases s.len(),
{
    if s.len() == 0 {
        0
    } else {
        be_value(s.drop_last()) * 256 + s.last() as nat
    }
}

/// The `w` low-order bytes of `v`, most-significant first.
pub open spec fn be_bytes(v: nat, w: nat) -> Seq<u8>
    decreases w,
{
    if w == 0 {
        Seq::empty()
    } else {
        be_bytes(v / 256, (w - 1) as nat).push((v % 256) as u8)
    }
}

/// What decoding kind `k` yields from exactly its `width(k)` bytes `s`.
pub open spec fn decoded(k: NumKind, s: Seq<u8>) -> Protodef {
    value_of_bits(k, be_value(s) as u64)
}

/// The wire bytes of a numeric value of kind `k`.
pub open spec fn encoded(k: NumKind, v: Protodef) -> Seq<u8> {
    be_bytes(bits_of(v) as nat, width(k))
}

proof fn lemma_be_value_bound(s: Seq<u8>)
    ensures
        be_value(s) < pow256(s.len()),
    decreases s.len(),
{
    if s.len() > 0 {
        let init = s.drop_last();
        lemma_be_value_bound(init);
        let a = be_value(init);
        let p = pow256(init.len());
        let b = s.last() as nat;
        assert(a * 256 + b < 256 * p) by (nonlinear_arith)
            requires
                a < p,
                b < 256,
        ;
    }
}

proof fn lemma_be_round_trip(v: nat, w: nat)
    requires
        v < pow256(w),
    ensures
        be_bytes(v, w).len() == w,
        be_value(be_bytes(v, w)) == v,
    decreases w,
{
    if w > 0 {
        let p = pow256((w - 1) as nat);
        assert(v / 256 < p) by (nonlinear_arith)
            requires
                v < 256 * p,
        ;
        lemma_be_round_trip(v / 256, (w - 1) as nat);
        let s = be_bytes(v, w);
        assert(s.drop_last() == be_bytes(v / 256, (w - 1) as nat));
        assert(v == (v / 256) * 256 + v % 256);
    }
}

proof fn lemma_pow256_widths()
    ensures
        pow256(1) == 0x100,
        pow256(2) == 0x1_0000,
        pow256(4) == 0x1_0000_0000,
        pow256(8) == 0x1_0000_0000_0000_0000,
{
    reveal_with_fuel(pow256, 9);
}

/// The byte width of a kind.
pub fn byte_width(k: NumKind) -> (r: usize)
    ensures
        r == width(k),
{
    match k {
        NumKind::Uint8 | NumKind::Int8 => 1,
        NumKind::Uint16 | NumKind::Int16 => 2,
        NumKind::Uint32 | NumKind::Int32 | NumKind::Float => 4,
        NumKind::Uint64 | NumKind::Int64 | NumKind::Double => 8,
    }
}

/// Decodes a number of kind `k` from the front of `input`, most-significant
/// byte first. Fails with `Truncated`, leaving `input` unchanged, when fewer
/// than its width remain.
pub fn parse(k: NumKind, input: &mut &[u8]) -> (r: Result<Protodef, CodecError>)
    ensures
        old(input)@.len() >= width(k) ==> r == Ok::<Protodef, CodecError>(
            decoded(k, old(input)@.subrange(0, width(k) as int)),
        ) && advanced(old(input)@, final(input)@, width(k)),
        old(input)@.len() < width(k) ==> r == Err::<Protodef, CodecError>(CodecError::Truncated)
            && *final(input) == *old(input),
{
    let w = byte_width(k);
    let bytes = match read(input, w) {
        Some(b) => b,
        None => return Err(CodecError::Truncated),
    };
    let mut acc: u64 = 0;
    let mut i: usize = 0;
    proof {
        lemma_pow256_widths();
    }
    while i < w
        invariant
            w == bytes@.len(),
            w <= 8,
            i <= w,
            acc == be_value(bytes@.subrange(0, i as int)),
            pow256(8) == 0x1_0000_0000_0000_0000,
        decreases w - i,
    {
        let ghost pre = bytes@.subrange(0, i as int);
        let ghost next = bytes@.subrange(0, i as int + 1);
        assert(next.drop_last() == pre);
        proof {
            lemma_be_value_bound(next);
            lemma_pow256_monotone(next.len(), 8);
        }
        acc = acc * 256 + bytes[i] as u64;
        i = i + 1;
    }
    assert(bytes@.subrange(0, w as int) == bytes@);
    let v = match k {
        NumKind::Uint8 => Protodef::Uint8(acc as u8),
        NumKind::Uint16 => Protodef::Uint16(acc as u16),
        NumKind::Uint32 => Protodef::Uint32(acc as u32),
        NumKind::Uint64 => Protodef::Uint64(acc),
        NumKind::Int8 => Protodef::Int8(acc as i8),
        NumKind::Int16 => Protodef::Int16(acc as i16),
        NumKind::Int32 => Protodef::Int32(acc as i32),
        NumKind::Int64 => Protodef::Int64(acc as i64),
        NumKind::Float => Protodef::Float(acc as u32),
        NumKind::Double => Protodef::Double(acc),
    };
    Ok(v)
}

proof fn lemma_pow256_monotone(a: nat, b: nat)
    requires
        a <= b,
    ensures
        pow256(a) <= pow256(b),
    decreases b,
{
    if a < b {
        lemma_pow256_monotone(a, (b - 1) as nat);
    }
}

/// Appends the `w` low-order bytes of `v` to `out`, most-significant first.
fn push_be(v: u64, w: usize, out: &mut Vec<u8>)
    ensures
        final(out)@ == old(out)@ + be_bytes(v as nat, w as nat),
    decreases w,
{
    if w > 0 {
        push_be(v / 256, w - 1, out);
        out.push((v % 256) as u8);
    } else {
        assert(old(out)@ + be_bytes(v as nat, 0) == old(out)@);
    }
}

/// Appends the big-endian bytes of `data` to `output` when `data` is of kind
/// `k`; otherwise fails with `TypeMismatch` and writes nothing.
pub fn serial(k: NumKind, data: &Protodef, output: &mut Vec<u8>) -> (r: Result<(), CodecError>)
    ensures
        has_kind(*data, k) ==> r is Ok && final(output)@ == old(output)@ + encoded(k, *data),
        !has_kind(*data, k) ==> r == Err::<(), CodecError>(CodecError::TypeMismatch)
            && final(output)@ == old(output)@,
{
    let bits: u64 = match (data, k) {
        (Protodef::Uint8(x), NumKind::Uint8) => *x as u64,
        (Protodef::Uint16(x), NumKind::Uint16) => *x as u64,
        (Protodef::Uint32(x), NumKind::Uint32) => *x as u64,
        (Protodef::Uint64(x), NumKind::Uint64) => *x,
        (Protodef::Int8(x), NumKind::Int8) => (*x as u8) as u64,
        (Protodef::Int16(x), NumKind::Int16) => (*x as u16) as u64,
        (Protodef::Int32(x), NumKind::Int32) => (*x as u32) as u64,
        (Protodef::Int64(x), NumKind::Int64) => *x as u64,
        (Protodef::Float(x), NumKind::Float) => *x as u64,
        (Protodef::Double(x), NumKind::Double) => *x,
        _ => return Err(CodecError::TypeMismatch),
    };
    push_be(bits, byte_width(k), output);
    Ok(())
}

/// Encoding a number of kind `k` and decoding the bytes as kind `k` consumes
/// exactly the width of `k` and gives back the same value, whatever follows.
pub proof fn lemma_fixed_width_round_trip(k: NumKind, v: Protodef, rest: Seq<u8>)
    requires
        has_kind(v, k),
    ensures
        ({
            let s = encoded(k, v) + rest;
            &&& s.len() >= width(k)
            &&& decoded(k, s.subrange(0, width(k) as int)) == v
            &&& s.subrange(width(k) as int, s.len() as int) == rest
        }),
{
    let w = width(k);
    let b = bits_of(v);
    lemma_pow256_widths();
    assert(b < pow256(w)) by {
        match v {
            Protodef::Uint8(x) => {},
            Protodef::Uint16(x) => {},
            Protodef::Uint32(x) => {},
            Protodef::Int8(x) => { assert((x as u8) as u64 <= 0xff) by (bit_vector); },
            Protodef::Int16(x) => { assert((x as u16) as u64 <= 0xffff) by (bit_vector); },
            Protodef::Int32(x) => { assert((x as u32) as u64 <= 0xffff_ffff) by (bit_vector); },
            Protodef::Float(x) => {},
            _ => {},
        }
    }
    lemma_be_round_trip(b as nat, w);
    let e = encoded(k, v);
    let s = e + rest;
    assert(s.subrange(0, w as int) == e);
    assert(s.subrange(w as int, s.len() as int) == rest);
    assert(value_of_bits(k, b) == v) by {
        match v {
            Protodef::Int8(x) => { assert(((x as u8) as u64) as i8 == x) by (bit_vector); },
            Protodef::Int16(x) => { assert(((x as u16) as u64) as i16 == x) by (bit_vector); },
            Protodef::Int32(x) => { assert(((x as u32) as u64) as i32 == x) by (bit_vector); },
            Protodef::Int64(x) => { assert((x as u64) as i64 == x) by (bit_vector); },
            _ => {},
        }
    }
}

} // verus!
