//! Booleans, null-terminated strings, the void marker, and buffers and
//! strings whose length the caller supplies.

use vstd::prelude::*;
use vstd::slice::slice_to_vec;
use vstd::utf8::{decode_utf8, encode_utf8, valid_utf8};
use crate::cursor::{advanced, read};
use crate::value::{CodecError, Protodef};

verus! {

/// Relies on `String::from_utf8`: it accepts exactly the valid UTF-8 byte
/// sequences and then holds the characters they encode.
#[verifier::external_body]
fn utf8_string(b: Vec<u8>) -> (r: Option<String>)
    ensures
        r is Some <==> valid_utf8(b@),
        r matches Some(s) ==> s@ == decode_utf8(b@),
{
    String::from_utf8(b).ok()
}

/// Index of the first zero byte of `s`, if there is one.
pub open spec fn first_zero(s: Seq<u8>) -> Option<nat> {
    if exists|i: int| 0 <= i < s.len() && s[i] == 0 {
        Some(
            (choose|i: int| 0 <= i < s.len() && s[i] == 0 && forall|j: int| 0 <= j < i ==> s[j] != 0) as nat,
        )
    } else {
        None
    }
}

/// The result of decoding text bytes `b` into a string value.
pub open spec fn text_value(b: Seq<u8>, r: Result<Protodef, CodecError>) -> bool {
    if valid_utf8(b) {
        r matches Ok(Protodef::String(x)) && x@ == decode_utf8(b)
    } else {
        r == Err::<Protodef, CodecError>(CodecError::InvalidUtf8)
    }
}

proof fn lemma_first_zero(s: Seq<u8>, t: int)
    requires
        0 <= t < s.len(),
        s[t] == 0,
        forall|j: int| 0 <= j < t ==> s[j] != 0,
    ensures
        first_zero(s) == Some(t as nat),
{
    let c = choose|i: int| 0 <= i < s.len() && s[i] == 0 && forall|j: int| 0 <= j < i ==> s[j] != 0;
    assert(0 <= c < s.len() && s[c] == 0 && forall|j: int| 0 <= j < c ==> s[j] != 0);
    assert(c == t);
}

/// Appends every byte of `b` to `out`.
fn append_bytes(out: &mut Vec<u8>, b: &[u8])
    ensures
        final(out)@ == old(out)@ + b@,
{
    let mut i: usize = 0;
    while i < b.len()
        invariant
            i <= b@.len(),
            out@ == old(out)@ + b@.subrange(0, i as int),
        decreases b@.len() - i,
    {
        out.push(b[i]);
        assert(b@.subrange(0, i as int + 1) == b@.subrange(0, i as int).push(b@[i as int]));
        i = i + 1;
    }
    assert(b@.subrange(0, b@.len() as int) == b@);
}

/// What a boolean byte decodes to.
pub open spec fn bool_decoded(byte: u8) -> Result<Protodef, CodecError> {
    if byte == 0 {
        Ok(Protodef::Bool(false))
    } else if byte == 1 {
        Ok(Protodef::Bool(true))
    } else {
        Err(CodecError::InvalidBoolEncoding)
    }
}

/// The byte a boolean encodes to.
pub open spec fn bool_byte(b: bool) -> u8 {
    if b {
        1
    } else {
        0
    }
}

/// Decoding the byte that a boolean encodes to gives the boolean back, and
/// every byte that decodes encodes back to itself.
pub proof fn lemma_bool_round_trip(b: bool, byte: u8)
    ensures
        bool_decoded(bool_byte(b)) == Ok::<Protodef, CodecError>(Protodef::Bool(b)),
        bool_decoded(byte) matches Ok(Protodef::Bool(x)) ==> bool_byte(x) == byte,
{
}

impl Protodef {
    /// Decodes one byte as a boolean: 0 is false, 1 is true, any other byte
    /// fails with `InvalidBoolEncoding` after being consumed.
    pub fn parse_bool(input: &mut &[u8]) -> (r: Result<Self, CodecError>)
        ensures
            old(input)@.len() == 0 ==> r == Err::<Protodef, CodecError>(CodecError::Truncated)
                && *final(input) == *old(input),
            old(input)@.len() > 0 ==> advanced(old(input)@, final(input)@, 1) && r == bool_decoded(
                old(input)@[0],
            ),
    {
        let b = match read(input, 1) {
            Some(b) => b,
            None => return Err(CodecError::Truncated),
        };
        match b[0] {
            0 => Ok(Protodef::Bool(false)),
            1 => Ok(Protodef::Bool(true)),
            _ => Err(CodecError::InvalidBoolEncoding),
        }
    }

    /// Appends 0 for false or 1 for true; fails with `TypeMismatch` on any
    /// other variant and writes nothing.
    pub fn serial_bool(data: &Self, output: &mut Vec<u8>) -> (r: Result<(), CodecError>)
        ensures
            match *data {
                Protodef::Bool(b) => r is Ok && final(output)@ == old(output)@.push(bool_byte(b)),
                _ => r == Err::<(), CodecError>(CodecError::TypeMismatch) && final(output)@ == old(
                    output,
                )@,
            },
    {
        match data {
            Protodef::Bool(b) => {
                output.push(if *b {
                    1u8
                } else {
                    0u8
                });
                Ok(())
            },
            _ => Err(CodecError::TypeMismatch),
        }
    }

    /// Decodes the bytes before the first zero byte as UTF-8 text and moves
    /// past the zero. Without a zero byte it fails with `UnterminatedString`
    /// and leaves `input` unchanged; text that is not UTF-8 fails with
    /// `InvalidUtf8` once the terminator has been consumed.
    pub fn parse_cstring(input: &mut &[u8]) -> (r: Result<Self, CodecError>)
        ensures
            match first_zero(old(input)@) {
                None => r == Err::<Protodef, CodecError>(CodecError::UnterminatedString)
                    && *final(input) == *old(input),
                Some(t) => advanced(old(input)@, final(input)@, t + 1) && text_value(
                    old(input)@.subrange(0, t as int),
                    r,
                ),
            },
    {
        let s: &[u8] = *input;
        let mut t: usize = 0;
        while t < s.len() && s[t] != 0
            invariant
                t <= s@.len(),
                forall|j: int| 0 <= j < t ==> s@[j] != 0,
            decreases s@.len() - t,
        {
            t = t + 1;
        }
        if t == s.len() {
            return Err(CodecError::UnterminatedString);
        }
        proof {
            lemma_first_zero(s@, t as int);
        }
        let text = read(input, t).unwrap();
        let ghost mid = input@;
        let _ = read(input, 1);
        assert(input@ == mid.subrange(1, mid.len() as int));
        assert(input@ =~= s@.subrange(t + 1, s@.len() as int));
        match utf8_string(slice_to_vec(text)) {
            Some(x) => Ok(Protodef::String(x)),
            None => Err(CodecError::InvalidUtf8),
        }
    }

    /// Appends the UTF-8 bytes of a string followed by one zero byte; fails
    /// with `TypeMismatch` on any other variant and writes nothing.
    pub fn serial_cstring(data: &Self, output: &mut Vec<u8>) -> (r: Result<(), CodecError>)
        ensures
            match *data {
                Protodef::String(x) => r is Ok && final(output)@ == old(output)@ + encode_utf8(
                    x@,
                ).push(0u8),
                _ => r == Err::<(), CodecError>(CodecError::TypeMismatch) && final(output)@ == old(
                    output,
                )@,
            },
    {
        match data {
            Protodef::String(x) => {
                append_bytes(output, x.as_str().as_bytes());
                output.push(0u8);
                assert(old(output)@ + encode_utf8(x@).push(0u8) == (old(output)@ + encode_utf8(
                    x@,
                )).push(0u8));
                Ok(())
            },
            _ => Err(CodecError::TypeMismatch),
        }
    }

    /// Consumes nothing and yields the void marker.
    pub fn parse_void(input: &mut &[u8]) -> (r: Result<Self, CodecError>)
        ensures
            r == Ok::<Protodef, CodecError>(Protodef::Void()),
            *final(input) == *old(input),
    {
        Ok(Protodef::Void())
    }

    /// Writes nothing and always succeeds.
    pub fn serial_void(_data: &Self, output: &mut Vec<u8>) -> (r: Result<(), CodecError>)
        ensures
            r is Ok,
            final(output)@ == old(output)@,
    {
        Ok(())
    }

    /// Takes the next `len` bytes as a buffer. Fails with `Truncated`,
    /// leaving `input` unchanged, when fewer remain.
    pub fn from_buffer(input: &mut &[u8], len: usize) -> (r: Result<Self, CodecError>)
        ensures
            old(input)@.len() < len ==> r == Err::<Protodef, CodecError>(CodecError::Truncated)
                && *final(input) == *old(input),
            old(input)@.len() >= len ==> advanced(old(input)@, final(input)@, len as nat) && (
            r matches Ok(Protodef::Buffer(b)) && b@ == old(input)@.subrange(0, len as int)),
    {
        match read(input, len) {
            Some(b) => Ok(Protodef::Buffer(slice_to_vec(b))),
            None => Err(CodecError::Truncated),
        }
    }

    /// Takes the next `len` bytes as UTF-8 text. Fails with `Truncated`,
    /// leaving `input` unchanged, when fewer remain, and with `InvalidUtf8`
    /// once consumed when they are not UTF-8.
    pub fn from_pstring(input: &mut &[u8], len: usize) -> (r: Result<Self, CodecError>)
        ensures
            old(input)@.len() < len ==> r == Err::<Protodef, CodecError>(CodecError::Truncated)
                && *final(input) == *old(input),
            old(input)@.len() >= len ==> advanced(old(input)@, final(input)@, len as nat)
                && text_value(old(input)@.subrange(0, len as int), r),
    {
        match read(input, len) {
            Some(b) => match utf8_string(slice_to_vec(b)) {
                Some(x) => Ok(Protodef::String(x)),
                None => Err(CodecError::InvalidUtf8),
            },
            None => Err(CodecError::Truncated),
        }
    }
}

} // verus!
