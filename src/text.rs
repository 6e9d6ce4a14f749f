//! The textual form of primitive values, used to derive keys and labels.

use vstd::prelude::*;
use crate::value::Protodef;

verus! {

/// The decimal digit for `d`.
pub open spec fn digit_char(d: nat) -> char {
    if d == 0 { '0' }
    else if d == 1 { '1' }
    else if d == 2 { '2' }
    else if d == 3 { '3' }
    else if d == 4 { '4' }
    else if d == 5 { '5' }
    else if d == 6 { '6' }
    else if d == 7 { '7' }
    else if d == 8 { '8' }
    else { '9' }
}

/// The decimal digits of `n`, without leading zeros.
pub open spec fn decimal(n: nat) -> Seq<char>
    decreases n,
{
    if n < 10 {
        seq![digit_char(n)]
    } else {
        decimal(n / 10).push(digit_char(n % 10))
    }
}

/// The decimal form of `x`, with a leading '-' when negative.
pub open spec fn signed_decimal(x: int) -> Seq<char> {
    if x < 0 {
        seq!['-'] + decimal((-x) as nat)
    } else {
        decimal(x as nat)
    }
}

/// Relies on `u64::to_string`: the decimal digits of the number.
#[verifier::external_body]
fn u64_text(n: u64) -> (r: String)
    ensures
        r@ == decimal(n as nat),
{
    n.to_string()
}

/// Relies on `i64::to_string`: the decimal digits of the number, after a '-'
/// when it is negative.
#[verifier::external_body]
fn i64_text(n: i64) -> (r: String)
    ensures
        r@ == signed_decimal(n as int),
{
    n.to_string()
}

/// The text of a value: the decimal form of an integer, "true" or "false",
/// the string itself, and empty text for containers, buffers and the void
/// marker. Nothing for `Float` and `Double`, whose decimal form needs
/// floating-point formatting.
pub open spec fn text_of(v: Protodef) -> Option<Seq<char>> {
    match v {
        Protodef::Uint8(x) => Some(decimal(x as nat)),
        Protodef::Uint16(x) => Some(decimal(x as nat)),
        Protodef::Uint32(x) => Some(decimal(x as nat)),
        Protodef::Uint64(x) => Some(decimal(x as nat)),
        Protodef::Int8(x) => Some(signed_decimal(x as int)),
        Protodef::Int16(x) => Some(signed_decimal(x as int)),
        Protodef::Int32(x) => Some(signed_decimal(x as int)),
        Protodef::Int64(x) => Some(signed_decimal(x as int)),
        Protodef::Bool(b) => Some(if b { seq!['t', 'r', 'u', 'e'] } else { seq!['f', 'a', 'l', 's', 'e'] }),
        Protodef::String(s) => Some(s@),
        Protodef::Float(_) | Protodef::Double(_) => None,
        _ => Some(Seq::empty()),
    }
}

impl Protodef {
    /// The text of this value, as `text_of` describes.
    pub fn as_text(&self) -> (r: Option<String>)
        ensures
            match text_of(*self) {
                Some(t) => r matches Some(s) && s@ == t,
                None => r is None,
            },
    {
        match self {
            Protodef::Uint8(x) => Some(u64_text(*x as u64)),
            Protodef::Uint16(x) => Some(u64_text(*x as u64)),
            Protodef::Uint32(x) => Some(u64_text(*x as u64)),
            Protodef::Uint64(x) => Some(u64_text(*x)),
            Protodef::Int8(x) => Some(i64_text(*x as i64)),
            Protodef::Int16(x) => Some(i64_text(*x as i64)),
            Protodef::Int32(x) => Some(i64_text(*x as i64)),
            Protodef::Int64(x) => Some(i64_text(*x)),
            Protodef::Bool(b) => {
                if *b {
                    proof {
                        reveal_strlit("true");
                    }
                    Some("true".to_owned())
                } else {
                    proof {
                        reveal_strlit("false");
                    }
                    Some("false".to_owned())
                }
            },
            Protodef::String(s) => Some(s.clone()),
            Protodef::Float(_) | Protodef::Double(_) => None,
            _ => Some(String::new()),
        }
    }
}

} // verus!
