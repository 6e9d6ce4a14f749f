//! The dynamic tagged value and the container operations used to assemble it.

use vstd::prelude::*;
use vstd::utf8::encode_utf8;

verus! {

/// Why a decode, an encode or a container operation did not succeed.
#[derive(Debug, Clone, Copy, PartialEq, Eq, Structural)]
pub enum CodecError {
    /// Fewer bytes remain than the read needs.
    Truncated,
    /// An encoder was handed a value of another variant.
    TypeMismatch,
    /// A boolean byte other than 0 or 1.
    InvalidBoolEncoding,
    /// Text bytes that are not UTF-8.
    InvalidUtf8,
    /// No zero byte ends the string.
    UnterminatedString,
    /// A variable-length integer that does not fit in 32 bits.
    VarIntOverflow,
    /// A value that cannot stand for a length.
    InvalidCount,
    /// A container operation on a variant that does not support it.
    NotApplicable,
}

/// A decoded value. An object is a list of (key, value) entries whose keys
/// are distinct; `Float` and `Double` hold the IEEE-754 bit pattern of the
/// number.
#[derive(Debug, PartialEq)]
pub enum Protodef {
    Object(Vec<(String, Protodef)>),
    Array(Vec<Protodef>),
    Bool(bool),
    Buffer(Vec<u8>),
    String(String),
    Uint8(u8),
    Uint16(u16),
    Uint32(u32),
    Uint64(u64),
    Int8(i8),
    Int16(i16),
    Int32(i32),
    Int64(i64),
    Float(u32),
    Double(u64),
    Void(),
}

/// No two entries share a key.
pub open spec fn keys_distinct(es: Seq<(String, Protodef)>) -> bool {
    forall|i: int, j: int|
        0 <= i < es.len() && 0 <= j < es.len() && i != j ==> es[i].0@ != es[j].0@
}

/// The mapping from key to value that a list of entries stands for.
pub open spec fn fields(es: Seq<(String, Protodef)>) -> Map<Seq<char>, Protodef>
    decreases es.len(),
{
    if es.len() == 0 {
        Map::empty()
    } else {
        fields(es.drop_last()).insert(es.last().0@, es.last().1)
    }
}

proof fn lemma_fields_lookup(es: Seq<(String, Protodef)>, k: Seq<char>)
    requires
        keys_distinct(es),
    ensures
        fields(es).contains_key(k) <==> exists|i: int| 0 <= i < es.len() && es[i].0@ == k,
        forall|i: int| 0 <= i < es.len() && es[i].0@ == k ==> fields(es)[k] == es[i].1,
    decreases es.len(),
{
    if es.len() > 0 {
        let init = es.drop_last();
        assert(keys_distinct(init));
        lemma_fields_lookup(init, k);
        if fields(es).contains_key(k) && es.last().0@ != k {
            let i = choose|i: int| 0 <= i < init.len() && init[i].0@ == k;
            assert(es[i].0@ == k);
        }
        if exists|i: int| 0 <= i < es.len() && es[i].0@ == k {
            let i = choose|i: int| 0 <= i < es.len() && es[i].0@ == k;
            if i < es.len() - 1 {
                assert(init[i].0@ == k);
            }
        }
    }
}

proof fn lemma_fields_update(es: Seq<(String, Protodef)>, i: int, v: Protodef)
    requires
        keys_distinct(es),
        0 <= i < es.len(),
    ensures
        fields(es.update(i, (es[i].0, v))) == fields(es).insert(es[i].0@, v),
        keys_distinct(es.update(i, (es[i].0, v))),
    decreases es.len(),
{
    let es2 = es.update(i, (es[i].0, v));
    let k = es[i].0@;
    if i == es.len() - 1 {
        assert(es2.drop_last() =~= es.drop_last());
        lemma_fields_lookup(es.drop_last(), k);
        assert(!fields(es.drop_last()).contains_key(k));
        assert(fields(es2) =~= fields(es).insert(k, v));
    } else {
        let init = es.drop_last();
        assert(keys_distinct(init));
        lemma_fields_update(init, i, v);
        assert(es2.drop_last() =~= init.update(i, (es[i].0, v)));
        assert(es.last().0@ != k);
        assert(fields(es2) =~= fields(es).insert(k, v));
    }
}

proof fn lemma_fields_update_any(es: Seq<(String, Protodef)>, i: int)
    requires
        keys_distinct(es),
        0 <= i < es.len(),
    ensures
        forall|v: Protodef|
            #[trigger] fields(es.update(i, (es[i].0, v))) == fields(es).insert(es[i].0@, v),
{
    assert forall|v: Protodef|
        #[trigger] fields(es.update(i, (es[i].0, v))) == fields(es).insert(es[i].0@, v) by {
        lemma_fields_update(es, i, v);
    }
}

impl Protodef {
    /// The structural invariant: an object's keys are distinct.
    pub open spec fn wf(&self) -> bool {
        match self {
            Protodef::Object(es) => keys_distinct(es@),
            _ => true,
        }
    }

    /// An empty object.
    pub fn new_object() -> (r: Self)
        ensures
            r matches Protodef::Object(es) && es@.len() == 0,
            r.wf(),
    {
        Protodef::Object(Vec::new())
    }

    /// An empty array.
    pub fn new_array() -> (r: Self)
        ensures
            r matches Protodef::Array(a) && a@.len() == 0,
    {
        Protodef::Array(Vec::new())
    }

    /// Position of the entry with key `k`, if any.
    fn find(es: &Vec<(String, Protodef)>, k: &String) -> (r: Option<usize>)
        ensures
            r matches Some(i) ==> i < es@.len() && es@[i as int].0@ == k@,
            r is None ==> forall|i: int| 0 <= i < es@.len() ==> es@[i].0@ != k@,
    {
        let mut i: usize = 0;
        while i < es.len()
            invariant
                i <= es@.len(),
                forall|j: int| 0 <= j < i ==> es@[j].0@ != k@,
            decreases es@.len() - i,
        {
            if es[i].0 == *k {
                return Some(i);
            }
            i = i + 1;
        }
        None
    }

    /// The value stored under `field` in an object; nothing when the key is
    /// missing or the value is not an object.
    pub fn get(&self, field: &str) -> (r: Option<&Self>)
        requires
            self.wf(),
        ensures
            match self {
                Protodef::Object(es) => match r {
                    Some(v) => fields(es@).contains_key(field@) && *v == fields(es@)[field@],
                    None => !fields(es@).contains_key(field@),
                },
                _ => r is None,
            },
    {
        match self {
            Protodef::Object(es) => {
                let key = field.to_owned();
                proof {
                    lemma_fields_lookup(es@, field@);
                }
                match Self::find(es, &key) {
                    Some(i) => Some(&es[i].1),
                    None => None,
                }
            },
            _ => None,
        }
    }

    /// The value stored under `field` in an object, for changing in place;
    /// nothing when the key is missing or the value is not an object.
    pub fn get_mut(&mut self, field: &str) -> (r: Option<&mut Self>)
        requires
            old(self).wf(),
        ensures
            match *old(self) {
                Protodef::Object(es) => (r is Some <==> fields(es@).contains_key(field@)) && (
                r matches Some(v) ==> *v == fields(es@)[field@] && (*final(self) matches Protodef::Object(
                    es2,
                ) && fields(es2@) == fields(es@).insert(field@, *final(v)))) && (r is None
                    ==> *final(self) == *old(self)),
                _ => r is None && *final(self) == *old(self),
            },
    {
        match self {
            Protodef::Object(es) => {
                let key = field.to_owned();
                proof {
                    lemma_fields_lookup(es@, field@);
                }
                match Self::find(es, &key) {
                    Some(i) => {
                        proof {
                            lemma_fields_update_any(es@, i as int);
                        }
                        Some(&mut es[i].1)
                    },
                    None => None,
                }
            },
            _ => None,
        }
    }

    /// Stores `value` under `field` in an object, replacing what was there.
    /// On any other variant nothing changes and the call fails.
    pub fn set(&mut self, field: &str, value: Self) -> (r: Result<(), CodecError>)
        requires
            old(self).wf(),
        ensures
            final(self).wf(),
            match *old(self) {
                Protodef::Object(es) => r is Ok && (*final(self) matches Protodef::Object(es2) && fields(
                    es2@,
                ) == fields(es@).insert(field@, value)),
                _ => r == Err::<(), CodecError>(CodecError::NotApplicable) && *final(self) == *old(
                    self,
                ),
            },
    {
        match self {
            Protodef::Object(es) => {
                let key = field.to_owned();
                proof {
                    lemma_fields_lookup(es@, field@);
                }
                match Self::find(es, &key) {
                    Some(i) => {
                        proof {
                            lemma_fields_update(es@, i as int, value);
                        }
                        let ghost before = es@;
                        let old_key = es[i].0.clone();
                        es.set(i, (old_key, value));
                        assert(es@ == before.update(i as int, (before[i as int].0, value)));
                    },
                    None => {
                        let ghost before = es@;
                        es.push((key, value));
                        assert(es@.drop_last() =~= before);
                    },
                }
                Ok(())
            },
            _ => Err(CodecError::NotApplicable),
        }
    }

    /// The elements of an array; nothing for any other variant.
    pub fn as_array(&self) -> (r: Option<&Vec<Self>>)
        ensures
            match self {
                Protodef::Array(a) => r == Some(a),
                _ => r is None,
            },
    {
        match self {
            Protodef::Array(a) => Some(a),
            _ => None,
        }
    }

    /// The bytes of a buffer; nothing for any other variant.
    pub fn back_to_buffer(&self) -> (r: Option<&Vec<u8>>)
        ensures
            match self {
                Protodef::Buffer(b) => r == Some(b),
                _ => r is None,
            },
    {
        match self {
            Protodef::Buffer(b) => Some(b),
            _ => None,
        }
    }

    /// The UTF-8 bytes of a string; nothing for any other variant.
    pub fn back_to_pstring(&self) -> (r: Option<&[u8]>)
        ensures
            match self {
                Protodef::String(s) => r matches Some(b) && b@ == encode_utf8(s@),
                _ => r is None,
            },
    {
        match self {
            Protodef::String(s) => Some(s.as_str().as_bytes()),
            _ => None,
        }
    }
}

} // verus!
