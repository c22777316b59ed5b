//! The dynamically-typed scalar a cell holds, and its wire codec: one tag
//! byte (0=Bool, 1=Int, 2=Flt, 3=Str, 4=Unknown) followed by a kind-specific
//! payload. `Nil` is the absent value: it conforms to every declared column
//! type and travels as the `Unknown` tag with no payload.
//!
//! A float value is held as its raw IEEE-754 double bits (a `u64`), which is
//! also exactly its wire payload; callers convert with `f64::to_bits` and
//! `f64::from_bits` at the boundary.

use vstd::prelude::*;
use vstd::slice::{slice_subrange, slice_to_vec};
use vstd::string::*;
use vstd::utf8::{decode_utf8, decode_utf8_encode_utf8, encode_utf8, valid_utf8};

use crate::byte_deserializer::ByteError;
use crate::data_type::{spec_type_tag, Type, TypeError};
use crate::encoding::{
    lemma_encode_utf8_injective, lemma_u32_be_bytes_parse, lemma_u32_be_bytes_roundtrip,
    lemma_u64_be_bytes_parse, lemma_u64_be_bytes_roundtrip, spec_u32_from_be_bytes,
    spec_u32_to_be_bytes, spec_u64_from_be_bytes, spec_u64_to_be_bytes, string_from_utf8,
    u32_to_be_bytes, u64_to_be_bytes,
};
use crate::errors::Error;

verus! {

#[derive(Debug, PartialEq)]
pub enum Value {
    Bool(bool),
    Int(i64),
    /// The raw bits of a 64-bit IEEE-754 double.
    Flt(u64),
    Str(String),
    Nil,
}

/// The mathematical shape of a `Value`: the same variants with the string
/// abstracted to its character sequence.
pub enum ValueView {
    Bool(bool),
    Int(i64),
    Flt(u64),
    Str(Seq<char>),
    Nil,
}

#[derive(Debug)]
pub enum ValueError {
    InvalidSize { got: usize },
    InvalidType { got: u8 },
    InvalidUtf8Str { bytes: Vec<u8> },
}

impl View for Value {
    type V = ValueView;

    open spec fn view(&self) -> ValueView {
        match self {
            Value::Bool(b) => ValueView::Bool(*b),
            Value::Int(i) => ValueView::Int(*i),
            Value::Flt(f) => ValueView::Flt(*f),
            Value::Str(s) => ValueView::Str(s@),
            Value::Nil => ValueView::Nil,
        }
    }
}

impl DeepView for Value {
    type V = ValueView;

    open spec fn deep_view(&self) -> ValueView {
        self.view()
    }
}

impl Clone for Value {
    fn clone(&self) -> (r: Self)
        ensures
            r@ == self@,
    {
        match self {
            Value::Bool(b) => Value::Bool(*b),
            Value::Int(i) => Value::Int(*i),
            Value::Flt(f) => Value::Flt(*f),
            Value::Str(s) => Value::Str(s.clone()),
            Value::Nil => Value::Nil,
        }
    }
}

/// The runtime kind of a value; `Nil` reports the internal `Unknown` kind.
pub open spec fn spec_value_type(v: ValueView) -> Type {
    match v {
        ValueView::Bool(_) => Type::Bool,
        ValueView::Int(_) => Type::Int,
        ValueView::Flt(_) => Type::Flt,
        ValueView::Str(_) => Type::Str,
        ValueView::Nil => Type::Unknown,
    }
}

/// A value matches a declared type when its runtime kind is that type;
/// `Nil` conforms to every declared type.
pub open spec fn spec_conforms_to(v: ValueView, t: Type) -> bool {
    match v {
        ValueView::Bool(_) => t == Type::Bool,
        ValueView::Int(_) => t == Type::Int,
        ValueView::Flt(_) => t == Type::Flt,
        ValueView::Str(_) => t == Type::Str,
        ValueView::Nil => true,
    }
}

/// The wire form of a value: its kind's tag byte, then the payload. Bool
/// carries one byte (0 or 1), Int and Flt eight big-endian bytes, Str a
/// 4-byte big-endian length followed by the UTF-8 bytes, and Nil nothing.
pub open spec fn spec_value_bytes(v: ValueView) -> Seq<u8> {
    match v {
        ValueView::Bool(b) => seq![0u8, if b { 1u8 } else { 0u8 }],
        ValueView::Int(i) => seq![1u8] + spec_u64_to_be_bytes(i as u64),
        ValueView::Flt(f) => seq![2u8] + spec_u64_to_be_bytes(f),
        ValueView::Str(s) => seq![3u8] + spec_u32_to_be_bytes(encode_utf8(s).len() as u32)
            + encode_utf8(s),
        ValueView::Nil => seq![4u8],
    }
}

/// The string payload's length must fit the 4-byte wire length field.
pub open spec fn value_encodable(v: ValueView) -> bool {
    v matches ValueView::Str(s) ==> encode_utf8(s).len() <= u32::MAX
}

/// How each variant's wire form is laid out: its length, its tag byte, and
/// where its payload sits.
pub proof fn lemma_value_bytes_shape(v: ValueView)
    ensures
        spec_value_bytes(v).len() >= 1,
        spec_value_bytes(v)[0] == spec_type_tag(spec_value_type(v)),
        v matches ValueView::Bool(b) ==> spec_value_bytes(v).len() == 2 && spec_value_bytes(v)[1]
            == (if b { 1u8 } else { 0u8 }),
        v matches ValueView::Int(i) ==> spec_value_bytes(v).len() == 9 && spec_value_bytes(
            v,
        ).subrange(1, 9) == spec_u64_to_be_bytes(i as u64),
        v matches ValueView::Flt(f) ==> spec_value_bytes(v).len() == 9 && spec_value_bytes(
            v,
        ).subrange(1, 9) == spec_u64_to_be_bytes(f),
        v matches ValueView::Str(s) ==> spec_value_bytes(v).len() == 5 + encode_utf8(s).len()
            && spec_value_bytes(v).subrange(1, 5) == spec_u32_to_be_bytes(
            encode_utf8(s).len() as u32,
        ) && spec_value_bytes(v).subrange(5, spec_value_bytes(v).len() as int) == encode_utf8(s),
        v is Nil ==> spec_value_bytes(v).len() == 1,
{
    match v {
        ValueView::Bool(_) => {},
        ValueView::Int(i) => {
            lemma_u64_be_bytes_roundtrip(i as u64);
            assert(spec_value_bytes(v).subrange(1, 9) =~= spec_u64_to_be_bytes(i as u64));
        },
        ValueView::Flt(f) => {
            lemma_u64_be_bytes_roundtrip(f);
            assert(spec_value_bytes(v).subrange(1, 9) =~= spec_u64_to_be_bytes(f));
        },
        ValueView::Str(s) => {
            lemma_u32_be_bytes_roundtrip(encode_utf8(s).len() as u32);
            assert(spec_value_bytes(v).subrange(1, 5) =~= spec_u32_to_be_bytes(
                encode_utf8(s).len() as u32,
            ));
            assert(spec_value_bytes(v).subrange(5, spec_value_bytes(v).len() as int)
                =~= encode_utf8(s));
        },
        ValueView::Nil => {},
    }
}

/// No two distinct values share a wire form: the tag byte pins the variant
/// and the payload pins the content.
pub proof fn lemma_value_bytes_injective(v1: ValueView, v2: ValueView)
    requires
        value_encodable(v1),
        value_encodable(v2),
        spec_value_bytes(v1) == spec_value_bytes(v2),
    ensures
        v1 == v2,
{
    lemma_value_bytes_shape(v1);
    lemma_value_bytes_shape(v2);
    match (v1, v2) {
        (ValueView::Bool(b1), ValueView::Bool(b2)) => {},
        (ValueView::Int(i1), ValueView::Int(i2)) => {
            lemma_u64_be_bytes_roundtrip(i1 as u64);
            lemma_u64_be_bytes_roundtrip(i2 as u64);
            let x = i1 as u64;
            let y = i2 as u64;
            assert(i1 == i2) by (bit_vector)
                requires
                    x == y,
                    x == i1 as u64,
                    y == i2 as u64,
            ;
        },
        (ValueView::Flt(f1), ValueView::Flt(f2)) => {
            lemma_u64_be_bytes_roundtrip(f1);
            lemma_u64_be_bytes_roundtrip(f2);
        },
        (ValueView::Str(s1), ValueView::Str(s2)) => {
            assert(encode_utf8(s1).len() == encode_utf8(s2).len());
            assert(encode_utf8(s1) == encode_utf8(s2));
            lemma_encode_utf8_injective(s1, s2);
        },
        (ValueView::Nil, ValueView::Nil) => {},
        _ => {
            assert(spec_value_bytes(v1)[0] == spec_value_bytes(v2)[0]);
            assert(false);
        },
    }
}

impl Value {
    /// The runtime kind of this value (`Nil` reports `Unknown`).
    pub fn get_type(&self) -> (r: Type)
        ensures
            r == spec_value_type(self@),
    {
        match self {
            Value::Bool(_) => Type::Bool,
            Value::Int(_) => Type::Int,
            Value::Flt(_) => Type::Flt,
            Value::Str(_) => Type::Str,
            Value::Nil => Type::Unknown,
        }
    }

    /// True exactly when this value's runtime kind matches the declared
    /// type, or the value is `Nil`.
    pub fn conforms_to(&self, other: &Type) -> (r: bool)
        ensures
            r == spec_conforms_to(self@, *other),
    {
        match self {
            Value::Bool(_) => *other == Type::Bool,
            Value::Int(_) => *other == Type::Int,
            Value::Flt(_) => *other == Type::Flt,
            Value::Str(_) => *other == Type::Str,
            Value::Nil => true,
        }
    }

    pub fn serialized_bytes(&self) -> (r: Vec<u8>)
        requires
            value_encodable(self@),
        ensures
            r@ == spec_value_bytes(self@),
    {
        let mut bytes: Vec<u8> = Vec::new();
        match self {
            Value::Bool(b) => {
                bytes.push(0u8);
                bytes.push(if *b { 1u8 } else { 0u8 });
                proof {
                    assert(bytes@ =~= spec_value_bytes(self@));
                }
            },
            Value::Int(i) => {
                bytes.push(1u8);
                let mut payload = u64_to_be_bytes(*i as u64);
                bytes.append(&mut payload);
                proof {
                    assert(bytes@ =~= spec_value_bytes(self@));
                }
            },
            Value::Flt(f) => {
                bytes.push(2u8);
                let mut payload = u64_to_be_bytes(*f);
                bytes.append(&mut payload);
                proof {
                    assert(bytes@ =~= spec_value_bytes(self@));
                }
            },
            Value::Str(s) => {
                bytes.push(3u8);
                let utf8 = s.as_str().as_bytes_vec();
                let mut len_bytes = u32_to_be_bytes(utf8.len() as u32);
                bytes.append(&mut len_bytes);
                let mut payload = utf8;
                bytes.append(&mut payload);
                proof {
                    assert(bytes@ =~= spec_value_bytes(self@));
                }
            },
            Value::Nil => {
                bytes.push(4u8);
                proof {
                    assert(bytes@ =~= spec_value_bytes(self@));
                }
            },
        }
        bytes
    }

    /// Decoding accepts exactly the wire forms `spec_value_bytes` produces:
    /// every encoded value decodes back (the round trip), and each malformed
    /// buffer fails with the error its defect names. The total length must
    /// match the kind exactly; there is no trailing-byte tolerance.
    pub fn deserialize_bytes(bytes: &[u8]) -> (r: Result<Value, Error>)
        ensures
            r matches Ok(v) ==> spec_value_bytes(v@) == bytes@ && value_encodable(v@),
            forall|v: ValueView|
                #![trigger spec_value_bytes(v)]
                value_encodable(v) && spec_value_bytes(v) == bytes@ ==> r is Ok && r.unwrap()@
                    == v,
            bytes@.len() == 0 ==> r == (Err::<Value, Error>(Error::ValueError(
                ValueError::InvalidSize { got: 0 },
            ))),
            bytes@.len() >= 1 && bytes@[0] > 4 ==> r == (Err::<Value, Error>(Error::TypeError(
                TypeError::InvalidType { got: bytes@[0] },
            ))),
            bytes@.len() >= 1 && (bytes@[0] == 0 && bytes@.len() != 2 || (bytes@[0] == 1
                || bytes@[0] == 2) && bytes@.len() != 9 || bytes@[0] == 3 && bytes@.len() < 5
                || bytes@[0] == 4 && bytes@.len() != 1) ==> r == (Err::<Value, Error>(
                Error::ValueError(ValueError::InvalidSize { got: bytes@.len() as usize }),
            )),
            bytes@.len() == 2 && bytes@[0] == 0 && bytes@[1] > 1 ==> r == (Err::<Value, Error>(
                Error::ByteError(ByteError::BadBoolError { value: bytes@[1] }),
            )),
            bytes@.len() >= 5 && bytes@[0] == 3 && bytes@.len() != 5 + spec_u32_from_be_bytes(
                bytes@.subrange(1, 5),
            ) ==> r == (Err::<Value, Error>(Error::ValueError(ValueError::InvalidSize {
                got: bytes@.len() as usize,
            }))),
            bytes@.len() >= 5 && bytes@[0] == 3 && bytes@.len() == 5 + spec_u32_from_be_bytes(
                bytes@.subrange(1, 5),
            ) && !valid_utf8(bytes@.subrange(5, bytes@.len() as int)) ==> (match r {
                Err(Error::ValueError(ValueError::InvalidUtf8Str { bytes: b })) => b@
                    == bytes@.subrange(5, bytes@.len() as int),
                _ => false,
            }),
    {
        proof {
            // Each early error return must show that no encodable value has
            // this buffer as its wire form; the shape lemma supplies the
            // per-variant layout facts.
            assert forall|v: ValueView| true implies spec_value_bytes(v).len() >= 1
                && spec_value_bytes(v)[0] == spec_type_tag(spec_value_type(v))
                && spec_type_tag(spec_value_type(v)) <= 4 by {
                lemma_value_bytes_shape(v);
            }
        }
        if bytes.len() == 0 {
            return Err(Error::ValueError(ValueError::InvalidSize { got: bytes.len() }));
        }
        let tag = bytes[0];
        if tag > 4 {
            return Err(Error::TypeError(TypeError::InvalidType { got: tag }));
        }
        if tag == 0 {
            if bytes.len() != 2 {
                proof {
                    assert forall|v: ValueView| value_encodable(v) implies spec_value_bytes(v)
                        != bytes@ by {
                        lemma_value_bytes_shape(v);
                    }
                }
                return Err(Error::ValueError(ValueError::InvalidSize { got: bytes.len() }));
            }
            let b = bytes[1];
            if b > 1 {
                proof {
                    assert forall|v: ValueView| value_encodable(v) implies spec_value_bytes(v)
                        != bytes@ by {
                        lemma_value_bytes_shape(v);
                    }
                }
                return Err(Error::ByteError(ByteError::BadBoolError { value: b }));
            }
            let decoded = Value::Bool(b == 1);
            proof {
                assert(spec_value_bytes(decoded@) =~= bytes@);
                assert forall|v: ValueView| value_encodable(v) && spec_value_bytes(v) == bytes@
                    implies v == decoded@ by {
                    lemma_value_bytes_injective(v, decoded@);
                }
            }
            return Ok(decoded);
        }
        if tag == 1 || tag == 2 {
            if bytes.len() != 9 {
                proof {
                    assert forall|v: ValueView| value_encodable(v) implies spec_value_bytes(v)
                        != bytes@ by {
                        lemma_value_bytes_shape(v);
                    }
                }
                return Err(Error::ValueError(ValueError::InvalidSize { got: bytes.len() }));
            }
            let word = ((bytes[1] as u64) << 56) | ((bytes[2] as u64) << 48) | ((bytes[3] as u64)
                << 40) | ((bytes[4] as u64) << 32) | ((bytes[5] as u64) << 24) | ((bytes[6] as u64)
                << 16) | ((bytes[7] as u64) << 8) | (bytes[8] as u64);
            proof {
                let s = bytes@.subrange(1, 9);
                assert(s[0] == bytes@[1]);
                assert(word == spec_u64_from_be_bytes(s));
                lemma_u64_be_bytes_parse(s);
            }
            let decoded = if tag == 1 {
                let signed = #[verifier::truncate] (word as i64);
                proof {
                    let w = word;
                    assert((w as i64) as u64 == w) by (bit_vector);
                }
                Value::Int(signed)
            } else {
                Value::Flt(word)
            };
            proof {
                assert(spec_value_bytes(decoded@) =~= bytes@);
                assert forall|v: ValueView| value_encodable(v) && spec_value_bytes(v) == bytes@
                    implies v == decoded@ by {
                    lemma_value_bytes_injective(v, decoded@);
                }
            }
            return Ok(decoded);
        }
        if tag == 3 {
            if bytes.len() < 5 {
                proof {
                    assert forall|v: ValueView| value_encodable(v) implies spec_value_bytes(v)
                        != bytes@ by {
                        lemma_value_bytes_shape(v);
                    }
                }
                return Err(Error::ValueError(ValueError::InvalidSize { got: bytes.len() }));
            }
            let str_len = ((bytes[1] as u32) << 24) | ((bytes[2] as u32) << 16) | ((bytes[3] as u32)
                << 8) | (bytes[4] as u32);
            proof {
                let s = bytes@.subrange(1, 5);
                assert(s[0] == bytes@[1]);
                assert(str_len == spec_u32_from_be_bytes(s));
                lemma_u32_be_bytes_parse(s);
            }
            if bytes.len() - 5 != str_len as usize {
                proof {
                    assert forall|v: ValueView| value_encodable(v) implies spec_value_bytes(v)
                        != bytes@ by {
                        lemma_value_bytes_shape(v);
                        match v {
                            ValueView::Str(s) => {
                                if spec_value_bytes(v) == bytes@ {
                                    // The recorded length would have to be the
                                    // payload length, contradicting the check.
                                    lemma_u32_be_bytes_roundtrip(encode_utf8(s).len() as u32);
                                    assert(spec_u32_from_be_bytes(bytes@.subrange(1, 5))
                                        == encode_utf8(s).len());
                                }
                            },
                            _ => {},
                        }
                    }
                }
                return Err(Error::ValueError(ValueError::InvalidSize { got: bytes.len() }));
            }
            let payload = slice_to_vec(slice_subrange(bytes, 5, bytes.len()));
            match string_from_utf8(payload) {
                Ok(s) => {
                    let decoded = Value::Str(s);
                    proof {
                        let span = bytes@.subrange(5, bytes@.len() as int);
                        decode_utf8_encode_utf8(span);
                        assert(encode_utf8(s@) == span);
                        assert(spec_value_bytes(decoded@) =~= bytes@);
                        assert forall|v: ValueView| value_encodable(v) && spec_value_bytes(v)
                            == bytes@ implies v == decoded@ by {
                            lemma_value_bytes_injective(v, decoded@);
                        }
                    }
                    Ok(decoded)
                },
                Err(raw) => {
                    proof {
                        assert forall|v: ValueView| value_encodable(v) implies spec_value_bytes(v)
                            != bytes@ by {
                            lemma_value_bytes_shape(v);
                            match v {
                                ValueView::Str(s) => {
                                    if spec_value_bytes(v) == bytes@ {
                                        vstd::utf8::encode_utf8_valid_utf8(s);
                                        assert(encode_utf8(s) == bytes@.subrange(
                                            5,
                                            bytes@.len() as int,
                                        ));
                                    }
                                },
                                _ => {},
                            }
                        }
                    }
                    Err(Error::ValueError(ValueError::InvalidUtf8Str { bytes: raw }))
                },
            }
        } else {
            if bytes.len() != 1 {
                proof {
                    assert forall|v: ValueView| value_encodable(v) implies spec_value_bytes(v)
                        != bytes@ by {
                        lemma_value_bytes_shape(v);
                    }
                }
                return Err(Error::ValueError(ValueError::InvalidSize { got: bytes.len() }));
            }
            let decoded = Value::Nil;
            proof {
                assert(spec_value_bytes(decoded@) =~= bytes@);
                assert forall|v: ValueView| value_encodable(v) && spec_value_bytes(v) == bytes@
                    implies v == decoded@ by {
                    lemma_value_bytes_injective(v, decoded@);
                }
            }
            Ok(decoded)
        }
    }
}

} // verus!
