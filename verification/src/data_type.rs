//! The declared kind a column enforces, plus its one-byte wire tag. The
//! `Unknown` kind exists only as the wire tag of the `Nil` value and must
//! never appear as a column's declared type; `DataType` is the public-facing
//! four-kind mirror without it.

use vstd::prelude::*;

use crate::errors::Error;

verus! {

#[derive(Debug, Clone, Copy, PartialEq, Eq, Structural)]
pub enum Type {
    Bool,
    Int,
    Flt,
    Str,
    Unknown,
}

#[derive(Debug, Clone, Copy, PartialEq, Eq, Structural)]
pub enum DataType {
    Int,
    Flt,
    Str,
    Bool,
}

#[derive(Debug)]
pub enum TypeError {
    InvalidSize { got: usize },
    InvalidType { got: u8 },
}

pub open spec fn spec_type_tag(t: Type) -> u8 {
    match t {
        Type::Bool => 0,
        Type::Int => 1,
        Type::Flt => 2,
        Type::Str => 3,
        Type::Unknown => 4,
    }
}

pub open spec fn spec_type_of_tag(b: u8) -> Type
    recommends
        b <= 4,
{
    if b == 0 {
        Type::Bool
    } else if b == 1 {
        Type::Int
    } else if b == 2 {
        Type::Flt
    } else if b == 3 {
        Type::Str
    } else {
        Type::Unknown
    }
}

pub proof fn lemma_type_tag_roundtrip(t: Type)
    ensures
        spec_type_tag(t) <= 4,
        spec_type_of_tag(spec_type_tag(t)) == t,
{
}

impl Type {
    pub fn type_tag(&self) -> (r: u8)
        ensures
            r == spec_type_tag(*self),
    {
        match self {
            Type::Bool => 0,
            Type::Int => 1,
            Type::Flt => 2,
            Type::Str => 3,
            Type::Unknown => 4,
        }
    }

    pub fn serialized_bytes(&self) -> (r: Vec<u8>)
        ensures
            r@ == seq![spec_type_tag(*self)],
    {
        let mut r: Vec<u8> = Vec::new();
        r.push(self.type_tag());
        proof {
            assert(r@ =~= seq![spec_type_tag(*self)]);
        }
        r
    }

    pub fn deserialize_bytes(bytes: &[u8]) -> (r: Result<Type, Error>)
        ensures
            bytes@.len() != 1 ==> r == (Err::<Type, Error>(Error::TypeError(
                TypeError::InvalidSize { got: bytes@.len() as usize },
            ))),
            bytes@.len() == 1 && bytes@[0] > 4 ==> r == (Err::<Type, Error>(Error::TypeError(
                TypeError::InvalidType { got: bytes@[0] },
            ))),
            bytes@.len() == 1 && bytes@[0] <= 4 ==> r == Ok::<Type, Error>(
                spec_type_of_tag(bytes@[0]),
            ),
    {
        if bytes.len() != 1 {
            return Err(Error::TypeError(TypeError::InvalidSize { got: bytes.len() }));
        }
        let b = bytes[0];
        match b {
            0 => Ok(Type::Bool),
            1 => Ok(Type::Int),
            2 => Ok(Type::Flt),
            3 => Ok(Type::Str),
            4 => Ok(Type::Unknown),
            _ => Err(Error::TypeError(TypeError::InvalidType { got: b })),
        }
    }
}

impl DataType {
    /// The public-facing kind for a declared column type; `Unknown` is
    /// internal-only and has no public counterpart.
    pub fn from_internal_data_type(internal: Type) -> (r: DataType)
        requires
            internal != Type::Unknown,
        ensures
            internal == Type::Int ==> r == DataType::Int,
            internal == Type::Flt ==> r == DataType::Flt,
            internal == Type::Str ==> r == DataType::Str,
            internal == Type::Bool ==> r == DataType::Bool,
    {
        match internal {
            Type::Int => DataType::Int,
            Type::Flt => DataType::Flt,
            Type::Str => DataType::Str,
            Type::Bool => DataType::Bool,
            Type::Unknown => DataType::Bool,  // excluded by the precondition
        }
    }

    pub fn as_internal_data_type(&self) -> (r: Type)
        ensures
            r == (match *self {
                DataType::Int => Type::Int,
                DataType::Flt => Type::Flt,
                DataType::Str => Type::Str,
                DataType::Bool => Type::Bool,
            }),
    {
        match self {
            DataType::Int => Type::Int,
            DataType::Flt => Type::Flt,
            DataType::Str => Type::Str,
            DataType::Bool => Type::Bool,
        }
    }
}

} // verus!
