//! A 128-bit value-type unique identifier attached to sheets and columns,
//! generated randomly at creation, compared by equality, and serialized as
//! its 16 raw bytes (most significant first).

use vstd::prelude::*;

use crate::encoding::{
    lemma_u64_be_bytes_parse, lemma_u64_be_bytes_roundtrip, spec_u64_from_be_bytes,
    spec_u64_to_be_bytes, u64_to_be_bytes,
};
use crate::errors::Error;

verus! {

/// A 128-bit identifier held as its most- and least-significant 64-bit
/// halves, in the order its 16 wire bytes are laid out.
#[derive(Debug, Clone, Copy, PartialEq, Eq, Structural)]
pub struct Identifier {
    pub hi: u64,
    pub lo: u64,
}

#[derive(Debug)]
pub enum UuidError {
    InvalidSize { got: usize },
}

/// Relies on `uuid::Uuid::new_v4` for a fresh random identifier, split into
/// its most- and least-significant halves by `Uuid::as_u64_pair`; nothing is
/// promised of a random value.
#[verifier::external_body]
fn fresh_id_words() -> (r: (u64, u64)) {
    uuid::Uuid::new_v4().as_u64_pair()
}

pub open spec fn spec_id_bytes(id: Identifier) -> Seq<u8> {
    spec_u64_to_be_bytes(id.hi) + spec_u64_to_be_bytes(id.lo)
}

pub open spec fn spec_id_from_bytes(s: Seq<u8>) -> Identifier
    recommends
        s.len() == 16,
{
    Identifier {
        hi: spec_u64_from_be_bytes(s.subrange(0, 8)),
        lo: spec_u64_from_be_bytes(s.subrange(8, 16)),
    }
}

pub proof fn lemma_id_bytes_roundtrip(id: Identifier)
    ensures
        spec_id_bytes(id).len() == 16,
        spec_id_from_bytes(spec_id_bytes(id)) == id,
{
    lemma_u64_be_bytes_roundtrip(id.hi);
    lemma_u64_be_bytes_roundtrip(id.lo);
    assert(spec_id_bytes(id).subrange(0, 8) =~= spec_u64_to_be_bytes(id.hi));
    assert(spec_id_bytes(id).subrange(8, 16) =~= spec_u64_to_be_bytes(id.lo));
}

pub proof fn lemma_id_bytes_parse(s: Seq<u8>)
    requires
        s.len() == 16,
    ensures
        spec_id_bytes(spec_id_from_bytes(s)) == s,
{
    lemma_u64_be_bytes_parse(s.subrange(0, 8));
    lemma_u64_be_bytes_parse(s.subrange(8, 16));
    assert(spec_id_bytes(spec_id_from_bytes(s)) =~= s);
}

impl Identifier {
    /// A fresh identifier with random content.
    pub fn new() -> Identifier {
        let (hi, lo) = fresh_id_words();
        Identifier { hi, lo }
    }

    pub fn serialized_bytes(&self) -> (r: Vec<u8>)
        ensures
            r@ == spec_id_bytes(*self),
    {
        let mut r = u64_to_be_bytes(self.hi);
        let mut lo_bytes = u64_to_be_bytes(self.lo);
        r.append(&mut lo_bytes);
        r
    }

    pub fn deserialize_bytes(bytes: &[u8]) -> (r: Result<Identifier, Error>)
        ensures
            bytes@.len() == 16 ==> r == Ok::<Identifier, Error>(spec_id_from_bytes(bytes@)),
            bytes@.len() != 16 ==> r == (Err::<Identifier, Error>(Error::UuidError(
                UuidError::InvalidSize { got: bytes@.len() as usize },
            ))),
    {
        if bytes.len() != 16 {
            return Err(Error::UuidError(UuidError::InvalidSize { got: bytes.len() }));
        }
        let hi = ((bytes[0] as u64) << 56) | ((bytes[1] as u64) << 48) | ((bytes[2] as u64) << 40)
            | ((bytes[3] as u64) << 32) | ((bytes[4] as u64) << 24) | ((bytes[5] as u64) << 16)
            | ((bytes[6] as u64) << 8) | (bytes[7] as u64);
        let lo = ((bytes[8] as u64) << 56) | ((bytes[9] as u64) << 48) | ((bytes[10] as u64) << 40)
            | ((bytes[11] as u64) << 32) | ((bytes[12] as u64) << 24) | ((bytes[13] as u64) << 16)
            | ((bytes[14] as u64) << 8) | (bytes[15] as u64);
        proof {
            let s = bytes@;
            assert(s.subrange(0, 8)[0] == s[0]);
            assert(hi == spec_u64_from_be_bytes(s.subrange(0, 8)));
            assert(lo == spec_u64_from_be_bytes(s.subrange(8, 16)));
        }
        Ok(Identifier { hi, lo })
    }
}

} // verus!
