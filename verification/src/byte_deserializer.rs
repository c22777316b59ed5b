//! A sequential, bounds-checked decoder over an immutable byte buffer,
//! tracking one read position. Every fixed-size read first checks that the
//! requested run fits in what is left, and fails with an out-of-bounds error
//! carrying the position and the buffer length; the cursor never reads past
//! the end. It is strictly forward-only: there is no seek or rewind.

use vstd::prelude::*;
use vstd::slice::{slice_subrange, slice_to_vec};
use vstd::utf8::{decode_utf8, valid_utf8};

use crate::encoding::{
    spec_i16_from_be_bytes, spec_i32_from_be_bytes, spec_i64_from_be_bytes,
    spec_u16_from_be_bytes, spec_u32_from_be_bytes, spec_u64_from_be_bytes,
};
use crate::encoding::string_from_utf8_lossy;
use crate::errors::Error;

verus! {

#[derive(Debug, Clone)]
pub struct ByteDeserializer<'a> {
    bytes: &'a [u8],
    pos: usize,
}

#[derive(Debug)]
pub enum ByteError {
    OutOfBoundsError { pos: usize, len: usize },
    BadBoolError { value: u8 },
}

/// The error every underrunning read reports: the position the read started
/// at and the total buffer length.
pub open spec fn spec_oob_error(pos: int, len: int) -> Error {
    Error::ByteError(ByteError::OutOfBoundsError { pos: pos as usize, len: len as usize })
}

impl<'a> ByteDeserializer<'a> {
    /// The whole buffer under the cursor.
    pub closed spec fn data(&self) -> Seq<u8> {
        self.bytes@
    }

    /// The current read position.
    pub closed spec fn position(&self) -> int {
        self.pos as int
    }

    /// The position never runs past the buffer.
    pub closed spec fn wf(&self) -> bool {
        self.pos <= self.bytes@.len()
    }

    /// How many bytes are left to read.
    pub open spec fn remaining(&self) -> int {
        self.data().len() - self.position()
    }

    pub fn new(bytes: &'a [u8]) -> (r: ByteDeserializer<'a>)
        ensures
            r.wf(),
            r.data() == bytes@,
            r.position() == 0,
    {
        ByteDeserializer { bytes, pos: 0 }
    }

    pub fn read_u8(&mut self) -> (r: Result<u8, Error>)
        requires
            old(self).wf(),
        ensures
            final(self).wf(),
            final(self).data() == old(self).data(),
            old(self).remaining() >= 1 ==> r == Ok::<u8, Error>(
                old(self).data()[old(self).position()],
            ) && final(self).position() == old(self).position() + 1,
            old(self).remaining() < 1 ==> r == Err::<u8, Error>(
                spec_oob_error(old(self).position(), old(self).data().len() as int),
            ) && *final(self) == *old(self),
    {
        if 1 > self.bytes.len() - self.pos {
            return Err(Error::ByteError(ByteError::OutOfBoundsError {
                pos: self.pos,
                len: self.bytes.len(),
            }));
        }
        let value = self.bytes[self.pos];
        self.pos = self.pos + 1;
        Ok(value)
    }

    pub fn read_u16(&mut self) -> (r: Result<u16, Error>)
        requires
            old(self).wf(),
        ensures
            final(self).wf(),
            final(self).data() == old(self).data(),
            old(self).remaining() >= 2 ==> r == Ok::<u16, Error>(
                spec_u16_from_be_bytes(
                    old(self).data().subrange(old(self).position(), old(self).position() + 2),
                ),
            ) && final(self).position() == old(self).position() + 2,
            old(self).remaining() < 2 ==> r == Err::<u16, Error>(
                spec_oob_error(old(self).position(), old(self).data().len() as int),
            ) && *final(self) == *old(self),
    {
        if 2 > self.bytes.len() - self.pos {
            return Err(Error::ByteError(ByteError::OutOfBoundsError {
                pos: self.pos,
                len: self.bytes.len(),
            }));
        }
        let value = ((self.bytes[self.pos] as u16) << 8) | (self.bytes[self.pos + 1] as u16);
        proof {
            let s = self.data().subrange(self.position(), self.position() + 2);
            assert(s[0] == self.data()[self.position()]);
            assert(s[1] == self.data()[self.position() + 1]);
        }
        self.pos = self.pos + 2;
        Ok(value)
    }

    pub fn read_u32(&mut self) -> (r: Result<u32, Error>)
        requires
            old(self).wf(),
        ensures
            final(self).wf(),
            final(self).data() == old(self).data(),
            old(self).remaining() >= 4 ==> r == Ok::<u32, Error>(
                spec_u32_from_be_bytes(
                    old(self).data().subrange(old(self).position(), old(self).position() + 4),
                ),
            ) && final(self).position() == old(self).position() + 4,
            old(self).remaining() < 4 ==> r == Err::<u32, Error>(
                spec_oob_error(old(self).position(), old(self).data().len() as int),
            ) && *final(self) == *old(self),
    {
        if 4 > self.bytes.len() - self.pos {
            return Err(Error::ByteError(ByteError::OutOfBoundsError {
                pos: self.pos,
                len: self.bytes.len(),
            }));
        }
        let value = ((self.bytes[self.pos] as u32) << 24) | ((self.bytes[self.pos + 1] as u32)
            << 16) | ((self.bytes[self.pos + 2] as u32) << 8) | (self.bytes[self.pos + 3] as u32);
        proof {
            let s = self.data().subrange(self.position(), self.position() + 4);
            assert(s[0] == self.data()[self.position()]);
            assert(s[1] == self.data()[self.position() + 1]);
            assert(s[2] == self.data()[self.position() + 2]);
            assert(s[3] == self.data()[self.position() + 3]);
        }
        self.pos = self.pos + 4;
        Ok(value)
    }

    pub fn read_u64(&mut self) -> (r: Result<u64, Error>)
        requires
            old(self).wf(),
        ensures
            final(self).wf(),
            final(self).data() == old(self).data(),
            old(self).remaining() >= 8 ==> r == Ok::<u64, Error>(
                spec_u64_from_be_bytes(
                    old(self).data().subrange(old(self).position(), old(self).position() + 8),
                ),
            ) && final(self).position() == old(self).position() + 8,
            old(self).remaining() < 8 ==> r == Err::<u64, Error>(
                spec_oob_error(old(self).position(), old(self).data().len() as int),
            ) && *final(self) == *old(self),
    {
        if 8 > self.bytes.len() - self.pos {
            return Err(Error::ByteError(ByteError::OutOfBoundsError {
                pos: self.pos,
                len: self.bytes.len(),
            }));
        }
        let value = ((self.bytes[self.pos] as u64) << 56) | ((self.bytes[self.pos + 1] as u64)
            << 48) | ((self.bytes[self.pos + 2] as u64) << 40) | ((self.bytes[self.pos + 3] as u64)
            << 32) | ((self.bytes[self.pos + 4] as u64) << 24) | ((self.bytes[self.pos + 5] as u64)
            << 16) | ((self.bytes[self.pos + 6] as u64) << 8) | (self.bytes[self.pos + 7] as u64);
        proof {
            let s = self.data().subrange(self.position(), self.position() + 8);
            assert forall|i: int| 0 <= i < 8 implies s[i] == self.data()[self.position() + i] by {}
        }
        self.pos = self.pos + 8;
        Ok(value)
    }

    pub fn read_i8(&mut self) -> (r: Result<i8, Error>)
        requires
            old(self).wf(),
        ensures
            final(self).wf(),
            final(self).data() == old(self).data(),
            old(self).remaining() >= 1 ==> r == Ok::<i8, Error>(
                old(self).data()[old(self).position()] as i8,
            ) && final(self).position() == old(self).position() + 1,
            old(self).remaining() < 1 ==> r == Err::<i8, Error>(
                spec_oob_error(old(self).position(), old(self).data().len() as int),
            ) && *final(self) == *old(self),
    {
        match self.read_u8() {
            Ok(v) => Ok(v as i8),
            Err(e) => Err(e),
        }
    }

    pub fn read_i16(&mut self) -> (r: Result<i16, Error>)
        requires
            old(self).wf(),
        ensures
            final(self).wf(),
            final(self).data() == old(self).data(),
            old(self).remaining() >= 2 ==> r == Ok::<i16, Error>(
                spec_i16_from_be_bytes(
                    old(self).data().subrange(old(self).position(), old(self).position() + 2),
                ),
            ) && final(self).position() == old(self).position() + 2,
            old(self).remaining() < 2 ==> r == Err::<i16, Error>(
                spec_oob_error(old(self).position(), old(self).data().len() as int),
            ) && *final(self) == *old(self),
    {
        match self.read_u16() {
            Ok(v) => Ok(v as i16),
            Err(e) => Err(e),
        }
    }

    pub fn read_i32(&mut self) -> (r: Result<i32, Error>)
        requires
            old(self).wf(),
        ensures
            final(self).wf(),
            final(self).data() == old(self).data(),
            old(self).remaining() >= 4 ==> r == Ok::<i32, Error>(
                spec_i32_from_be_bytes(
                    old(self).data().subrange(old(self).position(), old(self).position() + 4),
                ),
            ) && final(self).position() == old(self).position() + 4,
            old(self).remaining() < 4 ==> r == Err::<i32, Error>(
                spec_oob_error(old(self).position(), old(self).data().len() as int),
            ) && *final(self) == *old(self),
    {
        match self.read_u32() {
            Ok(v) => Ok(v as i32),
            Err(e) => Err(e),
        }
    }

    pub fn read_i64(&mut self) -> (r: Result<i64, Error>)
        requires
            old(self).wf(),
        ensures
            final(self).wf(),
            final(self).data() == old(self).data(),
            old(self).remaining() >= 8 ==> r == Ok::<i64, Error>(
                spec_i64_from_be_bytes(
                    old(self).data().subrange(old(self).position(), old(self).position() + 8),
                ),
            ) && final(self).position() == old(self).position() + 8,
            old(self).remaining() < 8 ==> r == Err::<i64, Error>(
                spec_oob_error(old(self).position(), old(self).data().len() as int),
            ) && *final(self) == *old(self),
    {
        match self.read_u64() {
            Ok(v) => Ok(v as i64),
            Err(e) => Err(e),
        }
    }

    /// A boolean is exactly the byte 0 or 1; any other byte is a decode
    /// error. The position advances over the byte in either case.
    pub fn read_bool(&mut self) -> (r: Result<bool, Error>)
        requires
            old(self).wf(),
        ensures
            final(self).wf(),
            final(self).data() == old(self).data(),
            old(self).remaining() >= 1 ==> {
                let b = old(self).data()[old(self).position()];
                &&& final(self).position() == old(self).position() + 1
                &&& b <= 1 ==> r == Ok::<bool, Error>(b == 1)
                &&& b > 1 ==> r == (Err::<bool, Error>(Error::ByteError(ByteError::BadBoolError {
                    value: b,
                })))
            },
            old(self).remaining() < 1 ==> r == Err::<bool, Error>(
                spec_oob_error(old(self).position(), old(self).data().len() as int),
            ) && *final(self) == *old(self),
    {
        let value = match self.read_u8() {
            Ok(v) => v,
            Err(e) => {
                return Err(e);
            },
        };
        if value != 0 && value != 1 {
            return Err(Error::ByteError(ByteError::BadBoolError { value }));
        }
        Ok(value == 1)
    }

    /// A fixed-length string, decoded lossily: when the bytes are valid
    /// UTF-8 the result is exactly the string they encode.
    pub fn read_string(&mut self, length: usize) -> (r: Result<String, Error>)
        requires
            old(self).wf(),
        ensures
            final(self).wf(),
            final(self).data() == old(self).data(),
            old(self).remaining() >= length ==> {
                let span = old(self).data().subrange(
                    old(self).position(),
                    old(self).position() + length,
                );
                &&& final(self).position() == old(self).position() + length
                &&& r is Ok
                &&& valid_utf8(span) ==> r.unwrap()@ == decode_utf8(span)
            },
            old(self).remaining() < length ==> r == Err::<String, Error>(
                spec_oob_error(old(self).position(), old(self).data().len() as int),
            ) && *final(self) == *old(self),
    {
        if length > self.bytes.len() - self.pos {
            return Err(Error::ByteError(ByteError::OutOfBoundsError {
                pos: self.pos,
                len: self.bytes.len(),
            }));
        }
        let span = slice_subrange(self.bytes, self.pos, self.pos + length);
        let value = string_from_utf8_lossy(span);
        self.pos = self.pos + length;
        Ok(value)
    }

    /// A fixed-length raw byte run.
    pub fn read_bytes(&mut self, length: usize) -> (r: Result<Vec<u8>, Error>)
        requires
            old(self).wf(),
        ensures
            final(self).wf(),
            final(self).data() == old(self).data(),
            old(self).remaining() >= length ==> {
                &&& final(self).position() == old(self).position() + length
                &&& r is Ok
                &&& r.unwrap()@ == old(self).data().subrange(
                    old(self).position(),
                    old(self).position() + length,
                )
            },
            old(self).remaining() < length ==> r == Err::<Vec<u8>, Error>(
                spec_oob_error(old(self).position(), old(self).data().len() as int),
            ) && *final(self) == *old(self),
    {
        if length > self.bytes.len() - self.pos {
            return Err(Error::ByteError(ByteError::OutOfBoundsError {
                pos: self.pos,
                len: self.bytes.len(),
            }));
        }
        let span = slice_subrange(self.bytes, self.pos, self.pos + length);
        let value = slice_to_vec(span);
        self.pos = self.pos + length;
        Ok(value)
    }

    /// Everything from the current position to the end of the buffer.
    pub fn remaining_bytes(&self) -> (r: &'a [u8])
        requires
            self.wf(),
        ensures
            r@ == self.data().subrange(self.position(), self.data().len() as int),
    {
        slice_subrange(self.bytes, self.pos, self.bytes.len())
    }
}

} // verus!
