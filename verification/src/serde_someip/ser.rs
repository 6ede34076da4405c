//! Writing values of the binary data format into a byte vector.
use crate::byte_order::{le_bytes, push_bytes, push_le};
use crate::serde_someip::error::{Error, Result};
use vstd::prelude::*;
use vstd::string::StringSliceAdditionalSpecFns;

verus! {

/// A writer that appends each value to its output.
pub struct Serializer {
    output: Vec<u8>,
}

impl Serializer {
    /// The bytes written so far.
    pub closed spec fn written(&self) -> Seq<u8> {
        self.output@
    }

    /// A writer with an empty output.
    pub fn new() -> (s: Self)
        ensures
            s.written() == Seq::<u8>::empty(),
    {
        Serializer { output: Vec::new() }
    }

    /// The bytes written so far.
    pub fn into_output(self) -> (r: Vec<u8>)
        ensures
            r@ == self.written(),
    {
        self.output
    }

    /// Writes `true` as 1 and `false` as 0.
    pub fn serialize_bool(&mut self, v: bool) -> (r: Result<()>)
        ensures
            r is Ok,
            final(self).written() == old(self).written().push(if v { 1u8 } else { 0u8 }),
    {
        self.output.push(if v { 1u8 } else { 0u8 });
        Ok(())
    }

    /// Writes the two's complement byte of `v`.
    pub fn serialize_i8(&mut self, v: i8) -> (r: Result<()>)
        ensures
            r is Ok,
            final(self).written() == old(self).written().push(v as u8),
    {
        self.output.push(v as u8);
        Ok(())
    }

    /// Writes `v` as two little-endian bytes.
    pub fn serialize_i16(&mut self, v: i16) -> (r: Result<()>)
        ensures
            r is Ok,
            final(self).written() == old(self).written() + le_bytes((v as u16) as nat, 2),
    {
        push_le(&mut self.output, (v as u16) as u128, 2);
        Ok(())
    }

    /// Writes `v` as four little-endian bytes.
    pub fn serialize_i32(&mut self, v: i32) -> (r: Result<()>)
        ensures
            r is Ok,
            final(self).written() == old(self).written() + le_bytes((v as u32) as nat, 4),
    {
        push_le(&mut self.output, (v as u32) as u128, 4);
        Ok(())
    }

    /// 64-bit integers are not part of the format.
    pub fn serialize_i64(&mut self, v: i64) -> (r: Result<()>)
        ensures
            r == Err::<(), Error>(Error::Syntax),
            final(self).written() == old(self).written(),
    {
        Err(Error::Syntax)
    }

    /// Writes the byte `v`.
    pub fn serialize_u8(&mut self, v: u8) -> (r: Result<()>)
        ensures
            r is Ok,
            final(self).written() == old(self).written().push(v),
    {
        self.output.push(v);
        Ok(())
    }

    /// Writes `v` as two little-endian bytes.
    pub fn serialize_u16(&mut self, v: u16) -> (r: Result<()>)
        ensures
            r is Ok,
            final(self).written() == old(self).written() + le_bytes(v as nat, 2),
    {
        push_le(&mut self.output, v as u128, 2);
        Ok(())
    }

    /// Writes `v` as four little-endian bytes.
    pub fn serialize_u32(&mut self, v: u32) -> (r: Result<()>)
        ensures
            r is Ok,
            final(self).written() == old(self).written() + le_bytes(v as nat, 4),
    {
        push_le(&mut self.output, v as u128, 4);
        Ok(())
    }

    /// 64-bit integers are not part of the format.
    pub fn serialize_u64(&mut self, v: u64) -> (r: Result<()>)
        ensures
            r == Err::<(), Error>(Error::Syntax),
            final(self).written() == old(self).written(),
    {
        Err(Error::Syntax)
    }

    /// Writes the low byte of the character's scalar value.
    pub fn serialize_char(&mut self, v: char) -> (r: Result<()>)
        ensures
            r is Ok,
            final(self).written() == old(self).written().push(((v as u32) % 256) as u8),
    {
        let b = ((v as u32) % 256) as u8;
        self.output.push(b);
        Ok(())
    }

    /// Writes the UTF-8 bytes of `v`, with nothing before or after them.
    pub fn serialize_str(&mut self, v: &str) -> (r: Result<()>)
        ensures
            r is Ok,
            final(self).written() == old(self).written() + v.spec_bytes(),
    {
        let bytes = v.as_bytes();
        self.serialize_bytes(bytes)
    }

    /// Writes the bytes of `v`, with nothing before or after them.
    pub fn serialize_bytes(&mut self, v: &[u8]) -> (r: Result<()>)
        ensures
            r is Ok,
            final(self).written() == old(self).written() + v@,
    {
        push_bytes(&mut self.output, v);
        Ok(())
    }
}

} // verus!
