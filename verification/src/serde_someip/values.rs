//! Runs of fixed-width values, as tuples and structs of them are written and
//! read: one value after the other, with nothing between them.
use crate::byte_order::{le_bytes, le_value};
use crate::serde_someip::de::Deserializer;
use crate::serde_someip::error::{Error, Result};
use crate::serde_someip::ser::Serializer;
use vstd::prelude::*;

verus! {

/// A fixed-width value of the format.
#[derive(Debug, Clone, Copy, PartialEq, Eq, Structural)]
pub enum Value {
    Bool(bool),
    U8(u8),
    I8(i8),
    U16(u16),
    I16(i16),
    U32(u32),
    I32(i32),
}

/// How many bytes a value of the kind of `v` takes.
pub open spec fn width(v: Value) -> nat {
    match v {
        Value::Bool(_) | Value::U8(_) | Value::I8(_) => 1,
        Value::U16(_) | Value::I16(_) => 2,
        Value::U32(_) | Value::I32(_) => 4,
    }
}

/// The bytes the writer writes for a value.
pub open spec fn value_bytes(v: Value) -> Seq<u8> {
    match v {
        Value::Bool(b) => seq![if b { 1u8 } else { 0u8 }],
        Value::U8(x) => seq![x],
        Value::I8(x) => seq![x as u8],
        Value::U16(x) => le_bytes(x as nat, 2),
        Value::I16(x) => le_bytes((x as u16) as nat, 2),
        Value::U32(x) => le_bytes(x as nat, 4),
        Value::I32(x) => le_bytes((x as u32) as nat, 4),
    }
}

/// What the reader gives for a value of the kind of `kind` at the start of
/// `s` (which holds at least `width(kind)` bytes).
pub open spec fn read_value(kind: Value, s: Seq<u8>) -> Result<Value> {
    match kind {
        Value::Bool(_) => if s[0] == 0 {
            Ok(Value::Bool(false))
        } else if s[0] == 1 {
            Ok(Value::Bool(true))
        } else {
            Err(Error::ExpectedBoolean)
        },
        Value::U8(_) => Ok(Value::U8(s[0])),
        Value::I8(_) => Ok(Value::I8(s[0] as i8)),
        Value::U16(_) => Ok(Value::U16(le_value(s.subrange(0, 2)) as u16)),
        Value::I16(_) => Ok(Value::I16((le_value(s.subrange(0, 2)) as u16) as i16)),
        Value::U32(_) => Ok(Value::U32(le_value(s.subrange(0, 4)) as u32)),
        Value::I32(_) => Ok(Value::I32((le_value(s.subrange(0, 4)) as u32) as i32)),
    }
}

/// The bytes of a run of values, one after the other.
pub open spec fn values_bytes(vs: Seq<Value>) -> Seq<u8>
    decreases vs.len(),
{
    if vs.len() == 0 {
        Seq::empty()
    } else {
        value_bytes(vs[0]) + values_bytes(vs.drop_first())
    }
}

/// How many bytes a run of values of these kinds takes.
pub open spec fn total_width(kinds: Seq<Value>) -> nat
    decreases kinds.len(),
{
    if kinds.len() == 0 {
        0
    } else {
        width(kinds[0]) + total_width(kinds.drop_first())
    }
}

/// What reading values of these kinds, in order, from the start of `s`
/// gives: the values and the bytes after them, or the first error.
pub open spec fn read_values(kinds: Seq<Value>, s: Seq<u8>) -> Result<(Seq<Value>, Seq<u8>)>
    decreases kinds.len(),
{
    if kinds.len() == 0 {
        Ok((Seq::empty(), s))
    } else {
        match read_value(kinds[0], s) {
            Err(e) => Err(e),
            Ok(v) => match read_values(kinds.drop_first(), s.subrange(width(kinds[0]) as int, s.len() as int)) {
                Err(e) => Err(e),
                Ok((vs, rest)) => Ok((seq![v] + vs, rest)),
            },
        }
    }
}

/// `r` with the values `done` put in front, when it holds values.
pub open spec fn after_read(done: Seq<Value>, r: Result<(Seq<Value>, Seq<u8>)>) -> Result<(Seq<Value>, Seq<u8>)> {
    match r {
        Ok((vs, rest)) => Ok((done + vs, rest)),
        Err(e) => Err(e),
    }
}

proof fn lemma_values_bytes_push(vs: Seq<Value>, v: Value)
    ensures
        values_bytes(vs.push(v)) == values_bytes(vs) + value_bytes(v),
    decreases vs.len(),
{
    if vs.len() == 0 {
        assert(vs.push(v).drop_first() =~= Seq::<Value>::empty());
        assert(vs.push(v)[0] == v);
        assert(values_bytes(Seq::<Value>::empty()) == Seq::<u8>::empty());
        assert(values_bytes(vs) == Seq::<u8>::empty());
        assert(values_bytes(vs.push(v)) =~= value_bytes(v));
    } else {
        lemma_values_bytes_push(vs.drop_first(), v);
        assert(vs.push(v).drop_first() =~= vs.drop_first().push(v));
        assert(values_bytes(vs.push(v)) =~= value_bytes(vs[0]) + (values_bytes(vs.drop_first()) + value_bytes(v)));
    }
}

proof fn lemma_total_width_bound(kinds: Seq<Value>)
    ensures
        kinds.len() > 0 ==> width(kinds[0]) <= total_width(kinds),
{
}

impl Serializer {
    /// Writes one value.
    pub fn serialize_value(&mut self, v: Value) -> (r: Result<()>)
        ensures
            r is Ok,
            final(self).written() == old(self).written() + value_bytes(v),
    {
        let ghost before = self.written();
        let r = match v {
            Value::Bool(b) => self.serialize_bool(b),
            Value::U8(x) => self.serialize_u8(x),
            Value::I8(x) => self.serialize_i8(x),
            Value::U16(x) => self.serialize_u16(x),
            Value::I16(x) => self.serialize_i16(x),
            Value::U32(x) => self.serialize_u32(x),
            Value::I32(x) => self.serialize_i32(x),
        };
        proof {
            match v {
                Value::Bool(b) => assert(before.push(if b { 1u8 } else { 0u8 }) =~= before + value_bytes(v)),
                Value::U8(x) => assert(before.push(x) =~= before + value_bytes(v)),
                Value::I8(x) => assert(before.push(x as u8) =~= before + value_bytes(v)),
                _ => {},
            }
        }
        r
    }

    /// Writes the values one after the other.
    pub fn serialize_values(&mut self, vs: &Vec<Value>) -> (r: Result<()>)
        ensures
            r is Ok,
            final(self).written() == old(self).written() + values_bytes(vs@),
    {
        let ghost before = self.written();
        let mut i: usize = 0;
        assert(vs@.take(0) =~= Seq::<Value>::empty());
        assert(before + values_bytes(Seq::<Value>::empty()) =~= before);
        while i < vs.len()
            invariant
                i <= vs@.len(),
                self.written() == before + values_bytes(vs@.take(i as int)),
            decreases vs@.len() - i,
        {
            self.serialize_value(vs[i]);
            proof {
                assert(vs@.take(i + 1) =~= vs@.take(i as int).push(vs@[i as int]));
                lemma_values_bytes_push(vs@.take(i as int), vs@[i as int]);
                assert(self.written() =~= before + values_bytes(vs@.take(i + 1)));
            }
            i = i + 1;
        }
        assert(vs@.take(i as int) =~= vs@);
        Ok(())
    }
}

impl<'de> Deserializer<'de> {
    /// Reads a value of the kind of `kind` (its payload is not looked at).
    pub fn parse_value(&mut self, kind: Value) -> (r: Result<Value>)
        requires
            old(self).rest().len() >= width(kind),
        ensures
            r == read_value(kind, old(self).rest()),
            final(self).rest() == old(self).rest().subrange(width(kind) as int, old(self).rest().len() as int),
    {
        let ghost s = self.rest();
        proof {
            assert(s.drop_first() =~= s.subrange(1, s.len() as int));
        }
        match kind {
            Value::Bool(_) => match self.parse_bool() {
                Ok(b) => Ok(Value::Bool(b)),
                Err(e) => Err(e),
            },
            Value::U8(_) => Ok(Value::U8(self.parse_unsigned_u8()?)),
            Value::I8(_) => Ok(Value::I8(self.parse_signed_i8()?)),
            Value::U16(_) => Ok(Value::U16(self.parse_unsigned_u16()?)),
            Value::I16(_) => Ok(Value::I16(self.parse_signed_i16()?)),
            Value::U32(_) => Ok(Value::U32(self.parse_unsigned_u32()?)),
            Value::I32(_) => Ok(Value::I32(self.parse_signed_i32()?)),
        }
    }

    /// Reads values of these kinds, one after the other; stops at the first
    /// error.
    pub fn parse_values(&mut self, kinds: &Vec<Value>) -> (r: Result<Vec<Value>>)
        requires
            old(self).rest().len() >= total_width(kinds@),
        ensures
            match read_values(kinds@, old(self).rest()) {
                Ok((vs, rest)) => r matches Ok(out) && out@ == vs && final(self).rest() == rest,
                Err(e) => r == Err::<Vec<Value>, Error>(e),
            },
    {
        let ghost s = self.rest();
        let ghost target = read_values(kinds@, s);
        let mut out: Vec<Value> = Vec::new();
        let mut i: usize = 0;
        assert(kinds@.subrange(0, kinds@.len() as int) =~= kinds@);
        assert(out@ + Seq::<Value>::empty() =~= out@);
        while i < kinds.len()
            invariant
                i <= kinds@.len(),
                self.rest().len() >= total_width(kinds@.subrange(i as int, kinds@.len() as int)),
                after_read(out@, read_values(kinds@.subrange(i as int, kinds@.len() as int), self.rest()))
                    == target,
                target == read_values(kinds@, s),
                s == old(self).rest(),
            decreases kinds@.len() - i,
        {
            let ghost ks = kinds@.subrange(i as int, kinds@.len() as int);
            let ghost cur = self.rest();
            assert(ks[0] == kinds@[i as int]);
            assert(ks.drop_first() =~= kinds@.subrange(i + 1, kinds@.len() as int));
            proof { lemma_total_width_bound(ks); }
            let v = self.parse_value(kinds[i]);
            match v {
                Ok(v) => {
                    let ghost before = out@;
                    out.push(v);
                    proof {
                        let tail = read_values(ks.drop_first(), self.rest());
                        match tail {
                            Ok((vs, rest)) => {
                                assert(before + (seq![v] + vs) =~= out@ + vs);
                            },
                            Err(_) => {},
                        }
                    }
                },
                Err(e) => {
                    proof {
                        assert(read_values(ks, cur) == Err::<(Seq<Value>, Seq<u8>), Error>(e));
                    }
                    return Err(e);
                },
            }
            i = i + 1;
        }
        proof {
            assert(kinds@.subrange(i as int, kinds@.len() as int) =~= Seq::<Value>::empty());
            assert(out@ + Seq::<Value>::empty() =~= out@);
        }
        Ok(out)
    }
}

} // verus!
