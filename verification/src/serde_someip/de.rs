//! Reading values of the binary data format from a byte slice.
use crate::byte_order::{le_value, read_le};
use crate::serde_someip::error::{Error, Result};
use crate::text::utf8_text;
use vstd::prelude::*;
use vstd::utf8::{decode_utf8, valid_utf8};

verus! {

/// The UTF-8 byte order mark that may open a string.
pub open spec fn bom() -> Seq<u8> {
    seq![0xEFu8, 0xBBu8, 0xBFu8]
}

/// The index of the first NUL byte of `s`, if there is one.
pub open spec fn first_nul(s: Seq<u8>) -> Option<int> {
    if exists|i: int| 0 <= i < s.len() && s[i] == 0 {
        Some(choose|i: int| 0 <= i < s.len() && s[i] == 0 && forall|j: int| 0 <= j < i ==> s[j] != 0)
    } else {
        None
    }
}

/// The bytes of a string body: everything up to the first NUL, or to the end.
pub open spec fn string_body(s: Seq<u8>) -> Seq<u8> {
    match first_nul(s) {
        Some(i) => s.subrange(0, i),
        None => s,
    }
}

/// How many bytes a string body takes, its terminating NUL included.
pub open spec fn string_extent(s: Seq<u8>) -> int {
    match first_nul(s) {
        Some(i) => i + 1,
        None => s.len() as int,
    }
}

/// The body without a leading byte order mark.
pub open spec fn strip_bom(b: Seq<u8>) -> Seq<u8> {
    if b.len() >= 3 && b.subrange(0, 3) == bom() {
        b.subrange(3, b.len() as int)
    } else {
        b
    }
}

/// The text that a string encoded at the start of `s` holds: a 4-byte length
/// field, an optional byte order mark, the UTF-8 text, and an optional NUL.
pub open spec fn string_text(s: Seq<u8>) -> Option<Seq<char>> {
    let text = strip_bom(string_body(s.subrange(4, s.len() as int)));
    if valid_utf8(text) {
        Some(decode_utf8(text))
    } else {
        None
    }
}

/// The element count that a sequence encoded at the start of `s` announces,
/// when it has one: a little-endian `i32` no larger than the bytes after it.
pub open spec fn announced_len(s: Seq<u8>) -> Option<int> {
    if s.len() >= 4 && i32_at(s) <= s.len() - 4 {
        Some(i32_at(s) as int)
    } else {
        None
    }
}

/// The little-endian `i32` held by the first four bytes of `s`.
pub open spec fn i32_at(s: Seq<u8>) -> i32 {
    (le_value(s.subrange(0, 4)) as u32) as i32
}

/// A reader over the bytes that are still to be read.
#[derive(Debug)]
pub struct Deserializer<'de> {
    input: &'de [u8],
}

impl<'de> Deserializer<'de> {
    /// The bytes that are still to be read.
    pub closed spec fn rest(&self) -> Seq<u8> {
        self.input@
    }

    /// Starts reading at the first byte of `input`.
    pub fn from_bytes(input: &'de [u8]) -> (d: Self)
        ensures
            d.rest() == input@,
    {
        Deserializer { input }
    }

    /// The bytes that are still to be read.
    pub fn input(&self) -> (r: &'de [u8])
        ensures
            r@ == self.rest(),
    {
        self.input
    }

    fn advance(&mut self, n: usize)
        requires
            n <= old(self).rest().len(),
        ensures
            final(self).rest() == old(self).rest().subrange(n as int, old(self).rest().len() as int),
    {
        let (_, rest) = self.input.split_at(n);
        self.input = rest;
    }

    /// Reads a boolean byte: 0 is `false`, 1 is `true`, anything else an error.
    /// The byte is consumed in every case.
    pub fn parse_bool(&mut self) -> (r: Result<bool>)
        requires
            old(self).rest().len() >= 1,
        ensures
            final(self).rest() == old(self).rest().drop_first(),
            r == (if old(self).rest()[0] == 0 {
                Ok(false)
            } else if old(self).rest()[0] == 1 {
                Ok(true)
            } else {
                Err(Error::ExpectedBoolean)
            }),
    {
        let t = self.input[0];
        self.advance(1);
        assert(old(self).rest().drop_first() =~= final(self).rest());
        if t == 0 {
            Ok(false)
        } else if t == 1 {
            Ok(true)
        } else {
            Err(Error::ExpectedBoolean)
        }
    }

    /// Reads one byte.
    pub fn parse_unsigned_u8(&mut self) -> (r: Result<u8>)
        requires
            old(self).rest().len() >= 1,
        ensures
            final(self).rest() == old(self).rest().drop_first(),
            r == Ok::<u8, Error>(old(self).rest()[0]),
    {
        let t = self.input[0];
        self.advance(1);
        assert(old(self).rest().drop_first() =~= final(self).rest());
        Ok(t)
    }

    /// Reads a little-endian `u16`.
    pub fn parse_unsigned_u16(&mut self) -> (r: Result<u16>)
        requires
            old(self).rest().len() >= 2,
        ensures
            final(self).rest() == old(self).rest().subrange(2, old(self).rest().len() as int),
            r == Ok::<u16, Error>(le_value(old(self).rest().subrange(0, 2)) as u16),
    {
        let t = read_le(self.input, 0, 2) as u16;
        self.advance(2);
        Ok(t)
    }

    /// Reads a little-endian `u32`.
    pub fn parse_unsigned_u32(&mut self) -> (r: Result<u32>)
        requires
            old(self).rest().len() >= 4,
        ensures
            final(self).rest() == old(self).rest().subrange(4, old(self).rest().len() as int),
            r == Ok::<u32, Error>(le_value(old(self).rest().subrange(0, 4)) as u32),
    {
        let t = read_le(self.input, 0, 4) as u32;
        self.advance(4);
        Ok(t)
    }

    /// Reads a little-endian `u64`.
    pub fn parse_unsigned_u64(&mut self) -> (r: Result<u64>)
        requires
            old(self).rest().len() >= 8,
        ensures
            final(self).rest() == old(self).rest().subrange(8, old(self).rest().len() as int),
            r == Ok::<u64, Error>(le_value(old(self).rest().subrange(0, 8)) as u64),
    {
        let t = read_le(self.input, 0, 8) as u64;
        self.advance(8);
        Ok(t)
    }

    /// Reads a two's complement `i8`.
    pub fn parse_signed_i8(&mut self) -> (r: Result<i8>)
        requires
            old(self).rest().len() >= 1,
        ensures
            final(self).rest() == old(self).rest().drop_first(),
            r == Ok::<i8, Error>(old(self).rest()[0] as i8),
    {
        let t = self.input[0] as i8;
        self.advance(1);
        assert(old(self).rest().drop_first() =~= final(self).rest());
        Ok(t)
    }

    /// Reads a little-endian two's complement `i16`.
    pub fn parse_signed_i16(&mut self) -> (r: Result<i16>)
        requires
            old(self).rest().len() >= 2,
        ensures
            final(self).rest() == old(self).rest().subrange(2, old(self).rest().len() as int),
            r == Ok::<i16, Error>((le_value(old(self).rest().subrange(0, 2)) as u16) as i16),
    {
        let t = (read_le(self.input, 0, 2) as u16) as i16;
        self.advance(2);
        Ok(t)
    }

    /// Reads a little-endian two's complement `i32`.
    pub fn parse_signed_i32(&mut self) -> (r: Result<i32>)
        requires
            old(self).rest().len() >= 4,
        ensures
            final(self).rest() == old(self).rest().subrange(4, old(self).rest().len() as int),
            r == Ok::<i32, Error>((le_value(old(self).rest().subrange(0, 4)) as u32) as i32),
    {
        let t = (read_le(self.input, 0, 4) as u32) as i32;
        self.advance(4);
        Ok(t)
    }

    /// Reads a little-endian two's complement `i64`.
    pub fn parse_signed_i64(&mut self) -> (r: Result<i64>)
        requires
            old(self).rest().len() >= 8,
        ensures
            final(self).rest() == old(self).rest().subrange(8, old(self).rest().len() as int),
            r == Ok::<i64, Error>((le_value(old(self).rest().subrange(0, 8)) as u64) as i64),
    {
        let t = (read_le(self.input, 0, 8) as u64) as i64;
        self.advance(8);
        Ok(t)
    }

    /// Reads a string: a 4-byte length field (its value is not relied on), an
    /// optional byte order mark, UTF-8 text, and a NUL that ends it unless the
    /// input ends first. Text that is not UTF-8 is a syntax error.
    pub fn parse_string(&mut self) -> (r: Result<String>)
        requires
            old(self).rest().len() >= 4,
        ensures
            ({
                let s = old(self).rest();
                match string_text(s) {
                    Some(text) => r matches Ok(t) && t@ == text && final(self).rest() == s.subrange(
                        4 + string_extent(s.subrange(4, s.len() as int)),
                        s.len() as int,
                    ),
                    None => r == Err::<String, Error>(Error::Syntax),
                }
            }),
    {
        let ghost s = self.input@;
        let body = &self.input[4..self.input.len()];
        let ghost b = body@;
        let mut i: usize = 0;
        while i < body.len() && body[i] != 0
            invariant
                0 <= i <= body.len(),
                forall|j: int| 0 <= j < i ==> body@[j] != 0,
            decreases body.len() - i,
        {
            i = i + 1;
        }
        let found = i < body.len();
        proof {
            if found {
                assert(b[i as int] == 0);
                assert(exists|k: int| 0 <= k < b.len() && b[k] == 0);
                let c = choose|k: int|
                    0 <= k < b.len() && b[k] == 0 && forall|j: int| 0 <= j < k ==> b[j] != 0;
                assert(exists|k: int| 0 <= k < b.len() && b[k] == 0 && forall|j: int| 0 <= j < k ==> b[j] != 0) by {
                    assert(0 <= i < b.len() && b[i as int] == 0 && forall|j: int| 0 <= j < i ==> b[j] != 0);
                }
                assert(c == i) by {
                    if c < i {
                        assert(b[c] != 0);
                    } else if c > i {
                        assert(b[i as int] != 0);
                    }
                }
                assert(first_nul(b) == Some(i as int));
            } else {
                assert(first_nul(b) is None);
                assert(b.subrange(0, i as int) =~= b);
            }
        }
        let text_bytes = &body[0..i];
        let has_bom = text_bytes.len() >= 3 && text_bytes[0] == 0xEF && text_bytes[1] == 0xBB
            && text_bytes[2] == 0xBF;
        let start: usize = if has_bom { 3 } else { 0 };
        let text = &text_bytes[start..text_bytes.len()];
        proof {
            let tb = text_bytes@;
            assert(tb =~= string_body(b));
            if has_bom {
                assert(tb.subrange(0, 3) =~= bom());
            } else if tb.len() >= 3 {
                assert(tb.subrange(0, 3)[0] == tb[0]);
                assert(tb.subrange(0, 3)[1] == tb[1]);
                assert(tb.subrange(0, 3)[2] == tb[2]);
                assert(tb.subrange(0, 3) != bom()) by {
                    if tb.subrange(0, 3) == bom() {
                        assert(bom()[0] == 0xEF && bom()[1] == 0xBB && bom()[2] == 0xBF);
                    }
                }
            } else {
                assert(tb.subrange(0, tb.len() as int) =~= tb);
            }
            assert(text@ =~= strip_bom(string_body(b)));
            assert(b =~= s.subrange(4, s.len() as int));
        }
        match utf8_text(text) {
            Some(t) => {
                let owned = t.to_owned();
                let consumed: usize = if found { i + 1 } else { i };
                self.advance(4 + consumed);
                Ok(owned)
            },
            None => Err(Error::Syntax),
        }
    }

    /// Reads a character: the remaining input must be UTF-8 text; its first
    /// character is returned and one byte is consumed.
    pub fn parse_char(&mut self) -> (r: Result<char>)
        requires
            valid_utf8(old(self).rest()),
            old(self).rest().len() >= 1,
        ensures
            final(self).rest() == old(self).rest().drop_first(),
            r == Ok::<char, Error>(decode_utf8(old(self).rest())[0]),
    {
        let t = utf8_text(self.input).unwrap();
        proof {
            let s = self.input@;
            assert(decode_utf8(s).len() > 0) by {
                reveal_with_fuel(decode_utf8, 1);
            }
        }
        let c = t.get_char(0);
        self.advance(1);
        assert(old(self).rest().drop_first() =~= final(self).rest());
        Ok(c)
    }

    /// Decides how a sequence is read. When the input opens with a 4-byte
    /// little-endian count that is no larger than the bytes after it, the count
    /// is consumed and returned; otherwise nothing is consumed and the elements
    /// are read until the element reader stops.
    pub fn begin_seq(&mut self) -> (r: Option<usize>)
        requires
            old(self).rest().len() >= 4 ==> old(self).rest().len() - 4 <= i32::MAX,
            announced_len(old(self).rest()) matches Some(n) ==> n >= 0,
        ensures
            match announced_len(old(self).rest()) {
                Some(n) => r == Some(n as usize) && final(self).rest() == old(self).rest().subrange(
                    4,
                    old(self).rest().len() as int,
                ),
                None => r is None && final(self).rest() == old(self).rest(),
            },
    {
        if self.input.len() >= 4 {
            let t = (read_le(self.input, 0, 4) as u32) as i32;
            let n = (self.input.len() - 4) as i32;
            if t <= n {
                self.advance(4);
                return Some(t as usize);
            }
        }
        None
    }

    /// Whether the input opens with the four bytes of `null`, which stand for
    /// an absent option and for the unit value.
    pub fn at_null(&self) -> (r: bool)
        ensures
            r == (self.rest().len() >= 4 && self.rest().subrange(0, 4) == seq![0x6eu8, 0x75u8, 0x6cu8, 0x6cu8]),
    {
        let r = self.input.len() >= 4 && self.input[0] == 0x6e && self.input[1] == 0x75
            && self.input[2] == 0x6c && self.input[3] == 0x6c;
        proof {
            let n = seq![0x6eu8, 0x75u8, 0x6cu8, 0x6cu8];
            if self.rest().len() >= 4 {
                let p = self.rest().subrange(0, 4);
                if p == n {
                    assert(p[0] == n[0] && p[1] == n[1] && p[2] == n[2] && p[3] == n[3]);
                }
                if r {
                    assert(p =~= n);
                }
            }
        }
        r
    }
}

} // verus!
