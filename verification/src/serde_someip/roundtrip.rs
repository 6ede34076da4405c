//! What reading gives back of what writing wrote.
use crate::byte_order::{le_bytes, le_value, lemma_le_roundtrip, lemma_pow256_facts};
use crate::serde_someip::de::{bom, first_nul, string_extent, string_text};
use crate::serde_someip::values::{read_value, read_values, total_width, value_bytes, values_bytes, width, Value};
use crate::text::lemma_encode_utf8_concat;
use vstd::prelude::*;
use vstd::utf8::{
    decode_utf8, decode_utf8_encode_utf8, encode_scalar, encode_utf8, encode_utf8_decode_utf8,
    encode_utf8_valid_utf8, has_width_1_encoding, is_ascii_chars, is_ascii_chars_encode_utf8,
    valid_utf8,
};

verus! {

proof fn lemma_le_prefix(v: nat, n: nat, rest: Seq<u8>)
    requires
        v < crate::byte_order::pow256(n),
    ensures
        ({
            let s = le_bytes(v, n) + rest;
            &&& le_value(s.subrange(0, n as int)) == v
            &&& s.subrange(n as int, s.len() as int) == rest
        }),
{
    lemma_le_roundtrip(v, n);
    let s = le_bytes(v, n) + rest;
    assert(s.subrange(0, n as int) =~= le_bytes(v, n));
    assert(s.subrange(n as int, s.len() as int) =~= rest);
}

/// A boolean written as its byte reads back as the same boolean.
pub proof fn law_bool_roundtrip(b: bool, rest: Seq<u8>)
    ensures
        ({
            let s = seq![if b { 1u8 } else { 0u8 }] + rest;
            &&& (s[0] == 1) == b
            &&& s[0] <= 1
            &&& s.drop_first() == rest
        }),
{
    let s = seq![if b { 1u8 } else { 0u8 }] + rest;
    assert(s.drop_first() =~= rest);
}

/// An `i8` written as its byte reads back as the same `i8`.
pub proof fn law_i8_roundtrip(v: i8, rest: Seq<u8>)
    ensures
        ({
            let s = seq![v as u8] + rest;
            &&& s[0] as i8 == v
            &&& s.drop_first() == rest
        }),
{
    let s = seq![v as u8] + rest;
    assert(s.drop_first() =~= rest);
    assert((v as u8) as i8 == v) by (bit_vector);
}

/// A `u16` written as two little-endian bytes reads back as the same `u16`.
pub proof fn law_u16_roundtrip(v: u16, rest: Seq<u8>)
    ensures
        ({
            let s = le_bytes(v as nat, 2) + rest;
            &&& le_value(s.subrange(0, 2)) as u16 == v
            &&& s.subrange(2, s.len() as int) == rest
        }),
{
    lemma_pow256_facts();
    lemma_le_prefix(v as nat, 2, rest);
}

/// A `u32` written as four little-endian bytes reads back as the same `u32`.
pub proof fn law_u32_roundtrip(v: u32, rest: Seq<u8>)
    ensures
        ({
            let s = le_bytes(v as nat, 4) + rest;
            &&& le_value(s.subrange(0, 4)) as u32 == v
            &&& s.subrange(4, s.len() as int) == rest
        }),
{
    lemma_pow256_facts();
    lemma_le_prefix(v as nat, 4, rest);
}

/// An `i16` written as two little-endian bytes reads back as the same `i16`.
pub proof fn law_i16_roundtrip(v: i16, rest: Seq<u8>)
    ensures
        ({
            let s = le_bytes((v as u16) as nat, 2) + rest;
            &&& (le_value(s.subrange(0, 2)) as u16) as i16 == v
            &&& s.subrange(2, s.len() as int) == rest
        }),
{
    lemma_pow256_facts();
    lemma_le_prefix((v as u16) as nat, 2, rest);
    assert((v as u16) as i16 == v) by (bit_vector);
}

/// An `i32` written as four little-endian bytes reads back as the same `i32`.
pub proof fn law_i32_roundtrip(v: i32, rest: Seq<u8>)
    ensures
        ({
            let s = le_bytes((v as u32) as nat, 4) + rest;
            &&& (le_value(s.subrange(0, 4)) as u32) as i32 == v
            &&& s.subrange(4, s.len() as int) == rest
        }),
{
    lemma_pow256_facts();
    lemma_le_prefix((v as u32) as nat, 4, rest);
    assert((v as u32) as i32 == v) by (bit_vector);
}

/// An ASCII character written as its byte reads back as the same character,
/// when the bytes after it are UTF-8 text.
pub proof fn law_ascii_char_roundtrip(c: char, rest: Seq<u8>)
    requires
        is_ascii_chars(seq![c]),
        valid_utf8(rest),
    ensures
        ({
            let s = seq![((c as u32) % 256) as u8] + rest;
            &&& valid_utf8(s)
            &&& decode_utf8(s)[0] == c
            &&& s.drop_first() == rest
        }),
{
    let one = seq![c];
    is_ascii_chars_encode_utf8(one);
    assert(encode_utf8(one) =~= seq![((c as u32) % 256) as u8]) by {
        assert(encode_utf8(one)[0] == c as u8);
        assert((c as u8) == ((c as u32) % 256) as u8);
    }
    let d = decode_utf8(rest);
    decode_utf8_encode_utf8(rest);
    lemma_encode_utf8_concat(one, d);
    let s = seq![((c as u32) % 256) as u8] + rest;
    assert(s == encode_utf8(one + d));
    encode_utf8_valid_utf8(one + d);
    encode_utf8_decode_utf8(one + d);
    assert((one + d)[0] == c);
    assert(s.drop_first() =~= rest);
}

/// The UTF-8 bytes of a character other than NUL are all non-zero.
proof fn lemma_scalar_bytes_nonzero(c: u32)
    requires
        c != 0,
    ensures
        forall|i: int| 0 <= i < encode_scalar(c).len() ==> encode_scalar(c)[i] != 0,
{
    if has_width_1_encoding(c) {
        assert((c & 0x7F) as u8 != 0) by (bit_vector)
            requires
                c != 0,
                c <= 0x7F,
        ;
    }
    assert(0xC0u8 | ((c >> 6) & 0x1F) as u8 != 0) by (bit_vector);
    assert(0xE0u8 | ((c >> 12) & 0x0F) as u8 != 0) by (bit_vector);
    assert(0xF0u8 | ((c >> 18) & 0x7) as u8 != 0) by (bit_vector);
    assert(0x80u8 | (c & 0x3F) as u8 != 0) by (bit_vector);
    assert(0x80u8 | ((c >> 6) & 0x3F) as u8 != 0) by (bit_vector);
    assert(0x80u8 | ((c >> 12) & 0x3F) as u8 != 0) by (bit_vector);
}

/// The UTF-8 bytes of a text without NUL characters hold no zero byte.
proof fn lemma_text_bytes_nonzero(t: Seq<char>)
    requires
        forall|i: int| 0 <= i < t.len() ==> t[i] != '\0',
    ensures
        forall|i: int| 0 <= i < encode_utf8(t).len() ==> encode_utf8(t)[i] != 0,
    decreases t.len(),
{
    if t.len() > 0 {
        let tail = t.drop_first();
        lemma_text_bytes_nonzero(tail);
        assert((t[0] as u32) != 0) by {
            assert(t[0] != '\0');
            vstd::utf8::char_u32_cast(t[0], t[0] as u32);
            assert(('\0' as u32) == 0);
        }
        lemma_scalar_bytes_nonzero(t[0] as u32);
        let head = encode_scalar(t[0] as u32);
        assert(encode_utf8(t) == head + encode_utf8(tail));
        assert forall|i: int| 0 <= i < encode_utf8(t).len() implies encode_utf8(t)[i] != 0 by {
            if i >= head.len() {
                assert(encode_utf8(t)[i] == encode_utf8(tail)[i - head.len()]);
            }
        }
    }
}

/// A string laid out as a 4-byte length field, the byte order mark, the UTF-8
/// text (without NUL characters) and a terminating NUL reads back as the
/// text, and reading stops right after the NUL, whatever the length field
/// says and whatever follows.
pub proof fn law_string_read(len: Seq<u8>, t: Seq<char>, rest: Seq<u8>)
    requires
        len.len() == 4,
        forall|i: int| 0 <= i < t.len() ==> t[i] != '\0',
    ensures
        ({
            let s = len + bom() + encode_utf8(t) + seq![0u8] + rest;
            &&& string_text(s) == Some(t)
            &&& s.subrange(4 + string_extent(s.subrange(4, s.len() as int)), s.len() as int) == rest
        }),
{
    let enc = encode_utf8(t);
    lemma_text_bytes_nonzero(t);
    let s = len + bom() + enc + seq![0u8] + rest;
    let b = s.subrange(4, s.len() as int);
    assert(b =~= bom() + enc + seq![0u8] + rest);
    let k: int = 3 + enc.len() as int;
    assert(b[k] == 0);
    assert forall|j: int| 0 <= j < k implies b[j] != 0 by {
        if j >= 3 {
            assert(b[j] == enc[j - 3]);
        }
    }
    assert(exists|i: int| 0 <= i < b.len() && b[i] == 0);
    let c = choose|i: int| 0 <= i < b.len() && b[i] == 0 && forall|j: int| 0 <= j < i ==> b[j] != 0;
    assert(exists|i: int| 0 <= i < b.len() && b[i] == 0 && forall|j: int| 0 <= j < i ==> b[j] != 0) by {
        assert(0 <= k < b.len() && b[k] == 0 && forall|j: int| 0 <= j < k ==> b[j] != 0);
    }
    assert(c == k) by {
        if c < k {
            assert(b[c] != 0);
        } else if c > k {
            assert(b[k] != 0);
        }
    }
    assert(first_nul(b) == Some(k));
    let body = b.subrange(0, k);
    assert(body =~= bom() + enc);
    assert(body.subrange(0, 3) =~= bom());
    assert(body.subrange(3, body.len() as int) =~= enc);
    encode_utf8_valid_utf8(t);
    encode_utf8_decode_utf8(t);
    assert(s.subrange(4 + k + 1, s.len() as int) =~= rest);
}

/// A value written reads back as the same value, and reading takes exactly
/// the bytes written.
proof fn lemma_value_roundtrip(v: Value, rest: Seq<u8>)
    ensures
        value_bytes(v).len() == width(v),
        read_value(v, value_bytes(v) + rest) == Ok::<Value, crate::serde_someip::error::Error>(v),
        (value_bytes(v) + rest).subrange(width(v) as int, (value_bytes(v) + rest).len() as int) == rest,
{
    lemma_pow256_facts();
    let s = value_bytes(v) + rest;
    match v {
        Value::Bool(b) => {
            law_bool_roundtrip(b, rest);
            assert(s.drop_first() =~= s.subrange(1, s.len() as int));
        },
        Value::U8(x) => {
            assert(s[0] == x);
            assert(s.subrange(1, s.len() as int) =~= rest);
        },
        Value::I8(x) => {
            law_i8_roundtrip(x, rest);
            assert(s.drop_first() =~= s.subrange(1, s.len() as int));
        },
        Value::U16(x) => {
            lemma_le_roundtrip(x as nat, 2);
            law_u16_roundtrip(x, rest);
        },
        Value::I16(x) => {
            lemma_le_roundtrip((x as u16) as nat, 2);
            law_i16_roundtrip(x, rest);
        },
        Value::U32(x) => {
            lemma_le_roundtrip(x as nat, 4);
            law_u32_roundtrip(x, rest);
        },
        Value::I32(x) => {
            lemma_le_roundtrip((x as u32) as nat, 4);
            law_i32_roundtrip(x, rest);
        },
    }
}

/// A run of values written one after the other (as a tuple or a struct of
/// them is written) reads back as the same values, whatever follows: the
/// bytes are exactly as many as reading them needs, and reading leaves what
/// follows.
pub proof fn law_values_roundtrip(vs: Seq<Value>, rest: Seq<u8>)
    ensures
        values_bytes(vs).len() == total_width(vs),
        read_values(vs, values_bytes(vs) + rest) == Ok::<(Seq<Value>, Seq<u8>), crate::serde_someip::error::Error>(
            (vs, rest),
        ),
    decreases vs.len(),
{
    if vs.len() == 0 {
        assert(values_bytes(vs) + rest =~= rest);
        assert(vs =~= Seq::<Value>::empty());
    } else {
        let tail = vs.drop_first();
        law_values_roundtrip(tail, rest);
        let tb = values_bytes(tail) + rest;
        lemma_value_roundtrip(vs[0], tb);
        let s = values_bytes(vs) + rest;
        assert(s =~= value_bytes(vs[0]) + tb);
        assert(read_value(vs[0], s) == Ok::<Value, crate::serde_someip::error::Error>(vs[0]));
        assert(s.subrange(width(vs[0]) as int, s.len() as int) == tb);
        assert(read_values(tail, tb) == Ok::<(Seq<Value>, Seq<u8>), crate::serde_someip::error::Error>((tail, rest)));
        assert(seq![vs[0]] + tail =~= vs);
    }
}

} // verus!
