use someip::serde_someip::de::Deserializer;
use someip::serde_someip::error::Error;
use someip::serde_someip::ser::Serializer;

fn written(f: impl FnOnce(&mut Serializer)) -> Vec<u8> {
    let mut s = Serializer::new();
    f(&mut s);
    s.into_output()
}

#[test]
fn ser_test_bool() {
    let test1: bool = true;
    let expected = vec![0x1];
    assert_eq!(written(|s| s.serialize_bool(test1).unwrap()), expected);
}

#[test]
fn ser_test_i8() {
    let test1: i8 = 0x12;
    let expected = vec![0x12];
    assert_eq!(written(|s| s.serialize_i8(test1).unwrap()), expected);
}

#[test]
fn ser_test_i16() {
    let test1: i16 = 0x1234;
    let expected = vec![0x34, 0x12];
    assert_eq!(written(|s| s.serialize_i16(test1).unwrap()), expected);
}

#[test]
fn ser_test_i32() {
    let test1: i32 = 0x12345678;
    let expected = vec![0x78, 0x56, 0x34, 0x12];
    assert_eq!(written(|s| s.serialize_i32(test1).unwrap()), expected);
}

#[test]
fn ser_test_u8() {
    let test1: u8 = 0x12;
    let expected = vec![0x12];
    assert_eq!(written(|s| s.serialize_u8(test1).unwrap()), expected);
}

#[test]
fn ser_test_u16() {
    let test1: u16 = 0x1234;
    let expected = vec![0x34, 0x12];
    assert_eq!(written(|s| s.serialize_u16(test1).unwrap()), expected);
}

#[test]
fn ser_test_u32() {
    let test1: u32 = 0x12345678;
    let expected = vec![0x78, 0x56, 0x34, 0x12];
    assert_eq!(written(|s| s.serialize_u32(test1).unwrap()), expected);
}

#[test]
fn ser_test_string() {
    let str: String = String::from("Serializing");
    let expected = str.as_bytes();
    assert_eq!(written(|s| s.serialize_str(&str).unwrap()), expected);
}

#[test]
fn ser_test_char() {
    let char: char = 'V';
    let mut ex = vec![];
    ex.push(char as u8);
    assert_eq!(written(|s| s.serialize_char(char).unwrap()), ex);
}

#[test]
fn ser_test_seq() {
    let test: Vec<u8> = vec![1, 2];
    let expected = vec![1, 2];
    let out = written(|s| {
        for b in &test {
            s.serialize_u8(*b).unwrap();
        }
    });
    assert_eq!(out, expected);
}

#[test]
fn ser_test_nested_seq() {
    let test: Vec<Vec<u8>> = vec![vec![1, 3], vec![3, 4], vec![5, 6]];
    let expected: Vec<u8> = vec![1, 3, 3, 4, 5, 6];
    let out = written(|s| {
        for inner in &test {
            for b in inner {
                s.serialize_u8(*b).unwrap();
            }
        }
    });
    assert_eq!(out, expected);
}

#[test]
fn ser_test_tuple() {
    let test: (u8, u8, u8) = (1, 2, 3);
    let expected: Vec<u8> = vec![1, 2, 3];
    let out = written(|s| {
        s.serialize_u8(test.0).unwrap();
        s.serialize_u8(test.1).unwrap();
        s.serialize_u8(test.2).unwrap();
    });
    assert_eq!(out, expected);
}

#[test]
fn ser_test_nested_tuple() {
    let test: ((u8, u8), (u8, u8)) = ((1, 2), (2, 3));
    let expected: Vec<u8> = vec![1, 2, 2, 3];
    let out = written(|s| {
        s.serialize_u8((test.0).0).unwrap();
        s.serialize_u8((test.0).1).unwrap();
        s.serialize_u8((test.1).0).unwrap();
        s.serialize_u8((test.1).1).unwrap();
    });
    assert_eq!(out, expected);
}

#[test]
fn ser_wide_integers_are_refused() {
    let mut s = Serializer::new();
    assert_eq!(Err(Error::Syntax), s.serialize_u64(1));
    assert_eq!(Err(Error::Syntax), s.serialize_i64(-1));
    assert!(s.into_output().is_empty());
}

#[test]
fn ser_bytes_and_negative_values() {
    let out = written(|s| {
        s.serialize_i16(-2).unwrap();
        s.serialize_bytes(&[7, 8]).unwrap();
        s.serialize_i8(-1).unwrap();
    });
    assert_eq!(out, vec![0xfe, 0xff, 7, 8, 0xff]);
}

fn roundtrip_bytes(expected: &[u8]) -> Deserializer<'_> {
    Deserializer::from_bytes(expected)
}

#[test]
fn test_test_bool() {
    let test1: bool = true;
    let expected = vec![0x1];
    assert_eq!(written(|s| s.serialize_bool(test1).unwrap()), expected);
    let mut d = roundtrip_bytes(&expected);
    assert_eq!(test1, d.parse_bool().unwrap());
}

#[test]
fn test_test_i8() {
    let test1: i8 = 0x12;
    let expected = vec![0x12];
    assert_eq!(written(|s| s.serialize_i8(test1).unwrap()), expected);
    let mut d = roundtrip_bytes(&expected);
    assert_eq!(test1, d.parse_signed_i8().unwrap());
}

#[test]
fn test_test_i16() {
    let test1: i16 = 0x1234;
    let expected = vec![0x34, 0x12];
    assert_eq!(written(|s| s.serialize_i16(test1).unwrap()), expected);
    let mut d = roundtrip_bytes(&expected);
    assert_eq!(test1, d.parse_signed_i16().unwrap());
}

#[test]
fn test_test_i32() {
    let test1: i32 = 0x12345678;
    let expected = vec![0x78, 0x56, 0x34, 0x12];
    assert_eq!(written(|s| s.serialize_i32(test1).unwrap()), expected);
    let mut d = roundtrip_bytes(&expected);
    assert_eq!(test1, d.parse_signed_i32().unwrap());
}

#[test]
fn test_test_u8() {
    let test1: u8 = 0x12;
    let expected = vec![0x12];
    assert_eq!(written(|s| s.serialize_u8(test1).unwrap()), expected);
    let mut d = roundtrip_bytes(&expected);
    assert_eq!(test1, d.parse_unsigned_u8().unwrap());
}

#[test]
fn test_test_u16() {
    let test1: u16 = 0x1234;
    let expected = vec![0x34, 0x12];
    assert_eq!(written(|s| s.serialize_u16(test1).unwrap()), expected);
    let mut d = roundtrip_bytes(&expected);
    assert_eq!(test1, d.parse_unsigned_u16().unwrap());
}

#[test]
fn test_test_u32() {
    let test1: u32 = 0x12345678;
    let expected = vec![0x78, 0x56, 0x34, 0x12];
    assert_eq!(written(|s| s.serialize_u32(test1).unwrap()), expected);
    let mut d = roundtrip_bytes(&expected);
    assert_eq!(test1, d.parse_unsigned_u32().unwrap());
}

#[test]
fn test_test_f32() {
    let test1: f32 = 2354.21;
    let expected = vec![92, 35, 19, 69];
    assert_eq!(written(|s| s.serialize_u32(test1.to_bits()).unwrap()), expected);
    let mut d = roundtrip_bytes(&expected);
    assert_eq!(test1, f32::from_bits(d.parse_unsigned_u32().unwrap()));
}

#[test]
fn test_test_tuple() {
    let test: (u8, u8, u8) = (1, 2, 3);
    let expected: Vec<u8> = vec![1, 2, 3];
    let out = written(|s| {
        s.serialize_u8(test.0).unwrap();
        s.serialize_u8(test.1).unwrap();
        s.serialize_u8(test.2).unwrap();
    });
    assert_eq!(out, expected);
    let mut d = roundtrip_bytes(&expected);
    let a = d.parse_unsigned_u8().unwrap();
    let b = d.parse_unsigned_u8().unwrap();
    let c = d.parse_unsigned_u8().unwrap();
    assert_eq!(test, (a, b, c));
}

#[test]
fn test_test_nested_tuple() {
    let test: ((u8, u8), (u8, u8)) = ((1, 2), (2, 3));
    let expected: Vec<u8> = vec![1, 2, 2, 3];
    let out = written(|s| {
        s.serialize_u8((test.0).0).unwrap();
        s.serialize_u8((test.0).1).unwrap();
        s.serialize_u8((test.1).0).unwrap();
        s.serialize_u8((test.1).1).unwrap();
    });
    assert_eq!(out, expected);
    let mut d = roundtrip_bytes(&expected);
    let a = d.parse_unsigned_u8().unwrap();
    let b = d.parse_unsigned_u8().unwrap();
    let c = d.parse_unsigned_u8().unwrap();
    let e = d.parse_unsigned_u8().unwrap();
    assert_eq!(test, ((a, b), (c, e)));
}

#[test]
fn test_test_char() {
    let char: char = 'V';
    let mut ex = vec![];
    ex.push(char as u8);
    assert_eq!(written(|s| s.serialize_char(char).unwrap()), ex);
    let mut d = roundtrip_bytes(&ex);
    assert_eq!(char, d.parse_char().unwrap());
}
