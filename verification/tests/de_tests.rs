use someip::serde_someip::de::Deserializer;
use someip::serde_someip::error::Error;

#[test]
fn de_test_u8() {
    let j: [u8; 1] = [9];
    let mut d = Deserializer::from_bytes(&j);
    assert_eq!(9u8, d.parse_unsigned_u8().unwrap());
}

#[test]
fn de_test_u16() {
    let j: [u8; 2] = [1, 0];
    let mut d = Deserializer::from_bytes(&j);
    assert_eq!(1u16, d.parse_unsigned_u16().unwrap());
}

#[test]
fn de_test_i8() {
    let j: [u8; 1] = [255];
    let mut d = Deserializer::from_bytes(&j);
    assert_eq!(-1i8, d.parse_signed_i8().unwrap());
}

#[test]
fn de_test_f32() {
    let j: [u8; 4] = [92, 35, 19, 69];
    let mut d = Deserializer::from_bytes(&j);
    let bits = d.parse_unsigned_u32().unwrap();
    assert_eq!(2354.21f32, f32::from_bits(bits));
}

#[test]
fn de_test_f64() {
    let j: [u8; 8] = [82, 184, 30, 133, 107, 100, 162, 64];
    let mut d = Deserializer::from_bytes(&j);
    let bits = d.parse_unsigned_u64().unwrap();
    assert_eq!(2354.21f64, f64::from_bits(bits));
}

#[test]
fn de_test_bool() {
    let j = [1];
    let mut d = Deserializer::from_bytes(&j);
    assert_eq!(true, d.parse_bool().unwrap());
}

#[test]
fn de_test_string() {
    let j: [u8; 10] = [5, 0, 0, 0, 239, 187, 191, 72, 105, 0];
    let mut d = Deserializer::from_bytes(&j);
    assert_eq!("Hi", d.parse_string().unwrap());
}

#[test]
fn test_string_unequal_len() {
    let j: [u8; 10] = [7, 0, 0, 0, 239, 187, 191, 72, 105, 0];
    let mut d = Deserializer::from_bytes(&j);
    assert_eq!("Hi", d.parse_string().unwrap());
}

#[test]
fn test_string_no_terminate() {
    let j: [u8; 9] = [5, 0, 0, 0, 239, 187, 191, 72, 105];
    let mut d = Deserializer::from_bytes(&j);
    assert_eq!("Hi", d.parse_string().unwrap());
}

#[test]
fn test_string_no_bom() {
    let j: [u8; 7] = [5, 0, 0, 0, 72, 105, 0];
    let mut d = Deserializer::from_bytes(&j);
    assert_eq!("Hi", d.parse_string().unwrap());
}

#[test]
fn test_tupule() {
    let j: [u8; 3] = [6, 8, 9];
    let mut d = Deserializer::from_bytes(&j);
    let a = d.parse_unsigned_u8().unwrap();
    let b = d.parse_unsigned_u8().unwrap();
    let c = d.parse_unsigned_u8().unwrap();
    assert_eq!((6u8, 8u8, 9u8), (a, b, c));
}

#[test]
fn de_test_char() {
    let j: [u8; 1] = [97];
    let mut d = Deserializer::from_bytes(&j);
    assert_eq!('a', d.parse_char().unwrap());
}

fn read_u8_seq(d: &mut Deserializer) -> Vec<u8> {
    let n = d.begin_seq().unwrap();
    let mut v = Vec::new();
    for _ in 0..n {
        v.push(d.parse_unsigned_u8().unwrap());
    }
    v
}

#[test]
fn de_test_seq() {
    let test = vec![1, 2, 9, 7];
    let expected = vec![4, 0, 0, 0, 1, 2, 9, 7];
    let j: &[u8] = expected.as_ref();
    let mut d = Deserializer::from_bytes(j);
    assert_eq!(test, read_u8_seq(&mut d));
}

#[test]
fn de_test_nested_seq() {
    let test: Vec<Vec<u8>> = vec![vec![1, 3, 4, 6], vec![3, 4, 9, 1]];
    let expected: Vec<u8> = vec![2, 0, 0, 0, 4, 0, 0, 0, 1, 3, 4, 6, 4, 0, 0, 0, 3, 4, 9, 1];
    let j: &[u8] = expected.as_ref();
    let mut d = Deserializer::from_bytes(j);
    let n = d.begin_seq().unwrap();
    let mut got: Vec<Vec<u8>> = Vec::new();
    for _ in 0..n {
        got.push(read_u8_seq(&mut d));
    }
    assert_eq!(test, got);
}

#[test]
fn test_vec_str() {
    let test = vec!["a".to_owned(), "b".to_owned()];
    let expected = vec![
        2, 0, 0, 0, 4, 0, 0, 0, 239, 187, 191, 97, 0, 4, 0, 0, 0, 239, 187, 191, 98, 0,
    ];
    let j: &[u8] = expected.as_ref();
    let mut d = Deserializer::from_bytes(j);
    let n = d.begin_seq().unwrap();
    let mut got: Vec<String> = Vec::new();
    for _ in 0..n {
        got.push(d.parse_string().unwrap());
    }
    assert_eq!(test, got);
}

#[test]
fn de_bool_rejects_other_bytes() {
    let j = [2, 1];
    let mut d = Deserializer::from_bytes(&j);
    assert_eq!(Err(Error::ExpectedBoolean), d.parse_bool());
    assert_eq!(d.input(), &[1u8]);
}

#[test]
fn de_string_not_utf8_is_syntax_error() {
    let j: [u8; 7] = [3, 0, 0, 0, 0xff, 0xfe, 0];
    let mut d = Deserializer::from_bytes(&j);
    assert_eq!(Err(Error::Syntax), d.parse_string());
}

#[test]
fn de_string_leaves_what_follows() {
    let j: [u8; 8] = [3, 0, 0, 0, 72, 0, 7, 8];
    let mut d = Deserializer::from_bytes(&j);
    assert_eq!("H", d.parse_string().unwrap());
    assert_eq!(d.input(), &[7u8, 8]);
}

#[test]
fn de_signed_and_wide_integers() {
    let j: [u8; 14] = [0xfe, 0xff, 0x78, 0x56, 0x34, 0x12, 1, 0, 0, 0, 0, 0, 0, 0x80];
    let mut d = Deserializer::from_bytes(&j);
    assert_eq!(-2i16, d.parse_signed_i16().unwrap());
    assert_eq!(0x12345678i32, d.parse_signed_i32().unwrap());
    assert_eq!(i64::MIN + 1, d.parse_signed_i64().unwrap());
    assert!(d.input().is_empty());
}

#[test]
fn de_seq_without_count() {
    let j: [u8; 5] = [9, 0, 0, 0, 1];
    let mut d = Deserializer::from_bytes(&j);
    assert_eq!(None, d.begin_seq());
    assert_eq!(d.input(), &j[..]);
}

#[test]
fn de_at_null() {
    let j = *b"null";
    let d = Deserializer::from_bytes(&j);
    assert!(d.at_null());
    let k = *b"nul";
    let d = Deserializer::from_bytes(&k);
    assert!(!d.at_null());
}
