use someip::serde_someip::de::Deserializer;
use someip::serde_someip::ser::Serializer;

fn read_u8_seq(d: &mut Deserializer) -> Vec<u8> {
    let n = d.begin_seq().unwrap();
    (0..n).map(|_| d.parse_unsigned_u8().unwrap()).collect()
}

#[test]
fn de_test_struct() {
    let j: [u8; 62] = [
        0, 2, 5, 0, 0, 0, 239, 187, 191, 72, 105, 0, 6, 4, 1, 1, 0, 9, 2, 0, 0, 0, 4, 0, 0, 0,
        239, 187, 191, 97, 0, 4, 0, 0, 0, 239, 187, 191, 98, 0, 2, 0, 0, 0, 12, 32, 2, 0, 0, 0,
        2, 0, 0, 0, 12, 34, 2, 0, 0, 0, 23, 43,
    ];
    let mut d = Deserializer::from_bytes(&j);
    assert_eq!(d.parse_bool().unwrap(), false);
    assert_eq!(d.parse_unsigned_u8().unwrap(), 2u8);
    assert_eq!(d.parse_string().unwrap(), "Hi");
    // The array has no count in front: its elements are read as they come.
    assert_eq!(d.begin_seq(), None);
    let tup = [d.parse_unsigned_u8().unwrap(), d.parse_unsigned_u8().unwrap()];
    assert_eq!(tup, [6, 4]);
    assert_eq!(d.parse_bool().unwrap(), true);
    assert_eq!(d.parse_unsigned_u16().unwrap(), 1u16);
    assert_eq!(d.parse_unsigned_u8().unwrap(), 9u8);
    let n = d.begin_seq().unwrap();
    let seq: Vec<String> = (0..n).map(|_| d.parse_string().unwrap()).collect();
    assert_eq!(seq, vec!["a".to_owned(), "b".to_owned()]);
    assert_eq!(read_u8_seq(&mut d), vec![12, 32]);
    let n = d.begin_seq().unwrap();
    let seq3: Vec<Vec<u8>> = (0..n).map(|_| read_u8_seq(&mut d)).collect();
    assert_eq!(seq3, vec![vec![12, 34], vec![23, 43]]);
    assert!(d.input().is_empty());
}

#[test]
fn ser_test_struct() {
    let mut s = Serializer::new();
    s.serialize_u8(98).unwrap();
    s.serialize_bool(false).unwrap();
    s.serialize_bytes(&342.1274f32.to_le_bytes()).unwrap();
    s.serialize_char('c').unwrap();
    s.serialize_str("test").unwrap();
    s.serialize_u8(1).unwrap();
    s.serialize_u8(3).unwrap();
    for x in ["a", "b"] {
        s.serialize_str(x).unwrap();
    }
    for b in [12u8, 32] {
        s.serialize_u8(b).unwrap();
    }
    for inner in [[12u8, 34], [23, 43]] {
        for b in inner {
            s.serialize_u8(b).unwrap();
        }
    }
    let expected = vec![98, 0, 79, 16, 171, 67, 99, 116, 101, 115, 116, 1, 3, 97, 98, 12, 32, 12, 34, 23, 43];
    assert_eq!(s.into_output(), expected);
}

#[test]
fn ser_test_struct_array() {
    let mut s = Serializer::new();
    for b in [12u8, 2, 43, 9] {
        s.serialize_u8(b).unwrap();
    }
    let expected = vec![12, 2, 43, 9];
    assert_eq!(s.into_output(), expected);
}

#[test]
fn test_test_struct_array() {
    let mut s = Serializer::new();
    for b in [12u8, 2, 43, 9] {
        s.serialize_u8(b).unwrap();
    }
    let expected = vec![12, 2, 43, 9];
    assert_eq!(s.into_output(), expected);
    let mut d = Deserializer::from_bytes(&expected);
    assert_eq!(d.begin_seq(), None);
    let seq: Vec<u8> = (0..4).map(|_| d.parse_unsigned_u8().unwrap()).collect();
    assert_eq!(seq, vec![12, 2, 43, 9]);
}

#[test]
fn test_test_struct() {
    let expected = vec![98, 0, 79, 16, 171, 67, 99, 7, 0, 0, 0, 239, 187, 191, 116, 101, 115, 116, 0, 1, 3];
    let mut d = Deserializer::from_bytes(&expected);
    assert_eq!(d.parse_unsigned_u8().unwrap(), 98);
    assert_eq!(d.parse_bool().unwrap(), false);
    assert_eq!(f32::from_bits(d.parse_unsigned_u32().unwrap()), 342.1274f32);
    assert_eq!(d.parse_char().unwrap(), 'c');
    assert_eq!(d.parse_string().unwrap(), "test");
    assert_eq!(d.begin_seq(), None);
    let tup = (d.parse_unsigned_u8().unwrap(), d.parse_unsigned_u8().unwrap());
    assert_eq!(tup, (1, 3));
}
