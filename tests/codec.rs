use bacnet::codec::{decode, decode_first, encode, DecodeError, EnumNames, read_tag, TagHeader};
use bacnet::value::{BACnetValue, ValueError};

fn no_names() -> EnumNames {
    EnumNames { units: Vec::new(), object_types: Vec::new(), binary_states: Vec::new() }
}

fn names() -> EnumNames {
    EnumNames {
        units: (0..256).map(|i| format!("unit-{}", i)).collect(),
        object_types: (0..60).map(|i| format!("type-{}", i)).collect(),
        binary_states: vec!["inactive".to_string(), "active".to_string()],
    }
}

fn same(a: &BACnetValue, b: &BACnetValue) -> bool {
    format!("{:?}", a) == format!("{:?}", b)
}

fn round_trip(v: BACnetValue) {
    let bytes = encode(&v).expect("value has an encoding");
    let back = decode(&bytes, &no_names(), 0, 0).expect("encoding decodes");
    assert!(same(&v, &back), "{:?} came back as {:?}", v, back);
}

#[test]
fn round_trip_every_encodable_variant() {
    round_trip(BACnetValue::Null);
    round_trip(BACnetValue::Bool(true));
    round_trip(BACnetValue::Bool(false));
    for u in [0u64, 1, 255, 256, 65535, 65536, 0xFFFF_FFFF, 0x1_0000_0000, u64::MAX] {
        round_trip(BACnetValue::Uint(u));
    }
    for i in [0i32, 1, -1, 127, -128, 128, -129, 32767, -32768, 8_388_607, -8_388_608, i32::MAX, i32::MIN] {
        round_trip(BACnetValue::Int(i));
    }
    round_trip(BACnetValue::Real(1.5f32.to_bits()));
    round_trip(BACnetValue::Double((-2.25f64).to_bits()));
    round_trip(BACnetValue::String(String::new()));
    round_trip(BACnetValue::String("hello".to_string()));
    round_trip(BACnetValue::String("h\u{e9}llo \u{2603}".to_string()));
    round_trip(BACnetValue::String("x".repeat(300)));
    round_trip(BACnetValue::String("y".repeat(70_000)));
    for n in [0usize, 1, 5, 8, 9, 13, 16, 17] {
        let bits: Vec<bool> = (0..n).map(|i| i % 3 == 0).collect();
        round_trip(BACnetValue::BitString(bits));
    }
    round_trip(BACnetValue::Enum(3, None));
    round_trip(BACnetValue::Enum(0xFFFF_FFFF, None));
    round_trip(BACnetValue::ObjectId { object_type: 8, object_instance: 1234 });
    round_trip(BACnetValue::ObjectId { object_type: 1023, object_instance: 0x3F_FFFF });
}

#[test]
fn round_trip_named_enumeration() {
    let v = BACnetValue::Enum(8, Some("type-8".to_string()));
    let bytes = encode(&v).unwrap();
    let back = decode(&bytes, &names(), 79, 8).unwrap();
    assert!(same(&v, &back));
}

#[test]
fn arrays_and_octet_strings_have_no_encoding() {
    assert!(encode(&BACnetValue::Array(vec![BACnetValue::Null])).is_none());
    assert!(encode(&BACnetValue::Bytes(vec![1, 2])).is_none());
    assert!(encode(&BACnetValue::ObjectId { object_type: 1024, object_instance: 0 }).is_none());
    assert!(encode(&BACnetValue::ObjectId { object_type: 0, object_instance: 0x40_0000 }).is_none());
}

#[test]
fn encodings_are_exact() {
    assert_eq!(encode(&BACnetValue::Null).unwrap(), vec![0x00]);
    assert_eq!(encode(&BACnetValue::Bool(true)).unwrap(), vec![0x11]);
    assert_eq!(encode(&BACnetValue::Uint(300)).unwrap(), vec![0x22, 0x01, 0x2C]);
    assert_eq!(encode(&BACnetValue::Int(-1)).unwrap(), vec![0x31, 0xFF]);
    assert_eq!(encode(&BACnetValue::Int(128)).unwrap(), vec![0x32, 0x00, 0x80]);
    assert_eq!(encode(&BACnetValue::Real(0x3FC0_0000)).unwrap(), vec![0x44, 0x3F, 0xC0, 0x00, 0x00]);
    assert_eq!(
        encode(&BACnetValue::ObjectId { object_type: 8, object_instance: 1 }).unwrap(),
        vec![0xC4, 0x02, 0x00, 0x00, 0x01]
    );
    assert_eq!(encode(&BACnetValue::String("ab".to_string())).unwrap(), vec![0x73, 0x00, b'a', b'b']);
    assert_eq!(
        encode(&BACnetValue::BitString(vec![true, false, true, true, false])).unwrap(),
        vec![0x82, 0x03, 0b1011_0000]
    );
    let long = encode(&BACnetValue::String("z".repeat(10))).unwrap();
    assert_eq!(&long[..3], &[0x75, 11, 0x00]);
}

#[test]
fn decodes_each_tag() {
    let n = no_names();
    assert!(same(&decode(&[0x00], &n, 0, 0).unwrap(), &BACnetValue::Null));
    assert!(same(&decode(&[0x10], &n, 0, 0).unwrap(), &BACnetValue::Bool(false)));
    assert!(same(&decode(&[0x21, 0x07], &n, 0, 0).unwrap(), &BACnetValue::Uint(7)));
    assert!(same(&decode(&[0x31, 0x80], &n, 0, 0).unwrap(), &BACnetValue::Int(-128)));
    assert!(same(&decode(&[0x44, 0x42, 0x28, 0, 0], &n, 0, 0).unwrap(), &BACnetValue::Real(42.0f32.to_bits())));
    assert!(same(
        &decode(&[0x55, 0x08, 0x40, 0x45, 0, 0, 0, 0, 0, 0], &n, 0, 0).unwrap(),
        &BACnetValue::Double(42.0f64.to_bits())
    ));
    assert!(same(&decode(&[0x91, 0x02], &n, 0, 0).unwrap(), &BACnetValue::Enum(2, None)));
    assert!(same(
        &decode(&[0xC4, 0x00, 0x80, 0x00, 0x05], &n, 0, 0).unwrap(),
        &BACnetValue::ObjectId { object_type: 2, object_instance: 5 }
    ));
}

#[test]
fn extended_tag_number_and_length() {
    let n = no_names();
    // Tag number 2 written in the extended form.
    assert!(same(&decode(&[0xF1, 0x02, 0x09], &n, 0, 0).unwrap(), &BACnetValue::Uint(9)));
    let mut b = vec![0x75, 0xFE, 0x01, 0x00, 0x00];
    b.extend(std::iter::repeat(b'q').take(255));
    assert!(same(&decode(&b, &n, 0, 0).unwrap(), &BACnetValue::String("q".repeat(255))));
    assert_eq!(read_tag(&b), Ok(TagHeader { tag: 7, len: 256, start: 4 }));
}

#[test]
fn bit_string_of_zero_bits_is_empty() {
    match decode(&[0x81, 0x00], &no_names(), 0, 0).unwrap() {
        BACnetValue::BitString(bits) => assert!(bits.is_empty()),
        v => panic!("unexpected {:?}", v),
    }
}

#[test]
fn bit_string_length_is_not_rounded_to_octets() {
    match decode(&[0x83, 0x03, 0xFF, 0b1010_0000], &no_names(), 0, 0).unwrap() {
        BACnetValue::BitString(bits) => {
            assert_eq!(bits.len(), 13);
            assert_eq!(&bits[8..], &[true, false, true, false, false]);
        }
        v => panic!("unexpected {:?}", v),
    }
    match decode(&[0x82, 0x03, 0b1011_0000], &no_names(), 0, 0).unwrap() {
        BACnetValue::BitString(bits) => assert_eq!(bits, vec![true, false, true, true, false]),
        v => panic!("unexpected {:?}", v),
    }
}

#[test]
fn object_type_enumeration_is_named_in_range() {
    let v = decode(&[0x91, 0x08], &names(), 79, 8).unwrap();
    assert!(same(&v, &BACnetValue::Enum(8, Some("type-8".to_string()))));
}

#[test]
fn object_type_enumeration_at_or_above_reserved_types_is_unnamed() {
    let v = decode(&[0x91, 0xC8], &names(), 79, 8).unwrap();
    assert!(same(&v, &BACnetValue::Enum(200, None)));
    let v = decode(&[0x91, 60], &names(), 79, 8).unwrap();
    assert!(same(&v, &BACnetValue::Enum(60, None)));
    let v = decode(&[0x92, 0x01, 0x00], &names(), 79, 8).unwrap();
    assert!(same(&v, &BACnetValue::Enum(256, None)));
}

#[test]
fn units_and_binary_states_are_named_in_context() {
    let v = decode(&[0x91, 62], &names(), 117, 0).unwrap();
    assert!(same(&v, &BACnetValue::Enum(62, Some("unit-62".to_string()))));
    let v = decode(&[0x92, 0x01, 0x2C], &names(), 117, 0).unwrap();
    assert!(same(&v, &BACnetValue::Enum(300, None)));
    let v = decode(&[0x91, 0x01], &names(), 85, 3).unwrap();
    assert!(same(&v, &BACnetValue::Enum(1, Some("active".to_string()))));
    let v = decode(&[0x91, 0x01], &names(), 104, 4).unwrap();
    assert!(same(&v, &BACnetValue::Enum(1, Some("active".to_string()))));
    let v = decode(&[0x91, 0x01], &names(), 85, 200).unwrap();
    assert!(same(&v, &BACnetValue::Enum(1, None)));
    let v = decode(&[0x91, 0x01], &names(), 28, 3).unwrap();
    assert!(same(&v, &BACnetValue::Enum(1, None)));
}

#[test]
fn decode_errors() {
    let n = no_names();
    assert_eq!(decode(&[], &n, 0, 0).unwrap_err(), DecodeError::Truncated);
    assert_eq!(decode(&[0x09], &n, 0, 0).unwrap_err(), DecodeError::NotApplicationTag);
    assert_eq!(decode(&[0x0E], &n, 0, 0).unwrap_err(), DecodeError::NotApplicationTag);
    assert_eq!(decode(&[0x06], &n, 0, 0).unwrap_err(), DecodeError::NotApplicationTag);
    assert_eq!(decode(&[0xF0], &n, 0, 0).unwrap_err(), DecodeError::Truncated);
    assert_eq!(decode(&[0x22, 0x01], &n, 0, 0).unwrap_err(), DecodeError::Truncated);
    assert_eq!(decode(&[0x25], &n, 0, 0).unwrap_err(), DecodeError::Truncated);
    assert_eq!(decode(&[0x20], &n, 0, 0).unwrap_err(), DecodeError::InvalidLength { tag: 2, len: 0 });
    assert_eq!(decode(&[0x35, 5, 1, 2, 3, 4, 5], &n, 0, 0).unwrap_err(), DecodeError::InvalidLength { tag: 3, len: 5 });
    assert_eq!(decode(&[0x43, 1, 2, 3], &n, 0, 0).unwrap_err(), DecodeError::InvalidLength { tag: 4, len: 3 });
    assert_eq!(decode(&[0x54, 1, 2, 3, 4], &n, 0, 0).unwrap_err(), DecodeError::InvalidLength { tag: 5, len: 4 });
    assert_eq!(decode(&[0x70], &n, 0, 0).unwrap_err(), DecodeError::InvalidLength { tag: 7, len: 0 });
    assert_eq!(decode(&[0xC3, 0, 0, 1], &n, 0, 0).unwrap_err(), DecodeError::InvalidLength { tag: 12, len: 3 });
    assert_eq!(decode(&[0x82, 0x08, 0x00], &n, 0, 0).unwrap_err(), DecodeError::InvalidBitString);
    assert_eq!(decode(&[0x81, 0x01], &n, 0, 0).unwrap_err(), DecodeError::InvalidBitString);
    assert_eq!(decode(&[0x80], &n, 0, 0).unwrap_err(), DecodeError::InvalidBitString);
    assert_eq!(decode(&[0x62, 0x01, 0x02], &n, 0, 0).unwrap_err(), DecodeError::UnsupportedTag { tag: 6 });
    assert_eq!(decode(&[0xA4, 1, 2, 3, 4], &n, 0, 0).unwrap_err(), DecodeError::UnsupportedTag { tag: 10 });
}

#[test]
fn invalid_utf8_is_repaired() {
    let v = decode(&[0x74, 0x00, 0xFF, b'A', b'B'], &no_names(), 0, 0).unwrap();
    assert!(same(&v, &BACnetValue::String("\u{FFFD}AB".to_string())));
}

#[test]
fn decode_first_reports_length() {
    let (v, n) = decode_first(&[0x21, 0x05, 0x10], &no_names(), 0, 0).unwrap();
    assert!(same(&v, &BACnetValue::Uint(5)));
    assert_eq!(n, 2);
    let (v, n) = decode_first(&[0x11, 0x00], &no_names(), 0, 0).unwrap();
    assert!(same(&v, &BACnetValue::Bool(true)));
    assert_eq!(n, 1);
}

#[test]
fn conversions_to_text_and_unsigned() {
    assert_eq!(BACnetValue::String("abc".to_string()).try_into_string(), Ok("abc".to_string()));
    assert_eq!(BACnetValue::Enum(4, Some("four".to_string())).try_into_string(), Ok("four".to_string()));
    assert_eq!(BACnetValue::Enum(42, None).try_into_string(), Ok("42".to_string()));
    assert_eq!(BACnetValue::Enum(0, None).try_into_string(), Ok("0".to_string()));
    assert_eq!(BACnetValue::Uint(3).try_into_string(), Err(ValueError::NotText));
    assert_eq!(BACnetValue::Uint(3).try_into_u64(), Ok(3));
    assert_eq!(BACnetValue::Int(3).try_into_u64(), Err(ValueError::NotUnsigned));
}
