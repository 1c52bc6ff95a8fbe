use ifconnect::error::PayloadError;
use ifconnect::typed_value::{
    i32_le_bytes, i64_le_bytes, read_bool, read_le_f32, read_le_f64, read_le_i32, read_le_i64,
    u32_le_bytes, u64_le_bytes, Type, TypedValue,
};

fn round_trip(value: TypedValue, kind: Type) -> TypedValue {
    TypedValue::from_bytes(kind, &value.to_bytes_vec()).expect("decodes")
}

#[test]
fn integer32_has_four_little_endian_bytes() {
    assert_eq!(TypedValue::Integer32(42).to_bytes_vec(), vec![42, 0, 0, 0]);
    assert_eq!(TypedValue::Integer32(0x0102_0304).to_bytes_vec(), vec![4, 3, 2, 1]);
    assert_eq!(TypedValue::Integer32(-2).to_bytes_vec(), vec![0xfe, 0xff, 0xff, 0xff]);
    assert_eq!(TypedValue::Integer32(i32::MIN).to_bytes_vec(), vec![0, 0, 0, 0x80]);
    assert_eq!(TypedValue::Integer32(i32::MAX).to_bytes_vec(), vec![0xff, 0xff, 0xff, 0x7f]);
}

#[test]
fn long_has_eight_little_endian_bytes() {
    assert_eq!(
        TypedValue::Long(0x0102_0304_0506_0708).to_bytes_vec(),
        vec![8, 7, 6, 5, 4, 3, 2, 1]
    );
    assert_eq!(TypedValue::Long(-1).to_bytes_vec(), vec![0xff; 8]);
    assert_eq!(TypedValue::Long(i64::MIN).to_bytes_vec(), vec![0, 0, 0, 0, 0, 0, 0, 0x80]);
}

#[test]
fn boolean_is_a_32_bit_zero_or_one() {
    assert_eq!(TypedValue::Boolean(true).to_bytes_vec(), vec![1, 0, 0, 0]);
    assert_eq!(TypedValue::Boolean(false).to_bytes_vec(), vec![0, 0, 0, 0]);
}

#[test]
fn floats_travel_as_their_bit_patterns() {
    assert_eq!(TypedValue::Float(1.0f32.to_bits()).to_bytes_vec(), 1.0f32.to_le_bytes().to_vec());
    assert_eq!(TypedValue::Float(1.0f32.to_bits()).to_bytes_vec(), vec![0, 0, 0x80, 0x3f]);
    assert_eq!(
        TypedValue::Double((-2.5f64).to_bits()).to_bytes_vec(),
        (-2.5f64).to_le_bytes().to_vec()
    );
    assert_eq!(
        TypedValue::Double(1.0f64.to_bits()).to_bytes_vec(),
        vec![0, 0, 0, 0, 0, 0, 0xf0, 0x3f]
    );
}

#[test]
fn text_travels_as_utf8_without_a_length() {
    assert_eq!(TypedValue::String("abc".to_string()).to_bytes_vec(), vec![b'a', b'b', b'c']);
    assert_eq!(TypedValue::String(String::new()).to_bytes_vec(), Vec::<u8>::new());
    assert_eq!(
        TypedValue::String("é✓".to_string()).to_bytes_vec(),
        vec![0xc3, 0xa9, 0xe2, 0x9c, 0x93]
    );
}

#[test]
fn integer_bytes_agree_with_std() {
    for v in [0i32, 1, -1, 255, 256, -256, 65_535, 16_777_216, i32::MAX, i32::MIN, 123_456_789] {
        assert_eq!(i32_le_bytes(v), v.to_le_bytes().to_vec());
        assert_eq!(read_le_i32(&v.to_le_bytes()), v);
    }
    for v in [0i64, 1, -1, i64::MAX, i64::MIN, 0x1234_5678_9abc_def0, -0x1234_5678_9abc] {
        assert_eq!(i64_le_bytes(v), v.to_le_bytes().to_vec());
        assert_eq!(read_le_i64(&v.to_le_bytes()), v);
    }
    for v in [0u32, 1, 0x8000_0000, u32::MAX, 0xdead_beef] {
        assert_eq!(u32_le_bytes(v), v.to_le_bytes().to_vec());
        assert_eq!(read_le_f32(&v.to_le_bytes()), v);
    }
    for v in [0u64, 1, 0x8000_0000_0000_0000, u64::MAX, 0xdead_beef_0bad_f00d] {
        assert_eq!(u64_le_bytes(v), v.to_le_bytes().to_vec());
        assert_eq!(read_le_f64(&v.to_le_bytes()), v);
    }
}

#[test]
fn readers_take_the_first_bytes_only() {
    assert_eq!(read_le_i32(&[1, 0, 0, 0, 9, 9]), 1);
    assert_eq!(read_le_i64(&[2, 0, 0, 0, 0, 0, 0, 0, 9]), 2);
    assert!(read_bool(&[0, 0, 1, 0]));
    assert!(read_bool(&[1, 0, 0, 0]));
    assert!(!read_bool(&[0, 0, 0, 0]));
}

#[test]
fn every_fixed_width_type_round_trips() {
    assert!(matches!(round_trip(TypedValue::Boolean(true), Type::Boolean), TypedValue::Boolean(true)));
    assert!(matches!(round_trip(TypedValue::Boolean(false), Type::Boolean), TypedValue::Boolean(false)));
    for v in [0i32, 42, -42, i32::MIN, i32::MAX] {
        assert!(matches!(round_trip(TypedValue::Integer32(v), Type::Integer32), TypedValue::Integer32(w) if w == v));
    }
    for v in [0i64, 42, -42, i64::MIN, i64::MAX] {
        assert!(matches!(round_trip(TypedValue::Long(v), Type::Long), TypedValue::Long(w) if w == v));
    }
    for v in [0.0f32, -0.0, 1.5, f32::MAX, f32::MIN_POSITIVE, f32::INFINITY, f32::NAN] {
        match round_trip(TypedValue::Float(v.to_bits()), Type::Float) {
            TypedValue::Float(bits) => assert_eq!(bits, v.to_bits()),
            other => panic!("not a float: {:?}", other),
        }
    }
    for v in [0.0f64, -0.0, 3.141592653589793, f64::MAX, f64::NEG_INFINITY, f64::NAN] {
        match round_trip(TypedValue::Double(v.to_bits()), Type::Double) {
            TypedValue::Double(bits) => assert_eq!(bits, v.to_bits()),
            other => panic!("not a double: {:?}", other),
        }
    }
}

#[test]
fn text_of_any_length_round_trips() {
    for text in ["", "a", "infiniteflight/cameras/0/name", "日本語 ✈ émoji 🛫", "line\nbreak\0nul"] {
        match round_trip(TypedValue::String(text.to_string()), Type::String) {
            TypedValue::String(s) => assert_eq!(s, text),
            other => panic!("not text: {:?}", other),
        }
    }
    let long: String = std::iter::repeat("xyzß").take(10_000).collect();
    match round_trip(TypedValue::String(long.clone()), Type::String) {
        TypedValue::String(s) => assert_eq!(s, long),
        other => panic!("not text: {:?}", other),
    }
}

#[test]
fn a_double_decodes_to_the_number_sent() {
    let x = 250.125f64;
    match TypedValue::from_bytes(Type::Double, &x.to_le_bytes()) {
        Ok(TypedValue::Double(bits)) => assert_eq!(f64::from_bits(bits), x),
        other => panic!("unexpected: {:?}", other),
    }
}

#[test]
fn a_fixed_width_value_needs_exactly_its_width() {
    for kind in [Type::Boolean, Type::Integer32, Type::Float] {
        assert!(matches!(TypedValue::from_bytes(kind, &[1, 2, 3]), Err(PayloadError::WrongLength)));
        assert!(matches!(TypedValue::from_bytes(kind, &[1, 2, 3, 4, 5]), Err(PayloadError::WrongLength)));
        assert!(matches!(TypedValue::from_bytes(kind, &[]), Err(PayloadError::WrongLength)));
        assert!(TypedValue::from_bytes(kind, &[1, 2, 3, 4]).is_ok());
    }
    for kind in [Type::Double, Type::Long] {
        assert!(matches!(TypedValue::from_bytes(kind, &[1, 2, 3, 4]), Err(PayloadError::WrongLength)));
        assert!(matches!(TypedValue::from_bytes(kind, &[0; 9]), Err(PayloadError::WrongLength)));
        assert!(TypedValue::from_bytes(kind, &[0; 8]).is_ok());
    }
}

#[test]
fn text_that_is_not_utf8_is_refused() {
    assert!(matches!(TypedValue::from_bytes(Type::String, &[0xff]), Err(PayloadError::InvalidUtf8)));
    assert!(matches!(
        TypedValue::from_bytes(Type::String, &[b'a', 0xc3]),
        Err(PayloadError::InvalidUtf8)
    ));
    assert!(matches!(
        TypedValue::from_bytes(Type::String, &[0xed, 0xa0, 0x80]),
        Err(PayloadError::InvalidUtf8)
    ));
    match TypedValue::from_bytes(Type::String, &[0xc3, 0xa9]) {
        Ok(TypedValue::String(s)) => assert_eq!(s, "é"),
        other => panic!("unexpected: {:?}", other),
    }
}

#[test]
fn a_boolean_is_true_unless_all_bytes_are_zero() {
    assert!(matches!(TypedValue::from_bytes(Type::Boolean, &[0, 0, 0, 0]), Ok(TypedValue::Boolean(false))));
    assert!(matches!(TypedValue::from_bytes(Type::Boolean, &[1, 0, 0, 0]), Ok(TypedValue::Boolean(true))));
    assert!(matches!(TypedValue::from_bytes(Type::Boolean, &[0, 0, 0, 1]), Ok(TypedValue::Boolean(true))));
}

#[test]
fn tags_zero_to_five_name_the_six_types() {
    assert_eq!(Type::from_tag(0), Some(Type::Boolean));
    assert_eq!(Type::from_tag(1), Some(Type::Integer32));
    assert_eq!(Type::from_tag(2), Some(Type::Float));
    assert_eq!(Type::from_tag(3), Some(Type::Double));
    assert_eq!(Type::from_tag(4), Some(Type::String));
    assert_eq!(Type::from_tag(5), Some(Type::Long));
    assert_eq!(Type::from_tag(6), None);
    assert_eq!(Type::from_tag(9), None);
    assert_eq!(Type::from_tag(-1), None);
}

#[test]
fn widths_are_four_eight_or_told_by_the_frame() {
    assert_eq!(Type::Boolean.width(), Some(4));
    assert_eq!(Type::Integer32.width(), Some(4));
    assert_eq!(Type::Float.width(), Some(4));
    assert_eq!(Type::Double.width(), Some(8));
    assert_eq!(Type::Long.width(), Some(8));
    assert_eq!(Type::String.width(), None);
}

#[test]
fn a_clone_is_the_same_value() {
    let v = TypedValue::String("abc".to_string());
    assert!(matches!(v.clone(), TypedValue::String(s) if s == "abc"));
    assert!(matches!(TypedValue::Long(7).clone(), TypedValue::Long(7)));
}
