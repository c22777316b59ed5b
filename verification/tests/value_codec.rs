//! The typed value codec: every variant round-trips, and each malformed
//! buffer fails with the error its defect names.

use basebored::byte_deserializer::ByteError;
use basebored::data_type::{DataType, Type, TypeError};
use basebored::data_value::{Value, ValueError};
use basebored::errors::Error;

#[test]
fn bool_round_trip() {
    for b in [false, true] {
        let v = Value::Bool(b);
        let bytes = v.serialized_bytes();
        assert_eq!(bytes, vec![0u8, if b { 1 } else { 0 }]);
        assert_eq!(Value::deserialize_bytes(&bytes).unwrap(), Value::Bool(b));
    }
}

#[test]
fn int_round_trip() {
    for i in [0i64, 1, -1, 25, 30, i64::MAX, i64::MIN, -123456789] {
        let v = Value::Int(i);
        let bytes = v.serialized_bytes();
        assert_eq!(bytes.len(), 9);
        assert_eq!(bytes[0], 1);
        assert_eq!(&bytes[1..9], &i.to_be_bytes());
        assert_eq!(Value::deserialize_bytes(&bytes).unwrap(), Value::Int(i));
    }
}

#[test]
fn float_round_trip() {
    for f in [0.0f64, 1.5, -2.25, 1000.125, f64::INFINITY] {
        let v = Value::Flt(f.to_bits());
        let bytes = v.serialized_bytes();
        assert_eq!(bytes.len(), 9);
        assert_eq!(bytes[0], 2);
        assert_eq!(&bytes[1..9], &f.to_be_bytes());
        match Value::deserialize_bytes(&bytes).unwrap() {
            Value::Flt(bits) => assert_eq!(f64::from_bits(bits), f),
            other => panic!("decoded {:?}", other),
        }
    }
}

#[test]
fn str_round_trip() {
    for s in ["", "Alice", "Employees", "naïve ☃"] {
        let v = Value::Str(s.to_string());
        let bytes = v.serialized_bytes();
        assert_eq!(bytes[0], 3);
        assert_eq!(&bytes[1..5], &(s.len() as u32).to_be_bytes());
        assert_eq!(&bytes[5..], s.as_bytes());
        assert_eq!(Value::deserialize_bytes(&bytes).unwrap(), Value::Str(s.to_string()));
    }
}

#[test]
fn nil_round_trip() {
    let bytes = Value::Nil.serialized_bytes();
    assert_eq!(bytes, vec![4u8]);
    assert_eq!(Value::deserialize_bytes(&bytes).unwrap(), Value::Nil);
}

#[test]
fn empty_buffer_is_size_error() {
    assert!(matches!(
        Value::deserialize_bytes(&[]),
        Err(Error::ValueError(ValueError::InvalidSize { got: 0 }))
    ));
}

#[test]
fn bad_tag_is_type_error() {
    assert!(matches!(
        Value::deserialize_bytes(&[9, 0]),
        Err(Error::TypeError(TypeError::InvalidType { got: 9 }))
    ));
}

#[test]
fn bool_payload_other_than_zero_or_one_fails() {
    for b in [2u8, 7, 255] {
        assert!(matches!(
            Value::deserialize_bytes(&[0, b]),
            Err(Error::ByteError(ByteError::BadBoolError { value })) if value == b
        ));
    }
}

#[test]
fn wrong_length_per_kind_fails() {
    // Bool wants exactly 2 bytes, Int and Flt exactly 9, Nil exactly 1.
    assert!(matches!(
        Value::deserialize_bytes(&[0]),
        Err(Error::ValueError(ValueError::InvalidSize { got: 1 }))
    ));
    assert!(matches!(
        Value::deserialize_bytes(&[0, 1, 0]),
        Err(Error::ValueError(ValueError::InvalidSize { got: 3 }))
    ));
    assert!(matches!(
        Value::deserialize_bytes(&[1, 0, 0, 0, 0, 0, 0, 0]),
        Err(Error::ValueError(ValueError::InvalidSize { got: 8 }))
    ));
    assert!(matches!(
        Value::deserialize_bytes(&[2, 0, 0, 0, 0, 0, 0, 0, 0, 0]),
        Err(Error::ValueError(ValueError::InvalidSize { got: 10 }))
    ));
    assert!(matches!(
        Value::deserialize_bytes(&[4, 0]),
        Err(Error::ValueError(ValueError::InvalidSize { got: 2 }))
    ));
}

#[test]
fn str_length_field_must_match_buffer() {
    // Declared length 3 but only two payload bytes; and one trailing byte.
    let short = [3u8, 0, 0, 0, 3, b'a', b'b'];
    assert!(matches!(
        Value::deserialize_bytes(&short),
        Err(Error::ValueError(ValueError::InvalidSize { got: 7 }))
    ));
    let long = [3u8, 0, 0, 0, 1, b'a', b'b'];
    assert!(matches!(
        Value::deserialize_bytes(&long),
        Err(Error::ValueError(ValueError::InvalidSize { got: 7 }))
    ));
}

#[test]
fn invalid_utf8_payload_keeps_the_bytes() {
    let bad = [3u8, 0, 0, 0, 2, 0xff, 0xfe];
    match Value::deserialize_bytes(&bad) {
        Err(Error::ValueError(ValueError::InvalidUtf8Str { bytes })) => {
            assert_eq!(bytes, vec![0xff, 0xfe]);
        }
        other => panic!("expected utf8 error, got {:?}", other),
    }
}

#[test]
fn runtime_kind_and_conformance() {
    assert_eq!(Value::Bool(true).get_type(), Type::Bool);
    assert_eq!(Value::Int(1).get_type(), Type::Int);
    assert_eq!(Value::Flt(0).get_type(), Type::Flt);
    assert_eq!(Value::Str(String::new()).get_type(), Type::Str);
    assert_eq!(Value::Nil.get_type(), Type::Unknown);

    assert!(Value::Int(1).conforms_to(&Type::Int));
    assert!(!Value::Int(1).conforms_to(&Type::Str));
    // Nil conforms to every declared type.
    for t in [Type::Bool, Type::Int, Type::Flt, Type::Str, Type::Unknown] {
        assert!(Value::Nil.conforms_to(&t));
    }
}

#[test]
fn type_tag_codec() {
    let tags = [
        (Type::Bool, 0u8),
        (Type::Int, 1),
        (Type::Flt, 2),
        (Type::Str, 3),
        (Type::Unknown, 4),
    ];
    for (t, b) in tags {
        assert_eq!(t.serialized_bytes(), vec![b]);
        assert_eq!(Type::deserialize_bytes(&[b]).unwrap(), t);
    }
    assert!(matches!(
        Type::deserialize_bytes(&[5]),
        Err(Error::TypeError(TypeError::InvalidType { got: 5 }))
    ));
    assert!(matches!(
        Type::deserialize_bytes(&[0, 0]),
        Err(Error::TypeError(TypeError::InvalidSize { got: 2 }))
    ));
}

#[test]
fn public_data_type_mirrors_internal() {
    assert_eq!(DataType::from_internal_data_type(Type::Int), DataType::Int);
    assert_eq!(DataType::from_internal_data_type(Type::Flt), DataType::Flt);
    assert_eq!(DataType::from_internal_data_type(Type::Str), DataType::Str);
    assert_eq!(DataType::from_internal_data_type(Type::Bool), DataType::Bool);
    assert_eq!(DataType::Int.as_internal_data_type(), Type::Int);
    assert_eq!(DataType::Flt.as_internal_data_type(), Type::Flt);
    assert_eq!(DataType::Str.as_internal_data_type(), Type::Str);
    assert_eq!(DataType::Bool.as_internal_data_type(), Type::Bool);
}
