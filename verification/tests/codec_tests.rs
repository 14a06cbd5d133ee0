use kv::codec::{decode_value, encode_value};
use kv::{KVError, Value};

fn round_trip(v: Value) {
    let bytes = encode_value(&v);
    assert_eq!(decode_value(&bytes), Ok(v));
}

#[test]
fn string_value_round_trips() {
    round_trip(Value::from_string(""));
    round_trip(Value::from_string("hello"));
    round_trip(Value::from_string("héllo wörld ✓"));
}

#[test]
fn integer_value_round_trips() {
    round_trip(Value::from_integer(0));
    round_trip(Value::from_integer(42));
    round_trip(Value::from_integer(-7));
    round_trip(Value::from_integer(i64::MAX));
    round_trip(Value::from_integer(i64::MIN));
}

#[test]
fn float_value_round_trips() {
    round_trip(Value::from_float_bits(3.5f64.to_bits()));
    round_trip(Value::from_float_bits(0.0f64.to_bits()));
    round_trip(Value::from_float_bits((-123.25f64).to_bits()));
    round_trip(Value::from_float_bits(f64::INFINITY.to_bits()));
}

#[test]
fn boolean_value_round_trips() {
    round_trip(Value::from_boolean(true));
    round_trip(Value::from_boolean(false));
}

#[test]
fn binary_value_round_trips() {
    round_trip(Value::from_binary(Vec::new()));
    round_trip(Value::from_binary(vec![0u8, 1, 2, 255]));
    round_trip(Value::from_binary((0..=255u8).collect()));
}

#[test]
fn empty_value_round_trips() {
    round_trip(Value::Empty);
    assert_eq!(encode_value(&Value::Empty), Vec::<u8>::new());
}

#[test]
fn exact_encodings() {
    assert_eq!(encode_value(&Value::from_integer(1)), vec![0x10u8, 0x01]);
    assert_eq!(encode_value(&Value::from_string("a")), vec![0x0au8, 0x01, 0x61]);
    assert_eq!(encode_value(&Value::from_boolean(true)), vec![0x20u8, 0x01]);
    assert_eq!(encode_value(&Value::from_binary(vec![7u8])), vec![0x2au8, 0x01, 0x07]);
    assert_eq!(
        encode_value(&Value::from_float_bits(1u64)),
        vec![0x19u8, 1, 0, 0, 0, 0, 0, 0, 0]
    );
}

#[test]
fn malformed_bytes_are_decode_errors() {
    assert_eq!(decode_value(&vec![0xffu8]), Err(KVError::DecodeError));
    assert_eq!(decode_value(&vec![0x20u8, 0x05]), Err(KVError::DecodeError));
    assert_eq!(decode_value(&vec![0x0au8, 0x05, 0x61]), Err(KVError::DecodeError));
    assert_eq!(decode_value(&vec![0x19u8, 1, 2, 3]), Err(KVError::DecodeError));
    assert_eq!(decode_value(&vec![0x0au8, 0x01, 0xff]), Err(KVError::DecodeError));
}
