use kv::{KVError, KvPair, Value};

#[test]
fn conversions_succeed_on_matching_variant() {
    assert_eq!(Value::from_string("x").try_into_string(), Ok("x".to_string()));
    assert_eq!(Value::from_integer(9).try_into_integer(), Ok(9));
    assert_eq!(Value::from_float_bits(5u64).try_into_float_bits(), Ok(5u64));
    assert_eq!(Value::from_boolean(true).try_into_boolean(), Ok(true));
    assert_eq!(Value::from_binary(vec![1u8]).try_into_binary(), Ok(vec![1u8]));
}

#[test]
fn conversions_fail_on_mismatched_variant() {
    match Value::from_string("x").try_into_integer() {
        Err(KVError::ConvertError(v, target)) => {
            assert_eq!(v, Value::from_string("x"));
            assert_eq!(target, "Integer");
        },
        other => panic!("expected a convert error, got {:?}", other),
    }
    assert!(Value::from_integer(1).try_into_string().is_err());
    assert!(Value::Empty.try_into_boolean().is_err());
    assert!(Value::from_boolean(false).try_into_float_bits().is_err());
    assert!(Value::from_integer(1).try_into_binary().is_err());
}

#[test]
fn convert_error_maps_to_internal_response() {
    let e = match Value::from_string("x").try_into_integer() {
        Err(e) => e,
        Ok(_) => panic!("expected an error"),
    };
    let res = e.into_response();
    assert_eq!(res.status, 500);
    assert_eq!(res.message, "Cannot convert value to Integer");
}

#[test]
fn error_responses_carry_status_and_text() {
    let res = KVError::NotFound("t".to_string(), "k".to_string()).into_response();
    assert_eq!(res.status, 404);
    assert_eq!(res.message, "Not found for table: t, key: k");
    assert!(res.values.is_empty() && res.pairs.is_empty());

    let res = KVError::InvalidCommand("nope".to_string()).into_response();
    assert_eq!(res.status, 400);
    assert_eq!(res.message, "Command is invalid: `nope`");

    let res = KVError::StorageError("GET", "t".to_string(), "k".to_string(), "oops".to_string())
        .into_response();
    assert_eq!(res.status, 500);
    assert_eq!(res.message, "Cannot process command GET with table: t, key: k. Error: oops");

    let res = KVError::EncodeError.into_response();
    assert_eq!(res.status, 500);
    assert_eq!(res.message, "Failed to encode protobuf message");

    let res = KVError::DecodeError.into_response();
    assert_eq!(res.status, 500);
    assert_eq!(res.message, "Failed to decode protobuf message");

    let res = KVError::InternalError("boom".to_string()).into_response();
    assert_eq!(res.status, 500);
    assert_eq!(res.message, "Internal error: boom");
}

#[test]
fn default_value_is_empty() {
    assert_eq!(Value::default(), Value::Empty);
}

#[test]
fn kv_pair_orders_by_key() {
    let a = KvPair::new("a", Value::from_integer(2));
    let b = KvPair::new("b", Value::from_integer(1));
    assert!(a < b);
}
