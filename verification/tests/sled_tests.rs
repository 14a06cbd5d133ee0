use kv::{dispatch, CommandRequest, KvPair, SledDb, Storage, Value};

fn open_fresh(name: &str) -> SledDb {
    let nanos = std::time::SystemTime::now()
        .duration_since(std::time::UNIX_EPOCH)
        .unwrap()
        .as_nanos();
    let path = format!("/tmp/kv_sled_test_{}_{}", name, nanos);
    SledDb::new(&path).expect("open sled database")
}

#[test]
fn sled_set_then_get_returns_value() {
    let mut store = open_fresh("set_get");
    assert_eq!(store.set("t", "k".to_string(), Value::from_integer(5)), Ok(None));
    assert_eq!(store.get("t", "k"), Ok(Some(Value::from_integer(5))));
    assert_eq!(
        store.set("t", "k".to_string(), Value::from_integer(6)),
        Ok(Some(Value::from_integer(5)))
    );
    assert_eq!(store.get("t", "k"), Ok(Some(Value::from_integer(6))));
}

#[test]
fn sled_unwritten_key_is_absent() {
    let mut store = open_fresh("absent");
    assert_eq!(store.get("t", "nope"), Ok(None));
    assert_eq!(store.contains("t", "nope"), Ok(false));
    assert_eq!(store.del("t", "nope"), Ok(None));
}

#[test]
fn sled_delete_then_get_is_absent() {
    let mut store = open_fresh("del");
    store.set("t", "k".to_string(), Value::from_string("v")).unwrap();
    assert_eq!(store.del("t", "k"), Ok(Some(Value::from_string("v"))));
    assert_eq!(store.get("t", "k"), Ok(None));
}

#[test]
fn sled_get_all_strips_the_prefix() {
    let mut store = open_fresh("get_all");
    store.set("score", "u1".to_string(), Value::from_integer(10)).unwrap();
    store.set("score", "u2".to_string(), Value::from_integer(8)).unwrap();
    store.set("other", "x".to_string(), Value::from_integer(1)).unwrap();

    let mut pairs = store.get_all("score").unwrap();
    pairs.sort_by(|a, b| a.partial_cmp(b).unwrap());
    assert_eq!(
        pairs,
        vec![
            KvPair::new("u1", Value::from_integer(10)),
            KvPair::new("u2", Value::from_integer(8)),
        ]
    );
}

#[test]
fn sled_works_behind_dispatch() {
    let mut store = open_fresh("dispatch");
    let res = dispatch(CommandRequest::new_hset("t1", "k1", Value::from_string("v1")),
        &mut store);
    assert_eq!(res.status, 200);
    assert_eq!(res.values, vec![Value::default()]);

    let res = dispatch(CommandRequest::new_hget("t1", "k1"), &mut store);
    assert_eq!(res.status, 200);
    assert_eq!(res.values, vec![Value::from_string("v1")]);

    let res = dispatch(CommandRequest::new_hget("t1", "missing"), &mut store);
    assert_eq!(res.status, 404);
    assert!(res.message.contains("Not found"));
}

#[test]
fn sled_values_survive_all_variants() {
    let mut store = open_fresh("variants");
    let values = vec![
        Value::from_string("text"),
        Value::from_integer(-12),
        Value::from_float_bits(2.75f64.to_bits()),
        Value::from_boolean(true),
        Value::from_binary(vec![0u8, 255]),
        Value::Empty,
    ];
    for (i, v) in values.iter().enumerate() {
        let key = format!("k{}", i);
        store.set("t", key, v.clone()).unwrap();
    }
    for (i, v) in values.iter().enumerate() {
        let key = format!("k{}", i);
        assert_eq!(store.get("t", &key), Ok(Some(v.clone())));
    }
}
