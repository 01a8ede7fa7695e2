use aerospike::key::{compute_digest, Key};
use aerospike::value::Value;
use aerospike::Error;

#[test]
fn digest_of_integer_key() {
    let v = Value::Int(1);
    let key = Key::new("ns", "test", &v).unwrap();
    assert_eq!(
        key.digest,
        vec![245, 248, 111, 61, 72, 85, 173, 255, 232, 222, 249, 160, 217, 2, 250, 199, 31, 87, 139, 143]
    );
    assert_eq!(key.namespace, "ns");
    assert_eq!(key.set_name, "test");
    assert_eq!(key.to_string(), "ns");
}

#[test]
fn digest_of_string_key() {
    let v = Value::String("key".to_string());
    assert_eq!(
        compute_digest("test", &v).unwrap(),
        vec![251, 74, 109, 20, 155, 171, 216, 101, 132, 169, 44, 211, 160, 205, 240, 167, 6, 163, 181, 227]
    );
}

#[test]
fn digest_of_blob_key_with_empty_set() {
    let v = Value::Blob(vec![1, 2, 3]);
    assert_eq!(
        compute_digest("", &v).unwrap(),
        vec![20, 14, 25, 11, 146, 120, 17, 82, 52, 154, 60, 111, 34, 112, 255, 63, 182, 26, 41, 123]
    );
}

#[test]
fn digest_of_negative_integer_key() {
    let v = Value::Int(-1);
    assert_eq!(
        compute_digest("s", &v).unwrap(),
        vec![74, 80, 204, 65, 250, 240, 126, 5, 152, 200, 254, 7, 84, 13, 103, 71, 112, 28, 91, 129]
    );
}

#[test]
fn digest_is_deterministic() {
    let a = Value::String("same".to_string());
    let b = Value::String("same".to_string());
    let da = compute_digest("set", &a).unwrap();
    let db = compute_digest("set", &b).unwrap();
    assert_eq!(da, db);
    assert_eq!(da.len(), 20);
    assert_ne!(da, compute_digest("other", &a).unwrap());
}

#[test]
fn nil_and_map_keys_are_refused() {
    assert!(matches!(Key::new("ns", "s", &Value::Nil), Err(Error::ParameterError(_))));
    let m = Value::HashMap(vec![(Value::Int(1), Value::Int(2))]);
    assert!(matches!(Key::new("ns", "s", &m), Err(Error::ParameterError(_))));
    assert!(matches!(compute_digest("s", &Value::HashMap(vec![])), Err(Error::ParameterError(_))));
}
