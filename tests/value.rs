use aerospike::buffer::ByteSink;
use aerospike::value::{pack_int, pack_value, Value};

fn packed_int(i: i64) -> Vec<u8> {
    let mut s = ByteSink::new();
    pack_int(&mut s, i).unwrap();
    s.into_data()
}

fn packed(v: &Value) -> Vec<u8> {
    let mut s = ByteSink::new();
    pack_value(&mut s, v).unwrap();
    s.into_data()
}

#[test]
fn msgpack_integers() {
    assert_eq!(packed_int(0), vec![0x00]);
    assert_eq!(packed_int(127), vec![0x7f]);
    assert_eq!(packed_int(128), vec![0xcc, 0x80]);
    assert_eq!(packed_int(256), vec![0xcd, 0x01, 0x00]);
    assert_eq!(packed_int(65536), vec![0xce, 0x00, 0x01, 0x00, 0x00]);
    assert_eq!(packed_int(1 << 32), vec![0xcf, 0, 0, 0, 1, 0, 0, 0, 0]);
    assert_eq!(packed_int(-1), vec![0xff]);
    assert_eq!(packed_int(-32), vec![0xe0]);
    assert_eq!(packed_int(-33), vec![0xd0, 0xdf]);
    assert_eq!(packed_int(-129), vec![0xd1, 0xff, 0x7f]);
    assert_eq!(packed_int(-32769), vec![0xd2, 0xff, 0xff, 0x7f, 0xff]);
    assert_eq!(packed_int(i64::MIN), vec![0xd3, 0x80, 0, 0, 0, 0, 0, 0, 0]);
}

#[test]
fn msgpack_values() {
    assert_eq!(packed(&Value::Nil), vec![0xc0]);
    assert_eq!(packed(&Value::String("ab".to_string())), vec![0xa3, 3, b'a', b'b']);
    assert_eq!(packed(&Value::Blob(vec![9])), vec![0xa2, 4, 9]);
    assert_eq!(
        packed(&Value::List(vec![Value::Int(1), Value::Nil])),
        vec![0x92, 0x01, 0xc0]
    );
    assert_eq!(
        packed(&Value::HashMap(vec![(Value::Int(1), Value::Int(2))])),
        vec![0x81, 0x01, 0x02]
    );
    let long = Value::String("x".repeat(40));
    let p = packed(&long);
    assert_eq!(&p[..3], &[0xd9, 41, 3]);
    assert_eq!(p.len(), 43);
    let many = Value::List((0..20).map(Value::Int).collect());
    let p = packed(&many);
    assert_eq!(&p[..3], &[0xdc, 0, 20]);
}

#[test]
fn particle_bytes_and_types() {
    assert_eq!(Value::Int(10).as_bytes().unwrap(), vec![0, 0, 0, 0, 0, 0, 0, 10]);
    assert_eq!(Value::Int(-2).as_bytes().unwrap(), vec![0xff; 7].into_iter().chain([0xfe]).collect::<Vec<u8>>());
    assert_eq!(Value::String("hé".to_string()).as_bytes().unwrap(), "hé".as_bytes().to_vec());
    assert_eq!(Value::Nil.as_bytes().unwrap(), Vec::<u8>::new());
    assert_eq!(Value::List(vec![Value::Int(3)]).as_bytes().unwrap(), vec![0x91, 3]);
    assert_eq!(Value::Int(10).estimate_size().unwrap(), 8);
    assert_eq!(Value::Nil.particle_type(), 0);
    assert_eq!(Value::Int(1).particle_type(), 1);
    assert_eq!(Value::String(String::new()).particle_type(), 3);
    assert_eq!(Value::Blob(vec![]).particle_type(), 4);
    assert_eq!(Value::HashMap(vec![]).particle_type(), 19);
    assert_eq!(Value::List(vec![]).particle_type(), 20);
}

#[test]
fn counting_sink_keeps_no_bytes() {
    let mut s = ByteSink::counter();
    pack_value(&mut s, &Value::String("abc".to_string())).unwrap();
    assert_eq!(s.count(), 5);
    assert!(s.data().is_empty());
}
