use aerospike::buffer::ByteSink;
use aerospike::operations::{
    CdtArgument, CdtOpType, CdtOperation, Operation, OperationBin, OperationData, OperationType,
};
use aerospike::value::Value;
use aerospike::Error;

fn encode(op: &Operation) -> Vec<u8> {
    let mut s = ByteSink::new();
    let n = op.write_to(&mut s).unwrap();
    let data = s.into_data();
    assert_eq!(n, data.len());
    data
}

#[test]
fn write_of_integer_value() {
    let v = Value::Int(10);
    let op = Operation { op: OperationType::Write, bin: OperationBin::Name("bin"), data: OperationData::Value(&v) };
    assert_eq!(op.estimate_size().unwrap(), 11);
    assert_eq!(
        encode(&op),
        vec![0, 0, 0, 15, 2, 1, 0, 3, b'b', b'i', b'n', 0, 0, 0, 0, 0, 0, 0, 10]
    );
}

#[test]
fn read_of_all_bins() {
    let op = Operation { op: OperationType::Read, bin: OperationBin::All, data: OperationData::NoData };
    assert_eq!(op.estimate_size().unwrap(), 0);
    assert_eq!(encode(&op), vec![0, 0, 0, 4, 1, 0, 0, 0]);
}

#[test]
fn touch_without_bin() {
    let op = Operation { op: OperationType::Touch, bin: OperationBin::NoBin, data: OperationData::NoData };
    assert_eq!(encode(&op), vec![0, 0, 0, 4, 11, 0, 0, 0]);
}

#[test]
fn list_sub_operation_is_a_blob() {
    let v = Value::Int(5);
    let cdt = CdtOperation { op: CdtOpType::ListAppend, args: vec![CdtArgument::Value(&v)] };
    let op = Operation { op: OperationType::CdtWrite, bin: OperationBin::Name("l"), data: OperationData::CdtListOp(cdt) };
    assert_eq!(op.estimate_size().unwrap(), 5);
    assert_eq!(encode(&op), vec![0, 0, 0, 9, 4, 4, 0, 1, b'l', 0, 1, 0x91, 5]);
}

#[test]
fn map_sub_operation_arguments() {
    let entries = [(Value::Int(1), Value::String("a".to_string()))];
    let items = [Value::Int(7)];
    let cdt = CdtOperation {
        op: CdtOpType::MapPutItems,
        args: vec![
            CdtArgument::Byte(3),
            CdtArgument::Int(-1),
            CdtArgument::HashMap(&entries),
            CdtArgument::List(&items),
        ],
    };
    let op = Operation { op: OperationType::CdtWrite, bin: OperationBin::Name("m"), data: OperationData::CdtMapOp(cdt) };
    let bytes = encode(&op);
    assert_eq!(
        &bytes[8..],
        &[b'm', 0, 68, 0x94, 3, 0xff, 0x81, 1, 0xa2, 3, b'a', 0x91, 7]
    );
    assert_eq!(op.estimate_size().unwrap() + 8, bytes.len());
}

#[test]
fn sub_operation_without_arguments() {
    let cdt = CdtOperation { op: CdtOpType::MapSize, args: vec![] };
    let op = Operation { op: OperationType::CdtRead, bin: OperationBin::Name("m"), data: OperationData::CdtMapOp(cdt) };
    assert_eq!(encode(&op), vec![0, 0, 0, 7, 3, 4, 0, 1, b'm', 0, 96]);
}

#[test]
fn length_prefix_counts_the_bytes_after_it() {
    let v = Value::String("hello".to_string());
    for op in [
        Operation { op: OperationType::Append, bin: OperationBin::Name("b"), data: OperationData::Value(&v) },
        Operation { op: OperationType::Prepend, bin: OperationBin::NoBin, data: OperationData::Value(&v) },
        Operation { op: OperationType::Incr, bin: OperationBin::Name("counter"), data: OperationData::NoData },
    ] {
        let bytes = encode(&op);
        let declared = u32::from_be_bytes([bytes[0], bytes[1], bytes[2], bytes[3]]) as usize;
        assert_eq!(declared, bytes.len() - 4);
        assert_eq!(bytes.len(), op.estimate_size().unwrap() + 8);
    }
}

#[test]
fn bin_name_longer_than_255_bytes_is_refused() {
    let name = "n".repeat(256);
    let op = Operation { op: OperationType::Read, bin: OperationBin::Name(&name), data: OperationData::NoData };
    let mut s = ByteSink::new();
    assert!(matches!(op.write_to(&mut s), Err(Error::InvalidArgument(_))));
    assert_eq!(s.count(), 0);
    assert!(s.data().is_empty());
    let name = "n".repeat(255);
    let op = Operation { op: OperationType::Read, bin: OperationBin::Name(&name), data: OperationData::NoData };
    assert_eq!(encode(&op)[7], 255);
}

#[test]
fn operation_codes() {
    assert_eq!(OperationType::Read.code(), 1);
    assert_eq!(OperationType::Append.code(), 9);
    assert_eq!(OperationType::Touch.code(), 11);
    assert_eq!(CdtOpType::ListGetRange.code(), 18);
    assert_eq!(CdtOpType::MapGetByRankRange.code(), 106);
}
