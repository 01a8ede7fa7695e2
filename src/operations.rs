//! Read/write operations and their binary request encoding.
use vstd::prelude::*;

use crate::buffer::{
    be_bytes, be_value, emitted, fits, lemma_be_round_trip, lemma_emitted_concat, lemma_emitted_none,
    pow256, ByteSink,
};
use crate::errors::Error;
use crate::value::{
    array_header, map_header, pack_int, write_array_header, pack_map, pack_list, pack_value, packed, packed_from,
    packed_int, pairs_from, particle_bytes, particle_type_of, utf8_of, Value, PARTICLE_BLOB,
    PARTICLE_NULL,
};

verus! {

/// The kind of an operation.
#[derive(Debug, Clone, Copy, PartialEq, Eq)]
pub enum OperationType {
    Read,
    Write,
    CdtRead,
    CdtWrite,
    Incr,
    Append,
    Prepend,
    Touch,
}

/// The wire code of an operation kind.
pub open spec fn op_type_code(t: OperationType) -> u8 {
    match t {
        OperationType::Read => 1,
        OperationType::Write => 2,
        OperationType::CdtRead => 3,
        OperationType::CdtWrite => 4,
        OperationType::Incr => 5,
        OperationType::Append => 9,
        OperationType::Prepend => 10,
        OperationType::Touch => 11,
    }
}

impl OperationType {
    /// The wire code of the operation kind.
    pub fn code(&self) -> (r: u8)
        ensures
            r == op_type_code(*self),
    {
        match self {
            OperationType::Read => 1,
            OperationType::Write => 2,
            OperationType::CdtRead => 3,
            OperationType::CdtWrite => 4,
            OperationType::Incr => 5,
            OperationType::Append => 9,
            OperationType::Prepend => 10,
            OperationType::Touch => 11,
        }
    }
}

/// The kind of a collection sub-operation.
#[derive(Debug, Clone, Copy, PartialEq, Eq)]
pub enum CdtOpType {
    ListAppend,
    ListAppendItems,
    ListInsert,
    ListInsertItems,
    ListPop,
    ListPopRange,
    ListRemove,
    ListRemoveRange,
    ListSet,
    ListTrim,
    ListClear,
    ListSize,
    ListGet,
    ListGetRange,
    MapSetType,
    MapAdd,
    MapAddItems,
    MapPut,
    MapPutItems,
    MapReplace,
    MapReplaceItems,
    MapIncrement,
    MapDecrement,
    MapClear,
    MapRemoveByKey,
    MapRemoveByIndex,
    MapRemoveByValue,
    MapRemoveByRank,
    MapRemoveByKeyList,
    MapRemoveByValueList,
    MapRemoveByKeyInterval,
    MapRemoveByIndexRange,
    MapRemoveByValueInterval,
    MapRemoveByRankRange,
    MapSize,
    MapGetByKey,
    MapGetByIndex,
    MapGetByValue,
    MapGetByRank,
    MapGetByKeyInterval,
    MapGetByIndexRange,
    MapGetByValueInterval,
    MapGetByRankRange,
}

/// The wire code of a collection sub-operation kind.
pub open spec fn cdt_op_code(t: CdtOpType) -> u16 {
    match t {
        CdtOpType::ListAppend => 1,
        CdtOpType::ListAppendItems => 2,
        CdtOpType::ListInsert => 3,
        CdtOpType::ListInsertItems => 4,
        CdtOpType::ListPop => 5,
        CdtOpType::ListPopRange => 6,
        CdtOpType::ListRemove => 7,
        CdtOpType::ListRemoveRange => 8,
        CdtOpType::ListSet => 9,
        CdtOpType::ListTrim => 10,
        CdtOpType::ListClear => 11,
        CdtOpType::ListSize => 16,
        CdtOpType::ListGet => 17,
        CdtOpType::ListGetRange => 18,
        CdtOpType::MapSetType => 64,
        CdtOpType::MapAdd => 65,
        CdtOpType::MapAddItems => 66,
        CdtOpType::MapPut => 67,
        CdtOpType::MapPutItems => 68,
        CdtOpType::MapReplace => 69,
        CdtOpType::MapReplaceItems => 70,
        CdtOpType::MapIncrement => 73,
        CdtOpType::MapDecrement => 74,
        CdtOpType::MapClear => 75,
        CdtOpType::MapRemoveByKey => 76,
        CdtOpType::MapRemoveByIndex => 77,
        CdtOpType::MapRemoveByValue => 78,
        CdtOpType::MapRemoveByRank => 79,
        CdtOpType::MapRemoveByKeyList => 81,
        CdtOpType::MapRemoveByValueList => 83,
        CdtOpType::MapRemoveByKeyInterval => 84,
        CdtOpType::MapRemoveByIndexRange => 85,
        CdtOpType::MapRemoveByValueInterval => 86,
        CdtOpType::MapRemoveByRankRange => 87,
        CdtOpType::MapSize => 96,
        CdtOpType::MapGetByKey => 97,
        CdtOpType::MapGetByIndex => 98,
        CdtOpType::MapGetByValue => 99,
        CdtOpType::MapGetByRank => 100,
        CdtOpType::MapGetByKeyInterval => 103,
        CdtOpType::MapGetByIndexRange => 104,
        CdtOpType::MapGetByValueInterval => 105,
        CdtOpType::MapGetByRankRange => 106,
    }
}

impl CdtOpType {
    /// The wire code of the sub-operation kind.
    pub fn code(&self) -> (r: u16)
        ensures
            r == cdt_op_code(*self),
    {
        match self {
            CdtOpType::ListAppend => 1,
            CdtOpType::ListAppendItems => 2,
            CdtOpType::ListInsert => 3,
            CdtOpType::ListInsertItems => 4,
            CdtOpType::ListPop => 5,
            CdtOpType::ListPopRange => 6,
            CdtOpType::ListRemove => 7,
            CdtOpType::ListRemoveRange => 8,
            CdtOpType::ListSet => 9,
            CdtOpType::ListTrim => 10,
            CdtOpType::ListClear => 11,
            CdtOpType::ListSize => 16,
            CdtOpType::ListGet => 17,
            CdtOpType::ListGetRange => 18,
            CdtOpType::MapSetType => 64,
            CdtOpType::MapAdd => 65,
            CdtOpType::MapAddItems => 66,
            CdtOpType::MapPut => 67,
            CdtOpType::MapPutItems => 68,
            CdtOpType::MapReplace => 69,
            CdtOpType::MapReplaceItems => 70,
            CdtOpType::MapIncrement => 73,
            CdtOpType::MapDecrement => 74,
            CdtOpType::MapClear => 75,
            CdtOpType::MapRemoveByKey => 76,
            CdtOpType::MapRemoveByIndex => 77,
            CdtOpType::MapRemoveByValue => 78,
            CdtOpType::MapRemoveByRank => 79,
            CdtOpType::MapRemoveByKeyList => 81,
            CdtOpType::MapRemoveByValueList => 83,
            CdtOpType::MapRemoveByKeyInterval => 84,
            CdtOpType::MapRemoveByIndexRange => 85,
            CdtOpType::MapRemoveByValueInterval => 86,
            CdtOpType::MapRemoveByRankRange => 87,
            CdtOpType::MapSize => 96,
            CdtOpType::MapGetByKey => 97,
            CdtOpType::MapGetByIndex => 98,
            CdtOpType::MapGetByValue => 99,
            CdtOpType::MapGetByRank => 100,
            CdtOpType::MapGetByKeyInterval => 103,
            CdtOpType::MapGetByIndexRange => 104,
            CdtOpType::MapGetByValueInterval => 105,
            CdtOpType::MapGetByRankRange => 106,
        }
    }
}

/// An argument of a collection sub-operation.
pub enum CdtArgument<'a> {
    Byte(u8),
    Int(i64),
    Value(&'a Value),
    List(&'a [Value]),
    /// Map entries, in the order given. The encoding keeps that order and
    /// every entry; keeping the keys distinct is the caller's part.
    HashMap(&'a [(Value, Value)]),
}

/// A collection sub-operation: its kind and its arguments.
pub struct CdtOperation<'a> {
    pub op: CdtOpType,
    pub args: Vec<CdtArgument<'a>>,
}

/// The data an operation carries.
pub enum OperationData<'a> {
    NoData,
    Value(&'a Value),
    CdtListOp(CdtOperation<'a>),
    CdtMapOp(CdtOperation<'a>),
}

/// The bin an operation applies to.
pub enum OperationBin<'a> {
    NoBin,
    All,
    Name(&'a str),
}

/// Database operation definition.
pub struct Operation<'a> {
    /// What the operation does.
    pub op: OperationType,
    /// The bin it applies to.
    pub bin: OperationBin<'a>,
    /// The value or sub-operation it carries.
    pub data: OperationData<'a>,
}

/// The MessagePack form of one sub-operation argument.
pub open spec fn cdt_arg_packed<'a>(a: CdtArgument<'a>) -> Seq<u8> {
    match a {
        CdtArgument::Byte(b) => packed_int(b as i64),
        CdtArgument::Int(i) => packed_int(i),
        CdtArgument::Value(v) => packed(*v),
        CdtArgument::List(l) => array_header(l@.len()) + packed_from(l@, 0),
        CdtArgument::HashMap(m) => map_header(m@.len()) + pairs_from(m@, 0),
    }
}

/// The MessagePack forms of `args[i..]`, one after the other.
pub open spec fn cdt_args_from<'a>(args: Seq<CdtArgument<'a>>, i: int) -> Seq<u8>
    decreases args.len() - i,
{
    if 0 <= i < args.len() {
        cdt_arg_packed(args[i]) + cdt_args_from(args, i + 1)
    } else {
        seq![]
    }
}

/// A sub-operation: its two-byte code, then its arguments as one
/// MessagePack array when there are any.
pub open spec fn cdt_packed<'a>(c: CdtOperation<'a>) -> Seq<u8> {
    be_bytes(cdt_op_code(c.op) as nat, 2) + if c.args@.len() > 0 {
        array_header(c.args@.len()) + cdt_args_from(c.args@, 0)
    } else {
        seq![]
    }
}

/// The bytes of the bin name, if the operation names a bin.
pub open spec fn bin_bytes<'a>(b: OperationBin<'a>) -> Seq<u8> {
    match b {
        OperationBin::Name(n) => utf8_of(n@),
        _ => seq![],
    }
}

/// The payload of an operation.
pub open spec fn payload<'a>(d: OperationData<'a>) -> Seq<u8> {
    match d {
        OperationData::NoData => seq![],
        OperationData::Value(v) => particle_bytes(*v),
        OperationData::CdtListOp(c) => cdt_packed(c),
        OperationData::CdtMapOp(c) => cdt_packed(c),
    }
}

/// The type code of a payload; sub-operations are opaque blobs.
pub open spec fn payload_type<'a>(d: OperationData<'a>) -> u8 {
    match d {
        OperationData::NoData => PARTICLE_NULL,
        OperationData::Value(v) => particle_type_of(*v),
        OperationData::CdtListOp(_) => PARTICLE_BLOB,
        OperationData::CdtMapOp(_) => PARTICLE_BLOB,
    }
}

/// The bin name and the payload: what the size estimate counts.
pub open spec fn op_body<'a>(op: Operation<'a>) -> Seq<u8> {
    bin_bytes(op.bin) + payload(op.data)
}

/// The 8-byte operation header: length of what follows the length field,
/// operation code, payload type, a zero byte, bin name length.
pub open spec fn op_header<'a>(op: Operation<'a>) -> Seq<u8> {
    be_bytes(op_body(op).len() + 4, 4) + seq![
        op_type_code(op.op),
        payload_type(op.data),
        0u8,
        bin_bytes(op.bin).len() as u8,
    ]
}

/// The whole encoding of an operation.
pub open spec fn op_bytes<'a>(op: Operation<'a>) -> Seq<u8> {
    op_header(op) + op_body(op)
}

/// An operation that the format can hold: a bin name of at most 255
/// bytes, and a length that fits the 32-bit length field.
pub open spec fn op_encodable<'a>(op: Operation<'a>) -> bool {
    bin_bytes(op.bin).len() <= 255 && op_body(op).len() + 4 <= u32::MAX
}

fn write_cdt_arg(sink: &mut ByteSink, a: &CdtArgument) -> (r: Result<(), Error>)
    requires
        old(sink).wf(),
    ensures
        final(sink).wf(),
        match r {
            Ok(()) => emitted(old(sink)@, final(sink)@, cdt_arg_packed(*a)),
            Err(e) => !fits(old(sink)@, cdt_arg_packed(*a).len()) && e is InvalidArgument,
        },
{
    match a {
        CdtArgument::Byte(b) => pack_int(sink, *b as i64),
        CdtArgument::Int(i) => pack_int(sink, *i),
        CdtArgument::Value(v) => pack_value(sink, v),
        CdtArgument::List(l) => pack_list(sink, l),
        CdtArgument::HashMap(m) => pack_map(sink, m),
    }
}

impl<'a> CdtOperation<'a> {
    /// Writes the sub-operation: its code, then its arguments.
    fn write_to(&self, sink: &mut ByteSink) -> (r: Result<(), Error>)
        requires
            old(sink).wf(),
        ensures
            final(sink).wf(),
            match r {
                Ok(()) => emitted(old(sink)@, final(sink)@, cdt_packed(*self)),
                Err(e) => !fits(old(sink)@, cdt_packed(*self).len()) && e is InvalidArgument,
            },
    {
        let ghost s0 = sink@;
        let ghost code = be_bytes(cdt_op_code(self.op) as nat, 2);
        sink.write_be(self.op.code() as u64, 2)?;
        let ghost s1 = sink@;
        if self.args.len() == 0 {
            assert(cdt_packed(*self) =~= code);
            return Ok(());
        }
        write_array_header(sink, self.args.len())?;
        let ghost s2 = sink@;
        let ghost h = array_header(self.args@.len());
        let ghost mut done: Seq<u8> = seq![];
        proof {
            lemma_emitted_none(s2);
            assert(cdt_args_from(self.args@, 0) =~= done + cdt_args_from(self.args@, 0));
            assert(cdt_packed(*self) == code + (h + cdt_args_from(self.args@, 0)));
        }
        let mut i: usize = 0;
        while i < self.args.len()
            invariant
                i <= self.args@.len(),
                sink.wf(),
                s0 == old(sink)@,
                emitted(s0, s1, code),
                emitted(s1, s2, h),
                emitted(s2, sink@, done),
                done + cdt_args_from(self.args@, i as int) == cdt_args_from(self.args@, 0),
                cdt_packed(*self) == code + (h + cdt_args_from(self.args@, 0)),
            decreases self.args@.len() - i,
        {
            let ghost sb = sink@;
            let ghost a = self.args@[i as int];
            assert(cdt_args_from(self.args@, i as int) == cdt_arg_packed(a) + cdt_args_from(
                self.args@,
                i + 1,
            ));
            assert(cdt_packed(*self).len() == code.len() + h.len() + done.len() + cdt_arg_packed(
                a,
            ).len() + cdt_args_from(self.args@, i + 1).len());
            write_cdt_arg(sink, &self.args[i])?;
            proof {
                lemma_emitted_concat(s2, sb, sink@, done, cdt_arg_packed(a));
                assert(done + cdt_arg_packed(a) + cdt_args_from(self.args@, i + 1) =~= done
                    + cdt_args_from(self.args@, i as int));
                done = done + cdt_arg_packed(a);
            }
            i = i + 1;
        }
        proof {
            assert(done =~= cdt_args_from(self.args@, 0));
            lemma_emitted_concat(s1, s2, sink@, h, done);
            lemma_emitted_concat(s0, s1, sink@, code, h + done);
        }
        Ok(())
    }
}

fn too_large() -> (e: Error)
    ensures
        e is InvalidArgument,
{
    Error::InvalidArgument("Operation does not fit the request format".to_owned())
}

impl<'a> Operation<'a> {
    /// Writes the bin name, if the operation names a bin. Both passes write
    /// it through here: the size estimate and the header.
    fn write_bin_name(&self, sink: &mut ByteSink) -> (r: Result<usize, Error>)
        requires
            old(sink).wf(),
        ensures
            final(sink).wf(),
            match r {
                Ok(n) => n == bin_bytes(self.bin).len() && emitted(
                    old(sink)@,
                    final(sink)@,
                    bin_bytes(self.bin),
                ),
                Err(e) => !fits(old(sink)@, bin_bytes(self.bin).len()) && e is InvalidArgument,
            },
    {
        match self.bin {
            OperationBin::Name(n) => sink.write_bytes(n.as_bytes()),
            _ => {
                proof {
                    lemma_emitted_none(sink@);
                }
                Ok(0)
            },
        }
    }

    /// Writes the payload. Both passes write it through here.
    fn write_payload(&self, sink: &mut ByteSink) -> (r: Result<(), Error>)
        requires
            old(sink).wf(),
        ensures
            final(sink).wf(),
            match r {
                Ok(()) => emitted(old(sink)@, final(sink)@, payload(self.data)),
                Err(e) => !fits(old(sink)@, payload(self.data).len()) && e is InvalidArgument,
            },
    {
        match &self.data {
            OperationData::NoData => {
                proof {
                    lemma_emitted_none(sink@);
                }
            },
            OperationData::Value(v) => {
                v.write_to(sink)?;
            },
            OperationData::CdtListOp(c) => {
                c.write_to(sink)?;
            },
            OperationData::CdtMapOp(c) => {
                c.write_to(sink)?;
            },
        }
        Ok(())
    }

    /// The number of bytes of the bin name and the payload, found by a
    /// counting run of the same code that writes them.
    pub fn estimate_size(&self) -> (r: Result<usize, Error>)
        ensures
            match r {
                Ok(n) => n == op_body(*self).len(),
                Err(e) => op_body(*self).len() > usize::MAX && e is InvalidArgument,
            },
    {
        let mut sink = ByteSink::counter();
        let ghost s0 = sink@;
        self.write_bin_name(&mut sink)?;
        let ghost s1 = sink@;
        self.write_payload(&mut sink)?;
        proof {
            lemma_emitted_concat(s0, s1, sink@, bin_bytes(self.bin), payload(self.data));
        }
        Ok(sink.count())
    }

    /// Writes the operation: its length field, code and header, then its
    /// payload. Returns the number of bytes written. Fails with
    /// `InvalidArgument`, writing nothing, where the bin name is longer
    /// than 255 bytes or the length does not fit its 32-bit field; fails
    /// likewise where the sink's count would overflow, its contents then
    /// to be discarded.
    pub fn write_to(&self, sink: &mut ByteSink) -> (r: Result<usize, Error>)
        requires
            old(sink).wf(),
        ensures
            final(sink).wf(),
            match r {
                Ok(n) => op_encodable(*self) && n == op_bytes(*self).len() && emitted(
                    old(sink)@,
                    final(sink)@,
                    op_bytes(*self),
                ),
                Err(e) => (!op_encodable(*self) || !fits(old(sink)@, op_bytes(*self).len())) && e is InvalidArgument,
            },
            !op_encodable(*self) ==> r is Err && final(sink)@ == old(sink)@,
    {
        let op_size = self.estimate_size()?;
        if op_size > 0xffff_fffb {
            return Err(too_large());
        }
        let bin_len = match self.bin {
            OperationBin::Name(n) => n.len(),
            _ => 0,
        };
        if bin_len > 255 {
            return Err(too_large());
        }
        let ghost s0 = sink@;
        let before = sink.count();
        sink.write_be(op_size as u64 + 4, 4)?;
        let ghost s1 = sink@;
        sink.write_u8(self.op.code())?;
        let ghost s2 = sink@;
        let particle_type = match &self.data {
            OperationData::NoData => PARTICLE_NULL,
            OperationData::Value(v) => v.particle_type(),
            OperationData::CdtListOp(_) => PARTICLE_BLOB,
            OperationData::CdtMapOp(_) => PARTICLE_BLOB,
        };
        self.write_op_header_to(sink, particle_type)?;
        let ghost s3 = sink@;
        self.write_payload(sink)?;
        proof {
            let len_field = be_bytes(op_body(*self).len() + 4, 4);
            let code = seq![op_type_code(self.op)];
            let rest = seq![particle_type, 0u8, bin_len as u8] + bin_bytes(self.bin);
            lemma_emitted_concat(s0, s1, s2, len_field, code);
            lemma_emitted_concat(s0, s2, s3, len_field + code, rest);
            lemma_emitted_concat(s0, s3, sink@, len_field + code + rest, payload(self.data));
            assert(len_field + code + rest + payload(self.data) =~= op_bytes(*self));
        }
        Ok(sink.count() - before)
    }

    /// Writes the payload type, a zero byte, the bin name length and the
    /// bin name; returns the number of bytes written.
    fn write_op_header_to(&self, sink: &mut ByteSink, particle_type: u8) -> (r: Result<usize, Error>)
        requires
            old(sink).wf(),
            bin_bytes(self.bin).len() <= 255,
        ensures
            final(sink).wf(),
            match r {
                Ok(n) => n == 3 + bin_bytes(self.bin).len() && emitted(
                    old(sink)@,
                    final(sink)@,
                    seq![particle_type, 0u8, bin_bytes(self.bin).len() as u8] + bin_bytes(self.bin),
                ),
                Err(e) => !fits(old(sink)@, 3 + bin_bytes(self.bin).len()) && e is InvalidArgument,
            },
    {
        let bin_len = match self.bin {
            OperationBin::Name(n) => n.len(),
            _ => 0,
        };
        let ghost s0 = sink@;
        sink.write_u8(particle_type)?;
        let ghost s1 = sink@;
        sink.write_u8(0)?;
        let ghost s2 = sink@;
        sink.write_u8(bin_len as u8)?;
        let ghost s3 = sink@;
        let n = self.write_bin_name(sink)?;
        proof {
            let l = seq![bin_len as u8];
            lemma_emitted_concat(s0, s1, s2, seq![particle_type], seq![0u8]);
            lemma_emitted_concat(s0, s2, s3, seq![particle_type] + seq![0u8], l);
            lemma_emitted_concat(s0, s3, sink@, seq![particle_type] + seq![0u8] + l, bin_bytes(self.bin));
            assert(seq![particle_type] + seq![0u8] + l =~= seq![particle_type, 0u8, bin_len as u8]);
        }
        Ok(3 + n)
    }
}

/// Encoding an operation writes exactly the bytes that its size estimate
/// counts after an 8-byte header, and the 4-byte length field at the
/// start declares the number of bytes that follow it.
pub proof fn lemma_operation_layout<'a>(op: Operation<'a>)
    requires
        op_encodable(op),
    ensures
        op_bytes(op).len() == op_body(op).len() + 8,
        op_bytes(op).subrange(8, op_bytes(op).len() as int) == op_body(op),
        be_value(op_bytes(op).subrange(0, 4)) == op_bytes(op).len() - 4,
{
    let x = op_body(op).len() + 4;
    assert(pow256(4) == 0x1_0000_0000) by {
        reveal_with_fuel(pow256, 5);
    }
    lemma_be_round_trip(x, 4);
    let b = op_bytes(op);
    assert(b.subrange(0, 4) =~= be_bytes(x, 4));
    assert(b.subrange(8, b.len() as int) =~= op_body(op));
}

} // verus!
