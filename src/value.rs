//! Record values, their wire type codes and their byte encodings: the
//! particle bytes a bin holds, and the MessagePack form used inside
//! collection operations.
use vstd::prelude::*;

use crate::buffer::{
    be_bytes, emitted, fits, lemma_be_len, lemma_emitted_concat, lemma_emitted_none, ByteSink,
};
use crate::errors::Error;

verus! {

/// A record value.
#[derive(Debug, PartialEq, Eq)]
pub enum Value {
    Nil,
    Int(i64),
    String(String),
    Blob(Vec<u8>),
    List(Vec<Value>),
    /// A map, its entries in the order given. The encoding keeps that
    /// order and every entry; keeping the keys distinct is the caller's part.
    HashMap(Vec<(Value, Value)>),
}

pub const PARTICLE_NULL: u8 = 0;
pub const PARTICLE_INTEGER: u8 = 1;
pub const PARTICLE_STRING: u8 = 3;
pub const PARTICLE_BLOB: u8 = 4;
pub const PARTICLE_MAP: u8 = 19;
pub const PARTICLE_LIST: u8 = 20;

/// The wire type code of a value.
pub open spec fn particle_type_of(v: Value) -> u8 {
    match v {
        Value::Nil => PARTICLE_NULL,
        Value::Int(_) => PARTICLE_INTEGER,
        Value::String(_) => PARTICLE_STRING,
        Value::Blob(_) => PARTICLE_BLOB,
        Value::List(_) => PARTICLE_LIST,
        Value::HashMap(_) => PARTICLE_MAP,
    }
}

/// The two's complement form of `i` as an unsigned 64-bit number.
pub open spec fn twos(i: i64) -> nat {
    if i >= 0 {
        i as nat
    } else {
        (i + 0x1_0000_0000_0000_0000) as nat
    }
}

/// The UTF-8 bytes of a string.
pub open spec fn utf8_of(s: Seq<char>) -> Seq<u8> {
    vstd::utf8::encode_utf8(s)
}

/// MessagePack integer, in its shortest form.
pub open spec fn packed_int(i: i64) -> Seq<u8> {
    if i >= 0 {
        if i < 128 {
            seq![i as u8]
        } else if i < 0x100 {
            seq![0xccu8] + be_bytes(i as nat, 1)
        } else if i < 0x1_0000 {
            seq![0xcdu8] + be_bytes(i as nat, 2)
        } else if i < 0x1_0000_0000 {
            seq![0xceu8] + be_bytes(i as nat, 4)
        } else {
            seq![0xcfu8] + be_bytes(i as nat, 8)
        }
    } else {
        if i >= -32 {
            be_bytes(twos(i), 1)
        } else if i >= -0x80 {
            seq![0xd0u8] + be_bytes(twos(i), 1)
        } else if i >= -0x8000 {
            seq![0xd1u8] + be_bytes(twos(i), 2)
        } else if i >= -0x8000_0000 {
            seq![0xd2u8] + be_bytes(twos(i), 4)
        } else {
            seq![0xd3u8] + be_bytes(twos(i), 8)
        }
    }
}

/// MessagePack string header for `n` bytes (the length field keeps the
/// low 32 bits).
pub open spec fn str_header(n: nat) -> Seq<u8> {
    header_bytes(0xa0, n, 32, Some(0xd9), 0xda, 0xdb)
}

/// MessagePack array header for `n` items.
pub open spec fn array_header(n: nat) -> Seq<u8> {
    header_bytes(0x90, n, 16, None, 0xdc, 0xdd)
}

/// MessagePack map header for `n` entries.
pub open spec fn map_header(n: nat) -> Seq<u8> {
    header_bytes(0x80, n, 16, None, 0xde, 0xdf)
}

/// A string or blob: its header counts the type code byte that follows it.
pub open spec fn packed_bytes(code: u8, b: Seq<u8>) -> Seq<u8> {
    str_header(b.len() + 1) + seq![code] + b
}

/// The MessagePack form of a value.
pub open spec fn packed(v: Value) -> Seq<u8>
    decreases v,
{
    match v {
        Value::Nil => seq![0xc0u8],
        Value::Int(i) => packed_int(i),
        Value::String(s) => packed_bytes(PARTICLE_STRING, utf8_of(s@)),
        Value::Blob(b) => packed_bytes(PARTICLE_BLOB, b@),
        Value::List(l) => array_header(l@.len()) + packed_from(l@, 0),
        Value::HashMap(m) => map_header(m@.len()) + pairs_from(m@, 0),
    }
}

/// The MessagePack forms of `s[i..]`, one after the other.
pub open spec fn packed_from(s: Seq<Value>, i: int) -> Seq<u8>
    decreases s, s.len() - i,
{
    if 0 <= i < s.len() {
        packed(s[i]) + packed_from(s, i + 1)
    } else {
        seq![]
    }
}

/// The MessagePack forms of the entries `s[i..]`, key before value.
pub open spec fn pairs_from(s: Seq<(Value, Value)>, i: int) -> Seq<u8>
    decreases s, s.len() - i,
{
    if 0 <= i < s.len() {
        packed(s[i].0) + packed(s[i].1) + pairs_from(s, i + 1)
    } else {
        seq![]
    }
}

/// The bytes of a value as a bin or a key holds them: an integer as eight
/// big-endian bytes, a string as UTF-8, a blob as is, a collection in
/// MessagePack form, nil as nothing.
pub open spec fn particle_bytes(v: Value) -> Seq<u8> {
    match v {
        Value::Nil => seq![],
        Value::Int(i) => be_bytes(twos(i), 8),
        Value::String(s) => utf8_of(s@),
        Value::Blob(b) => b@,
        Value::List(_) => packed(v),
        Value::HashMap(_) => packed(v),
    }
}

fn write_code_be(sink: &mut ByteSink, code: u8, x: u64, n: usize) -> (r: Result<(), Error>)
    requires
        old(sink).wf(),
    ensures
        final(sink).wf(),
        (seq![code] + be_bytes(x as nat, n as nat)).len() == n + 1,
        match r {
            Ok(()) => emitted(old(sink)@, final(sink)@, seq![code] + be_bytes(x as nat, n as nat)),
            Err(e) => !fits(old(sink)@, n as nat + 1) && e is InvalidArgument,
        },
{
    proof {
        lemma_be_len(x as nat, n as nat);
    }
    let ghost s0 = sink@;
    sink.write_u8(code)?;
    let ghost s1 = sink@;
    sink.write_be(x, n)?;
    proof {
        lemma_emitted_concat(s0, s1, sink@, seq![code], be_bytes(x as nat, n as nat));
    }
    Ok(())
}

fn twos_exec(i: i64) -> (u: u64)
    ensures
        u as nat == twos(i),
{
    if i >= 0 {
        i as u64
    } else {
        0xffff_ffff_ffff_ffffu64 - (-(i + 1)) as u64
    }
}

/// Writes a MessagePack header (see `header_bytes`).
fn write_header(
    sink: &mut ByteSink,
    small: u8,
    n: u64,
    small_limit: u64,
    code8: Option<u8>,
    code16: u8,
    code32: u8,
) -> (r: Result<(), Error>)
    requires
        old(sink).wf(),
        small_limit <= 32,
        small as int + small_limit <= 256,
    ensures
        final(sink).wf(),
        match r {
            Ok(()) => emitted(
                old(sink)@,
                final(sink)@,
                header_bytes(small, n as nat, small_limit as nat, code8, code16, code32),
            ),
            Err(e) => (!fits(
                old(sink)@,
                header_bytes(small, n as nat, small_limit as nat, code8, code16, code32).len(),
            )) && e is InvalidArgument,
        },
{
    if n < small_limit {
        sink.write_u8((small as u64 + n) as u8)?;
    } else {
        let use8 = match code8 {
            Some(_) => n < 0x100,
            None => false,
        };
        if use8 {
            let c = match code8 {
                Some(c) => c,
                None => 0,
            };
            write_code_be(sink, c, n, 1)?;
        } else if n < 0x1_0000 {
            write_code_be(sink, code16, n, 2)?;
        } else {
            write_code_be(sink, code32, n, 4)?;
        }
    }
    Ok(())
}

/// A MessagePack header: one byte below `small_limit`, else a code byte
/// and a one-, two- or four-byte big-endian length.
pub open spec fn header_bytes(
    small: u8,
    n: nat,
    small_limit: nat,
    code8: Option<u8>,
    code16: u8,
    code32: u8,
) -> Seq<u8> {
    if n < small_limit {
        seq![(small + n) as u8]
    } else if code8 is Some && n < 0x100 {
        seq![code8->0] + be_bytes(n, 1)
    } else if n < 0x1_0000 {
        seq![code16] + be_bytes(n, 2)
    } else {
        seq![code32] + be_bytes(n, 4)
    }
}

/// Writes the MessagePack form of an integer.
pub fn pack_int(sink: &mut ByteSink, i: i64) -> (r: Result<(), Error>)
    requires
        old(sink).wf(),
    ensures
        final(sink).wf(),
        match r {
            Ok(()) => emitted(old(sink)@, final(sink)@, packed_int(i)),
            Err(e) => !fits(old(sink)@, packed_int(i).len()) && e is InvalidArgument,
        },
{
    let u = twos_exec(i);
    if i >= 0 {
        if i < 128 {
            sink.write_u8(i as u8)?;
        } else if i < 0x100 {
            write_code_be(sink, 0xcc, u, 1)?;
        } else if i < 0x1_0000 {
            write_code_be(sink, 0xcd, u, 2)?;
        } else if i < 0x1_0000_0000 {
            write_code_be(sink, 0xce, u, 4)?;
        } else {
            write_code_be(sink, 0xcf, u, 8)?;
        }
    } else {
        if i >= -32 {
            sink.write_be(u, 1)?;
        } else if i >= -0x80 {
            write_code_be(sink, 0xd0, u, 1)?;
        } else if i >= -0x8000 {
            write_code_be(sink, 0xd1, u, 2)?;
        } else if i >= -0x8000_0000 {
            write_code_be(sink, 0xd2, u, 4)?;
        } else {
            write_code_be(sink, 0xd3, u, 8)?;
        }
    }
    Ok(())
}

fn overflow() -> (e: Error)
    ensures
        e is InvalidArgument,
{
    Error::InvalidArgument("Encoded size overflows".to_owned())
}

/// Writes a string or blob: header, type code, bytes.
fn pack_bytes(sink: &mut ByteSink, code: u8, b: &[u8]) -> (r: Result<(), Error>)
    requires
        old(sink).wf(),
    ensures
        final(sink).wf(),
        match r {
            Ok(()) => emitted(old(sink)@, final(sink)@, packed_bytes(code, b@)),
            Err(e) => !fits(old(sink)@, packed_bytes(code, b@).len()) && e is InvalidArgument,
        },
{
    if b.len() == usize::MAX {
        return Err(overflow());
    }
    let n = b.len() as u64 + 1;
    let ghost s0 = sink@;
    write_header(sink, 0xa0, n, 32, Some(0xd9), 0xda, 0xdb)?;
    let ghost s1 = sink@;
    sink.write_u8(code)?;
    let ghost s2 = sink@;
    sink.write_bytes(b)?;
    proof {
        let h = str_header(b@.len() + 1);
        lemma_emitted_concat(s0, s1, s2, h, seq![code]);
        lemma_emitted_concat(s0, s2, sink@, h + seq![code], b@);
    }
    Ok(())
}

/// Writes the MessagePack form of a value.
pub fn pack_value(sink: &mut ByteSink, v: &Value) -> (r: Result<(), Error>)
    requires
        old(sink).wf(),
    ensures
        final(sink).wf(),
        match r {
            Ok(()) => emitted(old(sink)@, final(sink)@, packed(*v)),
            Err(e) => !fits(old(sink)@, packed(*v).len()) && e is InvalidArgument,
        },
    decreases v,
{
    let ghost s0 = sink@;
    match v {
        Value::Nil => {
            sink.write_u8(0xc0)?;
        },
        Value::Int(i) => {
            pack_int(sink, *i)?;
        },
        Value::String(st) => {
            pack_bytes(sink, PARTICLE_STRING, st.as_str().as_bytes())?;
        },
        Value::Blob(b) => {
            pack_bytes(sink, PARTICLE_BLOB, b.as_slice())?;
        },
        Value::List(l) => {
            proof {
                assert(decreases_to!(*v => *l));
                vstd::std_specs::vec::axiom_vec_decreases_to_view(*l);
            }
            pack_list(sink, l.as_slice())?;
        },
        Value::HashMap(m) => {
            proof {
                assert(decreases_to!(*v => *m));
                vstd::std_specs::vec::axiom_vec_decreases_to_view(*m);
            }
            pack_map(sink, m.as_slice())?;
        },
    }
    Ok(())
}

/// Writes a MessagePack array header for `n` items.
pub fn write_array_header(sink: &mut ByteSink, n: usize) -> (r: Result<(), Error>)
    requires
        old(sink).wf(),
    ensures
        final(sink).wf(),
        match r {
            Ok(()) => emitted(old(sink)@, final(sink)@, array_header(n as nat)),
            Err(e) => !fits(old(sink)@, array_header(n as nat).len()) && e is InvalidArgument,
        },
{
    write_header(sink, 0x90, n as u64, 16, None, 0xdc, 0xdd)
}

/// Writes a MessagePack array of values.
pub fn pack_list(sink: &mut ByteSink, l: &[Value]) -> (r: Result<(), Error>)
    requires
        old(sink).wf(),
    ensures
        final(sink).wf(),
        match r {
            Ok(()) => emitted(old(sink)@, final(sink)@, array_header(l@.len()) + packed_from(l@, 0)),
            Err(e) => !fits(old(sink)@, (array_header(l@.len()) + packed_from(l@, 0)).len()) && e is InvalidArgument,
        },
    decreases l@,
{
    let ghost s0 = sink@;
    write_header(sink, 0x90, l.len() as u64, 16, None, 0xdc, 0xdd)?;
    let ghost s1 = sink@;
    let ghost h = array_header(l@.len());
    let ghost mut done: Seq<u8> = seq![];
    proof {
        lemma_emitted_none(s1);
        assert(packed_from(l@, 0) =~= done + packed_from(l@, 0));
    }
    let mut i: usize = 0;
    while i < l.len()
        invariant
            i <= l@.len(),
            sink.wf(),
            s0 == old(sink)@,
            emitted(s0, s1, h),
            emitted(s1, sink@, done),
            done + packed_from(l@, i as int) == packed_from(l@, 0),
            h == array_header(l@.len()),
        decreases l@.len() - i,
    {
        let ghost sb = sink@;
        assert(packed_from(l@, i as int) == packed(l@[i as int]) + packed_from(l@, i + 1));
        assert((h + packed_from(l@, 0)).len() == h.len() + done.len() + packed(l@[i as int]).len()
            + packed_from(l@, i + 1).len());
        proof {
            vstd::seq::axiom_seq_index_decreases(l@, i as int);
        }
        pack_value(sink, &l[i])?;
        proof {
            lemma_emitted_concat(s1, sb, sink@, done, packed(l@[i as int]));
            assert(done + packed(l@[i as int]) + packed_from(l@, i + 1) =~= done + packed_from(l@, i as int));
            done = done + packed(l@[i as int]);
        }
        i = i + 1;
    }
    proof {
        assert(done =~= packed_from(l@, 0));
        lemma_emitted_concat(s0, s1, sink@, h, done);
    }
    Ok(())
}

/// Writes a MessagePack map of entries, in the order given.
pub fn pack_map(sink: &mut ByteSink, m: &[(Value, Value)]) -> (r: Result<(), Error>)
    requires
        old(sink).wf(),
    ensures
        final(sink).wf(),
        match r {
            Ok(()) => emitted(old(sink)@, final(sink)@, map_header(m@.len()) + pairs_from(m@, 0)),
            Err(e) => !fits(old(sink)@, (map_header(m@.len()) + pairs_from(m@, 0)).len()) && e is InvalidArgument,
        },
    decreases m@,
{
    let ghost s0 = sink@;
    write_header(sink, 0x80, m.len() as u64, 16, None, 0xde, 0xdf)?;
    let ghost s1 = sink@;
    let ghost h = map_header(m@.len());
    let ghost mut done: Seq<u8> = seq![];
    proof {
        lemma_emitted_none(s1);
        assert(pairs_from(m@, 0) =~= done + pairs_from(m@, 0));
    }
    let mut i: usize = 0;
    while i < m.len()
        invariant
            i <= m@.len(),
            sink.wf(),
            s0 == old(sink)@,
            emitted(s0, s1, h),
            emitted(s1, sink@, done),
            done + pairs_from(m@, i as int) == pairs_from(m@, 0),
            h == map_header(m@.len()),
        decreases m@.len() - i,
    {
        let ghost sb = sink@;
        let ghost e = m@[i as int];
        assert(pairs_from(m@, i as int) == packed(e.0) + packed(e.1) + pairs_from(m@, i + 1));
        assert((h + pairs_from(m@, 0)).len() == h.len() + done.len() + packed(e.0).len() + packed(
            e.1,
        ).len() + pairs_from(m@, i + 1).len());
        proof {
            vstd::seq::axiom_seq_index_decreases(m@, i as int);
            assert(decreases_to!(m@[i as int] => e.0));
        }
        pack_value(sink, &m[i].0)?;
        let ghost sc = sink@;
        pack_value(sink, &m[i].1)?;
        proof {
            lemma_emitted_concat(s1, sb, sc, done, packed(e.0));
            lemma_emitted_concat(s1, sc, sink@, done + packed(e.0), packed(e.1));
            assert(done + packed(e.0) + packed(e.1) + pairs_from(m@, i + 1) =~= done + pairs_from(m@, i as int));
            done = done + packed(e.0) + packed(e.1);
        }
        i = i + 1;
    }
    proof {
        assert(done =~= pairs_from(m@, 0));
        lemma_emitted_concat(s0, s1, sink@, h, done);
    }
    Ok(())
}

/// Writes the particle bytes of a value.
fn write_particle(sink: &mut ByteSink, v: &Value) -> (r: Result<(), Error>)
    requires
        old(sink).wf(),
    ensures
        final(sink).wf(),
        match r {
            Ok(()) => emitted(old(sink)@, final(sink)@, particle_bytes(*v)),
            Err(e) => !fits(old(sink)@, particle_bytes(*v).len()) && e is InvalidArgument,
        },
{
    match v {
        Value::Nil => {
            proof {
                lemma_emitted_none(sink@);
            }
        },
        Value::Int(i) => {
            sink.write_be(twos_exec(*i), 8)?;
        },
        Value::String(st) => {
            sink.write_bytes(st.as_str().as_bytes())?;
        },
        Value::Blob(b) => {
            sink.write_bytes(b.as_slice())?;
        },
        Value::List(_) => {
            pack_value(sink, v)?;
        },
        Value::HashMap(_) => {
            pack_value(sink, v)?;
        },
    }
    Ok(())
}

impl Value {
    /// The wire type code of the value.
    pub fn particle_type(&self) -> (r: u8)
        ensures
            r == particle_type_of(*self),
    {
        match self {
            Value::Nil => PARTICLE_NULL,
            Value::Int(_) => PARTICLE_INTEGER,
            Value::String(_) => PARTICLE_STRING,
            Value::Blob(_) => PARTICLE_BLOB,
            Value::List(_) => PARTICLE_LIST,
            Value::HashMap(_) => PARTICLE_MAP,
        }
    }

    /// The number of particle bytes of the value, found by a counting
    /// run of `write_to`.
    pub fn estimate_size(&self) -> (r: Result<usize, Error>)
        ensures
            match r {
                Ok(n) => n == particle_bytes(*self).len(),
                Err(e) => particle_bytes(*self).len() > usize::MAX && e is InvalidArgument,
            },
    {
        let mut sink = ByteSink::counter();
        write_particle(&mut sink, self)?;
        Ok(sink.count())
    }

    /// Writes the particle bytes of the value and returns their number.
    pub fn write_to(&self, sink: &mut ByteSink) -> (r: Result<usize, Error>)
        requires
            old(sink).wf(),
        ensures
            final(sink).wf(),
            match r {
                Ok(n) => n == particle_bytes(*self).len() && emitted(
                    old(sink)@,
                    final(sink)@,
                    particle_bytes(*self),
                ),
                Err(e) => !fits(old(sink)@, particle_bytes(*self).len()) && e is InvalidArgument,
            },
    {
        let before = sink.count();
        write_particle(sink, self)?;
        Ok(sink.count() - before)
    }

    /// The particle bytes of the value.
    pub fn as_bytes(&self) -> (r: Result<Vec<u8>, Error>)
        ensures
            match r {
                Ok(b) => b@ == particle_bytes(*self),
                Err(e) => particle_bytes(*self).len() > usize::MAX && e is InvalidArgument,
            },
    {
        let mut sink = ByteSink::new();
        write_particle(&mut sink, self)?;
        assert(seq![] + particle_bytes(*self) =~= particle_bytes(*self));
        Ok(sink.into_data())
    }
}

} // verus!
