//! A byte sink for the request encoders. One sink type serves both passes
//! of encoding: a counting sink only adds up sizes, an emitting sink also
//! keeps the bytes, so both passes run the very same code.
use vstd::prelude::*;

use crate::errors::Error;

verus! {

/// The state of a sink: the bytes it holds, how many bytes were written
/// to it, and whether it only counts.
pub struct SinkView {
    pub data: Seq<u8>,
    pub count: nat,
    pub counting: bool,
}

/// Writing `bytes` took the sink from `a` to `b`.
pub open spec fn emitted(a: SinkView, b: SinkView, bytes: Seq<u8>) -> bool {
    &&& b.count == a.count + bytes.len()
    &&& b.counting == a.counting
    &&& b.data == if a.counting {
        a.data
    } else {
        a.data + bytes
    }
}

/// `n` more bytes fit in the sink's size counter.
pub open spec fn fits(a: SinkView, n: nat) -> bool {
    a.count + n <= usize::MAX
}

/// `x` as `n` big-endian bytes (the low `n` bytes of `x`).
pub open spec fn be_bytes(x: nat, n: nat) -> Seq<u8>
    decreases n,
{
    if n == 0 {
        seq![]
    } else {
        be_bytes(x / 256, (n - 1) as nat) + seq![(x % 256) as u8]
    }
}

/// The number that big-endian bytes denote.
pub open spec fn be_value(s: Seq<u8>) -> nat
    decreases s.len(),
{
    if s.len() == 0 {
        0
    } else {
        be_value(s.drop_last()) * 256 + s.last() as nat
    }
}

pub proof fn lemma_be_len(x: nat, n: nat)
    ensures
        be_bytes(x, n).len() == n,
    decreases n,
{
    if n > 0 {
        lemma_be_len(x / 256, (n - 1) as nat);
    }
}

pub open spec fn pow256(n: nat) -> nat
    decreases n,
{
    if n == 0 {
        1
    } else {
        256 * pow256((n - 1) as nat)
    }
}

/// Reading back `n` big-endian bytes of `x` gives `x` when it fits.
pub proof fn lemma_be_round_trip(x: nat, n: nat)
    requires
        x < pow256(n),
    ensures
        be_bytes(x, n).len() == n,
        be_value(be_bytes(x, n)) == x,
    decreases n,
{
    if n > 0 {
        assert(x / 256 < pow256((n - 1) as nat)) by (nonlinear_arith)
            requires
                x < 256 * pow256((n - 1) as nat),
        ;
        lemma_be_round_trip(x / 256, (n - 1) as nat);
        let b = be_bytes(x, n);
        assert(b.drop_last() =~= be_bytes(x / 256, (n - 1) as nat));
    }
}

/// A byte sink that either keeps what is written or only counts it.
pub struct ByteSink {
    data: Vec<u8>,
    count: usize,
    counting: bool,
}

impl View for ByteSink {
    type V = SinkView;

    closed spec fn view(&self) -> SinkView {
        SinkView { data: self.data@, count: self.count as nat, counting: self.counting }
    }
}

impl ByteSink {
    /// An emitting sink always holds exactly the bytes it counted, and the
    /// count fits a `usize`.
    pub open spec fn wf(&self) -> bool {
        &&& !self@.counting ==> self@.data.len() == self@.count
        &&& self@.count <= usize::MAX
    }

    /// An empty sink that keeps the bytes written to it.
    pub fn new() -> (r: Self)
        ensures
            r@ == (SinkView { data: seq![], count: 0, counting: false }),
            r.wf(),
    {
        ByteSink { data: Vec::new(), count: 0, counting: false }
    }

    /// An empty sink that only counts the bytes written to it.
    pub fn counter() -> (r: Self)
        ensures
            r@ == (SinkView { data: seq![], count: 0, counting: true }),
            r.wf(),
    {
        ByteSink { data: Vec::new(), count: 0, counting: true }
    }

    /// The number of bytes written so far.
    pub fn count(&self) -> (r: usize)
        ensures
            r == self@.count,
    {
        self.count
    }

    /// The bytes kept so far.
    pub fn data(&self) -> (r: &Vec<u8>)
        ensures
            r@ == self@.data,
    {
        &self.data
    }

    /// Takes the bytes kept so far out of the sink.
    pub fn into_data(self) -> (r: Vec<u8>)
        ensures
            r@ == self@.data,
    {
        self.data
    }

    fn reserve(&mut self, n: usize) -> (r: Result<(), Error>)
        ensures
            final(self)@ == old(self)@,
            r is Ok <==> fits(old(self)@, n as nat),
            r matches Err(e) ==> e is InvalidArgument,
    {
        if self.count > usize::MAX - n {
            Err(Error::InvalidArgument("Encoded size overflows".to_owned()))
        } else {
            Ok(())
        }
    }

    /// Writes `b`; fails, writing nothing, if the count would overflow.
    pub fn write_bytes(&mut self, b: &[u8]) -> (r: Result<usize, Error>)
        requires
            old(self).wf(),
        ensures
            final(self).wf(),
            match r {
                Ok(n) => n == b@.len() && emitted(old(self)@, final(self)@, b@),
                Err(e) => !fits(old(self)@, b@.len()) && final(self)@ == old(self)@
                    && e is InvalidArgument,
            },
    {
        self.reserve(b.len())?;
        if !self.counting {
            let mut i: usize = 0;
            while i < b.len()
                invariant
                    i <= b@.len(),
                    !self.counting,
                    self.count == old(self).count,
                    self.data@ == old(self).data@ + b@.subrange(0, i as int),
                decreases b.len() - i,
            {
                self.data.push(b[i]);
                i = i + 1;
                assert(self.data@ =~= old(self).data@ + b@.subrange(0, i as int));
            }
            assert(b@.subrange(0, b@.len() as int) =~= b@);
        }
        self.count = self.count + b.len();
        Ok(b.len())
    }

    /// Writes one byte.
    pub fn write_u8(&mut self, x: u8) -> (r: Result<usize, Error>)
        requires
            old(self).wf(),
        ensures
            final(self).wf(),
            match r {
                Ok(n) => n == 1 && emitted(old(self)@, final(self)@, seq![x]),
                Err(e) => !fits(old(self)@, 1) && final(self)@ == old(self)@ && e is InvalidArgument,
            },
    {
        let b = [x];
        assert(b@ =~= seq![x]);
        self.write_bytes(&b)
    }

    /// Writes the low `n` bytes of `x`, most significant first.
    pub fn write_be(&mut self, x: u64, n: usize) -> (r: Result<usize, Error>)
        requires
            old(self).wf(),
        ensures
            final(self).wf(),
            be_bytes(x as nat, n as nat).len() == n,
            match r {
                Ok(k) => k == n && emitted(old(self)@, final(self)@, be_bytes(x as nat, n as nat)),
                Err(e) => !fits(old(self)@, n as nat) && final(self)@ == old(self)@
                    && e is InvalidArgument,
            },
    {
        let b = be_vec(x, n);
        self.write_bytes(b.as_slice())
    }
}

fn be_vec(x: u64, n: usize) -> (r: Vec<u8>)
    ensures
        r@ == be_bytes(x as nat, n as nat),
        r@.len() == n,
    decreases n,
{
    if n == 0 {
        Vec::new()
    } else {
        let mut v = be_vec(x / 256, n - 1);
        v.push((x % 256) as u8);
        v
    }
}


/// Two writes in a row emit the two byte strings one after the other.
pub proof fn lemma_emitted_concat(a: SinkView, b: SinkView, c: SinkView, x: Seq<u8>, y: Seq<u8>)
    requires
        emitted(a, b, x),
        emitted(b, c, y),
    ensures
        emitted(a, c, x + y),
{
    if !a.counting {
        assert(c.data =~= a.data + (x + y));
    }
}

pub proof fn lemma_emitted_none(a: SinkView)
    ensures
        emitted(a, a, seq![]),
{
    assert(a.data + seq![] =~= a.data);
}

} // verus!
