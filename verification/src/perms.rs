//! The permission-parallel code buffer: a byte sequence travelling together
//! with four per-byte boolean tag streams (read, write, execute, no-jump),
//! all kept at the same length, with borrowed and owned forms and a
//! streaming sink contract for incremental consumers.

use vstd::prelude::*;

use crate::bitstream::{bit_buf_bits, bit_ref_bits, BitBuf, BitRef};

verus! {

/// One of the four per-byte permission kinds.
#[derive(Clone, Copy, PartialEq, Eq, Structural, Hash, Debug)]
pub enum Perm {
    /// Permission to read the byte.
    Read,
    /// Permission to write the byte.
    Write,
    /// Permission to execute the byte.
    Exec,
    /// The byte is not a valid jump target.
    NoJump,
}

/// One value for each of the four permission kinds.
#[derive(Clone, Copy, PartialEq, Eq, Hash, Debug)]
pub struct Perms<T> {
    /// The read-permission value.
    pub r: T,
    /// The write-permission value.
    pub w: T,
    /// The execute-permission value.
    pub x: T,
    /// The no-jump value.
    pub nj: T,
}

impl<T> Perms<T> {
    /// Applies `f` to each of the four values.
    pub fn map<U, F: Fn(T) -> U>(self, f: F) -> (res: Perms<U>)
        requires
            call_requires(f, (self.r,)),
            call_requires(f, (self.w,)),
            call_requires(f, (self.x,)),
            call_requires(f, (self.nj,)),
        ensures
            call_ensures(f, (self.r,), res.r),
            call_ensures(f, (self.w,), res.w),
            call_ensures(f, (self.x,), res.x),
            call_ensures(f, (self.nj,), res.nj),
    {
        let Perms { r, w, x, nj } = self;
        Perms { r: f(r), w: f(w), x: f(x), nj: f(nj) }
    }

    /// Applies a fallible `f` to each of the four values, in the order
    /// read, write, execute, no-jump, stopping at the first failure.
    pub fn try_map<U, E, F: Fn(T) -> Result<U, E>>(self, f: F) -> (res: Result<Perms<U>, E>)
        requires
            call_requires(f, (self.r,)),
            call_requires(f, (self.w,)),
            call_requires(f, (self.x,)),
            call_requires(f, (self.nj,)),
        ensures
            res matches Ok(p) ==> call_ensures(f, (self.r,), Ok(p.r)) && call_ensures(
                f,
                (self.w,),
                Ok(p.w),
            ) && call_ensures(f, (self.x,), Ok(p.x)) && call_ensures(f, (self.nj,), Ok(p.nj)),
            res matches Err(e) ==> call_ensures(f, (self.r,), Err::<U, E>(e)) || call_ensures(
                f,
                (self.w,),
                Err::<U, E>(e),
            ) || call_ensures(f, (self.x,), Err::<U, E>(e)) || call_ensures(
                f,
                (self.nj,),
                Err::<U, E>(e),
            ),
    {
        let Perms { r, w, x, nj } = self;
        let r = match f(r) {
            Ok(v) => v,
            Err(e) => {
                return Err(e);
            },
        };
        let w = match f(w) {
            Ok(v) => v,
            Err(e) => {
                return Err(e);
            },
        };
        let x = match f(x) {
            Ok(v) => v,
            Err(e) => {
                return Err(e);
            },
        };
        let nj = match f(nj) {
            Ok(v) => v,
            Err(e) => {
                return Err(e);
            },
        };
        Ok(Perms { r, w, x, nj })
    }

    /// Borrows each of the four values.
    pub fn as_ref<'a>(&'a self) -> (res: Perms<&'a T>)
        ensures
            res.r == &self.r,
            res.w == &self.w,
            res.x == &self.x,
            res.nj == &self.nj,
    {
        Perms { r: &self.r, w: &self.w, x: &self.x, nj: &self.nj }
    }
}

/// The pairing of a byte sequence with its four tag streams, one tag
/// quadruple per byte.
pub open spec fn tagged_view(
    code: Seq<u8>,
    r: Seq<bool>,
    w: Seq<bool>,
    x: Seq<bool>,
    nj: Seq<bool>,
) -> Seq<(u8, Perms<bool>)> {
    Seq::new(code.len(), |i: int| (code[i], Perms { r: r[i], w: w[i], x: x[i], nj: nj[i] }))
}

/// A borrowed run of code bytes with the four permission streams alongside,
/// all of the same length. Built only through `new`, which checks that
/// length invariant.
pub struct InputRef<'a> {
    code: &'a [u8],
    r: BitRef<'a>,
    w: BitRef<'a>,
    x: BitRef<'a>,
    nj: BitRef<'a>,
}

impl<'a> View for InputRef<'a> {
    type V = Seq<(u8, Perms<bool>)>;

    closed spec fn view(&self) -> Seq<(u8, Perms<bool>)> {
        tagged_view(
            self.code@,
            bit_ref_bits(self.r),
            bit_ref_bits(self.w),
            bit_ref_bits(self.x),
            bit_ref_bits(self.nj),
        )
    }
}

impl<'a> InputRef<'a> {
    /// All four tag streams run exactly as long as the code. Holds of every
    /// value the public operations hand out.
    pub closed spec fn wf(&self) -> bool {
        &&& bit_ref_bits(self.r).len() == self.code@.len()
        &&& bit_ref_bits(self.w).len() == self.code@.len()
        &&& bit_ref_bits(self.x).len() == self.code@.len()
        &&& bit_ref_bits(self.nj).len() == self.code@.len()
    }

    /// Pairs code with its tag streams. Succeeds exactly when all four
    /// streams have the code's length.
    pub fn new(code: &'a [u8], perms: Perms<BitRef<'a>>) -> (res: Option<InputRef<'a>>)
        ensures
            res is Some <==> {
                &&& bit_ref_bits(perms.r).len() == code@.len()
                &&& bit_ref_bits(perms.w).len() == code@.len()
                &&& bit_ref_bits(perms.x).len() == code@.len()
                &&& bit_ref_bits(perms.nj).len() == code@.len()
            },
            res matches Some(i) ==> i.wf() && i@ == tagged_view(
                code@,
                bit_ref_bits(perms.r),
                bit_ref_bits(perms.w),
                bit_ref_bits(perms.x),
                bit_ref_bits(perms.nj),
            ),
    {
        let Perms { r, w, x, nj } = perms;
        if r.len() == code.len() && w.len() == code.len() && x.len() == code.len() && nj.len()
            == code.len() {
            Some(InputRef { code, r, w, x, nj })
        } else {
            None
        }
    }

    /// The number of bytes (and of tag quadruples).
    pub fn len(&self) -> (n: usize)
        ensures
            n == self@.len(),
    {
        self.code.len()
    }

    /// The byte-and-tags pairs, in order.
    pub fn iter(&self) -> (res: Vec<(u8, Perms<bool>)>)
        requires
            self.wf(),
        ensures
            res@ == self@,
    {
        let n = self.code.len();
        let mut res: Vec<(u8, Perms<bool>)> = Vec::new();
        let mut i: usize = 0;
        while i < n
            invariant
                self.wf(),
                n == self@.len(),
                i <= n,
                res@ == self@.take(i as int),
            decreases n - i,
        {
            let byte = *vstd::slice::slice_index_get(self.code, i);
            let tags = Perms {
                r: self.r.get(i),
                w: self.w.get(i),
                x: self.x.get(i),
                nj: self.nj.get(i),
            };
            res.push((byte, tags));
            proof {
                assert(self@.take(i as int).push(self@[i as int]) =~= self@.take(i + 1));
            }
            i = i + 1;
        }
        proof {
            assert(self@.take(n as int) =~= self@);
        }
        res
    }

    /// The same view over the byte range `range.start..range.end` of the
    /// code and of all four tag streams at once.
    pub fn subref(&self, range: core::ops::Range<usize>) -> (res: InputRef<'a>)
        requires
            self.wf(),
            range.start <= range.end <= self@.len(),
        ensures
            res.wf(),
            res@ == self@.subrange(range.start as int, range.end as int),
    {
        let start = range.start;
        let end = range.end;
        let res = InputRef {
            code: vstd::slice::slice_subrange(self.code, start, end),
            r: self.r.subrange(start, end),
            w: self.w.subrange(start, end),
            x: self.x.subrange(start, end),
            nj: self.nj.subrange(start, end),
        };
        proof {
            assert(res@ =~= self@.subrange(start as int, end as int));
        }
        res
    }

    /// The same view under a shorter borrow.
    pub fn nest<'b>(&'b self) -> (res: InputRef<'b>)
        requires
            self.wf(),
        ensures
            res.wf(),
            res@ == self@,
    {
        let res = InputRef {
            code: self.code,
            r: self.r.reborrow(),
            w: self.w.reborrow(),
            x: self.x.reborrow(),
            nj: self.nj.reborrow(),
        };
        proof {
            assert(res@ =~= self@);
        }
        res
    }
}

/// The streaming sink contract: a consumer of code with permissions.
///
/// A sink accepts some prefix of the offered view and reports how many bytes
/// it consumed. Reporting zero progress on a non-empty view is a logic
/// error, so the contract demands that a successful call on a non-empty view
/// consume at least one byte; a sink that cannot make progress fails
/// instead, and `write_all` therefore terminates.
pub trait InputStream {
    /// The sink's failure type.
    type Error;

    /// The sink's own well-formedness, maintained by every write.
    spec fn inv(&self) -> bool;

    /// Accepts some prefix of the view, returning how many bytes (with
    /// their tag quadruples) were consumed.
    fn write(&mut self, i: InputRef<'_>) -> (r: Result<usize, Self::Error>)
        requires
            old(self).inv(),
            i.wf(),
        ensures
            final(self).inv(),
            r matches Ok(n) ==> n <= i@.len() && (i@.len() > 0 ==> 1 <= n),
    ;

    /// Offers the remaining suffix to `write` until the whole view is
    /// consumed or the sink fails.
    fn write_all(&mut self, i: InputRef<'_>) -> (r: Result<(), Self::Error>)
        requires
            old(self).inv(),
            i.wf(),
        ensures
            final(self).inv(),
    {
        let mut cur = i;
        while cur.len() > 0
            invariant
                self.inv(),
                cur.wf(),
            decreases cur@.len(),
        {
            match self.write(cur.nest()) {
                Ok(n) => {
                    let l = cur.len();
                    cur = cur.subref(n..l);
                },
                Err(e) => {
                    return Err(e);
                },
            }
        }
        Ok(())
    }
}

/// An owned run of code bytes with the four permission streams alongside,
/// all of the same length. Built only through `new`, which checks that
/// length invariant; grown only through `extend` and `write`, which append
/// one tag quadruple per byte.
pub struct Input {
    code: Vec<u8>,
    r: BitBuf,
    w: BitBuf,
    x: BitBuf,
    nj: BitBuf,
}

impl View for Input {
    type V = Seq<(u8, Perms<bool>)>;

    closed spec fn view(&self) -> Seq<(u8, Perms<bool>)> {
        tagged_view(
            self.code@,
            bit_buf_bits(self.r),
            bit_buf_bits(self.w),
            bit_buf_bits(self.x),
            bit_buf_bits(self.nj),
        )
    }
}

impl Input {
    /// All four tag streams run exactly as long as the code. Holds of every
    /// value the public operations hand out, and is preserved by every
    /// operation that grows the buffer.
    pub closed spec fn wf(&self) -> bool {
        &&& bit_buf_bits(self.r).len() == self.code@.len()
        &&& bit_buf_bits(self.w).len() == self.code@.len()
        &&& bit_buf_bits(self.x).len() == self.code@.len()
        &&& bit_buf_bits(self.nj).len() == self.code@.len()
    }

    /// Takes ownership of code and tag streams. Succeeds exactly when all
    /// four streams have the code's length.
    pub fn new(code: Vec<u8>, perms: Perms<BitBuf>) -> (res: Option<Input>)
        ensures
            res is Some <==> {
                &&& bit_buf_bits(perms.r).len() == code@.len()
                &&& bit_buf_bits(perms.w).len() == code@.len()
                &&& bit_buf_bits(perms.x).len() == code@.len()
                &&& bit_buf_bits(perms.nj).len() == code@.len()
            },
            res matches Some(inp) ==> inp.wf() && inp@ == tagged_view(
                code@,
                bit_buf_bits(perms.r),
                bit_buf_bits(perms.w),
                bit_buf_bits(perms.x),
                bit_buf_bits(perms.nj),
            ),
    {
        let Perms { r, w, x, nj } = perms;
        if r.len() == code.len() && w.len() == code.len() && x.len() == code.len() && nj.len()
            == code.len() {
            Some(Input { code, r, w, x, nj })
        } else {
            None
        }
    }

    /// An empty buffer.
    pub fn empty() -> (res: Input)
        ensures
            res.wf(),
            res@ == Seq::<(u8, Perms<bool>)>::empty(),
    {
        let res = Input {
            code: Vec::new(),
            r: BitBuf::new(),
            w: BitBuf::new(),
            x: BitBuf::new(),
            nj: BitBuf::new(),
        };
        proof {
            assert(res@ =~= Seq::<(u8, Perms<bool>)>::empty());
        }
        res
    }

    /// The number of bytes (and of tag quadruples).
    pub fn len(&self) -> (n: usize)
        ensures
            n == self@.len(),
    {
        self.code.len()
    }

    /// A borrowed view of the whole buffer.
    pub fn as_ref<'a>(&'a self) -> (res: InputRef<'a>)
        requires
            self.wf(),
        ensures
            res.wf(),
            res@ == self@,
    {
        let res = InputRef {
            code: self.code.as_slice(),
            r: self.r.as_bits(),
            w: self.w.as_bits(),
            x: self.x.as_bits(),
            nj: self.nj.as_bits(),
        };
        proof {
            assert(res@ =~= self@);
        }
        res
    }

    /// Gives the five backing sequences up, in the order code, read, write,
    /// execute, no-jump.
    pub fn into_parts(self) -> (res: (Vec<u8>, BitBuf, BitBuf, BitBuf, BitBuf))
        requires
            self.wf(),
        ensures
            self@ == tagged_view(res.0@, res.1@, res.2@, res.3@, res.4@),
            res.1@.len() == res.0@.len(),
            res.2@.len() == res.0@.len(),
            res.3@.len() == res.0@.len(),
            res.4@.len() == res.0@.len(),
    {
        let Input { code, r, w, x, nj } = self;
        (code, r, w, x, nj)
    }

    /// Appends the given byte-and-tags pairs, pushing one element onto each
    /// of the five backing sequences per pair: the four streams stay exactly
    /// as long as the code.
    pub fn extend(&mut self, items: &[(u8, Perms<bool>)])
        requires
            old(self).wf(),
        ensures
            final(self).wf(),
            final(self)@ == old(self)@ + items@,
    {
        let ghost orig = self@;
        let n = items.len();
        let mut i: usize = 0;
        while i < n
            invariant
                self.wf(),
                n == items@.len(),
                i <= n,
                self@ == orig + items@.take(i as int),
            decreases n - i,
        {
            let ghost pre = *self;
            let (byte, tags) = *vstd::slice::slice_index_get(items, i);
            self.code.push(byte);
            self.r.push(tags.r);
            self.w.push(tags.w);
            self.x.push(tags.x);
            self.nj.push(tags.nj);
            proof {
                assert((byte, tags) == items@[i as int]);
                assert(pre@.len() == orig.len() + i);
                assert(pre.code@.len() == orig.len() + i);
                assert(self.code@ == pre.code@.push(byte));
                assert forall|m: int| 0 <= m < self@.len() implies self@[m] == (orig + items@.take(
                    i + 1,
                ))[m] by {
                    if m < pre@.len() {
                        assert(pre@[m] == (orig + items@.take(i as int))[m]);
                        assert(self@[m] == pre@[m]);
                    } else {
                        assert(self@[m] == (byte, Perms {
                            r: tags.r,
                            w: tags.w,
                            x: tags.x,
                            nj: tags.nj,
                        }));
                        assert(tags == (Perms { r: tags.r, w: tags.w, x: tags.x, nj: tags.nj }));
                    }
                }
                assert(self@ =~= orig + items@.take(i + 1));
            }
            i = i + 1;
        }
        proof {
            assert(orig + items@.take(n as int) =~= orig + items@);
        }
    }
}

impl<'a> InputRef<'a> {
    /// Copies the view into an owned buffer.
    pub fn to_owned(&self) -> (res: Input)
        requires
            self.wf(),
        ensures
            res.wf(),
            res@ == self@,
    {
        let res = Input {
            code: vstd::slice::slice_to_vec(self.code),
            r: self.r.to_buf(),
            w: self.w.to_buf(),
            x: self.x.to_buf(),
            nj: self.nj.to_buf(),
        };
        proof {
            assert(res@ =~= self@);
        }
        res
    }
}

impl InputStream for Input {
    type Error = ();

    /// A buffer is a well-formed sink exactly when its streams align.
    open spec fn inv(&self) -> bool {
        self.wf()
    }

    /// Consumes the whole view in one call, appending it to the buffer;
    /// never fails.
    fn write(&mut self, i: InputRef<'_>) -> (r: Result<usize, ()>)
        ensures
            r matches Ok(n) && n == i@.len(),
            final(self)@ == old(self)@ + i@,
    {
        let ghost orig = self@;
        let n = i.len();
        let mut j: usize = 0;
        while j < n
            invariant
                self.wf(),
                i.wf(),
                n == i@.len(),
                j <= n,
                self@ == orig + i@.take(j as int),
            decreases n - j,
        {
            let ghost pre = *self;
            let byte = *vstd::slice::slice_index_get(i.code, j);
            self.code.push(byte);
            self.r.push(i.r.get(j));
            self.w.push(i.w.get(j));
            self.x.push(i.x.get(j));
            self.nj.push(i.nj.get(j));
            proof {
                assert(pre@ == orig + i@.take(j as int));
                assert(pre@.len() == orig.len() + j);
                assert(pre.code@.len() == orig.len() + j);
                assert(self.code@ == pre.code@.push(byte));
                assert forall|m: int| 0 <= m < self@.len() implies self@[m] == (orig + i@.take(
                    j + 1,
                ))[m] by {
                    if m < pre@.len() {
                        assert(pre@[m] == (orig + i@.take(j as int))[m]);
                        assert(self@[m] == pre@[m]);
                    } else {
                        assert(i@[j as int] == (i.code@[j as int], Perms {
                            r: bit_ref_bits(i.r)[j as int],
                            w: bit_ref_bits(i.w)[j as int],
                            x: bit_ref_bits(i.x)[j as int],
                            nj: bit_ref_bits(i.nj)[j as int],
                        }));
                    }
                }
                assert(self@ =~= orig + i@.take(j + 1));
            }
            j = j + 1;
        }
        proof {
            assert(orig + i@.take(n as int) =~= orig + i@);
        }
        Ok(n)
    }

    /// One call of `write` consumes everything, so writing all of a view is
    /// the same single append: this override carries the same contract as
    /// `write` itself.
    fn write_all(&mut self, i: InputRef<'_>) -> (r: Result<(), ()>)
        ensures
            r is Ok,
            final(self)@ == old(self)@ + i@,
    {
        match self.write(i) {
            Ok(_) => Ok(()),
            Err(e) => Err(e),
        }
    }
}

/// A sink that consumes its input in bounded chunks: each `write` accepts at
/// most `chunk` bytes of the offered view and appends them to the inner
/// buffer. Driving a view through `write_all` accumulates exactly the same
/// bytes and tags as one unbounded write of the full view would.
pub struct ChunkSink {
    /// The buffer the consumed bytes accumulate in.
    pub inner: Input,
    /// The most bytes one `write` call accepts.
    pub chunk: usize,
}

impl InputStream for ChunkSink {
    type Error = ();

    /// A chunked sink is well-formed when its backing buffer is.
    open spec fn inv(&self) -> bool {
        self.inner.wf()
    }

    /// Consumes the first `min(chunk, len)` bytes of the view; fails only
    /// when the chunk bound is zero while input remains, since it could make
    /// no progress.
    fn write(&mut self, i: InputRef<'_>) -> (r: Result<usize, ()>)
        ensures
            final(self).chunk == old(self).chunk,
            r is Err <==> old(self).chunk == 0 && i@.len() > 0,
            r matches Ok(n) ==> n == (if i@.len() < old(self).chunk {
                i@.len() as int
            } else {
                old(self).chunk as int
            }) && final(self).inner@ == old(self).inner@ + i@.take(n as int),
            r is Err ==> final(self).inner@ == old(self).inner@,
    {
        let l = i.len();
        let n = if l < self.chunk {
            l
        } else {
            self.chunk
        };
        if n == 0 && l > 0 {
            return Err(());
        }
        let part = i.subref(0..n);
        proof {
            assert(i@.subrange(0, n as int) =~= i@.take(n as int));
        }
        match self.inner.write(part) {
            Ok(_) => Ok(n),
            Err(e) => Err(e),
        }
    }

    /// Bounded chunks compose: feeding the whole view through chunked
    /// writes accumulates exactly the view itself, as one unbounded write
    /// would have.
    fn write_all(&mut self, i: InputRef<'_>) -> (r: Result<(), ()>)
        ensures
            r is Ok <==> (old(self).chunk > 0 || i@.len() == 0),
            r is Ok ==> final(self).inner@ == old(self).inner@ + i@,
    {
        let mut cur = i.nest();
        let ghost done: int = 0;
        while cur.len() > 0
            invariant
                cur.wf(),
                self.inner.wf(),
                self.chunk == old(self).chunk,
                0 <= done,
                done + cur@.len() == i@.len(),
                cur@ == i@.subrange(done, i@.len() as int),
                self.inner@ == old(self).inner@ + i@.take(done),
                done == i@.len() ==> (old(self).chunk > 0 || i@.len() == 0),
            decreases cur@.len(),
        {
            match self.write(cur.nest()) {
                Ok(n) => {
                    let l = cur.len();
                    proof {
                        assert(i@.take(done) + cur@.take(n as int) =~= i@.take(done + n));
                        assert(cur@.subrange(n as int, l as int) =~= i@.subrange(
                            done + n,
                            i@.len() as int,
                        ));
                    }
                    cur = cur.subref(n..l);
                    proof {
                        done = done + n;
                    }
                },
                Err(e) => {
                    return Err(e);
                },
            }
        }
        proof {
            assert(i@.take(done) =~= i@);
        }
        Ok(())
    }
}

} // verus!
