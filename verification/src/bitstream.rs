//! Dense streams of booleans, one bit per position, backing the per-byte
//! permission tags. Storage is bitvec's packed representation; every
//! operation used by the buffer logic is wrapped with a contract over the
//! stream's sequence of booleans.

use vstd::prelude::*;

verus! {

/// An owned, growable stream of booleans.
#[verifier::external_body]
pub struct BitBuf {
    bits: bitvec::vec::BitVec,
}

/// The booleans an owned stream holds, in order.
pub uninterp spec fn bit_buf_bits(b: BitBuf) -> Seq<bool>;

/// A borrowed view of a contiguous run of booleans.
#[verifier::external_body]
pub struct BitRef<'a> {
    bits: &'a bitvec::slice::BitSlice,
}

/// The booleans a borrowed view designates, in order.
pub uninterp spec fn bit_ref_bits(b: BitRef) -> Seq<bool>;

impl View for BitBuf {
    type V = Seq<bool>;

    open spec fn view(&self) -> Seq<bool> {
        bit_buf_bits(*self)
    }
}

impl<'a> View for BitRef<'a> {
    type V = Seq<bool>;

    open spec fn view(&self) -> Seq<bool> {
        bit_ref_bits(*self)
    }
}

impl BitBuf {
    /// Relies on bitvec::vec::BitVec::new: a fresh vector holds no bits.
    #[verifier::external_body]
    pub fn new() -> (r: BitBuf)
        ensures
            bit_buf_bits(r) == Seq::<bool>::empty(),
    {
        BitBuf { bits: bitvec::vec::BitVec::new() }
    }

    /// Relies on bitvec::vec::BitVec::len: the number of bits held.
    #[verifier::external_body]
    pub fn len(&self) -> (n: usize)
        ensures
            n == bit_buf_bits(*self).len(),
    {
        self.bits.len()
    }

    /// Relies on bitvec::vec::BitVec::push: appends one bit at the end.
    #[verifier::external_body]
    pub fn push(&mut self, v: bool)
        ensures
            bit_buf_bits(*final(self)) == bit_buf_bits(*old(self)).push(v),
    {
        self.bits.push(v)
    }

    /// Relies on bitvec's Index on BitSlice: reads the bit at `i`.
    #[verifier::external_body]
    pub fn get(&self, i: usize) -> (v: bool)
        requires
            i < bit_buf_bits(*self).len(),
        ensures
            v == bit_buf_bits(*self)[i as int],
    {
        self.bits[i]
    }

    /// Relies on bitvec::vec::BitVec::as_bitslice: views the held bits.
    #[verifier::external_body]
    pub fn as_bits<'a>(&'a self) -> (r: BitRef<'a>)
        ensures
            bit_ref_bits(r) == bit_buf_bits(*self),
    {
        BitRef { bits: self.bits.as_bitslice() }
    }

    /// Relies on bitvec::vec::BitVec::extend_from_bitslice: appends the
    /// other stream's bits, in order, after the held ones.
    #[verifier::external_body]
    pub fn extend_from(&mut self, other: &BitRef<'_>)
        ensures
            bit_buf_bits(*final(self)) == bit_buf_bits(*old(self)) + bit_ref_bits(*other),
    {
        self.bits.extend_from_bitslice(other.bits)
    }

    /// Builds a stream holding exactly the given booleans.
    pub fn from_bools(v: &[bool]) -> (r: BitBuf)
        ensures
            r@ == v@,
    {
        let mut r = BitBuf::new();
        let mut i: usize = 0;
        while i < v.len()
            invariant
                i <= v@.len(),
                r@ == v@.take(i as int),
            decreases v@.len() - i,
        {
            r.push(v[i]);
            proof {
                assert(v@.take(i as int).push(v@[i as int]) =~= v@.take(i + 1));
            }
            i = i + 1;
        }
        proof {
            assert(v@.take(v@.len() as int) =~= v@);
        }
        r
    }
}

impl<'a> BitRef<'a> {
    /// Relies on bitvec::slice::BitSlice::len: the number of bits designated.
    #[verifier::external_body]
    pub fn len(&self) -> (n: usize)
        ensures
            n == bit_ref_bits(*self).len(),
    {
        self.bits.len()
    }

    /// Relies on bitvec's Index on BitSlice: reads the bit at `i`.
    #[verifier::external_body]
    pub fn get(&self, i: usize) -> (v: bool)
        requires
            i < bit_ref_bits(*self).len(),
        ensures
            v == bit_ref_bits(*self)[i as int],
    {
        self.bits[i]
    }

    /// Relies on copying the borrowed bitvec::slice::BitSlice reference:
    /// the new view designates the same bits under a shorter lifetime.
    #[verifier::external_body]
    pub fn reborrow<'b>(&'b self) -> (r: BitRef<'b>)
        ensures
            bit_ref_bits(r) == bit_ref_bits(*self),
    {
        BitRef { bits: self.bits }
    }

    /// Relies on bitvec's Index by a range on BitSlice: narrows the view to
    /// the bits at positions `start..end`.
    #[verifier::external_body]
    pub fn subrange(&self, start: usize, end: usize) -> (r: BitRef<'a>)
        requires
            start <= end <= bit_ref_bits(*self).len(),
        ensures
            bit_ref_bits(r) == bit_ref_bits(*self).subrange(start as int, end as int),
    {
        BitRef { bits: &self.bits[start..end] }
    }

    /// Relies on bitvec::slice::BitSlice::to_bitvec: copies the designated
    /// bits into an owned stream.
    #[verifier::external_body]
    pub fn to_buf(&self) -> (r: BitBuf)
        ensures
            bit_buf_bits(r) == bit_ref_bits(*self),
    {
        BitBuf { bits: self.bits.to_bitvec() }
    }
}

} // verus!
