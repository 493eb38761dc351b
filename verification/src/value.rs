//! Bit-width-aware value types: the power-of-two width tag, the 512-bit
//! constant store with its byte-level and bit-level views, and the tagged
//! frames that pair a width with an offset or a constant.

use vstd::prelude::*;

use crate::bitmath::{
    bit8, byte64, lemma_bit8_or_step, lemma_bit8_zero, lemma_byte64_read, lemma_byte64_zero,
    lemma_byte_or_step, lemma_high_zero_bytes,
};

verus! {

/// A power-of-two bit width, stored as its base-2 logarithm: the actual
/// width is `2^log2` bits.
#[derive(Clone, Copy, PartialEq, Eq, Structural, Hash, Debug)]
pub struct Bitness {
    /// The base-2 logarithm of the width.
    pub log2: u8,
}

/// The widths the constant store serves: 8 to 512 bits.
pub open spec fn bitness_valid(b: Bitness) -> bool {
    3 <= b.log2 <= 9
}

/// The number of bytes a width spans: `2^(log2 - 3)`.
pub open spec fn bitness_bytes(b: Bitness) -> int {
    if b.log2 == 3 {
        1
    } else if b.log2 == 4 {
        2
    } else if b.log2 == 5 {
        4
    } else if b.log2 == 6 {
        8
    } else if b.log2 == 7 {
        16
    } else if b.log2 == 8 {
        32
    } else {
        64
    }
}

impl Bitness {
    /// The number of bytes the width spans.
    pub fn byte_count(&self) -> (n: usize)
        requires
            bitness_valid(*self),
        ensures
            n == bitness_bytes(*self),
    {
        match self.log2 {
            3 => 1,
            4 => 2,
            5 => 4,
            6 => 8,
            7 => 16,
            8 => 32,
            _ => 64,
        }
    }
}

/// A constant of up to 512 bits, stored as eight 64-bit words, each word
/// little-endian, lowest word first.
#[derive(Clone, Copy, PartialEq, Eq, Hash, Debug)]
pub struct Constant {
    /// The backing store, least significant word first.
    pub data: [u64; 8],
}

/// Byte `i` of the 512-bit store (for `0 <= i < 64`).
pub open spec fn const_byte(c: Constant, i: int) -> u8 {
    byte64(c.data@[i / 8], (i % 8) as u64)
}

/// All 64 bytes of the store, in order.
pub open spec fn const_bytes(c: Constant) -> Seq<u8> {
    Seq::new(64, |i: int| const_byte(c, i))
}

/// Bit `i` of the 512-bit store, LSB of the lowest byte first (for
/// `0 <= i < 512`).
pub open spec fn const_bit(c: Constant, i: int) -> bool {
    bit8(const_byte(c, i / 8), (i % 8) as u8)
}

/// All 512 bits of the store, in order.
pub open spec fn const_bits(c: Constant) -> Seq<bool> {
    Seq::new(512, |i: int| const_bit(c, i))
}

impl Constant {
    /// The first `2^(log2 - 3)` bytes of the store, lowest first.
    pub fn bytes(&self, b: Bitness) -> (r: Vec<u8>)
        requires
            bitness_valid(b),
        ensures
            r@ == const_bytes(*self).take(bitness_bytes(b)),
    {
        let n = b.byte_count();
        let mut r: Vec<u8> = Vec::new();
        let mut i: usize = 0;
        while i < n
            invariant
                i <= n,
                n == bitness_bytes(b),
                n <= 64,
                r@ == const_bytes(*self).take(i as int),
            decreases n - i,
        {
            let q = i / 8;
            let m = i % 8;
            let w = *vstd::array::array_index_get(&self.data, q);
            let byte = ((w >> ((8 * m) as u64)) & 0xff) as u8;
            proof {
                lemma_byte64_read(w, m as u64);
                assert(byte == const_byte(*self, i as int));
            }
            r.push(byte);
            proof {
                assert(const_bytes(*self).take(i as int).push(const_byte(*self, i as int))
                    =~= const_bytes(*self).take(i + 1));
            }
            i = i + 1;
        }
        r
    }

    /// The first `2^log2` bits of the store, LSB of the lowest byte first,
    /// read off the bytes that `bytes` yields.
    pub fn bits(&self, b: Bitness) -> (r: Vec<bool>)
        requires
            bitness_valid(b),
        ensures
            r@ == const_bits(*self).take(8 * bitness_bytes(b)),
    {
        let bytes = self.bytes(b);
        let n = bytes.len();
        let nbits = 8 * n;
        let mut r: Vec<bool> = Vec::new();
        let mut i: usize = 0;
        while i < nbits
            invariant
                i <= nbits,
                nbits == 8 * bytes@.len(),
                bytes@.len() <= 64,
                bytes@ == const_bytes(*self).take(bytes@.len() as int),
                r@ == const_bits(*self).take(i as int),
            decreases nbits - i,
        {
            let byte = *vstd::slice::slice_index_get(bytes.as_slice(), i / 8);
            let bit = (byte >> ((i % 8) as u8)) & 1 == 1;
            proof {
                assert(bytes@[i as int / 8] == const_byte(*self, i as int / 8));
                assert(bit == const_bit(*self, i as int));
                assert(const_bits(*self).take(i as int).push(const_bit(*self, i as int))
                    =~= const_bits(*self).take(i + 1));
            }
            r.push(bit);
            i = i + 1;
        }
        r
    }

    /// Fills the width's bytes from the front of `s`, the rest of the store
    /// with zeros. Succeeds exactly when `s` holds enough bytes.
    pub fn from_bytes(b: Bitness, s: &[u8]) -> (res: Option<Constant>)
        requires
            bitness_valid(b),
        ensures
            res is Some <==> s@.len() >= bitness_bytes(b),
            res matches Some(c) ==> {
                &&& forall|i: int| 0 <= i < bitness_bytes(b) ==> const_byte(c, i) == s@[i]
                &&& forall|i: int| bitness_bytes(b) <= i < 64 ==> const_byte(c, i) == 0
            },
    {
        let n = b.byte_count();
        if s.len() < n {
            return None;
        }
        let mut data: [u64; 8] = [0u64; 8];
        let mut i: usize = 0;
        proof {
            assert(0u64 >> 0u64 == 0) by (bit_vector);
        }
        while i < n
            invariant
                i <= n,
                n == bitness_bytes(b),
                n <= 64,
                s@.len() >= n,
                forall|q: int| i / 8 < q < 8 ==> data@[q] == 0,
                i / 8 < 8 ==> data@[i as int / 8] >> ((8 * (i as int % 8)) as u64) == 0,
                forall|j: int| 0 <= j < i ==> #[trigger] byte64(data@[j / 8], (j % 8) as u64)
                    == s@[j],
            decreases n - i,
        {
            let q = i / 8;
            let m = i % 8;
            let byte = *vstd::slice::slice_index_get(s, i);
            let w = *vstd::array::array_index_get(&data, q);
            let nw = w | ((byte as u64) << ((8 * m) as u64));
            proof {
                lemma_byte_or_step(w, nw, byte, m as u64);
            }
            let ghost pre = data@;
            data[q] = nw;
            proof {
                assert(data@ == pre.update(q as int, nw));
                assert(0u64 >> 0u64 == 0) by (bit_vector);
                assert forall|j: int| 0 <= j < i + 1 implies #[trigger] byte64(
                    data@[j / 8],
                    (j % 8) as u64,
                ) == s@[j] by {
                    if j < i {
                        assert(byte64(pre[j / 8], (j % 8) as u64) == s@[j]);
                        if j / 8 == q {
                            assert(j % 8 < m);
                            assert(byte64(nw, (j % 8) as u64) == byte64(w, (j % 8) as u64));
                        }
                    } else {
                        assert(byte64(nw, m as u64) == byte);
                    }
                }
            }
            i = i + 1;
        }
        let c = Constant { data };
        proof {
            assert forall|i2: int| n <= i2 < 64 implies const_byte(c, i2) == 0 by {
                let q2 = i2 / 8;
                let m2 = i2 % 8;
                if q2 > n as int / 8 {
                    assert(data@[q2] == 0);
                    lemma_byte64_zero(m2 as u64);
                } else {
                    assert(q2 == n as int / 8);
                    assert(m2 >= n as int % 8);
                    lemma_high_zero_bytes(data@[q2], (n as int % 8) as u64);
                }
            }
        }
        Some(c)
    }

    /// Fills the width's bits from the front of `s`, packing them eight at
    /// a time LSB-first into bytes, the rest of the store with zeros.
    /// Succeeds exactly when `s` holds enough bits.
    pub fn from_bits(b: Bitness, s: &[bool]) -> (res: Option<Constant>)
        requires
            bitness_valid(b),
        ensures
            res is Some <==> s@.len() >= 8 * bitness_bytes(b),
            res matches Some(c) ==> {
                &&& forall|i: int| 0 <= i < 8 * bitness_bytes(b) ==> const_bit(c, i) == s@[i]
                &&& forall|i: int| 8 * bitness_bytes(b) <= i < 512 ==> !const_bit(c, i)
            },
    {
        let n = b.byte_count();
        let nbits = 8 * n;
        if s.len() < nbits {
            return None;
        }
        let mut packed: Vec<u8> = Vec::new();
        let mut bi: usize = 0;
        while bi < n
            invariant
                bi <= n,
                n == bitness_bytes(b),
                n <= 64,
                nbits == 8 * n,
                s@.len() >= nbits,
                packed@.len() == bi,
                forall|j: int, k: u8|
                    0 <= j < bi && k < 8 ==> #[trigger] bit8(packed@[j], k) == s@[8 * j + k],
            decreases n - bi,
        {
            let mut byte: u8 = 0;
            let mut k: usize = 0;
            proof {
                assert(0u8 >> 0u8 == 0) by (bit_vector);
            }
            while k < 8
                invariant
                    k <= 8,
                    bi < n,
                    n == bitness_bytes(b),
                    nbits == 8 * n,
                    s@.len() >= nbits,
                    byte >> (k as u8) == 0,
                    forall|t: u8| t < k ==> #[trigger] bit8(byte, t) == s@[8 * bi + t],
                decreases 8 - k,
            {
                let v = *vstd::slice::slice_index_get(s, 8 * bi + k);
                let nb: u8 = if v {
                    byte | (1u8 << (k as u8))
                } else {
                    byte
                };
                proof {
                    lemma_bit8_or_step(byte, nb, k as u8, v);
                }
                byte = nb;
                k = k + 1;
            }
            packed.push(byte);
            bi = bi + 1;
        }
        let res = Self::from_bytes(b, packed.as_slice());
        match res {
            Some(c) => {
                proof {
                    assert forall|i2: int| 0 <= i2 < 8 * bitness_bytes(b) implies const_bit(c, i2)
                        == s@[i2] by {
                        let j = i2 / 8;
                        let k2 = i2 % 8;
                        assert(const_byte(c, j) == packed@[j]);
                        assert(bit8(packed@[j], k2 as u8) == s@[8 * j + k2]);
                    }
                    assert forall|i2: int| 8 * bitness_bytes(b) <= i2 < 512 implies !const_bit(
                        c,
                        i2,
                    ) by {
                        let j = i2 / 8;
                        let k2 = i2 % 8;
                        assert(const_byte(c, j) == 0);
                        lemma_bit8_zero(k2 as u8);
                    }
                }
                Some(c)
            },
            None => None,
        }
    }
}

/// Byte round trip: a constant built by `from_bytes` reproduces, through
/// `bytes`, exactly the consumed prefix of its source. The hypotheses are
/// the postconditions of the two calls.
pub proof fn lemma_constant_bytes_round_trip(c: Constant, b: Bitness, s: Seq<u8>, out: Seq<u8>)
    requires
        bitness_valid(b),
        s.len() >= bitness_bytes(b),
        forall|i: int| 0 <= i < bitness_bytes(b) ==> const_byte(c, i) == s[i],
        out == const_bytes(c).take(bitness_bytes(b)),
    ensures
        out == s.take(bitness_bytes(b)),
{
    assert(out =~= s.take(bitness_bytes(b)));
}

/// Bit round trip: a constant built by `from_bits` reproduces, through
/// `bits`, exactly the consumed prefix of its source. The hypotheses are
/// the postconditions of the two calls.
pub proof fn lemma_constant_bits_round_trip(c: Constant, b: Bitness, s: Seq<bool>, out: Seq<bool>)
    requires
        bitness_valid(b),
        s.len() >= 8 * bitness_bytes(b),
        forall|i: int| 0 <= i < 8 * bitness_bytes(b) ==> const_bit(c, i) == s[i],
        out == const_bits(c).take(8 * bitness_bytes(b)),
    ensures
        out == s.take(8 * bitness_bytes(b)),
{
    assert(out =~= s.take(8 * bitness_bytes(b)));
}

/// A value with an offset or location tag and an associated bit width.
#[derive(Clone, Copy, PartialEq, Eq, Hash, Debug)]
pub struct Value<G> {
    /// The offset or location of the value.
    pub offset: G,
    /// The bit width of the value.
    pub bitness: Bitness,
}

impl<G> Value<G> {
    /// Borrows the offset, keeping the width.
    pub fn as_ref<'a>(&'a self) -> (res: Value<&'a G>)
        ensures
            res.offset == &self.offset,
            res.bitness == self.bitness,
    {
        Value { offset: &self.offset, bitness: self.bitness }
    }

    /// Maps the offset through a fallible `f`, keeping the width.
    pub fn map<G2, E, F: FnOnce(G) -> Result<G2, E>>(self, f: F) -> (res: Result<Value<G2>, E>)
        requires
            call_requires(f, (self.offset,)),
        ensures
            res matches Ok(v) ==> v.bitness == self.bitness && call_ensures(
                f,
                (self.offset,),
                Ok(v.offset),
            ),
            res matches Err(e) ==> call_ensures(f, (self.offset,), Err::<G2, E>(e)),
    {
        let Value { offset, bitness } = self;
        match f(offset) {
            Ok(o2) => Ok(Value { offset: o2, bitness }),
            Err(e) => Err(e),
        }
    }
}

/// The source or destination of a load or store: either an access at a bit
/// offset within a tagged value, or a constant read directly; both carry
/// the access width.
#[derive(Clone, Copy, PartialEq, Eq, Hash, Debug)]
pub enum LoadStoreFrame<G> {
    /// An access at `bit_offset` within `val`, `bits` wide.
    Value {
        /// The width of the access.
        bits: Bitness,
        /// The value being accessed.
        val: Value<G>,
        /// The bit offset of the access within the value.
        bit_offset: usize,
    },
    /// A constant read directly, `bits` wide.
    Constant {
        /// The width of the access.
        bits: Bitness,
        /// The constant being read.
        constant: Constant,
    },
}

impl<G> LoadStoreFrame<G> {
    /// Maps the offset of the value variant through a fallible `f`;
    /// constants pass through unchanged.
    pub fn map<G2, E, F: FnOnce(G) -> Result<G2, E>>(self, f: F) -> (res: Result<
        LoadStoreFrame<G2>,
        E,
    >)
        requires
            self matches LoadStoreFrame::Value { bits, val, bit_offset } ==> call_requires(
                f,
                (val.offset,),
            ),
        ensures
            res matches Ok(l2) ==> (match self {
                LoadStoreFrame::Value { bits, val, bit_offset } => {
                    &&& l2 matches LoadStoreFrame::Value { bits: b2, val: v2, bit_offset: o2 }
                    &&& b2 == bits
                    &&& o2 == bit_offset
                    &&& v2.bitness == val.bitness
                    &&& call_ensures(f, (val.offset,), Ok(v2.offset))
                },
                LoadStoreFrame::Constant { bits, constant } => l2 == LoadStoreFrame::<
                    G2,
                >::Constant { bits, constant },
            }),
            res matches Err(e) ==> self matches LoadStoreFrame::Value { bits, val, bit_offset }
                && call_ensures(f, (val.offset,), Err::<G2, E>(e)),
    {
        match self {
            LoadStoreFrame::Value { bits, val, bit_offset } => match val.map(f) {
                Ok(v2) => Ok(LoadStoreFrame::Value { bits, val: v2, bit_offset }),
                Err(e) => Err(e),
            },
            LoadStoreFrame::Constant { bits, constant } => Ok(
                LoadStoreFrame::Constant { bits, constant },
            ),
        }
    }

    /// Borrows the offset of the value variant, copying everything else.
    pub fn as_ref<'a>(&'a self) -> (res: LoadStoreFrame<&'a G>)
        ensures
            (self matches LoadStoreFrame::Value { bits, val, bit_offset } ==> {
                &&& res matches LoadStoreFrame::Value { bits: b2, val: v2, bit_offset: o2 }
                &&& b2 == bits
                &&& o2 == bit_offset
                &&& v2.bitness == val.bitness
                &&& v2.offset == &val.offset
            }),
            (self matches LoadStoreFrame::Constant { bits, constant } ==> res
                == (LoadStoreFrame::<&'a G>::Constant { bits: *bits, constant: *constant })),
    {
        match self {
            LoadStoreFrame::Value { bits, val, bit_offset } => LoadStoreFrame::Value {
                bits: *bits,
                val: val.as_ref(),
                bit_offset: *bit_offset,
            },
            LoadStoreFrame::Constant { bits, constant } => LoadStoreFrame::Constant {
                bits: *bits,
                constant: *constant,
            },
        }
    }
}


/// Marker for iterators whose items are drawn upon with "any" semantics.
pub trait Any: Iterator {

}

impl<T: Iterator + ?Sized> Any for T {

}

/// Marker for iterators whose items are drawn upon with "all" semantics.
pub trait All: Iterator {

}

impl<T: Iterator + ?Sized> All for T {

}

/// Marker for iterators forming an assignment chain: the first element is
/// replaced first, on to the last, which is discarded.
pub trait AssignChain: Iterator {

}

impl<T: Iterator + ?Sized> AssignChain for T {

}

} // verus!
