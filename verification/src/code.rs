//! The field codecs: packing and unpacking one logical value into an ordered
//! list of disjoint sub-ranges of a 32-bit instruction word, or of byte
//! ranges of an arbitrary byte buffer.

use core::ops::Range;
use vstd::prelude::*;

use crate::bitmath::{
    bit32, bit64, byte64, lemma_bit32_of_trunc, lemma_bit64_of_u32, lemma_byte64_read,
    lemma_byte_or_step, lemma_high_zero_bits, lemma_high_zero_bytes, lemma_mask32_bits,
    lemma_mask64_bytes, lemma_shl_one_positive, lemma_u32_eq_by_bits, lemma_u64_eq_by_bytes,
    lemma_word_read_step, lemma_word_write_step, mask32, mask64_bytes,
};
use crate::spans::{
    covered, lemma_covered_prefix_disjoint, lemma_covered_push, lemma_span_pos_covered,
    lemma_span_width_nonneg, span_pos, span_width, spans_disjoint, spans_wf,
};

verus! {

/// The bit ranges of a word codec descriptor, as plain spans.
pub open spec fn bit_spans(rs: Seq<Range<u32>>) -> Seq<(int, int)> {
    rs.map_values(|r: Range<u32>| (r.start as int, r.end as int))
}

/// A 32-bit instruction word whose sub-fields the codec reads and writes.
#[derive(Clone, Copy, PartialEq, Eq, Structural, Hash, Debug)]
pub struct InstCodeI4(pub u32);

impl InstCodeI4 {
    /// Returns the word with, for each range in order, the next unconsumed
    /// bits of `val` (starting at bit 0) stored into that range; every bit
    /// outside the ranges keeps its value. Bits of `val` beyond the total
    /// range width are discarded.
    pub fn with(self, ranges: &[Range<u32>], val: u32) -> (r: InstCodeI4)
        requires
            spans_wf(bit_spans(ranges@), 32),
            spans_disjoint(bit_spans(ranges@)),
            span_width(bit_spans(ranges@)) <= 32,
        ensures
            forall|p: u32|
                p < 32 && !covered(bit_spans(ranges@), p as int) ==> bit32(r.0, p) == bit32(
                    self.0,
                    p,
                ),
            forall|j: u32|
                j < span_width(bit_spans(ranges@)) ==> bit32(
                    r.0,
                    span_pos(bit_spans(ranges@), j as int) as u32,
                ) == bit32(val, j),
    {
        let ghost s = bit_spans(ranges@);
        let mut code: u64 = self.0 as u64;
        let mut len: u32 = 0;
        let mut k: usize = 0;
        proof {
            lemma_bit64_of_u32(self.0);
            assert(s.take(0) =~= Seq::<(int, int)>::empty());
        }
        while k < ranges.len()
            invariant
                k <= ranges@.len(),
                s == bit_spans(ranges@),
                spans_wf(s, 32),
                spans_disjoint(s),
                span_width(s) <= 32,
                len == span_width(s.take(k as int)),
                0 <= len <= 32,
                code >> 32 == 0,
                forall|p: u32|
                    p < 32 && !covered(s.take(k as int), p as int) ==> #[trigger] bit64(
                        code,
                        p as u64,
                    ) == bit32(self.0, p),
                forall|j: u32|
                    j < len ==> #[trigger] bit32(val, j) == bit64(
                        code,
                        span_pos(s.take(k as int), j as int) as u64,
                    ),
            decreases ranges@.len() - k,
        {
            let start = ranges[k].start;
            let end = ranges[k].end;
            proof {
                assert(s[k as int] == (start as int, end as int));
                assert(s.take(k + 1).drop_last() =~= s.take(k as int));
                assert(s.take(k + 1).last() == s[k as int]);
                lemma_take_width_bounded(s, k as int + 1, 32);
                assert(span_width(s.take(k + 1)) == len + (end - start));
                lemma_shl_one_positive((end - start) as u32);
            }
            let wd = end - start;
            let mask: u64 = ((1u64 << (wd as u64)) - 1) << (start as u64);
            let ncode: u64 = (code & !mask) | ((((val as u64) >> (len as u64)) << (start as u64))
                & mask);
            proof {
                lemma_word_write_step(code, ncode, val, start, wd, len);
                assert forall|p: u32|
                    p < 32 && !covered(s.take(k + 1), p as int) implies #[trigger] bit64(
                    ncode,
                    p as u64,
                ) == bit32(self.0, p) by {
                    assert(s.take(k + 1) =~= s.take(k as int).push(s[k as int]));
                    lemma_covered_push(s.take(k as int), s[k as int], p as int);
                }
                assert forall|j: u32| j < len + wd implies #[trigger] bit32(val, j) == bit64(
                    ncode,
                    span_pos(s.take(k + 1), j as int) as u64,
                ) by {
                    if j < len {
                        assert(span_pos(s.take(k + 1), j as int) == span_pos(
                            s.take(k as int),
                            j as int,
                        ));
                        let q = span_pos(s.take(k as int), j as int);
                        lemma_take_wf(s, k as int, 32);
                        lemma_span_pos_covered(s.take(k as int), 32, j as int);
                        lemma_covered_prefix_disjoint(s, k as int, q);
                        assert(!(start <= q < start + wd));
                    } else {
                        assert(span_pos(s.take(k + 1), j as int) == start + (j - len));
                    }
                }
            }
            code = ncode;
            len = len + wd;
            k = k + 1;
        }
        proof {
            assert(s.take(ranges@.len() as int) =~= s);
            lemma_bit32_of_trunc(code);
            assert forall|j: u32| j < span_width(s) implies bit32(
                code as u32,
                span_pos(s, j as int) as u32,
            ) == bit32(val, j) by {
                lemma_span_pos_covered(s, 32, j as int);
            }
        }
        InstCodeI4(code as u32)
    }

    /// Returns the value read from the ranges: for each range in order, its
    /// bits become the next unconsumed bits of the result, and every result
    /// bit beyond the total range width is zero.
    pub fn extract(&self, ranges: &[Range<u32>]) -> (r: u32)
        requires
            spans_wf(bit_spans(ranges@), 32),
            span_width(bit_spans(ranges@)) <= 32,
        ensures
            forall|j: u32|
                j < span_width(bit_spans(ranges@)) ==> bit32(r, j) == bit32(
                    self.0,
                    span_pos(bit_spans(ranges@), j as int) as u32,
                ),
            forall|j: u32| span_width(bit_spans(ranges@)) <= j < 32 ==> !bit32(r, j),
    {
        let ghost s = bit_spans(ranges@);
        let mut val: u64 = 0;
        let mut len: u32 = 0;
        let mut k: usize = 0;
        proof {
            assert(s.take(0) =~= Seq::<(int, int)>::empty());
            assert(0u64 >> 0u64 == 0) by (bit_vector);
        }
        while k < ranges.len()
            invariant
                k <= ranges@.len(),
                s == bit_spans(ranges@),
                spans_wf(s, 32),
                span_width(s) <= 32,
                len == span_width(s.take(k as int)),
                0 <= len <= 32,
                val >> (len as u64) == 0,
                forall|j: u32|
                    j < len ==> #[trigger] bit64(val, j as u64) == bit32(
                        self.0,
                        span_pos(s.take(k as int), j as int) as u32,
                    ),
            decreases ranges@.len() - k,
        {
            let start = ranges[k].start;
            let end = ranges[k].end;
            proof {
                assert(s[k as int] == (start as int, end as int));
                assert(s.take(k + 1).drop_last() =~= s.take(k as int));
                assert(s.take(k + 1).last() == s[k as int]);
                lemma_take_width_bounded(s, k as int + 1, 32);
                assert(span_width(s.take(k + 1)) == len + (end - start));
                lemma_shl_one_positive((end - start) as u32);
            }
            let wd = end - start;
            let mask: u64 = ((1u64 << (wd as u64)) - 1) << (start as u64);
            let nval: u64 = val | ((((self.0 as u64) & mask) >> (start as u64)) << (len as u64));
            proof {
                lemma_bit64_of_u32(self.0);
                lemma_word_read_step(self.0, val, nval, start, wd, len);
                assert forall|j: u32| j < len + wd implies #[trigger] bit64(nval, j as u64)
                    == bit32(self.0, span_pos(s.take(k + 1), j as int) as u32) by {
                    if j < len {
                        assert(span_pos(s.take(k + 1), j as int) == span_pos(
                            s.take(k as int),
                            j as int,
                        ));
                    } else {
                        assert(span_pos(s.take(k + 1), j as int) == start + (j - len));
                    }
                }
            }
            val = nval;
            len = len + wd;
            k = k + 1;
        }
        proof {
            assert(s.take(ranges@.len() as int) =~= s);
            lemma_high_zero_bits(val, len);
            lemma_bit32_of_trunc(val);
            assert forall|j: u32| j < span_width(s) implies bit32(val as u32, j) == bit32(
                self.0,
                span_pos(s, j as int) as u32,
            ) by {
                lemma_span_pos_covered(s, 32, j as int);
            }
        }
        val as u32
    }
}

/// The first `m` spans of a well-formed list are well-formed.
proof fn lemma_take_wf(s: Seq<(int, int)>, m: int, bound: int)
    requires
        spans_wf(s, bound),
        0 <= m <= s.len(),
    ensures
        spans_wf(s.take(m), bound),
{
}

/// The width of a prefix never exceeds the width of the whole list.
proof fn lemma_take_width_bounded(s: Seq<(int, int)>, m: int, bound: int)
    requires
        spans_wf(s, bound),
        0 <= m <= s.len(),
    ensures
        span_width(s.take(m)) <= span_width(s),
    decreases s.len() - m,
{
    if m < s.len() {
        lemma_take_width_bounded(s, m + 1, bound);
        assert(s.take(m + 1).drop_last() =~= s.take(m));
        assert(s.take(m + 1).last() == s[m]);
        assert(span_width(s.take(m + 1)) == span_width(s.take(m)) + (s[m].1 - s[m].0));
    } else {
        assert(s.take(m) =~= s);
    }
}

/// Codec round trip: a word written through `with` and read back through
/// `extract` over the same disjoint ranges returns the stored value, masked
/// to the total range width. The hypotheses are the postconditions of the
/// two calls.
pub proof fn lemma_word_codec_round_trip(packed: u32, out: u32, rs: Seq<Range<u32>>, v: u32)
    requires
        spans_wf(bit_spans(rs), 32),
        span_width(bit_spans(rs)) <= 32,
        forall|j: u32|
            j < span_width(bit_spans(rs)) ==> bit32(
                packed,
                span_pos(bit_spans(rs), j as int) as u32,
            ) == bit32(v, j),
        forall|j: u32|
            j < span_width(bit_spans(rs)) ==> bit32(out, j) == bit32(
                packed,
                span_pos(bit_spans(rs), j as int) as u32,
            ),
        forall|j: u32| span_width(bit_spans(rs)) <= j < 32 ==> !bit32(out, j),
    ensures
        out == v & mask32(span_width(bit_spans(rs))),
{
    let s = bit_spans(rs);
    lemma_span_width_nonneg(s, 32);
    let n = span_width(s) as u32;
    lemma_mask32_bits(v, n);
    assert forall|p: u32| p < 32 implies bit32(out, p) == bit32(v & mask32(n as int), p) by {
        if p < n {
            assert(bit32(out, p) == bit32(v, p));
        }
    }
    lemma_u32_eq_by_bits(out, v & mask32(n as int));
}

/// The byte ranges of a buffer codec descriptor, as plain spans.
pub open spec fn byte_spans(rs: Seq<Range<usize>>) -> Seq<(int, int)> {
    rs.map_values(|r: Range<usize>| (r.start as int, r.end as int))
}

/// A byte buffer whose byte ranges the codec reads and writes; each selected
/// byte contributes its full eight bits, concatenated across the ranges in
/// order, least-significant range first.
pub struct InstCodeSlice(pub Vec<u8>);

impl InstCodeSlice {
    /// Returns the 64-bit value read from the byte ranges: for each range in
    /// order, its bytes become the next unconsumed bytes of the result, and
    /// every result byte beyond the total range width is zero.
    pub fn extract(&self, ranges: &[Range<usize>]) -> (r: u64)
        requires
            spans_wf(byte_spans(ranges@), self.0@.len() as int),
            span_width(byte_spans(ranges@)) <= 8,
        ensures
            forall|j: u64|
                j < span_width(byte_spans(ranges@)) ==> #[trigger] byte64(r, j) == self.0@[
                    span_pos(byte_spans(ranges@), j as int)
                ],
            forall|j: u64| span_width(byte_spans(ranges@)) <= j < 8 ==> #[trigger] byte64(r, j) == 0,
    {
        let ghost s = byte_spans(ranges@);
        let ghost bnd = self.0@.len() as int;
        let mut val: u64 = 0;
        let mut len: usize = 0;
        let mut k: usize = 0;
        proof {
            assert(s.take(0) =~= Seq::<(int, int)>::empty());
            assert(0u64 >> 0u64 == 0) by (bit_vector);
        }
        while k < ranges.len()
            invariant
                k <= ranges@.len(),
                s == byte_spans(ranges@),
                bnd == self.0@.len() as int,
                spans_wf(s, bnd),
                span_width(s) <= 8,
                len == span_width(s.take(k as int)),
                0 <= len <= 8,
                val >> ((8 * len) as u64) == 0,
                forall|j: u64|
                    j < len ==> #[trigger] byte64(val, j) == self.0@[
                        span_pos(s.take(k as int), j as int)
                    ],
            decreases ranges@.len() - k,
        {
            let start = ranges[k].start;
            let end = ranges[k].end;
            proof {
                assert(s[k as int] == (start as int, end as int));
                assert(s.take(k + 1).drop_last() =~= s.take(k as int));
                assert(s.take(k + 1).last() == s[k as int]);
                lemma_take_width_bounded(s, k as int + 1, bnd);
                assert(span_width(s.take(k + 1)) == len + (end - start));
            }
            let ghost len0 = len as int;
            let mut i = start;
            while i < end
                invariant
                    s == byte_spans(ranges@),
                    bnd == self.0@.len() as int,
                    spans_wf(s, bnd),
                    k < ranges@.len(),
                    s[k as int] == (start as int, end as int),
                    start <= i <= end,
                    len0 == span_width(s.take(k as int)),
                    len0 + (end - start) <= 8,
                    len == len0 + (i - start),
                    val >> ((8 * len) as u64) == 0,
                    forall|j: u64|
                        j < len0 ==> #[trigger] byte64(val, j) == self.0@[
                            span_pos(s.take(k as int), j as int)
                        ],
                    forall|j: u64|
                        len0 <= j < len ==> #[trigger] byte64(val, j) == self.0@[
                            start + (j - len0)
                        ],
                decreases end - i,
            {
                let b = self.0[i];
                let nval: u64 = val | ((b as u64) << ((8 * len) as u64));
                proof {
                    lemma_byte_or_step(val, nval, b, len as u64);
                }
                val = nval;
                len = len + 1;
                i = i + 1;
            }
            proof {
                assert forall|j: u64| j < len implies #[trigger] byte64(val, j) == self.0@[
                    span_pos(s.take(k + 1), j as int)
                ] by {
                    if j < len0 {
                        assert(span_pos(s.take(k + 1), j as int) == span_pos(
                            s.take(k as int),
                            j as int,
                        ));
                    } else {
                        assert(span_pos(s.take(k + 1), j as int) == start + (j - len0));
                    }
                }
            }
            k = k + 1;
        }
        proof {
            assert(s.take(ranges@.len() as int) =~= s);
            lemma_high_zero_bytes(val, len as u64);
        }
        val
    }

    /// Returns the buffer with, for each range in order, the next unconsumed
    /// bytes of `val` (starting at byte 0) stored into that range; every byte
    /// outside the ranges keeps its value. Bytes of `val` beyond the total
    /// range width are discarded.
    pub fn with(self, ranges: &[Range<usize>], val: u64) -> (r: InstCodeSlice)
        requires
            spans_wf(byte_spans(ranges@), self.0@.len() as int),
            spans_disjoint(byte_spans(ranges@)),
            span_width(byte_spans(ranges@)) <= 8,
        ensures
            r.0@.len() == self.0@.len(),
            forall|p: int|
                0 <= p < self.0@.len() && !covered(byte_spans(ranges@), p) ==> r.0@[p]
                    == self.0@[p],
            forall|j: u64|
                j < span_width(byte_spans(ranges@)) ==> r.0@[
                    span_pos(byte_spans(ranges@), j as int)
                ] == byte64(val, j),
    {
        let ghost s = byte_spans(ranges@);
        let ghost orig = self.0@;
        let ghost bnd = self.0@.len() as int;
        let InstCodeSlice(mut buf) = self;
        let mut len: usize = 0;
        let mut k: usize = 0;
        proof {
            assert(s.take(0) =~= Seq::<(int, int)>::empty());
        }
        while k < ranges.len()
            invariant
                k <= ranges@.len(),
                s == byte_spans(ranges@),
                buf@.len() == orig.len(),
                bnd == orig.len() as int,
                spans_wf(s, bnd),
                spans_disjoint(s),
                span_width(s) <= 8,
                len == span_width(s.take(k as int)),
                0 <= len <= 8,
                forall|p: int|
                    0 <= p < orig.len() && !covered(s.take(k as int), p) ==> #[trigger] buf@[p]
                        == orig[p],
                forall|j: u64|
                    j < len ==> #[trigger] buf@[span_pos(s.take(k as int), j as int)] == byte64(
                        val,
                        j,
                    ),
            decreases ranges@.len() - k,
        {
            let start = ranges[k].start;
            let end = ranges[k].end;
            proof {
                assert(s[k as int] == (start as int, end as int));
                assert(s.take(k + 1).drop_last() =~= s.take(k as int));
                assert(s.take(k + 1).last() == s[k as int]);
                lemma_take_width_bounded(s, k as int + 1, bnd);
                assert(span_width(s.take(k + 1)) == len + (end - start));
            }
            let ghost len0 = len as int;
            let mut i = start;
            while i < end
                invariant
                    s == byte_spans(ranges@),
                    buf@.len() == orig.len(),
                    bnd == orig.len() as int,
                    spans_wf(s, bnd),
                    spans_disjoint(s),
                    k < ranges@.len(),
                    s[k as int] == (start as int, end as int),
                    start <= i <= end,
                    len0 == span_width(s.take(k as int)),
                    len0 + (end - start) <= 8,
                    len == len0 + (i - start),
                    forall|p: int|
                        0 <= p < orig.len() && !covered(s.take(k as int), p) && !(start <= p < i)
                            ==> #[trigger] buf@[p] == orig[p],
                    forall|j: u64|
                        j < len0 ==> #[trigger] buf@[span_pos(s.take(k as int), j as int)]
                            == byte64(val, j),
                    forall|m: int| start <= m < i ==> #[trigger] buf@[m] == byte64(
                        val,
                        (len0 + (m - start)) as u64,
                    ),
                decreases end - i,
            {
                let b = ((val >> ((8 * len) as u64)) & 0xff) as u8;
                proof {
                    lemma_byte64_read(val, len as u64);
                    lemma_take_wf(s, k as int, bnd);
                }
                let ghost bufpre = buf@;
                buf.set(i, b);
                proof {
                    assert forall|j: u64| j < len0 implies #[trigger] buf@[
                        span_pos(s.take(k as int), j as int)
                    ] == byte64(val, j) by {
                        let q = span_pos(s.take(k as int), j as int);
                        lemma_span_pos_covered(s.take(k as int), bnd, j as int);
                        lemma_covered_prefix_disjoint(s, k as int, q);
                        assert(bufpre[q] == byte64(val, j));
                    }
                    assert forall|p: int|
                        0 <= p < orig.len() && !covered(s.take(k as int), p) && !(start <= p < i
                            + 1) implies #[trigger] buf@[p] == orig[p] by {
                        assert(bufpre[p] == orig[p]);
                    }
                    assert forall|m: int| start <= m < i + 1 implies #[trigger] buf@[m] == byte64(
                        val,
                        (len0 + (m - start)) as u64,
                    ) by {
                        if m < i {
                            assert(bufpre[m] == byte64(val, (len0 + (m - start)) as u64));
                        }
                    }
                }
                len = len + 1;
                i = i + 1;
            }
            proof {
                assert forall|p: int|
                    0 <= p < orig.len() && !covered(s.take(k + 1), p) implies #[trigger] buf@[p]
                    == orig[p] by {
                    assert(s.take(k + 1) =~= s.take(k as int).push(s[k as int]));
                    lemma_covered_push(s.take(k as int), s[k as int], p);
                }
                assert forall|j: u64| j < len implies #[trigger] buf@[
                    span_pos(s.take(k + 1), j as int)
                ] == byte64(val, j) by {
                    if j < len0 {
                        assert(span_pos(s.take(k + 1), j as int) == span_pos(
                            s.take(k as int),
                            j as int,
                        ));
                    } else {
                        assert(span_pos(s.take(k + 1), j as int) == start + (j - len0));
                    }
                }
            }
            k = k + 1;
        }
        proof {
            assert(s.take(ranges@.len() as int) =~= s);
        }
        InstCodeSlice(buf)
    }
}

/// Buffer codec round trip: a buffer written through `with` and read back
/// through `extract` over the same disjoint byte ranges returns the stored
/// value, masked to the total range width in bytes. The hypotheses are the
/// postconditions of the two calls.
pub proof fn lemma_buffer_codec_round_trip(buf: Seq<u8>, out: u64, rs: Seq<Range<usize>>, v: u64)
    requires
        spans_wf(byte_spans(rs), buf.len() as int),
        span_width(byte_spans(rs)) <= 8,
        forall|j: u64|
            j < span_width(byte_spans(rs)) ==> buf[span_pos(byte_spans(rs), j as int)]
                == #[trigger] byte64(v, j),
        forall|j: u64|
            j < span_width(byte_spans(rs)) ==> #[trigger] byte64(out, j) == buf[
                span_pos(byte_spans(rs), j as int)
            ],
        forall|j: u64| span_width(byte_spans(rs)) <= j < 8 ==> #[trigger] byte64(out, j) == 0,
    ensures
        out == v & mask64_bytes(span_width(byte_spans(rs))),
{
    let s = byte_spans(rs);
    lemma_span_width_nonneg(s, buf.len() as int);
    let n = span_width(s) as u64;
    lemma_mask64_bytes(v, n);
    assert forall|j: u64| j < 8 implies byte64(out, j) == byte64(
        v & mask64_bytes(n as int),
        j,
    ) by {
        if j < n {
            assert(byte64(out, j) == byte64(v, j));
        }
    }
    lemma_u64_eq_by_bytes(out, v & mask64_bytes(n as int));
}

} // verus!
