//! The mathematical model shared by both field codecs: an ordered list of
//! half-open spans `[start, end)` over an indexed store, concatenated in
//! order, least-significant span first, to form one logical value.

use vstd::prelude::*;

verus! {

/// Every span lies inside the store: `0 <= start <= end <= bound`.
pub open spec fn spans_wf(s: Seq<(int, int)>, bound: int) -> bool {
    forall|k: int| 0 <= k < s.len() ==> 0 <= (#[trigger] s[k]).0 <= s[k].1 <= bound
}

/// No position belongs to two spans.
pub open spec fn spans_disjoint(s: Seq<(int, int)>) -> bool {
    forall|k1: int, k2: int|
        0 <= k1 < k2 < s.len() ==> (#[trigger] s[k1]).1 <= (#[trigger] s[k2]).0 || s[k2].1
            <= s[k1].0
}

pub open spec fn in_span(r: (int, int), p: int) -> bool {
    r.0 <= p < r.1
}

/// Some span of the list contains position `p`.
pub open spec fn covered(s: Seq<(int, int)>, p: int) -> bool {
    exists|k: int| 0 <= k < s.len() && in_span(s[k], p)
}

/// The number of store positions the spans select together.
pub open spec fn span_width(s: Seq<(int, int)>) -> int
    decreases s.len(),
{
    if s.len() == 0 {
        0
    } else {
        span_width(s.drop_last()) + (s.last().1 - s.last().0)
    }
}

/// The store position that the `j`-th selected position (counting through the
/// spans in order) refers to.
pub open spec fn span_pos(s: Seq<(int, int)>, j: int) -> int
    decreases s.len(),
{
    if s.len() == 0 {
        0
    } else if j < span_width(s.drop_last()) {
        span_pos(s.drop_last(), j)
    } else {
        s.last().0 + (j - span_width(s.drop_last()))
    }
}

pub proof fn lemma_span_width_nonneg(s: Seq<(int, int)>, bound: int)
    requires
        spans_wf(s, bound),
    ensures
        span_width(s) >= 0,
    decreases s.len(),
{
    if s.len() > 0 {
        assert(spans_wf(s.drop_last(), bound));
        lemma_span_width_nonneg(s.drop_last(), bound);
    }
}

/// Each selected position lies inside the store and inside some span.
pub proof fn lemma_span_pos_covered(s: Seq<(int, int)>, bound: int, j: int)
    requires
        spans_wf(s, bound),
        0 <= j < span_width(s),
    ensures
        0 <= span_pos(s, j) < bound,
        covered(s, span_pos(s, j)),
    decreases s.len(),
{
    if s.len() > 0 {
        if j < span_width(s.drop_last()) {
            assert(spans_wf(s.drop_last(), bound));
            lemma_span_pos_covered(s.drop_last(), bound, j);
            let k = choose|k: int|
                0 <= k < s.drop_last().len() && in_span(s.drop_last()[k], span_pos(s, j));
            assert(in_span(s[k], span_pos(s, j)));
        } else {
            lemma_span_width_nonneg(s.drop_last(), bound);
            let k = s.len() - 1;
            assert(in_span(s[k], span_pos(s, j)));
        }
    }
}

/// Appending one span extends the covered set by exactly that span.
pub proof fn lemma_covered_push(s: Seq<(int, int)>, r: (int, int), p: int)
    ensures
        covered(s.push(r), p) == (covered(s, p) || in_span(r, p)),
{
    if covered(s.push(r), p) {
        let k = choose|k: int| 0 <= k < s.push(r).len() && in_span(s.push(r)[k], p);
        if k < s.len() {
            assert(in_span(s[k], p));
        } else {
            assert(s.push(r)[k] == r);
        }
    }
    if covered(s, p) {
        let k = choose|k: int| 0 <= k < s.len() && in_span(s[k], p);
        assert(in_span(s.push(r)[k], p));
    }
    if in_span(r, p) {
        assert(in_span(s.push(r)[s.len() as int], p));
    }
}

/// In a disjoint list, a position covered by the first `k` spans cannot lie in
/// span `k`.
pub proof fn lemma_covered_prefix_disjoint(s: Seq<(int, int)>, k: int, p: int)
    requires
        spans_disjoint(s),
        0 <= k < s.len(),
        covered(s.take(k), p),
    ensures
        !in_span(s[k], p),
{
    let i = choose|i: int| 0 <= i < s.take(k).len() && in_span(s.take(k)[i], p);
    assert(s.take(k)[i] == s[i]);
    assert(s[i].1 <= s[k].0 || s[k].1 <= s[i].0);
}

} // verus!
