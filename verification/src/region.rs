//! Decomposition of an ordered add/subtract rectangle list (a region) into a
//! minimal list of disjoint rectangles covering the same net area.
//!
//! The algorithm sweeps the distinct Y coordinates of all rectangle edges.
//! Within each Y band it replays the rectangles overlapping the band, in their
//! original order, against a sorted list of disjoint X spans: an Add inserts a
//! span and merges it with every span it overlaps or touches, a Subtract cuts
//! the overlapped part out of every span, splitting a span in up to two pieces.
//! Each surviving span yields one output rectangle for the band.

use vstd::prelude::*;

use crate::rect::{rect_disjoint, rect_has, rect_nonempty, rects_cover, Rect};

verus! {

/// One paint operation of a region: later operations override earlier ones
/// where they overlap.
#[derive(Clone, Copy, PartialEq, Eq, Structural, Debug)]
pub enum RegionOp {
    Add,
    Subtract,
}

/// Whether the net area of the region covers the point `(x, y)`: the latest
/// operation whose rectangle contains the point decides, and a point no
/// rectangle contains is uncovered.
pub open spec fn region_covers(ops: Seq<(RegionOp, Rect)>, x: int, y: int) -> bool
    decreases ops.len(),
{
    if ops.len() == 0 {
        false
    } else if rect_has(ops.last().1, x, y) {
        ops.last().0 is Add
    } else {
        region_covers(ops.drop_last(), x, y)
    }
}

/// A covered point always lies in some rectangle of the region.
pub proof fn lemma_covered_point_in_some_rect(ops: Seq<(RegionOp, Rect)>, x: int, y: int)
    requires
        region_covers(ops, x, y),
    ensures
        exists|k: int| 0 <= k < ops.len() && rect_has(#[trigger] ops[k].1, x, y),
    decreases ops.len(),
{
    if rect_has(ops.last().1, x, y) {
        assert(rect_has(ops[ops.len() - 1].1, x, y));
    } else {
        lemma_covered_point_in_some_rect(ops.drop_last(), x, y);
        let k = choose|k: int|
            0 <= k < ops.drop_last().len() && rect_has(#[trigger] ops.drop_last()[k].1, x, y);
        assert(rect_has(ops[k].1, x, y));
    }
}

/// An X span covers the half-open range `[start, end)`. A well-formed span
/// list holds non-empty spans, sorted, with a gap between neighbors (touching
/// spans are always merged).
pub open spec fn spans_wf(s: Seq<(i32, i32)>) -> bool {
    &&& forall|i: int| 0 <= i < s.len() ==> (#[trigger] s[i]).0 < s[i].1
    &&& forall|i: int| 0 <= i < s.len() - 1 ==> (#[trigger] s[i]).1 < s[i + 1].0
}

/// Whether some span of the list covers the coordinate `x`.
pub open spec fn spans_cover(s: Seq<(i32, i32)>, x: int) -> bool {
    exists|i: int| 0 <= i < s.len() && (#[trigger] s[i]).0 <= x < s[i].1
}

/// In a well-formed span list, every earlier span ends before a later one
/// starts.
pub proof fn lemma_spans_ordered(s: Seq<(i32, i32)>, i: int, j: int)
    requires
        spans_wf(s),
        0 <= i < j < s.len(),
    ensures
        s[i].1 < s[j].0,
    decreases j - i,
{
    if i + 1 < j {
        lemma_spans_ordered(s, i + 1, j);
        assert(s[i].1 < s[i + 1].0 < s[i + 1].1);
    }
}

/// Appending a span past the end of a well-formed list keeps it well-formed.
proof fn lemma_wf_push(s: Seq<(i32, i32)>, p: (i32, i32))
    requires
        spans_wf(s),
        p.0 < p.1,
        s.len() > 0 ==> s.last().1 < p.0,
    ensures
        spans_wf(s.push(p)),
{
    let t = s.push(p);
    assert forall|i: int| 0 <= i < t.len() implies (#[trigger] t[i]).0 < t[i].1 by {
        if i < s.len() {
            assert(t[i] == s[i]);
        }
    }
    assert forall|i: int| 0 <= i < t.len() - 1 implies (#[trigger] t[i]).1 < t[i + 1].0 by {
        if i + 1 < s.len() {
            assert(t[i] == s[i] && t[i + 1] == s[i + 1]);
        } else {
            assert(t[i] == s[s.len() - 1] && t[i + 1] == p);
        }
    }
}

/// What the one-longer prefix of a span list covers.
proof fn lemma_cover_subrange_step(s: Seq<(i32, i32)>, i: int)
    requires
        0 <= i < s.len(),
    ensures
        forall|x: int|
            #![trigger spans_cover(s.subrange(0, i + 1), x)]
            #![trigger spans_cover(s.subrange(0, i), x)]
            spans_cover(s.subrange(0, i + 1), x) <==> spans_cover(s.subrange(0, i), x) || (
            s[i].0 <= x < s[i].1),
{
    assert(s.subrange(0, i + 1) =~= s.subrange(0, i).push(s[i]));
    lemma_cover_push(s.subrange(0, i), s[i]);
}

/// What a span list covers after appending one more span.
proof fn lemma_cover_push(s: Seq<(i32, i32)>, p: (i32, i32))
    ensures
        forall|x: int| #![trigger spans_cover(s.push(p), x)] #![trigger spans_cover(s, x)]
            spans_cover(s.push(p), x) <==> spans_cover(s, x) || (p.0 <= x < p.1),
{
    let t = s.push(p);
    assert forall|x: int| spans_cover(t, x) implies spans_cover(s, x) || (p.0 <= x < p.1) by {
        let i = choose|i: int| 0 <= i < t.len() && (#[trigger] t[i]).0 <= x < t[i].1;
        if i < s.len() {
            assert(s[i] == t[i]);
        } else {
            assert(t[i] == p);
        }
    }
    assert forall|x: int| spans_cover(s, x) || (p.0 <= x < p.1) implies spans_cover(t, x) by {
        if spans_cover(s, x) {
            let i = choose|i: int| 0 <= i < s.len() && (#[trigger] s[i]).0 <= x < s[i].1;
            assert(t[i] == s[i]);
        } else {
            assert(t[s.len() as int] == p);
        }
    }
}

/// Whether some span with index in `[a, b)` covers `x`.
pub open spec fn cover_between(s: Seq<(i32, i32)>, a: int, b: int, x: int) -> bool {
    exists|k: int| a <= k < b && (#[trigger] s[k]).0 <= x < s[k].1
}

/// What one more span adds to the coverage of an index range.
proof fn lemma_between_step(s: Seq<(i32, i32)>, a: int, i: int)
    requires
        0 <= a <= i < s.len(),
    ensures
        forall|x: int|
            #![trigger cover_between(s, a, i + 1, x)]
            #![trigger cover_between(s, a, i, x)]
            cover_between(s, a, i + 1, x) <==> cover_between(s, a, i, x) || (s[i].0 <= x < s[i].1),
{
    assert forall|x: int|
        cover_between(s, a, i + 1, x) implies cover_between(s, a, i, x) || (s[i].0 <= x
        < s[i].1) by {
        let k = choose|k: int| a <= k < i + 1 && (#[trigger] s[k]).0 <= x < s[k].1;
        if k < i {
            assert(cover_between(s, a, i, x));
        }
    }
    assert forall|x: int|
        cover_between(s, a, i, x) || (s[i].0 <= x < s[i].1) implies cover_between(
        s,
        a,
        i + 1,
        x,
    ) by {
        if cover_between(s, a, i, x) {
            let k = choose|k: int| a <= k < i && (#[trigger] s[k]).0 <= x < s[k].1;
            assert(a <= k < i + 1 && s[k].0 <= x < s[k].1);
        } else {
            assert(a <= i < i + 1 && s[i].0 <= x < s[i].1);
        }
    }
}

/// Coverage of an index range splits at any point inside it.
proof fn lemma_between_split(s: Seq<(i32, i32)>, a: int, b: int, c: int)
    requires
        0 <= a <= b <= c <= s.len(),
    ensures
        forall|x: int|
            #![trigger cover_between(s, a, c, x)]
            #![trigger cover_between(s, a, b, x)]
            #![trigger cover_between(s, b, c, x)]
            cover_between(s, a, c, x) <==> cover_between(s, a, b, x) || cover_between(s, b, c, x),
{
    assert forall|x: int|
        cover_between(s, a, c, x) implies cover_between(s, a, b, x) || cover_between(
        s,
        b,
        c,
        x,
    ) by {
        let k = choose|k: int| a <= k < c && (#[trigger] s[k]).0 <= x < s[k].1;
        if k < b {
            assert(cover_between(s, a, b, x));
        } else {
            assert(cover_between(s, b, c, x));
        }
    }
    assert forall|x: int|
        cover_between(s, a, b, x) || cover_between(s, b, c, x) implies cover_between(
        s,
        a,
        c,
        x,
    ) by {
        if cover_between(s, a, b, x) {
            let k = choose|k: int| a <= k < b && (#[trigger] s[k]).0 <= x < s[k].1;
            assert(a <= k < c && s[k].0 <= x < s[k].1);
        } else {
            let k = choose|k: int| b <= k < c && (#[trigger] s[k]).0 <= x < s[k].1;
            assert(a <= k < c && s[k].0 <= x < s[k].1);
        }
    }
}

/// A span list covers what its full index range covers.
proof fn lemma_cover_is_between(s: Seq<(i32, i32)>)
    ensures
        forall|x: int|
            #![trigger spans_cover(s, x)]
            #![trigger cover_between(s, 0, s.len() as int, x)]
            spans_cover(s, x) <==> cover_between(s, 0, s.len() as int, x),
{
}

/// Removes the range `[x1, x2)` from a well-formed span list: every overlapped
/// span loses the overlapped part, splitting it into up to two pieces.
#[verifier::rlimit(100)]
fn span_subtract(spans: &Vec<(i32, i32)>, x1: i32, x2: i32) -> (out: Vec<(i32, i32)>)
    requires
        x1 < x2,
        spans_wf(spans@),
    ensures
        spans_wf(out@),
        forall|x: int|
            #![trigger spans_cover(out@, x)]
            #![trigger spans_cover(spans@, x)]
            spans_cover(out@, x) <==> spans_cover(spans@, x) && !(x1 <= x < x2),
{
    let n = spans.len();
    let mut out: Vec<(i32, i32)> = Vec::new();
    let mut i: usize = 0;
    while i < n
        invariant
            n == spans.len(),
            0 <= i <= n,
            x1 < x2,
            spans_wf(spans@),
            spans_wf(out@),
            forall|x: int|
                #![trigger spans_cover(out@, x)]
                #![trigger spans_cover(spans@.subrange(0, i as int), x)]
                spans_cover(out@, x) <==> spans_cover(spans@.subrange(0, i as int), x) && !(x1 <= x
                    < x2),
            out@.len() > 0 ==> i > 0 && out@.last().1 <= spans@[i - 1].1,
        decreases n - i,
    {
        let (s, e) = spans[i];
        let ghost out0 = out@;
        let ghost pre = spans@.subrange(0, i as int);
        let ghost pre1 = spans@.subrange(0, i as int + 1);
        proof {
            lemma_cover_subrange_step(spans@, i as int);
            if i > 0 {
                lemma_spans_ordered(spans@, i - 1, i as int);
            }
        }
        if e <= x1 || x2 <= s {
            proof {
                lemma_wf_push(out@, (s, e));
                lemma_cover_push(out@, (s, e));
            }
            out.push((s, e));
            proof {
                assert forall|x: int|
                    spans_cover(out@, x) <==> spans_cover(pre1, x) && !(x1 <= x < x2) by {
                    assert(spans_cover(out@, x) <==> spans_cover(out0, x) || (s <= x < e));
                    assert(spans_cover(pre1, x) <==> spans_cover(pre, x) || (s <= x < e));
                }
            }
        } else {
            if s < x1 {
                proof {
                    lemma_wf_push(out@, (s, x1));
                    lemma_cover_push(out@, (s, x1));
                }
                out.push((s, x1));
            }
            let ghost out1 = out@;
            proof {
                assert forall|x: int| spans_cover(out1, x) <==> spans_cover(out0, x) || (s <= x
                    < x1) by {
                    if s < x1 {
                        assert(spans_cover(out1, x) <==> spans_cover(out0, x) || (s <= x < x1));
                    }
                }
            }
            if x2 < e {
                proof {
                    lemma_wf_push(out@, (x2, e));
                    lemma_cover_push(out@, (x2, e));
                }
                out.push((x2, e));
            }
            proof {
                assert forall|x: int| spans_cover(out@, x) <==> spans_cover(out1, x) || (x2 <= x
                    < e) by {
                    if x2 < e {
                        assert(spans_cover(out@, x) <==> spans_cover(out1, x) || (x2 <= x < e));
                    }
                }
                assert forall|x: int|
                    spans_cover(out@, x) <==> spans_cover(pre1, x) && !(x1 <= x < x2) by {
                    assert(spans_cover(out@, x) <==> spans_cover(out1, x) || (x2 <= x < e));
                    assert(spans_cover(out1, x) <==> spans_cover(out0, x) || (s <= x < x1));
                    assert(spans_cover(pre1, x) <==> spans_cover(pre, x) || (s <= x < e));
                }
            }
        }
        i += 1;
    }
    proof {
        assert(spans@.subrange(0, n as int) =~= spans@);
    }
    out
}

/// Inserts the range `[x1, x2)` into a well-formed span list, merging it with
/// every span it overlaps or touches into one combined span.
#[verifier::rlimit(100)]
fn span_add(spans: &Vec<(i32, i32)>, x1: i32, x2: i32) -> (out: Vec<(i32, i32)>)
    requires
        x1 < x2,
        spans_wf(spans@),
    ensures
        spans_wf(out@),
        forall|x: int|
            #![trigger spans_cover(out@, x)]
            #![trigger spans_cover(spans@, x)]
            spans_cover(out@, x) <==> spans_cover(spans@, x) || (x1 <= x < x2),
{
    let n = spans.len();
    let mut out: Vec<(i32, i32)> = Vec::new();
    let mut i: usize = 0;
    // Copy the spans that lie entirely left of the new range, with a gap.
    while i < n && spans[i].1 < x1
        invariant
            n == spans.len(),
            0 <= i <= n,
            x1 < x2,
            spans_wf(spans@),
            spans_wf(out@),
            out@.len() == i,
            forall|k: int| 0 <= k < i ==> out@[k] == spans@[k],
            forall|k: int| 0 <= k < i ==> (#[trigger] spans@[k]).1 < x1,
            forall|x: int| spans_cover(out@, x) <==> cover_between(spans@, 0, i as int, x),
        decreases n - i,
    {
        proof {
            lemma_wf_push(out@, spans@[i as int]);
            lemma_cover_push(out@, spans@[i as int]);
            lemma_between_step(spans@, 0, i as int);
        }
        out.push(spans[i]);
        i += 1;
    }
    let ghost i0 = i as int;
    // Merge the new range with every span it overlaps or touches.
    let mut lo: i32 = x1;
    let mut hi: i32 = x2;
    while i < n && spans[i].0 <= x2
        invariant
            n == spans.len(),
            i0 <= i <= n,
            x1 < x2,
            spans_wf(spans@),
            spans_wf(out@),
            out@.len() == i0,
            forall|k: int| 0 <= k < i0 ==> out@[k] == spans@[k],
            forall|k: int| 0 <= k < i0 ==> (#[trigger] spans@[k]).1 < x1,
            forall|x: int| spans_cover(out@, x) <==> cover_between(spans@, 0, i0, x),
            lo <= x1 < x2 <= hi,
            i0 > 0 ==> spans@[i0 - 1].1 < lo,
            i0 < n ==> spans@[i0].1 >= x1,
            hi == x2 || (exists|k: int| i0 <= k < i && hi == (#[trigger] spans@[k]).1),
            forall|x: int|
                #![trigger cover_between(spans@, i0, i as int, x)]
                (lo <= x < hi) <==> (x1 <= x < x2) || cover_between(spans@, i0, i as int, x),
        decreases n - i,
    {
        let (s, e) = spans[i];
        proof {
            lemma_between_step(spans@, i0, i as int);
            if i > i0 {
                lemma_spans_ordered(spans@, i0, i as int);
                if i0 > 0 {
                    lemma_spans_ordered(spans@, i0 - 1, i as int);
                }
            }
            // The merged span overlaps or touches the accumulated interval.
            assert(s <= x2 <= hi);
            if i as int == i0 {
                assert(e >= x1 >= lo);
            } else {
                assert(e > spans@[i0].1 >= x1 >= lo);
            }
            if hi != x2 {
                let k = choose|k: int| i0 <= k < i && hi == (#[trigger] spans@[k]).1;
                if k < i {
                    lemma_spans_ordered(spans@, k, i as int);
                }
            }
        }
        let ghost lo_old = lo;
        let ghost hi_old = hi;
        if s < lo {
            lo = s;
        }
        if e > hi {
            hi = e;
        }
        proof {
            assert forall|x: int|
                #![trigger cover_between(spans@, i0, i as int + 1, x)]
                (lo <= x < hi) <==> (x1 <= x < x2) || cover_between(
                    spans@,
                    i0,
                    i as int + 1,
                    x,
                ) by {
                assert((lo_old <= x < hi_old) <==> (x1 <= x < x2) || cover_between(
                    spans@,
                    i0,
                    i as int,
                    x,
                ));
            }
            if hi == hi_old && hi != x2 {
                let k = choose|k: int| i0 <= k < i && hi == (#[trigger] spans@[k]).1;
                assert(i0 <= k < i + 1 && hi == spans@[k].1);
            }
            if hi != hi_old {
                assert(i0 <= i < i + 1 && hi == spans@[i as int].1);
            }
        }
        i += 1;
    }
    let ghost j0 = i as int;
    proof {
        // The combined span keeps a gap to the first untouched span.
        if j0 < n {
            if hi == x2 {
                assert(hi < spans@[j0].0);
            } else {
                let k = choose|k: int| i0 <= k < j0 && hi == (#[trigger] spans@[k]).1;
                lemma_spans_ordered(spans@, k, j0);
            }
        }
        lemma_wf_push(out@, (lo, hi));
        lemma_cover_push(out@, (lo, hi));
    }
    out.push((lo, hi));
    // Copy the remaining spans, all strictly right of the combined span.
    while i < n
        invariant
            n == spans.len(),
            j0 <= i <= n,
            0 <= i0 <= j0,
            x1 < x2,
            lo <= x1 < x2 <= hi,
            spans_wf(spans@),
            spans_wf(out@),
            out@.len() == i0 + 1 + (i - j0),
            out@[out@.len() - 1] == if i as int == j0 {
                (lo, hi)
            } else {
                spans@[i - 1]
            },
            j0 < n ==> hi < spans@[j0].0,
            forall|x: int|
                #![trigger spans_cover(out@, x)]
                spans_cover(out@, x) <==> cover_between(spans@, 0, i0, x) || (lo <= x < hi)
                    || cover_between(spans@, j0, i as int, x),
        decreases n - i,
    {
        proof {
            if i as int > j0 {
                lemma_spans_ordered(spans@, i - 1, i as int);
            }
            lemma_wf_push(out@, spans@[i as int]);
            lemma_cover_push(out@, spans@[i as int]);
            lemma_between_step(spans@, j0, i as int);
        }
        out.push(spans[i]);
        i += 1;
    }
    proof {
        lemma_between_split(spans@, 0, i0, j0);
        lemma_between_split(spans@, 0, j0, n as int);
        lemma_cover_is_between(spans@);
        assert forall|x: int|
            spans_cover(out@, x) <==> spans_cover(spans@, x) || (x1 <= x < x2) by {
            assert(spans_cover(out@, x) <==> cover_between(spans@, 0, i0, x) || (lo <= x < hi)
                || cover_between(spans@, j0, n as int, x));
            assert((lo <= x < hi) <==> (x1 <= x < x2) || cover_between(spans@, i0, j0, x));
            assert(spans_cover(spans@, x) <==> cover_between(spans@, 0, n as int, x));
            assert(cover_between(spans@, 0, n as int, x) <==> cover_between(spans@, 0, j0, x)
                || cover_between(spans@, j0, n as int, x));
            assert(cover_between(spans@, 0, j0, x) <==> cover_between(spans@, 0, i0, x)
                || cover_between(spans@, i0, j0, x));
        }
    }
    out
}

/// A strictly ascending coordinate list.
pub open spec fn strictly_sorted(s: Seq<i32>) -> bool {
    forall|i: int| 0 <= i < s.len() - 1 ==> (#[trigger] s[i]) < s[i + 1]
}

/// Whether the coordinate list holds `v`.
pub open spec fn seq_has(s: Seq<i32>, v: i32) -> bool {
    exists|i: int| 0 <= i < s.len() && (#[trigger] s[i]) == v
}

/// Sortedness is transitive across any two indices.
proof fn lemma_sorted_le(s: Seq<i32>, i: int, j: int)
    requires
        strictly_sorted(s),
        0 <= i <= j < s.len(),
    ensures
        s[i] <= s[j],
    decreases j - i,
{
    if i < j {
        lemma_sorted_le(s, i + 1, j);
    }
}

/// A member of a sorted list that lies below (above) the next (current) entry
/// lies at or below (at or above) the current (next) entry.
proof fn lemma_sorted_member_between(s: Seq<i32>, v: i32, b: int)
    requires
        strictly_sorted(s),
        seq_has(s, v),
        0 <= b < s.len() - 1,
    ensures
        v < s[b + 1] ==> v <= s[b],
        v > s[b] ==> v >= s[b + 1],
{
    let j = choose|j: int| 0 <= j < s.len() && (#[trigger] s[j]) == v;
    if j <= b {
        lemma_sorted_le(s, j, b);
    } else {
        lemma_sorted_le(s, b + 1, j);
    }
}

/// Inserts a coordinate into a sorted list, keeping it sorted and ignoring
/// duplicates.
fn insert_coord(ys: &mut Vec<i32>, y: i32)
    requires
        strictly_sorted(old(ys)@),
    ensures
        strictly_sorted(final(ys)@),
        forall|v: i32|
            #![trigger seq_has(final(ys)@, v)]
            #![trigger seq_has(old(ys)@, v)]
            seq_has(final(ys)@, v) <==> seq_has(old(ys)@, v) || v == y,
{
    let n = ys.len();
    let mut i: usize = 0;
    while i < n && ys[i] < y
        invariant
            n == ys.len(),
            0 <= i <= n,
            ys@ == old(ys)@,
            strictly_sorted(ys@),
            forall|k: int| 0 <= k < i ==> (#[trigger] ys@[k]) < y,
        decreases n - i,
    {
        i += 1;
    }
    if i < n && ys[i] == y {
        proof {
            assert(seq_has(ys@, y));
            assert forall|v: i32| seq_has(ys@, v) <==> seq_has(old(ys)@, v) || v == y by {}
        }
        return ;
    }
    let ghost ys0 = ys@;
    proof {
        ys0.insert_ensures(i as int, y);
        if i < n {
            assert(ys@[i as int] > y);
        }
    }
    ys.insert(i, y);
    proof {
        assert(ys@ == ys0.insert(i as int, y));
        assert forall|k: int| 0 <= k < ys@.len() - 1 implies (#[trigger] ys@[k]) < ys@[k + 1] by {
            if k + 1 < i {
                assert(ys@[k] == ys0[k] && ys@[k + 1] == ys0[k + 1]);
            } else if k + 1 == i {
                assert(ys@[k] == ys0[k] && ys@[k + 1] == y);
            } else if k == i {
                assert(ys@[k] == y && ys@[k + 1] == ys0[k]);
            } else {
                assert(ys@[k] == ys0[k - 1] && ys@[k + 1] == ys0[k]);
            }
        }
        assert forall|v: i32| seq_has(ys@, v) implies seq_has(ys0, v) || v == y by {
            let j = choose|j: int| 0 <= j < ys@.len() && (#[trigger] ys@[j]) == v;
            if j < i {
                assert(ys0[j] == v);
            } else if j > i {
                assert(ys0[j - 1] == v);
            }
        }
        assert forall|v: i32| seq_has(ys0, v) || v == y implies seq_has(ys@, v) by {
            if seq_has(ys0, v) {
                let j = choose|j: int| 0 <= j < ys0.len() && (#[trigger] ys0[j]) == v;
                if j < i {
                    assert(ys@[j] == v);
                } else {
                    assert(ys@[j + 1] == v);
                }
            } else {
                assert(ys@[i as int] == v);
            }
        }
    }
}

/// The Y coordinate list holds exactly the horizontal edges of the first `k`
/// rectangles of the region.
pub open spec fn edges_exact(ys: Seq<i32>, region: Seq<(RegionOp, Rect)>, k: int) -> bool {
    forall|v: i32|
        #![trigger seq_has(ys, v)]
        seq_has(ys, v) <==> (exists|j: int|
            0 <= j < k && ((#[trigger] region[j]).1.y1 == v || region[j].1.y2 == v))
}

/// Whether `v` is the Y coordinate of some input rectangle's top or bottom
/// edge.
pub open spec fn is_input_edge(region: Seq<(RegionOp, Rect)>, v: i32) -> bool {
    exists|k: int|
        0 <= k < region.len() && ((#[trigger] region[k]).1.y1 == v || region[k].1.y2 == v)
}

/// The collected Y coordinate list holds exactly the input edges.
proof fn lemma_edges_are_input_edges(ys: Seq<i32>, region: Seq<(RegionOp, Rect)>)
    requires
        edges_exact(ys, region, region.len() as int),
    ensures
        forall|v: i32|
            #![trigger seq_has(ys, v)]
            #![trigger is_input_edge(region, v)]
            seq_has(ys, v) <==> is_input_edge(region, v),
{
    assert forall|v: i32| seq_has(ys, v) implies is_input_edge(region, v) by {
        let j = choose|j: int|
            0 <= j < region.len() && ((#[trigger] region[j]).1.y1 == v || region[j].1.y2 == v);
        assert(0 <= j < region.len() && (region[j].1.y1 == v || region[j].1.y2 == v));
    }
    assert forall|v: i32| is_input_edge(region, v) implies seq_has(ys, v) by {
        let k = choose|k: int|
            0 <= k < region.len() && ((#[trigger] region[k]).1.y1 == v || region[k].1.y2 == v);
        assert(0 <= k < region.len() && (region[k].1.y1 == v || region[k].1.y2 == v));
    }
}

/// A point covered by the region lies between the lowest and the highest
/// horizontal edge.
proof fn lemma_covers_within_edges(
    region: Seq<(RegionOp, Rect)>,
    ys: Seq<i32>,
    x: int,
    y: int,
)
    requires
        strictly_sorted(ys),
        edges_exact(ys, region, region.len() as int),
        region_covers(region, x, y),
    ensures
        ys.len() > 0,
        ys[0] <= y < ys[ys.len() - 1],
{
    lemma_covered_point_in_some_rect(region, x, y);
    let k = choose|k: int| 0 <= k < region.len() && rect_has(#[trigger] region[k].1, x, y);
    let r = region[k].1;
    assert(seq_has(ys, r.y1));
    assert(seq_has(ys, r.y2));
    let j1 = choose|j: int| 0 <= j < ys.len() && (#[trigger] ys[j]) == r.y1;
    let j2 = choose|j: int| 0 <= j < ys.len() && (#[trigger] ys[j]) == r.y2;
    lemma_sorted_le(ys, 0, j1);
    lemma_sorted_le(ys, j2, ys.len() - 1);
}

/// How the coverage of a one-longer prefix of the region relates to the
/// shorter prefix: the added rectangle decides wherever it contains the point.
proof fn lemma_region_covers_step(ops: Seq<(RegionOp, Rect)>, k: int)
    requires
        0 <= k < ops.len(),
    ensures
        forall|x: int, y: int|
            #![trigger region_covers(ops.subrange(0, k + 1), x, y)]
            region_covers(ops.subrange(0, k + 1), x, y) == (if rect_has(ops[k].1, x, y) {
                ops[k].0 is Add
            } else {
                region_covers(ops.subrange(0, k), x, y)
            }),
{
    assert(ops.subrange(0, k + 1).drop_last() =~= ops.subrange(0, k));
    assert(ops.subrange(0, k + 1).last() == ops[k]);
}

/// What a correct decomposition of a region is: non-empty rectangles, pairwise
/// disjoint, covering exactly the region's net area.
pub open spec fn decomposition_ok(ops: Seq<(RegionOp, Rect)>, rects: Seq<Rect>) -> bool {
    &&& forall|i: int| 0 <= i < rects.len() ==> rect_nonempty(#[trigger] rects[i])
    &&& forall|i: int, j: int|
        0 <= i < j < rects.len() ==> rect_disjoint(#[trigger] rects[i], #[trigger] rects[j])
    &&& forall|x: int, y: int|
        #![trigger rects_cover(rects, x, y)]
        #![trigger region_covers(ops, x, y)]
        rects_cover(rects, x, y) <==> region_covers(ops, x, y)
}

/// Minimality within a Y band: two rectangles spanning the same band keep an
/// X gap between them. Overlapping or touching spans were merged, so two
/// horizontally adjacent added rectangles come out as one.
pub open spec fn band_separated(a: Rect, b: Rect) -> bool {
    (a.y1 == b.y1 && a.y2 == b.y2) ==> (a.x2 < b.x1 || b.x2 < a.x1)
}

/// Emission order: a later rectangle lies strictly right of an earlier one in
/// the same Y band, or in a band below it.
pub open spec fn emitted_before(a: Rect, b: Rect) -> bool {
    ||| (a.y1 == b.y1 && a.y2 == b.y2 && a.x2 < b.x1)
    ||| a.y2 <= b.y1
}

/// Collapses an ordered add/subtract rectangle list into disjoint, non-empty
/// rectangles that cover exactly the region's net area.
///
/// Later operations override earlier ones where they overlap. Malformed
/// (empty or negative-size) rectangles contribute nothing; an empty or fully
/// subtracted region yields an empty list. The function never fails.
#[verifier::rlimit(100)]
pub fn region_to_non_overlapping_rects(region: &Vec<(RegionOp, Rect)>, output: &mut Vec<Rect>)
    ensures
        forall|i: int|
            0 <= i < final(output)@.len() ==> rect_nonempty(#[trigger] final(output)@[i]),
        forall|i: int, j: int|
            0 <= i < j < final(output)@.len() ==> rect_disjoint(
                #[trigger] final(output)@[i],
                #[trigger] final(output)@[j],
            ) && band_separated(final(output)@[i], final(output)@[j]) && emitted_before(
                final(output)@[i],
                final(output)@[j],
            ),
        forall|x: int, y: int|
            #![trigger rects_cover(final(output)@, x, y)]
            #![trigger region_covers(region@, x, y)]
            rects_cover(final(output)@, x, y) <==> region_covers(region@, x, y),
        // Band placement: every output rectangle spans exactly one band
        // between consecutive input edge coordinates.
        forall|i: int|
            0 <= i < final(output)@.len() ==> is_input_edge(
                region@,
                (#[trigger] final(output)@[i]).y1,
            ) && is_input_edge(region@, final(output)@[i].y2),
        forall|i: int, v: i32|
            #![trigger final(output)@[i], is_input_edge(region@, v)]
            0 <= i < final(output)@.len() && is_input_edge(region@, v) ==> !(final(output)@[i].y1
                < v < final(output)@[i].y2),
{
    output.clear();
    let rn = region.len();

    // Collect the distinct Y coordinates of all horizontal edges, sorted.
    let mut ys: Vec<i32> = Vec::new();
    let mut k: usize = 0;
    while k < rn
        invariant
            rn == region.len(),
            0 <= k <= rn,
            strictly_sorted(ys@),
            edges_exact(ys@, region@, k as int),
        decreases rn - k,
    {
        let r = region[k].1;
        let ghost ys_a = ys@;
        insert_coord(&mut ys, r.y1);
        let ghost ys_b = ys@;
        insert_coord(&mut ys, r.y2);
        proof {
            assert forall|v: i32| seq_has(ys@, v) implies (exists|j: int|
                0 <= j < k + 1 && ((#[trigger] region@[j]).1.y1 == v || region@[j].1.y2
                    == v)) by {
                if seq_has(ys_a, v) {
                    let j = choose|j: int|
                        0 <= j < k && ((#[trigger] region@[j]).1.y1 == v || region@[j].1.y2 == v);
                    assert(0 <= j < k + 1 && (region@[j].1.y1 == v || region@[j].1.y2 == v));
                } else {
                    assert(v == r.y1 || v == r.y2);
                    assert(0 <= k < k + 1 && (region@[k as int].1.y1 == v || region@[k as int].1.y2
                        == v));
                }
            }
            assert forall|v: i32|
                (exists|j: int|
                    0 <= j < k + 1 && ((#[trigger] region@[j]).1.y1 == v || region@[j].1.y2
                        == v)) implies seq_has(ys@, v) by {
                let j = choose|j: int|
                    0 <= j < k + 1 && ((#[trigger] region@[j]).1.y1 == v || region@[j].1.y2 == v);
                if j < k {
                    assert(seq_has(ys_a, v));
                    assert(seq_has(ys_b, v));
                }
            }
        }
        k += 1;
    }

    let yn = ys.len();
    if yn == 0 {
        proof {
            if region@.len() > 0 {
                assert(0 <= 0 < region@.len() && (region@[0].1.y1 == region@[0].1.y1
                    || region@[0].1.y2 == region@[0].1.y1));
                assert(seq_has(ys@, region@[0].1.y1));
                assert(false);
            }
        }
        return ;
    }

    proof {
        assert forall|x: int, y: int| y < ys@[0] implies !region_covers(region@, x, y) by {
            if region_covers(region@, x, y) {
                lemma_covers_within_edges(region@, ys@, x, y);
            }
        }
    }

    // Sweep the Y bands between consecutive edge coordinates.
    let mut b: usize = 0;
    while b + 1 < yn
        invariant
            rn == region.len(),
            yn == ys.len(),
            0 <= b < yn,
            strictly_sorted(ys@),
            edges_exact(ys@, region@, rn as int),
            forall|i: int| 0 <= i < output@.len() ==> rect_nonempty(#[trigger] output@[i]),
            forall|i: int| 0 <= i < output@.len() ==> (#[trigger] output@[i]).y2 <= ys@[b as int],
            forall|i: int, j: int|
                0 <= i < j < output@.len() ==> rect_disjoint(
                    #[trigger] output@[i],
                    #[trigger] output@[j],
                ) && band_separated(output@[i], output@[j]) && emitted_before(
                    output@[i],
                    output@[j],
                ),
            forall|x: int, y: int|
                #![trigger rects_cover(output@, x, y)]
                #![trigger region_covers(region@, x, y)]
                y < ys@[b as int] ==> (rects_cover(output@, x, y) <==> region_covers(
                    region@,
                    x,
                    y,
                )),
            forall|i: int|
                0 <= i < output@.len() ==> is_input_edge(region@, (#[trigger] output@[i]).y1)
                    && is_input_edge(region@, output@[i].y2),
            forall|i: int, v: i32|
                #![trigger output@[i], is_input_edge(region@, v)]
                0 <= i < output@.len() && is_input_edge(region@, v) ==> !(output@[i].y1 < v
                    < output@[i].y2),
        decreases yn - b,
    {
        let lo = ys[b];
        let hi = ys[b + 1];
        proof {
            assert(lo < hi);
        }

        // Replay the rectangles overlapping this band against the span list.
        let mut spans: Vec<(i32, i32)> = Vec::new();
        let mut k: usize = 0;
        while k < rn
            invariant
                rn == region.len(),
                yn == ys.len(),
                0 <= k <= rn,
                0 <= b as int,
                b + 1 < yn,
                strictly_sorted(ys@),
                edges_exact(ys@, region@, rn as int),
                lo == ys@[b as int],
                hi == ys@[b as int + 1],
                lo < hi,
                spans_wf(spans@),
                forall|x: int, y: int|
                    #![trigger region_covers(region@.subrange(0, k as int), x, y)]
                    lo <= y < hi ==> (spans_cover(spans@, x) <==> region_covers(
                        region@.subrange(0, k as int),
                        x,
                        y,
                    )),
            decreases rn - k,
        {
            let (op, r) = region[k];
            let ghost sp0 = spans@;
            proof {
                lemma_region_covers_step(region@, k as int);
                assert(0 <= k < region@.len() && (region@[k as int].1.y1 == r.y1
                    || region@[k as int].1.y2 == r.y1));
                assert(seq_has(ys@, r.y1));
                assert(0 <= k < region@.len() && (region@[k as int].1.y1 == r.y2
                    || region@[k as int].1.y2 == r.y2));
                assert(seq_has(ys@, r.y2));
                if r.y1 < hi && lo < r.y2 {
                    lemma_sorted_member_between(ys@, r.y1, b as int);
                    lemma_sorted_member_between(ys@, r.y2, b as int);
                    assert(r.y1 <= lo && hi <= r.y2);
                }
            }
            if !(hi <= r.y1 || r.y2 <= lo) && r.x1 < r.x2 {
                match op {
                    RegionOp::Add => {
                        spans = span_add(&spans, r.x1, r.x2);
                    },
                    RegionOp::Subtract => {
                        spans = span_subtract(&spans, r.x1, r.x2);
                    },
                }
            }
            proof {
                assert forall|x: int, y: int|
                    #![trigger region_covers(region@.subrange(0, k as int + 1), x, y)]
                    lo <= y < hi implies (spans_cover(spans@, x) <==> region_covers(
                        region@.subrange(0, k as int + 1),
                        x,
                        y,
                    )) by {
                    assert(spans_cover(sp0, x) <==> region_covers(
                        region@.subrange(0, k as int),
                        x,
                        y,
                    ));
                    if hi <= r.y1 || r.y2 <= lo || r.x1 >= r.x2 {
                        assert(!rect_has(r, x, y));
                    } else {
                        assert(rect_has(r, x, y) <==> r.x1 <= x < r.x2);
                    }
                }
            }
            k += 1;
        }

        // Emit one rectangle per surviving span.
        let ghost out0 = output@;
        let mut si: usize = 0;
        while si < spans.len()
            invariant
                0 <= si <= spans.len(),
                spans_wf(spans@),
                lo < hi,
                output@.len() == out0.len() + si,
                forall|i: int| 0 <= i < out0.len() ==> #[trigger] output@[i] == out0[i],
                forall|i: int|
                    out0.len() <= i < output@.len() ==> #[trigger] output@[i] == (Rect {
                        x1: spans@[i - out0.len()].0,
                        y1: lo,
                        x2: spans@[i - out0.len()].1,
                        y2: hi,
                    }),
            decreases spans.len() - si,
        {
            let sp = spans[si];
            output.push(Rect { x1: sp.0, y1: lo, x2: sp.1, y2: hi });
            si += 1;
        }

        proof {
            assert(region@.subrange(0, rn as int) =~= region@);
            assert forall|i: int| 0 <= i < output@.len() implies rect_nonempty(
                #[trigger] output@[i],
            ) by {
                if i >= out0.len() {
                    assert(spans@[i - out0.len()].0 < spans@[i - out0.len()].1);
                }
            }
            assert forall|i: int| 0 <= i < output@.len() implies (#[trigger] output@[i]).y2
                <= ys@[b as int + 1] by {
                if i < out0.len() {
                    assert(out0[i].y2 <= ys@[b as int]);
                }
            }
            lemma_edges_are_input_edges(ys@, region@);
            assert(seq_has(ys@, ys@[b as int]));
            assert(seq_has(ys@, ys@[b as int + 1]));
            assert forall|i: int| 0 <= i < output@.len() implies is_input_edge(
                region@,
                (#[trigger] output@[i]).y1,
            ) && is_input_edge(region@, output@[i].y2) by {
                if i < out0.len() {
                    assert(is_input_edge(region@, out0[i].y1) && is_input_edge(
                        region@,
                        out0[i].y2,
                    ));
                } else {
                    assert(output@[i].y1 == lo && output@[i].y2 == hi);
                }
            }
            assert forall|i: int, v: i32|
                #![trigger output@[i], is_input_edge(region@, v)]
                0 <= i < output@.len() && is_input_edge(region@, v) implies !(output@[i].y1 < v
                    < output@[i].y2) by {
                assert(is_input_edge(region@, v));
                if i < out0.len() {
                    assert(!(out0[i].y1 < v < out0[i].y2));
                } else {
                    assert(seq_has(ys@, v));
                    if lo < v && v < hi {
                        lemma_sorted_member_between(ys@, v, b as int);
                        assert(false);
                    }
                }
            }
            assert forall|i: int, j: int| 0 <= i < j < output@.len() implies rect_disjoint(
                #[trigger] output@[i],
                #[trigger] output@[j],
            ) && band_separated(output@[i], output@[j]) && emitted_before(
                output@[i],
                output@[j],
            ) by {
                if j < out0.len() {
                    assert(rect_disjoint(out0[i], out0[j]) && band_separated(out0[i], out0[j])
                        && emitted_before(out0[i], out0[j]));
                } else if i < out0.len() {
                    assert(out0[i].y2 <= ys@[b as int]);
                    assert(output@[j].y1 == lo && output@[j].y2 == hi);
                } else {
                    lemma_spans_ordered(spans@, i - out0.len(), j - out0.len());
                }
            }
            assert forall|x: int, y: int| y < ys@[b as int + 1] implies (rects_cover(output@, x, y)
                <==> region_covers(region@, x, y)) by {
                if y < ys@[b as int] {
                    assert(rects_cover(out0, x, y) <==> region_covers(region@, x, y));
                    if rects_cover(output@, x, y) {
                        let i = choose|i: int|
                            0 <= i < output@.len() && rect_has(#[trigger] output@[i], x, y);
                        if i >= out0.len() {
                            assert(output@[i].y1 == lo);
                            assert(false);
                        }
                        assert(rect_has(out0[i], x, y));
                    }
                    if rects_cover(out0, x, y) {
                        let i = choose|i: int|
                            0 <= i < out0.len() && rect_has(#[trigger] out0[i], x, y);
                        assert(rect_has(output@[i], x, y));
                    }
                } else {
                    assert(spans_cover(spans@, x) <==> region_covers(
                        region@.subrange(0, rn as int),
                        x,
                        y,
                    ));
                    if spans_cover(spans@, x) {
                        let s = choose|s: int|
                            0 <= s < spans@.len() && (#[trigger] spans@[s]).0 <= x < spans@[s].1;
                        assert(rect_has(output@[out0.len() + s], x, y));
                    }
                    if rects_cover(output@, x, y) {
                        let i = choose|i: int|
                            0 <= i < output@.len() && rect_has(#[trigger] output@[i], x, y);
                        if i < out0.len() {
                            assert(out0[i].y2 <= ys@[b as int]);
                            assert(false);
                        }
                        assert(spans@[i - out0.len()].0 <= x < spans@[i - out0.len()].1);
                        assert(spans_cover(spans@, x));
                    }
                }
            }
        }
        b += 1;
    }

    proof {
        assert(b as int == yn - 1);
        assert forall|x: int, y: int|
            rects_cover(output@, x, y) <==> region_covers(region@, x, y) by {
            if y < ys@[b as int] {
                assert(rects_cover(output@, x, y) <==> region_covers(region@, x, y));
            } else {
                if region_covers(region@, x, y) {
                    lemma_covers_within_edges(region@, ys@, x, y);
                    assert(false);
                }
                if rects_cover(output@, x, y) {
                    let i = choose|i: int|
                        0 <= i < output@.len() && rect_has(#[trigger] output@[i], x, y);
                    assert(output@[i].y2 <= ys@[b as int]);
                    assert(false);
                }
            }
        }
    }
}

} // verus!
