//! Damage restriction for effect draws: filtering damage by the transformed
//! subregion rectangles, re-clamping it to the output-bounds clamp of the
//! destination, and skipping the draw when nothing is left.
//!
//! All rectangles here are in integer output pixels; the fractional transform
//! that produces the subregion rectangles happens outside.

use vstd::prelude::*;

use crate::rect::{max_i32, min_i32, rect_has, rect_intersection, rect_nonempty, rects_cover, Rect};

verus! {

/// Whether some rectangle with index in `[a, b)` contains the point.
pub open spec fn rects_cover_between(rs: Seq<Rect>, a: int, b: int, x: int, y: int) -> bool {
    exists|k: int| a <= k < b && rect_has(#[trigger] rs[k], x, y)
}

/// What appending one rectangle adds to a list's coverage.
proof fn lemma_rects_cover_push(rs: Seq<Rect>, r: Rect)
    ensures
        forall|x: int, y: int|
            #![trigger rects_cover(rs.push(r), x, y)]
            #![trigger rects_cover(rs, x, y)]
            rects_cover(rs.push(r), x, y) <==> rects_cover(rs, x, y) || rect_has(r, x, y),
{
    let t = rs.push(r);
    assert forall|x: int, y: int|
        rects_cover(t, x, y) implies rects_cover(rs, x, y) || rect_has(r, x, y) by {
        let i = choose|i: int| 0 <= i < t.len() && rect_has(#[trigger] t[i], x, y);
        if i < rs.len() {
            assert(rect_has(rs[i], x, y));
        }
    }
    assert forall|x: int, y: int|
        rects_cover(rs, x, y) || rect_has(r, x, y) implies rects_cover(t, x, y) by {
        if rects_cover(rs, x, y) {
            let i = choose|i: int| 0 <= i < rs.len() && rect_has(#[trigger] rs[i], x, y);
            assert(rect_has(t[i], x, y));
        } else {
            assert(rect_has(t[rs.len() as int], x, y));
        }
    }
}

/// What one more rectangle of a list adds to the coverage of an index range.
proof fn lemma_rects_between_step(rs: Seq<Rect>, a: int, i: int)
    requires
        0 <= a <= i < rs.len(),
    ensures
        forall|x: int, y: int|
            #![trigger rects_cover_between(rs, a, i + 1, x, y)]
            #![trigger rects_cover_between(rs, a, i, x, y)]
            rects_cover_between(rs, a, i + 1, x, y) <==> rects_cover_between(rs, a, i, x, y)
                || rect_has(rs[i], x, y),
{
    assert forall|x: int, y: int|
        rects_cover_between(rs, a, i + 1, x, y) implies rects_cover_between(rs, a, i, x, y)
        || rect_has(rs[i], x, y) by {
        let k = choose|k: int| a <= k < i + 1 && rect_has(#[trigger] rs[k], x, y);
        if k < i {
            assert(rects_cover_between(rs, a, i, x, y));
        }
    }
    assert forall|x: int, y: int|
        rects_cover_between(rs, a, i, x, y) || rect_has(rs[i], x, y) implies rects_cover_between(
        rs,
        a,
        i + 1,
        x,
        y,
    ) by {
        if rects_cover_between(rs, a, i, x, y) {
            let k = choose|k: int| a <= k < i && rect_has(#[trigger] rs[k], x, y);
            assert(a <= k < i + 1 && rect_has(rs[k], x, y));
        } else {
            assert(a <= i < i + 1 && rect_has(rs[i], x, y));
        }
    }
}

/// A list covers what its full index range covers.
proof fn lemma_rects_cover_full(rs: Seq<Rect>)
    ensures
        forall|x: int, y: int|
            #![trigger rects_cover(rs, x, y)]
            #![trigger rects_cover_between(rs, 0, rs.len() as int, x, y)]
            rects_cover(rs, x, y) <==> rects_cover_between(rs, 0, rs.len() as int, x, y),
{
}

/// A list of non-empty rectangles covers a point somewhere exactly when it is
/// not the empty list.
proof fn lemma_nonempty_list_covers(rs: Seq<Rect>)
    requires
        forall|i: int| 0 <= i < rs.len() ==> rect_nonempty(#[trigger] rs[i]),
    ensures
        (exists|x: int, y: int| rects_cover(rs, x, y)) <==> rs.len() > 0,
{
    if rs.len() > 0 {
        assert(rect_has(rs[0], rs[0].x1 as int, rs[0].y1 as int));
        assert(rects_cover(rs, rs[0].x1 as int, rs[0].y1 as int));
    }
}

/// What appending one rectangle adds to the coverage of the index range that
/// starts at `a` and runs to the end.
proof fn lemma_rects_between_push_end(rs: Seq<Rect>, r: Rect, a: int)
    requires
        0 <= a <= rs.len(),
    ensures
        forall|x: int, y: int|
            #![trigger rects_cover_between(rs.push(r), a, rs.len() as int + 1, x, y)]
            #![trigger rects_cover_between(rs, a, rs.len() as int, x, y)]
            rects_cover_between(rs.push(r), a, rs.len() as int + 1, x, y) <==> rects_cover_between(
                rs,
                a,
                rs.len() as int,
                x,
                y,
            ) || rect_has(r, x, y),
{
    let t = rs.push(r);
    assert forall|x: int, y: int|
        #![trigger rects_cover_between(rs.push(r), a, rs.len() as int + 1, x, y)]
        #![trigger rects_cover_between(rs, a, rs.len() as int, x, y)]
        rects_cover_between(rs.push(r), a, rs.len() as int + 1, x, y) <==> (rects_cover_between(
            rs,
            a,
            rs.len() as int,
            x,
            y,
        ) || rect_has(r, x, y)) by {
        if rects_cover_between(t, a, rs.len() as int + 1, x, y) {
            let k = choose|k: int| a <= k < rs.len() + 1 && rect_has(#[trigger] t[k], x, y);
            if k < rs.len() {
                assert(rect_has(rs[k], x, y));
                assert(rects_cover_between(rs, a, rs.len() as int, x, y));
            }
        }
        if rects_cover_between(rs, a, rs.len() as int, x, y) {
            let k = choose|k: int| a <= k < rs.len() && rect_has(#[trigger] rs[k], x, y);
            assert(rect_has(t[k], x, y));
            assert(rects_cover_between(t, a, rs.len() as int + 1, x, y));
        }
        if rect_has(r, x, y) {
            assert(rect_has(t[rs.len() as int], x, y));
            assert(rects_cover_between(t, a, rs.len() as int + 1, x, y));
        }
    }
}

/// Appends every non-empty intersection of a subregion rectangle with a
/// damage rectangle: the damage restricted to the subregion. The caller's
/// vector is a reusable scratch buffer: whatever it already holds is
/// preserved unchanged, and the new fragments follow it. Each appended
/// fragment is one subregion-by-damage intersection, so it lies inside a
/// single damage rectangle. The subregion rectangles are the region's
/// transformed rectangles, the damage is this frame's, both in output pixels
/// relative to the element.
pub fn filter_damage(sub: &Vec<Rect>, damage: &Vec<Rect>, filtered: &mut Vec<Rect>)
    ensures
        final(filtered)@.len() >= old(filtered)@.len(),
        forall|i: int|
            0 <= i < old(filtered)@.len() ==> #[trigger] final(filtered)@[i] == old(
                filtered,
            )@[i],
        forall|i: int|
            old(filtered)@.len() <= i < final(filtered)@.len() ==> rect_nonempty(
                #[trigger] final(filtered)@[i],
            ) && (exists|k: int, j: int|
                0 <= k < sub@.len() && 0 <= j < damage@.len() && final(filtered)@[i]
                    == #[trigger] rect_intersection(sub@[k], damage@[j])),
        forall|x: int, y: int|
            #![trigger rects_cover_between(final(filtered)@, old(filtered)@.len() as int, final(filtered)@.len() as int, x, y)]
            rects_cover_between(
                final(filtered)@,
                old(filtered)@.len() as int,
                final(filtered)@.len() as int,
                x,
                y,
            ) <==> rects_cover(sub@, x, y) && rects_cover(damage@, x, y),
{
    let ghost base = old(filtered)@;
    let sn = sub.len();
    let dn = damage.len();
    let mut i: usize = 0;
    while i < sn
        invariant
            sn == sub.len(),
            dn == damage.len(),
            0 <= i <= sn,
            base.len() <= filtered@.len(),
            forall|t: int| 0 <= t < base.len() ==> #[trigger] filtered@[t] == base[t],
            forall|t: int|
                base.len() <= t < filtered@.len() ==> rect_nonempty(#[trigger] filtered@[t]) && (
                exists|k: int, j: int|
                    0 <= k < sub@.len() && 0 <= j < damage@.len() && filtered@[t]
                        == #[trigger] rect_intersection(sub@[k], damage@[j])),
            forall|x: int, y: int|
                #![trigger rects_cover_between(filtered@, base.len() as int, filtered@.len() as int, x, y)]
                rects_cover_between(filtered@, base.len() as int, filtered@.len() as int, x, y)
                    <==> rects_cover_between(sub@, 0, i as int, x, y) && rects_cover(
                    damage@,
                    x,
                    y,
                ),
        decreases sn - i,
    {
        let s = sub[i];
        let mut j: usize = 0;
        while j < dn
            invariant
                sn == sub.len(),
                dn == damage.len(),
                0 <= i < sn,
                0 <= j <= dn,
                s == sub@[i as int],
                base.len() <= filtered@.len(),
                forall|t: int| 0 <= t < base.len() ==> #[trigger] filtered@[t] == base[t],
                forall|t: int|
                    base.len() <= t < filtered@.len() ==> rect_nonempty(#[trigger] filtered@[t])
                        && (exists|k: int, j2: int|
                        0 <= k < sub@.len() && 0 <= j2 < damage@.len() && filtered@[t]
                            == #[trigger] rect_intersection(sub@[k], damage@[j2])),
                forall|x: int, y: int|
                    #![trigger rects_cover_between(filtered@, base.len() as int, filtered@.len() as int, x, y)]
                    rects_cover_between(filtered@, base.len() as int, filtered@.len() as int, x, y)
                        <==> (rects_cover_between(sub@, 0, i as int, x, y) && rects_cover(
                        damage@,
                        x,
                        y,
                    )) || (rect_has(sub@[i as int], x, y) && rects_cover_between(
                        damage@,
                        0,
                        j as int,
                        x,
                        y,
                    )),
            decreases dn - j,
        {
            proof {
                lemma_rects_between_step(damage@, 0, j as int);
            }
            match s.intersection(&damage[j]) {
                Some(c) => {
                    proof {
                        lemma_rects_between_push_end(filtered@, c, base.len() as int);
                    }
                    let ghost f0 = filtered@;
                    filtered.push(c);
                    proof {
                        assert forall|t: int|
                            base.len() <= t < filtered@.len() implies rect_nonempty(
                            #[trigger] filtered@[t],
                        ) && (exists|k: int, j2: int|
                            0 <= k < sub@.len() && 0 <= j2 < damage@.len() && filtered@[t]
                                == #[trigger] rect_intersection(sub@[k], damage@[j2])) by {
                            if t < f0.len() {
                                assert(filtered@[t] == f0[t]);
                            } else {
                                assert(filtered@[t] == c);
                                assert(0 <= i < sub@.len() && 0 <= j < damage@.len() && filtered@[t]
                                    == rect_intersection(sub@[i as int], damage@[j as int]));
                            }
                        }
                    }
                },
                None => {},
            }
            j += 1;
        }
        proof {
            lemma_rects_between_step(sub@, 0, i as int);
            lemma_rects_cover_full(damage@);
            assert forall|x: int, y: int|
                rects_cover_between(filtered@, base.len() as int, filtered@.len() as int, x, y)
                    <==> rects_cover_between(sub@, 0, i as int + 1, x, y) && rects_cover(
                    damage@,
                    x,
                    y,
                ) by {
                assert(rects_cover_between(filtered@, base.len() as int, filtered@.len() as int, x, y)
                    <==> (rects_cover_between(sub@, 0, i as int, x, y) && rects_cover(
                    damage@,
                    x,
                    y,
                )) || (rect_has(sub@[i as int], x, y) && rects_cover_between(
                    damage@,
                    0,
                    dn as int,
                    x,
                    y,
                )));
            }
        }
        i += 1;
    }
    proof {
        lemma_rects_cover_full(sub@);
    }
}

/// The half-open interval a rectangle's corners span on one axis after its
/// two extremities ran through a per-coordinate map.
pub open spec fn mapped_edges(f: spec_fn(int) -> int, lo: i32, hi: i32) -> (int, int) {
    (f(lo as int), f(hi as int))
}

/// Law: abutting rectangles stay abutting under the subregion transform.
/// The transform maps each corner coordinate by itself — a scale, an offset
/// and a rounding applied per coordinate, never an edge derived from a
/// rounded width — so two rectangles sharing an edge coordinate yield
/// transformed spans that share it exactly: no gap and no overlap, whatever
/// the map does.
pub proof fn lemma_abutting_stays_abutting(f: spec_fn(int) -> int, a: Rect, b: Rect)
    requires
        a.x2 == b.x1,
    ensures
        mapped_edges(f, a.x1, a.x2).1 == mapped_edges(f, b.x1, b.x2).0,
{
}

/// Damage that passes the subregion restriction: inside some damage
/// rectangle, and inside some subregion rectangle where a subregion is set.
pub open spec fn damage_through_subregion(
    sub: Option<Seq<Rect>>,
    damage: Seq<Rect>,
    x: int,
    y: int,
) -> bool {
    rects_cover(damage, x, y) && match sub {
        Some(s) => rects_cover(s, x, y),
        None => true,
    }
}

/// Damage a draw may touch, in coordinates relative to the clamped
/// destination. When the destination was clamped, only the fragments inside
/// the clamp window remain, shifted by the clamp offset; otherwise the
/// restricted damage stands unchanged.
pub open spec fn planned_damage_at(
    sub: Option<Seq<Rect>>,
    damage: Seq<Rect>,
    dst: Rect,
    clamped: Rect,
    x: int,
    y: int,
) -> bool {
    if clamped == dst {
        damage_through_subregion(sub, damage, x, y)
    } else {
        let ox = clamped.x1 - dst.x1;
        let oy = clamped.y1 - dst.y1;
        &&& 0 <= x < clamped.x2 - clamped.x1
        &&& 0 <= y < clamped.y2 - clamped.y1
        &&& damage_through_subregion(sub, damage, x + ox, y + oy)
    }
}

/// One planned draw of an effect element.
pub struct DrawPlan {
    /// The destination clamped to the output bounds.
    pub clamped_dst: Rect,
    /// The damage rectangles to draw, relative to the clamped destination.
    pub damage: Vec<Rect>,
}

/// Decides one effect draw: clamps the destination to the output bounds,
/// restricts the damage to the subregion where one is set, re-clamps the
/// damage to the output-bounds clamp, and skips the draw entirely when no
/// damage is left. Returns `None` exactly when nothing must be drawn.
#[verifier::rlimit(50)]
pub fn plan_element_draw(
    dst: &Rect,
    output_w: i32,
    output_h: i32,
    subregion: Option<&Vec<Rect>>,
    damage: &Vec<Rect>,
) -> (r: Option<DrawPlan>)
    requires
        output_w >= 0,
        output_h >= 0,
        dst.x2 - dst.x1 <= i32::MAX,
        dst.y2 - dst.y1 <= i32::MAX,
    ensures
        ({
            let sub_view = match subregion {
                Some(s) => Some(s@),
                None => None,
            };
            let out_rect = (Rect { x1: 0, y1: 0, x2: output_w, y2: output_h });
            match r {
                Some(plan) => {
                    &&& rect_nonempty(plan.clamped_dst)
                    // The clamp is exactly the intersection with the output bounds.
                    &&& plan.clamped_dst.x1 == max_i32(dst.x1, 0)
                    &&& plan.clamped_dst.y1 == max_i32(dst.y1, 0)
                    &&& plan.clamped_dst.x2 == min_i32(dst.x2, output_w)
                    &&& plan.clamped_dst.y2 == min_i32(dst.y2, output_h)
                    &&& if sub_view is None && plan.clamped_dst == *dst {
                        plan.damage@ == damage@
                    } else {
                        &&& forall|i: int|
                            0 <= i < plan.damage@.len() ==> rect_nonempty(
                                #[trigger] plan.damage@[i],
                            )
                        &&& forall|x: int, y: int|
                            #![trigger rects_cover(plan.damage@, x, y)]
                            rects_cover(plan.damage@, x, y) <==> planned_damage_at(
                                sub_view,
                                damage@,
                                *dst,
                                plan.clamped_dst,
                                x,
                                y,
                            )
                    }
                    &&& plan.damage@.len() > 0
                },
                None => ({
                    let cl = (Rect {
                        x1: max_i32(dst.x1, 0),
                        y1: max_i32(dst.y1, 0),
                        x2: min_i32(dst.x2, output_w),
                        y2: min_i32(dst.y2, output_h),
                    });
                    ||| !rect_nonempty(cl)
                    ||| (sub_view is None && cl == *dst && damage@.len() == 0)
                    ||| (forall|x: int, y: int|
                        #![trigger planned_damage_at(sub_view, damage@, *dst, cl, x, y)]
                        !planned_damage_at(sub_view, damage@, *dst, cl, x, y))
                }),
            }
        }),
{
    let output = Rect { x1: 0, y1: 0, x2: output_w, y2: output_h };
    let ghost cl = (Rect {
        x1: max_i32(dst.x1, 0),
        y1: max_i32(dst.y1, 0),
        x2: min_i32(dst.x2, output_w),
        y2: min_i32(dst.y2, output_h),
    });
    let clamped = match dst.intersection(&output) {
        Some(c) => c,
        None => {
            proof {
                if rect_nonempty(cl) {
                    assert(rect_has(*dst, cl.x1 as int, cl.y1 as int));
                    assert(rect_has(output, cl.x1 as int, cl.y1 as int));
                }
            }
            return None;
        },
    };
    proof {
        assert(clamped == cl);
    }

    // Restrict the damage to the subregion where one is set.
    let ghost sub_view = match subregion {
        Some(s) => Some(s@),
        None => None::<Seq<Rect>>,
    };
    let mut filtered: Vec<Rect> = Vec::new();
    match subregion {
        Some(sub) => {
            filter_damage(sub, damage, &mut filtered);
            proof {
                lemma_rects_cover_full(filtered@);
            }
        },
        None => {
            let mut i: usize = 0;
            while i < damage.len()
                invariant
                    0 <= i <= damage.len(),
                    filtered@ == damage@.subrange(0, i as int),
                decreases damage.len() - i,
            {
                filtered.push(damage[i]);
                proof {
                    assert(filtered@ =~= damage@.subrange(0, i as int + 1));
                }
                i += 1;
            }
            proof {
                assert(filtered@ =~= damage@);
            }
        },
    }
    let ghost base = filtered@;
    proof {
        // The restricted damage covers what passes the subregion.
        assert forall|x: int, y: int|
            rects_cover(base, x, y) <==> damage_through_subregion(sub_view, damage@, x, y) by {}
    }

    // Re-clamp the damage to the window the clamp kept, and shift it to be
    // relative to the clamped destination.
    let is_clamped = clamped.x1 != dst.x1 || clamped.y1 != dst.y1 || clamped.x2 != dst.x2
        || clamped.y2 != dst.y2;
    if is_clamped {
        let ox = clamped.x1 - dst.x1;
        let oy = clamped.y1 - dst.y1;
        let window = Rect {
            x1: ox,
            y1: oy,
            x2: clamped.x2 - dst.x1,
            y2: clamped.y2 - dst.y1,
        };
        let mut adjusted: Vec<Rect> = Vec::new();
        let fn_len = filtered.len();
        let mut i: usize = 0;
        while i < fn_len
            invariant
                fn_len == filtered.len(),
                0 <= i <= fn_len,
                ox == clamped.x1 - dst.x1,
                oy == clamped.y1 - dst.y1,
                window == (Rect {
                    x1: ox,
                    y1: oy,
                    x2: (clamped.x2 - dst.x1) as i32,
                    y2: (clamped.y2 - dst.y1) as i32,
                }),
                0 <= ox,
                0 <= oy,
                clamped.x2 - dst.x1 <= i32::MAX,
                clamped.y2 - dst.y1 <= i32::MAX,
                clamped.x1 <= clamped.x2,
                clamped.y1 <= clamped.y2,
                forall|k: int| 0 <= k < adjusted@.len() ==> rect_nonempty(#[trigger] adjusted@[k]),
                forall|x: int, y: int|
                    #![trigger rects_cover(adjusted@, x, y)]
                    rects_cover(adjusted@, x, y) <==> (0 <= x < clamped.x2 - clamped.x1 && 0 <= y
                        < clamped.y2 - clamped.y1 && rects_cover_between(
                        filtered@,
                        0,
                        i as int,
                        x + ox,
                        y + oy,
                    )),
            decreases fn_len - i,
        {
            proof {
                lemma_rects_between_step(filtered@, 0, i as int);
            }
            match filtered[i].intersection(&window) {
                Some(c) => {
                    let moved = Rect { x1: c.x1 - ox, y1: c.y1 - oy, x2: c.x2 - ox, y2: c.y2 - oy };
                    proof {
                        lemma_rects_cover_push(adjusted@, moved);
                    }
                    adjusted.push(moved);
                },
                None => {},
            }
            i += 1;
        }
        proof {
            lemma_rects_cover_full(filtered@);
        }
        filtered = adjusted;
        proof {
            // The adjusted damage covers exactly the planned damage.
            assert(clamped != *dst);
            assert forall|x: int, y: int|
                rects_cover(filtered@, x, y) <==> planned_damage_at(
                    sub_view,
                    damage@,
                    *dst,
                    clamped,
                    x,
                    y,
                ) by {
                assert(rects_cover(filtered@, x, y) <==> (0 <= x < clamped.x2 - clamped.x1 && 0 <= y
                    < clamped.y2 - clamped.y1 && rects_cover_between(
                    base,
                    0,
                    base.len() as int,
                    x + (clamped.x1 - dst.x1),
                    y + (clamped.y1 - dst.y1),
                )));
            }
        }
    } else {
        proof {
            assert(clamped == *dst);
        }
    }

    if filtered.is_empty() {
        proof {
            if is_clamped || !(sub_view is None) {
                assert forall|x: int, y: int|
                    !planned_damage_at(sub_view, damage@, *dst, cl, x, y) by {
                    if planned_damage_at(sub_view, damage@, *dst, cl, x, y) {
                        if is_clamped {
                            assert(rects_cover(filtered@, x, y));
                        } else {
                            assert(rects_cover(base, x, y));
                        }
                        assert(false);
                    }
                }
            } else {
                assert(base == damage@ && base.len() == 0);
            }
        }
        return None;
    }
    proof {
        if !is_clamped && !(sub_view is None) {
            assert forall|x: int, y: int|
                rects_cover(filtered@, x, y) <==> planned_damage_at(
                    sub_view,
                    damage@,
                    *dst,
                    clamped,
                    x,
                    y,
                ) by {}
        }
    }
    Some(DrawPlan { clamped_dst: clamped, damage: filtered })
}

} // verus!
