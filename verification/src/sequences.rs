//! Facts about sequences of points that the proofs of the tree rest on.

use vstd::prelude::*;
use crate::point::{all_inside, copies_of, inside, Point};
use crate::region::Qrect;

verus! {

/// Points that all lie in a region disjoint from `range` hold none that lies
/// in `range`.
pub proof fn lemma_filter_disjoint<T: Clone>(points: Seq<Point<T>>, region: Qrect, range: Qrect)
    requires
        all_inside(points, region),
        !region.overlaps(range),
    ensures
        points.filter(inside(range)) == Seq::<Point<T>>::empty(),
{
    let kept = points.filter(inside(range));
    if kept.len() > 0 {
        points.lemma_filter_pred(inside(range), 0);
        assert(kept.contains(kept[0]));
        points.lemma_filter_contains_rev(inside(range), kept[0]);
        let j = choose|j: int| 0 <= j < points.len() && points[j] == kept[0];
        assert(region.covers(points[j].x as int, points[j].y as int));
    }
}

/// Points that all lie in `range` are all kept by a query for `range`.
pub proof fn lemma_filter_covered<T: Clone>(points: Seq<Point<T>>, range: Qrect)
    requires
        all_inside(points, range),
    ensures
        points.filter(inside(range)) == points,
    decreases points.len(),
{
    reveal(Seq::filter);
    if points.len() > 0 {
        lemma_filter_covered(points.drop_last(), range);
        assert(inside::<T>(range)(points.last()));
        assert(points.drop_last().push(points.last()) == points);
    }
}

/// A point strictly closer than `radius` to a centre lies in the square of
/// half-extent `radius` round that centre.
pub proof fn lemma_circle_in_square<T: Clone>(p: Point<T>, cx: i32, cy: i32, radius: u32)
    requires
        p.spec_within_radius(cx as int, cy as int, radius as int),
    ensures
        (Qrect { x: cx, y: cy, w: radius, h: radius }).covers(p.x as int, p.y as int),
{
    let dx = p.x - cx;
    let dy = p.y - cy;
    let r = radius as int;
    assert(-r <= dx <= r && -r <= dy <= r) by (nonlinear_arith)
        requires
            dx * dx + dy * dy < r * r,
            r >= 0,
    ;
}

/// Filtering by a predicate and then by a stronger one keeps what the
/// stronger one alone keeps.
pub proof fn lemma_filter_refine<A>(s: Seq<A>, weak: spec_fn(A) -> bool, strong: spec_fn(A) -> bool)
    requires
        forall|a: A| #[trigger] strong(a) ==> weak(a),
    ensures
        s.filter(weak).filter(strong) == s.filter(strong),
    decreases s.len(),
{
    reveal(Seq::filter);
    if s.len() > 0 {
        lemma_filter_refine(s.drop_last(), weak, strong);
        if weak(s.last()) {
            s.drop_last().filter(weak).lemma_filter_push(s.last(), strong);
        }
    }
}

/// Inserting into the front part of a concatenation.
pub proof fn lemma_insert_before<A>(front: Seq<A>, back: Seq<A>, i: int, a: A)
    requires
        0 <= i <= front.len(),
    ensures
        front.insert(i, a) + back == (front + back).insert(i, a),
{
    assert(front.insert(i, a) + back =~= (front + back).insert(i, a));
}

/// Inserting into the back part of a concatenation.
pub proof fn lemma_insert_behind<A>(front: Seq<A>, back: Seq<A>, i: int, a: A)
    requires
        0 <= i <= back.len(),
    ensures
        front + back.insert(i, a) == (front + back).insert(front.len() + i, a),
{
    assert(front + back.insert(i, a) =~= (front + back).insert(front.len() + i, a));
}

/// Copies of two sequences, one after the other, are copies of the two
/// sequences one after the other.
pub proof fn lemma_copies_concat<T: Clone>(
    a: Seq<Point<T>>,
    b: Seq<Point<T>>,
    x: Seq<Point<T>>,
    y: Seq<Point<T>>,
)
    requires
        copies_of(a, x),
        copies_of(b, y),
    ensures
        copies_of(a + b, x + y),
{
    assert forall|i: int| 0 <= i < (x + y).len() implies (#[trigger] (a + b)[i]).is_copy_of(
        (x + y)[i],
    ) by {
        if i < x.len() {
            assert((a + b)[i] == a[i]);
        } else {
            assert((a + b)[i] == b[i - a.len()]);
        }
    }
}

} // verus!
