//! What holds of every well-formed tree, proved over the model.

use vstd::prelude::*;
use crate::model::{Quads, TreeModel};
use crate::point::{all_inside, copies_of, in_circle, inside, Point};
use crate::region::{Quadrant, Qrect};
use crate::sequences::{
    lemma_copies_concat, lemma_filter_covered, lemma_filter_disjoint, lemma_insert_before,
    lemma_insert_behind,
};

verus! {

/// Every stored point lies inside the boundary of the tree.
pub proof fn lemma_contents_inside<T: Clone>(tree: TreeModel<T>)
    requires
        tree.wf(),
    ensures
        all_inside(tree.contents(), tree.boundary),
    decreases tree,
{
    match tree.children {
        None => {},
        Some(k) => {
            lemma_contents_inside(k.top_left);
            lemma_contents_inside(k.top_right);
            lemma_contents_inside(k.bottom_left);
            lemma_contents_inside(k.bottom_right);
            tree.boundary.lemma_quadrant_within(Quadrant::TopLeft);
            tree.boundary.lemma_quadrant_within(Quadrant::TopRight);
            tree.boundary.lemma_quadrant_within(Quadrant::BottomLeft);
            tree.boundary.lemma_quadrant_within(Quadrant::BottomRight);
        },
    }
}

/// Offering a point to a tree changes neither its boundary nor its capacity,
/// and a node that has split stays split.
pub proof fn lemma_insert_keeps_frame<T: Clone>(tree: TreeModel<T>, p: Point<T>)
    ensures
        tree.insert(p).boundary == tree.boundary,
        tree.insert(p).capacity == tree.capacity,
        tree.divided() ==> tree.insert(p).divided(),
{
}

/// The children of a node that is about to split are routed to as the
/// quadrants of its boundary are.
pub proof fn lemma_fresh_route<T: Clone>(boundary: Qrect, capacity: nat, px: int, py: int)
    ensures
        Quads::<T>::fresh(boundary, capacity).route(px, py) == boundary.quadrant_of(px, py),
        Quads::<T>::fresh(boundary, capacity).quarters(boundary, capacity),
{
}

/// Insertion preserves the invariant.
pub proof fn lemma_insert_wf<T: Clone>(tree: TreeModel<T>, p: Point<T>)
    requires
        tree.wf(),
    ensures
        tree.insert(p).wf(),
    decreases tree,
{
    if tree.boundary.covers(p.x as int, p.y as int) {
        tree.boundary.lemma_quadrants_cover(p.x as int, p.y as int);
        tree.boundary.lemma_quadrant_within(Quadrant::TopLeft);
        tree.boundary.lemma_quadrant_within(Quadrant::TopRight);
        tree.boundary.lemma_quadrant_within(Quadrant::BottomLeft);
        tree.boundary.lemma_quadrant_within(Quadrant::BottomRight);
        match tree.children {
            Some(k) => {
                let q = k.route(p.x as int, p.y as int);
                lemma_insert_wf(k.get(q), p);
                lemma_insert_keeps_frame(k.get(q), p);
            },
            None => {
                if tree.points.len() >= tree.capacity {
                    lemma_fresh_route::<T>(tree.boundary, tree.capacity, p.x as int, p.y as int);
                    let k = Quads::<T>::fresh(tree.boundary, tree.capacity);
                    let q = k.route(p.x as int, p.y as int);
                    assert(k.top_left.wf() && k.top_right.wf() && k.bottom_left.wf()
                        && k.bottom_right.wf());
                    assert(k.get(q).store(p).wf());
                }
            },
        }
    }
}

/// The children of a well-formed node that has split are routed to as the
/// quadrants of its boundary are, and the child chosen for a point inside the
/// boundary covers it.
pub proof fn lemma_route_covers<T: Clone>(tree: TreeModel<T>, p: Point<T>)
    requires
        tree.wf(),
        tree.boundary.covers(p.x as int, p.y as int),
        tree.children is Some,
    ensures
        ({
            let k = tree.children->0;
            let q = k.route(p.x as int, p.y as int);
            &&& q == tree.boundary.quadrant_of(p.x as int, p.y as int)
            &&& k.get(q).wf()
            &&& k.get(q).boundary.covers(p.x as int, p.y as int)
        }),
{
    tree.boundary.lemma_quadrants_cover(p.x as int, p.y as int);
}

/// An accepted point takes its slot in the contents: the points stored before
/// keep their order, and the new point stands at `slot`. A point outside the
/// boundary leaves the tree as it was.
pub proof fn lemma_insert_contents<T: Clone>(tree: TreeModel<T>, p: Point<T>)
    requires
        tree.wf(),
    ensures
        tree.boundary.covers(p.x as int, p.y as int) ==> {
            &&& 0 <= tree.slot(p) <= tree.contents().len()
            &&& tree.insert(p).contents() == tree.contents().insert(tree.slot(p), p)
        },
        !tree.boundary.covers(p.x as int, p.y as int) ==> tree.insert(p) == tree,
    decreases tree,
{
    if tree.boundary.covers(p.x as int, p.y as int) {
        let after = tree.insert(p);
        match tree.children {
            Some(k) => {
                lemma_route_covers(tree, p);
                let q = k.route(p.x as int, p.y as int);
                lemma_insert_contents(k.get(q), p);
                let grown = k.set(q, k.get(q).insert(p));
                assert(after.children == Some(Box::new(grown)));
                let s = k.get(q).slot(p);
                let own = tree.points;
                let tl = k.top_left.contents();
                let tr = k.top_right.contents();
                let bl = k.bottom_left.contents();
                let br = k.bottom_right.contents();
                match q {
                    Quadrant::TopLeft => {
                        lemma_insert_behind(own, tl, s, p);
                        lemma_insert_before(own + tl, tr, own.len() + s, p);
                        lemma_insert_before(own + tl + tr, bl, own.len() + s, p);
                        lemma_insert_before(own + tl + tr + bl, br, own.len() + s, p);
                    },
                    Quadrant::TopRight => {
                        lemma_insert_behind(own + tl, tr, s, p);
                        lemma_insert_before(own + tl + tr, bl, own.len() + tl.len() + s, p);
                        lemma_insert_before(own + tl + tr + bl, br, own.len() + tl.len() + s, p);
                    },
                    Quadrant::BottomLeft => {
                        lemma_insert_behind(own + tl + tr, bl, s, p);
                        lemma_insert_before(
                            own + tl + tr + bl,
                            br,
                            own.len() + tl.len() + tr.len() + s,
                            p,
                        );
                    },
                    Quadrant::BottomRight => {
                        lemma_insert_behind(own + tl + tr + bl, br, s, p);
                    },
                }
            },
            None => {
                if tree.points.len() >= tree.capacity {
                    let k = Quads::<T>::fresh(tree.boundary, tree.capacity);
                    let q = k.route(p.x as int, p.y as int);
                    let grown = k.set(q, k.get(q).store(p));
                    assert(after.children == Some(Box::new(grown)));
                    assert(grown.get(q).contents() =~= seq![p]);
                    assert(after.contents() == tree.points + grown.top_left.contents()
                        + grown.top_right.contents() + grown.bottom_left.contents()
                        + grown.bottom_right.contents());
                    assert(after.contents() =~= tree.contents().insert(tree.slot(p), p));
                } else {
                    assert(after.contents() =~= tree.contents().insert(tree.slot(p), p));
                }
            },
        }
    }
}

/// An accepted point adds itself to the stored points and nothing else: the
/// count grows by one, and as a multiset the contents gain exactly that point.
pub proof fn lemma_insert_adds_one<T: Clone>(tree: TreeModel<T>, p: Point<T>)
    requires
        tree.wf(),
        tree.boundary.covers(p.x as int, p.y as int),
    ensures
        tree.insert(p).contents().len() == tree.contents().len() + 1,
        tree.insert(p).contents().to_multiset() == tree.contents().to_multiset().insert(p),
{
    broadcast use vstd::seq_lib::group_to_multiset_ensures;

    lemma_insert_contents(tree, p);
}

/// Offering points one after the other keeps the invariant, and the tree then
/// holds as many more points as were offered from inside its boundary.
pub proof fn lemma_insert_all_count<T: Clone>(tree: TreeModel<T>, ps: Seq<Point<T>>)
    requires
        tree.wf(),
    ensures
        tree.insert_all(ps).wf(),
        tree.insert_all(ps).boundary == tree.boundary,
        tree.insert_all(ps).capacity == tree.capacity,
        tree.insert_all(ps).contents().len() == tree.contents().len() + ps.filter(
            inside(tree.boundary),
        ).len(),
        tree.insert_all(ps).contents().to_multiset() == tree.contents().to_multiset().add(
            ps.filter(inside(tree.boundary)).to_multiset(),
        ),
    decreases ps.len(),
{
    broadcast use vstd::seq_lib::group_to_multiset_ensures;

    reveal(Seq::filter);
    if ps.len() > 0 {
        let before = tree.insert_all(ps.drop_last());
        lemma_insert_all_count(tree, ps.drop_last());
        lemma_insert_wf(before, ps.last());
        lemma_insert_keeps_frame(before, ps.last());
        lemma_insert_contents(before, ps.last());
        if tree.boundary.covers(ps.last().x as int, ps.last().y as int) {
            lemma_insert_adds_one(before, ps.last());
            assert(tree.insert_all(ps).contents().to_multiset()
                =~= tree.contents().to_multiset().add(
                ps.filter(inside(tree.boundary)).to_multiset(),
            ));
        }
    } else {
        assert(tree.contents().to_multiset().add(Seq::<Point<T>>::empty().to_multiset())
            =~= tree.contents().to_multiset());
    }
}

/// Points outside the boundary do not matter: offering a sequence of points
/// leaves the tree that offering only those inside the boundary leaves.
pub proof fn lemma_insert_all_skips_rejected<T: Clone>(tree: TreeModel<T>, ps: Seq<Point<T>>)
    ensures
        tree.insert_all(ps) == tree.insert_all(ps.filter(inside(tree.boundary))),
        tree.insert_all(ps).boundary == tree.boundary,
    decreases ps.len(),
{
    reveal(Seq::filter);
    if ps.len() > 0 {
        lemma_insert_all_skips_rejected(tree, ps.drop_last());
        let kept = ps.drop_last().filter(inside(tree.boundary));
        lemma_insert_keeps_frame(tree.insert_all(ps.drop_last()), ps.last());
        if inside::<T>(tree.boundary)(ps.last()) {
            assert(kept.push(ps.last()).drop_last() =~= kept);
        }
    }
}

/// Up to `capacity` points offered to an empty tree from inside its boundary
/// are all held by the root, in the order they came, and the root does not
/// split.
pub proof fn lemma_fill_keeps_leaf<T: Clone>(boundary: Qrect, capacity: nat, ps: Seq<Point<T>>)
    requires
        boundary.in_bounds(),
        capacity >= 1,
        all_inside(ps, boundary),
        ps.len() <= capacity,
    ensures
        TreeModel::empty(boundary, capacity).insert_all(ps) == (TreeModel {
            boundary,
            capacity,
            points: ps,
            children: None,
        }),
    decreases ps.len(),
{
    if ps.len() > 0 {
        lemma_fill_keeps_leaf(boundary, capacity, ps.drop_last());
        assert(ps.drop_last().push(ps.last()) =~= ps);
    } else {
        assert(ps =~= Seq::empty());
    }
}

/// One point more than `capacity` splits the root exactly once: the root keeps
/// the first `capacity` points, gets four children that have not split, and
/// the last point is the only one below the root, in the first quadrant that
/// covers it.
pub proof fn lemma_overflow_splits_once<T: Clone>(boundary: Qrect, capacity: nat, ps: Seq<Point<T>>)
    requires
        boundary.in_bounds(),
        capacity >= 1,
        all_inside(ps, boundary),
        ps.len() == capacity + 1,
    ensures
        ({
            let tree = TreeModel::empty(boundary, capacity).insert_all(ps);
            let fresh = Quads::<T>::fresh(boundary, capacity);
            let q = boundary.quadrant_of(ps.last().x as int, ps.last().y as int);
            &&& tree.points == ps.drop_last()
            &&& tree.children == Some(Box::new(fresh.set(q, fresh.get(q).store(ps.last()))))
            &&& !tree.children->0.top_left.divided()
            &&& !tree.children->0.top_right.divided()
            &&& !tree.children->0.bottom_left.divided()
            &&& !tree.children->0.bottom_right.divided()
            &&& tree.rects().len() == 5
        }),
{
    lemma_fill_keeps_leaf(boundary, capacity, ps.drop_last());
    lemma_fresh_route::<T>(boundary, capacity, ps.last().x as int, ps.last().y as int);
    let tree = TreeModel::empty(boundary, capacity).insert_all(ps);
    let k = tree.children->0;
    assert(k.top_left.rects().len() == 1);
    assert(k.top_right.rects().len() == 1);
    assert(k.bottom_left.rects().len() == 1);
    assert(k.bottom_right.rects().len() == 1);
}

/// A query for a region that holds the whole boundary returns every stored
/// point, in the order of `contents`.
pub proof fn lemma_query_covering<T: Clone>(tree: TreeModel<T>, range: Qrect)
    requires
        tree.wf(),
        tree.boundary.within(range),
    ensures
        tree.query(range) == tree.contents(),
{
    lemma_contents_inside(tree);
    lemma_filter_covered(tree.contents(), range);
}

/// A query for a region that does not meet the boundary returns nothing.
pub proof fn lemma_query_disjoint<T: Clone>(tree: TreeModel<T>, range: Qrect)
    requires
        tree.wf(),
        !tree.boundary.overlaps(range),
    ensures
        tree.query(range) == Seq::<Point<T>>::empty(),
{
    lemma_contents_inside(tree);
    lemma_filter_disjoint(tree.contents(), tree.boundary, range);
}

/// A circle query returns exactly the stored points that lie strictly closer
/// than the radius to the centre: a point at distance exactly the radius is
/// never among them, a point any closer always is.
pub proof fn lemma_circle_is_strict<T: Clone>(tree: TreeModel<T>, cx: int, cy: int, radius: int)
    ensures
        forall|i: int|
            0 <= i < tree.query_circle(cx, cy, radius).len() ==> (#[trigger] tree.query_circle(
                cx,
                cy,
                radius,
            )[i]).spec_within_radius(cx, cy, radius),
        forall|i: int|
            0 <= i < tree.contents().len() ==> (tree.query_circle(cx, cy, radius).contains(
                #[trigger] tree.contents()[i],
            ) <==> tree.contents()[i].spec_within_radius(cx, cy, radius)),
{
    let near = in_circle::<T>(cx, cy, radius);
    let found = tree.query_circle(cx, cy, radius);
    assert forall|i: int| 0 <= i < found.len() implies (#[trigger] found[i]).spec_within_radius(
        cx,
        cy,
        radius,
    ) by {
        tree.contents().lemma_filter_pred(near, i);
    }
    assert forall|i: int| 0 <= i < tree.contents().len() implies (found.contains(
        #[trigger] tree.contents()[i],
    ) <==> tree.contents()[i].spec_within_radius(cx, cy, radius)) by {
        let p = tree.contents()[i];
        if p.spec_within_radius(cx, cy, radius) {
            tree.contents().lemma_filter_contains(near, i);
        }
        if found.contains(p) {
            let j = choose|j: int| 0 <= j < found.len() && found[j] == p;
            tree.contents().lemma_filter_pred(near, j);
        }
    }
}

/// A copy of a well-formed tree is well formed, has the boundaries of the
/// source, and holds a copy of each of its points at the same place.
pub proof fn lemma_copy_of_tree<T: Clone>(copy: TreeModel<T>, source: TreeModel<T>)
    requires
        copy.is_copy_of(source),
    ensures
        copy.boundary == source.boundary,
        copy.capacity == source.capacity,
        source.wf() ==> copy.wf(),
        copy.rects() == source.rects(),
        copies_of(copy.contents(), source.contents()),
    decreases copy,
{
    if source.wf() {
        assert forall|i: int| 0 <= i < copy.points.len() implies copy.boundary.covers(
            (#[trigger] copy.points[i]).x as int,
            copy.points[i].y as int,
        ) by {
            assert(copy.points[i].is_copy_of(source.points[i]));
        }
    }
    match (copy.children, source.children) {
        (Some(a), Some(b)) => {
            lemma_copy_of_tree(a.top_left, b.top_left);
            lemma_copy_of_tree(a.top_right, b.top_right);
            lemma_copy_of_tree(a.bottom_left, b.bottom_left);
            lemma_copy_of_tree(a.bottom_right, b.bottom_right);
            lemma_copies_concat(
                copy.points,
                a.top_left.contents(),
                source.points,
                b.top_left.contents(),
            );
            lemma_copies_concat(
                copy.points + a.top_left.contents(),
                a.top_right.contents(),
                source.points + b.top_left.contents(),
                b.top_right.contents(),
            );
            lemma_copies_concat(
                copy.points + a.top_left.contents() + a.top_right.contents(),
                a.bottom_left.contents(),
                source.points + b.top_left.contents() + b.top_right.contents(),
                b.bottom_left.contents(),
            );
            lemma_copies_concat(
                copy.points + a.top_left.contents() + a.top_right.contents()
                    + a.bottom_left.contents(),
                a.bottom_right.contents(),
                source.points + b.top_left.contents() + b.top_right.contents()
                    + b.bottom_left.contents(),
                b.bottom_right.contents(),
            );
        },
        _ => {},
    }
}

} // verus!
