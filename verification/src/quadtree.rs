use vstd::prelude::*;
use crate::laws::{
    lemma_contents_inside, lemma_copy_of_tree, lemma_insert_adds_one, lemma_insert_wf,
};
use crate::sequences::{
    lemma_circle_in_square, lemma_filter_covered, lemma_filter_disjoint, lemma_filter_refine,
};
use crate::model::{Quads, TreeModel};
use crate::point::{copies_of, in_circle, inside, Point};
use crate::region::{Quadrant, Qrect};

verus! {

/// A quadtree over the grid: points with payloads of type `T`, stored inside a
/// fixed boundary.
pub struct Quadtree<T: Clone> {
    boundary: Qrect,
    capacity: usize,
    points: Vec<Point<T>>,
    children: Option<Box<Children<T>>>,
}

struct Children<T: Clone> {
    top_left: Quadtree<T>,
    top_right: Quadtree<T>,
    bottom_left: Quadtree<T>,
    bottom_right: Quadtree<T>,
}

impl<T: Clone> Children<T> {
    spec fn model(self) -> Quads<T>
        decreases self,
    {
        Quads {
            top_left: self.top_left.model(),
            top_right: self.top_right.model(),
            bottom_left: self.bottom_left.model(),
            bottom_right: self.bottom_right.model(),
        }
    }
}

impl<T: Clone> Clone for Quadtree<T> {
    /// A tree of the same shape that holds a copy of every point.
    fn clone(&self) -> (copy: Self)
        ensures
            copy@.is_copy_of(self@),
            self.wf() ==> copy.wf(),
        decreases self,
    {
        let mut points: Vec<Point<T>> = Vec::new();
        let mut i: usize = 0;
        while i < self.points.len()
            invariant
                i <= self.points.len(),
                copies_of(points@, self.points@.take(i as int)),
            decreases self.points.len() - i,
        {
            points.push(self.points[i].clone());
            i += 1;
        }
        assert(self.points@.take(self.points@.len() as int) =~= self.points@);
        let children = match &self.children {
            None => None,
            Some(k) => Some(Box::new(Children {
                top_left: k.top_left.clone(),
                top_right: k.top_right.clone(),
                bottom_left: k.bottom_left.clone(),
                bottom_right: k.bottom_right.clone(),
            })),
        };
        let copy = Quadtree { boundary: self.boundary, capacity: self.capacity, points, children };
        proof {
            lemma_copy_of_tree(copy@, self@);
        }
        copy
    }
}

impl<T: Clone> View for Quadtree<T> {
    type V = TreeModel<T>;

    closed spec fn view(&self) -> TreeModel<T> {
        self.model()
    }
}

impl<T: Clone> Quadtree<T> {
    spec fn model(self) -> TreeModel<T>
        decreases self,
    {
        TreeModel {
            boundary: self.boundary,
            capacity: self.capacity as nat,
            points: self.points@,
            children: match self.children {
                None => None,
                Some(k) => Some(Box::new(k.model())),
            },
        }
    }

    /// The tree satisfies the quadtree invariant, [`TreeModel::wf`].
    pub open spec fn wf(&self) -> bool {
        self@.wf()
    }

    /// An empty tree for the region `boundary`, whose nodes hold up to
    /// `capacity` points each.
    pub fn new(boundary: Qrect, capacity: usize) -> (tree: Self)
        requires
            boundary.in_bounds(),
            capacity >= 1,
        ensures
            tree.wf(),
            tree@ == TreeModel::<T>::empty(boundary, capacity as nat),
    {
        Quadtree { boundary, capacity, points: Vec::new(), children: None }
    }

    /// Offers `point` to the tree, which stores a copy of it if the point lies
    /// inside the boundary, edges included. Returns whether it did.
    pub fn insert(&mut self, point: &Point<T>) -> (accepted: bool)
        requires
            old(self).wf(),
        ensures
            final(self).wf(),
            accepted == old(self)@.boundary.covers(point.x as int, point.y as int),
            !accepted ==> final(self)@ == old(self)@,
            accepted ==> exists|stored: Point<T>|
                stored.is_copy_of(*point) && final(self)@ == old(self)@.insert(stored),
            final(self)@.contents().len() == old(self)@.contents().len() + if accepted {
                1int
            } else {
                0int
            },
        decreases old(self)@.rank(),
    {
        if !self.boundary.contains_point(point) {
            return false;
        }
        if self.points.len() < self.capacity {
            let copy = point.clone();
            self.points.push(copy);
            proof {
                assert(self@ == old(self)@.insert(copy));
                lemma_insert_wf(old(self)@, copy);
                lemma_insert_adds_one(old(self)@, copy);
            }
            return true;
        }
        if self.children.is_none() {
            self.subdivide();
        }
        proof {
            self.boundary.lemma_quadrants_cover(point.x as int, point.y as int);
            self.boundary.lemma_quadrant_within(Quadrant::TopLeft);
            self.boundary.lemma_quadrant_within(Quadrant::TopRight);
            self.boundary.lemma_quadrant_within(Quadrant::BottomLeft);
            self.boundary.lemma_quadrant_within(Quadrant::BottomRight);
        }
        let accepted = match &mut self.children {
            Some(k) => k.top_left.insert(point) || k.top_right.insert(point)
                || k.bottom_left.insert(point) || k.bottom_right.insert(point),
            None => false,
        };
        proof {
            let stored = choose|stored: Point<T>|
                stored.is_copy_of(*point) && self@ == old(self)@.insert(stored);
            lemma_insert_wf(old(self)@, stored);
            lemma_insert_adds_one(old(self)@, stored);
        }
        accepted
    }

    /// Copies of the stored points that lie in `range`, edges included: first
    /// the node's own, oldest first, then those of the top left, top right,
    /// bottom left and bottom right subtrees. A subtree whose boundary does not
    /// meet `range` is not visited.
    pub fn query_rect(&self, range: &Qrect) -> (found: Vec<Point<T>>)
        requires
            self.wf(),
        ensures
            copies_of(found@, self@.query(*range)),
        decreases self,
    {
        let mut found: Vec<Point<T>> = Vec::new();
        if !self.boundary.intersects_rect(range) {
            proof {
                lemma_contents_inside(self@);
                lemma_filter_disjoint(self@.contents(), self.boundary, *range);
            }
            return found;
        }
        proof {
            assert(self.points@.take(0) =~= Seq::<Point<T>>::empty());
            reveal(Seq::filter);
        }
        let mut i: usize = 0;
        while i < self.points.len()
            invariant
                i <= self.points.len(),
                copies_of(found@, self.points@.take(i as int).filter(inside(*range))),
            decreases self.points.len() - i,
        {
            let point = &self.points[i];
            proof {
                assert(self.points@.take(i + 1) =~= self.points@.take(i as int).push(*point));
                self.points@.take(i as int).lemma_filter_push(*point, inside(*range));
            }
            if range.contains_point(point) {
                found.push(point.clone());
            }
            i += 1;
        }
        assert(self.points@.take(self.points@.len() as int) =~= self.points@);
        if let Some(k) = &self.children {
            let mut top_left_points = k.top_left.query_rect(range);
            let mut top_right_points = k.top_right.query_rect(range);
            let mut bottom_left_points = k.bottom_left.query_rect(range);
            let mut bottom_right_points = k.bottom_right.query_rect(range);
            found.append(&mut top_left_points);
            found.append(&mut top_right_points);
            found.append(&mut bottom_left_points);
            found.append(&mut bottom_right_points);
        }
        found
    }

    /// Copies of the stored points that lie strictly closer than `range` to
    /// `(x, y)`, in the order of `query_rect`. A point at distance exactly
    /// `range` is left out.
    pub fn query_circle(&self, x: i32, y: i32, range: u32) -> (found: Vec<Point<T>>)
        requires
            self.wf(),
        ensures
            copies_of(found@, self@.query_circle(x as int, y as int, range as int)),
    {
        let rect = Qrect::new(x, y, range, range);
        let candidates = self.query_rect(&rect);
        let ghost stored = self@.query(rect);
        let ghost near = in_circle::<T>(x as int, y as int, range as int);
        let mut found: Vec<Point<T>> = Vec::new();
        proof {
            assert(stored.take(0) =~= Seq::<Point<T>>::empty());
            reveal(Seq::filter);
        }
        for point in it: candidates.into_iter()
            invariant
                it.seq() == candidates@,
                copies_of(candidates@, stored),
                near == in_circle::<T>(x as int, y as int, range as int),
                copies_of(found@, stored.take(it.index()).filter(near)),
        {
            proof {
                let i = it.index();
                assert(stored.take(i + 1) =~= stored.take(i).push(stored[i]));
                stored.take(i).lemma_filter_push(stored[i], near);
                assert(point.is_copy_of(stored[i]));
            }
            if point.within_radius(x, y, range) {
                found.push(point);
            }
        }
        proof {
            assert(stored.take(stored.len() as int) =~= stored);
            assert forall|p: Point<T>| #[trigger] near(p) implies inside::<T>(rect)(p) by {
                lemma_circle_in_square(p, x, y, range);
            }
            lemma_filter_refine(self@.contents(), inside::<T>(rect), near);
        }
        found
    }

    /// Copies of all stored points, in the order of `query_rect`.
    pub fn collect(&self) -> (all: Vec<Point<T>>)
        requires
            self.wf(),
        ensures
            copies_of(all@, self@.contents()),
    {
        proof {
            lemma_contents_inside(self@);
            lemma_filter_covered(self@.contents(), self.boundary);
        }
        self.query_rect(&self.boundary)
    }

    /// The boundary of every node of the tree: the node's own, then those of
    /// the top left, top right, bottom left and bottom right subtrees.
    pub fn get_rects(&self) -> (rects: Vec<Qrect>)
        ensures
            rects@ == self@.rects(),
        decreases self,
    {
        let mut rects: Vec<Qrect> = Vec::new();
        rects.push(self.boundary);
        if let Some(k) = &self.children {
            let mut top_left_rects = k.top_left.get_rects();
            let mut top_right_rects = k.top_right.get_rects();
            let mut bottom_left_rects = k.bottom_left.get_rects();
            let mut bottom_right_rects = k.bottom_right.get_rects();
            rects.append(&mut top_left_rects);
            rects.append(&mut top_right_rects);
            rects.append(&mut bottom_left_rects);
            rects.append(&mut bottom_right_rects);
        }
        rects
    }

    /// Drops every point and every child: the tree is as `new` made it, with
    /// the boundary and the capacity it has.
    pub fn empty(&mut self)
        ensures
            final(self)@ == TreeModel::<T>::empty(old(self)@.boundary, old(self)@.capacity),
            old(self).wf() ==> final(self).wf(),
    {
        self.points.clear();
        self.children = None;
    }

    /// Gives a full node that has not split its four empty children.
    fn subdivide(&mut self)
        requires
            old(self).wf(),
            !old(self)@.divided(),
        ensures
            final(self)@ == (TreeModel {
                children: Some(Box::new(Quads::fresh(old(self)@.boundary, old(self)@.capacity))),
                ..old(self)@
            }),
    {
        let tl = self.boundary.quadrant(Quadrant::TopLeft);
        let tr = self.boundary.quadrant(Quadrant::TopRight);
        let bl = self.boundary.quadrant(Quadrant::BottomLeft);
        let br = self.boundary.quadrant(Quadrant::BottomRight);
        proof {
            self.boundary.lemma_quadrant_within(Quadrant::TopLeft);
            self.boundary.lemma_quadrant_within(Quadrant::TopRight);
            self.boundary.lemma_quadrant_within(Quadrant::BottomLeft);
            self.boundary.lemma_quadrant_within(Quadrant::BottomRight);
        }
        self.children = Some(Box::new(Children {
            top_left: Quadtree::new(tl, self.capacity),
            top_right: Quadtree::new(tr, self.capacity),
            bottom_left: Quadtree::new(bl, self.capacity),
            bottom_right: Quadtree::new(br, self.capacity),
        }));
    }
}

} // verus!
