use vstd::prelude::*;
use crate::point::{copies_of, in_circle, inside, Point};
use crate::region::{Quadrant, Qrect};

verus! {

/// The mathematical model of a quadtree node with everything below it: what
/// the contracts of [`Quadtree`](crate::Quadtree) speak of.
pub struct TreeModel<T: Clone> {
    /// The region this node is responsible for.
    pub boundary: Qrect,
    /// How many points a node holds itself before it splits.
    pub capacity: nat,
    /// The points held by this node itself, oldest first.
    pub points: Seq<Point<T>>,
    /// The four quadrants, once the node has split.
    pub children: Option<Box<Quads<T>>>,
}

/// The four children of a node that has split.
pub struct Quads<T: Clone> {
    pub top_left: TreeModel<T>,
    pub top_right: TreeModel<T>,
    pub bottom_left: TreeModel<T>,
    pub bottom_right: TreeModel<T>,
}

impl<T: Clone> Quads<T> {
    /// The child in quadrant `q`.
    pub open spec fn get(self, q: Quadrant) -> TreeModel<T> {
        match q {
            Quadrant::TopLeft => self.top_left,
            Quadrant::TopRight => self.top_right,
            Quadrant::BottomLeft => self.bottom_left,
            Quadrant::BottomRight => self.bottom_right,
        }
    }

    /// The same children, but for `child` in quadrant `q`.
    pub open spec fn set(self, q: Quadrant, child: TreeModel<T>) -> Quads<T> {
        match q {
            Quadrant::TopLeft => Quads { top_left: child, ..self },
            Quadrant::TopRight => Quads { top_right: child, ..self },
            Quadrant::BottomLeft => Quads { bottom_left: child, ..self },
            Quadrant::BottomRight => Quads { bottom_right: child, ..self },
        }
    }

    /// Four empty children for a node with the given boundary and capacity.
    pub open spec fn fresh(boundary: Qrect, capacity: nat) -> Quads<T> {
        Quads {
            top_left: TreeModel::empty(boundary.spec_quadrant(Quadrant::TopLeft), capacity),
            top_right: TreeModel::empty(boundary.spec_quadrant(Quadrant::TopRight), capacity),
            bottom_left: TreeModel::empty(boundary.spec_quadrant(Quadrant::BottomLeft), capacity),
            bottom_right: TreeModel::empty(
                boundary.spec_quadrant(Quadrant::BottomRight),
                capacity,
            ),
        }
    }

    /// Each child has the given capacity, and its boundary is its quadrant of
    /// the given boundary.
    pub open spec fn quarters(self, boundary: Qrect, capacity: nat) -> bool {
        &&& self.quarter(Quadrant::TopLeft, boundary, capacity)
        &&& self.quarter(Quadrant::TopRight, boundary, capacity)
        &&& self.quarter(Quadrant::BottomLeft, boundary, capacity)
        &&& self.quarter(Quadrant::BottomRight, boundary, capacity)
    }

    /// The child in quadrant `q` has the given capacity, and its boundary is
    /// that quadrant of the given boundary.
    pub open spec fn quarter(self, q: Quadrant, boundary: Qrect, capacity: nat) -> bool {
        &&& self.get(q).capacity == capacity
        &&& self.get(q).boundary == boundary.spec_quadrant(q)
    }

    /// The first child, in the order top left, top right, bottom left, bottom
    /// right, whose boundary covers `(px, py)`.
    pub open spec fn route(self, px: int, py: int) -> Quadrant {
        if self.top_left.boundary.covers(px, py) {
            Quadrant::TopLeft
        } else if self.top_right.boundary.covers(px, py) {
            Quadrant::TopRight
        } else if self.bottom_left.boundary.covers(px, py) {
            Quadrant::BottomLeft
        } else {
            Quadrant::BottomRight
        }
    }
}

impl<T: Clone> TreeModel<T> {
    /// A node without points and without children.
    pub open spec fn empty(boundary: Qrect, capacity: nat) -> TreeModel<T> {
        TreeModel { boundary, capacity, points: Seq::empty(), children: None }
    }

    /// The node has split: it has its four children.
    pub open spec fn divided(self) -> bool {
        self.children is Some
    }

    /// The invariant of a quadtree. The boundary can be split into quadrants
    /// (`Qrect::in_bounds`) and the capacity is at least one. A node holds at
    /// most `capacity` points, all of them inside its boundary, and it has
    /// split only if it is full. The children of a node that has split are
    /// themselves well formed, have the node's capacity, and their boundaries
    /// are the node's four quadrants.
    pub open spec fn wf(self) -> bool
        decreases self,
    {
        &&& self.boundary.in_bounds()
        &&& self.capacity >= 1
        &&& self.points.len() <= self.capacity
        &&& forall|i: int|
            0 <= i < self.points.len() ==> self.boundary.covers(
                (#[trigger] self.points[i]).x as int,
                self.points[i].y as int,
            )
        &&& match self.children {
            None => true,
            Some(k) => {
                &&& self.points.len() == self.capacity
                &&& k.quarters(self.boundary, self.capacity)
                &&& k.top_left.wf()
                &&& k.top_right.wf()
                &&& k.bottom_left.wf()
                &&& k.bottom_right.wf()
            },
        }
    }

    /// Every point stored in the tree: the node's own points, oldest first, then
    /// those of the top left, top right, bottom left and bottom right subtrees.
    pub open spec fn contents(self) -> Seq<Point<T>>
        decreases self,
    {
        match self.children {
            None => self.points,
            Some(k) => self.points + k.top_left.contents() + k.top_right.contents()
                + k.bottom_left.contents() + k.bottom_right.contents(),
        }
    }

    /// The boundary of every node, in the order of `contents`: the node's own,
    /// then those of the four subtrees.
    pub open spec fn rects(self) -> Seq<Qrect>
        decreases self,
    {
        match self.children {
            None => seq![self.boundary],
            Some(k) => seq![self.boundary] + k.top_left.rects() + k.top_right.rects()
                + k.bottom_left.rects() + k.bottom_right.rects(),
        }
    }

    /// The node with `p` appended to its own points.
    pub open spec fn store(self, p: Point<T>) -> TreeModel<T> {
        TreeModel { points: self.points.push(p), ..self }
    }

    /// The tree after `p` has been offered to it.
    ///
    /// A point outside the boundary changes nothing. A node that has not split
    /// and has room stores the point itself. Otherwise the point goes to the
    /// first child whose boundary covers it; a node that has not split yet
    /// first gets four empty children, so there the point is stored in the
    /// child itself.
    pub open spec fn insert(self, p: Point<T>) -> TreeModel<T>
        decreases self,
    {
        if !self.boundary.covers(p.x as int, p.y as int) {
            self
        } else if !self.divided() && self.points.len() < self.capacity {
            self.store(p)
        } else {
            match self.children {
                Some(k) => {
                    let q = k.route(p.x as int, p.y as int);
                    TreeModel { children: Some(Box::new(k.set(q, k.get(q).insert(p)))), ..self }
                },
                None => {
                    let k = Quads::fresh(self.boundary, self.capacity);
                    let q = k.route(p.x as int, p.y as int);
                    TreeModel { children: Some(Box::new(k.set(q, k.get(q).store(p)))), ..self }
                },
            }
        }
    }

    /// `self` is what copying the tree `source` may yield: the same boundary,
    /// capacity and shape, and at every place a copy of the point that the
    /// source has there.
    pub open spec fn is_copy_of(self, source: TreeModel<T>) -> bool
        decreases self,
    {
        &&& self.boundary == source.boundary
        &&& self.capacity == source.capacity
        &&& copies_of(self.points, source.points)
        &&& match (self.children, source.children) {
            (None, None) => true,
            (Some(a), Some(b)) => {
                &&& a.top_left.is_copy_of(b.top_left)
                &&& a.top_right.is_copy_of(b.top_right)
                &&& a.bottom_left.is_copy_of(b.bottom_left)
                &&& a.bottom_right.is_copy_of(b.bottom_right)
            },
            _ => false,
        }
    }

    /// The tree after the points of `ps` have been offered to it, first to last.
    pub open spec fn insert_all(self, ps: Seq<Point<T>>) -> TreeModel<T>
        decreases ps.len(),
    {
        if ps.len() == 0 {
            self
        } else {
            self.insert_all(ps.drop_last()).insert(ps.last())
        }
    }

    /// The place in `contents` at which `insert` puts a point that the tree
    /// accepts: behind the points of the node that stores it, and behind those
    /// of every subtree that comes before that node.
    pub open spec fn slot(self, p: Point<T>) -> int
        decreases self,
    {
        match self.children {
            None => self.points.len() as int,
            Some(k) => match k.route(p.x as int, p.y as int) {
                Quadrant::TopLeft => self.points.len() + k.top_left.slot(p),
                Quadrant::TopRight => self.points.len() + k.top_left.contents().len()
                    + k.top_right.slot(p),
                Quadrant::BottomLeft => self.points.len() + k.top_left.contents().len()
                    + k.top_right.contents().len() + k.bottom_left.slot(p),
                Quadrant::BottomRight => self.points.len() + k.top_left.contents().len()
                    + k.top_right.contents().len() + k.bottom_left.contents().len()
                    + k.bottom_right.slot(p),
            },
        }
    }

    /// A bound on how far an insertion still descends from this node: it drops
    /// from a node to each of its children, and from a full node that has not
    /// split to the empty children it is about to get.
    pub open spec fn rank(self) -> nat
        decreases self,
    {
        match self.children {
            None => if self.points.len() < self.capacity {
                0
            } else {
                2
            },
            Some(k) => 1 + k.top_left.rank() + k.top_right.rank() + k.bottom_left.rank()
                + k.bottom_right.rank(),
        }
    }

    /// The stored points that lie in `range`, in the order of `contents`.
    pub open spec fn query(self, range: Qrect) -> Seq<Point<T>> {
        self.contents().filter(inside(range))
    }

    /// The stored points that lie strictly closer than `radius` to `(cx, cy)`,
    /// in the order of `contents`.
    pub open spec fn query_circle(self, cx: int, cy: int, radius: int) -> Seq<Point<T>> {
        self.contents().filter(in_circle(cx, cy, radius))
    }
}

} // verus!
