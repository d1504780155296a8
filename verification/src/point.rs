use vstd::prelude::*;
use crate::region::Qrect;

verus! {

/// A grid point that carries a payload.
#[derive(Debug)]
pub struct Point<T: Clone> {
    pub x: i32,
    pub y: i32,
    pub data: T,
}

impl<T: Clone> Point<T> {
    /// `self` is what copying `source` may yield: the same coordinates, and a
    /// payload that is a clone of the source's.
    pub open spec fn is_copy_of(self, source: Point<T>) -> bool {
        &&& self.x == source.x
        &&& self.y == source.y
        &&& cloned(source.data, self.data)
    }

    /// The point at `(x, y)` with the payload `data`.
    pub fn new(x: i32, y: i32, data: T) -> (p: Self)
        ensures
            p == (Point { x, y, data }),
    {
        Point { x, y, data }
    }

    /// The point lies strictly closer than `radius` to `(cx, cy)`.
    pub open spec fn spec_within_radius(self, cx: int, cy: int, radius: int) -> bool {
        (self.x - cx) * (self.x - cx) + (self.y - cy) * (self.y - cy) < radius * radius
    }

    /// Whether the point lies strictly closer than `radius` to `(cx, cy)`. The
    /// squared distance is compared with the squared radius, so a point at
    /// distance exactly `radius` is not within it.
    pub fn within_radius(&self, cx: i32, cy: i32, radius: u32) -> (near: bool)
        ensures
            near == self.spec_within_radius(cx as int, cy as int, radius as int),
    {
        let dx: i128 = self.x as i128 - cx as i128;
        let dy: i128 = self.y as i128 - cy as i128;
        let r: i128 = radius as i128;
        assert(0 <= dx * dx <= 0x1_0000_0000_0000_0000) by (nonlinear_arith)
            requires
                -0x1_0000_0000 <= dx <= 0x1_0000_0000,
        ;
        assert(0 <= dy * dy <= 0x1_0000_0000_0000_0000) by (nonlinear_arith)
            requires
                -0x1_0000_0000 <= dy <= 0x1_0000_0000,
        ;
        assert(0 <= r * r <= 0x1_0000_0000_0000_0000) by (nonlinear_arith)
            requires
                0 <= r <= 0x1_0000_0000,
        ;
        dx * dx + dy * dy < r * r
    }
}

impl<T: Clone> Clone for Point<T> {
    /// The same position, with a clone of the payload.
    fn clone(&self) -> (copy: Self)
        ensures
            copy.is_copy_of(*self),
    {
        Point { x: self.x, y: self.y, data: self.data.clone() }
    }
}

/// The points whose position lies in `range`, as a predicate.
pub open spec fn inside<T: Clone>(range: Qrect) -> spec_fn(Point<T>) -> bool {
    |p: Point<T>| range.covers(p.x as int, p.y as int)
}

/// The points that lie strictly closer than `radius` to `(cx, cy)`, as a
/// predicate. Distances are compared by their squares.
pub open spec fn in_circle<T: Clone>(cx: int, cy: int, radius: int) -> spec_fn(Point<T>) -> bool {
    |p: Point<T>| p.spec_within_radius(cx, cy, radius)
}

/// `copies` has the length of `sources`, and each of its points is a copy of
/// the point at the same place in `sources`.
pub open spec fn copies_of<T: Clone>(copies: Seq<Point<T>>, sources: Seq<Point<T>>) -> bool {
    &&& copies.len() == sources.len()
    &&& forall|i: int| 0 <= i < sources.len() ==> (#[trigger] copies[i]).is_copy_of(sources[i])
}

/// Every point of `points` lies in `region`.
pub open spec fn all_inside<T: Clone>(points: Seq<Point<T>>, region: Qrect) -> bool {
    forall|i: int|
        0 <= i < points.len() ==> region.covers(
            (#[trigger] points[i]).x as int,
            points[i].y as int,
        )
}

} // verus!
