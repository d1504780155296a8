use vstd::prelude::*;
use crate::point::Point;

verus! {

/// One of the four quadrants of a rectangle. The y axis points down, so the
/// top quadrants are those with the smaller y.
#[derive(Clone, Copy, Debug, PartialEq, Eq, Structural)]
pub enum Quadrant {
    TopLeft,
    TopRight,
    BottomLeft,
    BottomRight,
}

/// An axis-aligned rectangle on the grid: its centre `(x, y)`, its half-width
/// `w` and its half-height `h`. It spans `[x - w, x + w]` by `[y - h, y + h]`,
/// edges included.
#[derive(Clone, Copy, Debug, PartialEq, Eq, Structural)]
pub struct Qrect {
    pub x: i32,
    pub y: i32,
    pub w: u32,
    pub h: u32,
}

impl Qrect {
    /// The x coordinate of the left edge.
    pub open spec fn left(self) -> int {
        self.x - self.w
    }

    /// The x coordinate of the right edge.
    pub open spec fn right(self) -> int {
        self.x + self.w
    }

    /// The y coordinate of the top edge, the smaller one.
    pub open spec fn top(self) -> int {
        self.y - self.h
    }

    /// The y coordinate of the bottom edge, the larger one.
    pub open spec fn bottom(self) -> int {
        self.y + self.h
    }

    /// The grid position `(px, py)` lies in the rectangle, edges included.
    pub open spec fn covers(self, px: int, py: int) -> bool {
        &&& self.left() <= px <= self.right()
        &&& self.top() <= py <= self.bottom()
    }

    /// The two rectangles share at least one position; touching edges count.
    pub open spec fn overlaps(self, other: Qrect) -> bool {
        &&& other.left() <= self.right()
        &&& self.left() <= other.right()
        &&& other.top() <= self.bottom()
        &&& self.top() <= other.bottom()
    }

    /// The rectangle reaches at most one position past the grid of `i32`
    /// coordinates on each side. Every rectangle that `corners` builds does, and
    /// so does every quadrant of one that does; the centre of each quadrant is
    /// then a grid position.
    pub open spec fn in_bounds(self) -> bool {
        &&& i32::MIN - 1 <= self.left()
        &&& self.right() <= i32::MAX + 1
        &&& i32::MIN - 1 <= self.top()
        &&& self.bottom() <= i32::MAX + 1
    }

    /// Every position of `self` is a position of `outer`.
    pub open spec fn within(self, outer: Qrect) -> bool {
        &&& outer.left() <= self.left()
        &&& self.right() <= outer.right()
        &&& outer.top() <= self.top()
        &&& self.bottom() <= outer.bottom()
    }

    /// The quadrant `q` of the rectangle. Its half-extents are those of the
    /// rectangle halved and rounded up; its centre lies half an extent, rounded
    /// down, from the rectangle's centre on each axis. The four quadrants have
    /// the same size, lie inside the rectangle and together cover it.
    pub open spec fn spec_quadrant(self, q: Quadrant) -> Qrect {
        let dx = self.w / 2;
        let dy = self.h / 2;
        let w = (self.w - dx) as u32;
        let h = (self.h - dy) as u32;
        match q {
            Quadrant::TopLeft => Qrect { x: (self.x - dx) as i32, y: (self.y - dy) as i32, w, h },
            Quadrant::TopRight => Qrect { x: (self.x + dx) as i32, y: (self.y - dy) as i32, w, h },
            Quadrant::BottomLeft => Qrect { x: (self.x - dx) as i32, y: (self.y + dy) as i32, w, h },
            Quadrant::BottomRight => Qrect { x: (self.x + dx) as i32, y: (self.y + dy) as i32, w, h },
        }
    }

    /// The first quadrant, in the order top left, top right, bottom left,
    /// bottom right, that covers `(px, py)`.
    pub open spec fn quadrant_of(self, px: int, py: int) -> Quadrant {
        if self.spec_quadrant(Quadrant::TopLeft).covers(px, py) {
            Quadrant::TopLeft
        } else if self.spec_quadrant(Quadrant::TopRight).covers(px, py) {
            Quadrant::TopRight
        } else if self.spec_quadrant(Quadrant::BottomLeft).covers(px, py) {
            Quadrant::BottomLeft
        } else {
            Quadrant::BottomRight
        }
    }

    /// The rectangle that `corners` builds from two opposite corners.
    pub open spec fn spec_corners(a: (i32, i32), b: (i32, i32)) -> Qrect {
        Qrect {
            x: ((a.0 + b.0) / 2) as i32,
            y: ((a.1 + b.1) / 2) as i32,
            w: ((distance(a.0 as int, b.0 as int) + 1) / 2) as u32,
            h: ((distance(a.1 as int, b.1 as int) + 1) / 2) as u32,
        }
    }

    /// With centre `(x, y)`, half-width `w` and half-height `h`.
    pub fn new(x: i32, y: i32, w: u32, h: u32) -> (r: Self)
        ensures
            r == (Qrect { x, y, w, h }),
    {
        Qrect { x, y, w, h }
    }

    /// Whether `p` lies in the rectangle; a point on an edge does.
    pub fn contains_point<T: Clone>(&self, p: &Point<T>) -> (inside: bool)
        ensures
            inside == self.covers(p.x as int, p.y as int),
    {
        let px: i64 = p.x as i64;
        let py: i64 = p.y as i64;
        let x: i64 = self.x as i64;
        let y: i64 = self.y as i64;
        let w: i64 = self.w as i64;
        let h: i64 = self.h as i64;
        px >= x - w && px <= x + w && py >= y - h && py <= y + h
    }

    /// The square of half-extent `range` round `(x, y)`.
    pub fn range(x: i32, y: i32, range: u32) -> (r: Self)
        ensures
            r == (Qrect { x, y, w: range, h: range }),
    {
        Qrect { x, y, w: range, h: range }
    }

    /// The smallest rectangle with a grid centre that holds both corners. The
    /// corners may come in either order. Where a side has odd length the centre
    /// is the midpoint rounded down and the half-extent is rounded up, so the
    /// rectangle reaches one position past the smaller corner on that axis.
    pub fn corners(top_left: (i32, i32), bottom_right: (i32, i32)) -> (r: Self)
        ensures
            r == Self::spec_corners(top_left, bottom_right),
            r.covers(top_left.0 as int, top_left.1 as int),
            r.covers(bottom_right.0 as int, bottom_right.1 as int),
            r.in_bounds(),
    {
        let x = midpoint(top_left.0, bottom_right.0);
        let y = midpoint(top_left.1, bottom_right.1);
        let w = half_span(top_left.0, bottom_right.0);
        let h = half_span(top_left.1, bottom_right.1);
        Qrect { x, y, w, h }
    }

    /// The rectangle of a screen `width` wide and `height` high whose top left
    /// corner is the origin: the centre is `(width / 2, height / 2)` rounded
    /// down, the half-extents are the halves rounded up. For even sizes it
    /// spans exactly `[0, width]` by `[0, height]`.
    pub fn screen_size(width: u32, height: u32) -> (r: Self)
        ensures
            r.x == width / 2,
            r.y == height / 2,
            r.w == (width + 1) / 2,
            r.h == (height + 1) / 2,
            r.covers(0, 0),
            r.covers(width as int, height as int),
            r.right() == width,
            r.bottom() == height,
            r.in_bounds() <==> width <= 0x8000_0000 && height <= 0x8000_0000,
    {
        let x: u32 = width / 2;
        let y: u32 = height / 2;
        Qrect { x: x as i32, y: y as i32, w: width - x, h: height - y }
    }

    /// Whether the rectangles share at least one position; touching edges
    /// count.
    pub fn intersects_rect(&self, range: &Qrect) -> (meet: bool)
        ensures
            meet == self.overlaps(*range),
    {
        let x: i64 = self.x as i64;
        let y: i64 = self.y as i64;
        let w: i64 = self.w as i64;
        let h: i64 = self.h as i64;
        let rx: i64 = range.x as i64;
        let ry: i64 = range.y as i64;
        let rw: i64 = range.w as i64;
        let rh: i64 = range.h as i64;
        !(rx - rw > x + w || rx + rw < x - w || ry - rh > y + h || ry + rh < y - h)
    }

    /// Whether the rectangle can be the boundary of a tree: see `in_bounds`.
    pub fn fits_grid(&self) -> (ok: bool)
        ensures
            ok == self.in_bounds(),
    {
        let x: i64 = self.x as i64;
        let y: i64 = self.y as i64;
        let w: i64 = self.w as i64;
        let h: i64 = self.h as i64;
        let low: i64 = i32::MIN as i64 - 1;
        let high: i64 = i32::MAX as i64 + 1;
        low <= x - w && x + w <= high && low <= y - h && y + h <= high
    }

    /// The quadrant `q` of a rectangle that can be the boundary of a tree.
    pub fn quadrant(&self, q: Quadrant) -> (r: Self)
        requires
            self.in_bounds(),
        ensures
            r == self.spec_quadrant(q),
    {
        let dx: u32 = self.w / 2;
        let dy: u32 = self.h / 2;
        let w: u32 = self.w - dx;
        let h: u32 = self.h - dy;
        let x: i64 = self.x as i64;
        let y: i64 = self.y as i64;
        match q {
            Quadrant::TopLeft => Qrect { x: (x - dx as i64) as i32, y: (y - dy as i64) as i32, w, h },
            Quadrant::TopRight => Qrect { x: (x + dx as i64) as i32, y: (y - dy as i64) as i32, w, h },
            Quadrant::BottomLeft => Qrect { x: (x - dx as i64) as i32, y: (y + dy as i64) as i32, w, h },
            Quadrant::BottomRight => Qrect { x: (x + dx as i64) as i32, y: (y + dy as i64) as i32, w, h },
        }
    }

    /// Each quadrant of a rectangle that can be the boundary of a tree lies
    /// inside the rectangle, and can be the boundary of a tree itself.
    pub proof fn lemma_quadrant_within(self, q: Quadrant)
        requires
            self.in_bounds(),
        ensures
            self.spec_quadrant(q).within(self),
            self.spec_quadrant(q).in_bounds(),
    {
    }

    /// The quadrants leave no gap: a position of the rectangle lies in the
    /// quadrant that `quadrant_of` names for it.
    pub proof fn lemma_quadrants_cover(self, px: int, py: int)
        requires
            self.in_bounds(),
            self.covers(px, py),
        ensures
            self.spec_quadrant(self.quadrant_of(px, py)).covers(px, py),
    {
    }
}

/// The distance between two coordinates on one axis.
pub open spec fn distance(a: int, b: int) -> int {
    if a <= b {
        b - a
    } else {
        a - b
    }
}

/// The midpoint of two coordinates, rounded down.
fn midpoint(a: i32, b: i32) -> (m: i32)
    ensures
        m == (a + b) / 2,
{
    let sum: i64 = a as i64 + b as i64;
    if sum >= 0 {
        (sum / 2) as i32
    } else {
        (-((1 - sum) / 2)) as i32
    }
}

/// Half the distance between two coordinates, rounded up.
fn half_span(a: i32, b: i32) -> (s: u32)
    ensures
        s == (distance(a as int, b as int) + 1) / 2,
{
    let d: i64 = if a <= b {
        b as i64 - a as i64
    } else {
        a as i64 - b as i64
    };
    ((d + 1) / 2) as u32
}

} // verus!
