use vstd::prelude::*;

verus! {

/// Floor of `s / 2`.
pub open spec fn half_floor(s: int) -> int {
    s / 2
}

/// An axis-aligned rectangle given by its corners `(x1, y1)` and `(x2, y2)`.
#[derive(Clone, Copy, Debug, PartialEq, Eq, Structural)]
pub struct Rect {
    pub x1: i32,
    pub y1: i32,
    pub x2: i32,
    pub y2: i32,
}

impl Rect {
    /// The two rectangles overlap, bounds included: shared edges count.
    pub open spec fn spec_intersect(self, other: Rect) -> bool {
        self.x1 <= other.x2 && self.x2 >= other.x1 && self.y1 <= other.y2 && self.y2 >= other.y1
    }

    /// Column of the midpoint, rounded down.
    pub open spec fn center_x(self) -> int {
        half_floor(self.x1 + self.x2)
    }

    /// Row of the midpoint, rounded down.
    pub open spec fn center_y(self) -> int {
        half_floor(self.y1 + self.y2)
    }

    /// The rectangle with corner `(x, y)`, `w` wide and `h` high.
    pub fn new(x: i32, y: i32, w: i32, h: i32) -> (r: Rect)
        requires
            x + w <= i32::MAX,
            y + h <= i32::MAX,
            x + w >= i32::MIN,
            y + h >= i32::MIN,
        ensures
            r == (Rect { x1: x, y1: y, x2: (x + w) as i32, y2: (y + h) as i32 }),
    {
        Rect { x1: x, y1: y, x2: x + w, y2: y + h }
    }

    /// Whether the two rectangles overlap, bounds included.
    pub fn intersect(&self, other: &Rect) -> (r: bool)
        ensures
            r == self.spec_intersect(*other),
    {
        self.x1 <= other.x2 && self.x2 >= other.x1 && self.y1 <= other.y2 && self.y2 >= other.y1
    }

    /// The midpoint, each coordinate rounded down.
    pub fn center(&self) -> (r: (i32, i32))
        ensures
            r.0 == self.center_x(),
            r.1 == self.center_y(),
    {
        (floor_half(self.x1 as i64 + self.x2 as i64), floor_half(self.y1 as i64 + self.y2 as i64))
    }
}

fn floor_half(s: i64) -> (r: i32)
    requires
        2 * (i32::MIN as int) <= s <= 2 * (i32::MAX as int),
    ensures
        r == half_floor(s as int),
{
    if s >= 0 {
        (s / 2) as i32
    } else {
        let n: i64 = -s;
        let q: i64 = -((n + 1) / 2);
        assert(q == half_floor(s as int));
        q as i32
    }
}

} // verus!
