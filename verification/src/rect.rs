//! Axis-aligned integer rectangles with half-open extents, used to track the
//! dirty (changed) region of a chunk.

use vstd::prelude::*;

verus! {

/// A pair of integer grid coordinates. Doubles as a point and as an offset.
#[derive(Clone, Copy, PartialEq, Eq, Structural, Debug, Hash)]
pub struct Pos {
    pub x: i32,
    pub y: i32,
}

pub open spec fn imin(a: int, b: int) -> int {
    if a <= b {
        a
    } else {
        b
    }
}

pub open spec fn imax(a: int, b: int) -> int {
    if a >= b {
        a
    } else {
        b
    }
}

impl Pos {
    pub fn new(x: i32, y: i32) -> (r: Pos)
        ensures
            r == (Pos { x, y }),
    {
        Pos { x, y }
    }
}

/// An axis-aligned rectangle over grid cells: `min` is inclusive, `max` is
/// exclusive. The canonical empty rectangle puts `min` at the largest
/// coordinates and `max` at the smallest, so that a union with it is the
/// identity; any rectangle whose `min` exceeds its `max` on some axis also
/// counts as empty.
#[derive(Clone, Copy, PartialEq, Eq, Structural, Debug, Hash)]
pub struct Rect {
    /// The top-left corner of the rectangle (inclusive).
    pub min: Pos,
    /// The bottom-right corner of the rectangle (exclusive).
    pub max: Pos,
}

impl Rect {
    pub open spec fn empty_spec() -> Rect {
        Rect { min: Pos { x: i32::MAX, y: i32::MAX }, max: Pos { x: i32::MIN, y: i32::MIN } }
    }

    pub open spec fn is_empty_spec(self) -> bool {
        self.min.x > self.max.x || self.min.y > self.max.y
    }

    pub open spec fn contains_spec(self, point: Pos) -> bool {
        &&& point.x >= self.min.x
        &&& point.y >= self.min.y
        &&& point.x < self.max.x
        &&& point.y < self.max.y
    }

    pub open spec fn union_spec(self, other: Rect) -> Rect {
        if self.is_empty_spec() && !other.is_empty_spec() {
            other
        } else if other.is_empty_spec() && !self.is_empty_spec() {
            self
        } else if self.is_empty_spec() && other.is_empty_spec() {
            Rect::empty_spec()
        } else {
            Rect {
                min: Pos {
                    x: imin(self.min.x as int, other.min.x as int) as i32,
                    y: imin(self.min.y as int, other.min.y as int) as i32,
                },
                max: Pos {
                    x: imax(self.max.x as int, other.max.x as int) as i32,
                    y: imax(self.max.y as int, other.max.y as int) as i32,
                },
            }
        }
    }

    pub open spec fn union_point_spec(self, point: Pos) -> Rect {
        Rect {
            min: Pos {
                x: imin(self.min.x as int, point.x as int) as i32,
                y: imin(self.min.y as int, point.y as int) as i32,
            },
            max: Pos {
                x: imax(self.max.x as int, point.x as int) as i32,
                y: imax(self.max.y as int, point.y as int) as i32,
            },
        }
    }

    /// The grown-and-clamped rectangle: first take the union with
    /// `point - plus` and `point + plus`, then clamp `min` to be non-negative,
    /// and finally collapse `min` onto `max` wherever the clamp pushed it past.
    pub open spec fn union_point_plus_spec(self, point: Pos, plus: Pos) -> Rect {
        let mnx = imin(self.min.x as int, point.x - plus.x);
        let mny = imin(self.min.y as int, point.y - plus.y);
        let mxx = imax(self.max.x as int, point.x + plus.x);
        let mxy = imax(self.max.y as int, point.y + plus.y);
        let cx = imax(mnx, 0);
        let cy = imax(mny, 0);
        Rect {
            min: Pos {
                x: (if cx > mxx {
                    mxx
                } else {
                    cx
                }) as i32,
                y: (if cy > mxy {
                    mxy
                } else {
                    cy
                }) as i32,
            },
            max: Pos { x: mxx as i32, y: mxy as i32 },
        }
    }

    pub fn new(min: Pos, max: Pos) -> (r: Rect)
        ensures
            r == (Rect { min, max }),
    {
        Rect { min, max }
    }

    pub fn empty() -> (r: Rect)
        ensures
            r == Rect::empty_spec(),
    {
        Rect { min: Pos { x: i32::MAX, y: i32::MAX }, max: Pos { x: i32::MIN, y: i32::MIN } }
    }

    pub fn is_empty(&self) -> (r: bool)
        ensures
            r == self.is_empty_spec(),
    {
        (self.min == (Pos { x: i32::MAX, y: i32::MAX }) && self.max == (Pos {
            x: i32::MIN,
            y: i32::MIN,
        })) || self.min.x > self.max.x || self.min.y > self.max.y
    }

    /// The extent of the rectangle on each axis.
    pub fn size(&self) -> (r: Pos)
        requires
            i32::MIN <= self.max.x - self.min.x <= i32::MAX,
            i32::MIN <= self.max.y - self.min.y <= i32::MAX,
        ensures
            r.x == self.max.x - self.min.x,
            r.y == self.max.y - self.min.y,
    {
        Pos { x: self.max.x - self.min.x, y: self.max.y - self.min.y }
    }

    pub fn clear(&mut self)
        ensures
            *final(self) == Rect::empty_spec(),
    {
        *self = Rect::empty();
    }

    pub fn contains(&self, point: Pos) -> (r: bool)
        ensures
            r == self.contains_spec(point),
    {
        point.x >= self.min.x && point.y >= self.min.y && point.x < self.max.x && point.y
            < self.max.y
    }

    /// The smallest rectangle covering both operands; an empty operand is the
    /// identity, and two empty operands give the canonical empty rectangle.
    pub fn union(&self, other: &Rect) -> (r: Rect)
        ensures
            r == self.union_spec(*other),
    {
        if self.is_empty() && !other.is_empty() {
            return *other;
        } else if other.is_empty() && !self.is_empty() {
            return *self;
        } else if other.is_empty() && self.is_empty() {
            return Rect::empty();
        }
        Rect {
            min: Pos {
                x: if self.min.x <= other.min.x {
                    self.min.x
                } else {
                    other.min.x
                },
                y: if self.min.y <= other.min.y {
                    self.min.y
                } else {
                    other.min.y
                },
            },
            max: Pos {
                x: if self.max.x >= other.max.x {
                    self.max.x
                } else {
                    other.max.x
                },
                y: if self.max.y >= other.max.y {
                    self.max.y
                } else {
                    other.max.y
                },
            },
        }
    }

    /// Grow the rectangle so that it covers `point`.
    pub fn union_point(&mut self, point: Pos)
        ensures
            *final(self) == old(self).union_point_spec(point),
    {
        if point.x < self.min.x {
            self.min.x = point.x;
        }
        if point.y < self.min.y {
            self.min.y = point.y;
        }
        if point.x > self.max.x {
            self.max.x = point.x;
        }
        if point.y > self.max.y {
            self.max.y = point.y;
        }
    }

    /// Grow the rectangle so that it covers `point` plus a margin of `plus` on
    /// each side, then clamp `min` to non-negative coordinates, collapsing
    /// `min` onto `max` where the clamp would otherwise produce a
    /// negative-size rectangle.
    pub fn union_point_plus(&mut self, point: Pos, plus: Pos)
        requires
            i32::MIN <= point.x - plus.x <= i32::MAX,
            i32::MIN <= point.x + plus.x <= i32::MAX,
            i32::MIN <= point.y - plus.y <= i32::MAX,
            i32::MIN <= point.y + plus.y <= i32::MAX,
        ensures
            *final(self) == old(self).union_point_plus_spec(point, plus),
    {
        let lo = Pos { x: point.x - plus.x, y: point.y - plus.y };
        let hi = Pos { x: point.x + plus.x, y: point.y + plus.y };
        if lo.x < self.min.x {
            self.min.x = lo.x;
        }
        if lo.y < self.min.y {
            self.min.y = lo.y;
        }
        if hi.x > self.max.x {
            self.max.x = hi.x;
        }
        if hi.y > self.max.y {
            self.max.y = hi.y;
        }
        if self.min.x < 0 {
            self.min.x = 0;
        }
        if self.min.y < 0 {
            self.min.y = 0;
        }
        if self.min.x > self.max.x {
            self.min.x = self.max.x;
        }
        if self.min.y > self.max.y {
            self.min.y = self.max.y;
        }
    }

    /// The midpoint of the two corners, rounded toward zero on each axis.
    pub fn center(&self) -> (r: Pos)
        requires
            i32::MIN <= self.min.x + self.max.x <= i32::MAX,
            i32::MIN <= self.min.y + self.max.y <= i32::MAX,
        ensures
            r.x == div2_trunc(self.min.x + self.max.x),
            r.y == div2_trunc(self.min.y + self.max.y),
    {
        Pos { x: half_trunc(self.min.x + self.max.x), y: half_trunc(self.min.y + self.max.y) }
    }
}

/// Halving rounded toward zero, matching machine division of signed integers.
pub open spec fn div2_trunc(v: int) -> int {
    if v >= 0 {
        v / 2
    } else {
        -((-v) / 2)
    }
}

fn half_trunc(v: i32) -> (r: i32)
    ensures
        r == div2_trunc(v as int),
{
    if v >= 0 {
        v / 2
    } else {
        let m = -(v as i64);
        (-(m / 2)) as i32
    }
}

/// Union with an empty rectangle leaves a non-empty rectangle unchanged.
pub proof fn lemma_union_empty_identity(r: Rect)
    requires
        !r.is_empty_spec(),
    ensures
        r.union_spec(Rect::empty_spec()) == r,
        Rect::empty_spec().union_spec(r) == r,
{
}

/// Growing a rectangle by a point with a margin never leaves a corner at
/// negative coordinates, as long as the grown upper corner itself is
/// non-negative.
pub proof fn lemma_union_point_plus_nonnegative(r: Rect, point: Pos, plus: Pos)
    requires
        point.x + plus.x >= 0,
        point.y + plus.y >= 0,
    ensures
        r.union_point_plus_spec(point, plus).min.x >= 0,
        r.union_point_plus_spec(point, plus).min.y >= 0,
{
}

/// Growing a rectangle twice by the same point is the same as growing it once.
pub proof fn lemma_union_point_idempotent(r: Rect, point: Pos)
    ensures
        r.union_point_spec(point).union_point_spec(point) == r.union_point_spec(point),
{
}

} // verus!
