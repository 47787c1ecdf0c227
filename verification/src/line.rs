//! A discrete line rasterizer: the finite, non-restartable sequence of grid
//! points approximating the straight segment between two points. It always
//! starts at the first endpoint, walks the axis with the larger absolute
//! difference one cell per step, advances the other axis proportionally, and
//! ends exactly at the second endpoint.

use crate::rect::{imax, imin, Pos};
use vstd::arithmetic::div_mod::{lemma_div_is_ordered, lemma_fundamental_div_mod_converse};
use vstd::prelude::*;

verus! {

/// Endpoint coordinates handed to the rasterizer stay within this bound, so
/// that differences and walked coordinates fit in a machine integer.
pub const MAX_LINE_COORD: i32 = 0x2000_0000;

pub open spec fn abs_i(v: int) -> int {
    if v >= 0 {
        v
    } else {
        -v
    }
}

/// The direction in which an axis is walked, from a difference `p1 - p2` on
/// that axis: toward `p2`, and (vacuously) downward when the axis never moves.
pub open spec fn sign_step(diff: int) -> int {
    if diff < 0 {
        1
    } else {
        -1
    }
}

/// The number of steps along the major axis; the rasterized line has this
/// many points after its starting point.
pub open spec fn line_major(p1: Pos, p2: Pos) -> int {
    imax(abs_i(p1.x - p2.x), abs_i(p1.y - p2.y))
}

/// How many points the rasterized line from `p1` to `p2` holds.
pub open spec fn line_count(p1: Pos, p2: Pos) -> int {
    line_major(p1, p2) + 1
}

/// How far the minor axis has advanced after `i` major-axis steps, with `m`
/// the minor and `mj` the major absolute difference.
pub open spec fn minor_steps(i: int, m: int, mj: int) -> int {
    if m == 0 || mj == 0 {
        0
    } else {
        i * (m + 1) / (mj + 1)
    }
}

/// The `i`-th point of the rasterized line from `p1` to `p2`.
pub open spec fn line_point(p1: Pos, p2: Pos, i: int) -> Pos
    recommends
        0 <= i < line_count(p1, p2),
{
    let dx = p1.x - p2.x;
    let dy = p1.y - p2.y;
    let adx = abs_i(dx);
    let ady = abs_i(dy);
    let mj = imax(adx, ady);
    let m = imin(adx, ady);
    let minor = minor_steps(i, m, mj);
    if adx > ady {
        Pos { x: (p1.x + i * sign_step(dx)) as i32, y: (p1.y + minor * sign_step(dy)) as i32 }
    } else {
        Pos { x: (p1.x + minor * sign_step(dx)) as i32, y: (p1.y + i * sign_step(dy)) as i32 }
    }
}

pub open spec fn coord_in_line_bounds(p: Pos) -> bool {
    &&& -MAX_LINE_COORD <= p.x <= MAX_LINE_COORD
    &&& -MAX_LINE_COORD <= p.y <= MAX_LINE_COORD
}

/// After `i <= mj` major steps the minor axis has advanced at least zero and
/// at most `m` cells, and after the last step exactly `m`.
proof fn lemma_minor_steps_bounds(i: int, m: int, mj: int)
    requires
        0 <= m <= mj,
        0 <= i <= mj,
    ensures
        0 <= minor_steps(i, m, mj) <= m,
        i == mj ==> minor_steps(i, m, mj) == m,
{
    if m != 0 && mj != 0 {
        assert(0 <= i * (m + 1)) by (nonlinear_arith)
            requires
                0 <= i,
                0 < m + 1,
        ;
        assert(i * (m + 1) <= mj * (m + 1)) by (nonlinear_arith)
            requires
                i <= mj,
                0 < m + 1,
        ;
        assert(mj * (m + 1) == m * (mj + 1) + (mj - m)) by (nonlinear_arith);
        lemma_fundamental_div_mod_converse(mj * (m + 1), mj + 1, m, mj - m);
        lemma_div_is_ordered(0, i * (m + 1), mj + 1);
        lemma_div_is_ordered(i * (m + 1), mj * (m + 1), mj + 1);
    }
}

/// The rasterized line starts at `p1`, ends at `p2`, holds exactly
/// `max(|dx|, |dy|) + 1` points, and collapses to the single point `p1` when
/// the endpoints coincide.
pub proof fn lemma_line_shape(p1: Pos, p2: Pos)
    requires
        coord_in_line_bounds(p1),
        coord_in_line_bounds(p2),
    ensures
        line_count(p1, p2) == imax(abs_i(p1.x - p2.x), abs_i(p1.y - p2.y)) + 1,
        line_point(p1, p2, 0) == p1,
        line_point(p1, p2, line_count(p1, p2) - 1) == p2,
        p1 == p2 ==> line_count(p1, p2) == 1,
{
    let dx = p1.x - p2.x;
    let dy = p1.y - p2.y;
    let adx = abs_i(dx);
    let ady = abs_i(dy);
    let mj = imax(adx, ady);
    let m = imin(adx, ady);
    lemma_minor_steps_bounds(0, m, mj);
    lemma_minor_steps_bounds(mj, m, mj);
}

/// Every point of the rasterized line lies inside the bounding box of the two
/// endpoints.
pub proof fn lemma_line_point_in_box(p1: Pos, p2: Pos, i: int)
    requires
        coord_in_line_bounds(p1),
        coord_in_line_bounds(p2),
        0 <= i < line_count(p1, p2),
    ensures
        imin(p1.x as int, p2.x as int) <= line_point(p1, p2, i).x <= imax(
            p1.x as int,
            p2.x as int,
        ),
        imin(p1.y as int, p2.y as int) <= line_point(p1, p2, i).y <= imax(
            p1.y as int,
            p2.y as int,
        ),
{
    let dx = p1.x - p2.x;
    let dy = p1.y - p2.y;
    let adx = abs_i(dx);
    let ady = abs_i(dy);
    let mj = imax(adx, ady);
    let m = imin(adx, ady);
    lemma_minor_steps_bounds(i, m, mj);
    let minor = minor_steps(i, m, mj);
    lemma_mul_by_sign(i, sign_step(dx));
    lemma_mul_by_sign(i, sign_step(dy));
    lemma_mul_by_sign(minor, sign_step(dx));
    lemma_mul_by_sign(minor, sign_step(dy));
}

/// Multiplying by a unit sign either keeps or negates a value.
proof fn lemma_mul_by_sign(i: int, s: int)
    requires
        s == 1 || s == -1,
    ensures
        s == 1 ==> i * s == i,
        s == -1 ==> i * s == -i,
{
    if s == 1 {
        assert(i * s == i) by (nonlinear_arith)
            requires
                s == 1,
        ;
    } else {
        assert(i * s == -i) by (nonlinear_arith)
            requires
                s == -1,
        ;
    }
}

/// Consecutive points of the rasterized line are 8-connected: each step moves
/// exactly one cell along the major axis and at most one cell along the other.
pub proof fn lemma_line_connected(p1: Pos, p2: Pos, i: int)
    requires
        coord_in_line_bounds(p1),
        coord_in_line_bounds(p2),
        0 <= i,
        i + 1 < line_count(p1, p2),
    ensures
        abs_i(line_point(p1, p2, i + 1).x - line_point(p1, p2, i).x) <= 1,
        abs_i(line_point(p1, p2, i + 1).y - line_point(p1, p2, i).y) <= 1,
        line_point(p1, p2, i + 1) != line_point(p1, p2, i),
{
    let dx = p1.x - p2.x;
    let dy = p1.y - p2.y;
    let adx = abs_i(dx);
    let ady = abs_i(dy);
    let mj = imax(adx, ady);
    let m = imin(adx, ady);
    lemma_minor_steps_bounds(i, m, mj);
    lemma_minor_steps_bounds(i + 1, m, mj);
    if m != 0 && mj != 0 {
        let a = i * (m + 1);
        let b = (i + 1) * (m + 1);
        assert(b == a + (m + 1)) by (nonlinear_arith)
            requires
                a == i * (m + 1),
                b == (i + 1) * (m + 1),
        ;
        lemma_div_is_ordered(a, b, mj + 1);
        lemma_div_is_ordered(b, a + (mj + 1), mj + 1);
        assert((a + (mj + 1)) / (mj + 1) == a / (mj + 1) + 1) by {
            vstd::arithmetic::div_mod::lemma_div_plus_one(a, mj + 1);
        }
    }
    let minor_lo = minor_steps(i, m, mj);
    let minor_hi = minor_steps(i + 1, m, mj);
    assert(minor_lo <= minor_hi <= minor_lo + 1);
    lemma_mul_by_sign(i, sign_step(dx));
    lemma_mul_by_sign(i + 1, sign_step(dx));
    lemma_mul_by_sign(i, sign_step(dy));
    lemma_mul_by_sign(i + 1, sign_step(dy));
    lemma_mul_by_sign(minor_lo, sign_step(dx));
    lemma_mul_by_sign(minor_hi, sign_step(dx));
    lemma_mul_by_sign(minor_lo, sign_step(dy));
    lemma_mul_by_sign(minor_hi, sign_step(dy));
}

/// A lazy walk over the rasterized line between two grid points. Calling
/// [`GridLineIterator::next`] yields the points of [`line_point`] in order,
/// then `None` forever.
pub struct GridLineIterator {
    pub pos1: Pos,
    pub pos2: Pos,
    pub modifier: Pos,
    pub upper_bound: i32,
    pub minor_len: i32,
    pub x_diff_is_larger: bool,
    pub index: i32,
}

impl GridLineIterator {
    pub open spec fn wf(self) -> bool {
        &&& coord_in_line_bounds(self.pos1)
        &&& coord_in_line_bounds(self.pos2)
        &&& self.upper_bound == line_major(self.pos1, self.pos2)
        &&& self.minor_len == imin(
            abs_i(self.pos1.x - self.pos2.x),
            abs_i(self.pos1.y - self.pos2.y),
        )
        &&& self.modifier.x == sign_step(self.pos1.x - self.pos2.x)
        &&& self.modifier.y == sign_step(self.pos1.y - self.pos2.y)
        &&& self.x_diff_is_larger == (abs_i(self.pos1.x - self.pos2.x) > abs_i(
            self.pos1.y - self.pos2.y,
        ))
        &&& 0 <= self.index <= line_count(self.pos1, self.pos2)
    }

    pub fn new(pos1: Pos, pos2: Pos) -> (r: GridLineIterator)
        requires
            coord_in_line_bounds(pos1),
            coord_in_line_bounds(pos2),
        ensures
            r.wf(),
            r.pos1 == pos1,
            r.pos2 == pos2,
            r.index == 0,
    {
        let diff = Pos { x: pos1.x - pos2.x, y: pos1.y - pos2.y };
        let adx = if diff.x >= 0 {
            diff.x
        } else {
            -diff.x
        };
        let ady = if diff.y >= 0 {
            diff.y
        } else {
            -diff.y
        };
        GridLineIterator {
            pos1,
            pos2,
            modifier: Pos {
                x: if diff.x < 0 {
                    1
                } else {
                    -1
                },
                y: if diff.y < 0 {
                    1
                } else {
                    -1
                },
            },
            upper_bound: if adx >= ady {
                adx
            } else {
                ady
            },
            minor_len: if adx <= ady {
                adx
            } else {
                ady
            },
            x_diff_is_larger: adx > ady,
            index: 0,
        }
    }

    /// Yield the next point of the line, or `None` once every point between
    /// the endpoints (both included) has been yielded.
    pub fn next(&mut self) -> (r: Option<Pos>)
        requires
            old(self).wf(),
        ensures
            final(self).wf(),
            final(self).pos1 == old(self).pos1,
            final(self).pos2 == old(self).pos2,
            old(self).index < line_count(old(self).pos1, old(self).pos2) ==> r == Some(
                line_point(old(self).pos1, old(self).pos2, old(self).index as int),
            ) && final(self).index == old(self).index + 1,
            old(self).index >= line_count(old(self).pos1, old(self).pos2) ==> r == None::<Pos>
                && *final(self) == *old(self),
    {
        if self.index > self.upper_bound {
            return None;
        }
        let i = self.index;
        self.index = i + 1;
        proof {
            lemma_minor_steps_bounds(
                i as int,
                self.minor_len as int,
                self.upper_bound as int,
            );
        }
        proof {
            assert(0 <= i as int * (self.minor_len as int + 1) <= 0x2000_0000_0000_0000i64)
                by (nonlinear_arith)
                requires
                    0 <= i as int <= 0x4000_0000,
                    0 <= self.minor_len as int <= 0x4000_0000,
            ;
        }
        let minor: i32 = if self.minor_len == 0 || self.upper_bound == 0 {
            0
        } else {
            (i as i64 * (self.minor_len as i64 + 1) / (self.upper_bound as i64 + 1)) as i32
        };
        let (y_increase, x_increase) = if self.x_diff_is_larger {
            (minor, i)
        } else {
            (i, minor)
        };
        proof {
            assert(-0x4000_0000 <= x_increase as int * self.modifier.x as int <= 0x4000_0000
                && -0x4000_0000 <= y_increase as int * self.modifier.y as int <= 0x4000_0000)
                by (nonlinear_arith)
                requires
                    0 <= x_increase as int <= 0x4000_0000,
                    0 <= y_increase as int <= 0x4000_0000,
                    -1 <= self.modifier.x as int <= 1,
                    -1 <= self.modifier.y as int <= 1,
            ;
        }
        Some(
            Pos {
                x: self.pos1.x + x_increase * self.modifier.x,
                y: self.pos1.y + y_increase * self.modifier.y,
            },
        )
    }
}

} // verus!
