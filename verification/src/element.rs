//! The material model: the kinds of matter a cell can hold, their densities
//! and base colors, and the per-element state (color, velocity, tick stamp).

use vstd::prelude::*;

verus! {

/// Velocity components are measured in hundredths of a grid cell per tick, so
/// one cell per tick is `VEL_UNIT`.
pub const VEL_UNIT: i32 = 100;

/// Velocity components are always clamped to ten cells per tick on each axis.
pub const VEL_LIMIT: i32 = 1000;

/// The kind of matter held by one grid cell. Density totally orders
/// displacement eligibility: an element may move into a cell whose occupant is
/// strictly less dense, or which is air.
#[derive(Clone, Copy, PartialEq, Eq, Structural, Debug, Hash)]
pub enum ElementKind {
    Air,
    Sand,
    Stone,
    Water,
}

impl ElementKind {
    pub open spec fn base_color_spec(self) -> (u8, u8, u8) {
        match self {
            ElementKind::Air => (0u8, 0u8, 0u8),
            ElementKind::Sand => (232u8, 171u8, 79u8),
            ElementKind::Stone => (114u8, 121u8, 133u8),
            ElementKind::Water => (44u8, 113u8, 232u8),
        }
    }

    pub open spec fn density_spec(self) -> u8 {
        match self {
            ElementKind::Air => 0u8,
            ElementKind::Sand => 100u8,
            ElementKind::Stone => 255u8,
            ElementKind::Water => 60u8,
        }
    }

    pub fn base_color(&self) -> (r: (u8, u8, u8))
        ensures
            r == self.base_color_spec(),
    {
        match self {
            ElementKind::Air => (0, 0, 0),
            ElementKind::Sand => (232, 171, 79),
            ElementKind::Stone => (114, 121, 133),
            ElementKind::Water => (44, 113, 232),
        }
    }

    pub fn density(&self) -> (r: u8)
        ensures
            r == self.density_spec(),
    {
        match self {
            ElementKind::Air => 0,
            ElementKind::Sand => 100,
            ElementKind::Stone => 255,
            ElementKind::Water => 60,
        }
    }
}

/// Whether an element of kind `mover` may move into a cell currently holding
/// an element of kind `target`: air is always enterable, and otherwise the
/// target must be strictly less dense.
pub open spec fn can_displace(mover: ElementKind, target: ElementKind) -> bool {
    target == ElementKind::Air || target.density_spec() < mover.density_spec()
}

/// A strictly denser element can move into a less dense cell, and never the
/// other way around.
pub proof fn lemma_density_orders_displacement(a: ElementKind, b: ElementKind)
    requires
        a.density_spec() > b.density_spec(),
    ensures
        can_displace(a, b),
        !can_displace(b, a),
{
}

/// Air is always enterable, whatever the mover.
pub proof fn lemma_air_always_enterable(k: ElementKind)
    ensures
        can_displace(k, ElementKind::Air),
{
}

/// No element can ever move into a stone cell, so stone is never displaced.
pub proof fn lemma_stone_never_displaced(k: ElementKind)
    ensures
        !can_displace(k, ElementKind::Stone),
{
}

/// Division rounded toward zero, matching machine division of signed values.
pub open spec fn trunc_div(v: int, d: int) -> int
    recommends
        d > 0,
{
    if v >= 0 {
        v / d
    } else {
        -((-v) / d)
    }
}

/// Clamping of a velocity component to the allowed band.
pub open spec fn clamp_vel(v: int) -> int {
    if v < -VEL_LIMIT {
        -VEL_LIMIT as int
    } else if v > VEL_LIMIT {
        VEL_LIMIT as int
    } else {
        v
    }
}

/// A two-dimensional velocity in hundredths of a cell per tick.
#[derive(Clone, Copy, PartialEq, Eq, Structural, Debug, Hash)]
pub struct Velocity {
    pub x: i32,
    pub y: i32,
}

impl Velocity {
    /// Both components stay inside the clamp band.
    pub open spec fn wf(self) -> bool {
        &&& -VEL_LIMIT <= self.x <= VEL_LIMIT
        &&& -VEL_LIMIT <= self.y <= VEL_LIMIT
    }

    pub fn zero() -> (r: Velocity)
        ensures
            r == (Velocity { x: 0i32, y: 0i32 }),
    {
        Velocity { x: 0, y: 0 }
    }

    /// Add an acceleration, clamping each component to the allowed band.
    pub fn add_clamped(self, dx: i32, dy: i32) -> (r: Velocity)
        requires
            self.wf(),
            -100000 <= dx <= 100000,
            -100000 <= dy <= 100000,
        ensures
            r.x == clamp_vel(self.x + dx),
            r.y == clamp_vel(self.y + dy),
            r.wf(),
    {
        Velocity {
            x: clamp_component(self.x as i64 + dx as i64),
            y: clamp_component(self.y as i64 + dy as i64),
        }
    }

    /// Scale the horizontal component by `num` percent, rounding toward zero.
    pub fn with_x_scaled(self, num: i32) -> (r: Velocity)
        requires
            self.wf(),
            -100 <= num <= 100,
        ensures
            r.x == trunc_div(self.x * num, 100),
            r.y == self.y,
            r.wf(),
    {
        Velocity { x: scale_component(self.x, num), y: self.y }
    }

    /// The bounce applied when an element could not move at all: both
    /// components are reversed and reduced to a tenth, keeping the small
    /// residual. A velocity whose magnitude already sits below the fixed-point
    /// resolution is zero on both axes, and its bounce is zero again, so no
    /// separate snap-to-zero step is needed at this resolution.
    pub open spec fn bounced_spec(self) -> Velocity {
        Velocity {
            x: trunc_div(self.x * -10, 100) as i32,
            y: trunc_div(self.y * -10, 100) as i32,
        }
    }

    pub fn bounced(self) -> (r: Velocity)
        requires
            self.wf(),
        ensures
            r == self.bounced_spec(),
            r.wf(),
    {
        Velocity { x: scale_component(self.x, -10), y: scale_component(self.y, -10) }
    }

    /// How many whole cells this velocity crosses in one tick on each axis,
    /// rounded toward zero.
    pub fn cell_offset(self) -> (r: (i32, i32))
        requires
            self.wf(),
        ensures
            r.0 == trunc_div(self.x as int, 100),
            r.1 == trunc_div(self.y as int, 100),
            -10 <= r.0 <= 10,
            -10 <= r.1 <= 10,
    {
        (scale_component(self.x, 1), scale_component(self.y, 1))
    }
}

fn clamp_component(v: i64) -> (r: i32)
    requires
        i64::MIN / 2 < v < i64::MAX / 2,
    ensures
        r == clamp_vel(v as int),
{
    if v < -(VEL_LIMIT as i64) {
        -VEL_LIMIT
    } else if v > VEL_LIMIT as i64 {
        VEL_LIMIT
    } else {
        v as i32
    }
}

fn scale_component(v: i32, num: i32) -> (r: i32)
    requires
        -VEL_LIMIT <= v <= VEL_LIMIT,
        -100 <= num <= 100,
    ensures
        r == trunc_div(v * num, 100),
        -VEL_LIMIT <= r <= VEL_LIMIT,
{
    proof {
        assert(-100000 <= v as int * num as int <= 100000) by (nonlinear_arith)
            requires
                -1000 <= v as int <= 1000,
                -100 <= num as int <= 100,
        ;
    }
    let p = v as i64 * num as i64;
    if p >= 0 {
        (p / 100) as i32
    } else {
        (-((-p) / 100)) as i32
    }
}

/// One grid cell's worth of state: its material kind, draw color, velocity,
/// and the stamp of the last tick in which it was processed.
#[derive(Clone, Copy, PartialEq, Debug)]
pub struct Element {
    pub color: (u8, u8, u8),
    pub velocity: Velocity,
    pub kind: ElementKind,
    pub wframe: u8,
}

impl Element {
    pub open spec fn wf(self) -> bool {
        self.velocity.wf()
    }

    pub open spec fn default_spec() -> Element {
        Element {
            color: (0u8, 0u8, 0u8),
            velocity: Velocity { x: 0i32, y: 0i32 },
            kind: ElementKind::Air,
            wframe: 0u8,
        }
    }
}

impl Default for Element {
    /// An empty cell: air, at rest, unstamped.
    fn default() -> (r: Element)
        ensures
            r == Element::default_spec(),
    {
        Element {
            color: (0, 0, 0),
            velocity: Velocity { x: 0, y: 0 },
            kind: ElementKind::Air,
            wframe: 0,
        }
    }
}

} // verus!
