//! The box in which the agents move, and its two topologies.

use vstd::prelude::*;
use super::fixed::{clamp_to_i64, magnitude, rem_floor, saturate};
use super::person::RADIUS;

verus! {

/// The distance between two centres below which two agents overlap.
pub const DIAMETER: i64 = 2 * RADIUS;

/// A point or a velocity in the plane, in fixed-point coordinates.
#[derive(Clone, Copy, Debug, PartialEq, Eq, Structural)]
pub struct Vec2 {
    pub x: i64,
    pub y: i64,
}

/// How the box treats its edges.
#[derive(Clone, Copy, Debug, PartialEq, Eq, Structural)]
pub enum Topology {
    /// Positions wrap at the edges; distances are taken the short way round.
    Toroidal,
    /// Positions are not wrapped; the four edges are reflecting walls.
    Bounded,
}

/// One of the two axes of the plane.
#[derive(Clone, Copy, Debug, PartialEq, Eq, Structural)]
pub enum Axis {
    X,
    Y,
}

/// The box: its two side lengths and its topology.
#[derive(Clone, Copy, Debug, PartialEq, Eq, Structural)]
pub struct Space {
    pub size_x: i64,
    pub size_y: i64,
    pub topology: Topology,
}

/// The representative of `d` modulo `size` that is nearest to zero; of the two
/// at equal distance, the positive one.
pub open spec fn wrap_signed(d: int, size: int) -> int {
    let r = d % size;
    if 2 * r > size {
        r - size
    } else {
        r
    }
}

/// The inner product of two vectors given by their components.
pub open spec fn dot(ax: int, ay: int, bx: int, by: int) -> int {
    ax * bx + ay * by
}

impl Vec2 {
    /// The coordinate along `axis`.
    pub open spec fn along(self, axis: Axis) -> i64 {
        match axis {
            Axis::X => self.x,
            Axis::Y => self.y,
        }
    }

    /// The coordinate along `axis`.
    pub fn coordinate(&self, axis: Axis) -> (c: i64)
        ensures
            c == self.along(axis),
    {
        match axis {
            Axis::X => self.x,
            Axis::Y => self.y,
        }
    }
}

impl Space {
    /// Both sides are longer than one agent is wide.
    pub open spec fn wf(self) -> bool {
        &&& self.size_x > DIAMETER
        &&& self.size_y > DIAMETER
    }

    /// The signed distance from coordinate `from` to coordinate `to` along an
    /// axis of length `size`.
    pub open spec fn offset(self, from: int, to: int, size: int) -> int {
        match self.topology {
            Topology::Toroidal => wrap_signed(to - from, size),
            Topology::Bounded => to - from,
        }
    }

    /// The length of the box along `axis`.
    pub open spec fn extent(self, axis: Axis) -> i64 {
        match axis {
            Axis::X => self.size_x,
            Axis::Y => self.size_y,
        }
    }

    /// The part along `axis` of the displacement from `a` to `b`.
    pub open spec fn gap(self, a: Vec2, b: Vec2, axis: Axis) -> int {
        self.offset(a.along(axis) as int, b.along(axis) as int, self.extent(axis) as int)
    }

    /// The horizontal part of the displacement from `a` to `b`.
    pub open spec fn dx(self, a: Vec2, b: Vec2) -> int {
        self.offset(a.x as int, b.x as int, self.size_x as int)
    }

    /// The vertical part of the displacement from `a` to `b`.
    pub open spec fn dy(self, a: Vec2, b: Vec2) -> int {
        self.offset(a.y as int, b.y as int, self.size_y as int)
    }

    /// The squared distance between `a` and `b`.
    pub open spec fn distance_squared(self, a: Vec2, b: Vec2) -> int {
        dot(self.dx(a, b), self.dy(a, b), self.dx(a, b), self.dy(a, b))
    }

    /// Two agents centred at `a` and `b` overlap: their centres are less than
    /// one diameter apart.
    pub open spec fn overlapping(self, a: Vec2, b: Vec2) -> bool {
        self.distance_squared(a, b) < DIAMETER * DIAMETER
    }

    /// Where a coordinate comes to rest after a move along an axis of length
    /// `size`: wrapped into the box on a torus, saturated otherwise.
    pub open spec fn settle(self, x: int, size: int) -> int {
        match self.topology {
            Topology::Toroidal => x % size,
            Topology::Bounded => saturate(x),
        }
    }

    /// The point lies in the box, the lower edges included.
    pub open spec fn contains(self, p: Vec2) -> bool {
        &&& 0 <= p.x < self.size_x
        &&& 0 <= p.y < self.size_y
    }

    /// The signed distance from `from` to `to` along an axis of length `size`.
    pub fn axis_offset(&self, from: i64, to: i64, size: i64) -> (d: i128)
        requires
            size > 0,
        ensures
            d == self.offset(from as int, to as int, size as int),
            -0x1_0000_0000_0000_0000 < d < 0x1_0000_0000_0000_0000,
            self.topology == Topology::Toroidal ==> 2 * magnitude(d as int) <= size,
    {
        let plain: i128 = to as i128 - from as i128;
        match self.topology {
            Topology::Toroidal => {
                let r: i64 = rem_floor(plain, size);
                if 2 * (r as i128) > size as i128 {
                    r as i128 - size as i128
                } else {
                    r as i128
                }
            },
            Topology::Bounded => plain,
        }
    }

    /// The length of the box along `axis`.
    pub fn side(&self, axis: Axis) -> (size: i64)
        ensures
            size == self.extent(axis),
    {
        match axis {
            Axis::X => self.size_x,
            Axis::Y => self.size_y,
        }
    }

    /// Whether two agents centred at `a` and `b` overlap.
    pub fn overlap(&self, a: Vec2, b: Vec2) -> (r: bool)
        requires
            self.wf(),
        ensures
            r == self.overlapping(a, b),
    {
        let dx: i128 = self.axis_offset(a.x, b.x, self.size_x);
        let dy: i128 = self.axis_offset(a.y, b.y, self.size_y);
        let reach: i128 = DIAMETER as i128;
        if dx >= reach || dx <= -reach || dy >= reach || dy <= -reach {
            proof {
                lemma_far_on_one_axis(dx as int, dy as int);
            }
            false
        } else {
            assert(0 <= dx * dx <= 1_000_000 * 1_000_000 && 0 <= dy * dy <= 1_000_000 * 1_000_000)
                by (nonlinear_arith)
                requires
                    -1_000_000 < dx < 1_000_000,
                    -1_000_000 < dy < 1_000_000,
            ;
            dx * dx + dy * dy < reach * reach
        }
    }

    /// Brings a coordinate reached by a move back into the box, or into the
    /// range of `i64`.
    pub fn settle_coordinate(&self, x: i128, size: i64) -> (r: i64)
        requires
            size > 0,
            x > i128::MIN,
        ensures
            r == self.settle(x as int, size as int),
            self.topology == Topology::Toroidal ==> 0 <= r < size,
    {
        match self.topology {
            Topology::Toroidal => rem_floor(x, size),
            Topology::Bounded => clamp_to_i64(x),
        }
    }
}

/// Two centres that are a diameter or more apart along one axis are at least a
/// diameter apart.
pub proof fn lemma_far_on_one_axis(dx: int, dy: int)
    requires
        magnitude(dx) >= DIAMETER || magnitude(dy) >= DIAMETER,
    ensures
        dot(dx, dy, dx, dy) >= DIAMETER * DIAMETER,
{
    assert(dx * dx >= 0 && dy * dy >= 0) by (nonlinear_arith);
    if magnitude(dx) >= DIAMETER {
        assert(dx * dx >= 1_000_000 * 1_000_000) by (nonlinear_arith)
            requires
                dx >= 1_000_000 || dx <= -1_000_000,
        ;
    } else {
        assert(dy * dy >= 1_000_000 * 1_000_000) by (nonlinear_arith)
            requires
                dy >= 1_000_000 || dy <= -1_000_000,
        ;
    }
}

/// Two agents whose centres are a diameter or more apart along an axis do
/// not overlap.
pub proof fn lemma_far_along(space: Space, a: Vec2, b: Vec2, axis: Axis)
    requires
        magnitude(space.gap(a, b, axis)) >= DIAMETER,
    ensures
        !space.overlapping(a, b),
{
    lemma_far_on_one_axis(space.dx(a, b), space.dy(a, b));
}

/// The remainder of the negative of `d`.
pub proof fn lemma_negated_remainder(d: int, m: int)
    requires
        m > 0,
    ensures
        (-d) % m == if d % m == 0 {
            0
        } else {
            m - d % m
        },
{
    vstd::arithmetic::div_mod::lemma_fundamental_div_mod(d, m);
    vstd::arithmetic::div_mod::lemma_mod_bound(d, m);
    let q = d / m;
    let r = d % m;
    if r == 0 {
        assert(-d == (-q) * m + 0) by (nonlinear_arith)
            requires
                d == m * q + 0,
        ;
        vstd::arithmetic::div_mod::lemma_fundamental_div_mod_converse(-d, m, -q, 0);
    } else {
        assert(-d == (-q - 1) * m + (m - r)) by (nonlinear_arith)
            requires
                d == m * q + r,
        ;
        vstd::arithmetic::div_mod::lemma_fundamental_div_mod_converse(-d, m, -q - 1, m - r);
    }
}

/// The displacement from `b` to `a` is as long as the one from `a` to `b`.
pub proof fn lemma_offset_reversed(space: Space, from: int, to: int, size: int)
    requires
        size > 0,
    ensures
        magnitude(space.offset(to, from, size)) == magnitude(space.offset(from, to, size)),
{
    lemma_negated_remainder(to - from, size);
    vstd::arithmetic::div_mod::lemma_mod_bound(to - from, size);
    assert(from - to == -(to - from));
}

/// Overlap does not depend on the order of the two agents.
pub proof fn lemma_overlapping_symmetric(space: Space, a: Vec2, b: Vec2)
    requires
        space.wf(),
    ensures
        space.overlapping(a, b) == space.overlapping(b, a),
{
    lemma_offset_reversed(space, a.x as int, b.x as int, space.size_x as int);
    lemma_offset_reversed(space, a.y as int, b.y as int, space.size_y as int);
    lemma_square_of_magnitude(space.dx(a, b));
    lemma_square_of_magnitude(space.dx(b, a));
    lemma_square_of_magnitude(space.dy(a, b));
    lemma_square_of_magnitude(space.dy(b, a));
}

/// A number and its magnitude have the same square.
pub proof fn lemma_square_of_magnitude(d: int)
    ensures
        d * d == magnitude(d) * magnitude(d),
{
    assert(d * d == (-d) * (-d)) by (nonlinear_arith);
}

} // verus!
