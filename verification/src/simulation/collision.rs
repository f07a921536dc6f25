//! Collision events and the response to them: reflection at a wall and the
//! elastic rebound of two agents.

use vstd::prelude::*;
use super::fixed::{clamp_to_i64, div_up, lemma_quotient_up_is_least, magnitude, quotient_up, saturate};
use super::person::{Person, RADIUS};
use super::space::{dot, lemma_far_on_one_axis, Space, Topology, Vec2, DIAMETER};

verus! {

/// One of the four edges of a bounded box.
#[derive(Debug, Clone, Copy, PartialEq, Eq, Structural)]
pub enum Wall {
    Left,
    Right,
    Top,
    Bottom,
}

/// A collision found in one step.
#[derive(Debug, Clone, Copy, PartialEq, Eq, Structural)]
pub enum Collision {
    /// The two agents with these indices overlap; the smaller index is first.
    People(usize, usize),
    /// The agent with this index touches the wall.
    Wall(usize, Wall),
}

/// An agent centred at `p` is within a radius of `wall`. A torus has no
/// walls.
pub open spec fn touches(space: Space, p: Vec2, wall: Wall) -> bool {
    &&& space.topology == Topology::Bounded
    &&& match wall {
        Wall::Left => p.x < RADIUS,
        Wall::Right => p.x > space.size_x - RADIUS,
        Wall::Top => p.y < RADIUS,
        Wall::Bottom => p.y > space.size_y - RADIUS,
    }
}

/// The velocity `v` after a contact with `wall`: the part perpendicular to
/// the wall is turned round if it points into the wall.
pub open spec fn reflected(v: Vec2, wall: Wall) -> Vec2 {
    match wall {
        Wall::Left => if v.x < 0 {
            Vec2 { x: saturate(-v.x) as i64, y: v.y }
        } else {
            v
        },
        Wall::Right => if v.x > 0 {
            Vec2 { x: (-v.x) as i64, y: v.y }
        } else {
            v
        },
        Wall::Top => if v.y < 0 {
            Vec2 { x: v.x, y: saturate(-v.y) as i64 }
        } else {
            v
        },
        Wall::Bottom => if v.y > 0 {
            Vec2 { x: v.x, y: (-v.y) as i64 }
        } else {
            v
        },
    }
}

/// The rate at which two agents close in on each other, scaled by their
/// distance: the relative velocity times the displacement from the first to
/// the second. It is positive when they approach.
pub open spec fn closing(space: Space, pa: Vec2, va: Vec2, pb: Vec2, vb: Vec2) -> int {
    dot(va.x - vb.x, va.y - vb.y, space.dx(pa, pb), space.dy(pa, pb))
}

/// Two agents approach each other: their closing rate is positive.
pub open spec fn approaches(space: Space, pa: Vec2, va: Vec2, pb: Vec2, vb: Vec2) -> bool {
    closing(space, pa, va, pb, vb) > 0
}

/// One component of the velocity that a collision moves from the first agent
/// to the second: `c * d / dd`, rounded away from zero, where `c` is the
/// closing rate, `d` the component of the displacement and `dd` the squared
/// distance.
pub open spec fn impulse_part(c: int, d: int, dd: int) -> int {
    if d >= 0 {
        quotient_up(c * d, dd)
    } else {
        -quotient_up(c * (-d), dd)
    }
}

/// The horizontal component of the impulse.
pub open spec fn impulse_x(space: Space, pa: Vec2, va: Vec2, pb: Vec2, vb: Vec2) -> int {
    impulse_part(closing(space, pa, va, pb, vb), space.dx(pa, pb), space.distance_squared(pa, pb))
}

/// The vertical component of the impulse.
pub open spec fn impulse_y(space: Space, pa: Vec2, va: Vec2, pb: Vec2, vb: Vec2) -> int {
    impulse_part(closing(space, pa, va, pb, vb), space.dy(pa, pb), space.distance_squared(pa, pb))
}

/// The velocities of two agents after their collision. If they approach each
/// other, the part of the relative velocity along the line between the
/// centres passes from the first to the second; the results saturate at the
/// limits of `i64`. Otherwise both keep their velocities.
pub open spec fn rebound(space: Space, pa: Vec2, va: Vec2, pb: Vec2, vb: Vec2) -> (Vec2, Vec2) {
    if approaches(space, pa, va, pb, vb) {
        let jx = impulse_x(space, pa, va, pb, vb);
        let jy = impulse_y(space, pa, va, pb, vb);
        (
            Vec2 { x: saturate(va.x - jx) as i64, y: saturate(va.y - jy) as i64 },
            Vec2 { x: saturate(vb.x + jx) as i64, y: saturate(vb.y + jy) as i64 },
        )
    } else {
        (va, vb)
    }
}

/// No velocity saturates in the rebound of the two agents.
pub open spec fn rebound_exact(space: Space, pa: Vec2, va: Vec2, pb: Vec2, vb: Vec2) -> bool {
    approaches(space, pa, va, pb, vb) ==> {
        let jx = impulse_x(space, pa, va, pb, vb);
        let jy = impulse_y(space, pa, va, pb, vb);
        &&& i64::MIN <= va.x - jx <= i64::MAX
        &&& i64::MIN <= va.y - jy <= i64::MAX
        &&& i64::MIN <= vb.x + jx <= i64::MAX
        &&& i64::MIN <= vb.y + jy <= i64::MAX
    }
}

/// The speed up to which the rebound of two agents is known not to saturate:
/// two to the power 60.
pub const MODERATE_SPEED: i64 = 0x1000_0000_0000_0000;

/// Neither component of the velocity is beyond `MODERATE_SPEED`.
pub open spec fn moderate(v: Vec2) -> bool {
    &&& -MODERATE_SPEED <= v.x <= MODERATE_SPEED
    &&& -MODERATE_SPEED <= v.y <= MODERATE_SPEED
}

/// The sum of the squared speeds of two agents.
pub open spec fn energy(va: Vec2, vb: Vec2) -> int {
    dot(va.x as int, va.y as int, va.x as int, va.y as int) + dot(
        vb.x as int,
        vb.y as int,
        vb.x as int,
        vb.y as int,
    )
}

/// The positions of the agents.
pub open spec fn positions_of(people: Seq<Person>) -> Seq<Vec2> {
    Seq::new(people.len(), |i: int| people[i].pos())
}

/// The velocities of the agents.
pub open spec fn velocities_of(people: Seq<Person>) -> Seq<Vec2> {
    Seq::new(people.len(), |i: int| people[i].vel())
}

/// The velocities after the response to one event: the agent of a wall event
/// is reflected, the two agents of a pair event rebound.
pub open spec fn velocities_after_event(
    space: Space,
    positions: Seq<Vec2>,
    v: Seq<Vec2>,
    e: Collision,
) -> Seq<Vec2> {
    match e {
        Collision::Wall(i, wall) => v.update(i as int, reflected(v[i as int], wall)),
        Collision::People(i, j) => {
            let after = rebound(space, positions[i as int], v[i as int], positions[j as int], v[j as int]);
            v.update(i as int, after.0).update(j as int, after.1)
        },
    }
}

/// The velocities after the responses to the events, one after the other in
/// the order of the list.
pub open spec fn velocities_after(
    space: Space,
    positions: Seq<Vec2>,
    v: Seq<Vec2>,
    events: Seq<Collision>,
) -> Seq<Vec2>
    decreases events.len(),
{
    if events.len() == 0 {
        v
    } else {
        velocities_after_event(
            space,
            positions,
            velocities_after(space, positions, v, events.drop_last()),
            events.last(),
        )
    }
}

/// The velocity `v` after a contact with `wall`.
pub fn reflect(v: Vec2, wall: Wall) -> (r: Vec2)
    ensures
        r == reflected(v, wall),
{
    match wall {
        Wall::Left => if v.x < 0 {
            Vec2 { x: clamp_to_i64(-(v.x as i128)), y: v.y }
        } else {
            v
        },
        Wall::Right => if v.x > 0 {
            Vec2 { x: -v.x, y: v.y }
        } else {
            v
        },
        Wall::Top => if v.y < 0 {
            Vec2 { x: v.x, y: clamp_to_i64(-(v.y as i128)) }
        } else {
            v
        },
        Wall::Bottom => if v.y > 0 {
            Vec2 { x: v.x, y: -v.y }
        } else {
            v
        },
    }
}

/// One component of the impulse, for a positive closing rate.
fn impulse_component(c: i128, d: i128, dd: i128) -> (j: i128)
    requires
        0 < c < 0x40_0000_0000_0000_0000_0000,
        -1_000_000 < d < 1_000_000,
        0 < dd,
    ensures
        j == impulse_part(c as int, d as int, dd as int),
        magnitude(j as int) <= 0x40_0000_0000_0000_0000_0000 * 1_000_000,
{
    if d >= 0 {
        assert(0 <= c * d <= 0x40_0000_0000_0000_0000_0000 * 1_000_000) by (nonlinear_arith)
            requires
                0 < c < 0x40_0000_0000_0000_0000_0000,
                0 <= d < 1_000_000,
        ;
        div_up(c * d, dd)
    } else {
        assert(0 <= c * (-d) <= 0x40_0000_0000_0000_0000_0000 * 1_000_000) by (nonlinear_arith)
            requires
                0 < c < 0x40_0000_0000_0000_0000_0000,
                -1_000_000 < d < 0,
        ;
        -div_up(c * (-d), dd)
    }
}

/// The velocities of two overlapping agents after their collision. With
/// these velocities the two do not approach each other. The agents must
/// overlap: a collision is an overlap, and the arithmetic is laid out for
/// centres less than a diameter apart.
pub fn resolve(space: &Space, pa: Vec2, va: Vec2, pb: Vec2, vb: Vec2) -> (r: (Vec2, Vec2))
    requires
        space.wf(),
        space.overlapping(pa, pb),
    ensures
        r == rebound(*space, pa, va, pb, vb),
        closing(*space, pa, r.0, pb, r.1) <= 0,
{
    proof {
        lemma_rebound_separates(*space, pa, va, pb, vb);
    }
    let dx: i128 = space.axis_offset(pa.x, pb.x, space.size_x);
    let dy: i128 = space.axis_offset(pa.y, pb.y, space.size_y);
    proof {
        if magnitude(dx as int) >= DIAMETER || magnitude(dy as int) >= DIAMETER {
            lemma_far_on_one_axis(dx as int, dy as int);
        }
    }
    let rx: i128 = va.x as i128 - vb.x as i128;
    let ry: i128 = va.y as i128 - vb.y as i128;
    assert(-0x1_0000_0000_0000_0000 * 1_000_000 <= rx * dx <= 0x1_0000_0000_0000_0000 * 1_000_000)
        by (nonlinear_arith)
        requires
            -0x1_0000_0000_0000_0000 <= rx <= 0x1_0000_0000_0000_0000,
            -1_000_000 < dx < 1_000_000,
    ;
    assert(-0x1_0000_0000_0000_0000 * 1_000_000 <= ry * dy <= 0x1_0000_0000_0000_0000 * 1_000_000)
        by (nonlinear_arith)
        requires
            -0x1_0000_0000_0000_0000 <= ry <= 0x1_0000_0000_0000_0000,
            -1_000_000 < dy < 1_000_000,
    ;
    let c: i128 = rx * dx + ry * dy;
    if c <= 0 {
        return (va, vb);
    }
    assert(0 <= dx * dx <= 1_000_000 * 1_000_000 && 0 <= dy * dy <= 1_000_000 * 1_000_000)
        by (nonlinear_arith)
        requires
            -1_000_000 < dx < 1_000_000,
            -1_000_000 < dy < 1_000_000,
    ;
    let dd: i128 = dx * dx + dy * dy;
    assert(dd > 0) by (nonlinear_arith)
        requires
            dd == dx * dx + dy * dy,
            rx * dx + ry * dy > 0,
    ;
    let jx: i128 = impulse_component(c, dx, dd);
    let jy: i128 = impulse_component(c, dy, dd);
    (
        Vec2 { x: clamp_to_i64(va.x as i128 - jx), y: clamp_to_i64(va.y as i128 - jy) },
        Vec2 { x: clamp_to_i64(vb.x as i128 + jx), y: clamp_to_i64(vb.y as i128 + jy) },
    )
}

/// The product of a component of the impulse with the same component of the
/// displacement, times the squared distance, is at least the closing rate
/// times the squared component.
proof fn lemma_impulse_part_reaches(c: int, d: int, dd: int)
    requires
        c > 0,
        dd > 0,
    ensures
        impulse_part(c, d, dd) * d * dd >= c * (d * d),
{
    let m = magnitude(d);
    assert(c * m >= 0) by (nonlinear_arith)
        requires
            c > 0,
            m >= 0,
    ;
    lemma_quotient_up_is_least(c * m, dd);
    let q = quotient_up(c * m, dd);
    assert(q * m * dd >= c * (m * m)) by (nonlinear_arith)
        requires
            q * dd >= c * m,
            m >= 0,
    ;
    if d >= 0 {
        assert(m == d);
    } else {
        assert(impulse_part(c, d, dd) == -q);
        assert((-q) * d * dd == q * m * dd) by (nonlinear_arith)
            requires
                m == -d,
        ;
        assert(d * d == m * m) by (nonlinear_arith)
            requires
                m == -d,
        ;
    }
}

/// A component of the impulse points the way of the same component of the
/// displacement, and is zero where that is zero.
proof fn lemma_impulse_sign(c: int, d: int, dd: int)
    requires
        c > 0,
        dd > 0,
    ensures
        d > 0 ==> impulse_part(c, d, dd) >= 0,
        d < 0 ==> impulse_part(c, d, dd) <= 0,
        d == 0 ==> impulse_part(c, d, dd) == 0,
{
    let m = magnitude(d);
    assert(c * m >= 0) by (nonlinear_arith)
        requires
            c > 0,
            m >= 0,
    ;
    lemma_quotient_up_is_least(c * m, dd);
    if d == 0 {
        assert(c * d == 0) by (nonlinear_arith)
            requires
                d == 0,
        ;
    } else if d < 0 {
        assert(c * (-d) == c * m);
    }
}

/// What one axis adds to the closing rate after the rebound. Here `a` and
/// `b` are the components of the two velocities, `j` that of the impulse and
/// `d` that of the displacement. Either nothing saturates and the axis adds
/// what it added before less twice the impulse; or something saturates, and
/// then the axis adds nothing positive: at most what it added before less
/// once the impulse if one velocity saturates, and the whole range of `i64`
/// the other way if both do.
proof fn lemma_axis_after(a: int, b: int, j: int, d: int)
    requires
        i64::MIN <= a <= i64::MAX,
        i64::MIN <= b <= i64::MAX,
        d > 0 ==> j >= 0,
        d < 0 ==> j <= 0,
        d == 0 ==> j == 0,
    ensures
        ({
            let k = saturate(a - j) - saturate(b + j);
            ||| k * d == (a - b) * d - 2 * (j * d)
            ||| (k * d <= 0 && k * d <= (a - b) * d - j * d)
            ||| (k * d <= 0 && k * d == -((i64::MAX - i64::MIN) * magnitude(d)))
        }),
{
    let k = saturate(a - j) - saturate(b + j);
    let span = i64::MAX - i64::MIN;
    assert((a - b - 2 * j) * d == (a - b) * d - 2 * (j * d)) by (nonlinear_arith);
    assert((a - b - j) * d == (a - b) * d - j * d) by (nonlinear_arith);
    if d == 0 {
        assert(k * d == 0) by (nonlinear_arith)
            requires
                d == 0,
        ;
    } else if d > 0 {
        if a - j >= i64::MIN && b + j <= i64::MAX {
            assert(k == a - b - 2 * j);
        } else if a - j < i64::MIN && b + j > i64::MAX {
            assert(k == -span);
            assert(k * d == -(span * magnitude(d)) && k * d <= 0) by (nonlinear_arith)
                requires
                    k == -span,
                    span > 0,
                    d > 0,
            ;
        } else {
            assert(k <= -j && k <= a - b - j);
            assert(k * d <= 0 && k * d <= (a - b - j) * d) by (nonlinear_arith)
                requires
                    k <= 0,
                    k <= a - b - j,
                    d > 0,
            ;
        }
    } else {
        if a - j <= i64::MAX && b + j >= i64::MIN {
            assert(k == a - b - 2 * j);
        } else if a - j > i64::MAX && b + j < i64::MIN {
            assert(k == span);
            assert(k * d == -(span * magnitude(d)) && k * d <= 0) by (nonlinear_arith)
                requires
                    k == span,
                    span > 0,
                    d < 0,
            ;
        } else {
            assert(k >= -j && k >= a - b - j);
            assert(k * d <= 0 && k * d <= (a - b - j) * d) by (nonlinear_arith)
                requires
                    k >= 0,
                    k >= a - b - j,
                    d < 0,
            ;
        }
    }
}

/// Where one axis adds nothing that saturates and both velocities saturate
/// along the other, the first adds no more than the second takes away. Here
/// `r` and `p` are what the relative velocity and the impulse add along the
/// first axis, `other` what the relative velocity adds along the second,
/// `m` and `n` the magnitudes of the displacement along the first and the
/// second.
proof fn lemma_against_full_saturation(
    c: int,
    r: int,
    p: int,
    other: int,
    m: int,
    n: int,
    dd: int,
    span: int,
)
    requires
        c == other + r,
        c > 0,
        0 <= m,
        0 <= n,
        dd == m * m + n * n,
        p * dd >= c * (m * m),
        p >= 0,
        r <= span * m,
        other >= -(span * n),
        span > 0,
    ensures
        r - 2 * p <= span * n,
{
    if m <= n {
        assert(span * m <= span * n) by (nonlinear_arith)
            requires
                m <= n,
                span > 0,
        ;
    } else {
        assert(dd <= 2 * (m * m)) by (nonlinear_arith)
            requires
                dd == m * m + n * n,
                0 <= n < m,
        ;
        assert(m * m > 0) by (nonlinear_arith)
            requires
                m > 0,
        ;
        assert(2 * p >= c) by (nonlinear_arith)
            requires
                p * dd >= c * (m * m),
                dd <= 2 * (m * m),
                m * m > 0,
                p >= 0,
        ;
    }
}

/// After the rebound two agents no longer approach each other, wherever
/// they stand and however fast they are.
pub proof fn lemma_rebound_separates(space: Space, pa: Vec2, va: Vec2, pb: Vec2, vb: Vec2)
    ensures
        closing(
            space,
            pa,
            rebound(space, pa, va, pb, vb).0,
            pb,
            rebound(space, pa, va, pb, vb).1,
        ) <= 0,
{
    if approaches(space, pa, va, pb, vb) {
        let dx = space.dx(pa, pb);
        let dy = space.dy(pa, pb);
        let dd = space.distance_squared(pa, pb);
        let c = closing(space, pa, va, pb, vb);
        let jx = impulse_x(space, pa, va, pb, vb);
        let jy = impulse_y(space, pa, va, pb, vb);
        let w = rebound(space, pa, va, pb, vb);
        let span = i64::MAX - i64::MIN;
        let mx = magnitude(dx);
        let my = magnitude(dy);
        assert(dd > 0) by (nonlinear_arith)
            requires
                dd == dx * dx + dy * dy,
                c == (va.x - vb.x) * dx + (va.y - vb.y) * dy,
                c > 0,
        ;
        lemma_impulse_part_reaches(c, dx, dd);
        lemma_impulse_part_reaches(c, dy, dd);
        lemma_impulse_sign(c, dx, dd);
        lemma_impulse_sign(c, dy, dd);
        // What the relative velocity and the impulse add along each axis.
        let rx = (va.x - vb.x) * dx;
        let ry = (va.y - vb.y) * dy;
        let px = jx * dx;
        let py = jy * dy;
        assert(px + py >= c) by (nonlinear_arith)
            requires
                px * dd >= c * (dx * dx),
                py * dd >= c * (dy * dy),
                dd == dx * dx + dy * dy,
                dd > 0,
        ;
        assert(px >= 0) by (nonlinear_arith)
            requires
                px == jx * dx,
                dx > 0 ==> jx >= 0,
                dx < 0 ==> jx <= 0,
                dx == 0 ==> jx == 0,
        ;
        assert(py >= 0) by (nonlinear_arith)
            requires
                py == jy * dy,
                dy > 0 ==> jy >= 0,
                dy < 0 ==> jy <= 0,
                dy == 0 ==> jy == 0,
        ;
        lemma_axis_after(va.x as int, vb.x as int, jx, dx);
        lemma_axis_after(va.y as int, vb.y as int, jy, dy);
        let kx = w.0.x - w.1.x;
        let ky = w.0.y - w.1.y;
        assert(kx == saturate(va.x - jx) - saturate(vb.x + jx));
        assert(ky == saturate(va.y - jy) - saturate(vb.y + jy));
        let tx = kx * dx;
        let ty = ky * dy;
        assert(mx * mx == dx * dx && my * my == dy * dy) by (nonlinear_arith)
            requires
                mx == magnitude(dx),
                my == magnitude(dy),
        ;
        assert(-(span * mx) <= rx <= span * mx) by (nonlinear_arith)
            requires
                rx == (va.x - vb.x) * dx,
                -span <= va.x - vb.x <= span,
                mx == magnitude(dx),
        ;
        assert(-(span * my) <= ry <= span * my) by (nonlinear_arith)
            requires
                ry == (va.y - vb.y) * dy,
                -span <= va.y - vb.y <= span,
                my == magnitude(dy),
        ;
        if tx == rx - 2 * px && ty == ry - 2 * py {
        } else if tx == rx - 2 * px {
            if ty <= ry - py {
            } else {
                lemma_against_full_saturation(c, rx, px, ry, mx, my, dd, span);
            }
        } else if ty == ry - 2 * py {
            if tx <= rx - px {
            } else {
                lemma_against_full_saturation(c, ry, py, rx, my, mx, dd, span);
            }
        } else {
        }
        assert(tx + ty <= 0);
    }
}

/// In a rebound in which no velocity saturates, one agent gains what the
/// other loses: the sum of the two velocities is as it was.
pub proof fn lemma_rebound_conserves_momentum(
    space: Space,
    pa: Vec2,
    va: Vec2,
    pb: Vec2,
    vb: Vec2,
)
    requires
        rebound_exact(space, pa, va, pb, vb),
    ensures
        rebound(space, pa, va, pb, vb).0.x + rebound(space, pa, va, pb, vb).1.x == va.x + vb.x,
        rebound(space, pa, va, pb, vb).0.y + rebound(space, pa, va, pb, vb).1.y == va.y + vb.y,
{
}

/// A rebound whose impulse needs no rounding, and in which no velocity
/// saturates, leaves the sum of the squared speeds as it was.
pub proof fn lemma_rebound_conserves_energy(space: Space, pa: Vec2, va: Vec2, pb: Vec2, vb: Vec2)
    requires
        rebound_exact(space, pa, va, pb, vb),
        approaches(space, pa, va, pb, vb) ==> {
            &&& (closing(space, pa, va, pb, vb) * space.dx(pa, pb)) % space.distance_squared(
                pa,
                pb,
            ) == 0
            &&& (closing(space, pa, va, pb, vb) * space.dy(pa, pb)) % space.distance_squared(
                pa,
                pb,
            ) == 0
        },
    ensures
        energy(rebound(space, pa, va, pb, vb).0, rebound(space, pa, va, pb, vb).1) == energy(
            va,
            vb,
        ),
{
    if approaches(space, pa, va, pb, vb) {
        let dx = space.dx(pa, pb);
        let dy = space.dy(pa, pb);
        let dd = space.distance_squared(pa, pb);
        let c = closing(space, pa, va, pb, vb);
        let jx = impulse_x(space, pa, va, pb, vb);
        let jy = impulse_y(space, pa, va, pb, vb);
        let w = rebound(space, pa, va, pb, vb);
        let rx = va.x - vb.x;
        let ry = va.y - vb.y;
        assert(dd > 0) by (nonlinear_arith)
            requires
                dd == dx * dx + dy * dy,
                c == rx * dx + ry * dy,
                c > 0,
        ;
        lemma_exact_part(c, dx, dd);
        lemma_exact_part(c, dy, dd);
        // The impulse is the closing rate times the displacement over the
        // squared distance, so its square equals its product with the
        // relative velocity.
        let along = jx * dx + jy * dy;
        let squared = jx * jx + jy * jy;
        let across = jx * rx + jy * ry;
        assert((jx * dx) * dd == (jx * dd) * dx) by (nonlinear_arith);
        assert((jy * dy) * dd == (jy * dd) * dy) by (nonlinear_arith);
        assert((c * dx) * dx + (c * dy) * dy == c * (dx * dx + dy * dy)) by (nonlinear_arith);
        assert(along * dd == (jx * dx) * dd + (jy * dy) * dd) by (nonlinear_arith)
            requires
                along == jx * dx + jy * dy,
        ;
        assert(along == c) by (nonlinear_arith)
            requires
                along * dd == c * dd,
                dd > 0,
        ;
        assert(squared * dd == jx * (jx * dd) + jy * (jy * dd)) by (nonlinear_arith)
            requires
                squared == jx * jx + jy * jy,
        ;
        assert(jx * (c * dx) + jy * (c * dy) == c * (jx * dx + jy * dy)) by (nonlinear_arith);
        assert(across * dd == (jx * dd) * rx + (jy * dd) * ry) by (nonlinear_arith)
            requires
                across == jx * rx + jy * ry,
        ;
        assert((c * dx) * rx + (c * dy) * ry == c * (rx * dx + ry * dy)) by (nonlinear_arith);
        assert(squared == across) by (nonlinear_arith)
            requires
                squared * dd == across * dd,
                dd > 0,
        ;
        lemma_exchange(va.x as int, vb.x as int, jx);
        lemma_exchange(va.y as int, vb.y as int, jy);
    }
}

/// What the squares of two numbers come to when `j` passes from the first to
/// the second.
proof fn lemma_exchange(a: int, b: int, j: int)
    ensures
        (a - j) * (a - j) + (b + j) * (b + j) == a * a + b * b - 2 * (j * (a - b)) + 2 * (j * j),
{
    assert((a - j) * (a - j) + (b + j) * (b + j) == a * a + b * b - 2 * (j * (a - b)) + 2 * (j
        * j)) by (nonlinear_arith);
}

/// Where the squared distance divides the product of the closing rate and a
/// component of the displacement, the component of the impulse is the exact
/// quotient.
proof fn lemma_exact_part(c: int, d: int, dd: int)
    requires
        c > 0,
        dd > 0,
        (c * d) % dd == 0,
    ensures
        impulse_part(c, d, dd) * dd == c * d,
{
    vstd::arithmetic::div_mod::lemma_fundamental_div_mod(c * d, dd);
    if d >= 0 {
        assert(dd * ((c * d) / dd) == ((c * d) / dd) * dd) by (nonlinear_arith);
    } else {
        assert(c * (-d) == -(c * d)) by (nonlinear_arith);
        let k = (c * d) / dd;
        assert(c * (-d) == (-k) * dd + 0) by (nonlinear_arith)
            requires
                c * d == dd * k + 0,
                c * (-d) == -(c * d),
        ;
        vstd::arithmetic::div_mod::lemma_fundamental_div_mod_converse(c * (-d), dd, -k, 0);
        assert((-(-k)) * dd == c * d) by (nonlinear_arith)
            requires
                c * d == dd * k + 0,
        ;
    }
}

/// A quotient rounded up is at most `k` if the dividend is at most `k` times
/// the divisor.
proof fn lemma_quotient_up_bounded(n: int, d: int, k: int)
    requires
        0 <= n,
        0 < d,
        0 <= k,
        n <= k * d,
    ensures
        quotient_up(n, d) <= k,
{
    lemma_quotient_up_is_least(n, d);
    let q = quotient_up(n, d);
    if n > 0 {
        assert(q - 1 < k) by (nonlinear_arith)
            requires
                (q - 1) * d < n,
                n <= k * d,
                d > 0,
        ;
    } else {
        assert(0int % d == 0 && 0int / d == 0) by (nonlinear_arith)
            requires
                d > 0,
        ;
    }
}

/// A component of the impulse is at most as large as the two components of
/// the relative velocity together. Here `ra` and `d` are the components of
/// the relative velocity and of the displacement along the axis of the
/// impulse, `rb` and `e` those along the other axis.
proof fn lemma_impulse_bounded(ra: int, rb: int, d: int, e: int)
    requires
        ra * d + rb * e > 0,
    ensures
        magnitude(impulse_part(ra * d + rb * e, d, d * d + e * e)) <= magnitude(ra) + magnitude(
            rb,
        ),
{
    let a = magnitude(ra);
    let b = magnitude(rb);
    let m = magnitude(d);
    let h = magnitude(e);
    let c = ra * d + rb * e;
    let dd = d * d + e * e;
    assert(ra * d <= a * m) by (nonlinear_arith)
        requires
            a == magnitude(ra),
            m == magnitude(d),
    ;
    assert(rb * e <= b * h) by (nonlinear_arith)
        requires
            b == magnitude(rb),
            h == magnitude(e),
    ;
    assert(m * m == d * d && h * h == e * e) by (nonlinear_arith)
        requires
            m == magnitude(d),
            h == magnitude(e),
    ;
    assert(h * m <= h * h + m * m && 0 <= h * m && 0 <= h * h && 0 <= m * m) by (nonlinear_arith)
        requires
            0 <= h,
            0 <= m,
    {
        assert((h - m) * (h - m) >= 0);
        assert((h - m) * (h - m) == h * h + m * m - 2 * (h * m));
    }
    assert(dd > 0) by (nonlinear_arith)
        requires
            dd == d * d + e * e,
            ra * d + rb * e > 0,
    ;
    assert(c * m <= (a * m + b * h) * m) by (nonlinear_arith)
        requires
            c <= a * m + b * h,
            0 <= m,
    ;
    assert((a * m + b * h) * m == a * (m * m) + b * (h * m)) by (nonlinear_arith);
    assert(a * (m * m) <= a * dd) by (nonlinear_arith)
        requires
            0 <= a,
            m * m <= dd,
    ;
    assert(b * (h * m) <= b * dd) by (nonlinear_arith)
        requires
            0 <= b,
            h * m <= dd,
    ;
    assert(a * dd + b * dd == (a + b) * dd) by (nonlinear_arith);
    assert(0 <= c * m) by (nonlinear_arith)
        requires
            c > 0,
            0 <= m,
    ;
    lemma_quotient_up_bounded(c * m, dd, a + b);
    if d < 0 {
        assert(c * (-d) == c * m);
    } else {
        assert(c * d == c * m);
    }
    lemma_quotient_up_is_least(c * m, dd);
}

/// The rebound of two agents of moderate speed does not saturate.
pub proof fn lemma_moderate_rebound_is_exact(space: Space, pa: Vec2, va: Vec2, pb: Vec2, vb: Vec2)
    requires
        moderate(va),
        moderate(vb),
    ensures
        rebound_exact(space, pa, va, pb, vb),
{
    if approaches(space, pa, va, pb, vb) {
        let dx = space.dx(pa, pb);
        let dy = space.dy(pa, pb);
        let rx = va.x - vb.x;
        let ry = va.y - vb.y;
        lemma_impulse_bounded(rx, ry, dx, dy);
        lemma_impulse_bounded(ry, rx, dy, dx);
        assert(ry * dy + rx * dx == rx * dx + ry * dy);
        assert(dy * dy + dx * dx == dx * dx + dy * dy);
    }
}

/// The square of a sum.
proof fn lemma_binomial(p: int, q: int)
    ensures
        (p + q) * (p + q) == p * p + 2 * (p * q) + q * q,
{
    assert((p + q) * (p + q) == p * p + 2 * (p * q) + q * q) by (nonlinear_arith);
}

/// By how much rounding makes a component of the impulse, times the squared
/// distance, exceed the exact product: less than the squared distance, and
/// in the direction of the displacement.
proof fn lemma_impulse_excess(c: int, d: int, dd: int)
    requires
        c > 0,
        dd > 0,
    ensures
        d >= 0 ==> 0 <= impulse_part(c, d, dd) * dd - c * d < dd,
        d < 0 ==> -dd < impulse_part(c, d, dd) * dd - c * d <= 0,
{
    let m = magnitude(d);
    assert(c * m >= 0) by (nonlinear_arith)
        requires
            c > 0,
            m >= 0,
    ;
    lemma_quotient_up_is_least(c * m, dd);
    let q = quotient_up(c * m, dd);
    assert((q - 1) * dd == q * dd - dd) by (nonlinear_arith);
    if c * m == 0 {
        assert(q == 0) by (nonlinear_arith)
            requires
                q * dd >= 0,
                0 <= q <= 0,
        ;
        assert(q * dd == 0) by (nonlinear_arith)
            requires
                q == 0,
        ;
    }
    if d < 0 {
        assert(c * (-d) == -(c * d)) by (nonlinear_arith);
        assert((-q) * dd == -(q * dd)) by (nonlinear_arith);
    }
}

/// The size of what rounding adds to the sum of the squared speeds, in
/// whole numbers. Here `rx`, `ry` are the relative velocity, `dx`, `dy` the
/// displacement, `jx`, `jy` the impulse, and `ex`, `ey` what the impulse
/// times the squared distance exceeds the exact product by.
proof fn lemma_energy_drift(
    rx: int,
    ry: int,
    dx: int,
    dy: int,
    jx: int,
    jy: int,
    ex: int,
    ey: int,
)
    requires
        rx * dx + ry * dy > 0,
        jx * (dx * dx + dy * dy) == (rx * dx + ry * dy) * dx + ex,
        jy * (dx * dx + dy * dy) == (rx * dx + ry * dy) * dy + ey,
        dx >= 0 ==> 0 <= ex < dx * dx + dy * dy,
        dx < 0 ==> -(dx * dx + dy * dy) < ex <= 0,
        dy >= 0 ==> 0 <= ey < dx * dx + dy * dy,
        dy < 0 ==> -(dx * dx + dy * dy) < ey <= 0,
    ensures
        -(magnitude(rx) + magnitude(ry)) <= jx * jx + jy * jy - (jx * rx + jy * ry),
        jx * jx + jy * jy - (jx * rx + jy * ry) <= 5 * (magnitude(rx) + magnitude(ry)) + 2,
{
    let c = rx * dx + ry * dy;
    let d2 = dx * dx + dy * dy;
    let r = magnitude(rx) + magnitude(ry);
    let mx = magnitude(dx);
    let my = magnitude(dy);
    let gx = c * dx + ex;
    let gy = c * dy + ey;
    let along = dx * ex + dy * ey;
    let across = ex * rx + ey * ry;
    let x = jx * jx + jy * jy - (jx * rx + jy * ry);
    assert(d2 > 0) by (nonlinear_arith)
        requires
            d2 == dx * dx + dy * dy,
            rx * dx + ry * dy > 0,
    ;
    // The drift, scaled by the square of the squared distance.
    assert(gx * gx + gy * gy == c * c * d2 + 2 * (c * along) + ex * ex + ey * ey) by {
        lemma_binomial(c * dx, ex);
        lemma_binomial(c * dy, ey);
        assert((c * dx) * (c * dx) == (c * c) * (dx * dx)) by (nonlinear_arith);
        assert((c * dy) * (c * dy) == (c * c) * (dy * dy)) by (nonlinear_arith);
        assert((c * dx) * ex == c * (dx * ex)) by (nonlinear_arith);
        assert((c * dy) * ey == c * (dy * ey)) by (nonlinear_arith);
        assert((c * c) * (dx * dx) + (c * c) * (dy * dy) == (c * c) * (dx * dx + dy * dy))
            by (nonlinear_arith);
        assert(c * (dx * ex) + c * (dy * ey) == c * (dx * ex + dy * ey)) by (nonlinear_arith);
    }
    assert(gx * rx + gy * ry == c * c + across) by (nonlinear_arith)
        requires
            gx == c * dx + ex,
            gy == c * dy + ey,
            c == rx * dx + ry * dy,
            across == ex * rx + ey * ry,
    ;
    assert(d2 * d2 * (jx * jx) == (jx * d2) * (jx * d2)) by (nonlinear_arith);
    assert(d2 * d2 * (jy * jy) == (jy * d2) * (jy * d2)) by (nonlinear_arith);
    assert(d2 * d2 * (jx * rx) == d2 * ((jx * d2) * rx)) by (nonlinear_arith);
    assert(d2 * d2 * (jy * ry) == d2 * ((jy * d2) * ry)) by (nonlinear_arith);
    assert(d2 * d2 * x == d2 * d2 * (jx * jx) + d2 * d2 * (jy * jy) - d2 * d2 * (jx * rx) - d2
        * d2 * (jy * ry)) by (nonlinear_arith)
        requires
            x == jx * jx + jy * jy - (jx * rx + jy * ry),
    ;
    assert(d2 * (gx * rx) + d2 * (gy * ry) == d2 * (c * c) + d2 * across) by (nonlinear_arith)
        requires
            gx * rx + gy * ry == c * c + across,
    ;
    assert(c * c * d2 == d2 * (c * c)) by (nonlinear_arith);
    assert(d2 * d2 * x == 2 * (c * along) + ex * ex + ey * ey - d2 * across);
    // The three parts, each against a multiple of that square.
    assert(0 <= dx * ex <= mx * d2) by (nonlinear_arith)
        requires
            mx == magnitude(dx),
            dx >= 0 ==> 0 <= ex < d2,
            dx < 0 ==> -d2 < ex <= 0,
    ;
    assert(0 <= dy * ey <= my * d2) by (nonlinear_arith)
        requires
            my == magnitude(dy),
            dy >= 0 ==> 0 <= ey < d2,
            dy < 0 ==> -d2 < ey <= 0,
    ;
    assert(mx * d2 + my * d2 == (mx + my) * d2) by (nonlinear_arith);
    assert(0 <= c * along <= c * ((mx + my) * d2)) by (nonlinear_arith)
        requires
            c > 0,
            0 <= along <= (mx + my) * d2,
    ;
    assert(c * ((mx + my) * d2) == (c * (mx + my)) * d2) by (nonlinear_arith);
    assert(c <= magnitude(rx) * mx + magnitude(ry) * my) by (nonlinear_arith)
        requires
            c == rx * dx + ry * dy,
            mx == magnitude(dx),
            my == magnitude(dy),
    ;
    assert(mx * mx <= d2 && my * my <= d2 && mx * my <= d2 && 0 <= mx * my) by (nonlinear_arith)
        requires
            d2 == dx * dx + dy * dy,
            mx == magnitude(dx),
            my == magnitude(dy),
    {
        assert(mx * mx == dx * dx);
        assert(my * my == dy * dy);
        assert((mx - my) * (mx - my) >= 0);
        assert((mx - my) * (mx - my) == mx * mx + my * my - 2 * (mx * my));
    }
    let a = magnitude(rx);
    let b = magnitude(ry);
    assert((a * mx + b * my) * (mx + my) == a * (mx * mx) + a * (mx * my) + b * (mx * my) + b * (
    my * my)) by {
        let p = a * mx;
        let q = b * my;
        assert((p + q) * (mx + my) == p * mx + p * my + q * mx + q * my) by (nonlinear_arith);
        assert((a * mx) * mx == a * (mx * mx)) by (nonlinear_arith);
        assert((a * mx) * my == a * (mx * my)) by (nonlinear_arith);
        assert((b * my) * mx == b * (mx * my)) by (nonlinear_arith);
        assert((b * my) * my == b * (my * my)) by (nonlinear_arith);
    }
    assert(a * (mx * mx) <= a * d2 && a * (mx * my) <= a * d2 && b * (mx * my) <= b * d2 && b * (
    my * my) <= b * d2) by (nonlinear_arith)
        requires
            0 <= a,
            0 <= b,
            mx * mx <= d2,
            my * my <= d2,
            mx * my <= d2,
    ;
    assert(c * (mx + my) <= (a * mx + b * my) * (mx + my)) by (nonlinear_arith)
        requires
            c <= a * mx + b * my,
            0 <= mx,
            0 <= my,
    ;
    assert(a * d2 + a * d2 + b * d2 + b * d2 == 2 * r * d2) by (nonlinear_arith)
        requires
            r == a + b,
    ;
    assert((c * (mx + my)) * d2 <= (2 * r * d2) * d2) by (nonlinear_arith)
        requires
            c * (mx + my) <= 2 * r * d2,
            d2 > 0,
    ;
    assert((2 * r * d2) * d2 == 2 * r * (d2 * d2)) by (nonlinear_arith);
    assert(0 <= ex * ex <= d2 * d2 && 0 <= ey * ey <= d2 * d2) by (nonlinear_arith)
        requires
            -d2 < ex < d2,
            -d2 < ey < d2,
    ;
    assert(-(a * d2) <= ex * rx <= a * d2) by (nonlinear_arith)
        requires
            a == magnitude(rx),
            -d2 < ex < d2,
    ;
    assert(-(b * d2) <= ey * ry <= b * d2) by (nonlinear_arith)
        requires
            b == magnitude(ry),
            -d2 < ey < d2,
    ;
    assert(a * d2 + b * d2 == r * d2) by (nonlinear_arith)
        requires
            r == a + b,
    ;
    assert(-(r * (d2 * d2)) <= d2 * across <= r * (d2 * d2)) by (nonlinear_arith)
        requires
            -(r * d2) <= across <= r * d2,
            d2 > 0,
    ;
    let unit = d2 * d2;
    assert(unit > 0) by (nonlinear_arith)
        requires
            unit == d2 * d2,
            d2 > 0,
    ;
    assert(unit * x <= (5 * r + 2) * unit) by (nonlinear_arith)
        requires
            unit * x == 2 * (c * along) + ex * ex + ey * ey - d2 * across,
            c * along <= 2 * r * unit,
            ex * ex <= unit,
            ey * ey <= unit,
            -(r * unit) <= d2 * across,
    ;
    assert(unit * x >= (-r) * unit) by (nonlinear_arith)
        requires
            unit * x == 2 * (c * along) + ex * ex + ey * ey - d2 * across,
            0 <= c * along,
            0 <= ex * ex,
            0 <= ey * ey,
            d2 * across <= r * unit,
    ;
    assert(x <= 5 * r + 2 && x >= -r) by (nonlinear_arith)
        requires
            unit > 0,
            unit * x <= (5 * r + 2) * unit,
            unit * x >= (-r) * unit,
    ;
}

/// How far the relative velocity of two agents is from zero: the sum of the
/// magnitudes of its two components.
pub open spec fn relative_speed(va: Vec2, vb: Vec2) -> int {
    magnitude(va.x - vb.x) + magnitude(va.y - vb.y)
}

/// A rebound in which no velocity saturates leaves the sum of the squared
/// speeds as it was, up to what the rounding of the impulse adds or takes:
/// at most a few times the relative speed.
pub proof fn lemma_rebound_nearly_conserves_energy(
    space: Space,
    pa: Vec2,
    va: Vec2,
    pb: Vec2,
    vb: Vec2,
)
    requires
        rebound_exact(space, pa, va, pb, vb),
    ensures
        energy(rebound(space, pa, va, pb, vb).0, rebound(space, pa, va, pb, vb).1) - energy(
            va,
            vb,
        ) >= -2 * relative_speed(va, vb),
        energy(rebound(space, pa, va, pb, vb).0, rebound(space, pa, va, pb, vb).1) - energy(
            va,
            vb,
        ) <= 10 * relative_speed(va, vb) + 4,
{
    if approaches(space, pa, va, pb, vb) {
        let dx = space.dx(pa, pb);
        let dy = space.dy(pa, pb);
        let dd = space.distance_squared(pa, pb);
        let c = closing(space, pa, va, pb, vb);
        let jx = impulse_x(space, pa, va, pb, vb);
        let jy = impulse_y(space, pa, va, pb, vb);
        let rx = va.x - vb.x;
        let ry = va.y - vb.y;
        assert(dd > 0) by (nonlinear_arith)
            requires
                dd == dx * dx + dy * dy,
                c == rx * dx + ry * dy,
                c > 0,
        ;
        lemma_impulse_excess(c, dx, dd);
        lemma_impulse_excess(c, dy, dd);
        lemma_energy_drift(rx, ry, dx, dy, jx, jy, jx * dd - c * dx, jy * dd - c * dy);
        lemma_exchange(va.x as int, vb.x as int, jx);
        lemma_exchange(va.y as int, vb.y as int, jy);
    }
}

} // verus!
