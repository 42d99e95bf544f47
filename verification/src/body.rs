//! The mathematical model of one particle.

use vstd::prelude::*;
use crate::sqrt::{ceil_sqrt, lemma_ceil_sqrt_bounds, lemma_square_order};
use crate::vector::Point;

verus! {

/// The largest radius a particle may have.
pub const RADIUS_LIMIT: i64 = 0x4000_0000;

/// A colour, carried along for whoever draws the particle.
#[derive(Clone, Copy, Debug, PartialEq, Eq, Structural)]
pub struct Color {
    pub r: u8,
    pub g: u8,
    pub b: u8,
}

/// The absolute value of `v`.
pub open spec fn magnitude(v: int) -> int {
    if v >= 0 {
        v
    } else {
        -v
    }
}

/// `value * numer / denom`, rounded toward zero.
pub open spec fn scale(value: int, numer: int, denom: int) -> int {
    if value >= 0 {
        (value * numer) / denom
    } else {
        -(((0 - value) * numer) / denom)
    }
}

/// The state of one circular particle: where it is, where it was one step
/// ago, the acceleration gathered for the next step, and what never changes.
pub struct Body {
    pub id: nat,
    pub position: Point,
    pub previous: Point,
    pub acceleration: Point,
    pub radius: int,
    pub color: Color,
}

impl Body {
    /// A particle at rest at `position`.
    pub open spec fn at_rest(id: nat, position: Point, radius: int, color: Color) -> Body {
        Body { id, position, previous: position, acceleration: Point::zero(), radius, color }
    }

    /// The radius is positive and within the limit.
    pub open spec fn valid(self) -> bool {
        0 < self.radius <= RADIUS_LIMIT
    }

    /// The displacement of the last step, which stands for the velocity.
    pub open spec fn velocity(self) -> Point {
        self.position.minus(self.previous)
    }

    /// Adds `v` to the gathered acceleration.
    pub open spec fn accelerate(self, v: Point) -> Body {
        Body { acceleration: self.acceleration.plus(v), ..self }
    }

    /// One Verlet step under `gravity`: the particle moves on by its velocity
    /// and by the gathered acceleration, which is then cleared.
    pub open spec fn integrate(self, gravity: Point) -> Body {
        let moved = self.accelerate(gravity);
        Body {
            position: moved.position.plus(moved.velocity()).plus(moved.acceleration),
            previous: moved.position,
            acceleration: Point::zero(),
            ..moved
        }
    }

    /// The particle stopped at `place`: it last rested where it was.
    pub open spec fn stopped_at(self, place: Point) -> Body {
        Body { position: place, previous: self.position, ..self }
    }

    /// Pulls the particle back into the rectangle between the corners `min`
    /// and `max`, wall by wall: first the wall at `max.y`, then the one at
    /// `min.y`, then `max.x`, then `min.x`. A particle that reaches beyond a
    /// wall is stopped where it touches that wall from inside.
    pub open spec fn confine_rect(self, min: Point, max: Point) -> Body {
        let a = if self.position.y + self.radius > max.y {
            self.stopped_at(Point { x: self.position.x, y: max.y - self.radius })
        } else {
            self
        };
        let b = if a.position.y - a.radius < min.y {
            a.stopped_at(Point { x: a.position.x, y: min.y + a.radius })
        } else {
            a
        };
        let c = if b.position.x + b.radius > max.x {
            b.stopped_at(Point { x: max.x - b.radius, y: b.position.y })
        } else {
            b
        };
        if c.position.x - c.radius < min.x {
            c.stopped_at(Point { x: min.x + c.radius, y: c.position.y })
        } else {
            c
        }
    }

    /// The particle lies wholly inside the circle about `center` with `radius`.
    pub open spec fn inside_circle(self, center: Point, radius: int) -> bool {
        &&& self.radius <= radius
        &&& self.position.dist_sq(center) <= (radius - self.radius) * (radius - self.radius)
    }

    /// Where the particle rested before its last step lies inside the circle.
    pub open spec fn was_inside_circle(self, center: Point, radius: int) -> bool {
        &&& self.radius <= radius
        &&& self.previous.dist_sq(center) <= (radius - self.radius) * (radius - self.radius)
    }

    /// Pulls the particle back into the circle about `center` with `radius`.
    ///
    /// A particle whose centre is farther from `center` than `radius` less
    /// its own radius is moved along the line through `center` onto the
    /// circle of that distance, each coordinate rounded toward `center`.
    /// Any other particle stays where it is; one at `center` is among them.
    pub open spec fn confine(self, center: Point, radius: int) -> Body {
        let offset = self.position.minus(center);
        let inner = radius - self.radius;
        if offset.norm_sq() > inner * inner {
            let dist = ceil_sqrt(offset.norm_sq());
            Body {
                position: Point {
                    x: center.x + scale(offset.x, inner, dist),
                    y: center.y + scale(offset.y, inner, dist),
                },
                ..self
            }
        } else {
            self
        }
    }
}

/// A step carries the velocity on: the displacement of the new step is that
/// of the last one plus the gathered acceleration plus gravity.
pub proof fn lemma_integrate_velocity(body: Body, gravity: Point)
    ensures
        body.integrate(gravity).velocity() == body.velocity().plus(body.acceleration).plus(
            gravity,
        ),
        body.integrate(gravity).previous == body.position,
        body.integrate(gravity).acceleration == Point::zero(),
{
}

/// A particle that fits between the walls lies between them after it was
/// pulled back into the rectangle.
pub proof fn lemma_confine_rect_inside(body: Body, min: Point, max: Point)
    requires
        0 <= body.radius,
        min.x + 2 * body.radius <= max.x,
        min.y + 2 * body.radius <= max.y,
    ensures
        min.x + body.radius <= body.confine_rect(min, max).position.x <= max.x - body.radius,
        min.y + body.radius <= body.confine_rect(min, max).position.y <= max.y - body.radius,
{
}

/// Scaling by a non-negative fraction keeps the sign and cannot lengthen
/// beyond the exact quotient.
pub proof fn lemma_scale_bounds(value: int, numer: int, denom: int)
    requires
        0 <= numer,
        0 < denom,
    ensures
        value >= 0 ==> scale(value, numer, denom) >= 0,
        value <= 0 ==> scale(value, numer, denom) <= 0,
        magnitude(scale(value, numer, denom)) * denom <= magnitude(value) * numer,
{
    let m = magnitude(value);
    let q = (m * numer) / denom;
    assert(0 <= m * numer) by (nonlinear_arith)
        requires
            0 <= m,
            0 <= numer,
    ;
    assert(0 <= q && q * denom <= m * numer) by (nonlinear_arith)
        requires
            0 <= m * numer,
            0 < denom,
            q == (m * numer) / denom,
    ;
    if value >= 0 {
        assert(scale(value, numer, denom) == q);
        if value == 0 {
            assert(m * numer == 0) by (nonlinear_arith)
                requires
                    m == 0,
            ;
        }
    } else {
        assert(scale(value, numer, denom) == -q);
    }
}

/// Scaling by a fraction of at most one cannot lengthen.
pub proof fn lemma_scale_shrinks(value: int, numer: int, denom: int)
    requires
        0 <= numer <= denom,
        0 < denom,
    ensures
        magnitude(scale(value, numer, denom)) <= magnitude(value),
{
    lemma_scale_bounds(value, numer, denom);
    let s = magnitude(scale(value, numer, denom));
    let m = magnitude(value);
    assert(s <= m) by (nonlinear_arith)
        requires
            0 <= s,
            0 <= m,
            0 <= numer <= denom,
            0 < denom,
            s * denom <= m * numer,
    ;
}

/// A coordinate of a vector is no longer than the vector.
pub proof fn lemma_coordinate_within_norm(p: Point, bound: int)
    requires
        0 <= bound,
        p.norm_sq() <= bound * bound,
    ensures
        p.within(bound),
{
    let ax = magnitude(p.x);
    let ay = magnitude(p.y);
    assert(ax * ax == p.x * p.x && ay * ay == p.y * p.y) by (nonlinear_arith)
        requires
            ax == magnitude(p.x),
            ay == magnitude(p.y),
    ;
    assert(0 <= ax * ax && 0 <= ay * ay) by (nonlinear_arith);
    if ax > bound {
        assert(bound * bound < ax * ax) by (nonlinear_arith)
            requires
                0 <= bound < ax,
        ;
    }
    if ay > bound {
        assert(bound * bound < ay * ay) by (nonlinear_arith)
            requires
                0 <= bound < ay,
        ;
    }
}

/// If one product of non-negative integers is at most another, so are the
/// products of their squares.
proof fn lemma_product_square_order(a: int, s: int, v: int, i: int)
    by (nonlinear_arith)
    requires
        0 <= a,
        0 <= s,
        a * s <= v * i,
    ensures
        (a * a) * (s * s) <= (v * v) * (i * i),
{
    assert(0 <= a * s);
    assert((a * s) * (a * s) <= (v * i) * (v * i));
    assert((a * s) * (a * s) == (a * a) * (s * s));
    assert((v * i) * (v * i) == (v * v) * (i * i));
}

/// After confinement the particle lies inside the circle.
pub proof fn lemma_confine_inside(body: Body, center: Point, radius: int)
    requires
        body.radius <= radius,
    ensures
        body.confine(center, radius).inside_circle(center, radius),
{
    let offset = body.position.minus(center);
    let inner = radius - body.radius;
    let d2 = offset.norm_sq();
    if d2 > inner * inner {
        assert(0 <= inner * inner) by (nonlinear_arith);
        lemma_ceil_sqrt_bounds(d2);
        let dist = ceil_sqrt(d2);
        lemma_scale_bounds(offset.x, inner, dist);
        lemma_scale_bounds(offset.y, inner, dist);
        let a = magnitude(scale(offset.x, inner, dist));
        let b = magnitude(scale(offset.y, inner, dist));
        let vx = magnitude(offset.x);
        let vy = magnitude(offset.y);
        assert(vx * vx + vy * vy == d2) by (nonlinear_arith)
            requires
                vx == magnitude(offset.x),
                vy == magnitude(offset.y),
                d2 == offset.x * offset.x + offset.y * offset.y,
        ;
        let a2 = a * a;
        let b2 = b * b;
        let s2 = dist * dist;
        let i2 = inner * inner;
        let x2 = vx * vx;
        let y2 = vy * vy;
        assert(a2 * s2 <= x2 * i2) by {
            lemma_product_square_order(a, dist, vx, inner);
        }
        assert(b2 * s2 <= y2 * i2) by {
            lemma_product_square_order(b, dist, vy, inner);
        }
        assert((a2 + b2) * s2 == a2 * s2 + b2 * s2) by (nonlinear_arith);
        assert((x2 + y2) * i2 == x2 * i2 + y2 * i2) by (nonlinear_arith);
        assert(d2 * i2 <= s2 * i2) by (nonlinear_arith)
            requires
                d2 <= s2,
                0 <= i2,
        ;
        assert(0 < s2) by (nonlinear_arith)
            requires
                s2 == dist * dist,
                0 < dist,
        ;
        assert(a2 + b2 <= i2) by (nonlinear_arith)
            requires
                (a2 + b2) * s2 <= s2 * i2,
                0 < s2,
        ;
        let moved = body.confine(center, radius).position.minus(center);
        assert(moved.x == scale(offset.x, inner, dist));
        assert(moved.y == scale(offset.y, inner, dist));
        assert(moved.x * moved.x == a * a && moved.y * moved.y == b * b) by (nonlinear_arith)
            requires
                a == magnitude(moved.x),
                b == magnitude(moved.y),
        ;
    }
}

/// The quotient rounded down is less than one short of the exact one.
proof fn lemma_floor_is_close(x: int, d: int)
    by (nonlinear_arith)
    requires
        0 <= x,
        0 < d,
    ensures
        x < (x / d + 1) * d,
{
}

/// Of two non-negative integers the larger has the larger square.
proof fn lemma_square_strictly_monotone(a: int, b: int)
    by (nonlinear_arith)
    requires
        0 <= a < b,
    ensures
        a * a < b * b,
{
}

/// A particle that reached beyond the circle is pulled back onto it, up to
/// rounding: the lattice point one step further from `center` than its new
/// place, in both coordinates, is farther from `center` than the inner
/// distance less one.
pub proof fn lemma_confine_reaches_circle(body: Body, center: Point, radius: int)
    requires
        body.radius < radius,
        !body.inside_circle(center, radius),
    ensures
        ({
            let moved = body.confine(center, radius).position.minus(center);
            let inner = radius - body.radius;
            (magnitude(moved.x) + 1) * (magnitude(moved.x) + 1) + (magnitude(moved.y) + 1) * (
            magnitude(moved.y) + 1) > (inner - 1) * (inner - 1)
        }),
{
    let offset = body.position.minus(center);
    let inner = radius - body.radius;
    let d2 = offset.norm_sq();
    assert(0 <= inner * inner) by (nonlinear_arith);
    lemma_ceil_sqrt_bounds(d2);
    let dist = ceil_sqrt(d2);
    lemma_square_order(inner, dist);
    lemma_scale_bounds(offset.x, inner, dist);
    lemma_scale_bounds(offset.y, inner, dist);
    let moved = body.confine(center, radius).position.minus(center);
    assert(moved.x == scale(offset.x, inner, dist));
    assert(moved.y == scale(offset.y, inner, dist));
    let vx = magnitude(offset.x);
    let vy = magnitude(offset.y);
    let x = vx * inner;
    let y = vy * inner;
    assert(0 <= x && 0 <= y) by (nonlinear_arith)
        requires
            x == vx * inner,
            y == vy * inner,
            0 <= vx,
            0 <= vy,
            0 <= inner,
    ;
    assert(magnitude(moved.x) == x / dist);
    assert(magnitude(moved.y) == y / dist);
    let a = (magnitude(moved.x) + 1) * dist;
    let b = (magnitude(moved.y) + 1) * dist;
    lemma_floor_is_close(x, dist);
    lemma_floor_is_close(y, dist);
    lemma_square_strictly_monotone(x, a);
    lemma_square_strictly_monotone(y, b);
    let x2 = vx * vx;
    let y2 = vy * vy;
    let i2 = inner * inner;
    let s2 = dist * dist;
    assert(x * x == x2 * i2) by (nonlinear_arith)
        requires
            x == vx * inner,
            x2 == vx * vx,
            i2 == inner * inner,
    ;
    assert(y * y == y2 * i2) by (nonlinear_arith)
        requires
            y == vy * inner,
            y2 == vy * vy,
            i2 == inner * inner,
    ;
    assert(x2 + y2 == d2) by (nonlinear_arith)
        requires
            x2 == magnitude(offset.x) * magnitude(offset.x),
            y2 == magnitude(offset.y) * magnitude(offset.y),
            d2 == offset.x * offset.x + offset.y * offset.y,
    ;
    assert((x2 + y2) * i2 == x2 * i2 + y2 * i2) by (nonlinear_arith);
    let low = (dist - 1) * inner;
    let goal = (inner - 1) * dist;
    assert(0 <= goal <= low) by (nonlinear_arith)
        requires
            goal == (inner - 1) * dist,
            low == (dist - 1) * inner,
            1 <= inner <= dist,
    ;
    if goal < low {
        lemma_square_strictly_monotone(goal, low);
    }
    assert(low * low == ((dist - 1) * (dist - 1)) * i2) by (nonlinear_arith)
        requires
            low == (dist - 1) * inner,
            i2 == inner * inner,
    ;
    assert(((dist - 1) * (dist - 1)) * i2 <= d2 * i2) by (nonlinear_arith)
        requires
            (dist - 1) * (dist - 1) < d2,
            0 <= i2,
    ;
    let p = magnitude(moved.x) + 1;
    let q = magnitude(moved.y) + 1;
    assert(a * a == (p * p) * s2) by (nonlinear_arith)
        requires
            a == p * dist,
            s2 == dist * dist,
    ;
    assert(b * b == (q * q) * s2) by (nonlinear_arith)
        requires
            b == q * dist,
            s2 == dist * dist,
    ;
    assert(goal * goal == ((inner - 1) * (inner - 1)) * s2) by (nonlinear_arith)
        requires
            goal == (inner - 1) * dist,
            s2 == dist * dist,
    ;
    assert((p * p + q * q) * s2 == (p * p) * s2 + (q * q) * s2) by (nonlinear_arith);
    assert(0 < s2) by (nonlinear_arith)
        requires
            s2 == dist * dist,
            0 < dist,
    ;
    assert(p * p + q * q > (inner - 1) * (inner - 1)) by (nonlinear_arith)
        requires
            (p * p + q * q) * s2 > ((inner - 1) * (inner - 1)) * s2,
            0 < s2,
    ;
}

} // verus!
