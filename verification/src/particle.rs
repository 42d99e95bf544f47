//! Particles with machine-word coordinates, and the operations on them.

use vstd::prelude::*;
use crate::body::{
    lemma_confine_inside, lemma_scale_bounds, lemma_scale_shrinks, magnitude, scale, Body, Color,
    RADIUS_LIMIT,
};
use crate::collision::{collide, lemma_overlap_distance, overlapping, push, Ratio};
use crate::sqrt::{isqrt_ceil, lemma_ceil_sqrt_bounds, lemma_square_order};
use crate::vector::{Point, Vec2};

verus! {

/// One circular particle.
#[derive(Clone, Copy, Debug)]
pub struct Particle {
    id: u64,
    position: Vec2,
    previous_position: Vec2,
    pending_acceleration: Vec2,
    radius: i64,
    color: Color,
}

impl View for Particle {
    type V = Body;

    closed spec fn view(&self) -> Body {
        Body {
            id: self.id as nat,
            position: self.position@,
            previous: self.previous_position@,
            acceleration: self.pending_acceleration@,
            radius: self.radius as int,
            color: self.color,
        }
    }
}

/// The square of a number is the square of its absolute value.
proof fn lemma_magnitude_square(v: int)
    by (nonlinear_arith)
    ensures
        magnitude(v) * magnitude(v) == v * v,
        0 <= v * v,
{
}

/// Squares of numbers below `2^63` and their sum fit into 127 bits.
proof fn lemma_wide_square(a: int)
    by (nonlinear_arith)
    requires
        0 <= a <= 0x8000_0000_0000_0000,
    ensures
        0 <= a * a <= 0x4000_0000_0000_0000_0000_0000_0000_0000,
{
}

/// The product of two bounded non-negative numbers is bounded by the product
/// of the bounds.
proof fn lemma_product_bound(a: int, b: int, amax: int, bmax: int)
    by (nonlinear_arith)
    requires
        0 <= a <= amax,
        0 <= b <= bmax,
    ensures
        0 <= a * b <= amax * bmax,
{
}

/// The absolute value of a machine word.
fn abs_wide(v: i64) -> (r: u128)
    ensures
        r == magnitude(v as int),
        r <= 0x8000_0000_0000_0000,
{
    let w: i128 = v as i128;
    if w >= 0 {
        w as u128
    } else {
        (-w) as u128
    }
}

/// `value * numer / denom`, rounded toward zero.
fn scaled(value: i64, numer: u128, denom: u128) -> (r: i128)
    requires
        0 < denom,
        magnitude(value as int) * numer <= i128::MAX,
    ensures
        r == scale(value as int, numer as int, denom as int),
{
    let m: u128 = abs_wide(value);
    let product: u128 = m * numer;
    let q: u128 = product / denom;
    assert(q <= product) by (nonlinear_arith)
        requires
            q == product / denom,
            0 < denom,
            0 <= product,
    ;
    if value >= 0 {
        q as i128
    } else {
        -(q as i128)
    }
}

impl Particle {
    /// A particle at rest at `position`, if `radius` is positive and within
    /// the limit.
    pub fn new(id: u64, position: Vec2, radius: i64, color: Color) -> (p: Option<Particle>)
        ensures
            p is Some <==> 0 < radius <= RADIUS_LIMIT,
            p matches Some(q) ==> q@ == Body::at_rest(
                id as nat,
                position@,
                radius as int,
                color,
            ),
    {
        if 0 < radius && radius <= RADIUS_LIMIT {
            Some(
                Particle {
                    id,
                    position,
                    previous_position: position,
                    pending_acceleration: Vec2::zero(),
                    radius,
                    color,
                },
            )
        } else {
            None
        }
    }

    pub fn id(&self) -> (r: u64)
        ensures
            r == self@.id,
    {
        self.id
    }

    pub fn position(&self) -> (r: Vec2)
        ensures
            r@ == self@.position,
    {
        self.position
    }

    pub fn previous_position(&self) -> (r: Vec2)
        ensures
            r@ == self@.previous,
    {
        self.previous_position
    }

    pub fn pending_acceleration(&self) -> (r: Vec2)
        ensures
            r@ == self@.acceleration,
    {
        self.pending_acceleration
    }

    pub fn radius(&self) -> (r: i64)
        ensures
            r == self@.radius,
    {
        self.radius
    }

    pub fn color(&self) -> (r: Color)
        ensures
            r == self@.color,
    {
        self.color
    }

    /// Adds `v` to the acceleration gathered for the next step.
    pub fn accelerate(&mut self, v: Vec2)
        requires
            old(self)@.acceleration.plus(v@).fits(),
        ensures
            final(self)@ == old(self)@.accelerate(v@),
    {
        self.pending_acceleration = Vec2 {
            x: self.pending_acceleration.x + v.x,
            y: self.pending_acceleration.y + v.y,
        };
    }

    /// Adds the pull of `gravity` to the acceleration gathered for the next
    /// step.
    pub fn apply_gravity(&mut self, gravity: Vec2)
        requires
            old(self)@.acceleration.plus(gravity@).fits(),
        ensures
            final(self)@ == old(self)@.accelerate(gravity@),
    {
        self.accelerate(gravity);
    }

    /// Advances the particle by one Verlet step under `gravity`.
    ///
    /// The displacement of the new step is that of the last one plus the
    /// gathered acceleration plus `gravity`.
    pub fn integrate(&mut self, gravity: Vec2)
        requires
            old(self)@.integrate(gravity@).position.fits(),
        ensures
            final(self)@ == old(self)@.integrate(gravity@),
            final(self)@.velocity() == old(self)@.velocity().plus(old(self)@.acceleration).plus(
                gravity@,
            ),
    {
        let px: i128 = self.position.x as i128;
        let py: i128 = self.position.y as i128;
        let ax: i128 = self.pending_acceleration.x as i128 + gravity.x as i128;
        let ay: i128 = self.pending_acceleration.y as i128 + gravity.y as i128;
        let nx: i128 = px + (px - self.previous_position.x as i128) + ax;
        let ny: i128 = py + (py - self.previous_position.y as i128) + ay;
        self.previous_position = self.position;
        self.position = Vec2 { x: nx as i64, y: ny as i64 };
        self.pending_acceleration = Vec2::zero();
    }

    /// Pulls the particle back into the circle about `center` with `radius`,
    /// if it reaches beyond it.
    pub fn confine_to_circle(&mut self, center: Vec2, radius: i64)
        requires
            old(self)@.valid(),
            old(self)@.radius <= radius,
            old(self)@.position.minus(center@).fits(),
        ensures
            final(self)@ == old(self)@.confine(center@, radius as int),
            final(self)@.inside_circle(center@, radius as int),
    {
        proof {
            lemma_confine_inside(self@, center@, radius as int);
        }
        let vx: i64 = self.position.x - center.x;
        let vy: i64 = self.position.y - center.y;
        let inner: u128 = (radius - self.radius) as u128;
        let ax: u128 = abs_wide(vx);
        let ay: u128 = abs_wide(vy);
        proof {
            lemma_wide_square(ax as int);
            lemma_wide_square(ay as int);
            lemma_wide_square(inner as int);
            lemma_magnitude_square(vx as int);
            lemma_magnitude_square(vy as int);
        }
        let d2: u128 = ax * ax + ay * ay;
        assert(d2 == self@.position.minus(center@).norm_sq());
        if d2 > inner * inner {
            let dist: u128 = isqrt_ceil(d2);
            proof {
                lemma_ceil_sqrt_bounds(d2 as int);
                lemma_square_order(inner as int, dist as int);
                lemma_product_bound(
                    ax as int,
                    inner as int,
                    0x8000_0000_0000_0000,
                    0x8000_0000_0000_0000,
                );
                lemma_product_bound(
                    ay as int,
                    inner as int,
                    0x8000_0000_0000_0000,
                    0x8000_0000_0000_0000,
                );
                lemma_scale_bounds(vx as int, inner as int, dist as int);
                lemma_scale_bounds(vy as int, inner as int, dist as int);
                lemma_scale_shrinks(vx as int, inner as int, dist as int);
                lemma_scale_shrinks(vy as int, inner as int, dist as int);
            }
            let sx: i128 = scaled(vx, inner, dist);
            let sy: i128 = scaled(vy, inner, dist);
            self.position = Vec2 {
                x: (center.x as i128 + sx) as i64,
                y: (center.y as i128 + sy) as i64,
            };
        }
    }

    /// Pulls the particle back into the rectangle between the corners `min`
    /// and `max`, wall by wall.
    pub fn confine_to_rect(&mut self, min: Vec2, max: Vec2)
        requires
            old(self)@.valid(),
            min@.plus(Point { x: old(self)@.radius, y: old(self)@.radius }).fits(),
            max@.minus(Point { x: old(self)@.radius, y: old(self)@.radius }).fits(),
        ensures
            final(self)@ == old(self)@.confine_rect(min@, max@),
    {
        let r: i64 = self.radius;
        if self.position.y as i128 + r as i128 > max.y as i128 {
            self.previous_position = self.position;
            self.position = Vec2 { x: self.position.x, y: max.y - r };
        }
        if (self.position.y as i128 - r as i128) < min.y as i128 {
            self.previous_position = self.position;
            self.position = Vec2 { x: self.position.x, y: min.y + r };
        }
        if self.position.x as i128 + r as i128 > max.x as i128 {
            self.previous_position = self.position;
            self.position = Vec2 { x: max.x - r, y: self.position.y };
        }
        if (self.position.x as i128 - r as i128) < min.x as i128 {
            self.previous_position = self.position;
            self.position = Vec2 { x: min.x + r, y: self.position.y };
        }
    }
}

/// Moves `a` and `b` apart if they overlap.
///
/// Nothing happens to a pair that does not overlap, nor to one whose centres
/// coincide, for which no direction is defined.
pub fn resolve_collision(a: &mut Particle, b: &mut Particle, response: Ratio)
    requires
        old(a)@.valid(),
        old(b)@.valid(),
        response.valid(),
        collide(old(a)@, old(b)@, response).0.position.fits(),
        collide(old(a)@, old(b)@, response).1.position.fits(),
    ensures
        final(a)@ == collide(old(a)@, old(b)@, response).0,
        final(b)@ == collide(old(a)@, old(b)@, response).1,
{
    let reach: u128 = (a.radius + b.radius) as u128;
    let dx: i128 = a.position.x as i128 - b.position.x as i128;
    let dy: i128 = a.position.y as i128 - b.position.y as i128;
    let ghost d = a@.position.minus(b@.position);
    proof {
        lemma_magnitude_square(dx as int);
        lemma_magnitude_square(dy as int);
    }
    if dx >= reach as i128 || -dx >= reach as i128 || dy >= reach as i128 || -dy >= reach as i128 {
        proof {
            if magnitude(dx as int) >= reach {
                lemma_product_bound(
                    reach as int,
                    reach as int,
                    magnitude(dx as int),
                    magnitude(dx as int),
                );
            } else {
                lemma_product_bound(
                    reach as int,
                    reach as int,
                    magnitude(dy as int),
                    magnitude(dy as int),
                );
            }
            assert(!overlapping(a@, b@));
        }
        return ;
    }
    let ox: i64 = dx as i64;
    let oy: i64 = dy as i64;
    let ax: u128 = abs_wide(ox);
    let ay: u128 = abs_wide(oy);
    proof {
        lemma_product_bound(ax as int, ax as int, reach as int, reach as int);
        lemma_product_bound(ay as int, ay as int, reach as int, reach as int);
        lemma_product_bound(reach as int, reach as int, 0x8000_0000, 0x8000_0000);
    }
    let d2: u128 = ax * ax + ay * ay;
    assert(d2 == a@.position.dist_sq(b@.position));
    if d2 == 0 || d2 >= reach * reach {
        assert(!overlapping(a@, b@));
        return ;
    }
    assert(overlapping(a@, b@));
    let dist: u128 = isqrt_ceil(d2);
    proof {
        lemma_overlap_distance(a@, b@);
    }
    let overlap: u128 = reach - dist;
    let numer: u128 = response.numer as u128;
    let denom: u128 = response.denom as u128;
    proof {
        lemma_product_bound(numer as int, overlap as int, 0x1_0000_0000, 0x8000_0000);
        lemma_product_bound(dist as int, reach as int, 0x8000_0000, 0x8000_0000);
    }
    let relief: u128 = numer * overlap;
    let span: u128 = dist * reach;
    assert(0 < span) by (nonlinear_arith)
        requires
            span == dist * reach,
            0 < dist,
            0 < reach,
    ;
    proof {
        lemma_product_bound(span as int, 2 * denom as int, 0x4000_0000_0000_0000, 0x2_0000_0000);
        lemma_product_bound(
            b.radius as int,
            relief as int,
            0x4000_0000,
            0x8000_0000_0000_0000,
        );
        lemma_product_bound(
            a.radius as int,
            relief as int,
            0x4000_0000,
            0x8000_0000_0000_0000,
        );
    }
    let whole: u128 = span * (2 * denom);
    assert(0 < whole) by (nonlinear_arith)
        requires
            whole == span * (2 * denom),
            0 < span,
            0 < denom,
    ;
    let share_a: u128 = b.radius as u128 * relief;
    let share_b: u128 = a.radius as u128 * relief;
    proof {
        lemma_product_bound(
            ax as int,
            share_a as int,
            0x8000_0000,
            0x2000_0000_0000_0000_0000_0000,
        );
        lemma_product_bound(
            ay as int,
            share_a as int,
            0x8000_0000,
            0x2000_0000_0000_0000_0000_0000,
        );
        lemma_product_bound(
            ax as int,
            share_b as int,
            0x8000_0000,
            0x2000_0000_0000_0000_0000_0000,
        );
        lemma_product_bound(
            ay as int,
            share_b as int,
            0x8000_0000,
            0x2000_0000_0000_0000_0000_0000,
        );
    }
    let pax: i128 = scaled(ox, share_a, whole);
    let pay: i128 = scaled(oy, share_a, whole);
    let pbx: i128 = scaled(ox, share_b, whole);
    let pby: i128 = scaled(oy, share_b, whole);
    assert(pax == push(d.x, b@.radius, reach as int, dist as int, response));
    assert(pay == push(d.y, b@.radius, reach as int, dist as int, response));
    assert(pbx == push(d.x, a@.radius, reach as int, dist as int, response));
    assert(pby == push(d.y, a@.radius, reach as int, dist as int, response));
    proof {
        lemma_scale_bounds(ox as int, share_a as int, whole as int);
        lemma_scale_bounds(oy as int, share_a as int, whole as int);
        lemma_scale_bounds(ox as int, share_b as int, whole as int);
        lemma_scale_bounds(oy as int, share_b as int, whole as int);
    }
    a.position = Vec2 {
        x: (a.position.x as i128 + pax) as i64,
        y: (a.position.y as i128 + pay) as i64,
    };
    b.position = Vec2 {
        x: (b.position.x as i128 - pbx) as i64,
        y: (b.position.y as i128 - pby) as i64,
    };
}

} // verus!
