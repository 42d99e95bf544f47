//! The model of the pairwise overlap correction.

use vstd::prelude::*;
use crate::body::{
    lemma_coordinate_within_norm, lemma_scale_bounds, magnitude, scale, Body,
};
use crate::sqrt::{ceil_sqrt, lemma_ceil_sqrt_bounds, lemma_square_order};
use crate::vector::Point;

verus! {

/// A fraction in `(0, 1]`: how much of an overlap one correction removes.
#[derive(Clone, Copy, Debug, PartialEq, Eq, Structural)]
pub struct Ratio {
    pub numer: u32,
    pub denom: u32,
}

impl Ratio {
    /// The fraction is positive and at most one.
    pub open spec fn valid(self) -> bool {
        0 < self.numer <= self.denom
    }

    /// The fraction `numer / denom`, if it lies in `(0, 1]`.
    pub fn new(numer: u32, denom: u32) -> (r: Option<Ratio>)
        ensures
            r is Some <==> 0 < numer <= denom,
            r matches Some(ratio) ==> ratio.numer == numer && ratio.denom == denom,
    {
        if 0 < numer && numer <= denom {
            Some(Ratio { numer, denom })
        } else {
            None
        }
    }
}

/// Two particles overlap when their centres are distinct and closer than the
/// sum of their radii.
pub open spec fn overlapping(a: Body, b: Body) -> bool {
    let d2 = a.position.dist_sq(b.position);
    let reach = a.radius + b.radius;
    0 < d2 < reach * reach
}

/// One coordinate of the correction of one particle.
///
/// `offset` is that coordinate of the line between the centres, `dist` the
/// length of the line, `reach` the sum of the radii and `weight` the radius
/// of the other particle. The result is half the overlap `reach - dist`,
/// times `response`, times the share `weight / reach`, taken along the unit
/// vector `offset / dist`, in one division rounded toward zero.
pub open spec fn push(offset: int, weight: int, reach: int, dist: int, response: Ratio) -> int {
    scale(offset, weight * (response.numer * (reach - dist)), dist * reach * (2 * response.denom))
}

/// Moves two overlapping particles apart along the line between their
/// centres, the larger one less; leaves any other pair as it is.
///
/// The distance between the centres is rounded up to a whole number before
/// it is used, so a correction never exceeds the exact one.
pub open spec fn collide(a: Body, b: Body, response: Ratio) -> (Body, Body) {
    if overlapping(a, b) {
        let d = a.position.minus(b.position);
        let reach = a.radius + b.radius;
        let dist = ceil_sqrt(d.norm_sq());
        (
            Body {
                position: Point {
                    x: a.position.x + push(d.x, b.radius, reach, dist, response),
                    y: a.position.y + push(d.y, b.radius, reach, dist, response),
                },
                ..a
            },
            Body {
                position: Point {
                    x: b.position.x - push(d.x, a.radius, reach, dist, response),
                    y: b.position.y - push(d.y, a.radius, reach, dist, response),
                },
                ..b
            },
        )
    } else {
        (a, b)
    }
}

/// The rounded-up distance of an overlapping pair is positive, at most the
/// sum of the radii, and at least each coordinate of the line between the
/// centres.
pub proof fn lemma_overlap_distance(a: Body, b: Body)
    requires
        a.valid(),
        b.valid(),
        overlapping(a, b),
    ensures
        0 < ceil_sqrt(a.position.dist_sq(b.position)) <= a.radius + b.radius,
        a.position.minus(b.position).within(ceil_sqrt(a.position.dist_sq(b.position))),
{
    let d = a.position.minus(b.position);
    let d2 = d.norm_sq();
    let reach = a.radius + b.radius;
    let dist = ceil_sqrt(d2);
    lemma_ceil_sqrt_bounds(d2);
    lemma_square_order(dist - 1, reach);
    lemma_coordinate_within_norm(d, dist);
}

/// A correction points the way of `offset` and is at most half the overlap.
pub proof fn lemma_push_bound(offset: int, weight: int, reach: int, dist: int, response: Ratio)
    requires
        magnitude(offset) <= dist,
        0 < weight <= reach,
        0 < dist <= reach,
        response.valid(),
    ensures
        offset >= 0 ==> push(offset, weight, reach, dist, response) >= 0,
        offset <= 0 ==> push(offset, weight, reach, dist, response) <= 0,
        2 * magnitude(push(offset, weight, reach, dist, response)) <= reach - dist,
{
    let o = reach - dist;
    let numer = weight * (response.numer * o);
    let denom = dist * reach * (2 * response.denom);
    let k = dist * reach * response.denom;
    let m = magnitude(offset);
    let p = magnitude(push(offset, weight, reach, dist, response));
    assert(0 <= numer) by (nonlinear_arith)
        requires
            numer == weight * (response.numer * o),
            0 < weight,
            0 <= o,
            0 < response.numer,
    ;
    assert(0 < k) by (nonlinear_arith)
        requires
            k == dist * reach * response.denom,
            0 < dist,
            0 < reach,
            0 < response.denom,
    ;
    assert(denom == 2 * k) by (nonlinear_arith)
        requires
            denom == dist * reach * (2 * response.denom),
            k == dist * reach * response.denom,
    ;
    lemma_scale_bounds(offset, numer, denom);
    assert(m * weight <= dist * reach) by (nonlinear_arith)
        requires
            0 <= m <= dist,
            0 < weight <= reach,
    ;
    assert(response.numer * o <= response.denom * o) by (nonlinear_arith)
        requires
            0 <= o,
            response.numer <= response.denom,
    ;
    assert(m * numer <= k * o) by (nonlinear_arith)
        requires
            numer == weight * (response.numer * o),
            k == dist * reach * response.denom,
            0 <= m * weight <= dist * reach,
            0 <= response.numer * o <= response.denom * o,
            0 <= m,
            0 < weight,
    ;
    assert(2 * p <= o) by (nonlinear_arith)
        requires
            p * (2 * k) <= k * o,
            0 < k,
    ;
}

/// A correction moves neither particle by more than half the sum of the
/// radii in either coordinate, and changes nothing but the two positions.
pub proof fn lemma_collide_displacement(a: Body, b: Body, response: Ratio)
    requires
        a.valid(),
        b.valid(),
        response.valid(),
    ensures
        2 * magnitude(collide(a, b, response).0.position.x - a.position.x) <= a.radius + b.radius,
        2 * magnitude(collide(a, b, response).0.position.y - a.position.y) <= a.radius + b.radius,
        2 * magnitude(collide(a, b, response).1.position.x - b.position.x) <= a.radius + b.radius,
        2 * magnitude(collide(a, b, response).1.position.y - b.position.y) <= a.radius + b.radius,
        collide(a, b, response).0 == (Body { position: collide(a, b, response).0.position, ..a }),
        collide(a, b, response).1 == (Body { position: collide(a, b, response).1.position, ..b }),
{
    if overlapping(a, b) {
        let d = a.position.minus(b.position);
        let reach = a.radius + b.radius;
        let dist = ceil_sqrt(d.norm_sq());
        lemma_overlap_distance(a, b);
        lemma_push_bound(d.x, b.radius, reach, dist, response);
        lemma_push_bound(d.y, b.radius, reach, dist, response);
        lemma_push_bound(d.x, a.radius, reach, dist, response);
        lemma_push_bound(d.y, a.radius, reach, dist, response);
    }
}

/// A correction never brings the two centres closer together.
pub proof fn lemma_collide_keeps_apart(a: Body, b: Body, response: Ratio)
    requires
        a.valid(),
        b.valid(),
        response.valid(),
    ensures
        collide(a, b, response).0.position.dist_sq(collide(a, b, response).1.position)
            >= a.position.dist_sq(b.position),
{
    if overlapping(a, b) {
        let d = a.position.minus(b.position);
        let reach = a.radius + b.radius;
        let dist = ceil_sqrt(d.norm_sq());
        lemma_overlap_distance(a, b);
        lemma_push_bound(d.x, b.radius, reach, dist, response);
        lemma_push_bound(d.y, b.radius, reach, dist, response);
        lemma_push_bound(d.x, a.radius, reach, dist, response);
        lemma_push_bound(d.y, a.radius, reach, dist, response);
        let after = collide(a, b, response).0.position.minus(collide(a, b, response).1.position);
        lemma_stretch_square(d.x, after.x);
        lemma_stretch_square(d.y, after.y);
    }
}

/// The corrections of the two particles of a pair, taken together, stretch
/// a coordinate of the line between the centres by no more than the share
/// `overlap / (2 * dist)` of it.
proof fn lemma_push_sum(offset: int, ra: int, rb: int, dist: int, response: Ratio)
    requires
        magnitude(offset) <= dist,
        0 < ra,
        0 < rb,
        0 < dist <= ra + rb,
        response.valid(),
    ensures
        (magnitude(push(offset, rb, ra + rb, dist, response)) + magnitude(
            push(offset, ra, ra + rb, dist, response),
        )) * (2 * dist) <= magnitude(offset) * (ra + rb - dist),
{
    let reach = ra + rb;
    let o = reach - dist;
    let c = response.numer * o;
    let denom = dist * reach * (2 * response.denom);
    let m = magnitude(offset);
    let pa = magnitude(push(offset, rb, reach, dist, response));
    let pb = magnitude(push(offset, ra, reach, dist, response));
    let k = reach * response.denom;
    assert(0 <= c <= response.denom * o) by (nonlinear_arith)
        requires
            c == response.numer * o,
            0 <= o,
            0 < response.numer <= response.denom,
    ;
    assert(0 <= rb * c && 0 <= ra * c) by (nonlinear_arith)
        requires
            0 <= c,
            0 < ra,
            0 < rb,
    ;
    assert(0 < k) by (nonlinear_arith)
        requires
            k == reach * response.denom,
            0 < reach,
            0 < response.denom,
    ;
    assert(denom == (2 * dist) * k && 0 < denom) by (nonlinear_arith)
        requires
            denom == dist * reach * (2 * response.denom),
            k == reach * response.denom,
            0 < dist,
            0 < k,
    ;
    lemma_scale_bounds(offset, rb * c, denom);
    lemma_scale_bounds(offset, ra * c, denom);
    assert((pa + pb) * denom <= m * (reach * c)) by (nonlinear_arith)
        requires
            pa * denom <= m * (rb * c),
            pb * denom <= m * (ra * c),
            reach == ra + rb,
    ;
    assert(m * (reach * c) <= (m * o) * k) by (nonlinear_arith)
        requires
            0 <= m,
            0 < reach,
            0 <= c <= response.denom * o,
            k == reach * response.denom,
    ;
    assert((pa + pb) * denom == ((pa + pb) * (2 * dist)) * k) by (nonlinear_arith)
        requires
            denom == (2 * dist) * k,
    ;
    assert((pa + pb) * (2 * dist) <= m * o) by (nonlinear_arith)
        requires
            ((pa + pb) * (2 * dist)) * k <= (m * o) * k,
            0 < k,
    ;
}

/// If `2 * s * n <= v * t` for non-negative numbers, the same holds of the
/// squares.
proof fn lemma_stretch_bound_square(n: int, s: int, v: int, t: int)
    by (nonlinear_arith)
    requires
        0 <= n,
        0 <= s,
        n * (2 * s) <= v * t,
    ensures
        (4 * (s * s)) * (n * n) <= (v * v) * (t * t),
{
    assert(0 <= n * (2 * s));
    assert((n * (2 * s)) * (n * (2 * s)) <= (v * t) * (v * t));
    assert((n * (2 * s)) * (n * (2 * s)) == (4 * (s * s)) * (n * n));
    assert((v * t) * (v * t) == (v * v) * (t * t));
}

/// A correction never drives the centres of an overlapping pair farther
/// apart than the sum of the radii.
pub proof fn lemma_collide_keeps_touch(a: Body, b: Body, response: Ratio)
    requires
        a.valid(),
        b.valid(),
        response.valid(),
        overlapping(a, b),
    ensures
        collide(a, b, response).0.position.dist_sq(collide(a, b, response).1.position) <= (a.radius
            + b.radius) * (a.radius + b.radius),
{
    let d = a.position.minus(b.position);
    let reach = a.radius + b.radius;
    let d2 = d.norm_sq();
    let dist = ceil_sqrt(d2);
    lemma_overlap_distance(a, b);
    lemma_ceil_sqrt_bounds(d2);
    lemma_push_bound(d.x, b.radius, reach, dist, response);
    lemma_push_bound(d.y, b.radius, reach, dist, response);
    lemma_push_bound(d.x, a.radius, reach, dist, response);
    lemma_push_bound(d.y, a.radius, reach, dist, response);
    lemma_push_sum(d.x, a.radius, b.radius, dist, response);
    lemma_push_sum(d.y, a.radius, b.radius, dist, response);
    let after = collide(a, b, response).0.position.minus(collide(a, b, response).1.position);
    let nx = magnitude(after.x);
    let ny = magnitude(after.y);
    let vx = magnitude(d.x);
    let vy = magnitude(d.y);
    let t = dist + reach;
    assert(nx == vx + magnitude(push(d.x, b.radius, reach, dist, response)) + magnitude(
        push(d.x, a.radius, reach, dist, response),
    ));
    assert(ny == vy + magnitude(push(d.y, b.radius, reach, dist, response)) + magnitude(
        push(d.y, a.radius, reach, dist, response),
    ));
    assert(nx * (2 * dist) <= vx * t) by (nonlinear_arith)
        requires
            (nx - vx) * (2 * dist) <= vx * (reach - dist),
            t == dist + reach,
    ;
    assert(ny * (2 * dist) <= vy * t) by (nonlinear_arith)
        requires
            (ny - vy) * (2 * dist) <= vy * (reach - dist),
            t == dist + reach,
    ;
    lemma_stretch_bound_square(nx, dist, vx, t);
    lemma_stretch_bound_square(ny, dist, vy, t);
    let s2 = dist * dist;
    let t2 = t * t;
    let n2 = nx * nx + ny * ny;
    assert(vx * vx + vy * vy == d2) by (nonlinear_arith)
        requires
            vx == magnitude(d.x),
            vy == magnitude(d.y),
            d2 == d.x * d.x + d.y * d.y,
    ;
    assert(nx * nx + ny * ny == after.norm_sq()) by (nonlinear_arith)
        requires
            nx == magnitude(after.x),
            ny == magnitude(after.y),
            after.norm_sq() == after.x * after.x + after.y * after.y,
    ;
    assert(0 <= t2) by (nonlinear_arith)
        requires
            t2 == t * t,
    ;
    assert((4 * s2) * n2 <= d2 * t2) by (nonlinear_arith)
        requires
            (4 * s2) * (nx * nx) <= (vx * vx) * t2,
            (4 * s2) * (ny * ny) <= (vy * vy) * t2,
            n2 == nx * nx + ny * ny,
            d2 == vx * vx + vy * vy,
    ;
    assert(d2 * t2 <= s2 * t2) by (nonlinear_arith)
        requires
            d2 <= s2,
            0 <= t2,
    ;
    assert(0 < s2) by (nonlinear_arith)
        requires
            s2 == dist * dist,
            0 < dist,
    ;
    assert(4 * n2 <= t2) by (nonlinear_arith)
        requires
            (4 * s2) * n2 <= s2 * t2,
            0 < s2,
    ;
    assert(t2 <= 4 * (reach * reach)) by (nonlinear_arith)
        requires
            t2 == t * t,
            0 <= t <= 2 * reach,
    ;
}

/// A number moved away from zero has no smaller a square.
proof fn lemma_stretch_square(before: int, after: int)
    by (nonlinear_arith)
    requires
        before >= 0 ==> after >= before,
        before <= 0 ==> after <= before,
    ensures
        after * after >= before * before,
{
}

} // verus!
