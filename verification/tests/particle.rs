use verlet_particles::body::{Color, RADIUS_LIMIT};
use verlet_particles::collision::Ratio;
use verlet_particles::particle::{resolve_collision, Particle};
use verlet_particles::vector::Vec2;

const GREY: Color = Color { r: 128, g: 128, b: 128 };

fn particle(id: u64, x: i64, y: i64, radius: i64) -> Particle {
    Particle::new(id, Vec2::new(x, y), radius, GREY).unwrap()
}

fn full() -> Ratio {
    Ratio::new(1, 1).unwrap()
}

#[test]
fn new_particle_is_at_rest() {
    let p = particle(7, 3, -4, 10);
    assert_eq!(p.id(), 7);
    assert_eq!(p.position(), Vec2::new(3, -4));
    assert_eq!(p.previous_position(), Vec2::new(3, -4));
    assert_eq!(p.pending_acceleration(), Vec2::zero());
    assert_eq!(p.radius(), 10);
    assert_eq!(p.color(), GREY);
}

#[test]
fn new_particle_needs_a_radius_within_the_limit() {
    assert!(Particle::new(1, Vec2::zero(), 0, GREY).is_none());
    assert!(Particle::new(1, Vec2::zero(), -5, GREY).is_none());
    assert!(Particle::new(1, Vec2::zero(), RADIUS_LIMIT + 1, GREY).is_none());
    assert!(Particle::new(1, Vec2::zero(), RADIUS_LIMIT, GREY).is_some());
    assert!(Particle::new(1, Vec2::zero(), 1, GREY).is_some());
}

#[test]
fn particles_are_equal_when_their_ids_are() {
    let a = particle(1, 0, 0, 10);
    let b = particle(1, 50, 60, 20);
    let c = particle(2, 0, 0, 10);
    assert!(a == b);
    assert!(a != c);
}

#[test]
fn accelerate_accumulates() {
    let mut p = particle(1, 0, 0, 10);
    p.accelerate(Vec2::new(1, 2));
    p.accelerate(Vec2::new(10, -20));
    assert_eq!(p.pending_acceleration(), Vec2::new(11, -18));
    assert_eq!(p.position(), Vec2::zero());
}

#[test]
fn apply_gravity_accelerates_by_gravity() {
    let mut p = particle(1, 0, 0, 10);
    p.apply_gravity(Vec2::new(0, 102));
    p.apply_gravity(Vec2::new(0, 102));
    assert_eq!(p.pending_acceleration(), Vec2::new(0, 204));
}

#[test]
fn integrate_moves_by_velocity_acceleration_and_gravity() {
    let mut p = particle(1, 7, 18, 10);
    p.integrate(Vec2::new(3, 2));
    assert_eq!(p.position(), Vec2::new(10, 20));
    assert_eq!(p.previous_position(), Vec2::new(7, 18));
    p.accelerate(Vec2::new(1, 0));
    p.integrate(Vec2::new(0, 1));
    assert_eq!(p.position(), Vec2::new(14, 23));
    assert_eq!(p.previous_position(), Vec2::new(10, 20));
    assert_eq!(p.pending_acceleration(), Vec2::zero());
}

#[test]
fn integrate_carries_the_velocity_on() {
    let gravity = Vec2::new(-2, 5);
    let mut p = particle(1, 100, 100, 10);
    p.integrate(Vec2::new(4, -7));
    for _ in 0..20 {
        let before = p;
        p.integrate(gravity);
        let old_vx = before.position().x - before.previous_position().x;
        let old_vy = before.position().y - before.previous_position().y;
        assert_eq!(p.position().x - p.previous_position().x, old_vx + gravity.x);
        assert_eq!(p.position().y - p.previous_position().y, old_vy + gravity.y);
        assert_eq!(p.previous_position(), before.position());
    }
}

#[test]
fn integrate_at_rest_without_gravity_stays() {
    let mut p = particle(1, 5, 6, 10);
    p.integrate(Vec2::zero());
    assert_eq!(p.position(), Vec2::new(5, 6));
    assert_eq!(p.previous_position(), Vec2::new(5, 6));
}

#[test]
fn confine_clamps_onto_the_inner_circle() {
    let mut p = particle(1, 95, 0, 10);
    p.confine_to_circle(Vec2::new(0, 0), 100);
    assert_eq!(p.position(), Vec2::new(90, 0));
    assert_eq!(p.previous_position(), Vec2::new(95, 0));
}

#[test]
fn confine_clamps_on_a_finer_lattice() {
    let unit = 1024;
    let mut p = particle(1, 95 * unit, 0, 10 * unit);
    p.confine_to_circle(Vec2::new(0, 0), 100 * unit);
    assert_eq!(p.position(), Vec2::new(90 * unit, 0));
}

#[test]
fn confine_clamps_along_the_line_through_the_center() {
    let mut p = particle(1, 300, 400, 10);
    p.confine_to_circle(Vec2::new(0, 0), 260);
    assert_eq!(p.position(), Vec2::new(150, 200));

    let mut q = particle(2, -300, -400, 10);
    q.confine_to_circle(Vec2::new(0, 0), 260);
    assert_eq!(q.position(), Vec2::new(-150, -200));

    let mut s = particle(3, 195, 100, 10);
    s.confine_to_circle(Vec2::new(100, 100), 100);
    assert_eq!(s.position(), Vec2::new(190, 100));
}

#[test]
fn confine_rounds_toward_the_center() {
    let mut p = particle(1, 7, 9, 1);
    p.confine_to_circle(Vec2::new(0, 0), 6);
    assert_eq!(p.position(), Vec2::new(2, 3));

    let mut q = particle(2, -7, 9, 1);
    q.confine_to_circle(Vec2::new(0, 0), 6);
    assert_eq!(q.position(), Vec2::new(-2, 3));
}

#[test]
fn confine_leaves_a_particle_inside_alone() {
    let mut p = particle(1, 30, 40, 10);
    p.confine_to_circle(Vec2::new(0, 0), 100);
    assert_eq!(p.position(), Vec2::new(30, 40));

    let mut on_the_circle = particle(2, 90, 0, 10);
    on_the_circle.confine_to_circle(Vec2::new(0, 0), 100);
    assert_eq!(on_the_circle.position(), Vec2::new(90, 0));
}

#[test]
fn confine_leaves_a_particle_at_the_center_alone() {
    let mut p = particle(1, 50, 50, 10);
    p.confine_to_circle(Vec2::new(50, 50), 100);
    assert_eq!(p.position(), Vec2::new(50, 50));

    let mut tight = particle(2, 50, 50, 10);
    tight.confine_to_circle(Vec2::new(50, 50), 10);
    assert_eq!(tight.position(), Vec2::new(50, 50));
}

#[test]
fn confine_with_no_room_moves_to_the_center() {
    let mut p = particle(1, 53, 46, 10);
    p.confine_to_circle(Vec2::new(50, 50), 10);
    assert_eq!(p.position(), Vec2::new(50, 50));
}

#[test]
fn confined_particle_is_within_the_inner_circle() {
    let center = Vec2::new(-17, 23);
    let radius = 1000;
    let mut id = 0;
    for x in [-5000i64, -1234, -999, -1, 0, 1, 700, 977, 4321] {
        for y in [-4000i64, -983, -2, 0, 3, 650, 990, 12345] {
            for r in [1i64, 10, 333, 1000] {
                id += 1;
                let mut p = particle(id, x, y, r);
                p.confine_to_circle(center, radius);
                let dx = (p.position().x - center.x) as i128;
                let dy = (p.position().y - center.y) as i128;
                let inner = (radius - r) as i128;
                assert!(dx * dx + dy * dy <= inner * inner);
            }
        }
    }
}

#[test]
fn confine_takes_coordinates_far_apart() {
    let mut p = particle(1, i64::MAX, 0, 10);
    p.confine_to_circle(Vec2::new(0, 0), 110);
    assert_eq!(p.position(), Vec2::new(100, 0));

    let mut q = particle(2, i64::MIN + 5, 5, 10);
    q.confine_to_circle(Vec2::new(5, 5), 110);
    assert_eq!(q.position(), Vec2::new(-95, 5));
}

#[test]
fn rect_confinement_stops_at_each_wall() {
    let min = Vec2::new(0, 0);
    let max = Vec2::new(100, 50);

    let mut down = particle(1, 40, 45, 10);
    down.confine_to_rect(min, max);
    assert_eq!(down.position(), Vec2::new(40, 40));
    assert_eq!(down.previous_position(), Vec2::new(40, 45));

    let mut up = particle(2, 40, 3, 10);
    up.confine_to_rect(min, max);
    assert_eq!(up.position(), Vec2::new(40, 10));
    assert_eq!(up.previous_position(), Vec2::new(40, 3));

    let mut right = particle(3, 95, 25, 10);
    right.confine_to_rect(min, max);
    assert_eq!(right.position(), Vec2::new(90, 25));
    assert_eq!(right.previous_position(), Vec2::new(95, 25));

    let mut left = particle(4, -20, 25, 10);
    left.confine_to_rect(min, max);
    assert_eq!(left.position(), Vec2::new(10, 25));
    assert_eq!(left.previous_position(), Vec2::new(-20, 25));
}

#[test]
fn rect_confinement_in_a_corner_rests_at_the_first_stop() {
    let mut p = particle(1, 120, 70, 10);
    p.confine_to_rect(Vec2::new(0, 0), Vec2::new(100, 50));
    assert_eq!(p.position(), Vec2::new(90, 40));
    assert_eq!(p.previous_position(), Vec2::new(120, 40));
}

#[test]
fn rect_confinement_leaves_a_particle_inside_alone() {
    let mut p = particle(1, 7, 18, 5);
    p.integrate(Vec2::new(3, 2));
    p.confine_to_rect(Vec2::new(0, 0), Vec2::new(100, 50));
    assert_eq!(p.position(), Vec2::new(10, 20));
    assert_eq!(p.previous_position(), Vec2::new(7, 18));
}

#[test]
fn collision_of_equal_particles_splits_the_correction_evenly() {
    // Radius 10 and centres 5 apart, on a lattice of 16 to the unit. Half
    // the overlap of 15, times 3/4, is 5.625; each particle takes half of
    // that, 2.8125, which is 45 lattice units.
    let unit = 16;
    let mut a = particle(1, 5 * unit, 0, 10 * unit);
    let mut b = particle(2, 0, 0, 10 * unit);
    resolve_collision(&mut a, &mut b, Ratio::new(3, 4).unwrap());
    assert_eq!(a.position(), Vec2::new(5 * unit + 45, 0));
    assert_eq!(b.position(), Vec2::new(-45, 0));
    assert_eq!((a.position().x - b.position().x) - 5 * unit, 90);
    assert_eq!(a.previous_position(), Vec2::new(5 * unit, 0));
    assert_eq!(b.previous_position(), Vec2::new(0, 0));
}

#[test]
fn collision_moves_the_larger_particle_less() {
    let mut a = particle(1, 12, 0, 10);
    let mut b = particle(2, 0, 0, 30);
    resolve_collision(&mut a, &mut b, full());
    assert_eq!(a.position(), Vec2::new(22, 0));
    assert_eq!(b.position(), Vec2::new(-3, 0));
}

#[test]
fn collision_corrects_along_the_line_between_the_centers() {
    let mut a = particle(1, 3, 4, 5);
    let mut b = particle(2, 0, 0, 5);
    resolve_collision(&mut a, &mut b, full());
    assert_eq!(a.position(), Vec2::new(3, 5));
    assert_eq!(b.position(), Vec2::new(0, -1));

    let mut c = particle(3, -3, -4, 5);
    let mut d = particle(4, 0, 0, 5);
    resolve_collision(&mut c, &mut d, full());
    assert_eq!(c.position(), Vec2::new(-3, -5));
    assert_eq!(d.position(), Vec2::new(0, 1));
}

#[test]
fn collision_rounds_the_distance_up() {
    let mut a = particle(1, 1, 1, 5);
    let mut b = particle(2, 0, 0, 5);
    resolve_collision(&mut a, &mut b, full());
    assert_eq!(a.position(), Vec2::new(2, 2));
    assert_eq!(b.position(), Vec2::new(-1, -1));
}

#[test]
fn collision_leaves_particles_apart_alone() {
    let mut a = particle(1, 20, 0, 10);
    let mut b = particle(2, 0, 0, 10);
    resolve_collision(&mut a, &mut b, full());
    assert_eq!(a.position(), Vec2::new(20, 0));
    assert_eq!(b.position(), Vec2::new(0, 0));

    let mut c = particle(3, 1000, -2000, 10);
    let mut d = particle(4, -3000, 4000, 10);
    resolve_collision(&mut c, &mut d, full());
    assert_eq!(c.position(), Vec2::new(1000, -2000));
    assert_eq!(d.position(), Vec2::new(-3000, 4000));
}

#[test]
fn collision_leaves_coincident_particles_alone() {
    let mut a = particle(1, 33, 44, 10);
    let mut b = particle(2, 33, 44, 10);
    resolve_collision(&mut a, &mut b, full());
    assert_eq!(a.position(), Vec2::new(33, 44));
    assert_eq!(b.position(), Vec2::new(33, 44));
}

#[test]
fn collision_takes_coordinates_far_apart() {
    let mut a = particle(1, i64::MAX, i64::MIN, 10);
    let mut b = particle(2, i64::MIN, i64::MAX, 10);
    resolve_collision(&mut a, &mut b, full());
    assert_eq!(a.position(), Vec2::new(i64::MAX, i64::MIN));
    assert_eq!(b.position(), Vec2::new(i64::MIN, i64::MAX));
}

#[test]
fn collision_never_brings_the_centers_closer() {
    let response = Ratio::new(3, 4).unwrap();
    let mut id = 0;
    for (x, y) in [(1i64, 0i64), (0, -1), (5, 5), (-7, 3), (13, -2), (19, 0), (14, 14), (-3, -19)] {
        for (ra, rb) in [(10i64, 10i64), (1, 19), (15, 5), (7, 13)] {
            id += 2;
            let mut a = particle(id, x, y, ra);
            let mut b = particle(id + 1, 0, 0, rb);
            let before = (x * x + y * y) as i128;
            resolve_collision(&mut a, &mut b, response);
            let dx = (a.position().x - b.position().x) as i128;
            let dy = (a.position().y - b.position().y) as i128;
            assert!(dx * dx + dy * dy >= before);
            let reach = (ra + rb) as i128;
            assert!(dx * dx + dy * dy <= reach * reach);
        }
    }
}

#[test]
fn ratio_is_a_fraction_of_at_most_one() {
    assert!(Ratio::new(0, 4).is_none());
    assert!(Ratio::new(5, 4).is_none());
    assert!(Ratio::new(1, 0).is_none());
    assert_eq!(Ratio::new(3, 4), Some(Ratio { numer: 3, denom: 4 }));
    assert_eq!(Ratio::new(4, 4), Some(Ratio { numer: 4, denom: 4 }));
}
