use rand::rngs::StdRng;
use rand::SeedableRng;
use verlet_particles::body::{Color, RADIUS_LIMIT};
use verlet_particles::collision::Ratio;
use verlet_particles::config::{
    Boundary, Config, ConfigError, RadiusRange, SpawnArea, EXTENT_LIMIT, POPULATION_LIMIT,
};
use verlet_particles::particle::{resolve_collision, Particle};
use verlet_particles::simulator::Simulator;
use verlet_particles::vector::Vec2;

const UNIT: i64 = 1024;
const RED: Color = Color { r: 255, g: 0, b: 0 };
const BLUE: Color = Color { r: 0, g: 0, b: 255 };

fn reference_config() -> Config {
    Config {
        population_cap: 40,
        spawn_area: SpawnArea {
            origin: Vec2::new(100 * UNIT, 100 * UNIT),
            stride: 5 * UNIT,
            width: 500 * UNIT,
        },
        radius_range: RadiusRange { min: 5 * UNIT, max: 15 * UNIT },
        gravity: Vec2::new(0, UNIT / 10),
        response: Ratio { numer: 3, denom: 4 },
        substep_count: 10,
        boundary: Boundary { center: Vec2::new(550 * UNIT, 300 * UNIT), radius: 300 * UNIT },
    }
}

/// A wide and empty world: zero gravity and a boundary that nothing reaches.
fn open_config() -> Config {
    Config {
        population_cap: 8,
        spawn_area: SpawnArea { origin: Vec2::new(0, 0), stride: 5 * UNIT, width: 500 * UNIT },
        radius_range: RadiusRange { min: 10 * UNIT, max: 10 * UNIT },
        gravity: Vec2::zero(),
        response: Ratio { numer: 3, denom: 4 },
        substep_count: 1,
        boundary: Boundary { center: Vec2::new(0, 0), radius: EXTENT_LIMIT },
    }
}

fn seeded(config: Config, seed: u64) -> Simulator {
    Simulator::new(config, StdRng::seed_from_u64(seed)).unwrap()
}

fn fault_of(config: Config) -> Option<ConfigError> {
    Simulator::new(config, StdRng::seed_from_u64(0)).err()
}

fn snapshot(sim: &Simulator) -> Vec<(u64, Vec2, Vec2, i64, Color)> {
    sim.particles()
        .iter()
        .map(|p| (p.id(), p.position(), p.previous_position(), p.radius(), p.color()))
        .collect()
}

#[test]
fn new_simulator_is_empty() {
    let sim = seeded(reference_config(), 1);
    assert_eq!(sim.len(), 0);
    assert_eq!(sim.next_id(), 1);
    assert!(sim.particles().is_empty());
    assert!(!sim.is_full());
    assert_eq!(sim.config(), reference_config());
}

#[test]
fn config_without_population_is_refused() {
    let mut config = reference_config();
    config.population_cap = 0;
    assert_eq!(fault_of(config), Some(ConfigError::NoPopulation));
    assert_eq!(config.validate(), Err(ConfigError::NoPopulation));
}

#[test]
fn config_without_substeps_is_refused() {
    let mut config = reference_config();
    config.substep_count = 0;
    assert_eq!(fault_of(config), Some(ConfigError::NoSubsteps));
}

#[test]
fn config_with_bad_radius_range_is_refused() {
    let mut config = reference_config();
    config.radius_range = RadiusRange { min: 0, max: 15 };
    assert_eq!(fault_of(config), Some(ConfigError::RadiusRange));
    config.radius_range = RadiusRange { min: -3, max: 15 };
    assert_eq!(fault_of(config), Some(ConfigError::RadiusRange));
    config.radius_range = RadiusRange { min: 16, max: 15 };
    assert_eq!(fault_of(config), Some(ConfigError::RadiusRange));
    config.radius_range = RadiusRange { min: 15, max: 15 };
    assert_eq!(fault_of(config), None);
}

#[test]
fn config_with_bad_response_is_refused() {
    let mut config = reference_config();
    config.response = Ratio { numer: 0, denom: 4 };
    assert_eq!(fault_of(config), Some(ConfigError::Response));
    config.response = Ratio { numer: 5, denom: 4 };
    assert_eq!(fault_of(config), Some(ConfigError::Response));
    config.response = Ratio { numer: 4, denom: 4 };
    assert_eq!(fault_of(config), None);
}

#[test]
fn config_with_bad_spawn_area_is_refused() {
    let mut config = reference_config();
    config.spawn_area.width = 0;
    assert_eq!(fault_of(config), Some(ConfigError::SpawnArea));
    config.spawn_area.width = 500 * UNIT;
    config.spawn_area.stride = -1;
    assert_eq!(fault_of(config), Some(ConfigError::SpawnArea));
    config.spawn_area.stride = 0;
    assert_eq!(fault_of(config), None);
}

#[test]
fn config_with_small_boundary_is_refused() {
    let mut config = reference_config();
    config.boundary.radius = 15 * UNIT - 1;
    assert_eq!(fault_of(config), Some(ConfigError::Boundary));
    config.boundary.radius = 15 * UNIT;
    assert_eq!(fault_of(config), None);
}

#[test]
fn config_beyond_the_limits_is_refused() {
    let mut config = reference_config();
    config.population_cap = POPULATION_LIMIT + 1;
    assert_eq!(fault_of(config), Some(ConfigError::TooLarge));

    let mut config = reference_config();
    config.radius_range.max = RADIUS_LIMIT + 1;
    config.boundary.radius = RADIUS_LIMIT + 1;
    assert_eq!(fault_of(config), Some(ConfigError::TooLarge));

    let mut config = reference_config();
    config.gravity = Vec2::new(0, EXTENT_LIMIT + 1);
    assert_eq!(fault_of(config), Some(ConfigError::TooLarge));

    let mut config = reference_config();
    config.boundary.center = Vec2::new(-EXTENT_LIMIT - 1, 0);
    assert_eq!(fault_of(config), Some(ConfigError::TooLarge));

    let mut config = reference_config();
    config.spawn_area.origin = Vec2::new(0, EXTENT_LIMIT + 1);
    assert_eq!(fault_of(config), Some(ConfigError::TooLarge));

    let mut config = reference_config();
    config.boundary.radius = EXTENT_LIMIT;
    config.gravity = Vec2::new(-EXTENT_LIMIT, EXTENT_LIMIT);
    config.population_cap = POPULATION_LIMIT;
    assert_eq!(fault_of(config), None);
}

#[test]
fn config_names_its_first_fault() {
    let mut config = reference_config();
    config.substep_count = 0;
    config.radius_range = RadiusRange { min: 0, max: 0 };
    config.response = Ratio { numer: 0, denom: 0 };
    assert_eq!(fault_of(config), Some(ConfigError::NoSubsteps));
    config.population_cap = 0;
    assert_eq!(fault_of(config), Some(ConfigError::NoPopulation));
}

#[test]
fn spawn_position_steps_to_the_right_and_wraps() {
    let config = reference_config();
    assert_eq!(config.spawn_position(1), Vec2::new(105 * UNIT, 100 * UNIT));
    assert_eq!(config.spawn_position(2), Vec2::new(110 * UNIT, 100 * UNIT));
    assert_eq!(config.spawn_position(99), Vec2::new(595 * UNIT, 100 * UNIT));
    assert_eq!(config.spawn_position(100), Vec2::new(100 * UNIT, 100 * UNIT));
    assert_eq!(config.spawn_position(101), Vec2::new(105 * UNIT, 100 * UNIT));
    assert_eq!(config.spawn_position(u64::MAX), Vec2::new(175 * UNIT, 100 * UNIT));
}

#[test]
fn spawn_with_places_a_particle_at_rest() {
    let mut sim = seeded(reference_config(), 1);
    sim.spawn_with(7 * UNIT, RED);
    sim.spawn_with(15 * UNIT, BLUE);
    assert_eq!(
        snapshot(&sim),
        vec![
            (1, Vec2::new(105 * UNIT, 100 * UNIT), Vec2::new(105 * UNIT, 100 * UNIT), 7 * UNIT, RED),
            (2, Vec2::new(110 * UNIT, 100 * UNIT), Vec2::new(110 * UNIT, 100 * UNIT), 15 * UNIT, BLUE),
        ]
    );
    assert_eq!(sim.next_id(), 3);
    assert_eq!(sim.particles()[0].pending_acceleration(), Vec2::zero());
}

#[test]
fn spawn_draws_radii_from_the_range() {
    let config = reference_config();
    let mut sim = seeded(config, 2024);
    for _ in 0..40 {
        sim.spawn(RED);
    }
    assert_eq!(sim.len(), 40);
    let radii: Vec<i64> = sim.particles().iter().map(|p| p.radius()).collect();
    assert!(radii.iter().all(|r| config.radius_range.min <= *r && *r <= config.radius_range.max));
    assert!(radii.iter().any(|r| *r != config.radius_range.min));
    assert!(radii.iter().any(|r| *r != config.radius_range.max));
    assert!(radii.iter().any(|r| *r != radii[0]));
}

#[test]
fn spawn_from_a_range_of_one_radius_draws_it() {
    let mut sim = seeded(open_config(), 5);
    sim.spawn(RED);
    sim.spawn(RED);
    assert_eq!(sim.particles()[0].radius(), 10 * UNIT);
    assert_eq!(sim.particles()[1].radius(), 10 * UNIT);
}

#[test]
fn spawn_beyond_the_cap_does_nothing() {
    let mut config = reference_config();
    config.population_cap = 3;
    let mut sim = seeded(config, 3);
    for _ in 0..3 {
        sim.spawn(RED);
    }
    assert!(sim.is_full());
    let before = snapshot(&sim);
    sim.spawn(BLUE);
    sim.spawn_with(5 * UNIT, BLUE);
    assert_eq!(snapshot(&sim), before);
    assert_eq!(sim.next_id(), 4);
}

#[test]
fn ticks_fill_the_population_and_then_stop() {
    let mut config = reference_config();
    config.population_cap = 5;
    config.substep_count = 2;
    let mut sim = seeded(config, 11);
    for tick in 1..=5 {
        sim.tick(true, RED);
        assert_eq!(sim.len(), tick);
    }
    for _ in 0..10 {
        sim.tick(true, RED);
        assert_eq!(sim.len(), 5);
    }
    assert_eq!(sim.next_id(), 6);
}

#[test]
fn ticks_with_a_closed_gate_spawn_nothing() {
    let mut sim = seeded(reference_config(), 11);
    for _ in 0..5 {
        sim.tick(false, RED);
    }
    assert_eq!(sim.len(), 0);
    sim.tick(true, RED);
    sim.tick(false, RED);
    sim.tick_with(false, 5 * UNIT, RED);
    assert_eq!(sim.len(), 1);
}

#[test]
fn identifiers_count_up_from_one() {
    let mut sim = seeded(reference_config(), 4);
    for _ in 0..25 {
        sim.tick(true, RED);
    }
    let ids: Vec<u64> = sim.particles().iter().map(|p| p.id()).collect();
    assert_eq!(ids, (1..=25).collect::<Vec<u64>>());
}

#[test]
fn equal_seeds_give_equal_runs() {
    let mut first = seeded(reference_config(), 77);
    let mut second = seeded(reference_config(), 77);
    for tick in 0..60 {
        first.tick(tick % 2 == 0, RED);
        second.tick(tick % 2 == 0, RED);
        assert_eq!(snapshot(&first), snapshot(&second));
    }
    assert_eq!(first.len(), 30);
}

#[test]
fn equal_inputs_give_equal_runs() {
    let mut first = seeded(reference_config(), 1);
    let mut second = seeded(reference_config(), 2);
    for tick in 0..50i64 {
        let radius = (5 + tick % 11) * UNIT;
        first.tick_with(tick % 3 != 0, radius, BLUE);
        second.tick_with(tick % 3 != 0, radius, BLUE);
        assert_eq!(snapshot(&first), snapshot(&second));
    }
}

#[test]
fn a_lone_particle_falls_freely() {
    let mut config = open_config();
    config.gravity = Vec2::new(0, 102);
    config.substep_count = 10;
    let mut sim = seeded(config, 1);
    sim.tick(true, RED);
    let p = sim.particles()[0];
    assert_eq!(p.position(), Vec2::new(5 * UNIT, 102 * 55));
    assert_eq!(p.previous_position(), Vec2::new(5 * UNIT, 102 * 45));
    sim.tick(false, RED);
    let p = sim.particles()[0];
    assert_eq!(p.position(), Vec2::new(5 * UNIT, 102 * 210));
}

#[test]
fn a_step_confines_before_it_advances() {
    let mut config = open_config();
    config.boundary = Boundary { center: Vec2::new(0, 0), radius: 12 * UNIT };
    config.gravity = Vec2::new(0, 7);
    let mut sim = seeded(config, 1);
    sim.spawn_with(10 * UNIT, RED);
    assert_eq!(sim.particles()[0].position(), Vec2::new(5 * UNIT, 0));
    sim.step();
    let p = sim.particles()[0];
    assert_eq!(p.previous_position(), Vec2::new(2 * UNIT, 0));
    assert_eq!(p.position(), Vec2::new(2 * UNIT - 3 * UNIT, 7));
}

#[test]
fn a_step_is_a_sweep_over_the_pairs_in_order() {
    let config = reference_config();
    let mut sim = seeded(config, 99);
    for _ in 0..6 {
        sim.spawn(RED);
    }
    for _ in 0..5 {
        let mut expected: Vec<Particle> = sim.particles().clone();
        for i in 0..expected.len() {
            for j in i + 1..expected.len() {
                let mut a = expected[i];
                let mut b = expected[j];
                resolve_collision(&mut a, &mut b, config.response);
                expected[i] = a;
                expected[j] = b;
            }
            expected[i].confine_to_circle(config.boundary.center, config.boundary.radius);
            expected[i].integrate(config.gravity);
        }
        sim.step();
        for (got, want) in sim.particles().iter().zip(expected.iter()) {
            assert_eq!(got.id(), want.id());
            assert_eq!(got.position(), want.position());
            assert_eq!(got.previous_position(), want.previous_position());
        }
    }
}

#[test]
fn a_step_moves_overlapping_particles_apart() {
    let mut sim = seeded(open_config(), 1);
    sim.spawn_with(10 * UNIT, RED);
    sim.spawn_with(10 * UNIT, BLUE);
    sim.step();
    let a = sim.particles()[0];
    let b = sim.particles()[1];
    // 5 apart with an overlap of 15: each yields 15 * 3/4 / 2 / 2 = 2.8125,
    // and the step that follows carries that displacement on once more.
    assert_eq!(a.previous_position(), Vec2::new(5 * UNIT - 2880, 0));
    assert_eq!(b.previous_position(), Vec2::new(10 * UNIT + 2880, 0));
    assert_eq!(a.position(), Vec2::new(5 * UNIT - 2 * 2880, 0));
    assert_eq!(b.position(), Vec2::new(10 * UNIT + 2 * 2880, 0));
}

#[test]
fn a_tick_runs_the_configured_substeps() {
    let mut config = reference_config();
    config.substep_count = 7;
    let mut by_tick = seeded(config, 8);
    let mut by_step = seeded(config, 8);
    for round in 0..12 {
        let gate = round % 2 == 0;
        by_tick.tick(gate, RED);
        if gate {
            by_step.spawn(RED);
        }
        for _ in 0..7 {
            by_step.step();
        }
        assert_eq!(snapshot(&by_tick), snapshot(&by_step));
    }
}

#[test]
fn particles_rest_inside_the_boundary_after_every_tick() {
    let config = reference_config();
    let mut sim = seeded(config, 5);
    for tick in 0..120 {
        sim.tick(tick % 4 == 0, RED);
        for p in sim.particles().iter() {
            let dx = (p.previous_position().x - config.boundary.center.x) as i128;
            let dy = (p.previous_position().y - config.boundary.center.y) as i128;
            let inner = (config.boundary.radius - p.radius()) as i128;
            assert!(dx * dx + dy * dy <= inner * inner);
            assert!(config.radius_range.min <= p.radius() && p.radius() <= config.radius_range.max);
            assert_eq!(p.pending_acceleration(), Vec2::zero());
        }
    }
    assert_eq!(sim.len(), 30);
}

#[test]
fn overlapping_particles_come_apart_and_stay_apart() {
    let mut sim = seeded(open_config(), 1);
    sim.tick_with(true, 10 * UNIT, RED);
    sim.tick_with(true, 10 * UNIT, BLUE);
    let mut last = 0i128;
    for _ in 0..200 {
        sim.tick_with(false, 10 * UNIT, RED);
        let a = sim.particles()[0];
        let b = sim.particles()[1];
        let dx = (a.previous_position().x - b.previous_position().x) as i128;
        let dy = (a.previous_position().y - b.previous_position().y) as i128;
        let dist_sq = dx * dx + dy * dy;
        assert!(dist_sq >= last);
        last = dist_sq;
    }
    let reach = (20 * UNIT - 1) as i128;
    assert!(last >= reach * reach);
}
