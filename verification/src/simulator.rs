//! The simulator: it owns the particles and drives spawning and substeps.

use vstd::prelude::*;
use rand::rngs::StdRng;
use crate::body::{Body, Color};
use crate::config::{Config, ConfigError};
use crate::particle::{resolve_collision, Particle};
use crate::random::draw_between;
use crate::world::{
    advance, lemma_ended_valid, lemma_pair, lemma_spawn, lemma_steps, lemma_turn_end,
    lemma_valid_begins, sweep, sweep_ok, turn, turns, World,
};

verus! {

/// The models of a sequence of particles.
pub open spec fn models(ps: Seq<Particle>) -> Seq<Body> {
    ps.map_values(|p: Particle| p@)
}

/// A simulation of particles under gravity inside a circular boundary.
pub struct Simulator {
    config: Config,
    particles: Vec<Particle>,
    next_id: u64,
    rng: StdRng,
}

impl View for Simulator {
    type V = World;

    closed spec fn view(&self) -> World {
        World {
            config: self.config,
            particles: models(self.particles@),
            next_id: self.next_id as nat,
        }
    }
}

impl Simulator {
    /// The invariant of the simulator: its state is valid.
    pub open spec fn wf(&self) -> bool {
        self@.valid()
    }

    /// An empty simulation with the given configuration, which draws its
    /// radii from `rng`; or the first fault of the configuration.
    pub fn new(config: Config, rng: StdRng) -> (r: Result<Simulator, ConfigError>)
        ensures
            r is Ok <==> config.valid(),
            r matches Ok(sim) ==> sim.wf() && sim@ == World::empty(config),
            r matches Err(e) ==> config.fault() == Some(e),
    {
        match config.validate() {
            Ok(()) => {
                let sim = Simulator { config, particles: Vec::new(), next_id: 1, rng };
                assert(sim@.particles =~= Seq::empty());
                Ok(sim)
            },
            Err(e) => Err(e),
        }
    }

    pub fn config(&self) -> (c: Config)
        ensures
            c == self@.config,
    {
        self.config
    }

    /// The particles in the order in which they were spawned.
    pub fn particles(&self) -> (ps: &Vec<Particle>)
        ensures
            models(ps@) == self@.particles,
    {
        &self.particles
    }

    /// The number of particles.
    pub fn len(&self) -> (n: usize)
        ensures
            n == self@.particles.len(),
    {
        self.particles.len()
    }

    /// The identifier that the next particle will have.
    pub fn next_id(&self) -> (id: u64)
        ensures
            id == self@.next_id,
    {
        self.next_id
    }

    /// Whether the population has reached its cap.
    pub fn is_full(&self) -> (full: bool)
        ensures
            full == self@.is_full(),
    {
        self.particles.len() == self.config.population_cap
    }

    /// Adds a particle of the given radius and colour at the spawn point of
    /// the next identifier, unless the population is full.
    pub fn spawn_with(&mut self, radius: i64, color: Color)
        requires
            old(self).wf(),
            old(self)@.config.radius_range.min <= radius <= old(self)@.config.radius_range.max,
        ensures
            final(self).wf(),
            final(self)@ == old(self)@.spawn(radius as int, color),
    {
        proof {
            lemma_spawn(self@, radius as int, color);
        }
        if self.particles.len() == self.config.population_cap {
            return ;
        }
        let position = self.config.spawn_position(self.next_id);
        match Particle::new(self.next_id, position, radius, color) {
            Some(p) => {
                self.particles.push(p);
                self.next_id = self.next_id + 1;
                assert(self@.particles =~= old(self)@.particles.push(p@));
            },
            None => {},
        }
    }

    /// Adds a particle of the given colour and of a radius drawn from the
    /// configured range, unless the population is full.
    pub fn spawn(&mut self, color: Color)
        requires
            old(self).wf(),
        ensures
            final(self).wf(),
            exists|radius: int|
                old(self)@.config.radius_range.min <= radius <= old(self)@.config.radius_range.max
                    && final(self)@ == #[trigger] old(self)@.spawn(radius, color),
    {
        if self.particles.len() == self.config.population_cap {
            assert(self@ == old(self)@.spawn(self.config.radius_range.min as int, color));
            return ;
        }
        let radius: i64 = draw_between(
            &mut self.rng,
            self.config.radius_range.min,
            self.config.radius_range.max,
        );
        self.spawn_with(radius, color);
        assert(self@ == old(self)@.spawn(radius as int, color));
    }

    /// One substep: in the order of the collection, each particle is resolved
    /// against every particle after it, then confined to the boundary and
    /// advanced by one step.
    pub fn step(&mut self)
        requires
            old(self).wf(),
        ensures
            final(self).wf(),
            final(self)@ == old(self)@.step(),
            final(self)@.confined(),
    {
        let n: usize = self.particles.len();
        let ghost start = self@.particles;
        let ghost cfg = self.config;
        proof {
            lemma_valid_begins(self@);
        }
        let mut i: usize = 0;
        while i < n
            invariant
                i <= n,
                n == self.particles.len(),
                n <= cfg.population_cap,
                cfg.valid(),
                self.config == cfg,
                self.next_id == old(self).next_id,
                self@.particles == turns(start, cfg, i as int),
                sweep_ok(self@.particles, cfg, i as int, i + 1),
            decreases n - i,
        {
            let ghost opening = self@.particles;
            let mut j: usize = i + 1;
            while j < n
                invariant
                    i < j <= n,
                    n == self.particles.len(),
                    n == opening.len(),
                    n <= cfg.population_cap,
                    cfg.valid(),
                    self.config == cfg,
                    self.next_id == old(self).next_id,
                    self@.particles == sweep(opening, cfg, i as int, j as int),
                    sweep_ok(self@.particles, cfg, i as int, j as int),
                decreases n - j,
            {
                let ghost before = self@.particles;
                let mut a = self.particles[i];
                let mut b = self.particles[j];
                proof {
                    lemma_pair(before, cfg, i as int, j as int);
                }
                resolve_collision(&mut a, &mut b, self.config.response);
                self.particles[i] = a;
                self.particles[j] = b;
                assert(self@.particles =~= before.update(i as int, a@).update(j as int, b@));
                j = j + 1;
            }
            let ghost swept = self@.particles;
            let mut a = self.particles[i];
            proof {
                lemma_turn_end(swept, cfg, i as int);
            }
            a.confine_to_circle(self.config.boundary.center, self.config.boundary.radius);
            a.integrate(self.config.gravity);
            self.particles[i] = a;
            assert(self@.particles =~= swept.update(i as int, advance(swept[i as int], cfg)));
            assert(self@.particles == turn(opening, cfg, i as int));
            i = i + 1;
        }
        proof {
            lemma_ended_valid(self@);
        }
    }

    /// The configured number of substeps.
    fn substeps(&mut self)
        requires
            old(self).wf(),
        ensures
            final(self).wf(),
            final(self)@ == old(self)@.steps(old(self)@.config.substep_count as nat),
            final(self)@.confined(),
    {
        let count: u32 = self.config.substep_count;
        let mut done: u32 = 0;
        while done < count
            invariant
                done <= count,
                count == old(self)@.config.substep_count,
                old(self).wf(),
                self.wf(),
                self@ == old(self)@.steps(done as nat),
                done > 0 ==> self@.confined(),
            decreases count - done,
        {
            proof {
                lemma_steps(old(self)@, done as nat);
            }
            self.step();
            done = done + 1;
        }
    }

    /// One tick with a given radius: if `spawn_gate` is set, a particle of
    /// that radius and colour is spawned unless the population is full; then
    /// the configured number of substeps follows.
    pub fn tick_with(&mut self, spawn_gate: bool, radius: i64, color: Color)
        requires
            old(self).wf(),
            old(self)@.config.radius_range.min <= radius <= old(self)@.config.radius_range.max,
        ensures
            final(self).wf(),
            final(self)@ == old(self)@.tick(spawn_gate, radius as int, color),
            final(self)@.confined(),
            final(self)@.particles.len() == if spawn_gate && !old(self)@.is_full() {
                old(self)@.particles.len() + 1
            } else {
                old(self)@.particles.len()
            },
    {
        proof {
            lemma_spawn(self@, radius as int, color);
        }
        if spawn_gate {
            self.spawn_with(radius, color);
        }
        proof {
            lemma_steps(self@, self@.config.substep_count as nat);
        }
        self.substeps();
    }

    /// One tick: if `spawn_gate` is set, a particle of the given colour and
    /// of a radius drawn from the configured range is spawned unless the
    /// population is full; then the configured number of substeps follows.
    pub fn tick(&mut self, spawn_gate: bool, color: Color)
        requires
            old(self).wf(),
        ensures
            final(self).wf(),
            exists|radius: int|
                old(self)@.config.radius_range.min <= radius <= old(self)@.config.radius_range.max
                    && final(self)@ == #[trigger] old(self)@.tick(spawn_gate, radius, color),
            final(self)@.confined(),
            final(self)@.particles.len() == if spawn_gate && !old(self)@.is_full() {
                old(self)@.particles.len() + 1
            } else {
                old(self)@.particles.len()
            },
    {
        let ghost mut drawn: int = self.config.radius_range.min as int;
        if spawn_gate {
            self.spawn(color);
            proof {
                drawn =
                choose|radius: int|
                    old(self)@.config.radius_range.min <= radius
                        <= old(self)@.config.radius_range.max && self@ == #[trigger] old(
                        self,
                    )@.spawn(radius, color);
            }
        }
        proof {
            lemma_spawn(old(self)@, drawn, color);
            lemma_steps(self@, self@.config.substep_count as nat);
        }
        self.substeps();
        assert(self@ == old(self)@.tick(spawn_gate, drawn, color));
    }
}

} // verus!
