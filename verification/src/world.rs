//! The mathematical model of a simulation: its state, the substep and the
//! tick as functions on that state, and what they preserve.

use vstd::prelude::*;
use crate::body::{
    lemma_confine_inside, lemma_coordinate_within_norm, Body, Color, RADIUS_LIMIT,
};
use crate::collision::{collide, lemma_collide_displacement};
use crate::config::{Config, POPULATION_LIMIT};
use crate::vector::Point;

verus! {

/// No particle ever rests farther than this from the origin, in either
/// coordinate: twice the extent limit.
pub const REST_LIMIT: i64 = 0x200_0000_0000;

/// No particle is farther than this from the origin, in either coordinate,
/// when a substep begins: eight times the extent limit.
pub const FLIGHT_LIMIT: i64 = 0x800_0000_0000;

/// What holds of the particle at index `k` that has been corrected `pushes`
/// times since the substep began.
pub open spec fn pending(b: Body, cfg: Config, k: int, pushes: int) -> bool {
    &&& b.id == k + 1
    &&& cfg.radius_range.min <= b.radius <= cfg.radius_range.max
    &&& b.acceleration == Point::zero()
    &&& b.previous.within(REST_LIMIT as int)
    &&& b.position.within(FLIGHT_LIMIT + pushes * cfg.radius_range.max)
}

/// What holds of the particle at index `k` between substeps.
pub open spec fn settled(b: Body, cfg: Config, k: int) -> bool {
    pending(b, cfg, k, 0)
}

/// What holds of the particle at index `k` once a substep has confined and
/// advanced it.
pub open spec fn finished(b: Body, cfg: Config, k: int) -> bool {
    &&& settled(b, cfg, k)
    &&& b.was_inside_circle(cfg.boundary.center@, cfg.boundary.radius as int)
}

/// How often the particle at index `k` has been corrected when, in the turn
/// of particle `i`, the pair `(i, j)` is next.
pub open spec fn pushes(i: int, j: int, k: int) -> int {
    if k == i {
        j - 1
    } else if k < j {
        i + 1
    } else {
        i
    }
}

/// What holds of the particle at index `k` when, in the turn of particle
/// `i`, the pair `(i, j)` is next.
pub open spec fn in_sweep(b: Body, cfg: Config, i: int, j: int, k: int) -> bool {
    if k < i {
        finished(b, cfg, k)
    } else {
        pending(b, cfg, k, pushes(i, j, k))
    }
}

/// What holds of all particles when, in the turn of particle `i`, the pair
/// `(i, j)` is next.
pub open spec fn sweep_ok(ps: Seq<Body>, cfg: Config, i: int, j: int) -> bool {
    forall|k: int| 0 <= k < ps.len() ==> in_sweep(#[trigger] ps[k], cfg, i, j, k)
}

/// The particles after the pairs `(i, i + 1)`, ..., `(i, j - 1)` have been
/// resolved in this order, each on the positions that the pairs before it
/// have left.
pub open spec fn sweep(ps: Seq<Body>, cfg: Config, i: int, j: int) -> Seq<Body>
    decreases j - i,
{
    if j <= i + 1 {
        ps
    } else {
        let before = sweep(ps, cfg, i, j - 1);
        let pair = collide(before[i], before[j - 1], cfg.response);
        before.update(i, pair.0).update(j - 1, pair.1)
    }
}

/// What the end of its turn does to a particle: it is confined to the
/// boundary and then advanced by one step.
pub open spec fn advance(b: Body, cfg: Config) -> Body {
    b.confine(cfg.boundary.center@, cfg.boundary.radius as int).integrate(cfg.gravity@)
}

/// The particles after the turn of particle `i`: it is resolved against
/// every particle after it, then confined and advanced.
pub open spec fn turn(ps: Seq<Body>, cfg: Config, i: int) -> Seq<Body> {
    let swept = sweep(ps, cfg, i, ps.len() as int);
    swept.update(i, advance(swept[i], cfg))
}

/// The particles after the turns of the first `n` particles, in the order of
/// the collection.
pub open spec fn turns(ps: Seq<Body>, cfg: Config, n: int) -> Seq<Body>
    decreases n,
{
    if n <= 0 {
        ps
    } else {
        turn(turns(ps, cfg, n - 1), cfg, n - 1)
    }
}

/// The state of a simulation.
pub struct World {
    pub config: Config,
    pub particles: Seq<Body>,
    pub next_id: nat,
}

impl World {
    /// The simulation before the first spawn.
    pub open spec fn empty(config: Config) -> World {
        World { config, particles: Seq::empty(), next_id: 1 }
    }

    /// The invariant of a simulation between substeps: the configuration is
    /// valid, the population is within its cap, identifiers count up from
    /// one in the order of the collection, and every particle has a radius
    /// of the configured range, no acceleration gathered and coordinates
    /// within the limits.
    pub open spec fn valid(self) -> bool {
        &&& self.config.valid()
        &&& self.particles.len() <= self.config.population_cap
        &&& self.next_id == self.particles.len() + 1
        &&& forall|k: int|
            0 <= k < self.particles.len() ==> settled(#[trigger] self.particles[k], self.config, k)
    }

    /// Every particle rested wholly inside the boundary before its last step.
    pub open spec fn confined(self) -> bool {
        forall|k: int|
            0 <= k < self.particles.len() ==> (#[trigger] self.particles[k]).was_inside_circle(
                self.config.boundary.center@,
                self.config.boundary.radius as int,
            )
    }

    /// The population has reached its cap.
    pub open spec fn is_full(self) -> bool {
        self.particles.len() == self.config.population_cap
    }

    /// Adds a particle of the given radius and colour at rest at the spawn
    /// point of the next identifier, unless the population is full.
    pub open spec fn spawn(self, radius: int, color: Color) -> World {
        if self.is_full() {
            self
        } else {
            World {
                particles: self.particles.push(
                    Body::at_rest(
                        self.next_id,
                        self.config.spawn_point(self.next_id),
                        radius,
                        color,
                    ),
                ),
                next_id: self.next_id + 1,
                ..self
            }
        }
    }

    /// One substep: the turns of all particles in the order of the
    /// collection.
    pub open spec fn step(self) -> World {
        World { particles: turns(self.particles, self.config, self.particles.len() as int), ..self }
    }

    /// `n` substeps.
    pub open spec fn steps(self, n: nat) -> World
        decreases n,
    {
        if n == 0 {
            self
        } else {
            self.steps((n - 1) as nat).step()
        }
    }

    /// One tick: a spawn if `spawn_gate` allows it, then the configured
    /// number of substeps.
    pub open spec fn tick(self, spawn_gate: bool, radius: int, color: Color) -> World {
        let spawned = if spawn_gate {
            self.spawn(radius, color)
        } else {
            self
        };
        spawned.steps(self.config.substep_count as nat)
    }
}

/// What one tick is given from outside.
pub struct TickInput {
    pub spawn_gate: bool,
    pub radius: int,
    pub color: Color,
}

impl World {
    /// The ticks fed with `inputs`, one after the other.
    pub open spec fn run(self, inputs: Seq<TickInput>) -> World
        decreases inputs.len(),
    {
        if inputs.len() == 0 {
            self
        } else {
            let last = inputs.last();
            self.run(inputs.drop_last()).tick(last.spawn_gate, last.radius, last.color)
        }
    }

    /// Every radius among `inputs` is of the configured range.
    pub open spec fn accepts(self, inputs: Seq<TickInput>) -> bool {
        forall|t: int|
            0 <= t < inputs.len() ==> self.config.radius_range.min <= (#[trigger] inputs[t]).radius
                <= self.config.radius_range.max
    }

    /// The number of particles after `self` has been offered `offers` spawns.
    pub open spec fn population_after(self, offers: nat) -> nat {
        if self.particles.len() + offers <= self.config.population_cap {
            self.particles.len() + offers
        } else {
            self.config.population_cap as nat
        }
    }
}

/// The number of ticks among `inputs` that may spawn.
pub open spec fn open_gates(inputs: Seq<TickInput>) -> nat
    decreases inputs.len(),
{
    if inputs.len() == 0 {
        0
    } else {
        open_gates(inputs.drop_last()) + if inputs.last().spawn_gate {
            1nat
        } else {
            0nat
        }
    }
}

/// The room that corrections may take up stays within the limits.
pub proof fn lemma_push_room(p: int, m: int)
    by (nonlinear_arith)
    requires
        0 <= p <= POPULATION_LIMIT,
        0 < m <= RADIUS_LIMIT,
    ensures
        0 <= p * m <= 0x4_0000_0000_0000,
        (p + 1) * m == p * m + m,
{
}

/// Resolving the pair `(i, j)` keeps the coordinates in range and leads to
/// what holds before the pair `(i, j + 1)`.
pub proof fn lemma_pair(ps: Seq<Body>, cfg: Config, i: int, j: int)
    requires
        cfg.valid(),
        0 <= i < j < ps.len() <= cfg.population_cap,
        sweep_ok(ps, cfg, i, j),
    ensures
        ps[i].valid(),
        ps[j].valid(),
        collide(ps[i], ps[j], cfg.response).0.position.fits(),
        collide(ps[i], ps[j], cfg.response).1.position.fits(),
        sweep_ok(
            ps.update(i, collide(ps[i], ps[j], cfg.response).0).update(
                j,
                collide(ps[i], ps[j], cfg.response).1,
            ),
            cfg,
            i,
            j + 1,
        ),
{
    let a = ps[i];
    let b = ps[j];
    let m = cfg.radius_range.max as int;
    assert(in_sweep(a, cfg, i, j, i));
    assert(in_sweep(b, cfg, i, j, j));
    lemma_collide_displacement(a, b, cfg.response);
    lemma_push_room(j - 1, m);
    lemma_push_room(i, m);
    let pair = collide(a, b, cfg.response);
    let after = ps.update(i, pair.0).update(j, pair.1);
    assert(in_sweep(pair.0, cfg, i, j + 1, i));
    assert(in_sweep(pair.1, cfg, i, j + 1, j));
    assert forall|k: int| 0 <= k < after.len() implies in_sweep(
        #[trigger] after[k],
        cfg,
        i,
        j + 1,
        k,
    ) by {
        if k != i && k != j {
            assert(after[k] == ps[k]);
            assert(in_sweep(ps[k], cfg, i, j, k));
        }
    }
}

/// Once particle `i` has met every particle after it, confining and
/// advancing it keeps the coordinates in range and leads to what holds
/// before the turn of particle `i + 1`.
pub proof fn lemma_turn_end(ps: Seq<Body>, cfg: Config, i: int)
    requires
        cfg.valid(),
        0 <= i < ps.len() <= cfg.population_cap,
        sweep_ok(ps, cfg, i, ps.len() as int),
    ensures
        ps[i].valid(),
        ps[i].radius <= cfg.boundary.radius,
        ps[i].position.minus(cfg.boundary.center@).fits(),
        advance(ps[i], cfg).position.fits(),
        sweep_ok(ps.update(i, advance(ps[i], cfg)), cfg, i + 1, i + 2),
{
    let a = ps[i];
    let m = cfg.radius_range.max as int;
    let c = cfg.boundary.center@;
    let r = cfg.boundary.radius as int;
    assert(in_sweep(a, cfg, i, ps.len() as int, i));
    lemma_push_room(ps.len() - 1, m);
    lemma_confine_inside(a, c, r);
    let held = a.confine(c, r);
    lemma_coordinate_within_norm(held.position.minus(c), r - a.radius);
    let moved = advance(a, cfg);
    assert(finished(moved, cfg, i));
    let after = ps.update(i, moved);
    assert forall|k: int| 0 <= k < after.len() implies in_sweep(
        #[trigger] after[k],
        cfg,
        i + 1,
        i + 2,
        k,
    ) by {
        if k != i {
            assert(after[k] == ps[k]);
            assert(in_sweep(ps[k], cfg, i, ps.len() as int, k));
        }
    }
}

/// Resolving the pairs `(i, i + 1)`, ..., `(i, j - 1)` keeps the population
/// and leads to what holds before the pair `(i, j)`.
pub proof fn lemma_sweep(ps: Seq<Body>, cfg: Config, i: int, j: int)
    requires
        cfg.valid(),
        0 <= i < j <= ps.len() <= cfg.population_cap,
        sweep_ok(ps, cfg, i, i + 1),
    ensures
        sweep(ps, cfg, i, j).len() == ps.len(),
        sweep_ok(sweep(ps, cfg, i, j), cfg, i, j),
    decreases j - i,
{
    if j > i + 1 {
        lemma_sweep(ps, cfg, i, j - 1);
        lemma_pair(sweep(ps, cfg, i, j - 1), cfg, i, j - 1);
    }
}

/// The turn of particle `i` keeps the population and leads to what holds
/// before the turn of particle `i + 1`.
pub proof fn lemma_turn(ps: Seq<Body>, cfg: Config, i: int)
    requires
        cfg.valid(),
        0 <= i < ps.len() <= cfg.population_cap,
        sweep_ok(ps, cfg, i, i + 1),
    ensures
        turn(ps, cfg, i).len() == ps.len(),
        sweep_ok(turn(ps, cfg, i), cfg, i + 1, i + 2),
{
    lemma_sweep(ps, cfg, i, ps.len() as int);
    lemma_turn_end(sweep(ps, cfg, i, ps.len() as int), cfg, i);
}

/// The turns of the first `n` particles keep the population and lead to what
/// holds before the turn of particle `n`.
pub proof fn lemma_turns(ps: Seq<Body>, cfg: Config, n: int)
    requires
        cfg.valid(),
        0 <= n <= ps.len() <= cfg.population_cap,
        sweep_ok(ps, cfg, 0, 1),
    ensures
        turns(ps, cfg, n).len() == ps.len(),
        sweep_ok(turns(ps, cfg, n), cfg, n, n + 1),
    decreases n,
{
    if n > 0 {
        lemma_turns(ps, cfg, n - 1);
        lemma_turn(turns(ps, cfg, n - 1), cfg, n - 1);
    }
}

/// A state that is valid is one in which the first turn may begin.
pub proof fn lemma_valid_begins(w: World)
    requires
        w.valid(),
    ensures
        sweep_ok(w.particles, w.config, 0, 1),
{
    assert forall|k: int| 0 <= k < w.particles.len() implies in_sweep(
        #[trigger] w.particles[k],
        w.config,
        0,
        1,
        k,
    ) by {
        assert(settled(w.particles[k], w.config, k));
    }
}

/// A state in which every turn has ended is valid and confined.
pub proof fn lemma_ended_valid(w: World)
    requires
        w.config.valid(),
        w.particles.len() <= w.config.population_cap,
        w.next_id == w.particles.len() + 1,
        sweep_ok(w.particles, w.config, w.particles.len() as int, w.particles.len() as int + 1),
    ensures
        w.valid(),
        w.confined(),
{
    let n = w.particles.len() as int;
    assert forall|k: int| 0 <= k < w.particles.len() implies settled(
        #[trigger] w.particles[k],
        w.config,
        k,
    ) && w.particles[k].was_inside_circle(
        w.config.boundary.center@,
        w.config.boundary.radius as int,
    ) by {
        assert(in_sweep(w.particles[k], w.config, n, n + 1, k));
    }
}

/// A substep keeps a simulation valid, keeps its population, and leaves
/// every particle's resting place inside the boundary.
pub proof fn lemma_step(w: World)
    requires
        w.valid(),
    ensures
        w.step().valid(),
        w.step().confined(),
        w.step().config == w.config,
        w.step().next_id == w.next_id,
        w.step().particles.len() == w.particles.len(),
{
    lemma_valid_begins(w);
    lemma_turns(w.particles, w.config, w.particles.len() as int);
    lemma_ended_valid(w.step());
}

/// Any number of substeps keeps a simulation valid and keeps its population;
/// one or more leave every particle's resting place inside the boundary.
pub proof fn lemma_steps(w: World, n: nat)
    requires
        w.valid(),
    ensures
        w.steps(n).valid(),
        n > 0 || w.confined() ==> w.steps(n).confined(),
        w.steps(n).config == w.config,
        w.steps(n).next_id == w.next_id,
        w.steps(n).particles.len() == w.particles.len(),
    decreases n,
{
    if n > 0 {
        lemma_steps(w, (n - 1) as nat);
        lemma_step(w.steps((n - 1) as nat));
    }
}

/// A spawn with a radius of the configured range keeps a simulation valid.
/// It adds one particle unless the population is full.
pub proof fn lemma_spawn(w: World, radius: int, color: Color)
    requires
        w.valid(),
        w.config.radius_range.min <= radius <= w.config.radius_range.max,
    ensures
        w.spawn(radius, color).valid(),
        w.spawn(radius, color).config == w.config,
        w.spawn(radius, color).particles.len() == if w.is_full() {
            w.particles.len()
        } else {
            w.particles.len() + 1
        },
{
    if !w.is_full() {
        let cfg = w.config;
        let after = w.spawn(radius, color);
        let width = cfg.spawn_area.width as int;
        let offset = (w.next_id * cfg.spawn_area.stride) % width;
        assert(0 <= offset < width) by (nonlinear_arith)
            requires
                0 < width,
                offset == (w.next_id * cfg.spawn_area.stride) % width,
        ;
        assert forall|k: int| 0 <= k < after.particles.len() implies settled(
            #[trigger] after.particles[k],
            cfg,
            k,
        ) by {
            if k < w.particles.len() {
                assert(after.particles[k] == w.particles[k]);
                assert(settled(w.particles[k], cfg, k));
            }
        }
    }
}

/// A tick keeps a simulation valid and leaves every particle's resting place
/// inside the boundary. It adds one particle if `spawn_gate` is set and the
/// population is not full, and none otherwise.
pub proof fn lemma_tick(w: World, spawn_gate: bool, radius: int, color: Color)
    requires
        w.valid(),
        w.config.radius_range.min <= radius <= w.config.radius_range.max,
    ensures
        w.tick(spawn_gate, radius, color).valid(),
        w.tick(spawn_gate, radius, color).confined(),
        w.tick(spawn_gate, radius, color).config == w.config,
        w.tick(spawn_gate, radius, color).particles.len() == if spawn_gate && !w.is_full() {
            w.particles.len() + 1
        } else {
            w.particles.len()
        },
{
    lemma_spawn(w, radius, color);
    let spawned = if spawn_gate {
        w.spawn(radius, color)
    } else {
        w
    };
    lemma_steps(spawned, w.config.substep_count as nat);
}

/// Ticks keep a simulation valid and confined, whatever they are fed. The
/// population grows by one with every tick that may spawn, until it reaches
/// the cap,
/// and stays there: a full simulation stays full.
pub proof fn lemma_run_population(w: World, inputs: Seq<TickInput>)
    requires
        w.valid(),
        w.accepts(inputs),
    ensures
        w.run(inputs).valid(),
        w.run(inputs).config == w.config,
        inputs.len() > 0 ==> w.run(inputs).confined(),
        w.run(inputs).particles.len() == w.population_after(open_gates(inputs)),
        w.run(inputs).particles.len() <= w.config.population_cap,
        w.is_full() ==> w.run(inputs).is_full(),
    decreases inputs.len(),
{
    if inputs.len() > 0 {
        let last = inputs.last();
        let before = inputs.drop_last();
        assert forall|t: int| 0 <= t < before.len() implies w.config.radius_range.min <= (
        #[trigger] before[t]).radius <= w.config.radius_range.max by {
            assert(before[t] == inputs[t]);
        }
        lemma_run_population(w, before);
        lemma_tick(w.run(before), last.spawn_gate, last.radius, last.color);
    }
}

/// Simulations that start alike and are fed alike end alike: the state after
/// any number of ticks depends on nothing but the state before them, the
/// gates and the radii and colours of the spawns.
pub proof fn lemma_run_deterministic(
    a: World,
    b: World,
    inputs_a: Seq<TickInput>,
    inputs_b: Seq<TickInput>,
)
    requires
        a.config == b.config,
        a.next_id == b.next_id,
        a.particles.len() == b.particles.len(),
        forall|k: int| 0 <= k < a.particles.len() ==> a.particles[k] == b.particles[k],
        inputs_a.len() == inputs_b.len(),
        forall|t: int| 0 <= t < inputs_a.len() ==> inputs_a[t] == inputs_b[t],
    ensures
        a.run(inputs_a) == b.run(inputs_b),
{
    assert(a.particles =~= b.particles);
    assert(inputs_a =~= inputs_b);
}

} // verus!
