//! The configuration of a simulation, and the check that makes it valid.

use vstd::prelude::*;
use crate::body::RADIUS_LIMIT;
use crate::collision::Ratio;
use crate::vector::{Point, Vec2};

verus! {

/// The largest magnitude of any coordinate or length of a configuration.
pub const EXTENT_LIMIT: i64 = 0x100_0000_0000;

/// The largest number of particles a simulation may hold.
pub const POPULATION_LIMIT: usize = 0x10_0000;

/// Where new particles appear: on the horizontal line through `origin`,
/// `stride` further to the right with each identifier, wrapping around after
/// `width`.
#[derive(Clone, Copy, Debug, PartialEq, Eq, Structural)]
pub struct SpawnArea {
    pub origin: Vec2,
    pub stride: i64,
    pub width: i64,
}

/// The radii that new particles may have, both ends included.
#[derive(Clone, Copy, Debug, PartialEq, Eq, Structural)]
pub struct RadiusRange {
    pub min: i64,
    pub max: i64,
}

/// The circle that holds the particles.
#[derive(Clone, Copy, Debug, PartialEq, Eq, Structural)]
pub struct Boundary {
    pub center: Vec2,
    pub radius: i64,
}

/// Everything that is fixed for the lifetime of a simulation.
#[derive(Clone, Copy, Debug, PartialEq, Eq, Structural)]
pub struct Config {
    /// The number of particles at which spawning stops.
    pub population_cap: usize,
    pub spawn_area: SpawnArea,
    pub radius_range: RadiusRange,
    /// The acceleration added to every particle in every substep.
    pub gravity: Vec2,
    /// The fraction of an overlap that one correction removes.
    pub response: Ratio,
    /// The number of substeps in one tick.
    pub substep_count: u32,
    pub boundary: Boundary,
}

/// Why a configuration was turned down.
#[derive(Clone, Copy, Debug, PartialEq, Eq, Structural)]
pub enum ConfigError {
    /// The population cap is zero.
    NoPopulation,
    /// The number of substeps is zero.
    NoSubsteps,
    /// The radius range is not `0 < min <= max`.
    RadiusRange,
    /// The response is not in `(0, 1]`.
    Response,
    /// The spawn width is not positive or the stride is negative.
    SpawnArea,
    /// The boundary is too small for the largest particle.
    Boundary,
    /// Some magnitude is beyond what the arithmetic can carry.
    TooLarge,
}

/// `v` is no farther than the extent limit from zero.
pub open spec fn in_extent(v: int) -> bool {
    -EXTENT_LIMIT <= v <= EXTENT_LIMIT
}

impl Config {
    /// Every magnitude is within its limit.
    pub open spec fn bounded(self) -> bool {
        &&& self.population_cap <= POPULATION_LIMIT
        &&& self.radius_range.max <= RADIUS_LIMIT
        &&& self.spawn_area.stride <= EXTENT_LIMIT
        &&& self.spawn_area.width <= EXTENT_LIMIT
        &&& in_extent(self.spawn_area.origin.x as int)
        &&& in_extent(self.spawn_area.origin.y as int)
        &&& in_extent(self.gravity.x as int)
        &&& in_extent(self.gravity.y as int)
        &&& in_extent(self.boundary.center.x as int)
        &&& in_extent(self.boundary.center.y as int)
        &&& self.boundary.radius <= EXTENT_LIMIT
    }

    /// The first fault of the configuration, if it has one.
    pub open spec fn fault(self) -> Option<ConfigError> {
        if self.population_cap == 0 {
            Some(ConfigError::NoPopulation)
        } else if self.substep_count == 0 {
            Some(ConfigError::NoSubsteps)
        } else if !(0 < self.radius_range.min <= self.radius_range.max) {
            Some(ConfigError::RadiusRange)
        } else if !self.response.valid() {
            Some(ConfigError::Response)
        } else if !(0 < self.spawn_area.width && 0 <= self.spawn_area.stride) {
            Some(ConfigError::SpawnArea)
        } else if self.boundary.radius < self.radius_range.max {
            Some(ConfigError::Boundary)
        } else if !self.bounded() {
            Some(ConfigError::TooLarge)
        } else {
            None
        }
    }

    /// The configuration has no fault.
    pub open spec fn valid(self) -> bool {
        self.fault() is None
    }

    /// Where the particle with identifier `id` appears.
    pub open spec fn spawn_point(self, id: nat) -> Point {
        Point {
            x: self.spawn_area.origin.x + (id * self.spawn_area.stride) % (
            self.spawn_area.width as int),
            y: self.spawn_area.origin.y as int,
        }
    }

    fn is_bounded(&self) -> (r: bool)
        ensures
            r == self.bounded(),
    {
        let sizes: bool = self.population_cap <= POPULATION_LIMIT && self.radius_range.max
            <= RADIUS_LIMIT && self.spawn_area.stride <= EXTENT_LIMIT && self.spawn_area.width
            <= EXTENT_LIMIT && self.boundary.radius <= EXTENT_LIMIT;
        let places: bool = within_extent(self.spawn_area.origin.x) && within_extent(
            self.spawn_area.origin.y,
        ) && within_extent(self.boundary.center.x) && within_extent(self.boundary.center.y);
        let pull: bool = within_extent(self.gravity.x) && within_extent(self.gravity.y);
        sizes && places && pull
    }

    /// Checks the configuration and names its first fault.
    pub fn validate(&self) -> (r: Result<(), ConfigError>)
        ensures
            r is Ok <==> self.valid(),
            r matches Err(e) ==> self.fault() == Some(e),
    {
        if self.population_cap == 0 {
            Err(ConfigError::NoPopulation)
        } else if self.substep_count == 0 {
            Err(ConfigError::NoSubsteps)
        } else if !(0 < self.radius_range.min && self.radius_range.min <= self.radius_range.max) {
            Err(ConfigError::RadiusRange)
        } else if !(0 < self.response.numer && self.response.numer <= self.response.denom) {
            Err(ConfigError::Response)
        } else if !(0 < self.spawn_area.width && 0 <= self.spawn_area.stride) {
            Err(ConfigError::SpawnArea)
        } else if self.boundary.radius < self.radius_range.max {
            Err(ConfigError::Boundary)
        } else if !self.is_bounded() {
            Err(ConfigError::TooLarge)
        } else {
            Ok(())
        }
    }

    /// Computes where the particle with identifier `id` appears.
    pub fn spawn_position(&self, id: u64) -> (p: Vec2)
        requires
            self.valid(),
        ensures
            p@ == self.spawn_point(id as nat),
            self.spawn_area.origin.x <= p.x < self.spawn_area.origin.x + self.spawn_area.width,
            p.y == self.spawn_area.origin.y,
    {
        let stride: u128 = self.spawn_area.stride as u128;
        let width: u128 = self.spawn_area.width as u128;
        assert(id * stride <= 0xffff_ffff_ffff_ffff * 0x100_0000_0000) by (nonlinear_arith)
            requires
                0 <= id <= 0xffff_ffff_ffff_ffff,
                0 <= stride <= 0x100_0000_0000,
        ;
        let offset: u128 = (id as u128 * stride) % width;
        Vec2 { x: self.spawn_area.origin.x + offset as i64, y: self.spawn_area.origin.y }
    }
}

fn within_extent(v: i64) -> (r: bool)
    ensures
        r == in_extent(v as int),
{
    -EXTENT_LIMIT <= v && v <= EXTENT_LIMIT
}

} // verus!
