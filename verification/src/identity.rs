//! Particles are told apart by their identifiers.

use vstd::prelude::*;
use vstd::std_specs::cmp::PartialEqSpecImpl;
use crate::particle::Particle;

verus! {

impl PartialEq for Particle {
    /// Two particles are the same if they have the same identifier.
    fn eq(&self, other: &Particle) -> (same: bool) {
        self.id() == other.id()
    }
}

impl PartialEqSpecImpl for Particle {
    open spec fn obeys_eq_spec() -> bool {
        true
    }

    open spec fn eq_spec(&self, other: &Particle) -> bool {
        self@.id == other@.id
    }
}

impl Eq for Particle {

}

} // verus!
