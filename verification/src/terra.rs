//! The two planes of the world and the seeds its terrain is grown from.

use crate::dice::draw_bits;
use vstd::prelude::*;

verus! {

/// One of the two parallel layers of the world.
#[derive(Debug, Clone, Copy, PartialEq, Eq, Hash, Structural)]
pub enum Plane {
    Material,
    Ethereal,
}

impl Plane {
    /// The other plane.
    pub open spec fn spec_next(self) -> Plane {
        match self {
            Plane::Material => Plane::Ethereal,
            Plane::Ethereal => Plane::Material,
        }
    }

    /// Toggles between the two planes.
    pub fn next(&self) -> (other: Plane)
        ensures
            other == self.spec_next(),
            other != *self,
    {
        match self {
            Plane::Material => Plane::Ethereal,
            Plane::Ethereal => Plane::Material,
        }
    }
}

/// Toggling a plane twice gives the plane back, and the two planes are the
/// only values there are.
pub proof fn lemma_next_is_an_involution(p: Plane)
    ensures
        p.spec_next().spec_next() == p,
        p.spec_next() != p,
        p == Plane::Material || p == Plane::Ethereal,
{
}

/// The seeds of the noise fields, drawn once per world.
#[derive(Debug, Clone, Copy)]
pub struct TerraNoises {
    pub material_seed: u32,
    pub ethereal_seed: u32,
}

impl TerraNoises {
    /// Seeds chosen by the caller, for a world that must be reproducible.
    pub fn with_seeds(material_seed: u32, ethereal_seed: u32) -> (noises: TerraNoises)
        ensures
            noises.material_seed == material_seed,
            noises.ethereal_seed == ethereal_seed,
    {
        TerraNoises { material_seed, ethereal_seed }
    }

    /// Fresh random seeds for a new world.
    pub fn new() -> (noises: TerraNoises) {
        let material_seed: u32 = draw_bits();
        let ethereal_seed: u32 = draw_bits();
        TerraNoises::with_seeds(material_seed, ethereal_seed)
    }
}

/// Installs the world's seeds when the game is assembled.
#[derive(Debug, Clone, Copy)]
pub struct TerraPlugin;

impl TerraPlugin {
    /// The resource this plugin contributes: the seeds of a new world.
    pub fn build(&self) -> (noises: TerraNoises) {
        TerraNoises::new()
    }
}

} // verus!
