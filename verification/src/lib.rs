//! A real-time control loop and simulation engine for a lattice of coupled
//! oscillators: a fixed-depth ring buffer of simulation states, a velocity
//! Verlet integrator over that ring buffer, a non-contiguous buffer view
//! ("rope") for gathering and scattering lattice data into flat buffers, and
//! a scheduler that overlaps a slow control computation with ongoing
//! simulation stepping.

pub mod coordinator;
pub mod dummy_system;
pub mod generator;
pub mod numeric;
pub mod rope;
pub mod sho;
pub mod simulation;
pub mod simulator;
pub mod system;
pub mod vector;

use vstd::prelude::*;

verus! {

/// The width of the scalar type used throughout the system.
#[derive(Debug, Copy, Clone)]
pub enum FloatType {
    /// A 32-bit scalar.
    F32,
    /// A 64-bit scalar.
    F64,
}

impl FloatType {
    /// The flat-array element specifier for the scalar type.
    pub fn type_char(self) -> (r: char)
        ensures
            r == (match self {
                FloatType::F32 => 'f',
                FloatType::F64 => 'd',
            }),
    {
        match self {
            FloatType::F32 => 'f',
            FloatType::F64 => 'd',
        }
    }
}

} // verus!
