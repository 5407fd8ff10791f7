//! The message and parameter types that flow between the driver, the
//! generator, the simulator and the state predictor for the coupled
//! harmonic oscillator lattice.

use vstd::prelude::*;

verus! {

use core::marker::PhantomData;
use crate::numeric::{Fixed, Numeric};
use crate::rope::{seg_views, Rope};
use crate::simulation::{flatten_points, points_flat, SimulationConfig};
use crate::vector::Vector;

/// The number of dimensions of the latent embedding of the system state.
pub const LATENT_SPACE_SHAPE: usize = 1024;

/// The number of previous observations and controls retained to make the
/// state estimation Markovian.
pub const DELAY_DEPTH: usize = 3;

/// The number of entries in the control signal the generator
/// deparametrizes for the lattice system.
pub const CONTROL_SIGNAL_SIZE: usize = 1;

/// The embedding of the system state in latent space.
#[derive(Debug, Clone)]
pub struct StateTensor<T, const DIMS: usize> {
    /// The system state time that this latent embedding represents.
    pub time: T,
    /// The latent space embedding of the system state.
    pub state: Vector<T, LATENT_SPACE_SHAPE>,
}

/// The control parameters output by the driver, to be fed into the
/// generator.
#[derive(Debug, Clone)]
pub struct ControlParameterState<T, const DIMS: usize>(pub Vec<T>);

impl<T, const DIMS: usize> ControlParameterState<T, DIMS> {
    /// Wraps raw parameter data.
    pub fn new(data: Vec<T>) -> (r: Self)
        ensures
            r.0@ == data@,
    {
        ControlParameterState(data)
    }
}

impl<T: Numeric, const DIMS: usize> ControlParameterState<T, DIMS> {
    /// The all-zero parameters of the shape the configuration calls for.
    pub fn default(config: SimulationConfig<T, DIMS>) -> (r: Self)
        requires
            config.size >= 1,
            config.size * 4 <= usize::MAX,
        ensures
            r.0@.len() == config.size * 4 - 4,
            forall|i: int| 0 <= i < r.0@.len() ==> (#[trigger] r.0@[i]).as_int() == 0,
    {
        ControlParameterState(zero_vec(config.size * 4 - 4))
    }
}

/// The control signal output by the generator, to be fed into the
/// simulator.
#[derive(Debug, Clone)]
pub struct ControlSignalState<T, const DIMS: usize>(pub Vec<T>);

impl<T, const DIMS: usize> ControlSignalState<T, DIMS> {
    /// Wraps raw signal data.
    pub fn new(data: Vec<T>) -> (r: Self)
        ensures
            r.0@ == data@,
    {
        ControlSignalState(data)
    }
}

impl<T: Numeric, const DIMS: usize> ControlSignalState<T, DIMS> {
    /// The all-zero signal of the shape the configuration calls for.
    pub fn default(config: SimulationConfig<T, DIMS>) -> (r: Self)
        requires
            config.size >= 1,
            config.size * 4 <= usize::MAX,
        ensures
            r.0@.len() == config.size * 4 - 4,
            forall|i: int| 0 <= i < r.0@.len() ==> (#[trigger] r.0@[i]).as_int() == 0,
    {
        ControlSignalState(zero_vec(config.size * 4 - 4))
    }
}

/// A vector of `n` zero scalars.
pub fn zero_vec<T: Numeric>(n: usize) -> (r: Vec<T>)
    ensures
        r@.len() == n,
        forall|i: int| 0 <= i < n ==> (#[trigger] r@[i]).as_int() == 0,
{
    let mut out: Vec<T> = Vec::new();
    let mut i: usize = 0;
    while i < n
        invariant
            i <= n,
            out@.len() == i,
            forall|t: int| 0 <= t < i ==> (#[trigger] out@[t]).as_int() == 0,
        decreases n - i,
    {
        out.push(T::num_zero());
        i += 1;
    }
    out
}

/// The observable portion of the lattice state: the boundary points.
#[derive(Debug, Clone)]
pub struct ObservableState<T, const DIMS: usize> {
    /// The observable position displacements.
    pub position: Vec<Vector<T, DIMS>>,
    /// The observable velocities.
    pub velocity: Vec<Vector<T, DIMS>>,
}

/// A single observation of the system and its controls at some time.
#[derive(Debug, Clone)]
pub struct Observation<T, const DIMS: usize> {
    /// The time of the observation.
    pub time: T,
    /// The observable state at that time.
    pub state: ObservableState<T, DIMS>,
    /// The control signal applied in that slot.
    pub controls: ControlSignalState<T, DIMS>,
}

impl<const DIMS: usize> Observation<Fixed, DIMS> {
    /// The observation's scalars as one rope: the rope over the
    /// observable positions and velocities, merged with the rope over the
    /// control signal. Only segment handles move in the merge.
    pub fn to_rope(&self) -> (r: Rope<Fixed>)
        requires
            self.state.position@.len() * DIMS + self.state.velocity@.len() * DIMS
                + self.controls.0@.len() <= usize::MAX,
        ensures
            r.wf(),
            r.segs().len() == 3,
            r.segs()[0] == points_flat(self.state.position@),
            r.segs()[1] == points_flat(self.state.velocity@),
            r.segs()[2] == self.controls.0@,
    {
        proof {
            assert(self.state.position@.len() * DIMS >= 0 && self.state.velocity@.len() * DIMS
                >= 0) by (nonlinear_arith);
        }
        let pos = flatten_points(&self.state.position);
        let vel = flatten_points(&self.state.velocity);
        let mut state_data: Vec<Vec<Fixed>> = Vec::new();
        state_data.push(pos);
        state_data.push(vel);
        proof {
            let segs = seg_views(state_data@);
            assert(segs.len() == 2);
            assert(segs.take(1) =~= seq![segs[0]]);
            seq![segs[0]].lemma_flatten_one_element();
            assert(segs =~= segs.take(1).push(segs[1]));
            segs.take(1).lemma_flatten_push(segs[1]);
        }
        let state_rope = Rope::new(state_data);
        let mut signal: Vec<Fixed> = Vec::new();
        let mut i: usize = 0;
        let n = self.controls.0.len();
        while i < n
            invariant
                i <= n,
                n == self.controls.0@.len(),
                signal@ == self.controls.0@.take(i as int),
            decreases n - i,
        {
            signal.push(self.controls.0[i]);
            proof {
                assert(self.controls.0@.take(i + 1) =~= self.controls.0@.take(i as int).push(
                    self.controls.0@[i as int],
                ));
            }
            i += 1;
        }
        proof {
            assert(self.controls.0@.take(n as int) =~= self.controls.0@);
        }
        let mut controls_data: Vec<Vec<Fixed>> = Vec::new();
        controls_data.push(signal);
        proof {
            let segs = seg_views(controls_data@);
            assert(segs =~= seq![segs[0]]);
            seq![segs[0]].lemma_flatten_one_element();
        }
        let controls_rope = Rope::new(controls_data);
        state_rope.merge(controls_rope)
    }
}

/// The configuration of one experiment run.
#[derive(Debug, Copy, Clone)]
pub struct ExperimentConfig<T> {
    /// The time to evolve per simulation step.
    pub dt: T,
}

/// The system of a `DIMS`-dimensional lattice of coupled harmonic
/// oscillators.
#[derive(Debug, Default)]
pub struct CoupledHarmonicOscillator<T, const DIMS: usize>(pub PhantomData<[T; DIMS]>);

} // verus!
