//! A trivial system whose state is its time alone, for exercising the
//! control loop without any physics.

use vstd::prelude::*;

verus! {

use crate::numeric::Fixed;

/// The trivial system: no controls, no dynamics beyond the clock.
#[derive(Debug, Clone, Copy)]
pub struct TrivialSystem;

/// A state predictor for the trivial system: the latest observation is
/// the whole state.
pub struct TrivialSystemStatePredictor;

impl TrivialSystemStatePredictor {
    /// Predicts the state as the most recent observation.
    pub fn predict_state(&mut self, observation: &Vec<Fixed>) -> (r: Fixed)
        requires
            observation@.len() > 0,
        ensures
            r == observation@.last(),
    {
        observation[observation.len() - 1]
    }
}

} // verus!
