//! The signal generator: holds the last control parameters the driver
//! computed and hands the simulator a control signal derived from them.

use vstd::prelude::*;

verus! {

use crate::numeric::Numeric;
use crate::simulation::SimulationConfig;
use crate::system::{ControlParameterState, ControlSignalState, CONTROL_SIGNAL_SIZE};

/// Generates a signal from the last set control parameters and the time
/// at which they were set.
pub struct SignalGenerator<T, const DIMS: usize> {
    /// The last control parameters the driver supplied.
    params: ControlParameterState<T, DIMS>,
    /// The time at which they were supplied.
    time: T,
    /// The signal handed to the simulator.
    signal: ControlSignalState<T, DIMS>,
}

impl<T, const DIMS: usize> SignalGenerator<T, DIMS> {
    /// The stored control parameters.
    pub closed spec fn params(self) -> Seq<T> {
        self.params.0@
    }

    /// The time the parameters were stored at.
    pub closed spec fn time(self) -> T {
        self.time
    }

    /// The stored signal.
    pub closed spec fn signal(self) -> Seq<T> {
        self.signal.0@
    }
}

impl<T: Numeric, const DIMS: usize> SignalGenerator<T, DIMS> {
    /// A generator with zero parameters and a zero signal.
    pub fn new(config: SimulationConfig<T, DIMS>) -> (r: Self)
        requires
            config.size >= 1,
            config.size * 4 <= usize::MAX,
        ensures
            r.params().len() == config.size * 4 - 4,
            forall|i: int| 0 <= i < r.params().len() ==> (#[trigger] r.params()[i]).as_int() == 0,
            r.time().as_int() == 0,
            r.signal().len() == config.size * 4 - 4,
            forall|i: int| 0 <= i < r.signal().len() ==> (#[trigger] r.signal()[i]).as_int() == 0,
    {
        SignalGenerator {
            params: ControlParameterState::default(config),
            time: T::num_zero(),
            signal: ControlSignalState::default(config),
        }
    }

    /// Commits freshly computed control parameters, together with the
    /// simulation time at which they arrived; the stored signal is kept.
    pub fn set_parameters(&mut self, controls: ControlParameterState<T, DIMS>, time: T)
        ensures
            final(self).params() == controls.0@,
            final(self).time() == time,
            final(self).signal() == old(self).signal(),
    {
        self.params = controls;
        self.time = time;
    }
}

impl<T: Copy, const DIMS: usize> SignalGenerator<T, DIMS> {
    /// The control signal for the given time: the stored signal, which a
    /// simulation step may read while a control computation is still in
    /// flight.
    pub fn control_signal(&mut self, _time: T) -> (r: ControlSignalState<T, DIMS>)
        ensures
            *final(self) == *old(self),
            r.0@ == old(self).signal(),
    {
        let mut data: Vec<T> = Vec::new();
        let mut i: usize = 0;
        let n = self.signal.0.len();
        while i < n
            invariant
                i <= n,
                n == self.signal.0@.len(),
                data@ == self.signal.0@.take(i as int),
            decreases n - i,
        {
            data.push(self.signal.0[i]);
            proof {
                assert(self.signal.0@.take(i + 1) =~= self.signal.0@.take(i as int).push(
                    self.signal.0@[i as int],
                ));
            }
            i += 1;
        }
        proof {
            assert(self.signal.0@.take(n as int) =~= self.signal.0@);
        }
        ControlSignalState::new(data)
    }
}

/// Produces a constant zero signal, whatever parameters it is given.
pub struct DummySignalGenerator;

impl DummySignalGenerator {
    /// Accepts and discards control parameters.
    pub fn set_parameters<T, const DIMS: usize>(
        &mut self,
        _controls: ControlParameterState<T, DIMS>,
        _time: T,
    )
    {
    }

    /// The zero signal of the system's fixed signal width.
    pub fn control_signal<T: Numeric, const DIMS: usize>(&mut self, _time: T) -> (r:
        ControlSignalState<T, DIMS>)
        ensures
            r.0@.len() == CONTROL_SIGNAL_SIZE,
            forall|i: int| 0 <= i < r.0@.len() ==> (#[trigger] r.0@[i]).as_int() == 0,
    {
        ControlSignalState::new(crate::system::zero_vec(CONTROL_SIGNAL_SIZE))
    }
}

} // verus!
