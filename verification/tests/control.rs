use rtdriver::coordinator::ControlLoop;
use rtdriver::dummy_system::TrivialSystemStatePredictor;
use rtdriver::generator::{DummySignalGenerator, SignalGenerator};
use rtdriver::numeric::{Fixed, SCALE};
use rtdriver::sho::{
    SHOControlParams, SHOControlSignal, SHOGenerator, SHOSimulator, SimpleHarmonicOscillator,
};
use rtdriver::simulation::SimulationConfig;
use rtdriver::system::{ControlParameterState, ControlSignalState};
use rtdriver::vector::Vector;
use rtdriver::FloatType;

#[test]
fn control_loop_retains_computation() {
    let mut cl = ControlLoop::new();
    // idle: the first iteration launches the one outstanding computation
    assert!(cl.begin_iteration());
    // computing: later iterations never launch a second one
    assert!(!cl.begin_iteration());
    cl.on_step_completed();
    assert!(!cl.begin_iteration());
    cl.on_step_completed();
    cl.on_step_completed();
    // the result lands only after three committed steps raced past it
    let raced = cl.on_controls_ready();
    assert_eq!(raced, 3);
    // idle again: a new computation may launch
    assert!(cl.begin_iteration());
}

#[test]
fn generator_stores_parameters() {
    let config: SimulationConfig<Fixed, 2> = SimulationConfig {
        size: 2,
        stiffness: Fixed::from_raw(0),
        origin_stiffness: Fixed::from_raw(0),
    };
    let mut generator = SignalGenerator::new(config);
    let signal = generator.control_signal(Fixed::from_raw(0));
    assert_eq!(signal.0.len(), 4);
    assert!(signal.0.iter().all(|x| x.raw() == 0));
    generator.set_parameters(
        ControlParameterState::new(vec![Fixed::from_raw(5)]),
        Fixed::from_raw(10),
    );
    // committing parameters keeps the stored signal as it is
    let signal = generator.control_signal(Fixed::from_raw(10));
    assert_eq!(signal.0.len(), 4);
    assert!(signal.0.iter().all(|x| x.raw() == 0));
}

#[test]
fn dummy_generator_zero_signal() {
    let mut generator = DummySignalGenerator;
    let signal: ControlSignalState<Fixed, 2> = generator.control_signal(Fixed::from_raw(3));
    assert_eq!(signal.0.len(), 1);
    assert_eq!(signal.0[0].raw(), 0);
}

#[test]
fn fixed_point_arithmetic() {
    let one_and_half = Fixed::from_raw(1_500_000);
    assert_eq!(one_and_half.mul(one_and_half).raw(), 2_250_000);
    // halving and scaling truncate toward zero
    assert_eq!(Fixed::from_raw(-3).half().raw(), -1);
    assert_eq!(Fixed::from_raw(3).half().raw(), 1);
    assert_eq!(Fixed::from_raw(-3).mul(Fixed::from_raw(500_000)).raw(), -1);
    assert_eq!(Fixed::one().neg().mul(Fixed::from_raw(250_000)).raw(), -250_000);
    assert_eq!(Fixed::from_raw(7).add(Fixed::from_raw(-9)).raw(), -2);
    assert_eq!(Fixed::from_raw(7).sub(Fixed::from_raw(9)).raw(), -2);
    assert_eq!(Fixed::zero().raw(), 0);
    assert_eq!(Fixed::one().raw(), SCALE);
}

#[test]
fn float_type_specifiers() {
    assert_eq!(FloatType::F32.type_char(), 'f');
    assert_eq!(FloatType::F64.type_char(), 'd');
}

#[test]
fn trivial_predictor_takes_latest() {
    let mut predictor = TrivialSystemStatePredictor;
    let observations = vec![Fixed::from_raw(1), Fixed::from_raw(2), Fixed::from_raw(9)];
    assert_eq!(predictor.predict_state(&observations).raw(), 9);
}

#[test]
fn sho_update_steps_oscillator() {
    let system = SimpleHarmonicOscillator {
        stiffness: Fixed::one(),
        gamma: Fixed::from_raw(0),
    };
    let mut sim = SHOSimulator::new(&system);
    assert_eq!(sim.get_time().raw(), 0);
    let dt = Fixed::from_raw(SCALE / 10);
    let force = SHOControlSignal {
        control: Vector::new([Fixed::one(), Fixed::from_raw(0)]),
    };
    sim.update(&system, dt, &force);
    let s = sim.state_at(1);
    assert_eq!(s.time.raw(), 100_000);
    // x = 0 + 0·dt + 1.0·dt²/2 = 0.005 along the driven axis
    assert_eq!(s.position.as_array()[0].raw(), 5_000);
    assert_eq!(s.position.as_array()[1].raw(), 0);
    // v = 0 + ((1.0 + 0.995)/2)·dt: the new acceleration is -0.005 + 1.0
    assert_eq!(s.velocity.as_array()[0].raw(), 99_750);
    assert_eq!(sim.get_time().raw(), 100_000);
    let observations = sim.get_observations();
    assert_eq!(observations.len(), 3);
    // the slot before the current one is the state stepped from
    assert_eq!(observations[2].time.raw(), 0);
    assert_eq!(observations[2].controls.control.as_array()[0].raw(), SCALE);
}

#[test]
fn sho_dynamics_loss_at_rest() {
    let system = SimpleHarmonicOscillator {
        stiffness: Fixed::one(),
        gamma: Fixed::from_raw(0),
    };
    let sim = SHOSimulator::new(&system);
    // at the origin the squared radius misses one by one: loss (0-1)² = 1
    assert_eq!(sim.get_dynamics_loss().raw(), SCALE);
}

#[test]
fn sho_generator_stores_parameters() {
    let system = SimpleHarmonicOscillator {
        stiffness: Fixed::one(),
        gamma: Fixed::from_raw(0),
    };
    let mut generator = SHOGenerator::new(&system);
    assert_eq!(generator.controls.control.raw(), 0);
    generator.set_parameters(
        SHOControlParams { control: Fixed::from_raw(44) },
        Fixed::from_raw(7),
    );
    assert_eq!(generator.controls.control.raw(), 44);
    assert_eq!(generator.time.raw(), 7);
}
