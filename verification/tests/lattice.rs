use rtdriver::numeric::{Fixed, SCALE};
use rtdriver::simulation::{
    compute_boundary_size, deindex, index, ObservableSimulationState, SimulationConfig,
    SimulationState,
};
use rtdriver::simulator::RustSimulator;
use rtdriver::system::{ControlSignalState, DELAY_DEPTH};
use rtdriver::vector::Vector;

fn zero_config<const DIMS: usize>(size: usize) -> SimulationConfig<Fixed, DIMS> {
    SimulationConfig {
        size,
        stiffness: Fixed::from_raw(0),
        origin_stiffness: Fixed::from_raw(0),
    }
}

#[test]
fn index_deindex_round_trip() {
    for i in 0..9usize {
        let c = deindex::<2>(i, 3);
        assert_eq!(index::<2>(c, 3), i);
    }
    for i in 0..27usize {
        let c = deindex::<3>(i, 3);
        assert_eq!(index::<3>(c, 3), i);
    }
    assert_eq!(deindex::<2>(5, 3).into_array(), [1, 2]);
    assert_eq!(index::<2>(Vector::new([1, 2]), 3), 5);
}

#[test]
fn one_update_single_axis_lattice() {
    // A 1-D lattice of four points: no neighbor coupling, unit pull
    // toward the origin, the first point displaced by one unit, with the
    // matching initial acceleration of minus one unit.
    let config = SimulationConfig {
        size: 4,
        stiffness: Fixed::from_raw(0),
        origin_stiffness: Fixed::from_raw(SCALE),
    };
    let mut sim = RustSimulator::<1>::new(config);
    let displaced = SimulationState {
        time: Fixed::from_raw(0),
        size: 4,
        stiffness: Fixed::from_raw(0),
        origin_stiffness: Fixed::from_raw(SCALE),
        position: vec![
            Vector::new([Fixed::from_raw(SCALE)]),
            Vector::new([Fixed::from_raw(0)]),
            Vector::new([Fixed::from_raw(0)]),
            Vector::new([Fixed::from_raw(0)]),
        ],
        velocity: vec![Vector::new([Fixed::from_raw(0)]); 4],
        acceleration: vec![
            Vector::new([Fixed::from_raw(-SCALE)]),
            Vector::new([Fixed::from_raw(0)]),
            Vector::new([Fixed::from_raw(0)]),
            Vector::new([Fixed::from_raw(0)]),
        ],
    };
    sim.replace_state(0, displaced);

    let dt = Fixed::from_raw(SCALE / 10);
    sim.update(dt, &ControlSignalState::new(Vec::new()));

    let stepped = sim.state_at(0);
    // the acceleration of the stepped state: minus one at the displaced
    // point, zero everywhere else
    assert_eq!(stepped.acceleration[0].as_array()[0].raw(), -SCALE);
    for i in 1..4 {
        assert_eq!(stepped.acceleration[i].as_array()[0].raw(), 0);
    }
    // position[0] = 1.0 + 0·dt - 0.5·dt² = 0.995, exactly in fixed point
    assert_eq!(stepped.position[0].as_array()[0].raw(), 995_000);
    for i in 1..4 {
        assert_eq!(stepped.position[i].as_array()[0].raw(), 0);
    }
    // the velocity closes on the mean of the old and new accelerations
    assert_eq!(stepped.velocity[0].as_array()[0].raw(), -99_750);

    // the slot that became current holds the new force and the new time
    let current = sim.state_at(1);
    assert_eq!(current.acceleration[0].as_array()[0].raw(), -995_000);
    assert_eq!(current.time.raw(), 100_000);
    assert_eq!(sim.get_time().raw(), 100_000);
}

#[test]
fn neighbor_coupling_pulls_down_the_axis() {
    // Two points on one axis, pure neighbor coupling: only the point at
    // coordinate one has a lower neighbor, so only it feels a force.
    let config = SimulationConfig {
        size: 2,
        stiffness: Fixed::from_raw(SCALE),
        origin_stiffness: Fixed::from_raw(0),
    };
    let mut sim = RustSimulator::<1>::new(config);
    let displaced = SimulationState {
        time: Fixed::from_raw(0),
        size: 2,
        stiffness: Fixed::from_raw(SCALE),
        origin_stiffness: Fixed::from_raw(0),
        position: vec![
            Vector::new([Fixed::from_raw(SCALE)]),
            Vector::new([Fixed::from_raw(0)]),
        ],
        velocity: vec![Vector::new([Fixed::from_raw(0)]); 2],
        acceleration: vec![Vector::new([Fixed::from_raw(0)]); 2],
    };
    sim.replace_state(0, displaced);
    sim.update(Fixed::from_raw(SCALE / 10), &ControlSignalState::new(Vec::new()));

    let current = sim.state_at(1);
    // the open boundary: point zero has no lower neighbor, no force
    assert_eq!(current.acceleration[0].as_array()[0].raw(), 0);
    // point one is pulled toward its lower neighbor: (1.0 - 0.0)·1.0
    assert_eq!(current.acceleration[1].as_array()[0].raw(), SCALE);
}

#[test]
fn time_advances_by_dt_each_update() {
    let mut sim = RustSimulator::<2>::new(zero_config(2));
    let sig = ControlSignalState::new(Vec::new());
    let dt = Fixed::from_raw(7);
    for n in 1..=5 {
        sim.update(dt, &sig);
        assert_eq!(sim.get_time().raw(), 7 * n);
        assert_eq!(sim.get_observations().len(), DELAY_DEPTH);
    }
}

#[test]
fn observations_exclude_current_slot() {
    let mut sim = RustSimulator::<2>::new(zero_config(2));
    let dt = Fixed::from_raw(SCALE / 4);
    let sig = ControlSignalState::new(vec![
        Fixed::from_raw(1),
        Fixed::from_raw(2),
        Fixed::from_raw(3),
        Fixed::from_raw(4),
    ]);
    assert_eq!(DELAY_DEPTH, 3);
    for _ in 0..3 {
        sim.update(dt, &sig);
    }
    let obs = sim.get_observations();
    assert_eq!(obs.len(), DELAY_DEPTH);
    // oldest to newest: the initial slot, then the first two steps; the
    // just-computed current slot is excluded
    assert_eq!(obs[0].time.raw(), 0);
    assert_eq!(obs[1].time.raw(), 250_000);
    assert_eq!(obs[2].time.raw(), 500_000);
    // on a side-2 lattice every point is on the boundary
    assert_eq!(obs[2].state.position.len(), 4);
    assert_eq!(obs[2].state.velocity.len(), 4);
    // the initial slot still carries the zero signal of the constructor;
    // the next slots carry the signal the updates applied
    assert_eq!(obs[0].controls.0.len(), 4);
    assert_eq!(obs[0].controls.0[0].raw(), 0);
    assert_eq!(obs[1].controls.0[0].raw(), 1);
    assert_eq!(obs[2].controls.0[3].raw(), 4);
}

#[test]
fn observe_projects_boundary() {
    // A 3x3 lattice: the boundary ring is every point but the center,
    // in flat-index order.
    let mut position = Vec::new();
    for i in 0..9i64 {
        position.push(Vector::new([Fixed::from_raw(i), Fixed::from_raw(0)]));
    }
    let state = SimulationState {
        time: Fixed::from_raw(0),
        size: 3,
        stiffness: Fixed::from_raw(0),
        origin_stiffness: Fixed::from_raw(0),
        position,
        velocity: vec![Vector::new([Fixed::from_raw(0), Fixed::from_raw(0)]); 9],
        acceleration: vec![Vector::new([Fixed::from_raw(0), Fixed::from_raw(0)]); 9],
    };
    let mut observable = ObservableSimulationState::new(zero_config::<2>(3));
    assert_eq!(observable.position.len(), 8);
    state.observe(&mut observable);
    let values: Vec<i64> = observable
        .position
        .iter()
        .map(|v| v.as_array()[0].raw())
        .collect();
    assert_eq!(values, vec![0, 1, 2, 3, 5, 6, 7, 8]);
    assert_eq!(observable.velocity.len(), 9 - 1);
    assert_eq!(compute_boundary_size(3), 8);
}

#[test]
fn state_gather_scatter_round_trip() {
    // A 2x2 two-axis lattice: four points, eight scalars per array.
    let mut position = Vec::new();
    let mut velocity = Vec::new();
    let mut acceleration = Vec::new();
    for i in 0..4i64 {
        position.push(Vector::new([Fixed::from_raw(i), Fixed::from_raw(10 + i)]));
        velocity.push(Vector::new([Fixed::from_raw(100 + i), Fixed::from_raw(110 + i)]));
        acceleration.push(Vector::new([Fixed::from_raw(200 + i), Fixed::from_raw(210 + i)]));
    }
    let state = SimulationState {
        time: Fixed::from_raw(0),
        size: 2,
        stiffness: Fixed::from_raw(0),
        origin_stiffness: Fixed::from_raw(0),
        position,
        velocity,
        acceleration,
    };
    let rope = state.to_rope();
    assert_eq!(rope.len(), 24);
    let flat = rope.to_vec();
    assert_eq!(flat[0].raw(), 0);
    assert_eq!(flat[1].raw(), 10);
    assert_eq!(flat[8].raw(), 100);
    assert_eq!(flat[23].raw(), 213);

    // scattering the gathered buffer into a fresh state reproduces it
    let mut restored = SimulationState::new(zero_config::<2>(2));
    restored.copy_from_slice(&flat);
    for i in 0..4usize {
        assert_eq!(
            restored.position[i].as_array()[0].raw(),
            state.position[i].as_array()[0].raw()
        );
        assert_eq!(
            restored.velocity[i].as_array()[1].raw(),
            state.velocity[i].as_array()[1].raw()
        );
        assert_eq!(
            restored.acceleration[i].as_array()[1].raw(),
            state.acceleration[i].as_array()[1].raw()
        );
    }
    let again = restored.to_rope().to_vec();
    assert_eq!(
        flat.iter().map(|x| x.raw()).collect::<Vec<_>>(),
        again.iter().map(|x| x.raw()).collect::<Vec<_>>()
    );
}

#[test]
fn observation_rope_merges_state_and_controls() {
    let mut sim = RustSimulator::<2>::new(zero_config(2));
    let sig = ControlSignalState::new(vec![Fixed::from_raw(42)]);
    sim.update(Fixed::from_raw(5), &sig);
    sim.update(Fixed::from_raw(5), &sig);
    // the newest retained slot is the one the first update filled
    let obs = sim.get_observations();
    // 4 boundary points of 2 components each, twice, plus one control
    let rope = obs[2].to_rope();
    assert_eq!(rope.len(), 8 + 8 + 1);
    assert_eq!(rope.get(16).raw(), 42);
}

#[test]
fn checked_update_guards_the_budget() {
    let mut sim = RustSimulator::<2>::new(zero_config(2));
    let sig = ControlSignalState::new(Vec::new());
    // a timestep beyond one unit is refused and changes nothing
    assert!(!sim.update_checked(Fixed::from_raw(SCALE + 1), &sig));
    assert_eq!(sim.get_time().raw(), 0);
    // a budgeted step advances exactly like update
    assert!(sim.update_checked(Fixed::from_raw(SCALE / 10), &sig));
    assert_eq!(sim.get_time().raw(), SCALE / 10);
    // a state outside the magnitude budget is refused
    let mut oversized = RustSimulator::<1>::new(zero_config(2));
    let sig1: ControlSignalState<Fixed, 1> = ControlSignalState::new(Vec::new());
    let huge = SimulationState {
        time: Fixed::from_raw(0),
        size: 2,
        stiffness: Fixed::from_raw(0),
        origin_stiffness: Fixed::from_raw(0),
        position: vec![Vector::new([Fixed::from_raw(i64::MAX / 2)]); 2],
        velocity: vec![Vector::new([Fixed::from_raw(0)]); 2],
        acceleration: vec![Vector::new([Fixed::from_raw(0)]); 2],
    };
    oversized.replace_state(0, huge);
    assert!(!oversized.update_checked(Fixed::from_raw(1), &sig1));
}
