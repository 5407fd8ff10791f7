//! The two-dimensional simple harmonic oscillator system: one driven
//! oscillator, its ring-buffer simulator, and its signal generator state.
//!
//! The oscillator obeys `x'' = -k·x + F(t)`, where `k` is the stiffness
//! and `F` the driving force the control signal supplies.

use vstd::prelude::*;

verus! {

use vstd::arithmetic::div_mod::lemma_mod_bound;
use crate::numeric::{fhalf, fixed_fits, fmul, Fixed, Numeric, SCALE};
use crate::system::DELAY_DEPTH;
use crate::vector::Vector;

/// The definition of the simple harmonic oscillator system.
#[derive(Debug, Clone, Copy)]
pub struct SimpleHarmonicOscillator<T> {
    /// The stiffness of the oscillator.
    pub stiffness: T,
    /// The reward decay speed.
    pub gamma: T,
}

/// The full state of the oscillator at one time.
#[derive(Debug, Clone, Copy)]
pub struct SHOSystemState<T> {
    /// The current system time.
    pub time: T,
    /// The position of the oscillator.
    pub position: Vector<T, 2>,
    /// The velocity of the oscillator.
    pub velocity: Vector<T, 2>,
}

/// The latent-space estimate of the oscillator state.
#[derive(Debug, Clone, Copy)]
pub struct SHOLatentState<T> {
    /// The current system time.
    pub time: T,
    /// The latent representation of the system state.
    pub latent_representation: Vector<T, 12>,
}

/// The control parameters a driver computes for the oscillator.
#[derive(Debug, Clone, Copy)]
pub struct SHOControlParams<T> {
    /// The parametrized control signal.
    pub control: T,
}

/// The deparametrized control signal: the force applied to the
/// oscillator.
#[derive(Debug, Clone, Copy)]
pub struct SHOControlSignal<T> {
    /// The force to be applied.
    pub control: Vector<T, 2>,
}

/// An observation of the oscillator and its controls at some time.
#[derive(Debug, Clone, Copy)]
pub struct SHOSystemObservation<T> {
    /// The current system time.
    pub time: T,
    /// The observed position.
    pub positions: Vector<T, 2>,
    /// The control signal applied in that slot.
    pub controls: SHOControlSignal<T>,
}

/// One component of the oscillator's acceleration: `(-p)·k + F`.
pub open spec fn sho_acc_elem(p: int, stiffness: int, control: int) -> int {
    fmul(-p, stiffness) + control
}

/// Whether every intermediate of [`sho_acc_elem`] is representable.
pub open spec fn sho_acc_fits(p: int, stiffness: int, control: int) -> bool {
    &&& fixed_fits(-p)
    &&& fixed_fits(fmul(-p, stiffness))
    &&& fixed_fits(sho_acc_elem(p, stiffness, control))
}

/// One component of the oscillator's position update:
/// `(p + v·dt) + (a·dt·dt)/2`.
pub open spec fn sho_pos_elem(p: int, v: int, a: int, dt: int) -> int {
    (p + fmul(v, dt)) + fhalf(fmul(fmul(a, dt), dt))
}

/// Whether every intermediate of [`sho_pos_elem`] is representable.
pub open spec fn sho_pos_fits(p: int, v: int, a: int, dt: int) -> bool {
    &&& fixed_fits(fmul(v, dt))
    &&& fixed_fits(p + fmul(v, dt))
    &&& fixed_fits(fmul(a, dt))
    &&& fixed_fits(fmul(fmul(a, dt), dt))
    &&& fixed_fits(sho_pos_elem(p, v, a, dt))
}

/// One component of the oscillator's velocity update:
/// `v + ((a1 + a2)/2)·dt`.
pub open spec fn sho_vel_elem(v: int, a1: int, a2: int, dt: int) -> int {
    v + fmul(fhalf(a1 + a2), dt)
}

/// Whether every intermediate of [`sho_vel_elem`] is representable.
pub open spec fn sho_vel_fits(v: int, a1: int, a2: int, dt: int) -> bool {
    &&& fixed_fits(a1 + a2)
    &&& fixed_fits(fmul(fhalf(a1 + a2), dt))
    &&& fixed_fits(sho_vel_elem(v, a1, a2, dt))
}

impl SHOSystemState<Fixed> {
    /// Computes the oscillator's acceleration under the given stiffness
    /// and driving force.
    pub fn compute_acceleration(&self, stiffness: Fixed, control: SHOControlSignal<Fixed>) -> (r:
        Vector<Fixed, 2>)
        requires
            forall|e: int|
                0 <= e < 2 ==> sho_acc_fits(
                    ((#[trigger] self.position@[e]))@,
                    stiffness@,
                    control.control@[e]@,
                ),
        ensures
            r@.len() == 2,
            forall|e: int|
                0 <= e < 2 ==> ((#[trigger] r@[e]))@ == sho_acc_elem(
                    self.position@[e]@,
                    stiffness@,
                    control.control@[e]@,
                ),
    {
        proof {
            assert forall|e: int| 0 <= e < 2 implies fixed_fits(
                -((#[trigger] self.position@[e]))@,
            ) by {
                assert(sho_acc_fits(self.position@[e]@, stiffness@, control.control@[e]@));
            }
        }
        let negated = self.position.neg();
        proof {
            assert forall|e: int| 0 <= e < 2 implies fixed_fits(
                fmul(((#[trigger] negated@[e]))@, stiffness@),
            ) by {
                assert(sho_acc_fits(self.position@[e]@, stiffness@, control.control@[e]@));
            }
        }
        let pull = negated.scale(stiffness);
        proof {
            assert forall|e: int| #![trigger pull@[e], control.control@[e]] 0 <= e < 2 implies
                i64::MIN <= pull@[e].as_int() + control.control@[e].as_int() <= i64::MAX by {
                assert(sho_acc_fits(self.position@[e]@, stiffness@, control.control@[e]@));
            }
        }
        pull.add(control.control)
    }
}

/// Whether one oscillator step from state `st` under the given stiffness,
/// current control, incoming control and timestep stays representable at
/// every intermediate value.
pub open spec fn sho_step_fits(
    st: SHOSystemState<Fixed>,
    ctrl_cur: SHOControlSignal<Fixed>,
    ctrl_new: SHOControlSignal<Fixed>,
    stiffness: int,
    dt: int,
) -> bool {
    &&& forall|e: int|
        0 <= e < 2 ==> sho_acc_fits(((#[trigger] st.position@[e]))@, stiffness, ctrl_cur.control@[e]@)
    &&& forall|e: int|
        0 <= e < 2 ==> sho_pos_fits(
            ((#[trigger] st.position@[e]))@,
            st.velocity@[e]@,
            sho_acc_elem(st.position@[e]@, stiffness, ctrl_cur.control@[e]@),
            dt,
        )
    &&& forall|e: int|
        0 <= e < 2 ==> sho_acc_fits(
            sho_pos_elem(
                ((#[trigger] st.position@[e]))@,
                st.velocity@[e]@,
                sho_acc_elem(st.position@[e]@, stiffness, ctrl_cur.control@[e]@),
                dt,
            ),
            stiffness,
            ctrl_new.control@[e]@,
        )
    &&& forall|e: int|
        0 <= e < 2 ==> sho_vel_fits(
            ((#[trigger] st.velocity@[e]))@,
            sho_acc_elem(st.position@[e]@, stiffness, ctrl_cur.control@[e]@),
            sho_acc_elem(
                sho_pos_elem(
                    st.position@[e]@,
                    st.velocity@[e]@,
                    sho_acc_elem(st.position@[e]@, stiffness, ctrl_cur.control@[e]@),
                    dt,
                ),
                stiffness,
                ctrl_new.control@[e]@,
            ),
            dt,
        )
    &&& fixed_fits(st.time@ + dt)
}

/// The ring-buffer simulator for the simple harmonic oscillator.
pub struct SHOSimulator {
    /// The last `DELAY_DEPTH + 1` states.
    states: Vec<SHOSystemState<Fixed>>,
    /// The last `DELAY_DEPTH + 1` applied control signals.
    controls: Vec<SHOControlSignal<Fixed>>,
    /// The index of the current state.
    offset: usize,
}

impl SHOSimulator {
    /// The retained states, by slot.
    pub closed spec fn states(self) -> Seq<SHOSystemState<Fixed>> {
        self.states@
    }

    /// The control signal recorded for each slot.
    pub closed spec fn controls(self) -> Seq<SHOControlSignal<Fixed>> {
        self.controls@
    }

    /// The current slot.
    pub closed spec fn offset_spec(self) -> int {
        self.offset as int
    }

    /// Well-formed: a full ring with the cursor in range.
    pub open spec fn wf(self) -> bool {
        &&& self.states().len() == DELAY_DEPTH + 1
        &&& self.controls().len() == DELAY_DEPTH + 1
        &&& 0 <= self.offset_spec() < DELAY_DEPTH + 1
    }

    /// A simulator at rest: zeroed states, with the unit force along the
    /// first axis recorded in every slot.
    pub fn new(_system: &SimpleHarmonicOscillator<Fixed>) -> (r: SHOSimulator)
        ensures
            r.wf(),
            r.offset_spec() == 0,
            forall|k: int|
                0 <= k < DELAY_DEPTH + 1 ==> {
                    let s = #[trigger] r.states()[k];
                    &&& s.time@ == 0
                    &&& s.position@[0]@ == 0 && s.position@[1]@ == 0
                    &&& s.velocity@[0]@ == 0 && s.velocity@[1]@ == 0
                },
            forall|k: int|
                0 <= k < DELAY_DEPTH + 1 ==> {
                    let c = #[trigger] r.controls()[k];
                    c.control@[0]@ == SCALE && c.control@[1]@ == 0
                },
    {
        let zero_state = SHOSystemState {
            time: Fixed::zero(),
            position: Vector::new([Fixed::zero(), Fixed::zero()]),
            velocity: Vector::new([Fixed::zero(), Fixed::zero()]),
        };
        let unit_control = SHOControlSignal { control: Vector::new([Fixed::one(), Fixed::zero()]) };
        let mut states: Vec<SHOSystemState<Fixed>> = Vec::new();
        let mut controls: Vec<SHOControlSignal<Fixed>> = Vec::new();
        let mut k: usize = 0;
        while k < DELAY_DEPTH + 1
            invariant
                k <= DELAY_DEPTH + 1,
                states@.len() == k,
                controls@.len() == k,
                forall|t: int| 0 <= t < k ==> #[trigger] states@[t] == zero_state,
                forall|t: int| 0 <= t < k ==> #[trigger] controls@[t] == unit_control,
                zero_state.time@ == 0,
                zero_state.position@[0]@ == 0 && zero_state.position@[1]@ == 0,
                zero_state.velocity@[0]@ == 0 && zero_state.velocity@[1]@ == 0,
                unit_control.control@[0]@ == SCALE && unit_control.control@[1]@ == 0,
            decreases DELAY_DEPTH + 1 - k,
        {
            states.push(zero_state);
            controls.push(unit_control);
            k += 1;
        }
        SHOSimulator { states, controls, offset: 0 }
    }

    /// The time of the current slot.
    pub fn get_time(&self) -> (r: Fixed)
        requires
            self.wf(),
        ensures
            r == self.states()[self.offset_spec()].time,
    {
        self.states[self.offset].time
    }

    /// The retained state in slot `k`.
    pub fn state_at(&self, k: usize) -> (r: SHOSystemState<Fixed>)
        requires
            self.wf(),
            k < DELAY_DEPTH + 1,
        ensures
            r == self.states()[k as int],
    {
        self.states[k]
    }

    /// Advances the oscillator by one timestep into the next slot: the
    /// incoming control signal is recorded there, the position advances
    /// under the acceleration of the current state, the velocity closes
    /// with the trapezoidal mean of the old and new accelerations, and
    /// the next slot becomes current.
    pub fn update(
        &mut self,
        system: &SimpleHarmonicOscillator<Fixed>,
        dt: Fixed,
        control_signal: &SHOControlSignal<Fixed>,
    )
        requires
            old(self).wf(),
            sho_step_fits(
                old(self).states()[old(self).offset_spec()],
                old(self).controls()[old(self).offset_spec()],
                *control_signal,
                system.stiffness@,
                dt@,
            ),
        ensures
            final(self).wf(),
            ({
                let cur = old(self).offset_spec();
                let nxt = (cur + 1) % (DELAY_DEPTH + 1);
                let s = old(self).states()[cur];
                let a1 = |e: int| sho_acc_elem(
                    s.position@[e]@,
                    system.stiffness@,
                    old(self).controls()[cur].control@[e]@,
                );
                let p2 = |e: int| sho_pos_elem(s.position@[e]@, s.velocity@[e]@, a1(e), dt@);
                let a2 = |e: int| sho_acc_elem(p2(e), system.stiffness@, control_signal.control@[e]@);
                &&& final(self).offset_spec() == nxt
                &&& final(self).states()[nxt].time@ == s.time@ + dt@
                &&& forall|e: int|
                    0 <= e < 2 ==> ((#[trigger] final(self).states()[nxt].position@[e]))@ == p2(e)
                &&& forall|e: int|
                    0 <= e < 2 ==> ((#[trigger] final(self).states()[nxt].velocity@[e]))@
                        == sho_vel_elem(s.velocity@[e]@, a1(e), a2(e), dt@)
                &&& final(self).controls() == old(self).controls().update(nxt, *control_signal)
                &&& forall|k: int|
                    0 <= k < DELAY_DEPTH + 1 && k != nxt ==> #[trigger] final(self).states()[k]
                        == old(self).states()[k]
            }),
    {
        let cur = self.offset;
        let next = (cur + 1) % (DELAY_DEPTH + 1);
        proof {
            lemma_mod_bound(cur as int + 1, DELAY_DEPTH as int + 1);
        }
        let ghost pre = *self;
        let cur_state = self.states[cur];
        let cur_control = self.controls[cur];
        self.controls.remove(next);
        self.controls.insert(next, *control_signal);
        proof {
            assert(self.controls@ =~= pre.controls@.update(next as int, *control_signal));
        }
        let prev_acc = cur_state.compute_acceleration(system.stiffness, cur_control);
        let new_time = cur_state.time.add(dt);
        proof {
            assert forall|e: int| 0 <= e < 2 implies fixed_fits(
                fmul(((#[trigger] cur_state.velocity@[e]))@, dt@),
            ) by {
                assert(sho_pos_fits(cur_state.position@[e]@, cur_state.velocity@[e]@,
                    sho_acc_elem(cur_state.position@[e]@, system.stiffness@,
                    cur_control.control@[e]@), dt@));
            }
        }
        let vdt = cur_state.velocity.scale(dt);
        proof {
            assert forall|e: int| #![trigger cur_state.position@[e], vdt@[e]] 0 <= e < 2 implies
                i64::MIN <= cur_state.position@[e].as_int() + vdt@[e].as_int() <= i64::MAX by {
                assert(sho_pos_fits(cur_state.position@[e]@, cur_state.velocity@[e]@,
                    sho_acc_elem(cur_state.position@[e]@, system.stiffness@,
                    cur_control.control@[e]@), dt@));
            }
            assert forall|e: int| 0 <= e < 2 implies fixed_fits(
                fmul(((#[trigger] prev_acc@[e]))@, dt@),
            ) by {
                assert(sho_pos_fits(cur_state.position@[e]@, cur_state.velocity@[e]@,
                    sho_acc_elem(cur_state.position@[e]@, system.stiffness@,
                    cur_control.control@[e]@), dt@));
            }
        }
        let pvdt = cur_state.position.add(vdt);
        let adt = prev_acc.scale(dt);
        proof {
            assert forall|e: int| 0 <= e < 2 implies fixed_fits(
                fmul(((#[trigger] adt@[e]))@, dt@),
            ) by {
                assert(sho_pos_fits(cur_state.position@[e]@, cur_state.velocity@[e]@,
                    sho_acc_elem(cur_state.position@[e]@, system.stiffness@,
                    cur_control.control@[e]@), dt@));
            }
        }
        let adt2 = adt.scale(dt).half();
        proof {
            assert forall|e: int| #![trigger pvdt@[e], adt2@[e]] 0 <= e < 2 implies i64::MIN
                <= pvdt@[e].as_int() + adt2@[e].as_int() <= i64::MAX by {
                assert(sho_pos_fits(cur_state.position@[e]@, cur_state.velocity@[e]@,
                    sho_acc_elem(cur_state.position@[e]@, system.stiffness@,
                    cur_control.control@[e]@), dt@));
            }
        }
        let new_position = pvdt.add(adt2);
        let stepped = SHOSystemState {
            time: new_time,
            position: new_position,
            velocity: cur_state.velocity,
        };
        proof {
            assert forall|e: int| 0 <= e < 2 implies sho_acc_fits(
                ((#[trigger] stepped.position@[e]))@,
                system.stiffness@,
                control_signal.control@[e]@,
            ) by {
                assert(sho_acc_fits(sho_pos_elem(cur_state.position@[e]@,
                    cur_state.velocity@[e]@, sho_acc_elem(cur_state.position@[e]@,
                    system.stiffness@, cur_control.control@[e]@), dt@), system.stiffness@,
                    control_signal.control@[e]@));
            }
        }
        let next_acc = stepped.compute_acceleration(system.stiffness, *control_signal);
        proof {
            assert forall|e: int| #![trigger prev_acc@[e], next_acc@[e]] 0 <= e < 2 implies
                i64::MIN <= prev_acc@[e].as_int() + next_acc@[e].as_int() <= i64::MAX by {
                assert(sho_vel_fits(cur_state.velocity@[e]@, sho_acc_elem(
                    cur_state.position@[e]@, system.stiffness@, cur_control.control@[e]@),
                    sho_acc_elem(sho_pos_elem(cur_state.position@[e]@, cur_state.velocity@[e]@,
                    sho_acc_elem(cur_state.position@[e]@, system.stiffness@,
                    cur_control.control@[e]@), dt@), system.stiffness@,
                    control_signal.control@[e]@), dt@));
            }
        }
        let mean_acc = prev_acc.add(next_acc).half();
        proof {
            assert forall|e: int| 0 <= e < 2 implies fixed_fits(
                fmul(((#[trigger] mean_acc@[e]))@, dt@),
            ) by {
                assert(sho_vel_fits(cur_state.velocity@[e]@, sho_acc_elem(
                    cur_state.position@[e]@, system.stiffness@, cur_control.control@[e]@),
                    sho_acc_elem(sho_pos_elem(cur_state.position@[e]@, cur_state.velocity@[e]@,
                    sho_acc_elem(cur_state.position@[e]@, system.stiffness@,
                    cur_control.control@[e]@), dt@), system.stiffness@,
                    control_signal.control@[e]@), dt@));
            }
        }
        let mean_dt = mean_acc.scale(dt);
        proof {
            assert forall|e: int| #![trigger cur_state.velocity@[e], mean_dt@[e]] 0 <= e < 2
                implies i64::MIN <= cur_state.velocity@[e].as_int() + mean_dt@[e].as_int()
                <= i64::MAX by {
                assert(sho_vel_fits(cur_state.velocity@[e]@, sho_acc_elem(
                    cur_state.position@[e]@, system.stiffness@, cur_control.control@[e]@),
                    sho_acc_elem(sho_pos_elem(cur_state.position@[e]@, cur_state.velocity@[e]@,
                    sho_acc_elem(cur_state.position@[e]@, system.stiffness@,
                    cur_control.control@[e]@), dt@), system.stiffness@,
                    control_signal.control@[e]@), dt@));
            }
        }
        let new_velocity = cur_state.velocity.add(mean_dt);
        let new_state = SHOSystemState {
            time: new_time,
            position: new_position,
            velocity: new_velocity,
        };
        self.states.remove(next);
        self.states.insert(next, new_state);
        proof {
            assert(self.states@ =~= pre.states@.update(next as int, new_state));
        }
        self.offset = next;
    }

    /// Derives the retained observations, oldest to newest, excluding the
    /// current slot.
    pub fn get_observations(&self) -> (r: Vec<SHOSystemObservation<Fixed>>)
        requires
            self.wf(),
        ensures
            r@.len() == DELAY_DEPTH,
            forall|k: int|
                0 <= k < DELAY_DEPTH ==> {
                    let s = self.states()[(self.offset_spec() + 1 + k) % (DELAY_DEPTH + 1)];
                    &&& (#[trigger] r@[k]).time == s.time
                    &&& r@[k].positions == s.position
                    &&& r@[k].controls == self.controls()[(self.offset_spec() + 1 + k)
                        % (DELAY_DEPTH + 1)]
                },
    {
        let mut out: Vec<SHOSystemObservation<Fixed>> = Vec::new();
        let mut k: usize = 0;
        while k < DELAY_DEPTH
            invariant
                k <= DELAY_DEPTH,
                self.wf(),
                out@.len() == k,
                forall|t: int|
                    0 <= t < k ==> {
                        let s = self.states()[(self.offset_spec() + 1 + t) % (DELAY_DEPTH + 1)];
                        &&& (#[trigger] out@[t]).time == s.time
                        &&& out@[t].positions == s.position
                        &&& out@[t].controls == self.controls()[(self.offset_spec() + 1 + t)
                            % (DELAY_DEPTH + 1)]
                    },
            decreases DELAY_DEPTH - k,
        {
            let slot = (self.offset + 1 + k) % (DELAY_DEPTH + 1);
            proof {
                lemma_mod_bound(self.offset_spec() + 1 + k, DELAY_DEPTH as int + 1);
            }
            let obs = SHOSystemObservation {
                time: self.states[slot].time,
                positions: self.states[slot].position,
                controls: self.controls[slot],
            };
            out.push(obs);
            k += 1;
        }
        out
    }

    /// The dynamics loss of the current state: the squared deviation of
    /// the squared radius from one, `((p0² + p1²) - 1)²`.
    pub fn get_dynamics_loss(&self) -> (r: Fixed)
        requires
            self.wf(),
            ({
                let p = self.states()[self.offset_spec()].position;
                &&& fixed_fits(fmul(p@[0]@, p@[0]@))
                &&& fixed_fits(fmul(p@[1]@, p@[1]@))
                &&& fixed_fits(fmul(p@[0]@, p@[0]@) + fmul(p@[1]@, p@[1]@))
                &&& fixed_fits(fmul(p@[0]@, p@[0]@) + fmul(p@[1]@, p@[1]@) - SCALE)
                &&& fixed_fits(
                    fmul(
                        fmul(p@[0]@, p@[0]@) + fmul(p@[1]@, p@[1]@) - SCALE,
                        fmul(p@[0]@, p@[0]@) + fmul(p@[1]@, p@[1]@) - SCALE,
                    ),
                )
            }),
        ensures
            ({
                let p = self.states()[self.offset_spec()].position;
                let dev = fmul(p@[0]@, p@[0]@) + fmul(p@[1]@, p@[1]@) - SCALE;
                r@ == fmul(dev, dev)
            }),
    {
        let p = self.states[self.offset].position;
        let p0 = p.get(0);
        let p1 = p.get(1);
        let radius2 = p0.mul(p0).add(p1.mul(p1));
        let dev = radius2.sub(Fixed::one());
        dev.mul(dev)
    }
}

/// The generator state for the oscillator: the last parameters and when
/// they were set. Deparametrizing them into a force direction takes
/// trigonometry on the machine floats and lives outside the library.
pub struct SHOGenerator<T> {
    /// The last time the generator was updated.
    pub time: T,
    /// The last controls supplied to the generator.
    pub controls: SHOControlParams<T>,
}

impl SHOGenerator<Fixed> {
    /// A generator with zero parameters.
    pub fn new(_system: &SimpleHarmonicOscillator<Fixed>) -> (r: SHOGenerator<Fixed>)
        ensures
            r.time@ == 0,
            r.controls.control@ == 0,
    {
        SHOGenerator { time: Fixed::zero(), controls: SHOControlParams { control: Fixed::zero() } }
    }

    /// Commits freshly computed control parameters at the given time.
    pub fn set_parameters(&mut self, controls: SHOControlParams<Fixed>, time: Fixed)
        ensures
            final(self).controls == controls,
            final(self).time == time,
    {
        self.time = time;
        self.controls = controls;
    }
}

} // verus!
