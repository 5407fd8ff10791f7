//! The control-loop scheduler's decision core.
//!
//! Each iteration of the experiment loop reads the current observations,
//! asks the state predictor for an estimate, launches a control
//! computation if none is outstanding, and then races the outstanding
//! computation against one simulation step, cancelling neither: if the
//! computation finishes first its parameters are applied and the loop
//! returns to idle; if the step finishes first the same computation is
//! retained and raced again. The asynchronous plumbing around these
//! decisions lives outside the library; what is here is the decision
//! state and its transitions, so that the scheduling guarantees are
//! facts about this machine.

use vstd::prelude::*;

verus! {

/// The outcome of one race between the outstanding control computation
/// and one simulation step: exactly one of the two completes first.
#[derive(Debug, Copy, Clone, PartialEq, Eq, Structural)]
pub enum LoopEvent {
    /// The simulation step committed first; the computation is retained.
    StepCompleted,
    /// The control computation finished first; its result is applied.
    ControlsReady,
}

/// The decision state of the control loop, as mathematical integers.
pub struct LoopModel {
    /// The number of committed simulation steps.
    pub steps: int,
    /// Whether a control computation is outstanding.
    pub in_flight: bool,
    /// The step count at which the outstanding computation was launched.
    pub launch_step: int,
    /// The number of control results applied so far.
    pub applied: int,
}

/// How one race outcome transforms the decision state: a completed step
/// advances the step count and retains the outstanding computation; a
/// finished computation is applied and clears the outstanding slot.
pub open spec fn loop_transition(m: LoopModel, ev: LoopEvent) -> LoopModel {
    match ev {
        LoopEvent::StepCompleted => LoopModel {
            steps: m.steps + 1,
            in_flight: m.in_flight,
            launch_step: m.launch_step,
            applied: m.applied,
        },
        LoopEvent::ControlsReady => LoopModel {
            steps: m.steps,
            in_flight: false,
            launch_step: m.launch_step,
            applied: m.applied + 1,
        },
    }
}

/// The decision state after a sequence of race outcomes.
pub open spec fn loop_run(m: LoopModel, evs: Seq<LoopEvent>) -> LoopModel
    decreases evs.len(),
{
    if evs.len() == 0 {
        m
    } else {
        loop_transition(loop_run(m, evs.drop_last()), evs.last())
    }
}

/// Law: an outstanding computation survives every race it loses, and
/// each lost race commits exactly one simulation step: after `n` races
/// that all went to the simulation, the same computation is still the
/// one outstanding and the simulation has advanced by exactly `n` steps.
pub proof fn lemma_computation_retained(m: LoopModel, evs: Seq<LoopEvent>)
    requires
        m.in_flight,
        forall|t: int| 0 <= t < evs.len() ==> evs[t] == LoopEvent::StepCompleted,
    ensures
        loop_run(m, evs).in_flight,
        loop_run(m, evs).steps == m.steps + evs.len(),
        loop_run(m, evs).launch_step == m.launch_step,
        loop_run(m, evs).applied == m.applied,
    decreases evs.len(),
{
    if evs.len() > 0 {
        lemma_computation_retained(m, evs.drop_last());
    }
}

/// Law: a control computation whose result arrives only after `latency`
/// simulation steps is applied exactly once, and only after the
/// simulation has advanced at least `latency` steps past its launch; the
/// simulation is never blocked waiting for it.
pub proof fn lemma_apply_after_latency(m: LoopModel, evs: Seq<LoopEvent>, latency: int)
    requires
        m.in_flight,
        m.launch_step <= m.steps,
        evs.len() == latency,
        forall|t: int| 0 <= t < evs.len() ==> evs[t] == LoopEvent::StepCompleted,
    ensures
        ({
            let after = loop_transition(loop_run(m, evs), LoopEvent::ControlsReady);
            &&& !after.in_flight
            &&& after.steps - after.launch_step >= latency
            &&& after.applied == m.applied + 1
        }),
{
    lemma_computation_retained(m, evs);
}

/// The decision state of the control loop, as the scheduler holds it.
pub struct ControlLoop {
    /// The number of committed simulation steps.
    steps: u64,
    /// Whether a control computation is outstanding.
    in_flight: bool,
    /// The step count at which the outstanding computation was launched.
    launch_step: u64,
    /// The number of control results applied so far.
    applied: u64,
}

impl ControlLoop {
    /// The decision state as mathematical integers.
    pub closed spec fn model(self) -> LoopModel {
        LoopModel {
            steps: self.steps as int,
            in_flight: self.in_flight,
            launch_step: self.launch_step as int,
            applied: self.applied as int,
        }
    }

    /// Well-formed: an outstanding computation was launched no later
    /// than the current step.
    pub open spec fn wf(self) -> bool {
        self.model().in_flight ==> self.model().launch_step <= self.model().steps
    }

    /// An idle loop that has committed nothing.
    pub fn new() -> (r: ControlLoop)
        ensures
            r.wf(),
            r.model().steps == 0,
            !r.model().in_flight,
            r.model().applied == 0,
    {
        ControlLoop { steps: 0, in_flight: false, launch_step: 0, applied: 0 }
    }

    /// Opens one iteration: a fresh control computation is launched if
    /// and only if none is outstanding, so at most one is ever in
    /// flight. Returns whether the caller should start one.
    pub fn begin_iteration(&mut self) -> (launch: bool)
        requires
            old(self).wf(),
        ensures
            final(self).wf(),
            launch == !old(self).model().in_flight,
            final(self).model().in_flight,
            final(self).model().steps == old(self).model().steps,
            final(self).model().applied == old(self).model().applied,
            launch ==> final(self).model().launch_step == old(self).model().steps,
            !launch ==> final(self).model().launch_step == old(self).model().launch_step,
    {
        if self.in_flight {
            false
        } else {
            self.launch_step = self.steps;
            self.in_flight = true;
            true
        }
    }

    /// Records that the simulation step won the race: the step count
    /// advances and the outstanding computation is retained, not
    /// restarted and not cancelled.
    pub fn on_step_completed(&mut self)
        requires
            old(self).wf(),
            old(self).model().in_flight,
            old(self).model().steps < u64::MAX,
        ensures
            final(self).wf(),
            final(self).model() == loop_transition(old(self).model(), LoopEvent::StepCompleted),
    {
        self.steps = self.steps + 1;
    }

    /// Records that the control computation won the race: its result is
    /// applied and the loop returns to idle. Returns for how many
    /// committed steps the computation was in flight.
    pub fn on_controls_ready(&mut self) -> (raced_steps: u64)
        requires
            old(self).wf(),
            old(self).model().in_flight,
            old(self).model().applied < u64::MAX,
        ensures
            final(self).wf(),
            final(self).model() == loop_transition(old(self).model(), LoopEvent::ControlsReady),
            raced_steps == old(self).model().steps - old(self).model().launch_step,
    {
        self.in_flight = false;
        self.applied = self.applied + 1;
        self.steps - self.launch_step
    }
}

} // verus!
