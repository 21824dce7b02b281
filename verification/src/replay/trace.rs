//! The record of a run: which steps fired, in what order, and when.
use vstd::prelude::*;

use crate::harness::scenario::{ScenarioStep, StepView};

verus! {

/// A step as it fired. `wall_ns` is what the clock of the run read at that
/// moment, apart from the virtual time at which the step was due: under load
/// the two drift apart.
#[derive(Debug, Clone)]
pub struct TraceEvent {
    pub step: ScenarioStep,
    pub wall_ns: u64,
}

/// A `TraceEvent` with its step by view.
pub struct EventView {
    pub step: StepView,
    pub wall_ns: u64,
}

impl View for TraceEvent {
    type V = EventView;

    open spec fn view(&self) -> EventView {
        EventView { step: self.step@, wall_ns: self.wall_ns }
    }
}

/// What fired in a run.
#[derive(Debug, Clone)]
pub struct Trace {
    pub scenario_name: String,
    pub seed: u64,
    pub events: Vec<TraceEvent>,
}

/// A `Trace` by the views of its parts.
pub struct TraceView {
    pub scenario_name: Seq<char>,
    pub seed: u64,
    pub events: Seq<EventView>,
}

impl View for Trace {
    type V = TraceView;

    open spec fn view(&self) -> TraceView {
        TraceView {
            scenario_name: self.scenario_name@,
            seed: self.seed,
            events: self.events@.map_values(|event: TraceEvent| event@),
        }
    }
}

impl TraceView {
    /// The steps that fired, without their times.
    pub open spec fn steps(self) -> Seq<StepView> {
        self.events.map_values(|event: EventView| event.step)
    }

    /// Whether the two runs fired the same steps in the same order from the
    /// same seed. The times at which they fired may differ.
    pub open spec fn same_schedule(self, other: TraceView) -> bool {
        self.seed == other.seed && self.steps() == other.steps()
    }
}

impl Trace {
    pub fn new(scenario_name: &str, seed: u64) -> (r: Self)
        ensures
            r@ == (TraceView { scenario_name: scenario_name@, seed, events: Seq::empty() }),
    {
        let r = Trace { scenario_name: scenario_name.to_owned(), seed, events: Vec::new() };
        assert(r@.events =~= Seq::<EventView>::empty());
        r
    }

    /// Appends a step that fired.
    pub fn record(&mut self, step: ScenarioStep, wall_ns: u64)
        ensures
            final(self)@ == (TraceView {
                events: old(self)@.events.push(EventView { step: step@, wall_ns }),
                ..old(self)@
            }),
    {
        self.events.push(TraceEvent { step, wall_ns });
        assert(self@.events =~= old(self)@.events.push(EventView { step: step@, wall_ns }));
    }

    /// Whether `other` is a faithful replay of this run, or this one of it.
    pub fn matches_schedule(&self, other: &Trace) -> (r: bool)
        ensures
            r == self@.same_schedule(other@),
    {
        assert(self@.steps().len() == self.events@.len());
        assert(other@.steps().len() == other.events@.len());
        if self.seed != other.seed || self.events.len() != other.events.len() {
            return false;
        }
        let mut i: usize = 0;
        while i < self.events.len()
            invariant
                i <= self.events@.len(),
                self.events@.len() == other.events@.len(),
                self@.steps().len() == self.events@.len(),
                other@.steps().len() == other.events@.len(),
                forall|j: int| 0 <= j < i ==> self@.steps()[j] == other@.steps()[j],
            decreases self.events@.len() - i,
        {
            assert(self@.steps()[i as int] == self.events@[i as int].step@);
            assert(other@.steps()[i as int] == other.events@[i as int].step@);
            if !self.events[i].step.same_as(&other.events[i].step) {
                return false;
            }
            i = i + 1;
        }
        assert(self@.steps() =~= other@.steps());
        true
    }
}

/// A trace is a faithful replay of itself, a replay of a replay is one of the
/// first run, and it does not matter which of two runs came first.
pub proof fn law_replays_form_classes(a: TraceView, b: TraceView, c: TraceView)
    ensures
        a.same_schedule(a),
        a.same_schedule(b) == b.same_schedule(a),
        a.same_schedule(b) && b.same_schedule(c) ==> a.same_schedule(c),
{
}

/// Two traces match where they are of the same seed, have as many events, and
/// event by event their steps agree in the time at which they were due, in the
/// fault they name and in what they do to it; and only there. What the clock
/// read when a step fired, and the name of the scenario, do not count.
pub proof fn law_match_means_the_same_steps(one: Trace, other: Trace)
    ensures
        one@.same_schedule(other@) <==> {
            &&& one.seed == other.seed
            &&& one.events@.len() == other.events@.len()
            &&& forall|i: int|
                0 <= i < one.events@.len() ==> {
                    &&& (#[trigger] one.events@[i]).step.at_ns == other.events@[i].step.at_ns
                    &&& one.events@[i].step.fault_id@ == other.events@[i].step.fault_id@
                    &&& one.events@[i].step.action == other.events@[i].step.action
                }
        },
{
    let a = one@.steps();
    let b = other@.steps();
    assert(a.len() == one.events@.len() && b.len() == other.events@.len());
    assert forall|i: int| 0 <= i < one.events@.len() implies #[trigger] a[i]
        == one.events@[i].step@ by {}
    assert forall|i: int| 0 <= i < other.events@.len() implies #[trigger] b[i]
        == other.events@[i].step@ by {}
    if one@.same_schedule(other@) {
        assert forall|i: int| 0 <= i < one.events@.len() implies {
            &&& (#[trigger] one.events@[i]).step.at_ns == other.events@[i].step.at_ns
            &&& one.events@[i].step.fault_id@ == other.events@[i].step.fault_id@
            &&& one.events@[i].step.action == other.events@[i].step.action
        } by {
            assert(a[i] == b[i]);
            assert(a[i] == one.events@[i].step@);
            assert(b[i] == other.events@[i].step@);
        }
    } else if one.seed == other.seed && one.events@.len() == other.events@.len() {
        assert(!(a =~= b));
        let i = choose|i: int| 0 <= i < a.len() && a[i] != b[i];
        assert(a[i] == one.events@[i].step@);
        assert(b[i] == other.events@[i].step@);
    }
}

/// A trace shows of a run what its events hold: of each, the time the clock
/// read, and the step with its own time, fault and action.
pub proof fn law_trace_shows_what_was_recorded(trace: Trace)
    ensures
        trace@.seed == trace.seed,
        trace@.scenario_name == trace.scenario_name@,
        trace@.events.len() == trace.events@.len(),
        forall|i: int|
            0 <= i < trace.events@.len() ==> {
                &&& (#[trigger] trace@.events[i]).wall_ns == trace.events@[i].wall_ns
                &&& trace@.events[i].step.at_ns == trace.events@[i].step.at_ns
                &&& trace@.events[i].step.fault_id == trace.events@[i].step.fault_id@
                &&& trace@.events[i].step.action == trace.events@[i].step.action
                &&& trace@.steps()[i] == trace@.events[i].step
            },
{
}

} // verus!
