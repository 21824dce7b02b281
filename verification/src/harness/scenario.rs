//! A scenario: which fault is armed and disarmed, and when.
use vstd::prelude::*;

verus! {

/// What a step does to its fault.
#[derive(Debug, Clone, Copy, PartialEq, Eq, Structural)]
pub enum StepAction {
    Arm,
    Disarm,
}

/// One step of a scenario.
#[derive(Debug, PartialEq, Eq)]
pub struct ScenarioStep {
    pub at_ns: u64,
    pub fault_id: String,
    pub action: StepAction,
}

/// A `ScenarioStep` with its id as a sequence.
pub struct StepView {
    pub at_ns: u64,
    pub fault_id: Seq<char>,
    pub action: StepAction,
}

impl View for ScenarioStep {
    type V = StepView;

    open spec fn view(&self) -> StepView {
        StepView { at_ns: self.at_ns, fault_id: self.fault_id@, action: self.action }
    }
}

impl Clone for ScenarioStep {
    fn clone(&self) -> (r: Self)
        ensures
            r == *self,
    {
        ScenarioStep { at_ns: self.at_ns, fault_id: self.fault_id.clone(), action: self.action }
    }
}

impl ScenarioStep {
    /// Whether the two steps do the same thing to the same fault at the same
    /// time.
    pub fn same_as(&self, other: &ScenarioStep) -> (r: bool)
        ensures
            r == (self@ == other@),
    {
        self.at_ns == other.at_ns && self.action == other.action && self.fault_id
            == other.fault_id
    }
}

/// The steps of a sequence, each by its view.
pub open spec fn step_views(steps: Seq<ScenarioStep>) -> Seq<StepView> {
    steps.map_values(|step: ScenarioStep| step@)
}

/// A named, seeded list of steps.
#[derive(Debug, Clone)]
pub struct Scenario {
    pub name: String,
    pub seed: u64,
    pub steps: Vec<ScenarioStep>,
}

} // verus!
