//! Structural checks on a scenario, before anything runs it.
use vstd::prelude::*;

use crate::harness::error::HarnessError;
use crate::harness::scenario;
use crate::harness::scenario::{Scenario, ScenarioStep, StepAction, StepView};
use crate::text;

#[allow(unused_imports)]
use crate::harness::error::ErrorView;

verus! {

/// Whether these steps leave the fault armed: the last of them that names it
/// arms it.
pub open spec fn left_armed(steps: Seq<StepView>, fault_id: Seq<char>) -> bool
    decreases steps.len(),
{
    if steps.len() == 0 {
        false
    } else if steps.last().fault_id == fault_id {
        steps.last().action == StepAction::Arm
    } else {
        left_armed(steps.drop_last(), fault_id)
    }
}

/// Why the last of these steps cannot follow the others, if it cannot: it is
/// due before its predecessor, arms what is armed, or disarms what is not.
pub open spec fn step_fault(steps: Seq<StepView>) -> Option<Seq<char>> {
    let step = steps.last();
    let before = steps.drop_last();
    if before.len() > 0 && step.at_ns < before.last().at_ns {
        Some(
            "step for "@ + step.fault_id + " at "@ + text::decimal_text(step.at_ns as nat)
                + "ns is out of order, previous step was at "@ + text::decimal_text(
                before.last().at_ns as nat,
            ) + "ns"@,
        )
    } else if step.action == StepAction::Arm && left_armed(before, step.fault_id) {
        Some("fault "@ + step.fault_id + " armed twice without an intervening disarm"@)
    } else if step.action == StepAction::Disarm && !left_armed(before, step.fault_id) {
        Some("fault "@ + step.fault_id + " disarmed but was never armed"@)
    } else {
        None
    }
}

/// What is wrong with the first step that cannot follow those before it.
pub open spec fn first_fault(steps: Seq<StepView>) -> Option<Seq<char>>
    decreases steps.len(),
{
    if steps.len() == 0 {
        None
    } else {
        match first_fault(steps.drop_last()) {
            Some(reason) => Some(reason),
            None => step_fault(steps),
        }
    }
}

/// A scenario whose steps are in order, and in which each fault is armed and
/// disarmed by turns. `validate` is the only way to get one.
pub struct ValidatedSchedule {
    scenario: Scenario,
}

fn out_of_order(step: &ScenarioStep, last_ns: u64) -> (r: String)
    ensures
        r@ == "step for "@ + step@.fault_id + " at "@ + text::decimal_text(step@.at_ns as nat)
            + "ns is out of order, previous step was at "@ + text::decimal_text(last_ns as nat)
            + "ns"@,
{
    let mut out = "step for ".to_owned();
    out.append(step.fault_id.as_str());
    out.append(" at ");
    text::append_decimal(&mut out, step.at_ns);
    out.append("ns is out of order, previous step was at ");
    text::append_decimal(&mut out, last_ns);
    out.append("ns");
    out
}

/// Whether the first `n` steps leave the fault armed.
fn is_left_armed(steps: &Vec<ScenarioStep>, n: usize, fault_id: &String) -> (r: bool)
    requires
        n <= steps@.len(),
    ensures
        r == left_armed(scenario::step_views(steps@).take(n as int), fault_id@),
{
    let ghost views = scenario::step_views(steps@);
    let mut k: usize = n;
    while k > 0
        invariant
            k <= n <= steps@.len(),
            views == scenario::step_views(steps@),
            left_armed(views.take(n as int), fault_id@) == left_armed(
                views.take(k as int),
                fault_id@,
            ),
        decreases k,
    {
        let step = &steps[k - 1];
        assert(views.take(k as int).last() == step@);
        assert(views.take(k as int).drop_last() =~= views.take(k - 1));
        if step.fault_id == *fault_id {
            return step.action == StepAction::Arm;
        }
        k = k - 1;
    }
    false
}

impl ValidatedSchedule {
    /// The scenario that was validated.
    pub closed spec fn scenario(self) -> Scenario {
        self.scenario
    }

    /// The steps of the schedule.
    pub open spec fn step_views(self) -> Seq<StepView> {
        scenario::step_views(self.scenario().steps@)
    }

    /// No step is out of place.
    #[verifier::type_invariant]
    pub open spec fn well_formed(self) -> bool {
        first_fault(self.step_views()) is None
    }

    /// Accepts a scenario in which no step is out of place; otherwise says what
    /// is wrong with the first that is.
    pub fn validate(scenario: Scenario) -> (r: Result<Self, HarnessError>)
        ensures
            match first_fault(scenario::step_views(scenario.steps@)) {
                None => r is Ok && r->Ok_0.scenario() == scenario,
                Some(reason) => r is Err && r->Err_0@ == ErrorView::InvalidScenario(reason),
            },
    {
        let ghost views = scenario::step_views(scenario.steps@);
        let mut i: usize = 0;
        assert(views.take(0) =~= Seq::<StepView>::empty());
        while i < scenario.steps.len()
            invariant
                i <= scenario.steps@.len(),
                views == scenario::step_views(scenario.steps@),
                first_fault(views.take(i as int)) is None,
            decreases scenario.steps@.len() - i,
        {
            let step = &scenario.steps[i];
            assert(views.take(i + 1).last() == step@);
            assert(views.take(i + 1).drop_last() =~= views.take(i as int));
            if i > 0 && step.at_ns < scenario.steps[i - 1].at_ns {
                let reason = out_of_order(step, scenario.steps[i - 1].at_ns);
                assert(step_fault(views.take(i + 1)) == Some(reason@));
                proof {
                    lemma_first_fault_stays(views, i + 1);
                }
                return Err(HarnessError::InvalidScenario(reason));
            }
            let armed: bool = is_left_armed(&scenario.steps, i, &step.fault_id);
            match step.action {
                StepAction::Arm => {
                    if armed {
                        let mut reason = "fault ".to_owned();
                        reason.append(step.fault_id.as_str());
                        reason.append(" armed twice without an intervening disarm");
                        assert(step_fault(views.take(i + 1)) == Some(reason@));
                        proof {
                            lemma_first_fault_stays(views, i + 1);
                        }
                        return Err(HarnessError::InvalidScenario(reason));
                    }
                },
                StepAction::Disarm => {
                    if !armed {
                        let mut reason = "fault ".to_owned();
                        reason.append(step.fault_id.as_str());
                        reason.append(" disarmed but was never armed");
                        assert(step_fault(views.take(i + 1)) == Some(reason@));
                        proof {
                            lemma_first_fault_stays(views, i + 1);
                        }
                        return Err(HarnessError::InvalidScenario(reason));
                    }
                },
            }
            i = i + 1;
        }
        assert(views.take(i as int) =~= views);
        Ok(ValidatedSchedule { scenario })
    }

    pub fn steps(&self) -> (r: &[ScenarioStep])
        ensures
            r@ == self.scenario().steps@,
            self.well_formed(),
    {
        proof {
            use_type_invariant(self);
        }
        self.scenario.steps.as_slice()
    }

    pub fn name(&self) -> (r: &str)
        ensures
            r@ == self.scenario().name@,
    {
        self.scenario.name.as_str()
    }

    pub fn seed(&self) -> (r: u64)
        ensures
            r == self.scenario().seed,
    {
        self.scenario.seed
    }
}

/// The first fault of the first `k` steps is the first fault of all of them.
proof fn lemma_first_fault_stays(steps: Seq<StepView>, k: int)
    requires
        0 <= k <= steps.len(),
        first_fault(steps.take(k)) is Some,
    ensures
        first_fault(steps) == first_fault(steps.take(k)),
    decreases steps.len(),
{
    if k == steps.len() {
        assert(steps.take(k) =~= steps);
    } else {
        assert(steps.drop_last().take(k) =~= steps.take(k));
        lemma_first_fault_stays(steps.drop_last(), k);
    }
}

proof fn lemma_prefix_is_well_formed(steps: Seq<StepView>, k: int)
    requires
        0 <= k <= steps.len(),
        first_fault(steps) is None,
    ensures
        first_fault(steps.take(k)) is None,
    decreases steps.len(),
{
    if k == steps.len() {
        assert(steps.take(k) =~= steps);
    } else {
        assert(steps.drop_last().take(k) =~= steps.take(k));
        lemma_prefix_is_well_formed(steps.drop_last(), k);
    }
}

/// The steps of a schedule are sorted by the time at which they are due.
pub proof fn law_schedule_is_sorted(steps: Seq<StepView>)
    requires
        first_fault(steps) is None,
    ensures
        forall|i: int, j: int| 0 <= i <= j < steps.len() ==> steps[i].at_ns <= steps[j].at_ns,
    decreases steps.len(),
{
    if steps.len() > 0 {
        let before = steps.drop_last();
        law_schedule_is_sorted(before);
        assert forall|i: int, j: int| 0 <= i <= j < steps.len() implies steps[i].at_ns
            <= steps[j].at_ns by {
            if j == steps.len() - 1 {
                if i < j {
                    assert(before[i].at_ns <= before[before.len() - 1].at_ns);
                }
            } else {
                assert(before[i].at_ns <= before[j].at_ns);
            }
        }
    }
}

/// In a schedule each fault is armed only while it is not, and disarmed only
/// while it is.
pub proof fn law_schedule_alternates(steps: Seq<StepView>, i: int)
    requires
        first_fault(steps) is None,
        0 <= i < steps.len(),
    ensures
        steps[i].action == StepAction::Arm <==> !left_armed(steps.take(i), steps[i].fault_id),
{
    lemma_prefix_is_well_formed(steps, i + 1);
    assert(steps.take(i + 1).last() == steps[i]);
    assert(steps.take(i + 1).drop_last() =~= steps.take(i));
}

/// Whether step `j` arms the fault, and none behind it, among the first `n`,
/// names that fault.
pub open spec fn arms_for_good(steps: Seq<StepView>, j: int, n: int, fault_id: Seq<char>) -> bool {
    &&& steps[j].fault_id == fault_id
    &&& steps[j].action == StepAction::Arm
    &&& forall|k: int| j < k < n ==> (#[trigger] steps[k]).fault_id != fault_id
}

/// Whether a fault is armed after the first `n` steps: one of them arms it, and
/// none behind that names it.
pub open spec fn armed_by(steps: Seq<StepView>, n: int, fault_id: Seq<char>) -> bool {
    exists|j: int| 0 <= j < n && #[trigger] arms_for_good(steps, j, n, fault_id)
}

/// Steps leave a fault armed where the last of them that names it arms it.
pub proof fn law_last_step_that_names_it_counts(steps: Seq<StepView>, n: int, fault_id: Seq<char>)
    requires
        0 <= n <= steps.len(),
    ensures
        left_armed(steps.take(n), fault_id) == armed_by(steps, n, fault_id),
    decreases n,
{
    if n > 0 {
        let last = steps[n - 1];
        assert(steps.take(n).last() == last);
        assert(steps.take(n).drop_last() =~= steps.take(n - 1));
        law_last_step_that_names_it_counts(steps, n - 1, fault_id);
        if last.fault_id == fault_id {
            if last.action == StepAction::Arm {
                assert(arms_for_good(steps, n - 1, n, fault_id));
            } else if armed_by(steps, n, fault_id) {
                let j = choose|j: int|
                    0 <= j < n && #[trigger] arms_for_good(steps, j, n, fault_id);
                assert(steps[n - 1].fault_id == fault_id);
            }
        } else {
            if armed_by(steps, n - 1, fault_id) {
                let j = choose|j: int|
                    0 <= j < n - 1 && #[trigger] arms_for_good(steps, j, n - 1, fault_id);
                assert(arms_for_good(steps, j, n, fault_id));
            }
            if armed_by(steps, n, fault_id) {
                let j = choose|j: int|
                    0 <= j < n && #[trigger] arms_for_good(steps, j, n, fault_id);
                assert(arms_for_good(steps, j, n - 1, fault_id));
            }
        }
    }
}

/// Whether step `i` may stand where it does: it is not due before the one in
/// front of it, and it arms a fault that is not armed or disarms one that is.
pub open spec fn is_in_place(steps: Seq<StepView>, i: int) -> bool {
    &&& i > 0 ==> steps[i - 1].at_ns <= steps[i].at_ns
    &&& steps[i].action == StepAction::Arm ==> !armed_by(steps, i, steps[i].fault_id)
    &&& steps[i].action == StepAction::Disarm ==> armed_by(steps, i, steps[i].fault_id)
}

/// A scenario is accepted where every step may stand where it does, and only
/// there.
pub proof fn law_accepted_means_in_order_and_by_turns(steps: Seq<StepView>)
    ensures
        first_fault(steps) is None <==> forall|i: int|
            0 <= i < steps.len() ==> #[trigger] is_in_place(steps, i),
{
    assert(steps.take(steps.len() as int) =~= steps);
    lemma_accepted(steps, steps.len() as int);
}

proof fn lemma_step_fault(steps: Seq<StepView>, i: int)
    requires
        0 <= i < steps.len(),
    ensures
        step_fault(steps.take(i + 1)) is None <==> is_in_place(steps, i),
{
    assert(steps.take(i + 1).last() == steps[i]);
    assert(steps.take(i + 1).drop_last() =~= steps.take(i));
    if i > 0 {
        assert(steps.take(i).last() == steps[i - 1]);
    }
    law_last_step_that_names_it_counts(steps, i, steps[i].fault_id);
}

proof fn lemma_accepted(steps: Seq<StepView>, n: int)
    requires
        0 <= n <= steps.len(),
    ensures
        first_fault(steps.take(n)) is None <==> forall|i: int|
            0 <= i < n ==> #[trigger] is_in_place(steps, i),
    decreases n,
{
    if n > 0 {
        lemma_accepted(steps, n - 1);
        assert(steps.take(n).drop_last() =~= steps.take(n - 1));
        lemma_step_fault(steps, n - 1);
    }
}

/// Whether this is what is said of step `n`: that it is out of order, or else
/// that it arms what is armed or disarms what is not.
pub open spec fn is_said_of(steps: Seq<StepView>, n: int, reason: Seq<char>) -> bool {
    let step = steps[n];
    if n > 0 && step.at_ns < steps[n - 1].at_ns {
        reason == "step for "@ + step.fault_id + " at "@ + text::decimal_text(step.at_ns as nat)
            + "ns is out of order, previous step was at "@ + text::decimal_text(
            steps[n - 1].at_ns as nat,
        ) + "ns"@
    } else if step.action == StepAction::Arm {
        armed_by(steps, n, step.fault_id) && reason == "fault "@ + step.fault_id
            + " armed twice without an intervening disarm"@
    } else {
        !armed_by(steps, n, step.fault_id) && reason == "fault "@ + step.fault_id
            + " disarmed but was never armed"@
    }
}

/// A scenario is refused for the first step that is out of place: those before
/// it would be accepted, and what is said is said of it.
pub proof fn law_refusal_is_about_the_first_bad_step(steps: Seq<StepView>)
    requires
        first_fault(steps) is Some,
    ensures
        exists|n: int|
            0 <= n < steps.len() && first_fault(steps.take(n)) is None && #[trigger] is_said_of(
                steps,
                n,
                first_fault(steps)->0,
            ),
    decreases steps.len(),
{
    let last = steps.len() - 1;
    let before = steps.drop_last();
    assert(before =~= steps.take(last));
    if first_fault(before) is Some {
        law_refusal_is_about_the_first_bad_step(before);
        let reason = first_fault(before)->0;
        let n = choose|n: int|
            0 <= n < before.len() && first_fault(before.take(n)) is None && #[trigger] is_said_of(
                before,
                n,
                reason,
            );
        assert(before.take(n) =~= steps.take(n));
        law_last_step_that_names_it_counts(before, n, before[n].fault_id);
        law_last_step_that_names_it_counts(steps, n, before[n].fault_id);
        assert(is_said_of(steps, n, reason));
    } else {
        law_last_step_that_names_it_counts(steps, last, steps[last].fault_id);
        assert(is_said_of(steps, last, first_fault(steps)->0));
    }
}

} // verus!
