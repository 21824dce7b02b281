//! What a run does, step by step: whom it calls, what it leaves armed, and what
//! it records.
use vstd::prelude::*;

use crate::harness::error::ErrorView;
use crate::harness::fault::{Call, FaultContext};
use crate::harness::scenario::{StepAction, StepView};
use crate::replay::registry;
use crate::replay::registry::InjectorRegistry;
use crate::replay::runner;
use crate::replay::runner_laws;
use crate::replay::schedule;
use crate::replay::schedule::ValidatedSchedule;
use crate::replay::trace::{EventView, TraceView};

verus! {

/// A schedule is run where each of its steps names a registered injector;
/// otherwise the first that does not is named.
pub proof fn law_every_step_needs_an_injector(steps: Seq<StepView>, ids: Set<Seq<char>>)
    ensures
        match runner::first_unregistered(steps, ids) {
            None => forall|i: int|
                0 <= i < steps.len() ==> ids.contains((#[trigger] steps[i]).fault_id),
            Some(id) => exists|i: int|
                0 <= i < steps.len() && (#[trigger] steps[i]).fault_id == id && !ids.contains(id)
                    && forall|j: int|
                    0 <= j < i ==> ids.contains((#[trigger] steps[j]).fault_id),
        },
    decreases steps.len(),
{
    if steps.len() > 0 {
        let before = steps.drop_last();
        let last = steps.len() - 1;
        law_every_step_needs_an_injector(before, ids);
        assert(steps[last] == steps.last());
        match runner::first_unregistered(before, ids) {
            Some(id) => {
                let i = choose|i: int|
                    0 <= i < before.len() && (#[trigger] before[i]).fault_id == id && !ids.contains(
                        id,
                    ) && forall|j: int|
                        0 <= j < i ==> ids.contains((#[trigger] before[j]).fault_id);
                assert(steps[i] == before[i]);
                assert forall|j: int| 0 <= j < i implies ids.contains(
                    (#[trigger] steps[j]).fault_id,
                ) by {
                    assert(steps[j] == before[j]);
                }
            },
            None => {
                assert forall|j: int| 0 <= j < last implies ids.contains(
                    (#[trigger] steps[j]).fault_id,
                ) by {
                    assert(steps[j] == before[j]);
                }
            },
        }
    }
}

/// The calls that steps make to an injector: one for each step that names it,
/// in their order, to arm it with the context of the run where the step arms,
/// and to disarm it where the step disarms.
pub proof fn law_calls_follow_the_steps(
    steps: Seq<StepView>,
    step: StepView,
    ctx: FaultContext,
    id: Seq<char>,
)
    ensures
        runner::calls_to(Seq::empty(), ctx, id) == Seq::<Call>::empty(),
        step.fault_id != id ==> runner::calls_to(steps.push(step), ctx, id) == runner::calls_to(
            steps,
            ctx,
            id,
        ),
        step.fault_id == id && step.action == StepAction::Arm ==> runner::calls_to(
            steps.push(step),
            ctx,
            id,
        ) == runner::calls_to(steps, ctx, id).push(Call::Arm(ctx)),
        step.fault_id == id && step.action == StepAction::Disarm ==> runner::calls_to(
            steps.push(step),
            ctx,
            id,
        ) == runner::calls_to(steps, ctx, id).push(Call::Disarm),
{
    assert(steps.push(step).drop_last() =~= steps);
}

/// A run that comes to its end has made every call of its steps and no other,
/// and leaves each fault as the last step that names it says; one that no step
/// names is as it was.
pub proof fn law_finished_run_did_all_its_steps(
    before: InjectorRegistry,
    after: InjectorRegistry,
    ctx: FaultContext,
    steps: Seq<StepView>,
    done: int,
    id: Seq<char>,
)
    requires
        runner::went(before, after, ctx, steps, done, None),
        before@.dom().contains(id),
    ensures
        done == steps.len(),
        after@.dom() == before@.dom(),
        after.ids() == before.ids(),
        after.has_had(&before, id, runner::calls_to(steps, ctx, id)),
        after@[id] == (if exists|i: int|
            0 <= i < steps.len() && (#[trigger] steps[i]).fault_id == id {
            schedule::armed_by(steps, steps.len() as int, id)
        } else {
            before@[id]
        }),
{
    lemma_left_as_the_steps_say(before@, steps, id);
    assert(after.has_had(
        &before,
        id,
        runner::calls_to(runner::made(steps, done, None), ctx, id),
    ));
}

proof fn lemma_left_as_the_steps_say(
    armed: Map<Seq<char>, bool>,
    steps: Seq<StepView>,
    id: Seq<char>,
)
    ensures
        runner::armed_after(armed, steps)[id] == (if exists|i: int|
            0 <= i < steps.len() && (#[trigger] steps[i]).fault_id == id {
            schedule::armed_by(steps, steps.len() as int, id)
        } else {
            armed[id]
        }),
{
    runner_laws::law_run_leaves_armed_what_the_schedule_does(armed, steps, id);
    schedule::law_last_step_that_names_it_counts(steps, steps.len() as int, id);
    assert(steps.take(steps.len() as int) =~= steps);
}

/// A run that stops does so at the first call that failed: every step before it
/// has made its call, it has made its own, and none behind it has. Every other
/// fault is as the steps before it leave it.
pub proof fn law_stopped_run_did_the_steps_before(
    before: InjectorRegistry,
    after: InjectorRegistry,
    ctx: FaultContext,
    steps: Seq<StepView>,
    done: int,
    failure: ErrorView,
    id: Seq<char>,
)
    requires
        runner::went(before, after, ctx, steps, done, Some(failure)),
        before@.dom().contains(id),
    ensures
        0 <= done < steps.len(),
        after@.dom() == before@.dom(),
        after.ids() == before.ids(),
        after.has_had(&before, id, runner::calls_to(steps.take(done + 1), ctx, id)),
        id != steps[done].fault_id ==> after@[id] == (if exists|i: int|
            0 <= i < done && (#[trigger] steps.take(done)[i]).fault_id == id {
            schedule::armed_by(steps.take(done), done, id)
        } else {
            before@[id]
        }),
{
    lemma_left_as_the_steps_say(before@, steps.take(done), id);
    assert(after.has_had(
        &before,
        id,
        runner::calls_to(runner::made(steps, done, Some(failure)), ctx, id),
    ));
}

/// The trace of a whole run has the name and the seed of its scenario, and one
/// event for each step of the schedule, in order: with its time, its fault and
/// its action, and a time that the clock of the run may have read.
pub proof fn law_whole_run_is_recorded(
    trace: TraceView,
    schedule: ValidatedSchedule,
    ctx: FaultContext,
)
    requires
        runner::is_trace_of(trace, schedule, ctx),
    ensures
        trace.scenario_name == schedule.scenario().name@,
        trace.seed == schedule.scenario().seed,
        trace.events.len() == schedule.scenario().steps@.len(),
        forall|i: int|
            0 <= i < trace.events.len() ==> {
                let step = schedule.scenario().steps@[i];
                &&& (#[trigger] trace.events[i]).step.at_ns == step.at_ns
                &&& trace.events[i].step.fault_id == step.fault_id@
                &&& trace.events[i].step.action == step.action
                &&& ctx.clock.may_read(trace.events[i].wall_ns)
            },
{
    assert forall|i: int| 0 <= i < trace.events.len() implies ({
        let step = schedule.scenario().steps@[i];
        &&& (#[trigger] trace.events[i]).step.at_ns == step.at_ns
        &&& trace.events[i].step.fault_id == step.fault_id@
        &&& trace.events[i].step.action == step.action
        &&& ctx.clock.may_read(trace.events[i].wall_ns)
    }) by {
        assert(trace.events[i].step == schedule.step_views()[i]);
    }
}

/// What is recorded of steps that fired at one moment: an event for each of
/// those that succeeded, in order, with the reading of that moment, behind what
/// was there.
pub proof fn law_each_success_is_recorded(
    steps: Seq<StepView>,
    done: int,
    wall_ns: u64,
    before: TraceView,
    now: TraceView,
)
    requires
        0 <= done <= steps.len(),
        runner::recorded(steps, done, wall_ns, before, now),
    ensures
        now.scenario_name == before.scenario_name,
        now.seed == before.seed,
        now.events.len() == before.events.len() + done,
        forall|i: int| 0 <= i < before.events.len() ==> now.events[i] == before.events[i],
        forall|i: int|
            0 <= i < done ==> now.events[before.events.len() + i] == (EventView {
                step: #[trigger] steps[i],
                wall_ns,
            }),
{
    assert forall|i: int| 0 <= i < done implies now.events[before.events.len() + i] == (EventView {
        step: #[trigger] steps[i],
        wall_ns,
    }) by {
        assert(steps.take(done)[i] == steps[i]);
    }
}

/// What each step of a run came to is what its injector may have answered: to
/// the call that the step makes, after those that the steps before it made.
pub proof fn law_each_call_was_answered(
    before: InjectorRegistry,
    after: InjectorRegistry,
    ctx: FaultContext,
    steps: Seq<StepView>,
    done: int,
    failure: Option<ErrorView>,
    i: int,
)
    requires
        runner::went(before, after, ctx, steps, done, failure),
        0 <= i < steps.len(),
    ensures
        ({
            let id = steps[i].fault_id;
            let sooner = runner::calls_to(steps.take(i), ctx, id);
            let call = if steps[i].action == StepAction::Arm {
                Call::Arm(ctx)
            } else {
                Call::Disarm
            };
            &&& i < done ==> before.may_after(
                id,
                sooner,
                call,
                steps[i].action == StepAction::Arm,
                None,
            )
            &&& i == done ==> failure is Some && before.may_after(
                id,
                sooner,
                call,
                after@[id],
                failure,
            )
        }),
{
    if i < done {
        assert(runner::step_may_succeed(before, ctx, steps, i));
    }
}

/// To have had calls is to answer from then on as one does that has: after
/// whatever comes next, as the injector before would have after both.
pub proof fn law_calls_that_were_made_count(
    before: InjectorRegistry,
    after: InjectorRegistry,
    id: Seq<char>,
    calls: Seq<Call>,
    more: Seq<Call>,
    call: Call,
    armed: bool,
    failure: Option<ErrorView>,
)
    requires
        after.has_had(&before, id, calls),
    ensures
        after.may_after(id, more, call, armed, failure) == before.may_after(
            id,
            calls + more,
            call,
            armed,
            failure,
        ),
{
}

/// What a teardown came to for each fault that was armed is what its injector
/// may have answered to being told to disarm; one that succeeded is not armed.
pub proof fn law_teardown_was_answered(
    before: InjectorRegistry,
    outcomes: Map<Seq<char>, Option<ErrorView>>,
    after: InjectorRegistry,
    failure: Option<ErrorView>,
    id: Seq<char>,
)
    requires
        registry::each_disarmed(before, outcomes, after, failure),
        before@.dom().contains(id),
        before@[id],
    ensures
        outcomes.dom().contains(id),
        before.may_after(id, Seq::empty(), Call::Disarm, after@[id], outcomes[id]),
        outcomes[id] is None ==> !after@[id],
        after.has_had(&before, id, seq![Call::Disarm]),
        after@.dom() == before@.dom(),
        after.ids() == before.ids(),
{
    assert(outcomes.dom().contains(id));
    assert(registry::tried(before, after, id, outcomes[id]));
}

} // verus!
