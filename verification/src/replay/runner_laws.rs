//! What holds of runs as a whole: that they repeat, and what they leave armed.
use vstd::prelude::*;

use crate::harness::error::ErrorView;
use crate::harness::fault::{Call, FaultContext};
use crate::harness::scenario::{StepAction, StepView};
use crate::replay::realtime::RealtimeRun;
use crate::replay::registry;
use crate::replay::registry::InjectorRegistry;
use crate::replay::runner;
use crate::replay::runner::Runner;
use crate::replay::schedule;
use crate::replay::schedule::ValidatedSchedule;
use crate::replay::trace::TraceView;

verus! {

/// A run is a faithful replay of every other run of its schedule, however
/// finely the virtual clock moves and whatever the clocks of the two read.
pub proof fn law_runs_replay_each_other(
    schedule: ValidatedSchedule,
    ctx: FaultContext,
    other_ctx: FaultContext,
    one: TraceView,
    other: TraceView,
)
    requires
        runner::is_trace_of(one, schedule, ctx),
        runner::is_trace_of(other, schedule, other_ctx),
    ensures
        one.same_schedule(other),
        one.scenario_name == other.scenario_name,
{
    lemma_trace_holds_the_steps(schedule, ctx, one);
    lemma_trace_holds_the_steps(schedule, other_ctx, other);
}

/// Whether two calls ask the same of an injector: to be disarmed, or to be
/// armed with the same seed.
pub open spec fn same_call(one: Call, other: Call) -> bool {
    match (one, other) {
        (Call::Arm(ctx), Call::Arm(other_ctx)) => ctx.seed == other_ctx.seed,
        (Call::Disarm, Call::Disarm) => true,
        _ => false,
    }
}

/// Two runs of the same steps from the same seed make the same calls to every
/// injector, in the same order.
pub proof fn law_replays_make_the_same_calls(
    steps: Seq<StepView>,
    ctx: FaultContext,
    other_ctx: FaultContext,
    id: Seq<char>,
)
    requires
        ctx.seed == other_ctx.seed,
    ensures
        runner::calls_to(steps, ctx, id).len() == runner::calls_to(steps, other_ctx, id).len(),
        forall|i: int|
            0 <= i < runner::calls_to(steps, ctx, id).len() ==> same_call(
                #[trigger] runner::calls_to(steps, ctx, id)[i],
                runner::calls_to(steps, other_ctx, id)[i],
            ),
    decreases steps.len(),
{
    if steps.len() > 0 {
        law_replays_make_the_same_calls(steps.drop_last(), ctx, other_ctx, id);
    }
}

/// How many of the steps name the fault.
pub open spec fn naming(steps: Seq<StepView>, id: Seq<char>) -> nat
    decreases steps.len(),
{
    if steps.len() == 0 {
        0
    } else {
        naming(steps.drop_last(), id) + (if steps.last().fault_id == id {
            1nat
        } else {
            0nat
        })
    }
}

/// Every step makes one call, to the injector that it names.
pub proof fn law_each_step_makes_one_call(steps: Seq<StepView>, ctx: FaultContext, id: Seq<char>)
    ensures
        runner::calls_to(steps, ctx, id).len() == naming(steps, id),
    decreases steps.len(),
{
    if steps.len() > 0 {
        law_each_step_makes_one_call(steps.drop_last(), ctx, id);
    }
}

/// A run succeeds where no call may fail.
pub proof fn law_run_succeeds_where_its_calls_do(
    before: InjectorRegistry,
    after: InjectorRegistry,
    ctx: FaultContext,
    steps: Seq<StepView>,
    done: int,
    failure: Option<ErrorView>,
)
    requires
        runner::went(before, after, ctx, steps, done, failure),
        forall|i: int, armed: bool, failure: Option<ErrorView>|
            0 <= i < steps.len() && #[trigger] runner::step_may(
                before,
                ctx,
                steps,
                i,
                armed,
                failure,
            ) ==> failure is None,
    ensures
        failure is None,
        done == steps.len(),
{
}

/// A run against the clock of the machine that has come to its end is
/// reproduced by every run against a virtual clock.
pub proof fn law_replay_reproduces_a_realtime_run(
    run: RealtimeRun,
    ctx: FaultContext,
    replay: TraceView,
)
    requires
        run.well_formed(),
        run.fired() == run.schedule().step_views().len(),
        runner::is_trace_of(replay, run.schedule(), ctx),
    ensures
        run.trace().same_schedule(replay),
        run.trace().scenario_name == replay.scenario_name,
{
    lemma_trace_holds_the_steps(run.schedule(), ctx, replay);
    let steps = run.schedule().step_views();
    assert(steps.take(steps.len() as int) =~= steps);
}

proof fn lemma_trace_holds_the_steps(
    schedule: ValidatedSchedule,
    ctx: FaultContext,
    trace: TraceView,
)
    requires
        runner::is_trace_of(trace, schedule, ctx),
    ensures
        trace.steps() == schedule.step_views(),
{
    assert forall|i: int| 0 <= i < trace.events.len() implies #[trigger] trace.steps()[i]
        == schedule.step_views()[i] by {
        assert(trace.steps()[i] == trace.events[i].step);
    }
    assert(trace.steps() =~= schedule.step_views());
}

/// Whether one of the steps names the fault.
pub open spec fn names(steps: Seq<StepView>, fault_id: Seq<char>) -> bool {
    exists|i: int| 0 <= i < steps.len() && (#[trigger] steps[i]).fault_id == fault_id
}

/// A run leaves armed what its schedule leaves armed, and what the schedule
/// does not name stays as it was.
pub proof fn law_run_leaves_armed_what_the_schedule_does(
    armed: Map<Seq<char>, bool>,
    steps: Seq<StepView>,
    fault_id: Seq<char>,
)
    ensures
        names(steps, fault_id) ==> runner::armed_after(armed, steps)[fault_id]
            == schedule::left_armed(steps, fault_id),
        !names(steps, fault_id) ==> runner::armed_after(armed, steps)[fault_id]
            == armed[fault_id],
    decreases steps.len(),
{
    if steps.len() > 0 {
        let before = steps.drop_last();
        law_run_leaves_armed_what_the_schedule_does(armed, before, fault_id);
        assert(steps.last() == steps[steps.len() - 1]);
        if steps.last().fault_id != fault_id {
            if names(before, fault_id) {
                let i = choose|i: int|
                    0 <= i < before.len() && (#[trigger] before[i]).fault_id == fault_id;
                assert(steps[i].fault_id == fault_id);
            }
            if names(steps, fault_id) {
                let i = choose|i: int|
                    0 <= i < steps.len() && (#[trigger] steps[i]).fault_id == fault_id;
                assert(before[i].fault_id == fault_id);
            }
        }
    }
}

/// No step of a schedule repeats what is already so: where no fault was armed
/// at the start, each step that arms finds its fault disarmed, and each that
/// disarms finds it armed.
pub proof fn law_every_step_changes_its_fault(
    armed: Map<Seq<char>, bool>,
    steps: Seq<StepView>,
    i: int,
)
    requires
        schedule::first_fault(steps) is None,
        0 <= i < steps.len(),
        !armed[steps[i].fault_id],
    ensures
        runner::armed_after(armed, steps.take(i))[steps[i].fault_id] != (steps[i].action
            == StepAction::Arm),
{
    let id = steps[i].fault_id;
    schedule::law_schedule_alternates(steps, i);
    law_run_leaves_armed_what_the_schedule_does(armed, steps.take(i), id);
    if !names(steps.take(i), id) {
        lemma_unnamed_is_not_left_armed(steps.take(i), id);
    }
}

proof fn lemma_unnamed_is_not_left_armed(steps: Seq<StepView>, fault_id: Seq<char>)
    requires
        !names(steps, fault_id),
    ensures
        !schedule::left_armed(steps, fault_id),
    decreases steps.len(),
{
    if steps.len() > 0 {
        let before = steps.drop_last();
        assert(steps[steps.len() - 1].fault_id != fault_id);
        if names(before, fault_id) {
            let i = choose|i: int|
                0 <= i < before.len() && (#[trigger] before[i]).fault_id == fault_id;
            assert(steps[i].fault_id == fault_id);
        }
        lemma_unnamed_is_not_left_armed(before, fault_id);
    }
}

/// A teardown tells each fault that was armed to disarm, once, whatever came of
/// the others, and makes no call to any other: that is as it was.
pub proof fn law_teardown_tries_each_armed_fault_once(
    before: Runner,
    outcomes: Map<Seq<char>, Option<ErrorView>>,
    after: Runner,
    failure: Option<ErrorView>,
    id: Seq<char>,
)
    requires
        before.well_formed(),
        registry::each_disarmed(before.injectors(), outcomes, after.injectors(), failure),
        before.armed().dom().contains(id),
    ensures
        outcomes.dom().contains(id) == before.armed()[id],
        after.injectors().has_had(
            &before.injectors(),
            id,
            if before.armed()[id] {
                seq![Call::Disarm]
            } else {
                Seq::empty()
            },
        ),
        !before.armed()[id] ==> !after.armed()[id] && after.injectors().holds_as(
            &before.injectors(),
            id,
        ),
{
    if before.armed()[id] {
        assert(outcomes.dom().contains(id));
    } else {
        assert(after.injectors().holds_as(&before.injectors(), id));
        after.injectors().lemma_held_alike(&before.injectors(), id);
    }
}

/// A teardown succeeds where every call that it made did; otherwise it returns
/// the error of the first that failed, in the order of registration.
pub proof fn law_teardown_returns_the_first_error(
    before: Runner,
    outcomes: Map<Seq<char>, Option<ErrorView>>,
    after: Runner,
    failure: Option<ErrorView>,
)
    requires
        before.well_formed(),
        registry::each_disarmed(before.injectors(), outcomes, after.injectors(), failure),
    ensures
        failure is None <==> forall|id: Seq<char>| #[trigger]
            outcomes.dom().contains(id) ==> outcomes[id] is None,
        failure is Some ==> exists|i: int|
            0 <= i < before.injectors().ids().len() && is_first_failure(
                #[trigger] before.injectors().ids()[i],
                before.injectors().ids().take(i),
                outcomes,
                failure,
            ),
{
    let ids = before.injectors().ids();
    before.lemma_injectors_are_well_formed();
    before.injectors().lemma_ids();
    lemma_first_failure(ids, outcomes);
    if failure is None {
        assert forall|id: Seq<char>| #[trigger]
            outcomes.dom().contains(id) implies outcomes[id] is None by {
            assert(ids.contains(id));
            let i = choose|i: int| 0 <= i < ids.len() && ids[i] == id;
            assert(outcomes.dom().contains(ids[i]));
        }
    } else {
        let i = choose|i: int|
            0 <= i < ids.len() && is_first_failure(
                #[trigger] ids[i],
                ids.take(i),
                outcomes,
                failure,
            );
        assert(outcomes.dom().contains(ids[i]));
    }
}

/// A teardown that succeeds leaves nothing armed, and one of a run with nothing
/// armed succeeds.
pub proof fn law_teardown_leaves_nothing_armed(
    before: Runner,
    outcomes: Map<Seq<char>, Option<ErrorView>>,
    after: Runner,
    failure: Option<ErrorView>,
)
    requires
        before.well_formed(),
        registry::each_disarmed(before.injectors(), outcomes, after.injectors(), failure),
    ensures
        failure is None ==> runner::nothing_armed(after.armed()),
        runner::nothing_armed(before.armed()) ==> failure is None,
{
    law_teardown_returns_the_first_error(before, outcomes, after, failure);
    if failure is None {
        assert forall|id: Seq<char>| after.armed().dom().contains(id) implies !(
        #[trigger] after.armed()[id]) by {
            law_teardown_tries_each_armed_fault_once(before, outcomes, after, failure, id);
            if before.armed()[id] {
                assert(registry::tried(before.injectors(), after.injectors(), id, outcomes[id]));
            }
        }
    }
    if runner::nothing_armed(before.armed()) {
        assert forall|id: Seq<char>| #[trigger]
            outcomes.dom().contains(id) implies outcomes[id] is None by {
            assert(before.armed()[id]);
        }
    }
}

/// Where every fault that was told to disarm did, though it may have reported
/// an error, a second teardown makes no call and succeeds, and every fault is
/// as the first left it.
pub proof fn law_second_teardown_calls_nothing(
    before: Runner,
    outcomes: Map<Seq<char>, Option<ErrorView>>,
    between: Runner,
    failure: Option<ErrorView>,
    later_outcomes: Map<Seq<char>, Option<ErrorView>>,
    after: Runner,
    later_failure: Option<ErrorView>,
)
    requires
        before.well_formed(),
        between.well_formed(),
        registry::each_disarmed(before.injectors(), outcomes, between.injectors(), failure),
        forall|id: Seq<char>| #[trigger]
            outcomes.dom().contains(id) ==> !between.armed()[id],
        registry::each_disarmed(
            between.injectors(),
            later_outcomes,
            after.injectors(),
            later_failure,
        ),
    ensures
        later_outcomes == Map::<Seq<char>, Option<ErrorView>>::empty(),
        later_failure is None,
        after.armed() == between.armed(),
        forall|id: Seq<char>|
            between.armed().dom().contains(id) ==> #[trigger] after.injectors().holds_as(
                &between.injectors(),
                id,
            ),
{
    assert forall|id: Seq<char>| between.armed().dom().contains(id) implies !(
    #[trigger] between.armed()[id]) by {
        law_teardown_tries_each_armed_fault_once(before, outcomes, between, failure, id);
    }
    assert forall|id: Seq<char>| !(#[trigger] later_outcomes.dom().contains(id)) by {
        if later_outcomes.dom().contains(id) {
            assert(between.armed()[id]);
        }
    }
    assert(later_outcomes =~= Map::empty());
    law_teardown_leaves_nothing_armed(between, later_outcomes, after, later_failure);
    assert forall|id: Seq<char>| after.armed().dom().contains(id) implies #[trigger] after.armed()[id]
        == between.armed()[id] by {
        assert(!between.armed()[id]);
    }
    assert(after.armed() =~= between.armed());
}

/// Whether the call to the fault of this id is the one that failed so, and none
/// to those before it failed.
pub open spec fn is_first_failure(
    id: Seq<char>,
    before: Seq<Seq<char>>,
    outcomes: Map<Seq<char>, Option<ErrorView>>,
    failure: Option<ErrorView>,
) -> bool {
    &&& outcomes.dom().contains(id)
    &&& outcomes[id] == failure
    &&& forall|j: int|
        0 <= j < before.len() && outcomes.dom().contains(#[trigger] before[j])
            ==> outcomes[before[j]] is None
}

/// Where there is a first failure it is one of the outcomes, and none before it
/// failed; where there is none, none of them failed.
proof fn lemma_first_failure(ids: Seq<Seq<char>>, outcomes: Map<Seq<char>, Option<ErrorView>>)
    ensures
        match registry::first_failure(ids, outcomes) {
            Some(e) => exists|i: int|
                0 <= i < ids.len() && is_first_failure(
                    #[trigger] ids[i],
                    ids.take(i),
                    outcomes,
                    Some(e),
                ),
            None => forall|i: int|
                0 <= i < ids.len() && outcomes.dom().contains(#[trigger] ids[i])
                    ==> outcomes[ids[i]] is None,
        },
    decreases ids.len(),
{
    if ids.len() > 0 {
        let before = ids.drop_last();
        lemma_first_failure(before, outcomes);
        match registry::first_failure(before, outcomes) {
            Some(e) => {
                let i = choose|i: int|
                    0 <= i < before.len() && is_first_failure(
                        #[trigger] before[i],
                        before.take(i),
                        outcomes,
                        Some(e),
                    );
                assert(ids.take(i) =~= before.take(i));
                assert(is_first_failure(ids[i], ids.take(i), outcomes, Some(e)));
            },
            None => {
                let last = ids.len() - 1;
                assert(ids[last] == ids.last());
                assert(ids.take(last) =~= before);
                assert forall|i: int|
                    0 <= i < last && outcomes.dom().contains(#[trigger] ids[i]) implies outcomes[
                    ids[i]] is None by {
                    assert(outcomes.dom().contains(before[i]));
                }
                if registry::first_failure(ids, outcomes) is Some {
                    assert(is_first_failure(
                        ids[last],
                        ids.take(last),
                        outcomes,
                        registry::first_failure(ids, outcomes),
                    ));
                }
            },
        }
    }
}

} // verus!
