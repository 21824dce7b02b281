//! Ties a schedule to the injectors that its steps name.
use vstd::prelude::*;

use crate::harness::clock::Clock;
use crate::harness::error;
use crate::harness::error::HarnessError;
use crate::harness::fault::FaultContext;
use crate::harness::scenario;
use crate::harness::scenario::{ScenarioStep, StepAction, StepView};
use crate::replay::registry;
use crate::replay::registry::InjectorRegistry;
use crate::replay::runner_laws;
use crate::replay::schedule;
use crate::replay::schedule::ValidatedSchedule;
use crate::replay::scheduler;
use crate::replay::scheduler::Scheduler;
use crate::replay::trace::{EventView, Trace, TraceView};

#[allow(unused_imports)]
use crate::harness::error::ErrorView;
#[allow(unused_imports)]
use crate::harness::fault::Call;

verus! {

/// The id of the first step that names no registered injector.
pub open spec fn first_unregistered(steps: Seq<StepView>, ids: Set<Seq<char>>) -> Option<Seq<char>>
    decreases steps.len(),
{
    if steps.len() == 0 {
        None
    } else {
        match first_unregistered(steps.drop_last(), ids) {
            Some(id) => Some(id),
            None => if ids.contains(steps.last().fault_id) {
                None
            } else {
                Some(steps.last().fault_id)
            },
        }
    }
}

/// Which faults are armed after these steps.
pub open spec fn armed_after(armed: Map<Seq<char>, bool>, steps: Seq<StepView>) -> Map<
    Seq<char>,
    bool,
>
    decreases steps.len(),
{
    if steps.len() == 0 {
        armed
    } else {
        armed_after(armed, steps.drop_last()).insert(
            steps.last().fault_id,
            steps.last().action == StepAction::Arm,
        )
    }
}

/// The events of steps that fire at one moment.
pub open spec fn events_at(steps: Seq<StepView>, wall_ns: u64) -> Seq<EventView> {
    steps.map_values(|step: StepView| EventView { step, wall_ns })
}

/// The call that a step makes to its injector.
pub open spec fn call_of(step: StepView, ctx: FaultContext) -> Call {
    match step.action {
        StepAction::Arm => Call::Arm(ctx),
        StepAction::Disarm => Call::Disarm,
    }
}

/// The calls that these steps make to one injector, in order.
pub open spec fn calls_to(steps: Seq<StepView>, ctx: FaultContext, id: Seq<char>) -> Seq<Call>
    decreases steps.len(),
{
    if steps.len() == 0 {
        Seq::empty()
    } else {
        let before = calls_to(steps.drop_last(), ctx, id);
        if steps.last().fault_id == id {
            before.push(call_of(steps.last(), ctx))
        } else {
            before
        }
    }
}

/// Whether the call of step `i`, after those of the steps before it, may leave
/// its injector armed or not and come to this.
pub open spec fn step_may(
    before: InjectorRegistry,
    ctx: FaultContext,
    steps: Seq<StepView>,
    i: int,
    armed: bool,
    failure: Option<ErrorView>,
) -> bool {
    let id = steps[i].fault_id;
    before.may_after(id, calls_to(steps.take(i), ctx, id), call_of(steps[i], ctx), armed, failure)
}

/// Whether the call of step `i`, after those of the steps before it, may
/// succeed.
pub open spec fn step_may_succeed(
    before: InjectorRegistry,
    ctx: FaultContext,
    steps: Seq<StepView>,
    i: int,
) -> bool {
    step_may(before, ctx, steps, i, steps[i].action == StepAction::Arm, None)
}

/// The steps whose call was made: those that succeeded, and the one that
/// failed.
pub open spec fn made(steps: Seq<StepView>, done: int, failure: Option<ErrorView>) -> Seq<StepView> {
    if failure is None {
        steps
    } else {
        steps.take(done + 1)
    }
}

/// How a run of steps went. The first `done` of them succeeded: all of them, or
/// those before the one whose call failed. Each made one call to its injector,
/// in order and with the context of the run, and no other call was made; what
/// each came to is what its injector may have answered. Only what these calls
/// did to an injector changed.
pub open spec fn went(
    before: InjectorRegistry,
    after: InjectorRegistry,
    ctx: FaultContext,
    steps: Seq<StepView>,
    done: int,
    failure: Option<ErrorView>,
) -> bool {
    &&& after@.dom() == before@.dom()
    &&& after.ids() == before.ids()
    &&& 0 <= done <= steps.len()
    &&& failure is None <==> done == steps.len()
    &&& forall|i: int|
        0 <= i < done ==> #[trigger] step_may_succeed(before, ctx, steps, i)
    &&& failure is Some ==> step_may(
        before,
        ctx,
        steps,
        done,
        after@[steps[done].fault_id],
        failure,
    )
    &&& forall|id: Seq<char>|
        before@.dom().contains(id) ==> #[trigger] after.has_had(
            &before,
            id,
            calls_to(made(steps, done, failure), ctx, id),
        )
    &&& after@ == (if failure is None {
        armed_after(before@, steps)
    } else {
        armed_after(before@, steps.take(done)).insert(
            steps[done].fault_id,
            after@[steps[done].fault_id],
        )
    })
}

/// Whether the trace is that of a run whose first `fired` steps have fired, in
/// order, each with a reading of the clock of the run.
pub open spec fn is_trace_up_to(
    trace: TraceView,
    schedule: ValidatedSchedule,
    ctx: FaultContext,
    fired: int,
) -> bool {
    let steps = schedule.step_views();
    &&& trace.scenario_name == schedule.scenario().name@
    &&& trace.seed == schedule.scenario().seed
    &&& trace.events.len() == fired <= steps.len()
    &&& forall|i: int|
        0 <= i < fired ==> {
            &&& (#[trigger] trace.events[i]).step == steps[i]
            &&& ctx.may_read(trace.events[i].wall_ns)
        }
}

/// Whether the trace is that of a whole run.
pub open spec fn is_trace_of(
    trace: TraceView,
    schedule: ValidatedSchedule,
    ctx: FaultContext,
) -> bool {
    is_trace_up_to(trace, schedule, ctx, schedule.step_views().len() as int)
}

/// Whether a run in ticks of this size comes to an end: the clock moves, or has
/// nowhere to go.
pub open spec fn run_ends(steps: Seq<StepView>, tick: u64) -> bool {
    tick > 0 || (steps.len() > 0 ==> steps.last().at_ns == 0)
}

/// Whether a trace gained the events of the first `k` steps.
pub open spec fn recorded(
    steps: Seq<StepView>,
    k: int,
    wall_ns: u64,
    before: TraceView,
    now: TraceView,
) -> bool {
    now == (TraceView { events: before.events + events_at(steps.take(k), wall_ns), ..before })
}

/// Whether no fault is armed.
pub open spec fn nothing_armed(armed: Map<Seq<char>, bool>) -> bool {
    forall|id: Seq<char>| armed.dom().contains(id) ==> !(#[trigger] armed[id])
}

/// Drives a schedule against real injectors.
pub struct Runner<'a> {
    schedule: &'a ValidatedSchedule,
    injectors: InjectorRegistry,
    ctx: FaultContext,
}

/// Takes down what a call to an injector came to: a step whose call succeeded
/// is recorded, and the error of one that failed is passed on.
pub fn record_outcome(
    trace: &mut Trace,
    step: ScenarioStep,
    wall_ns: u64,
    outcome: Result<(), HarnessError>,
) -> (r: Result<(), HarnessError>)
    ensures
        r == outcome,
        final(trace)@ == (if outcome is Ok {
            TraceView {
                events: old(trace)@.events.push(EventView { step: step@, wall_ns }),
                ..old(trace)@
            }
        } else {
            old(trace)@
        }),
{
    if outcome.is_ok() {
        trace.record(step, wall_ns);
    }
    outcome
}

impl<'a> Runner<'a> {
    /// The schedule that is run.
    pub closed spec fn schedule(self) -> ValidatedSchedule {
        *self.schedule
    }

    /// The injectors.
    pub closed spec fn injectors(self) -> InjectorRegistry {
        self.injectors
    }

    /// What the injectors are armed with.
    pub closed spec fn ctx(self) -> FaultContext {
        self.ctx
    }

    /// The ids of the injectors, each with whether it is armed.
    pub open spec fn armed(self) -> Map<Seq<char>, bool> {
        self.injectors()@
    }

    /// Every step names a registered injector.
    pub closed spec fn well_formed(self) -> bool {
        &&& self.injectors.well_formed()
        &&& first_unregistered(self.schedule.step_views(), self.injectors@.dom()) is None
    }

    /// The injectors of a runner are a registry in order.
    pub proof fn lemma_injectors_are_well_formed(self)
        requires
            self.well_formed(),
        ensures
            self.injectors().well_formed(),
    {
    }

    /// Every run of steps of the schedule names registered injectors only.
    pub proof fn lemma_steps_are_registered(self, from: int, to: int)
        requires
            self.well_formed(),
            0 <= from <= to <= self.schedule().step_views().len(),
        ensures
            first_unregistered(
                self.schedule().step_views().subrange(from, to),
                self.armed().dom(),
            ) is None,
    {
        let steps = self.schedule().step_views();
        let part = steps.subrange(from, to);
        assert forall|i: int| 0 <= i < part.len() implies self.armed().dom().contains(
            (#[trigger] part[i]).fault_id,
        ) by {
            lemma_registered(steps, self.armed().dom(), from + i);
        }
        lemma_all_registered(part, self.armed().dom());
    }

    /// Accepts the injectors if every fault that the schedule names is among
    /// them; otherwise says which is the first that is not.
    pub fn new(
        schedule: &'a ValidatedSchedule,
        injectors: InjectorRegistry,
        ctx: FaultContext,
    ) -> (r: Result<Self, HarnessError>)
        requires
            injectors.well_formed(),
        ensures
            match first_unregistered(schedule.step_views(), injectors@.dom()) {
                None => {
                    &&& r is Ok
                    &&& r->Ok_0.well_formed()
                    &&& r->Ok_0.schedule() == *schedule
                    &&& r->Ok_0.injectors() == injectors
                    &&& r->Ok_0.ctx() == ctx
                },
                Some(id) => r is Err && r->Err_0@ == ErrorView::InvalidScenario(
                    "step references fault_id "@ + id + " which has no registered injector"@,
                ),
            },
    {
        let steps = schedule.steps();
        let ghost views = schedule.step_views();
        let mut i: usize = 0;
        assert(views.take(0) =~= Seq::<StepView>::empty());
        while i < steps.len()
            invariant
                i <= steps@.len(),
                steps@ == schedule.scenario().steps@,
                views == schedule.step_views(),
                injectors.well_formed(),
                first_unregistered(views.take(i as int), injectors@.dom()) is None,
            decreases steps@.len() - i,
        {
            let step = &steps[i];
            assert(views.take(i + 1).last() == step@);
            assert(views.take(i + 1).drop_last() =~= views.take(i as int));
            if !injectors.contains(&step.fault_id) {
                let mut reason = "step references fault_id ".to_owned();
                reason.append(step.fault_id.as_str());
                reason.append(" which has no registered injector");
                proof {
                    lemma_first_unregistered_stays(views, injectors@.dom(), i + 1);
                }
                return Err(HarnessError::InvalidScenario(reason));
            }
            i = i + 1;
        }
        assert(views.take(i as int) =~= views);
        Ok(Runner { schedule, injectors, ctx })
    }

    /// Performs the steps that have come due, in order, and records each with
    /// the reading of the clock. Stops at the first call that fails, and passes
    /// its error on.
    pub fn fire_steps(&mut self, due: &[ScenarioStep], wall_ns: u64, trace: &mut Trace) -> (r:
        Result<(), HarnessError>)
        requires
            old(self).well_formed(),
            first_unregistered(scenario::step_views(due@), old(self).armed().dom()) is None,
        ensures
            final(self).well_formed(),
            final(self).injectors().well_formed(),
            final(self).schedule() == old(self).schedule(),
            final(self).ctx() == old(self).ctx(),
            exists|done: int| #[trigger]
                went(
                    old(self).injectors(),
                    final(self).injectors(),
                    old(self).ctx(),
                    scenario::step_views(due@),
                    done,
                    error::failure_of(r),
                ) && recorded(
                    scenario::step_views(due@),
                    done,
                    wall_ns,
                    old(trace)@,
                    final(trace)@,
                ),
    {
        let ghost steps = scenario::step_views(due@);
        let ghost ids = self.armed().dom();
        let ghost ctx = self.ctx();
        let ghost first = self.injectors();
        let mut i: usize = 0;
        proof {
            assert(steps.take(0) =~= Seq::<StepView>::empty());
            assert(trace@.events + events_at(steps.take(0), wall_ns) =~= trace@.events);
            lemma_nothing_went(first, ctx);
        }
        while i < due.len()
            invariant
                i <= due@.len(),
                steps == scenario::step_views(due@),
                ids == old(self).armed().dom(),
                first_unregistered(steps, ids) is None,
                self.well_formed(),
                self.schedule() == old(self).schedule(),
                self.ctx() == ctx,
                ctx == old(self).ctx(),
                first == old(self).injectors(),
                went(first, self.injectors(), ctx, steps.take(i as int), i as int, None),
                trace@ == (TraceView {
                    events: old(trace)@.events + events_at(steps.take(i as int), wall_ns),
                    ..old(trace)@
                }),
            decreases due@.len() - i,
        {
            let step = &due[i];
            let ghost before = self.injectors();
            let ghost so_far = steps.take(i as int);
            proof {
                assert(steps[i as int] == step@);
                lemma_registered(steps, ids, i as int);
                assert(steps.take(i + 1) =~= so_far + seq![step@]);
            }
            let outcome = match step.action {
                StepAction::Arm => self.injectors.arm(&step.fault_id, &self.ctx),
                StepAction::Disarm => self.injectors.disarm(&step.fault_id),
            };
            let ghost failure = error::failure_of(outcome);
            let ghost one: int = if failure is None {
                1
            } else {
                0
            };
            proof {
                assert(self.armed().dom() =~= ids);
                assert(self.well_formed());
                lemma_one_step_went(before, self.injectors(), ctx, step@, failure);
                lemma_went_on(
                    first,
                    before,
                    self.injectors(),
                    ctx,
                    so_far,
                    seq![step@],
                    one,
                    failure,
                );
            }
            match record_outcome(trace, step.clone(), wall_ns, outcome) {
                Ok(()) => {},
                Err(e) => {
                    proof {
                        lemma_went_of_prefix(
                            first,
                            self.injectors(),
                            ctx,
                            steps,
                            i + 1,
                            i as int,
                            failure,
                        );
                        assert(recorded(steps, i as int, wall_ns, old(trace)@, trace@));
                    }
                    return Err(e);
                },
            }
            proof {
                let event = EventView { step: step@, wall_ns };
                assert(events_at(steps.take(i + 1), wall_ns) =~= events_at(
                    steps.take(i as int),
                    wall_ns,
                ).push(event));
                assert(trace@.events =~= old(trace)@.events + events_at(
                    steps.take(i + 1),
                    wall_ns,
                ));
            }
            i = i + 1;
        }
        proof {
            assert(steps.take(i as int) =~= steps);
            assert(recorded(steps, i as int, wall_ns, old(trace)@, trace@));
        }
        Ok(())
    }

    /// Runs the whole schedule against a virtual clock that starts at zero and
    /// moves by `tick_ns`: arms and disarms the injectors as their steps come
    /// due, and records each step with what the clock of the run read when it
    /// fired. Stops at the first call that fails, and passes its error on.
    pub fn run(&mut self, tick_ns: u64) -> (r: Result<Trace, HarnessError>)
        requires
            old(self).well_formed(),
            run_ends(old(self).schedule().step_views(), tick_ns),
        ensures
            final(self).well_formed(),
            final(self).injectors().well_formed(),
            final(self).schedule() == old(self).schedule(),
            final(self).ctx() == old(self).ctx(),
            ({
                let steps = old(self).schedule().step_views();
                match r {
                    Ok(trace) => {
                        &&& is_trace_of(trace@, old(self).schedule(), old(self).ctx())
                        &&& went(
                            old(self).injectors(),
                            final(self).injectors(),
                            old(self).ctx(),
                            steps,
                            steps.len() as int,
                            None,
                        )
                    },
                    Err(e) => exists|done: int| #[trigger]
                        went(
                            old(self).injectors(),
                            final(self).injectors(),
                            old(self).ctx(),
                            steps,
                            done,
                            Some(e@),
                        ),
                }
            }),
    {
        let mut scheduler = Scheduler::new(self.schedule, 0);
        let mut trace = Trace::new(self.schedule.name(), self.schedule.seed());
        let ghost steps = self.schedule().step_views();
        let ghost ctx = self.ctx();
        let ghost first = self.injectors();
        let ghost mut moved: bool = false;
        proof {
            use_type_invariant(self.schedule);
            schedule::law_schedule_is_sorted(steps);
            assert(steps.take(0) =~= Seq::<StepView>::empty());
            lemma_nothing_went(first, ctx);
        }
        while !scheduler.is_finished()
            invariant
                self.well_formed(),
                self.schedule() == old(self).schedule(),
                self.ctx() == ctx,
                ctx == old(self).ctx(),
                first == old(self).injectors(),
                steps == self.schedule().step_views(),
                forall|i: int, j: int|
                    0 <= i <= j < steps.len() ==> steps[i].at_ns <= steps[j].at_ns,
                run_ends(steps, tick_ns),
                scheduler.schedule() == self.schedule(),
                scheduler.in_bounds(),
                !moved ==> scheduler.now() == 0,
                moved && scheduler.fired() < steps.len() ==> tick_ns > 0
                    && steps[scheduler.fired()].at_ns > scheduler.now(),
                went(
                    first,
                    self.injectors(),
                    ctx,
                    steps.take(scheduler.fired()),
                    scheduler.fired(),
                    None,
                ),
                is_trace_up_to(trace@, self.schedule(), ctx, scheduler.fired()),
            decreases
                    u64::MAX - scheduler.now() + (if moved {
                        0int
                    } else {
                        1int
                    }),
        {
            let ghost fired = scheduler.fired();
            let ghost before = self.injectors();
            let due = scheduler.advance(tick_ns);
            let ghost due_views = steps.subrange(fired, scheduler.fired());
            proof {
                moved = true;
                scheduler::lemma_due_end(steps, fired, scheduler.now());
                if scheduler.fired() < steps.len() {
                    assert(steps[scheduler.fired()].at_ns <= steps.last().at_ns);
                }
                assert(scenario::step_views(due@) =~= due_views);
                self.lemma_steps_are_registered(fired, scheduler.fired());
                assert(steps.take(scheduler.fired()) =~= steps.take(fired) + due_views);
                assert forall|i: int| 0 <= i < due_views.len() implies first@.dom().contains(
                    (#[trigger] due_views[i]).fault_id,
                ) by {
                    lemma_registered(due_views, first@.dom(), i);
                }
            }
            let wall_ns: u64 = self.ctx.clock.now_ns();
            let ghost trace_before = trace@;
            let outcome = self.fire_steps(due, wall_ns, &mut trace);
            proof {
                let failure = error::failure_of(outcome);
                let done = choose|done: int| #[trigger]
                    went(before, self.injectors(), ctx, due_views, done, failure) && recorded(
                        due_views,
                        done,
                        wall_ns,
                        trace_before,
                        trace@,
                    );
                lemma_went_on(
                    first,
                    before,
                    self.injectors(),
                    ctx,
                    steps.take(fired),
                    due_views,
                    done,
                    failure,
                );
                if failure is Some {
                    lemma_went_of_prefix(
                        first,
                        self.injectors(),
                        ctx,
                        steps,
                        scheduler.fired(),
                        fired + done,
                        failure,
                    );
                } else {
                    assert(due_views.take(done) =~= due_views);
                    lemma_recorded_up_to(
                        trace_before,
                        trace@,
                        self.schedule(),
                        ctx,
                        fired,
                        scheduler.fired(),
                        wall_ns,
                    );
                }
            }
            match outcome {
                Ok(()) => {},
                Err(e) => {
                    return Err(e);
                },
            }
        }
        assert(steps.take(scheduler.fired()) =~= steps);
        Ok(trace)
    }

    /// Whether the injector of this id is armed, where there is one.
    pub fn is_armed(&self, fault_id: &str) -> (r: Option<bool>)
        requires
            self.well_formed(),
        ensures
            r == (if self.armed().dom().contains(fault_id@) {
                Some(self.armed()[fault_id@])
            } else {
                None
            }),
    {
        self.injectors.is_armed(&fault_id.to_owned())
    }

    /// Disarms everything that is still armed. A failure does not keep the
    /// rest from being disarmed; the first one, in the order of registration,
    /// is returned.
    pub fn teardown(&mut self) -> (r: Result<(), HarnessError>)
        requires
            old(self).well_formed(),
        ensures
            final(self).well_formed(),
            final(self).injectors().well_formed(),
            final(self).schedule() == old(self).schedule(),
            final(self).ctx() == old(self).ctx(),
            exists|outcomes: Map<Seq<char>, Option<ErrorView>>| #[trigger]
                registry::each_disarmed(
                    old(self).injectors(),
                    outcomes,
                    final(self).injectors(),
                    error::failure_of(r),
                ),
            r is Ok ==> nothing_armed(final(self).armed()),
            nothing_armed(old(self).armed()) ==> r is Ok,
    {
        let r = self.injectors.disarm_all();
        proof {
            let outcomes = choose|outcomes: Map<Seq<char>, Option<ErrorView>>| #[trigger]
                registry::each_disarmed(
                    old(self).injectors,
                    outcomes,
                    self.injectors,
                    error::failure_of(r),
                );
            assert(registry::each_disarmed(
                old(self).injectors(),
                outcomes,
                self.injectors(),
                error::failure_of(r),
            ));
            runner_laws::law_teardown_leaves_nothing_armed(
                *old(self),
                outcomes,
                *self,
                error::failure_of(r),
            );
        }
        r
    }
}

proof fn lemma_first_unregistered_stays(steps: Seq<StepView>, ids: Set<Seq<char>>, k: int)
    requires
        0 <= k <= steps.len(),
        first_unregistered(steps.take(k), ids) is Some,
    ensures
        first_unregistered(steps, ids) == first_unregistered(steps.take(k), ids),
    decreases steps.len(),
{
    if k == steps.len() {
        assert(steps.take(k) =~= steps);
    } else {
        assert(steps.drop_last().take(k) =~= steps.take(k));
        lemma_first_unregistered_stays(steps.drop_last(), ids, k);
    }
}

/// Where no step is unregistered, every step names a registered id.
proof fn lemma_registered(steps: Seq<StepView>, ids: Set<Seq<char>>, i: int)
    requires
        first_unregistered(steps, ids) is None,
        0 <= i < steps.len(),
    ensures
        ids.contains(steps[i].fault_id),
    decreases steps.len(),
{
    if i < steps.len() - 1 {
        assert(steps.drop_last()[i] == steps[i]);
        lemma_registered(steps.drop_last(), ids, i);
    }
}

/// Where every step names a registered id, none is unregistered.
proof fn lemma_all_registered(steps: Seq<StepView>, ids: Set<Seq<char>>)
    requires
        forall|i: int| 0 <= i < steps.len() ==> ids.contains((#[trigger] steps[i]).fault_id),
    ensures
        first_unregistered(steps, ids) is None,
    decreases steps.len(),
{
    if steps.len() > 0 {
        assert forall|i: int| 0 <= i < steps.drop_last().len() implies ids.contains(
            (#[trigger] steps.drop_last()[i]).fault_id,
        ) by {
            assert(steps.drop_last()[i] == steps[i]);
        }
        lemma_all_registered(steps.drop_last(), ids);
    }
}

/// A run of no steps makes no call.
proof fn lemma_nothing_went(injectors: InjectorRegistry, ctx: FaultContext)
    ensures
        went(injectors, injectors, ctx, Seq::empty(), 0, None),
{
    let none = Seq::<StepView>::empty();
    assert forall|id: Seq<char>| injectors@.dom().contains(id) implies #[trigger] injectors.has_had(
        &injectors,
        id,
        calls_to(made(none, 0, None), ctx, id),
    ) by {
        assert forall|more: Seq<Call>, call: Call, armed: bool, failure: Option<ErrorView>|
            #[trigger]
            injectors.may_after(id, more, call, armed, failure) == injectors.may_after(
                id,
                Seq::<Call>::empty() + more,
                call,
                armed,
                failure,
            ) by {
            assert(Seq::<Call>::empty() + more =~= more);
        }
    }
}

/// A run of one step makes one call.
proof fn lemma_one_step_went(
    before: InjectorRegistry,
    after: InjectorRegistry,
    ctx: FaultContext,
    step: StepView,
    failure: Option<ErrorView>,
)
    requires
        before@.dom().contains(step.fault_id),
        after.ids() == before.ids(),
        after@ == before@.insert(step.fault_id, after@[step.fault_id]),
        failure is None ==> after@[step.fault_id] == (step.action == StepAction::Arm),
        before.may_after(
            step.fault_id,
            Seq::empty(),
            call_of(step, ctx),
            after@[step.fault_id],
            failure,
        ),
        after.has_had(&before, step.fault_id, seq![call_of(step, ctx)]),
        forall|other: Seq<char>|
            before@.dom().contains(other) && other != step.fault_id ==> #[trigger] after.holds_as(
                &before,
                other,
            ),
    ensures
        went(
            before,
            after,
            ctx,
            seq![step],
            if failure is None {
                1
            } else {
                0
            },
            failure,
        ),
{
    let steps = seq![step];
    let done: int = if failure is None {
        1
    } else {
        0
    };
    assert(steps.take(0) =~= Seq::<StepView>::empty());
    assert(steps.take(1) =~= steps);
    assert(steps.drop_last() =~= Seq::<StepView>::empty());
    assert(after@.dom() =~= before@.dom());
    assert(made(steps, done, failure) == steps);
    assert forall|id: Seq<char>| before@.dom().contains(id) implies #[trigger] after.has_had(
        &before,
        id,
        calls_to(made(steps, done, failure), ctx, id),
    ) by {
        reveal_with_fuel(calls_to, 2);
        if id == step.fault_id {
            assert(calls_to(steps, ctx, id) =~= seq![call_of(step, ctx)]);
        } else {
            after.lemma_held_alike(&before, id);
        }
    }
    reveal_with_fuel(armed_after, 2);
}

/// A run goes on where another ended.
proof fn lemma_went_on(
    first: InjectorRegistry,
    then: InjectorRegistry,
    last: InjectorRegistry,
    ctx: FaultContext,
    steps: Seq<StepView>,
    more: Seq<StepView>,
    done: int,
    failure: Option<ErrorView>,
)
    requires
        went(first, then, ctx, steps, steps.len() as int, None),
        went(then, last, ctx, more, done, failure),
        forall|i: int| 0 <= i < more.len() ==> first@.dom().contains((#[trigger] more[i]).fault_id),
    ensures
        went(first, last, ctx, steps + more, steps.len() + done, failure),
{
    let all = steps + more;
    let n = steps.len() as int;
    assert forall|i: int| 0 <= i < n + done implies #[trigger] step_may_succeed(
        first,
        ctx,
        all,
        i,
    ) by {
        if i < n {
            assert(all.take(i) =~= steps.take(i));
            assert(step_may_succeed(first, ctx, steps, i));
        } else {
            let j = i - n;
            assert(step_may_succeed(then, ctx, more, j));
            let armed = more[j].action == StepAction::Arm;
            lemma_step_may_earlier(first, then, ctx, steps, more, j, armed, None);
        }
    }
    if failure is Some {
        lemma_step_may_earlier(
            first,
            then,
            ctx,
            steps,
            more,
            done,
            last@[more[done].fault_id],
            failure,
        );
        assert(all.take(n + done + 1) =~= steps + more.take(done + 1));
        assert(all.take(n + done) =~= steps + more.take(done));
        lemma_armed_after_more(first@, steps, more.take(done));
    } else {
        lemma_armed_after_more(first@, steps, more);
    }
    assert(made(all, n + done, failure) == steps + made(more, done, failure));
    assert forall|id: Seq<char>| first@.dom().contains(id) implies #[trigger] last.has_had(
        &first,
        id,
        calls_to(made(all, n + done, failure), ctx, id),
    ) by {
        law_calls_add_up(steps, made(more, done, failure), ctx, id);
        assert(then.has_had(&first, id, calls_to(made(steps, n, None), ctx, id)));
        assert(last.has_had(&then, id, calls_to(made(more, done, failure), ctx, id)));
        registry::lemma_calls_follow(
            first,
            then,
            last,
            id,
            calls_to(steps, ctx, id),
            calls_to(made(more, done, failure), ctx, id),
        );
    }
}

proof fn lemma_step_may_earlier(
    first: InjectorRegistry,
    then: InjectorRegistry,
    ctx: FaultContext,
    steps: Seq<StepView>,
    more: Seq<StepView>,
    j: int,
    armed: bool,
    failure: Option<ErrorView>,
)
    requires
        went(first, then, ctx, steps, steps.len() as int, None),
        0 <= j < more.len(),
        first@.dom().contains(more[j].fault_id),
        step_may(then, ctx, more, j, armed, failure),
    ensures
        step_may(first, ctx, steps + more, steps.len() + j, armed, failure),
{
    let all = steps + more;
    let id = more[j].fault_id;
    assert(all.take(steps.len() + j) =~= steps + more.take(j));
    law_calls_add_up(steps, more.take(j), ctx, id);
    assert(then.has_had(&first, id, calls_to(made(steps, steps.len() as int, None), ctx, id)));
}

/// Steps behind the one that failed do not matter.
proof fn lemma_went_of_prefix(
    first: InjectorRegistry,
    last: InjectorRegistry,
    ctx: FaultContext,
    steps: Seq<StepView>,
    n: int,
    done: int,
    failure: Option<ErrorView>,
)
    requires
        0 <= n <= steps.len(),
        failure is Some,
        went(first, last, ctx, steps.take(n), done, failure),
    ensures
        went(first, last, ctx, steps, done, failure),
{
    let part = steps.take(n);
    assert forall|i: int| 0 <= i < done implies #[trigger] step_may_succeed(
        first,
        ctx,
        steps,
        i,
    ) by {
        assert(step_may_succeed(first, ctx, part, i));
        assert(part.take(i) =~= steps.take(i));
    }
    assert(part.take(done) =~= steps.take(done));
    assert(part.take(done + 1) =~= steps.take(done + 1));
    assert(made(part, done, failure) == made(steps, done, failure));
}

/// What steps call sooner and what they call later add up.
pub proof fn law_calls_add_up(
    steps: Seq<StepView>,
    more: Seq<StepView>,
    ctx: FaultContext,
    id: Seq<char>,
)
    ensures
        calls_to(steps + more, ctx, id) == calls_to(steps, ctx, id) + calls_to(more, ctx, id),
    decreases more.len(),
{
    if more.len() == 0 {
        assert(steps + more =~= steps);
        assert(calls_to(steps, ctx, id) + Seq::<Call>::empty() =~= calls_to(steps, ctx, id));
    } else {
        assert((steps + more).drop_last() =~= steps + more.drop_last());
        law_calls_add_up(steps, more.drop_last(), ctx, id);
        let before = calls_to(steps, ctx, id);
        let later = calls_to(more.drop_last(), ctx, id);
        let call = call_of(more.last(), ctx);
        assert((before + later).push(call) =~= before + later.push(call));
    }
}

proof fn lemma_recorded_up_to(
    before: TraceView,
    now: TraceView,
    schedule: ValidatedSchedule,
    ctx: FaultContext,
    fired_before: int,
    fired: int,
    wall_ns: u64,
)
    requires
        is_trace_up_to(before, schedule, ctx, fired_before),
        fired_before <= fired <= schedule.step_views().len(),
        now == (TraceView {
            events: before.events + events_at(
                schedule.step_views().subrange(fired_before, fired),
                wall_ns,
            ),
            ..before
        }),
        ctx.may_read(wall_ns),
    ensures
        is_trace_up_to(now, schedule, ctx, fired),
{
    let steps = schedule.step_views();
    let due = steps.subrange(fired_before, fired);
    assert forall|i: int| 0 <= i < fired implies {
        &&& (#[trigger] now.events[i]).step == steps[i]
        &&& ctx.may_read(now.events[i].wall_ns)
    } by {
        if i < fired_before {
            assert(now.events[i] == before.events[i]);
        } else {
            assert(now.events[i] == events_at(due, wall_ns)[i - fired_before]);
            assert(due[i - fired_before] == steps[i]);
        }
    }
}

/// Steps that follow steps take effect on what those left.
proof fn lemma_armed_after_more(
    armed: Map<Seq<char>, bool>,
    steps: Seq<StepView>,
    more: Seq<StepView>,
)
    ensures
        armed_after(armed, steps + more) == armed_after(armed_after(armed, steps), more),
    decreases more.len(),
{
    if more.len() == 0 {
        assert(steps + more =~= steps);
    } else {
        assert((steps + more).drop_last() =~= steps + more.drop_last());
        lemma_armed_after_more(armed, steps, more.drop_last());
    }
}

} // verus!
