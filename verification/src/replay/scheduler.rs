//! Walks a schedule against a virtual clock.
use vstd::prelude::*;

use crate::harness::clock;
use crate::harness::clock::{Clock, VirtualClock};
use crate::harness::scenario::{ScenarioStep, StepView};
use crate::replay::schedule;
use crate::replay::schedule::ValidatedSchedule;

verus! {

/// The first step, from `from` on, that is not due at `now`.
pub open spec fn due_end(steps: Seq<StepView>, from: int, now: u64) -> int
    decreases steps.len() - from,
{
    if from < 0 || from >= steps.len() || steps[from].at_ns > now {
        from
    } else {
        due_end(steps, from + 1, now)
    }
}

/// Yields the steps of a schedule as they come due. What arming and disarming
/// mean is up to the caller; this only says what fires now.
pub struct Scheduler<'a> {
    schedule: &'a ValidatedSchedule,
    clock: VirtualClock,
    cursor: usize,
}

impl<'a> Scheduler<'a> {
    /// The schedule that is walked.
    pub closed spec fn schedule(self) -> ValidatedSchedule {
        *self.schedule
    }

    /// The virtual time.
    pub closed spec fn now(self) -> u64 {
        self.clock@
    }

    /// How many steps have fired: the first ones of the schedule.
    pub closed spec fn fired(self) -> int {
        self.cursor as int
    }

    /// No more steps have fired than there are.
    #[verifier::type_invariant]
    pub open spec fn in_bounds(self) -> bool {
        0 <= self.fired() <= self.schedule().step_views().len()
    }

    pub fn new(schedule: &'a ValidatedSchedule, start_ns: u64) -> (r: Self)
        ensures
            r.schedule() == *schedule,
            r.now() == start_ns,
            r.fired() == 0,
    {
        Scheduler { schedule, clock: VirtualClock::new(start_ns), cursor: 0 }
    }

    pub fn now_ns(&self) -> (r: u64)
        ensures
            r == self.now(),
    {
        self.clock.now_ns()
    }

    /// Advances the virtual time and returns every step that is due by then
    /// and has not fired, in the order of the schedule.
    pub fn advance(&mut self, delta_ns: u64) -> (due: &'a [ScenarioStep])
        ensures
            final(self).schedule() == old(self).schedule(),
            final(self).now() == clock::advanced(old(self).now(), delta_ns),
            final(self).fired() == due_end(
                old(self).schedule().step_views(),
                old(self).fired(),
                final(self).now(),
            ),
            old(self).fired() <= final(self).fired() <= old(self).schedule().step_views().len(),
            due@ == old(self).schedule().scenario().steps@.subrange(
                old(self).fired(),
                final(self).fired(),
            ),
    {
        proof {
            use_type_invariant(&*self);
        }
        let mut clock = VirtualClock::new(self.clock.now_ns());
        clock.advance(delta_ns);
        let now: u64 = clock.now_ns();
        self.clock = clock;
        let start: usize = self.cursor;
        let steps = self.schedule.steps();
        let ghost views = self.schedule.step_views();
        assert(views.len() == steps@.len());
        let mut cursor: usize = start;
        while cursor < steps.len() && steps[cursor].at_ns <= now
            invariant
                start <= cursor <= steps@.len(),
                views.len() == steps@.len(),
                forall|i: int| 0 <= i < steps@.len() ==> views[i] == (#[trigger] steps@[i])@,
                due_end(views, start as int, now) == due_end(views, cursor as int, now),
            decreases steps@.len() - cursor,
        {
            assert(views[cursor as int] == steps@[cursor as int]@);
            cursor = cursor + 1;
        }
        assert(cursor < steps@.len() ==> views[cursor as int] == steps@[cursor as int]@);
        self.cursor = cursor;
        vstd::slice::slice_subrange(steps, start, cursor)
    }

    /// Whether every step has fired.
    pub fn is_finished(&self) -> (r: bool)
        ensures
            r == (self.fired() == self.schedule().step_views().len()),
    {
        proof {
            use_type_invariant(self);
        }
        self.cursor >= self.schedule.steps().len()
    }
}

/// What `due_end` spans: the steps passed are due, the step it stops at is not.
pub proof fn lemma_due_end(steps: Seq<StepView>, from: int, now: u64)
    requires
        0 <= from <= steps.len(),
    ensures
        from <= due_end(steps, from, now) <= steps.len(),
        forall|i: int| from <= i < due_end(steps, from, now) ==> steps[i].at_ns <= now,
        due_end(steps, from, now) < steps.len() ==> steps[due_end(steps, from, now)].at_ns > now,
    decreases steps.len() - from,
{
    if from < steps.len() && steps[from].at_ns <= now {
        lemma_due_end(steps, from + 1, now);
    }
}

/// No step fires before its time and none is passed over: of a schedule, those
/// that have fired by `now` are exactly those that are due by then.
pub proof fn law_fires_exactly_what_is_due(steps: Seq<StepView>, now: u64)
    requires
        schedule::first_fault(steps) is None,
    ensures
        0 <= due_end(steps, 0, now) <= steps.len(),
        forall|i: int|
            0 <= i < steps.len() ==> ((#[trigger] steps[i]).at_ns <= now <==> i < due_end(
                steps,
                0,
                now,
            )),
{
    lemma_due_end(steps, 0, now);
    schedule::law_schedule_is_sorted(steps);
    assert forall|i: int| 0 <= i < steps.len() implies ((#[trigger] steps[i]).at_ns <= now <==> i
        < due_end(steps, 0, now)) by {
        let end = due_end(steps, 0, now);
        if i >= end {
            assert(steps[end].at_ns <= steps[i].at_ns);
        }
    }
}

/// It does not matter how finely the clock is moved: what fires on the way to
/// a time, and then on to a later one, is what fires on the way straight to it.
pub proof fn law_advancing_in_two_goes(steps: Seq<StepView>, from: int, sooner: u64, later: u64)
    requires
        0 <= from <= steps.len(),
        sooner <= later,
    ensures
        due_end(steps, due_end(steps, from, sooner), later) == due_end(steps, from, later),
        steps.subrange(from, due_end(steps, from, sooner)) + steps.subrange(
            due_end(steps, from, sooner),
            due_end(steps, from, later),
        ) == steps.subrange(from, due_end(steps, from, later)),
    decreases steps.len() - from,
{
    lemma_due_end(steps, from, sooner);
    let middle = due_end(steps, from, sooner);
    lemma_due_end(steps, middle, later);
    if from < steps.len() && steps[from].at_ns <= sooner {
        law_advancing_in_two_goes(steps, from + 1, sooner, later);
    }
    let end = due_end(steps, from, later);
    assert(steps.subrange(from, middle) + steps.subrange(middle, end) =~= steps.subrange(
        from,
        end,
    ));
}

/// A step fires on the first tick at or behind the time at which it is due,
/// less than a tick late.
pub proof fn law_step_fires_within_a_tick(steps: Seq<StepView>, now: u64, tick: u64, i: int)
    requires
        schedule::first_fault(steps) is None,
        0 <= i < steps.len(),
        due_end(steps, 0, now) <= i < due_end(steps, 0, clock::advanced(now, tick)),
    ensures
        steps[i].at_ns <= clock::advanced(now, tick) < steps[i].at_ns + tick,
{
    law_fires_exactly_what_is_due(steps, now);
    law_fires_exactly_what_is_due(steps, clock::advanced(now, tick));
}

} // verus!
