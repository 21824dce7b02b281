//! A run against the clock of the machine, one look at the clock at a time.
use vstd::prelude::*;

use crate::harness::clock;
use crate::harness::error;
use crate::harness::error::HarnessError;
use crate::harness::scenario;
use crate::replay::runner;
use crate::replay::runner::Runner;
use crate::replay::schedule::ValidatedSchedule;
use crate::replay::scheduler;
use crate::replay::scheduler::Scheduler;
use crate::replay::trace::{Trace, TraceView};

verus! {

/// A run that follows a clock it does not control. Whoever drives it waits,
/// reads the clock, and hands the reading to `tick`.
pub struct RealtimeRun<'a> {
    scheduler: Scheduler<'a>,
    trace: Trace,
    last_ns: u64,
    readings: Ghost<Seq<u64>>,
}

/// How far a clock has moved between two readings. One that went back has not
/// moved.
pub open spec fn elapsed(earlier: u64, later: u64) -> u64 {
    if later >= earlier {
        (later - earlier) as u64
    } else {
        0
    }
}

/// How long a run has lasted after these readings of its clock, the first of
/// which is that of its start.
pub open spec fn offset_over(readings: Seq<u64>) -> u64
    decreases readings.len(),
{
    if readings.len() <= 1 {
        0
    } else {
        clock::advanced(
            offset_over(readings.drop_last()),
            elapsed(readings[readings.len() - 2], readings.last()),
        )
    }
}

/// Whether no reading is below an earlier one.
pub open spec fn never_goes_back(readings: Seq<u64>) -> bool {
    forall|i: int, j: int| 0 <= i <= j < readings.len() ==> readings[i] <= readings[j]
}

impl<'a> RealtimeRun<'a> {
    /// The schedule that is run.
    pub closed spec fn schedule(self) -> ValidatedSchedule {
        self.scheduler.schedule()
    }

    /// How long the run has lasted.
    pub closed spec fn offset(self) -> u64 {
        self.scheduler.now()
    }

    /// How many steps have come due.
    pub closed spec fn fired(self) -> int {
        self.scheduler.fired()
    }

    /// What has been recorded.
    pub closed spec fn trace(self) -> TraceView {
        self.trace@
    }

    /// The last reading of the clock.
    pub closed spec fn last_ns(self) -> u64 {
        self.last_ns
    }

    /// The readings of the clock, from the one at the start to the last.
    pub closed spec fn readings(self) -> Seq<u64> {
        self.readings@
    }

    /// The run is as old as the readings say, and the steps that have come due
    /// by then have fired. None has before the first look at the clock.
    pub open spec fn keeps_time(self) -> bool {
        &&& self.readings().len() >= 1
        &&& self.readings().last() == self.last_ns()
        &&& self.offset() == offset_over(self.readings())
        &&& self.fired() == (if self.readings().len() == 1 {
            0
        } else {
            scheduler::due_end(self.schedule().step_views(), 0, self.offset())
        })
    }

    /// The trace holds the steps that have come due, in order.
    pub open spec fn well_formed(self) -> bool {
        &&& 0 <= self.fired() <= self.schedule().step_views().len()
        &&& self.trace().scenario_name == self.schedule().scenario().name@
        &&& self.trace().seed == self.schedule().scenario().seed
        &&& self.trace().steps() == self.schedule().step_views().take(self.fired())
    }

    /// A run that starts at this reading of the clock. Nothing has fired yet.
    pub fn start(schedule: &'a ValidatedSchedule, now_ns: u64) -> (r: Self)
        ensures
            r.well_formed(),
            r.schedule() == *schedule,
            r.offset() == 0,
            r.fired() == 0,
            r.last_ns() == now_ns,
            r.trace().events.len() == 0,
            r.readings() == seq![now_ns],
            r.keeps_time(),
    {
        let r = RealtimeRun {
            scheduler: Scheduler::new(schedule, 0),
            trace: Trace::new(schedule.name(), schedule.seed()),
            last_ns: now_ns,
            readings: Ghost(Seq::empty().push(now_ns)),
        };
        assert(r.readings() =~= seq![now_ns]);
        assert(r.trace().steps() =~= schedule.step_views().take(0));
        r
    }

    /// Whether every step has come due.
    pub fn is_finished(&self) -> (r: bool)
        ensures
            r == (self.fired() == self.schedule().step_views().len()),
    {
        self.scheduler.is_finished()
    }

    /// Takes a reading of the clock: performs the steps that have come due
    /// since the last one and records them with this reading. Stops at the
    /// first call that fails.
    pub fn tick(&mut self, runner: &mut Runner, now_ns: u64) -> (r: Result<(), HarnessError>)
        requires
            old(self).well_formed(),
            old(runner).well_formed(),
            old(runner).schedule() == old(self).schedule(),
        ensures
            final(runner).well_formed(),
            final(runner).injectors().well_formed(),
            final(runner).schedule() == old(runner).schedule(),
            final(runner).ctx() == old(runner).ctx(),
            final(self).schedule() == old(self).schedule(),
            final(self).last_ns() == now_ns,
            final(self).readings() == old(self).readings().push(now_ns),
            old(self).keeps_time() ==> final(self).keeps_time(),
            old(self).keeps_time() && never_goes_back(final(self).readings())
                ==> final(self).offset() == now_ns - old(self).readings()[0],
            final(self).offset() == clock::advanced(
                old(self).offset(),
                elapsed(old(self).last_ns(), now_ns),
            ),
            final(self).fired() == scheduler::due_end(
                old(self).schedule().step_views(),
                old(self).fired(),
                final(self).offset(),
            ),
            ({
                let due = old(self).schedule().step_views().subrange(
                    old(self).fired(),
                    final(self).fired(),
                );
                &&& exists|done: int| #[trigger]
                    runner::went(
                        old(runner).injectors(),
                        final(runner).injectors(),
                        old(runner).ctx(),
                        due,
                        done,
                        error::failure_of(r),
                    ) && runner::recorded(
                        due,
                        done,
                        now_ns,
                        old(self).trace(),
                        final(self).trace(),
                    )
                &&& r is Ok ==> final(self).well_formed()
            }),
    {
        let delta: u64 = now_ns.saturating_sub(self.last_ns);
        self.last_ns = now_ns;
        proof {
            self.readings@ = self.readings@.push(now_ns);
        }
        let due = self.scheduler.advance(delta);
        let ghost steps = self.schedule().step_views();
        let ghost due_views = steps.subrange(old(self).fired(), self.fired());
        proof {
            assert(scenario::step_views(due@) =~= due_views);
            runner.lemma_steps_are_registered(old(self).fired(), self.fired());
        }
        let r = runner.fire_steps(due, now_ns, &mut self.trace);
        proof {
            if old(self).keeps_time() {
                assert(self.readings().drop_last() =~= old(self).readings());
                if old(self).readings().len() > 1 {
                    scheduler::law_advancing_in_two_goes(
                        steps,
                        0,
                        old(self).offset(),
                        self.offset(),
                    );
                }
                assert(self.keeps_time());
                if never_goes_back(self.readings()) {
                    lemma_offset_is_the_difference(self.readings());
                }
            }
            let done = choose|done: int| #[trigger]
                runner::went(
                    old(runner).injectors(),
                    runner.injectors(),
                    old(runner).ctx(),
                    due_views,
                    done,
                    error::failure_of(r),
                ) && runner::recorded(due_views, done, now_ns, old(self).trace(), self.trace());
            assert(runner::recorded(due_views, done, now_ns, old(self).trace(), self.trace()));
            if r is Ok {
                assert(due_views.take(done) =~= due_views);
                let events = runner::events_at(due_views, now_ns);
                assert(self.trace().steps() =~= old(self).trace().steps() + due_views) by {
                    assert forall|i: int| 0 <= i < due_views.len() implies (#[trigger] events[i]).step
                        == due_views[i] by {}
                }
                assert(steps.take(old(self).fired()) + due_views =~= steps.take(self.fired()));
            }
        }
        r
    }

    /// What has been recorded.
    pub fn into_trace(self) -> (r: Trace)
        ensures
            r@ == self.trace(),
    {
        self.trace
    }
}

proof fn lemma_offset_is_the_difference(readings: Seq<u64>)
    requires
        readings.len() >= 1,
        never_goes_back(readings),
    ensures
        offset_over(readings) == readings.last() - readings[0],
    decreases readings.len(),
{
    if readings.len() > 1 {
        let before = readings.drop_last();
        assert forall|i: int, j: int| 0 <= i <= j < before.len() implies before[i]
            <= before[j] by {
            assert(readings[i] <= readings[j]);
        }
        lemma_offset_is_the_difference(before);
        assert(before.last() == readings[readings.len() - 2]);
        assert(readings[readings.len() - 2] <= readings[readings.len() - 1]);
        assert(readings[0] <= readings[readings.len() - 2]);
    }
}

/// A run is as old as its clock says: while no reading goes back, it has lasted
/// from the reading at its start to the last one, and the steps that have fired
/// are exactly those that are due by then.
pub proof fn law_run_follows_its_clock(run: RealtimeRun)
    requires
        run.keeps_time(),
        run.schedule().well_formed(),
        never_goes_back(run.readings()),
    ensures
        run.offset() == run.readings().last() - run.readings()[0],
        run.readings().len() > 1 ==> forall|i: int|
            0 <= i < run.schedule().step_views().len() ==> ((
            #[trigger] run.schedule().step_views()[i]).at_ns <= run.readings().last()
                - run.readings()[0] <==> i < run.fired()),
        run.readings().len() == 1 ==> run.fired() == 0,
{
    lemma_offset_is_the_difference(run.readings());
    scheduler::law_fires_exactly_what_is_due(run.schedule().step_views(), run.offset());
}

/// One more reading makes a run older by as much as the clock has moved since
/// the one before it, up to the last value that fits. A clock that went back
/// makes it no older, and from then on counts from where it is.
pub proof fn law_run_ages_with_each_reading(readings: Seq<u64>, next: u64)
    requires
        readings.len() >= 1,
    ensures
        ({
            let age = offset_over(readings);
            let later = offset_over(readings.push(next));
            &&& next < readings.last() ==> later == age
            &&& next >= readings.last() && age + (next - readings.last()) <= u64::MAX ==> later
                == age + (next - readings.last())
            &&& next >= readings.last() && age + (next - readings.last()) > u64::MAX ==> later
                == u64::MAX
        }),
{
    assert(readings.push(next).drop_last() =~= readings);
}

} // verus!
