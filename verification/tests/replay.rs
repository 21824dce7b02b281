use std::sync::atomic::{AtomicU64, AtomicUsize, Ordering};
use std::sync::{Arc, Mutex};

use blackswan::harness::clock::{Clock, SystemClock, VirtualClock};
use blackswan::harness::error::HarnessError;
use blackswan::harness::fault::{FaultContext, FaultInjector};
use blackswan::harness::scenario::{Scenario, ScenarioStep, StepAction};
use blackswan::replay::{
    DeterministicRng, InjectorRegistry, RealtimeRun, Runner, Scheduler, Trace, ValidatedSchedule,
};

// Counts the calls it gets, and fails the one it is told to fail.
struct CountingInjector {
    id: String,
    armed: bool,
    arm_calls: Arc<AtomicUsize>,
    disarm_calls: Arc<AtomicUsize>,
    fail_arm: bool,
    fail_disarm: bool,
}

impl FaultInjector for CountingInjector {
    fn armed(&self) -> bool {
        self.armed
    }

    fn id(&self) -> &str {
        &self.id
    }

    fn arm(&mut self, _ctx: &FaultContext) -> Result<(), HarnessError> {
        self.arm_calls.fetch_add(1, Ordering::SeqCst);
        if self.fail_arm {
            return Err(HarnessError::ArmFailed(self.id.clone(), "told to".into()));
        }
        self.armed = true;
        Ok(())
    }

    fn disarm(&mut self) -> Result<(), HarnessError> {
        self.disarm_calls.fetch_add(1, Ordering::SeqCst);
        if self.fail_disarm {
            return Err(HarnessError::DisarmFailed(self.id.clone(), "told to".into()));
        }
        self.armed = false;
        Ok(())
    }

    fn is_armed(&self) -> bool {
        self.armed
    }
}

fn counting(id: &str) -> (CountingInjector, Arc<AtomicUsize>, Arc<AtomicUsize>) {
    let arm_calls = Arc::new(AtomicUsize::new(0));
    let disarm_calls = Arc::new(AtomicUsize::new(0));
    let injector = CountingInjector {
        id: id.into(),
        armed: false,
        arm_calls: arm_calls.clone(),
        disarm_calls: disarm_calls.clone(),
        fail_arm: false,
        fail_disarm: false,
    };
    (injector, arm_calls, disarm_calls)
}

fn ctx() -> FaultContext {
    FaultContext { clock: Arc::new(SystemClock), seed: 1 }
}

fn step(at_ns: u64, fault_id: &str, action: StepAction) -> ScenarioStep {
    ScenarioStep { at_ns, fault_id: fault_id.into(), action }
}

fn schedule_of(steps: Vec<ScenarioStep>) -> ValidatedSchedule {
    ValidatedSchedule::validate(Scenario { name: "test".into(), seed: 1, steps }).unwrap()
}

#[test]
fn virtual_clock_only_moves_when_told() {
    let mut clock = VirtualClock::new(1_000);
    assert_eq!(clock.now_ns(), 1_000);
    clock.advance(500);
    assert_eq!(clock.now_ns(), 1_500);
}

#[test]
fn virtual_clock_never_goes_back() {
    let mut clock = VirtualClock::new(u64::MAX - 2);
    clock.advance(2);
    assert_eq!(clock.now_ns(), u64::MAX);
    clock.advance(3);
    assert_eq!(clock.now_ns(), u64::MAX);
}

#[test]
fn system_clock_reads_a_time_of_this_century() {
    let first = SystemClock.now_ns();
    assert!(first > 1_500_000_000_000_000_000);
    assert!(SystemClock.now_ns() >= first);
}

#[test]
fn same_seed_same_sequence() {
    let mut a = DeterministicRng::from_seed(42);
    let mut b = DeterministicRng::from_seed(42);
    for _ in 0..1000 {
        assert_eq!(a.next_u64(), b.next_u64());
    }
}

#[test]
fn different_seed_diverges() {
    let mut a = DeterministicRng::from_seed(1);
    let mut b = DeterministicRng::from_seed(2);
    assert_ne!(a.next_u64(), b.next_u64());
}

#[test]
fn matches_reference_vector() {
    // First output of the reference splitmix64.c for this seed.
    let mut rng = DeterministicRng::from_seed(1234567);
    assert_eq!(rng.next_u64(), 6457827717110365317);
}

#[test]
fn next_f64_stays_in_unit_range() {
    let mut rng = DeterministicRng::from_seed(7);
    for _ in 0..10_000 {
        let f = rng.next_unit_bits() as f64 * (1.0 / (1u64 << 53) as f64);
        assert!((0.0..1.0).contains(&f));
    }
}

#[test]
fn ranges_hold_their_ends() {
    let mut rng = DeterministicRng::from_seed(9);
    for _ in 0..1000 {
        let n = rng.gen_range_u64(10, 13);
        assert!((10..13).contains(&n));
    }
    assert_eq!(rng.gen_range_u64(5, 6), 5);
    let mut raw = DeterministicRng::from_seed(3);
    let mut ranged = DeterministicRng::from_seed(3);
    assert_eq!(ranged.gen_range_u64(100, 1_100), 100 + raw.next_u64() % 1_000);
}

#[test]
fn rejects_schedule_referencing_unknown_fault_id() {
    let scenario = Scenario {
        name: "test".into(),
        seed: 1,
        steps: vec![ScenarioStep {
            at_ns: 0,
            fault_id: "does-not-exist".into(),
            action: StepAction::Arm,
        }],
    };
    let schedule = ValidatedSchedule::validate(scenario).unwrap();
    let injectors = InjectorRegistry::new();

    assert!(Runner::new(&schedule, injectors, ctx()).is_err());
}

#[test]
fn the_first_unknown_fault_is_named() {
    let schedule = schedule_of(vec![
        step(0, "a", StepAction::Arm),
        step(1, "b", StepAction::Arm),
        step(2, "c", StepAction::Arm),
    ]);
    let mut injectors = InjectorRegistry::new();
    injectors.insert("a".into(), Box::new(counting("a").0));
    match Runner::new(&schedule, injectors, ctx()) {
        Err(e) => assert_eq!(
            e.message(),
            "scenario config invalid: step references fault_id b which has no registered injector"
        ),
        Ok(_) => panic!("b is not registered"),
    }
}

#[test]
fn arms_and_disarms_registered_injector_at_the_right_times() {
    let (injector, arm_calls, disarm_calls) = counting("pkt-loss");

    let scenario = Scenario {
        name: "test".into(),
        seed: 1,
        steps: vec![
            ScenarioStep { at_ns: 1_000, fault_id: "pkt-loss".into(), action: StepAction::Arm },
            ScenarioStep { at_ns: 5_000, fault_id: "pkt-loss".into(), action: StepAction::Disarm },
        ],
    };
    let schedule = ValidatedSchedule::validate(scenario).unwrap();

    let mut injectors = InjectorRegistry::new();
    injectors.insert("pkt-loss".into(), Box::new(injector));

    let mut runner = Runner::new(&schedule, injectors, ctx()).unwrap();
    let trace = runner.run(500).unwrap();

    assert_eq!(arm_calls.load(Ordering::SeqCst), 1);
    assert_eq!(disarm_calls.load(Ordering::SeqCst), 1);
    assert_eq!(trace.events.len(), 2);
}

#[test]
fn teardown_disarms_anything_left_armed() {
    let (injector, arm_calls, disarm_calls) = counting("pkt-loss");
    let schedule = schedule_of(vec![step(0, "pkt-loss", StepAction::Arm)]);
    let mut injectors = InjectorRegistry::new();
    injectors.insert("pkt-loss".into(), Box::new(injector));

    let mut runner = Runner::new(&schedule, injectors, ctx()).unwrap();
    runner.run(1_000).unwrap();
    assert_eq!(arm_calls.load(Ordering::SeqCst), 1);
    assert_eq!(disarm_calls.load(Ordering::SeqCst), 0);
    assert_eq!(runner.is_armed("pkt-loss"), Some(true));
    assert!(runner.teardown().is_ok());
    assert_eq!(disarm_calls.load(Ordering::SeqCst), 1);
    assert_eq!(runner.is_armed("pkt-loss"), Some(false));
    assert!(runner.teardown().is_ok());
    assert_eq!(disarm_calls.load(Ordering::SeqCst), 1);
    assert_eq!(runner.is_armed("other"), None);
}

#[test]
fn teardown_goes_on_after_a_failure_and_returns_the_first() {
    let schedule = schedule_of(vec![
        step(0, "a", StepAction::Arm),
        step(0, "b", StepAction::Arm),
        step(0, "c", StepAction::Arm),
    ]);
    let mut injectors = InjectorRegistry::new();
    let (mut a, _, a_disarms) = counting("a");
    a.fail_disarm = true;
    let (mut b, _, b_disarms) = counting("b");
    b.fail_disarm = true;
    let (c, _, c_disarms) = counting("c");
    injectors.insert("a".into(), Box::new(a));
    injectors.insert("b".into(), Box::new(b));
    injectors.insert("c".into(), Box::new(c));
    let mut runner = Runner::new(&schedule, injectors, ctx()).unwrap();
    runner.run(1).unwrap();
    let error = runner.teardown().unwrap_err();
    assert_eq!(error.message(), "fault injector a failed to disarm: told to");
    assert_eq!(a_disarms.load(Ordering::SeqCst), 1);
    assert_eq!(b_disarms.load(Ordering::SeqCst), 1);
    assert_eq!(c_disarms.load(Ordering::SeqCst), 1);
    assert_eq!(runner.is_armed("a"), Some(true));
    assert_eq!(runner.is_armed("c"), Some(false));
}

#[test]
fn a_run_stops_at_the_first_call_that_fails() {
    let schedule = schedule_of(vec![
        step(10, "a", StepAction::Arm),
        step(20, "b", StepAction::Arm),
        step(30, "a", StepAction::Disarm),
    ]);
    let mut injectors = InjectorRegistry::new();
    let (a, a_arms, a_disarms) = counting("a");
    let (mut b, b_arms, _) = counting("b");
    b.fail_arm = true;
    injectors.insert("a".into(), Box::new(a));
    injectors.insert("b".into(), Box::new(b));
    let mut runner = Runner::new(&schedule, injectors, ctx()).unwrap();
    let error = runner.run(7).unwrap_err();
    assert_eq!(error.message(), "fault injector b failed to arm: told to");
    assert_eq!(a_arms.load(Ordering::SeqCst), 1);
    assert_eq!(b_arms.load(Ordering::SeqCst), 1);
    assert_eq!(a_disarms.load(Ordering::SeqCst), 0);
    assert_eq!(runner.is_armed("a"), Some(true));
}

#[test]
fn a_later_injector_of_the_same_id_replaces_the_first() {
    let mut injectors = InjectorRegistry::new();
    let (first, first_arms, _) = counting("a");
    let (second, second_arms, _) = counting("a");
    injectors.insert("a".into(), Box::new(first));
    injectors.insert("a".into(), Box::new(second));
    let schedule = schedule_of(vec![step(0, "a", StepAction::Arm)]);
    let mut runner = Runner::new(&schedule, injectors, ctx()).unwrap();
    runner.run(1).unwrap();
    assert_eq!(first_arms.load(Ordering::SeqCst), 0);
    assert_eq!(second_arms.load(Ordering::SeqCst), 1);
}

// Reads one more every time it is looked at.
struct CountingClock(AtomicU64);

impl Clock for CountingClock {
    fn now_ns(&self) -> u64 {
        self.0.fetch_add(1, Ordering::SeqCst)
    }
}

fn run_in_ticks(tick_ns: u64, start: u64) -> Trace {
    let schedule = schedule_of(vec![
        step(0, "a", StepAction::Arm),
        step(1_000, "b", StepAction::Arm),
        step(1_001, "a", StepAction::Disarm),
        step(2_500, "b", StepAction::Disarm),
    ]);
    let mut injectors = InjectorRegistry::new();
    injectors.insert("a".into(), Box::new(counting("a").0));
    injectors.insert("b".into(), Box::new(counting("b").0));
    let ctx = FaultContext { clock: Arc::new(CountingClock(AtomicU64::new(start))), seed: 1 };
    let mut runner = Runner::new(&schedule, injectors, ctx).unwrap();
    runner.run(tick_ns).unwrap()
}

fn times(trace: &Trace) -> Vec<u64> {
    trace.events.iter().map(|e| e.wall_ns).collect()
}

#[test]
fn steps_are_recorded_with_what_the_clock_of_the_run_read() {
    // all four come due on one tick, and the clock is looked at once
    assert_eq!(times(&run_in_ticks(10_000, 77)), vec![77; 4]);
    for wall_ns in times(&run_in_ticks(1, 1_000_000)) {
        assert!(wall_ns >= 1_000_000);
    }
}

#[test]
fn runs_replay_each_other() {
    let one = run_in_ticks(300, 0);
    assert!(one.matches_schedule(&run_in_ticks(300, 5)));
    assert!(one.matches_schedule(&run_in_ticks(7, 9)));
    assert!(run_in_ticks(7, 0).matches_schedule(&one));
}

#[test]
fn a_run_reaches_a_step_at_the_end_of_time() {
    let schedule = schedule_of(vec![step(u64::MAX, "a", StepAction::Arm)]);
    let mut injectors = InjectorRegistry::new();
    injectors.insert("a".into(), Box::new(counting("a").0));
    let mut runner = Runner::new(&schedule, injectors, ctx()).unwrap();
    assert_eq!(runner.run(u64::MAX / 2).unwrap().events.len(), 1);
}

// Keeps the seeds it is armed with.
struct SeedKeeper(Arc<Mutex<Vec<u64>>>, bool);

impl FaultInjector for SeedKeeper {
    fn armed(&self) -> bool {
        self.1
    }

    fn id(&self) -> &str {
        "a"
    }

    fn arm(&mut self, ctx: &FaultContext) -> Result<(), HarnessError> {
        self.0.lock().unwrap().push(ctx.seed);
        self.1 = true;
        Ok(())
    }

    fn disarm(&mut self) -> Result<(), HarnessError> {
        self.1 = false;
        Ok(())
    }

    fn is_armed(&self) -> bool {
        self.1
    }
}

#[test]
fn every_arm_call_gets_the_seed_of_the_run() {
    let seeds = Arc::new(Mutex::new(Vec::new()));
    let schedule = schedule_of(vec![
        step(0, "a", StepAction::Arm),
        step(1, "a", StepAction::Disarm),
        step(2, "a", StepAction::Arm),
    ]);
    let mut injectors = InjectorRegistry::new();
    injectors.insert("a".into(), Box::new(SeedKeeper(seeds.clone(), false)));
    let ctx = FaultContext { clock: Arc::new(SystemClock), seed: 4711 };
    let mut runner = Runner::new(&schedule, injectors, ctx).unwrap();
    assert!(seeds.lock().unwrap().is_empty());
    runner.run(1).unwrap();
    assert_eq!(*seeds.lock().unwrap(), vec![4711, 4711]);
}

#[test]
fn a_run_without_steps_ends_at_once() {
    let schedule = schedule_of(Vec::new());
    let mut runner = Runner::new(&schedule, InjectorRegistry::new(), ctx()).unwrap();
    let trace = runner.run(0).unwrap();
    assert!(trace.events.is_empty());
    assert_eq!(trace.scenario_name, "test");
    assert_eq!(trace.seed, 1);
}

#[test]
fn a_realtime_run_follows_the_clock_and_replays() {
    let schedule = schedule_of(vec![
        step(0, "a", StepAction::Arm),
        step(1_000, "a", StepAction::Disarm),
    ]);
    let registry = || {
        let mut injectors = InjectorRegistry::new();
        injectors.insert("a".into(), Box::new(counting("a").0));
        injectors
    };
    let mut runner = Runner::new(&schedule, registry(), ctx()).unwrap();
    let mut run = RealtimeRun::start(&schedule, 70_000);
    assert!(!run.is_finished());
    run.tick(&mut runner, 70_010).unwrap();
    assert_eq!(runner.is_armed("a"), Some(true));
    // a clock that goes back has not moved
    run.tick(&mut runner, 69_500).unwrap();
    run.tick(&mut runner, 70_400).unwrap();
    assert!(!run.is_finished());
    run.tick(&mut runner, 70_500).unwrap();
    assert!(run.is_finished());
    let trace = run.into_trace();
    assert_eq!(times(&trace), vec![70_010, 70_500]);

    let mut again = Runner::new(&schedule, registry(), ctx()).unwrap();
    assert!(again.run(10).unwrap().matches_schedule(&trace));
}

#[test]
fn a_realtime_run_passes_a_failure_on() {
    let schedule = schedule_of(vec![step(5, "a", StepAction::Arm)]);
    let mut injectors = InjectorRegistry::new();
    let (mut a, _, _) = counting("a");
    a.fail_arm = true;
    injectors.insert("a".into(), Box::new(a));
    let mut runner = Runner::new(&schedule, injectors, ctx()).unwrap();
    let mut run = RealtimeRun::start(&schedule, 0);
    run.tick(&mut runner, 4).unwrap();
    assert!(run.tick(&mut runner, 5).is_err());
    assert!(run.into_trace().events.is_empty());
}

fn scenario_with(steps: Vec<ScenarioStep>) -> Scenario {
    Scenario { name: "test".into(), seed: 1, steps }
}

#[test]
fn accepts_well_formed_schedule() {
    let s = scenario_with(vec![
        ScenarioStep { at_ns: 0, fault_id: "pkt-loss".into(), action: StepAction::Arm },
        ScenarioStep { at_ns: 1000, fault_id: "pkt-loss".into(), action: StepAction::Disarm },
    ]);
    assert!(ValidatedSchedule::validate(s).is_ok());
}

#[test]
fn rejects_out_of_order_steps() {
    let s = scenario_with(vec![
        ScenarioStep { at_ns: 1000, fault_id: "pkt-loss".into(), action: StepAction::Arm },
        ScenarioStep { at_ns: 500, fault_id: "pkt-loss".into(), action: StepAction::Disarm },
    ]);
    assert!(ValidatedSchedule::validate(s).is_err());
}

#[test]
fn rejects_double_arm() {
    let s = scenario_with(vec![
        ScenarioStep { at_ns: 0, fault_id: "pkt-loss".into(), action: StepAction::Arm },
        ScenarioStep { at_ns: 100, fault_id: "pkt-loss".into(), action: StepAction::Arm },
    ]);
    assert!(ValidatedSchedule::validate(s).is_err());
}

#[test]
fn rejects_disarm_without_arm() {
    let s = scenario_with(vec![ScenarioStep {
        at_ns: 0,
        fault_id: "pkt-loss".into(),
        action: StepAction::Disarm,
    }]);
    assert!(ValidatedSchedule::validate(s).is_err());
}

fn complaint(steps: Vec<ScenarioStep>) -> String {
    match ValidatedSchedule::validate(scenario_with(steps)) {
        Err(e) => e.message(),
        Ok(_) => panic!("the schedule should not be accepted"),
    }
}

#[test]
fn a_rejected_schedule_says_what_is_wrong_first() {
    assert_eq!(
        complaint(vec![step(1000, "x", StepAction::Arm), step(500, "y", StepAction::Arm)]),
        "scenario config invalid: step for y at 500ns is out of order, previous step was at 1000ns"
    );
    assert_eq!(
        complaint(vec![
            step(0, "x", StepAction::Arm),
            step(0, "x", StepAction::Arm),
            step(0, "y", StepAction::Disarm)
        ]),
        "scenario config invalid: fault x armed twice without an intervening disarm"
    );
    assert_eq!(
        complaint(vec![step(7, "y", StepAction::Disarm)]),
        "scenario config invalid: fault y disarmed but was never armed"
    );
    let schedule = schedule_of(vec![
        step(5, "x", StepAction::Arm),
        step(5, "x", StepAction::Disarm),
        step(5, "x", StepAction::Arm),
    ]);
    assert_eq!(schedule.steps().len(), 3);
    assert_eq!(schedule.name(), "test");
    assert_eq!(schedule.seed(), 1);
}

fn two_step_schedule() -> ValidatedSchedule {
    let scenario = Scenario {
        name: "test".into(),
        seed: 1,
        steps: vec![
            ScenarioStep { at_ns: 1_000, fault_id: "a".into(), action: StepAction::Arm },
            ScenarioStep { at_ns: 5_000, fault_id: "a".into(), action: StepAction::Disarm },
        ],
    };
    ValidatedSchedule::validate(scenario).unwrap()
}

#[test]
fn nothing_fires_before_its_time() {
    let schedule = two_step_schedule();
    let mut sched = Scheduler::new(&schedule, 0);
    assert!(sched.advance(500).is_empty());
    assert_eq!(sched.now_ns(), 500);
}

#[test]
fn step_fires_once_time_reaches_it() {
    let schedule = two_step_schedule();
    let mut sched = Scheduler::new(&schedule, 0);
    sched.advance(500);
    let due = sched.advance(600); // now at 1100ns, first step was at 1000ns
    assert_eq!(due.len(), 1);
    assert_eq!(due[0].fault_id, "a");
}

#[test]
fn coalesces_multiple_due_steps_in_one_advance() {
    let schedule = two_step_schedule();
    let mut sched = Scheduler::new(&schedule, 0);
    let due = sched.advance(10_000); // jumps past both steps at once
    assert_eq!(due.len(), 2);
    assert!(sched.is_finished());
}

#[test]
fn a_step_fires_exactly_when_the_clock_reads_its_time_and_not_again() {
    let schedule = two_step_schedule();
    let mut sched = Scheduler::new(&schedule, 0);
    assert_eq!(sched.advance(1_000).len(), 1);
    assert!(sched.advance(0).is_empty());
    assert!(!sched.is_finished());
    assert!(sched.advance(3_999).is_empty());
    assert_eq!(sched.advance(1)[0].action, StepAction::Disarm);
    assert!(sched.is_finished());
}

#[test]
fn matches_schedule_ignores_wall_time_but_not_seed() {
    let mut a = Trace::new("s", 1);
    a.record(ScenarioStep { at_ns: 0, fault_id: "x".into(), action: StepAction::Arm }, 100);

    let mut b = Trace::new("s", 1);
    b.record(
        ScenarioStep { at_ns: 0, fault_id: "x".into(), action: StepAction::Arm },
        999_999, // different wall time, same schedule
    );
    assert!(a.matches_schedule(&b));

    let mut c = Trace::new("s", 2); // different seed
    c.record(ScenarioStep { at_ns: 0, fault_id: "x".into(), action: StepAction::Arm }, 100);
    assert!(!a.matches_schedule(&c));
}

#[test]
fn matches_schedule_looks_at_every_step() {
    let trace_of = |steps: Vec<ScenarioStep>| {
        let mut trace = Trace::new("s", 1);
        for step in steps {
            trace.record(step, 0);
        }
        trace
    };
    let base = trace_of(vec![step(0, "x", StepAction::Arm), step(1, "x", StepAction::Disarm)]);
    assert!(!base.matches_schedule(&trace_of(vec![step(0, "x", StepAction::Arm)])));
    for other in [
        step(2, "x", StepAction::Disarm),
        step(1, "y", StepAction::Disarm),
        step(1, "x", StepAction::Arm),
    ] {
        assert!(!base.matches_schedule(&trace_of(vec![step(0, "x", StepAction::Arm), other])));
    }
    // the name of the scenario does not count
    let mut renamed = base.clone();
    renamed.scenario_name = "t".into();
    assert!(base.matches_schedule(&renamed));
}

#[test]
fn a_run_leaves_armed_what_its_schedule_leaves_armed() {
    let schedule = schedule_of(vec![
        step(1, "a", StepAction::Arm),
        step(2, "b", StepAction::Arm),
        step(3, "a", StepAction::Disarm),
        step(4, "c", StepAction::Arm),
        step(5, "a", StepAction::Arm),
        step(6, "b", StepAction::Disarm),
    ]);
    let mut injectors = InjectorRegistry::new();
    for id in ["a", "b", "c", "never-named"] {
        injectors.insert(id.into(), Box::new(counting(id).0));
    }
    let mut runner = Runner::new(&schedule, injectors, ctx()).unwrap();
    runner.run(2).unwrap();
    assert_eq!(runner.is_armed("a"), Some(true));
    assert_eq!(runner.is_armed("b"), Some(false));
    assert_eq!(runner.is_armed("c"), Some(true));
    assert_eq!(runner.is_armed("never-named"), Some(false));
}

#[test]
fn it_does_not_matter_how_finely_a_scheduler_is_moved() {
    let ids = |steps: &[ScenarioStep]| -> Vec<u64> { steps.iter().map(|s| s.at_ns).collect() };
    let schedule = two_step_schedule();
    for first in [0, 999, 1_000, 4_999, 5_000, 6_000] {
        let mut in_two = Scheduler::new(&schedule, 0);
        let mut fired = ids(in_two.advance(first));
        fired.extend(ids(in_two.advance(6_000 - first)));
        let mut at_once = Scheduler::new(&schedule, 0);
        assert_eq!(fired, ids(at_once.advance(6_000)));
        assert_eq!(in_two.now_ns(), at_once.now_ns());
    }
}

#[test]
fn seeds_that_differ_never_draw_alike() {
    let mut rngs: Vec<DeterministicRng> = (0..50).map(DeterministicRng::from_seed).collect();
    for _ in 0..100 {
        let mut drawn: Vec<u64> = rngs.iter_mut().map(|r| r.next_u64()).collect();
        drawn.sort();
        drawn.dedup();
        assert_eq!(drawn.len(), 50);
    }
}

struct ComplainsOnce {
    id: String,
    armed: bool,
    disarm_calls: Arc<AtomicUsize>,
}

impl FaultInjector for ComplainsOnce {
    fn armed(&self) -> bool {
        self.armed
    }

    fn id(&self) -> &str {
        &self.id
    }

    fn arm(&mut self, _ctx: &FaultContext) -> Result<(), HarnessError> {
        self.armed = true;
        Ok(())
    }

    fn disarm(&mut self) -> Result<(), HarnessError> {
        self.disarm_calls.fetch_add(1, Ordering::SeqCst);
        self.armed = false;
        Err(HarnessError::DisarmFailed(self.id.clone(), "late".into()))
    }

    fn is_armed(&self) -> bool {
        self.armed
    }
}

#[test]
fn a_second_teardown_calls_nothing_where_the_first_disarmed_everything() {
    let schedule = schedule_of(vec![
        step(0, "b", StepAction::Arm),
        step(1, "a", StepAction::Arm),
    ]);
    let a_calls = Arc::new(AtomicUsize::new(0));
    let b_calls = Arc::new(AtomicUsize::new(0));
    let (idle, _, idle_disarms) = counting("idle");
    let mut injectors = InjectorRegistry::new();
    injectors.insert(
        "a".into(),
        Box::new(ComplainsOnce { id: "a".into(), armed: false, disarm_calls: a_calls.clone() }),
    );
    injectors.insert("idle".into(), Box::new(idle));
    injectors.insert(
        "b".into(),
        Box::new(ComplainsOnce { id: "b".into(), armed: false, disarm_calls: b_calls.clone() }),
    );
    let mut runner = Runner::new(&schedule, injectors, ctx()).unwrap();
    runner.run(1).unwrap();

    let error = runner.teardown().unwrap_err();
    assert_eq!(error.message(), "fault injector a failed to disarm: late");
    assert!(runner.teardown().is_ok());
    assert_eq!(a_calls.load(Ordering::SeqCst), 1);
    assert_eq!(b_calls.load(Ordering::SeqCst), 1);
    assert_eq!(idle_disarms.load(Ordering::SeqCst), 0);
    assert_eq!(runner.is_armed("a"), Some(false));
    assert_eq!(runner.is_armed("b"), Some(false));
}
