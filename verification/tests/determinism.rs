// Two runs of the same scenario with the same seed produce the same fault
// sequence, however the clock is driven.

use blackswan::harness::scenario::{Scenario, ScenarioStep, StepAction};
use blackswan::replay::{DeterministicRng, Scheduler, Trace, ValidatedSchedule};

fn sample_scenario() -> Scenario {
    Scenario {
        name: "pkt-loss-then-clock-skew".into(),
        seed: 777,
        steps: vec![
            ScenarioStep { at_ns: 0, fault_id: "pkt-loss".into(), action: StepAction::Arm },
            ScenarioStep { at_ns: 2_000, fault_id: "clock-skew".into(), action: StepAction::Arm },
            ScenarioStep { at_ns: 5_000, fault_id: "pkt-loss".into(), action: StepAction::Disarm },
            ScenarioStep { at_ns: 8_000, fault_id: "clock-skew".into(), action: StepAction::Disarm },
        ],
    }
}

fn run_once(scenario: Scenario) -> Trace {
    let seed = scenario.seed;
    let schedule = ValidatedSchedule::validate(scenario).expect("well formed scenario");
    let mut scheduler = Scheduler::new(&schedule, 0);
    let mut rng = DeterministicRng::from_seed(seed);
    let mut trace = Trace::new(schedule.name(), schedule.seed());

    // Uneven, arbitrary chunks, on purpose: in a real run time never lines up
    // on neat boundaries either.
    let step_sizes = [300u64, 900, 1_400, 2_000, 3_000, 5_000];
    let mut i = 0;
    while !scheduler.is_finished() {
        let delta = step_sizes[i % step_sizes.len()];
        i += 1;
        let due: Vec<_> = scheduler.advance(delta).to_vec();
        let now = scheduler.now_ns();
        for step in due {
            let _jitter = rng.gen_range_u64(0, 1_000);
            trace.record(step, now);
        }
    }

    trace
}

#[test]
fn same_seed_same_scenario_produces_identical_trace() {
    let trace_a = run_once(sample_scenario());
    let trace_b = run_once(sample_scenario());
    assert!(trace_a.matches_schedule(&trace_b));
    assert_eq!(trace_a.events.len(), 4);
}
