use blackswan::cli::{
    build_injector, build_scenario_and_injectors, trace_summary, BuiltInjector, Config,
    InjectorConfig, PressureModeConfig,
};
use blackswan::fix::relay::{Delivery, ReadEvent, Relay};
use blackswan::fix::{compute_checksum, FixFaultInjector};
use blackswan::harness::adapter::Direction;
use blackswan::harness::scenario::{ScenarioStep, StepAction};
use blackswan::kernel::cgroup_mem::{Reply, Step};
use blackswan::kernel::PeerAddr;
use blackswan::replay::Trace;

fn fix(built: BuiltInjector) -> FixFaultInjector {
    match built {
        BuiltInjector::Fix(injector) => injector,
        _ => panic!("expected a fault of a FIX session"),
    }
}

fn dropped(injector: &mut FixFaultInjector, direction: Direction, body: &str) -> Vec<bool> {
    let mut full = format!("8=FIX.4.4\x019={}\x01{body}", body.len()).into_bytes();
    let sum = compute_checksum(&full);
    full.extend_from_slice(format!("10={sum:03}\x01").as_bytes());
    let mut relay = Relay::new(direction);
    relay.on_read(ReadEvent::Bytes(full));
    let all = injector.pass_on_all(&mut relay);
    all.iter().map(|delivery| matches!(delivery, Delivery::Nothing)).collect()
}

#[test]
fn every_network_fault_becomes_its_hook() {
    let programs = [
        InjectorConfig::XdpPacketLoss { iface: "eth0".into(), drop_every_n: 5 },
        InjectorConfig::XdpCorruption { iface: "eth0".into(), corrupt_every_n: 5, offset: 60, mask: 255 },
        InjectorConfig::XdpPartition {
            iface: "eth0".into(),
            src_ip: PeerAddr::V4([10, 0, 0, 1]),
            src_port: 4000,
        },
    ];
    let mut seen = Vec::new();
    for config in programs {
        match build_injector("x", config) {
            BuiltInjector::Xdp(hook) => {
                assert_eq!(hook.id(), "x");
                assert!(!hook.is_armed());
                seen.push(format!("{:?}", hook.arm_script()[0]));
            }
            _ => panic!("expected a hook"),
        }
    }
    assert!(seen[0].contains("xdp_pktloss"));
    assert!(seen[1].contains("xdp_corrupt"));
    assert!(seen[2].contains("xdp_partition"));
}

#[test]
fn memory_pressure_keeps_its_mode() {
    for (mode, file) in [
        (PressureModeConfig::Hard, "memory.limit_in_bytes"),
        (PressureModeConfig::Soft, "memory.soft_limit_in_bytes"),
    ] {
        let config = InjectorConfig::CgroupMemoryPressure { pid: 7, limit_bytes: 1, mode };
        match build_injector("m", config) {
            BuiltInjector::Memory(mut injector) => {
                injector.begin_arm();
                injector.step(Reply::Yes);
                injector.step(Reply::Yes);
                injector.step(Reply::Done);
                match injector.step(Reply::Done) {
                    Step::Ask(request) => {
                        assert!(format!("{request:?}").contains(&format!("/{file}")))
                    }
                    other => panic!("expected a request, got {other:?}"),
                }
            }
            _ => panic!("expected memory pressure"),
        }
    }
}

#[test]
fn clock_skew_keeps_its_offsets() {
    let config = InjectorConfig::TimeSkew {
        argv: vec!["sleep".into(), "100".into()],
        monotonic_offset_secs: 1000,
        boottime_offset_secs: 2000,
    };
    match build_injector("t", config) {
        BuiltInjector::Skew(injector) => {
            let launch = injector.begin_arm().unwrap().unwrap();
            assert_eq!(launch.offsets, "monotonic 1000 0\nboottime 2000 0\n");
        }
        _ => panic!("expected clock skew"),
    }
}

#[test]
fn every_fix_fault_gets_its_adapter() {
    let (listen_addr, upstream_addr) = ("127.0.0.1:9001", "127.0.0.1:9002");
    let mut reject = fix(build_injector(
        "f",
        InjectorConfig::FixSilentReject {
            listen_addr: listen_addr.into(),
            upstream_addr: upstream_addr.into(),
        },
    ));
    assert_eq!(reject.adapter_name(), "fix-silent-reject");
    assert_eq!(reject.arm_plan(), Some(listen_addr));
    assert_eq!(reject.proxy().upstream_addr(), upstream_addr);
    reject.arm(None).unwrap();
    assert_eq!(dropped(&mut reject, Direction::Inbound, "35=3\x01"), [true]);

    let ack = fix(build_injector(
        "f",
        InjectorConfig::FixAckWithoutExecution {
            listen_addr: listen_addr.into(),
            upstream_addr: upstream_addr.into(),
        },
    ));
    assert_eq!(ack.adapter_name(), "fix-ack-without-execution");

    let mut throttle = fix(build_injector(
        "f",
        InjectorConfig::FixRateLimitThrottle {
            listen_addr: listen_addr.into(),
            upstream_addr: upstream_addr.into(),
            threshold: 2,
        },
    ));
    assert_eq!(throttle.adapter_name(), "fix-rate-limit-throttle");
    throttle.arm(None).unwrap();
    let mut fate = Vec::new();
    for _ in 0..4 {
        fate.extend(dropped(&mut throttle, Direction::Outbound, "35=D\x01"));
    }
    assert_eq!(fate, [false, false, true, true]);
}

#[test]
fn a_scenario_file_becomes_a_scenario_and_its_faults() {
    let config = Config {
        name: "demo".into(),
        seed: 42,
        injectors: vec![
            ("loss".into(), InjectorConfig::XdpPacketLoss { iface: "lo".into(), drop_every_n: 2 }),
            (
                "throttle".into(),
                InjectorConfig::FixRateLimitThrottle {
                    listen_addr: "127.0.0.1:19100".into(),
                    upstream_addr: "127.0.0.1:19101".into(),
                    threshold: 3,
                },
            ),
        ],
        schedule: vec![
            ScenarioStep { at_ns: 0, fault_id: "throttle".into(), action: StepAction::Arm },
            ScenarioStep { at_ns: 5_000_000_000, fault_id: "throttle".into(), action: StepAction::Disarm },
        ],
    };
    let (scenario, injectors) = build_scenario_and_injectors(config);
    assert_eq!(scenario.name, "demo");
    assert_eq!(scenario.seed, 42);
    assert_eq!(scenario.steps.len(), 2);
    assert_eq!(injectors.len(), 2);
    assert_eq!(injectors[0].0, "loss");
    assert!(matches!(injectors[0].1, BuiltInjector::Xdp(_)));
    assert_eq!(injectors[1].0, "throttle");
    assert!(matches!(injectors[1].1, BuiltInjector::Fix(_)));
}

#[test]
fn a_summary_lines_its_columns_up() {
    let mut trace = Trace::new("demo", 42);
    let long = "an-id-that-is-longer-than-its-column";
    for (at_ns, id, action) in [
        (0, "throttle", StepAction::Arm),
        (5_000_000_000, "throttle", StepAction::Disarm),
        (u64::MAX, long, StepAction::Arm),
        (7, "\u{e9}t\u{e9}", StepAction::Arm),
    ] {
        trace.record(ScenarioStep { at_ns, fault_id: id.into(), action }, 0);
    }
    let mut expected = vec![format!("scenario: {} (seed {})", trace.scenario_name, trace.seed)];
    for event in &trace.events {
        expected.push(format!(
            "  {:>14} ns  {:<20} {:?}",
            event.step.at_ns, event.step.fault_id, event.step.action
        ));
    }
    assert_eq!(trace_summary(&trace), expected);
    assert_eq!(expected[1], "               0 ns  throttle             Arm");
}
