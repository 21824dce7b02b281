use blackswan::harness::error::HarnessError;
use blackswan::kernel::cgroup_mem::{Reply, Request, Step};
use blackswan::kernel::cgroup_path::{find_unified_entry, join, parent_of, trim_leading_slashes};
use blackswan::kernel::time_skew::Ending;
use blackswan::kernel::xdp::{MapValue, Outcome, XdpAction, XdpFailure};
use blackswan::kernel::{
    CgroupMemoryPressureInjector, PeerAddr, PressureMode, TimeSkewInjector, XdpCorruptionInjector,
    XdpPacketLossInjector, XdpPartitionInjector,
};

fn describe(action: &XdpAction) -> String {
    match action {
        XdpAction::Attach(program, iface) => format!("attach {program} to {iface}"),
        XdpAction::Write(write) => match write.value {
            MapValue::Word(word) => format!("{} = {word}", write.map),
            MapValue::Bytes4(bytes) => format!("{} = {bytes:?}", write.map),
            MapValue::Bytes16(bytes) => format!("{} = {bytes:?}", write.map),
        },
    }
}

fn script(actions: &[XdpAction]) -> Vec<String> {
    actions.iter().map(describe).collect()
}

#[test]
fn packet_loss_attaches_once_and_then_throws_its_switch() {
    let mut hook = XdpPacketLossInjector::new("loss".into(), "lo".into(), 3).into_hook();
    assert_eq!(hook.id(), "loss");
    assert!(script(&hook.disarm_script()).is_empty());
    assert!(hook.finish_disarm(Outcome::Done).is_ok());
    assert_eq!(script(&hook.arm_script()), ["attach xdp_pktloss to lo", "drop_every_n = 3"]);
    assert!(hook.finish_arm(Outcome::Done).is_ok());
    assert!(hook.is_armed());
    assert_eq!(script(&hook.arm_script()), ["drop_every_n = 3"]);
    assert_eq!(script(&hook.disarm_script()), ["drop_every_n = 0"]);
    assert!(hook.finish_disarm(Outcome::Done).is_ok());
    assert!(!hook.is_armed());
    assert!(hook.finish_disarm(Outcome::Done).is_ok());
    assert_eq!(script(&hook.arm_script()), ["drop_every_n = 3"]);
}

#[test]
fn a_failed_attach_leaves_nothing_to_disarm() {
    let mut hook = XdpPacketLossInjector::new("arm-failed-test".into(), "nowhere".into(), 2)
        .into_hook();
    match hook.finish_arm(Outcome::Failed(0, XdpFailure::Other("no such device".into()))) {
        Err(HarnessError::ArmFailed(id, reason)) => {
            assert_eq!(id, "arm-failed-test");
            assert_eq!(reason, "no such device");
        }
        other => panic!("expected ArmFailed, got {other:?}"),
    }
    assert!(!hook.is_armed());
    assert!(hook.disarm_script().is_empty());
    assert!(hook.finish_disarm(Outcome::Done).is_ok());
}

#[test]
fn corruption_sets_itself_up_before_the_switch() {
    let hook = XdpCorruptionInjector::new("c".into(), "eth0".into(), 5, 60, 255).into_hook();
    assert_eq!(
        script(&hook.arm_script()),
        [
            "attach xdp_corrupt to eth0",
            "corrupt_offset = 60",
            "corrupt_mask = 255",
            "corrupt_every_n = 5"
        ]
    );
}

#[test]
fn a_failed_setup_write_is_made_up_for() {
    let mut hook = XdpCorruptionInjector::new("c".into(), "eth0".into(), 5, 60, 255).into_hook();
    let error = hook.finish_arm(Outcome::Failed(2, XdpFailure::NoMap)).unwrap_err();
    assert_eq!(error.message(), "fault injector c failed to arm: no map named corrupt_mask");
    assert!(!hook.is_armed());
    let again = ["corrupt_offset = 60", "corrupt_mask = 255", "corrupt_every_n = 5"];
    assert_eq!(script(&hook.arm_script()), again);
    assert!(hook.finish_arm(Outcome::Failed(0, XdpFailure::NoMap)).is_err());
    assert_eq!(script(&hook.arm_script()), again);
    // once all is set up, a switch that is stuck does not bring it back
    assert!(hook.finish_arm(Outcome::Failed(2, XdpFailure::NoMap)).is_err());
    assert_eq!(script(&hook.arm_script()), ["corrupt_every_n = 5"]);
    assert!(hook.finish_arm(Outcome::Done).is_ok());
    assert!(hook.is_armed());
}

#[test]
fn a_missing_program_is_named() {
    let mut hook = XdpCorruptionInjector::new("c".into(), "eth0".into(), 5, 60, 255).into_hook();
    let error = hook.finish_arm(Outcome::Failed(0, XdpFailure::NoProgram)).unwrap_err();
    assert_eq!(
        error.message(),
        "fault injector c failed to arm: no program named xdp_corrupt in object"
    );
}

#[test]
fn a_switch_that_cannot_be_thrown_back_stays_armed() {
    let mut hook = XdpPacketLossInjector::new("l".into(), "lo".into(), 1).into_hook();
    hook.finish_arm(Outcome::Done).unwrap();
    let error = hook.finish_disarm(Outcome::Failed(0, XdpFailure::NoMap)).unwrap_err();
    assert_eq!(error.message(), "fault injector l failed to arm: no map named drop_every_n");
    assert!(hook.is_armed());
}

#[test]
fn a_partition_stores_the_address_as_it_stands_in_a_packet() {
    let octets = [127, 0, 0, 1];
    let hook =
        XdpPartitionInjector::new("p".into(), "lo".into(), PeerAddr::V4(octets), 4000).into_hook();
    assert_eq!(
        script(&hook.arm_script()),
        [
            "attach xdp_partition to lo".to_string(),
            "partition_src_ip = [127, 0, 0, 1]".to_string(),
            "partition_src_port = 4000".to_string(),
            "partition_enabled = 1".to_string(),
        ]
    );
}

#[test]
fn a_partition_takes_addresses_of_sixteen_bytes() {
    let mut octets = [0; 16];
    octets[15] = 1;
    let hook =
        XdpPartitionInjector::new("p".into(), "lo".into(), PeerAddr::V6(octets), 0).into_hook();
    assert_eq!(
        script(&hook.arm_script())[1..3],
        [
            format!("partition_src_ip6 = {octets:?}"),
            "partition_src_port = 0".to_string(),
        ]
    );
}

#[test]
fn own_group_is_the_first_unified_entry() {
    let list = "12:memory:/x\n1:name=systemd:/y\n0::/user.slice/a.scope\n0::/other\n";
    assert_eq!(find_unified_entry(list).unwrap(), "/user.slice/a.scope");
    assert_eq!(find_unified_entry("0::/a\r\n").unwrap(), "/a");
    assert_eq!(find_unified_entry("0::/a\r").unwrap(), "/a\r");
    assert_eq!(find_unified_entry("0::").unwrap(), "");
    assert!(find_unified_entry("10::/a\n").is_none());
    assert!(find_unified_entry("").is_none());
    assert!(find_unified_entry("\n\n").is_none());
}

#[test]
fn paths_are_taken_apart_and_joined() {
    assert_eq!(trim_leading_slashes("//a/b"), "a/b");
    assert_eq!(trim_leading_slashes("a"), "a");
    assert_eq!(trim_leading_slashes("///"), "");
    assert_eq!(parent_of("a/b/c"), "a/b");
    assert_eq!(parent_of("a"), "");
    assert_eq!(parent_of("a/b//"), "a");
    assert_eq!(parent_of("a/"), "");
    assert_eq!(parent_of(""), "");
    assert_eq!(join("/x", "y"), "/x/y");
    assert_eq!(join("/x", ""), "/x");
}

fn pressure(mode: PressureMode) -> CgroupMemoryPressureInjector {
    CgroupMemoryPressureInjector::new("m".into(), 42, 8_388_608, mode)
}

fn asked(step: Step) -> String {
    match step {
        Step::Ask(request) => shown(request),
        other => panic!("expected a request, got {other:?}"),
    }
}

fn shown(request: Request) -> String {
    match request {
        Request::Exists(path) => format!("exists {path}"),
        Request::Read(path) => format!("read {path}"),
        Request::CreateDir(path) => format!("create {path}"),
        Request::Write(path, text) => format!("write {text} to {path}"),
    }
}

fn failure(step: Step) -> String {
    match step {
        Step::Finished(Err(e)) => e.message(),
        other => panic!("expected a failure, got {other:?}"),
    }
}

#[test]
fn pressure_is_armed_on_the_first_version() {
    let mut injector = pressure(PressureMode::Hard);
    assert!(matches!(injector.begin_disarm(), Step::Finished(Ok(()))));
    assert_eq!(shown(injector.begin_arm()), "exists /sys/fs/cgroup/memory/memory.limit_in_bytes");
    assert_eq!(
        asked(injector.step(Reply::Yes)),
        "exists /sys/fs/cgroup/memory/memory.limit_in_bytes"
    );
    assert_eq!(asked(injector.step(Reply::Yes)), "create /sys/fs/cgroup/memory/blackswan-m");
    assert_eq!(
        asked(injector.step(Reply::Done)),
        "write 42 to /sys/fs/cgroup/memory/blackswan-m/cgroup.procs"
    );
    assert_eq!(
        asked(injector.step(Reply::Done)),
        "write 8388608 to /sys/fs/cgroup/memory/blackswan-m/memory.limit_in_bytes"
    );
    assert!(!injector.is_armed());
    assert!(matches!(injector.step(Reply::Done), Step::Finished(Ok(()))));
    assert!(injector.is_armed());

    assert_eq!(
        asked(injector.begin_disarm()),
        "write 9223372036854775807 to /sys/fs/cgroup/memory/blackswan-m/memory.limit_in_bytes"
    );
    assert!(matches!(injector.step(Reply::Done), Step::Finished(Ok(()))));
    assert!(!injector.is_armed());

    // the second time only the limit is written
    assert_eq!(
        shown(injector.begin_arm()),
        "write 8388608 to /sys/fs/cgroup/memory/blackswan-m/memory.limit_in_bytes"
    );
    assert!(matches!(injector.step(Reply::Done), Step::Finished(Ok(()))));
    assert!(injector.is_armed());
}

#[test]
fn pressure_is_armed_beside_the_own_group_of_the_second_version() {
    let mut injector = pressure(PressureMode::Soft);
    injector.begin_arm();
    assert_eq!(asked(injector.step(Reply::No)), "read /proc/self/cgroup");
    assert_eq!(
        asked(injector.step(Reply::Text("0::/user.slice/a.scope\n".into()))),
        "exists /sys/fs/cgroup/unified/user.slice/a.scope/memory.max"
    );
    assert_eq!(
        asked(injector.step(Reply::Yes)),
        "exists /sys/fs/cgroup/unified/user.slice/memory.limit_in_bytes"
    );
    assert_eq!(
        asked(injector.step(Reply::No)),
        "create /sys/fs/cgroup/unified/user.slice/blackswan-m"
    );
    assert_eq!(
        asked(injector.step(Reply::Done)),
        "write +memory to /sys/fs/cgroup/unified/user.slice/cgroup.subtree_control"
    );
    // best effort: a failure here is passed over
    assert_eq!(
        asked(injector.step(Reply::Failed("busy".into()))),
        "write 42 to /sys/fs/cgroup/unified/user.slice/blackswan-m/cgroup.procs"
    );
    assert_eq!(
        asked(injector.step(Reply::Done)),
        "write 8388608 to /sys/fs/cgroup/unified/user.slice/blackswan-m/memory.high"
    );
    assert!(matches!(injector.step(Reply::Done), Step::Finished(Ok(()))));
    assert_eq!(
        asked(injector.begin_disarm()),
        "write max to /sys/fs/cgroup/unified/user.slice/blackswan-m/memory.high"
    );
}

#[test]
fn every_way_to_fail_to_arm_pressure_says_what_failed() {
    let mut injector = pressure(PressureMode::Hard);
    injector.begin_arm();
    injector.step(Reply::No);
    assert_eq!(failure(injector.step(Reply::Failed("denied".into()))), "io error: denied");

    injector.begin_arm();
    injector.step(Reply::No);
    assert_eq!(
        failure(injector.step(Reply::Text("1:memory:/\n".into()))),
        "fault injector m failed to arm: no v2 cgroup entry in /proc/self/cgroup"
    );

    injector.begin_arm();
    injector.step(Reply::No);
    injector.step(Reply::Text("0::/\n".into()));
    assert_eq!(
        failure(injector.step(Reply::No)),
        "fault injector m failed to arm: no usable memory controller on either v1 or v2 cgroup hierarchy"
    );

    injector.begin_arm();
    injector.step(Reply::Yes);
    injector.step(Reply::Yes);
    assert_eq!(
        failure(injector.step(Reply::Failed("denied".into()))),
        "fault injector m failed to arm: creating cgroup /sys/fs/cgroup/memory/blackswan-m: denied"
    );

    injector.begin_arm();
    injector.step(Reply::Yes);
    injector.step(Reply::Yes);
    injector.step(Reply::Done);
    assert_eq!(
        failure(injector.step(Reply::Failed("no such process".into()))),
        "fault injector m failed to arm: moving pid 42 into cgroup: no such process"
    );

    injector.begin_arm();
    injector.step(Reply::Yes);
    injector.step(Reply::Yes);
    injector.step(Reply::Done);
    injector.step(Reply::Done);
    assert_eq!(
        failure(injector.step(Reply::Failed("invalid".into()))),
        "fault injector m failed to arm: writing memory.limit_in_bytes: invalid"
    );
    assert!(!injector.is_armed());

    assert!(matches!(injector.begin_disarm(), Step::Ask(_)));
    assert_eq!(
        failure(injector.step(Reply::Failed("gone".into()))),
        "fault injector m failed to disarm: writing memory.limit_in_bytes: gone"
    );
}

#[test]
fn skew_is_launched_with_both_offsets() {
    let argv = vec!["sleep".to_string(), "100".to_string()];
    let injector = TimeSkewInjector::new("t".into(), argv, 1000, -5);
    let launch = injector.begin_arm().unwrap().unwrap();
    assert_eq!(launch.program, "sleep");
    assert_eq!(launch.args, ["100"]);
    assert_eq!(launch.offsets, "monotonic 1000 0\nboottime -5 0\n");
    assert!(!launch.capture_stdout);
    let captured = injector.with_captured_stdout().begin_arm().unwrap().unwrap();
    assert!(captured.capture_stdout);
    let extreme = TimeSkewInjector::new("t".into(), vec!["x".into()], i64::MIN, 0);
    assert_eq!(
        extreme.begin_arm().unwrap().unwrap().offsets,
        "monotonic -9223372036854775808 0\nboottime 0 0\n"
    );
}

#[test]
fn skew_is_launched_once_and_ended_once() {
    let mut injector = TimeSkewInjector::new("t".into(), vec!["sleep".into()], 1, 1);
    assert_eq!(injector.pid(), None);
    assert_eq!(injector.begin_disarm(), None);
    assert!(injector.finish_arm(Err("no such file".into())).is_err());
    assert!(!injector.is_armed());
    assert!(injector.finish_arm(Ok(99)).is_ok());
    assert!(injector.is_armed());
    assert_eq!(injector.pid(), Some(99));
    assert!(injector.begin_arm().unwrap().is_none());
    assert_eq!(injector.begin_disarm(), Some(99));
    assert!(!injector.is_armed());
    assert!(injector.finish_disarm(Ending::Killed).is_ok());
    assert!(injector.finish_disarm(Ending::Exited).is_ok());
    assert_eq!(injector.begin_disarm(), None);
}

#[test]
fn skew_says_what_failed() {
    let nothing = TimeSkewInjector::new("t".into(), Vec::new(), 1, 1);
    assert_eq!(
        nothing.begin_arm().unwrap_err().message(),
        "fault injector t failed to arm: argv is empty, nothing to launch"
    );
    let mut injector = TimeSkewInjector::new("t".into(), vec!["x".into()], 1, 1);
    assert_eq!(
        injector.finish_arm(Err("denied".into())).unwrap_err().message(),
        "fault injector t failed to arm: spawning skewed process: denied"
    );
    assert_eq!(
        injector.finish_disarm(Ending::KillFailed("denied".into())).unwrap_err().message(),
        "fault injector t failed to disarm: killing skewed process: denied"
    );
}

#[test]
fn the_switch_follows_the_fault_and_the_setup_stays() {
    use_maps(XdpCorruptionInjector::new("c".into(), "eth0".into(), 5, 60, 255).into_hook());
}

fn use_maps(mut hook: blackswan::kernel::xdp::XdpHook) {
    let mut maps = std::collections::HashMap::new();
    let perform = |maps: &mut std::collections::HashMap<&'static str, u32>, actions: &[XdpAction]| {
        for action in actions {
            if let XdpAction::Write(write) = action {
                if let MapValue::Word(word) = write.value {
                    maps.insert(write.map, word);
                }
            }
        }
    };
    for _ in 0..2 {
        perform(&mut maps, &hook.arm_script());
        hook.finish_arm(Outcome::Done).unwrap();
        assert_eq!(maps["corrupt_every_n"], 5);
        perform(&mut maps, &hook.disarm_script());
        hook.finish_disarm(Outcome::Done).unwrap();
        assert_eq!(maps["corrupt_every_n"], 0);
        assert_eq!(maps["corrupt_offset"], 60);
        assert_eq!(maps["corrupt_mask"], 255);
    }
}
