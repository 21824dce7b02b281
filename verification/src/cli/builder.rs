//! From what a scenario file says to the faults themselves.
use vstd::prelude::*;

use crate::cli::config::{Config, InjectorConfig, PressureModeConfig};
use crate::fix::adapter;
use crate::fix::adapter::{FixAckWithoutExecution, FixRateLimitThrottle, FixSilentReject};
use crate::fix::injector::{FixFaultInjector, Judge};
use crate::harness::scenario::Scenario;
use crate::kernel::cgroup_mem::{CgroupMemoryPressureInjector, PressureMode};
use crate::kernel::time_skew;
use crate::kernel::time_skew::TimeSkewInjector;
use crate::kernel::xdp::XdpHook;
use crate::kernel::xdp_corrupt;
use crate::kernel::xdp_corrupt::XdpCorruptionInjector;
use crate::kernel::xdp_partition;
use crate::kernel::xdp_partition::XdpPartitionInjector;
use crate::kernel::xdp_pktloss;
use crate::kernel::xdp_pktloss::XdpPacketLossInjector;

#[allow(unused_imports)]
use crate::fix::proxy::ProxyView;
#[allow(unused_imports)]
use crate::harness::adapter::{ActionView, Direction, Seen};
#[allow(unused_imports)]
use crate::harness::error::ErrorView;
#[allow(unused_imports)]
use crate::kernel::cgroup_mem::{PressureView, StageView};
#[allow(unused_imports)]
use crate::kernel::time_skew::SkewView;

verus! {

/// A fault that was built, with what carries it out. The faults of FIX sessions
/// share one mechanism and differ in the adapter only.
pub enum BuiltInjector {
    Xdp(XdpHook),
    Memory(CgroupMemoryPressureInjector),
    Skew(TimeSkewInjector),
    Fix(FixFaultInjector),
}

/// The mode that a scenario file names.
pub open spec fn mode_of(mode: PressureModeConfig) -> PressureMode {
    match mode {
        PressureModeConfig::Hard => PressureMode::Hard,
        PressureModeConfig::Soft => PressureMode::Soft,
    }
}

/// Whether this is a fault between these addresses that has not been armed yet.
pub open spec fn is_fresh(
    injector: FixFaultInjector,
    id: Seq<char>,
    listen_addr: Seq<char>,
    upstream_addr: Seq<char>,
) -> bool {
    &&& injector.well_formed()
    &&& injector.id_view() == id
    &&& !injector.armed()
    &&& injector.proxy_view() == (ProxyView {
        listen_addr,
        upstream_addr,
        enabled: false,
        listening: false,
        shutdown: false,
    })
}

/// Whether the adapter is a silent reject, by its name and by its answer to
/// every message.
pub open spec fn rejects_silently(injector: FixFaultInjector) -> bool {
    &&& injector.adapter_named() == "fix-silent-reject"@
    &&& forall|
        seen: Seq<Seen>,
        bytes: Seq<u8>,
        direction: Direction,
        verdict: Result<ActionView, ErrorView>,
    | #[trigger]
        injector.allows_after(seen, bytes, direction, verdict) == (verdict
            == adapter::silently_rejected(bytes, direction))
}

/// Whether the adapter suppresses executions, by its name and by its answer to
/// every message.
pub open spec fn acks_without_execution(injector: FixFaultInjector) -> bool {
    &&& injector.adapter_named() == "fix-ack-without-execution"@
    &&& forall|
        seen: Seq<Seen>,
        bytes: Seq<u8>,
        direction: Direction,
        verdict: Result<ActionView, ErrorView>,
    | #[trigger]
        injector.allows_after(seen, bytes, direction, verdict) == (verdict
            == adapter::acked_without_execution(bytes, direction))
}

/// Whether the adapter is a throttle of this threshold, by its name and by its
/// answer to every message, after whatever it has seen.
pub open spec fn throttles(injector: FixFaultInjector, threshold: u64) -> bool {
    &&& injector.adapter_named() == "fix-rate-limit-throttle"@
    &&& forall|
        seen: Seq<Seen>,
        bytes: Seq<u8>,
        direction: Direction,
        verdict: Result<ActionView, ErrorView>,
    | #[trigger]
        injector.allows_after(seen, bytes, direction, verdict) == (verdict
            == Ok::<ActionView, ErrorView>(
            adapter::throttled(threshold, adapter::counted_over(0, seen), direction),
        ))
}

/// Whether this is the fault that the entry names, not armed yet.
pub open spec fn is_built_from(built: BuiltInjector, id: Seq<char>, config: InjectorConfig) -> bool {
    match config {
        InjectorConfig::XdpPacketLoss { iface, drop_every_n } => built matches BuiltInjector::Xdp(
            hook,
        ) && hook@ == xdp_pktloss::plan(id, iface@, drop_every_n),
        InjectorConfig::XdpCorruption { iface, corrupt_every_n, offset, mask } =>
            built matches BuiltInjector::Xdp(hook) && hook@ == xdp_corrupt::plan(
            id,
            iface@,
            corrupt_every_n,
            offset,
            mask,
        ),
        InjectorConfig::XdpPartition { iface, src_ip, src_port } =>
            built matches BuiltInjector::Xdp(hook) && hook@ == xdp_partition::plan(
            id,
            iface@,
            src_ip,
            src_port,
        ),
        InjectorConfig::CgroupMemoryPressure { pid, limit_bytes, mode } =>
            built matches BuiltInjector::Memory(injector) && injector@ == (PressureView {
            id,
            pid,
            limit_bytes,
            mode: mode_of(mode),
            setup: None,
            armed: false,
            stage: StageView::Idle,
        }),
        InjectorConfig::TimeSkew { argv, monotonic_offset_secs, boottime_offset_secs } =>
            built matches BuiltInjector::Skew(injector) && injector@ == (SkewView {
            id,
            argv: time_skew::texts(argv@),
            monotonic_offset_secs,
            boottime_offset_secs,
            capture_stdout: false,
            child: None,
        }),
        InjectorConfig::FixSilentReject { listen_addr, upstream_addr } =>
            built matches BuiltInjector::Fix(injector) && is_fresh(
            injector,
            id,
            listen_addr@,
            upstream_addr@,
        ) && rejects_silently(injector),
        InjectorConfig::FixAckWithoutExecution { listen_addr, upstream_addr } =>
            built matches BuiltInjector::Fix(injector) && is_fresh(
            injector,
            id,
            listen_addr@,
            upstream_addr@,
        ) && acks_without_execution(injector),
        InjectorConfig::FixRateLimitThrottle { listen_addr, upstream_addr, threshold } =>
            built matches BuiltInjector::Fix(injector) && is_fresh(
            injector,
            id,
            listen_addr@,
            upstream_addr@,
        ) && throttles(injector, threshold),
    }
}

/// Builds the fault that an entry names.
pub fn build_injector(id: &str, config: InjectorConfig) -> (r: BuiltInjector)
    ensures
        is_built_from(r, id@, config),
{
    let id = id.to_owned();
    match config {
        InjectorConfig::XdpPacketLoss { iface, drop_every_n } => BuiltInjector::Xdp(
            XdpPacketLossInjector::new(id, iface, drop_every_n).into_hook(),
        ),
        InjectorConfig::XdpCorruption { iface, corrupt_every_n, offset, mask } =>
            BuiltInjector::Xdp(
            XdpCorruptionInjector::new(id, iface, corrupt_every_n, offset, mask).into_hook(),
        ),
        InjectorConfig::XdpPartition { iface, src_ip, src_port } => BuiltInjector::Xdp(
            XdpPartitionInjector::new(id, iface, src_ip, src_port).into_hook(),
        ),
        InjectorConfig::CgroupMemoryPressure { pid, limit_bytes, mode } => {
            let mode = match mode {
                PressureModeConfig::Hard => PressureMode::Hard,
                PressureModeConfig::Soft => PressureMode::Soft,
            };
            BuiltInjector::Memory(CgroupMemoryPressureInjector::new(id, pid, limit_bytes, mode))
        },
        InjectorConfig::TimeSkew { argv, monotonic_offset_secs, boottime_offset_secs } =>
            BuiltInjector::Skew(
            TimeSkewInjector::new(id, argv, monotonic_offset_secs, boottime_offset_secs),
        ),
        InjectorConfig::FixSilentReject { listen_addr, upstream_addr } => {
            let injector = FixFaultInjector::new(
                id,
                listen_addr,
                upstream_addr,
                Judge { adapter: Box::new(FixSilentReject) },
            );
            assert(rejects_silently(injector));
            BuiltInjector::Fix(injector)
        },
        InjectorConfig::FixAckWithoutExecution { listen_addr, upstream_addr } => {
            let injector = FixFaultInjector::new(
                id,
                listen_addr,
                upstream_addr,
                Judge { adapter: Box::new(FixAckWithoutExecution) },
            );
            assert(acks_without_execution(injector));
            BuiltInjector::Fix(injector)
        },
        InjectorConfig::FixRateLimitThrottle { listen_addr, upstream_addr, threshold } => {
            let injector = FixFaultInjector::new(
                id,
                listen_addr,
                upstream_addr,
                Judge { adapter: Box::new(FixRateLimitThrottle::new(threshold)) },
            );
            assert(throttles(injector, threshold));
            BuiltInjector::Fix(injector)
        },
    }
}

/// Builds everything that a scenario file names: the scenario, and each fault
/// with its id.
pub fn build_scenario_and_injectors(config: Config) -> (r: (
    Scenario,
    Vec<(String, BuiltInjector)>,
))
    ensures
        r.0.name == config.name,
        r.0.seed == config.seed,
        r.0.steps == config.schedule,
        r.1@.len() == config.injectors@.len(),
        forall|i: int|
            0 <= i < config.injectors@.len() ==> {
                &&& (#[trigger] r.1@[i]).0 == config.injectors@[i].0
                &&& is_built_from(r.1@[i].1, config.injectors@[i].0@, config.injectors@[i].1)
            },
{
    let scenario = Scenario { name: config.name, seed: config.seed, steps: config.schedule };
    let mut entries: Vec<(String, InjectorConfig)> = config.injectors;
    let ghost all = entries@;
    let mut built: Vec<(String, BuiltInjector)> = Vec::new();
    assert(all.skip(0) =~= all);
    while entries.len() > 0
        invariant
            built@.len() + entries@.len() == all.len(),
            entries@ == all.skip(built@.len() as int),
            forall|i: int|
                0 <= i < built@.len() ==> {
                    &&& (#[trigger] built@[i]).0 == all[i].0
                    &&& is_built_from(built@[i].1, all[i].0@, all[i].1)
                },
        decreases entries@.len(),
    {
        let ghost k = built@.len() as int;
        let (id, entry) = entries.remove(0);
        assert(all.skip(k)[0] == all[k]);
        let injector = build_injector(id.as_str(), entry);
        built.push((id, injector));
        assert(entries@ =~= all.skip(k + 1));
    }
    (scenario, built)
}

} // verus!
