//! What a scenario file says: the faults it names, and when each is armed and
//! disarmed.
use vstd::prelude::*;

use crate::harness::scenario::ScenarioStep;
use crate::kernel::xdp_partition::PeerAddr;

verus! {

/// What happens to a process over its memory limit.
#[derive(Debug, Clone, Copy, PartialEq, Eq, Structural)]
pub enum PressureModeConfig {
    Hard,
    Soft,
}

/// One fault that can be named: what it is, and what it needs to know.
#[derive(Debug)]
pub enum InjectorConfig {
    XdpPacketLoss { iface: String, drop_every_n: u32 },
    XdpCorruption { iface: String, corrupt_every_n: u32, offset: u32, mask: u8 },
    XdpPartition { iface: String, src_ip: PeerAddr, src_port: u16 },
    CgroupMemoryPressure { pid: u32, limit_bytes: u64, mode: PressureModeConfig },
    TimeSkew { argv: Vec<String>, monotonic_offset_secs: i64, boottime_offset_secs: i64 },
    FixSilentReject { listen_addr: String, upstream_addr: String },
    FixAckWithoutExecution { listen_addr: String, upstream_addr: String },
    FixRateLimitThrottle { listen_addr: String, upstream_addr: String, threshold: u64 },
}

/// A scenario file. Each fault has an id, under which the schedule names it.
#[derive(Debug)]
pub struct Config {
    pub name: String,
    pub seed: u64,
    pub injectors: Vec<(String, InjectorConfig)>,
    pub schedule: Vec<ScenarioStep>,
}

} // verus!
