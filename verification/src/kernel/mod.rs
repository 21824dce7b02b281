pub mod cgroup_laws;
pub mod cgroup_mem;
pub mod cgroup_path;
pub mod time_skew;
pub mod xdp;
pub mod xdp_corrupt;
pub mod xdp_laws;
pub mod xdp_partition;
pub mod xdp_pktloss;

pub use cgroup_mem::{CgroupMemoryPressureInjector, PressureMode};
pub use time_skew::TimeSkewInjector;
pub use xdp_corrupt::XdpCorruptionInjector;
pub use xdp_partition::{PeerAddr, XdpPartitionInjector};
pub use xdp_pktloss::XdpPacketLossInjector;
