//! That a fault which is built is the one that its entry names.
use vstd::prelude::*;

use crate::cli::builder;
use crate::cli::builder::BuiltInjector;
use crate::cli::config::InjectorConfig;
use crate::fix::adapter::{FixAckWithoutExecution, FixRateLimitThrottle, FixSilentReject};
use crate::fix::injector::FixFaultInjector;
use crate::harness::adapter::{ActionView, Direction, ProtocolAdapter, Seen};
use crate::harness::error::ErrorView;
use crate::kernel::xdp::ActionView as XdpActionView;
use crate::kernel::xdp::{ValueView, WriteView};
use crate::kernel::xdp_laws;
use crate::kernel::xdp_partition::PeerAddr;

verus! {

/// An entry for the network path builds the fault of its program, with the
/// numbers and the peer that it gives, on the interface that it names.
pub proof fn law_network_faults_are_built_as_named(
    built: BuiltInjector,
    id: Seq<char>,
    config: InjectorConfig,
)
    requires
        builder::is_built_from(built, id, config),
    ensures
        config matches InjectorConfig::XdpPacketLoss { iface, drop_every_n } ==> (
        built matches BuiltInjector::Xdp(hook) && hook@.id == id && !hook@.armed
            && hook@.arm_script() == seq![
            XdpActionView::Attach("xdp_pktloss"@, iface@),
            xdp_laws::word_to("drop_every_n"@, drop_every_n),
        ]),
        config matches InjectorConfig::XdpCorruption { iface, corrupt_every_n, offset, mask } ==> (
        built matches BuiltInjector::Xdp(hook) && hook@.id == id && !hook@.armed
            && hook@.arm_script() == seq![
            XdpActionView::Attach("xdp_corrupt"@, iface@),
            xdp_laws::word_to("corrupt_offset"@, offset),
            xdp_laws::word_to("corrupt_mask"@, mask as u32),
            xdp_laws::word_to("corrupt_every_n"@, corrupt_every_n),
        ]),
        config matches InjectorConfig::XdpPartition { iface, src_ip, src_port } ==> (
        built matches BuiltInjector::Xdp(hook) && hook@.id == id && !hook@.armed
            && hook@.arm_script() == seq![
            XdpActionView::Attach("xdp_partition"@, iface@),
            XdpActionView::Write(
                match src_ip {
                    PeerAddr::V4(bytes) => WriteView {
                        map: "partition_src_ip"@,
                        value: ValueView::Bytes4(bytes@),
                    },
                    PeerAddr::V6(bytes) => WriteView {
                        map: "partition_src_ip6"@,
                        value: ValueView::Bytes16(bytes@),
                    },
                },
            ),
            xdp_laws::word_to("partition_src_port"@, src_port as u32),
            xdp_laws::word_to("partition_enabled"@, 1),
        ]),
{
    match config {
        InjectorConfig::XdpPacketLoss { iface, drop_every_n } => {
            xdp_laws::law_packet_loss_is_set_by_its_count(id, iface@, drop_every_n);
        },
        InjectorConfig::XdpCorruption { iface, corrupt_every_n, offset, mask } => {
            xdp_laws::law_corruption_is_set_by_offset_mask_and_count(
                id,
                iface@,
                corrupt_every_n,
                offset,
                mask,
            );
        },
        InjectorConfig::XdpPartition { iface, src_ip, src_port } => {
            xdp_laws::law_partition_is_set_by_its_peer(id, iface@, src_ip, src_port);
        },
        _ => {},
    }
}

/// An entry for memory or for clocks builds a fault for that process, with that
/// limit and mode or those offsets, that has done nothing yet.
pub proof fn law_process_faults_are_built_as_named(
    built: BuiltInjector,
    id: Seq<char>,
    config: InjectorConfig,
)
    requires
        builder::is_built_from(built, id, config),
    ensures
        config matches InjectorConfig::CgroupMemoryPressure { pid, limit_bytes, mode } ==> (
        built matches BuiltInjector::Memory(fault) && fault@.id == id && fault@.pid == pid
            && fault@.limit_bytes == limit_bytes && (mode is Hard <==> fault@.mode is Hard) && (
        mode is Soft <==> fault@.mode is Soft) && fault@.setup is None && !fault@.armed),
        config matches InjectorConfig::TimeSkew {
            argv,
            monotonic_offset_secs,
            boottime_offset_secs,
        } ==> (built matches BuiltInjector::Skew(fault) && fault@.id == id && fault@.argv.len()
            == argv@.len() && (forall|i: int|
            0 <= i < argv@.len() ==> fault@.argv[i] == (#[trigger] argv@[i])@)
            && fault@.monotonic_offset_secs == monotonic_offset_secs
            && fault@.boottime_offset_secs == boottime_offset_secs && !fault@.capture_stdout
            && fault@.child is None),
{
}

/// Whether this is a fault of a session between these addresses that listens
/// nowhere yet.
pub open spec fn is_new_between(
    fault: FixFaultInjector,
    id: Seq<char>,
    listen_addr: Seq<char>,
    upstream_addr: Seq<char>,
) -> bool {
    &&& fault.id_view() == id
    &&& !fault.armed()
    &&& fault.proxy_view().listen_addr == listen_addr
    &&& fault.proxy_view().upstream_addr == upstream_addr
    &&& !fault.proxy_view().enabled
    &&& !fault.proxy_view().listening
    &&& !fault.proxy_view().shutdown
}

/// An entry for a FIX session builds the fault that it names: between the
/// addresses that it gives, it answers every message as that fault does.
pub proof fn law_session_faults_are_built_as_named(
    built: BuiltInjector,
    id: Seq<char>,
    config: InjectorConfig,
    reject: FixSilentReject,
    ack: FixAckWithoutExecution,
    throttle: FixRateLimitThrottle,
    seen: Seq<Seen>,
    bytes: Seq<u8>,
    direction: Direction,
    verdict: Result<ActionView, ErrorView>,
)
    requires
        builder::is_built_from(built, id, config),
        throttle.count() == 0,
    ensures
        config matches InjectorConfig::FixSilentReject { listen_addr, upstream_addr } ==> (
        built matches BuiltInjector::Fix(fault) && is_new_between(
            fault,
            id,
            listen_addr@,
            upstream_addr@,
        ) && fault.allows_after(seen, bytes, direction, verdict) == reject.allows_after(
            seen,
            bytes,
            direction,
            verdict,
        ) && fault.adapter_named() == "fix-silent-reject"@),
        config matches InjectorConfig::FixAckWithoutExecution { listen_addr, upstream_addr } ==> (
        built matches BuiltInjector::Fix(fault) && is_new_between(
            fault,
            id,
            listen_addr@,
            upstream_addr@,
        ) && fault.allows_after(seen, bytes, direction, verdict) == ack.allows_after(
            seen,
            bytes,
            direction,
            verdict,
        ) && fault.adapter_named() == "fix-ack-without-execution"@),
        config matches InjectorConfig::FixRateLimitThrottle {
            listen_addr,
            upstream_addr,
            threshold,
        } ==> (built matches BuiltInjector::Fix(fault) && is_new_between(
            fault,
            id,
            listen_addr@,
            upstream_addr@,
        ) && (throttle.threshold() == threshold ==> fault.allows_after(
            seen,
            bytes,
            direction,
            verdict,
        ) == throttle.allows_after(seen, bytes, direction, verdict)) && fault.adapter_named()
            == "fix-rate-limit-throttle"@),
{
}

} // verus!
