//! Partition: the program drops everything that comes from one peer.
use vstd::prelude::*;

use crate::kernel::xdp::{MapValue, MapWrite, XdpHook};

#[allow(unused_imports)]
use crate::kernel::xdp::{HookView, ValueView, WriteView};

verus! {

pub const PROGRAM_NAME: &'static str = "xdp_partition";

pub const ENABLED_MAP: &'static str = "partition_enabled";

pub const SRC_IP_MAP: &'static str = "partition_src_ip";

pub const SRC_IP6_MAP: &'static str = "partition_src_ip6";

pub const SRC_PORT_MAP: &'static str = "partition_src_port";

/// The address of a peer, as the bytes that stand in a packet.
#[derive(Debug, Clone, Copy)]
pub enum PeerAddr {
    V4([u8; 4]),
    V6([u8; 16]),
}

/// What the maps are to hold for the program to know its peer: the bytes of the
/// address as they stand in a packet, and the port.
pub open spec fn peer_setup(addr: PeerAddr, port: u16) -> Seq<WriteView> {
    seq![
        match addr {
            PeerAddr::V4(bytes) => WriteView {
                map: "partition_src_ip"@,
                value: ValueView::Bytes4(bytes@),
            },
            PeerAddr::V6(bytes) => WriteView {
                map: "partition_src_ip6"@,
                value: ValueView::Bytes16(bytes@),
            },
        },
        WriteView { map: "partition_src_port"@, value: ValueView::Word(port as u32) },
    ]
}

/// The hook of a fault that has not been armed yet.
pub open spec fn plan(id: Seq<char>, iface: Seq<char>, addr: PeerAddr, port: u16) -> HookView {
    HookView {
        id,
        iface,
        program: "xdp_partition"@,
        setup: peer_setup(addr, port),
        switch: "partition_enabled"@,
        on: 1,
        attached: false,
        ready: false,
        armed: false,
    }
}

/// Drops every packet that comes in on an interface from one peer. Port zero
/// stands for every port of that address.
pub struct XdpPartitionInjector {
    hook: XdpHook,
}

impl XdpPartitionInjector {
    pub closed spec fn hook(self) -> HookView {
        self.hook@
    }

    pub fn new(id: String, iface: String, src_ip: PeerAddr, src_port: u16) -> (r: Self)
        ensures
            r.hook() == plan(id@, iface@, src_ip, src_port),
    {
        let mut setup: Vec<MapWrite> = Vec::new();
        match src_ip {
            PeerAddr::V4(bytes) => setup.push(
                MapWrite { map: SRC_IP_MAP, value: MapValue::Bytes4(bytes) },
            ),
            PeerAddr::V6(bytes) => setup.push(
                MapWrite { map: SRC_IP6_MAP, value: MapValue::Bytes16(bytes) },
            ),
        }
        setup.push(MapWrite { map: SRC_PORT_MAP, value: MapValue::Word(src_port as u32) });
        assert(setup@.map_values(|write: MapWrite| write@) =~= peer_setup(src_ip, src_port));
        XdpPartitionInjector {
            hook: XdpHook::new(id, iface, PROGRAM_NAME, setup, ENABLED_MAP, 1),
        }
    }

    /// The hook that carries the fault out.
    pub fn into_hook(self) -> (r: XdpHook)
        ensures
            r@ == self.hook(),
    {
        self.hook
    }
}

} // verus!
