//! Packet loss: the program counts packets and drops every `n`-th.
use vstd::prelude::*;

use crate::kernel::xdp::{MapWrite, XdpHook};

#[allow(unused_imports)]
use crate::kernel::xdp::{HookView, WriteView};

verus! {

pub const PROGRAM_NAME: &'static str = "xdp_pktloss";

pub const MAP_NAME: &'static str = "drop_every_n";

/// The hook of a fault that has not been armed yet.
pub open spec fn plan(id: Seq<char>, iface: Seq<char>, drop_every_n: u32) -> HookView {
    HookView {
        id,
        iface,
        program: "xdp_pktloss"@,
        setup: Seq::empty(),
        switch: "drop_every_n"@,
        on: drop_every_n,
        attached: false,
        ready: false,
        armed: false,
    }
}

/// Drops every `n`-th packet that comes in on an interface. There is nothing
/// random about it. A count of zero drops nothing.
pub struct XdpPacketLossInjector {
    hook: XdpHook,
}

impl XdpPacketLossInjector {
    pub closed spec fn hook(self) -> HookView {
        self.hook@
    }

    pub fn new(id: String, iface: String, drop_every_n: u32) -> (r: Self)
        ensures
            r.hook() == plan(id@, iface@, drop_every_n),
    {
        let setup: Vec<MapWrite> = Vec::new();
        assert(setup@.map_values(|write: MapWrite| write@) =~= Seq::<WriteView>::empty());
        XdpPacketLossInjector {
            hook: XdpHook::new(id, iface, PROGRAM_NAME, setup, MAP_NAME, drop_every_n),
        }
    }

    /// The hook that carries the fault out.
    pub fn into_hook(self) -> (r: XdpHook)
        ensures
            r@ == self.hook(),
    {
        self.hook
    }
}

} // verus!
