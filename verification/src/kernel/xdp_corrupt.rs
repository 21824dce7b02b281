//! Corruption: the program counts packets and changes one byte of every
//! `n`-th.
use vstd::prelude::*;

use crate::kernel::xdp::{MapValue, MapWrite, XdpHook};

#[allow(unused_imports)]
use crate::kernel::xdp::{HookView, ValueView, WriteView};

verus! {

pub const PROGRAM_NAME: &'static str = "xdp_corrupt";

pub const EVERY_N_MAP: &'static str = "corrupt_every_n";

pub const OFFSET_MAP: &'static str = "corrupt_offset";

pub const MASK_MAP: &'static str = "corrupt_mask";

/// The hook of a fault that has not been armed yet.
pub open spec fn plan(
    id: Seq<char>,
    iface: Seq<char>,
    corrupt_every_n: u32,
    offset: u32,
    mask: u8,
) -> HookView {
    HookView {
        id,
        iface,
        program: "xdp_corrupt"@,
        setup: seq![
            WriteView { map: "corrupt_offset"@, value: ValueView::Word(offset) },
            WriteView { map: "corrupt_mask"@, value: ValueView::Word(mask as u32) },
        ],
        switch: "corrupt_every_n"@,
        on: corrupt_every_n,
        attached: false,
        ready: false,
        armed: false,
    }
}

/// Changes one byte of every `n`-th packet that comes in on an interface: the
/// bits of `mask` in the byte at `offset`. Both are written when the
/// program has been attached, and stay from then on.
pub struct XdpCorruptionInjector {
    hook: XdpHook,
}

impl XdpCorruptionInjector {
    pub closed spec fn hook(self) -> HookView {
        self.hook@
    }

    pub fn new(id: String, iface: String, corrupt_every_n: u32, offset: u32, mask: u8) -> (r: Self)
        ensures
            r.hook() == plan(id@, iface@, corrupt_every_n, offset, mask),
    {
        let mut setup: Vec<MapWrite> = Vec::new();
        setup.push(MapWrite { map: OFFSET_MAP, value: MapValue::Word(offset) });
        setup.push(MapWrite { map: MASK_MAP, value: MapValue::Word(mask as u32) });
        assert(setup@.map_values(|write: MapWrite| write@) =~= plan(
            id@,
            iface@,
            corrupt_every_n,
            offset,
            mask,
        ).setup);
        XdpCorruptionInjector {
            hook: XdpHook::new(id, iface, PROGRAM_NAME, setup, EVERY_N_MAP, corrupt_every_n),
        }
    }

    /// The hook that carries the fault out.
    pub fn into_hook(self) -> (r: XdpHook)
        ensures
            r@ == self.hook(),
    {
        self.hook
    }
}

} // verus!
