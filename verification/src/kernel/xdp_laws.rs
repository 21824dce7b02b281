//! What holds of a hook over several calls, and of the maps that its scripts
//! write.
use vstd::prelude::*;

use crate::harness::error::{ErrorView, HarnessError};
use crate::kernel::xdp::result_of;
use crate::kernel::xdp::{
    ActionView, HookView, MapValue, MapWrite, Outcome, ValueView, WriteView, XdpAction, XdpFailure,
};
use crate::kernel::xdp_corrupt;
use crate::kernel::xdp_partition;
use crate::kernel::xdp_partition::PeerAddr;
use crate::kernel::xdp_pktloss;

verus! {

/// What the maps hold after an action.
pub open spec fn maps_after_one(
    maps: Map<Seq<char>, ValueView>,
    action: ActionView,
) -> Map<Seq<char>, ValueView> {
    match action {
        ActionView::Attach(_, _) => maps,
        ActionView::Write(write) => maps.insert(write.map, write.value),
    }
}

/// What the maps hold after actions, done in order.
pub open spec fn maps_after(
    maps: Map<Seq<char>, ValueView>,
    actions: Seq<ActionView>,
) -> Map<Seq<char>, ValueView>
    decreases actions.len(),
{
    if actions.len() == 0 {
        maps
    } else {
        maps_after_one(maps_after(maps, actions.drop_last()), actions.last())
    }
}

/// A hook after its arm script was done to the end.
pub open spec fn armed(hook: HookView) -> HookView {
    hook.after_arm(hook.arm_script().len())
}

/// A hook after its disarm script was done to the end.
pub open spec fn disarmed(hook: HookView) -> HookView {
    hook.after_disarm(hook.disarm_script().len())
}

/// A failed attempt to arm does not arm, and where the program could not even
/// be attached, there is nothing to disarm: disarming then does nothing and
/// succeeds.
pub proof fn law_failed_arm_leaves_disarmed(hook: HookView, done: nat)
    requires
        !hook.armed,
        done < hook.arm_script().len(),
    ensures
        !hook.after_arm(done).armed,
        !hook.attached && done == 0 ==> hook.after_arm(done) == hook && hook.disarm_script().len()
            == 0,
{
}

/// Arming twice is arming once: the second time only the switch is thrown, to
/// where it stands.
pub proof fn law_arming_twice_is_arming_once(hook: HookView)
    ensures
        armed(armed(hook)) == armed(hook),
        armed(hook).arm_script() == seq![hook.throw(hook.on)],
        armed(hook).armed,
{
    assert(armed(hook).arm_script() =~= seq![hook.throw(hook.on)]);
}

/// Disarming twice is disarming once, and a hook that was never armed can be
/// disarmed.
pub proof fn law_disarming_twice_is_disarming_once(hook: HookView)
    ensures
        disarmed(disarmed(hook)) == disarmed(hook),
        !disarmed(hook).armed,
{
}

/// What has been attached stays attached, whatever comes of later attempts: it
/// is not attached again.
pub proof fn law_attached_stays_attached(hook: HookView, arm_done: nat, disarm_done: nat)
    requires
        hook.attached,
    ensures
        hook.after_arm(arm_done).attached,
        hook.after_disarm(disarm_done).attached,
        forall|i: int|
            0 <= i < hook.arm_script().len() ==> (#[trigger] hook.arm_script()[i]) is Write,
{
}

/// While a fault is armed the switch holds what arms it; after it has been
/// disarmed the switch holds zero, and every other map what it held before.
pub proof fn law_switch_follows_the_fault(hook: HookView, maps: Map<Seq<char>, ValueView>)
    ensures
        maps_after(maps, hook.arm_script())[hook.switch] == ValueView::Word(hook.on),
        maps_after(maps, armed(hook).disarm_script()) == maps.insert(
            hook.switch,
            ValueView::Word(0),
        ),
{
    let script = hook.arm_script();
    assert(script.drop_last() =~= hook.load_script());
    let off = armed(hook).disarm_script();
    assert(off.drop_last() =~= Seq::<ActionView>::empty());
    assert(maps_after(maps, off.drop_last()) == maps);
}

/// Whether the maps hold everything that the fault has to set up.
pub open spec fn is_set_up(hook: HookView, maps: Map<Seq<char>, ValueView>) -> bool {
    forall|i: int|
        0 <= i < hook.setup.len() ==> maps.dom().contains((#[trigger] hook.setup[i]).map)
            && maps[hook.setup[i].map] == hook.setup[i].value
}

/// Whether every map is set up once, and the switch is none of them.
pub open spec fn maps_apart(hook: HookView) -> bool {
    &&& forall|i: int| 0 <= i < hook.setup.len() ==> (#[trigger] hook.setup[i]).map != hook.switch
    &&& forall|i: int, j: int|
        0 <= i < j < hook.setup.len() ==> (#[trigger] hook.setup[i]).map != (
        #[trigger] hook.setup[j]).map
}

/// A fault that counts as set up is: whatever came of earlier attempts to arm
/// it, what it has to set up is in the maps once all of it has been written, and
/// stays there when the fault is armed and disarmed.
pub proof fn law_ready_means_set_up(hook: HookView, maps: Map<Seq<char>, ValueView>, done: nat)
    requires
        maps_apart(hook),
        hook.ready ==> is_set_up(hook, maps),
    ensures
        done <= hook.arm_script().len() && hook.after_arm(done).ready ==> is_set_up(
            hook.after_arm(done),
            maps_after(maps, hook.arm_script().take(done as int)),
        ),
        done <= hook.disarm_script().len() && hook.after_disarm(done).ready ==> is_set_up(
            hook.after_disarm(done),
            maps_after(maps, hook.disarm_script().take(done as int)),
        ),
{
    if done <= hook.arm_script().len() && hook.after_arm(done).ready {
        let actions = hook.arm_script().take(done as int);
        let now = maps_after(maps, actions);
        assert forall|i: int| 0 <= i < hook.setup.len() implies now.dom().contains(
            (#[trigger] hook.setup[i]).map,
        ) && now[hook.setup[i].map] == hook.setup[i].value by {
            if hook.ready {
                lemma_unwritten_stays(maps, actions, hook.setup[i].map);
            } else {
                let at = hook.attach_script().len() + i;
                assert(hook.setup_script()[i] == ActionView::Write(hook.setup[i]));
                assert(actions[at] == ActionView::Write(hook.setup[i]));
                assert forall|j: int| at < j < actions.len() implies ((
                #[trigger] actions[j]) matches ActionView::Write(w) && w.map
                    != hook.setup[i].map) by {
                    if j < hook.load_script().len() {
                        let k = j - hook.attach_script().len();
                        assert(hook.setup_script()[k] == ActionView::Write(hook.setup[k]));
                    }
                }
                lemma_written_last_stays(maps, actions, at as int, hook.setup[i]);
            }
        }
    }
    if done <= hook.disarm_script().len() && hook.after_disarm(done).ready {
        let actions = hook.disarm_script().take(done as int);
        let now = maps_after(maps, actions);
        assert forall|i: int| 0 <= i < hook.setup.len() implies now.dom().contains(
            (#[trigger] hook.setup[i]).map,
        ) && now[hook.setup[i].map] == hook.setup[i].value by {
            lemma_unwritten_stays(maps, actions, hook.setup[i].map);
        }
    }
}

/// A successful arm means that everything has been set up.
pub proof fn law_armed_means_set_up(hook: HookView, maps: Map<Seq<char>, ValueView>)
    requires
        maps_apart(hook),
        hook.ready ==> is_set_up(hook, maps),
    ensures
        armed(hook).armed,
        armed(hook).attached,
        armed(hook).ready,
        is_set_up(armed(hook), maps_after(maps, hook.arm_script())),
{
    let script = hook.arm_script();
    assert(script.take(script.len() as int) =~= script);
    law_ready_means_set_up(hook, maps, script.len());
}

/// Each of the faults keeps its maps apart.
pub proof fn law_every_fault_keeps_its_maps_apart(
    id: Seq<char>,
    iface: Seq<char>,
    n: u32,
    offset: u32,
    mask: u8,
    addr: PeerAddr,
    port: u16,
)
    ensures
        maps_apart(xdp_pktloss::plan(id, iface, n)),
        maps_apart(xdp_corrupt::plan(id, iface, n, offset, mask)),
        maps_apart(xdp_partition::plan(id, iface, addr, port)),
{
    reveal_strlit("corrupt_offset");
    reveal_strlit("corrupt_mask");
    reveal_strlit("corrupt_every_n");
    reveal_strlit("partition_src_ip");
    reveal_strlit("partition_src_ip6");
    reveal_strlit("partition_src_port");
    reveal_strlit("partition_enabled");
    assert("corrupt_offset"@.len() == 14 && "corrupt_mask"@.len() == 12
        && "corrupt_every_n"@.len() == 15);
    assert("partition_src_ip"@.len() == 16 && "partition_src_port"@.len() == 18);
    assert("partition_src_ip6"@.len() == 17 && "partition_enabled"@.len() == 17);
    assert("partition_src_ip6"@[10] == 's' && "partition_enabled"@[10] == 'e');
}

proof fn lemma_unwritten_stays(
    maps: Map<Seq<char>, ValueView>,
    actions: Seq<ActionView>,
    map: Seq<char>,
)
    requires
        maps.dom().contains(map),
        forall|j: int|
            0 <= j < actions.len() ==> ((#[trigger] actions[j]) matches ActionView::Write(w)
                ==> w.map != map),
    ensures
        maps_after(maps, actions).dom().contains(map),
        maps_after(maps, actions)[map] == maps[map],
    decreases actions.len(),
{
    if actions.len() > 0 {
        let before = actions.drop_last();
        assert forall|j: int| 0 <= j < before.len() implies ((
        #[trigger] before[j]) matches ActionView::Write(w) ==> w.map != map) by {
            assert(before[j] == actions[j]);
        }
        lemma_unwritten_stays(maps, before, map);
        assert(actions[actions.len() - 1] == actions.last());
    }
}

proof fn lemma_written_last_stays(
    maps: Map<Seq<char>, ValueView>,
    actions: Seq<ActionView>,
    at: int,
    write: WriteView,
)
    requires
        0 <= at < actions.len(),
        actions[at] == ActionView::Write(write),
        forall|j: int|
            at < j < actions.len() ==> ((#[trigger] actions[j]) matches ActionView::Write(w)
                && w.map != write.map),
    ensures
        maps_after(maps, actions).dom().contains(write.map),
        maps_after(maps, actions)[write.map] == write.value,
    decreases actions.len(),
{
    if at < actions.len() - 1 {
        let before = actions.drop_last();
        assert forall|j: int| at < j < before.len() implies ((
        #[trigger] before[j]) matches ActionView::Write(w) && w.map != write.map) by {
            assert(before[j] == actions[j]);
        }
        lemma_written_last_stays(maps, before, at, write);
        assert(actions[actions.len() - 1] is Write);
    }
}

/// A write of a word to a map.
pub open spec fn word_to(map: Seq<char>, word: u32) -> ActionView {
    ActionView::Write(WriteView { map, value: ValueView::Word(word) })
}

/// Packet loss: the first time, the program `xdp_pktloss` is attached to the
/// interface; then, and every time, the count is written to `drop_every_n`, and
/// zero to disarm.
pub proof fn law_packet_loss_is_set_by_its_count(id: Seq<char>, iface: Seq<char>, n: u32)
    ensures
        ({
            let hook = xdp_pktloss::plan(id, iface, n);
            &&& hook.id == id && !hook.armed
            &&& hook.arm_script() == seq![
                ActionView::Attach("xdp_pktloss"@, iface),
                word_to("drop_every_n"@, n),
            ]
            &&& hook.disarm_script() == Seq::<ActionView>::empty()
            &&& armed(hook).arm_script() == seq![word_to("drop_every_n"@, n)]
            &&& armed(hook).disarm_script() == seq![word_to("drop_every_n"@, 0)]
        }),
{
    let hook = xdp_pktloss::plan(id, iface, n);
    assert(hook.arm_script() =~= seq![
        ActionView::Attach("xdp_pktloss"@, iface),
        word_to("drop_every_n"@, n),
    ]);
    assert(armed(hook).arm_script() =~= seq![word_to("drop_every_n"@, n)]);
}

/// Corruption: where the byte is and which bits of it change is written once,
/// when the program `xdp_corrupt` has been attached; then, and every time, the
/// count is written to `corrupt_every_n`, and zero to disarm.
pub proof fn law_corruption_is_set_by_offset_mask_and_count(
    id: Seq<char>,
    iface: Seq<char>,
    n: u32,
    offset: u32,
    mask: u8,
)
    ensures
        ({
            let hook = xdp_corrupt::plan(id, iface, n, offset, mask);
            &&& hook.id == id && !hook.armed
            &&& hook.arm_script() == seq![
                ActionView::Attach("xdp_corrupt"@, iface),
                word_to("corrupt_offset"@, offset),
                word_to("corrupt_mask"@, mask as u32),
                word_to("corrupt_every_n"@, n),
            ]
            &&& hook.disarm_script() == Seq::<ActionView>::empty()
            &&& armed(hook).arm_script() == seq![word_to("corrupt_every_n"@, n)]
            &&& armed(hook).disarm_script() == seq![word_to("corrupt_every_n"@, 0)]
        }),
{
    let hook = xdp_corrupt::plan(id, iface, n, offset, mask);
    assert(hook.arm_script() =~= seq![
        ActionView::Attach("xdp_corrupt"@, iface),
        word_to("corrupt_offset"@, offset),
        word_to("corrupt_mask"@, mask as u32),
        word_to("corrupt_every_n"@, n),
    ]);
    assert(armed(hook).arm_script() =~= seq![word_to("corrupt_every_n"@, n)]);
}

/// Partition: the address of the peer, byte for byte, and its port are written
/// once, when the program `xdp_partition` has been attached; an address of four
/// bytes and one of sixteen have a map each. Then, and every time, one is
/// written to `partition_enabled`, and zero to disarm.
pub proof fn law_partition_is_set_by_its_peer(
    id: Seq<char>,
    iface: Seq<char>,
    addr: PeerAddr,
    port: u16,
)
    ensures
        ({
            let hook = xdp_partition::plan(id, iface, addr, port);
            &&& hook.id == id && !hook.armed
            &&& hook.arm_script() == seq![
                ActionView::Attach("xdp_partition"@, iface),
                ActionView::Write(
                    match addr {
                        PeerAddr::V4(bytes) => WriteView {
                            map: "partition_src_ip"@,
                            value: ValueView::Bytes4(bytes@),
                        },
                        PeerAddr::V6(bytes) => WriteView {
                            map: "partition_src_ip6"@,
                            value: ValueView::Bytes16(bytes@),
                        },
                    },
                ),
                word_to("partition_src_port"@, port as u32),
                word_to("partition_enabled"@, 1),
            ]
            &&& hook.disarm_script() == Seq::<ActionView>::empty()
            &&& armed(hook).arm_script() == seq![word_to("partition_enabled"@, 1)]
            &&& armed(hook).disarm_script() == seq![word_to("partition_enabled"@, 0)]
        }),
{
    let hook = xdp_partition::plan(id, iface, addr, port);
    let script = hook.arm_script();
    assert(script.len() == 4);
    assert(hook.setup_script()[0] == ActionView::Write(hook.setup[0]));
    assert(hook.setup_script()[1] == ActionView::Write(hook.setup[1]));
    assert(script =~= seq![
        ActionView::Attach("xdp_partition"@, iface),
        ActionView::Write(hook.setup[0]),
        word_to("partition_src_port"@, port as u32),
        word_to("partition_enabled"@, 1),
    ]);
    assert(armed(hook).arm_script() =~= seq![word_to("partition_enabled"@, 1)]);
}

/// How a hook stands after part of its scripts. The program is attached once
/// the first action was done, set up once all but the throw of the switch were,
/// armed once all were, and disarmed once the switch was thrown back. Nothing
/// else of it ever changes.
pub proof fn law_hook_stands_as_its_scripts_went(hook: HookView, done: nat, id: Seq<char>)
    requires
        !hook.armed,
        !hook.attached,
        !hook.ready,
    ensures
        ({
            let writes = hook.setup.len();
            let after = hook.after_arm(done);
            &&& hook.arm_script().len() == writes + 2
            &&& done <= writes + 2 ==> (after.attached <==> done >= 1) && (after.ready <==> done
                >= writes + 1) && (after.armed <==> done == writes + 2)
            &&& after.id == hook.id && after.iface == hook.iface && after.program == hook.program
            &&& after.setup == hook.setup && after.switch == hook.switch && after.on == hook.on
            &&& 1 <= done <= writes ==> after.arm_script().len() == writes + 1
                && after.arm_script()[0] == ActionView::Write(hook.setup[0])
            &&& armed(hook).after_disarm(0).armed
            &&& !armed(hook).after_disarm(1).armed
            &&& armed(hook).after_disarm(1).attached && armed(hook).after_disarm(1).ready
        }),
{
    let after = hook.after_arm(done);
    if 1 <= done <= hook.setup.len() {
        assert(after.arm_script()[0] == after.setup_script()[0]);
    }
}

/// What is said of an action that failed names the fault, and the program or
/// the map that was not there, or else what the system said.
pub proof fn law_xdp_failures_say_what_was_missing(
    hook: HookView,
    script: Seq<ActionView>,
    at: usize,
    failure: XdpFailure,
    r: Result<(), HarnessError>,
)
    requires
        at < script.len(),
        result_of(hook, script, Outcome::Failed(at, failure), r),
    ensures
        r is Err,
        r->Err_0@ == ErrorView::ArmFailed(
            hook.id,
            match (failure, script[at as int]) {
                (XdpFailure::Other(why), _) => why@,
                (XdpFailure::NoProgram, ActionView::Attach(program, _)) => "no program named "@
                    + program + " in object"@,
                (XdpFailure::NoProgram, ActionView::Write(write)) => "no program named "@
                    + write.map + " in object"@,
                (XdpFailure::NoMap, ActionView::Attach(program, _)) => "no map named "@ + program,
                (XdpFailure::NoMap, ActionView::Write(write)) => "no map named "@ + write.map,
            },
        ),
{
}

/// The scripts are handed over as they are: to the interface and the program
/// that they name, to the map, and with the value, that they name.
pub proof fn law_xdp_actions_are_shown_whole(
    program: &'static str,
    iface: String,
    map: &'static str,
    word: u32,
    four: [u8; 4],
    sixteen: [u8; 16],
)
    ensures
        XdpAction::Attach(program, iface)@ == ActionView::Attach(program@, iface@),
        XdpAction::Write(MapWrite { map, value: MapValue::Word(word) })@ == word_to(map@, word),
        XdpAction::Write(MapWrite { map, value: MapValue::Bytes4(four) })@ == ActionView::Write(
            WriteView { map: map@, value: ValueView::Bytes4(four@) },
        ),
        XdpAction::Write(MapWrite { map, value: MapValue::Bytes16(sixteen) })@ == ActionView::Write(
            WriteView { map: map@, value: ValueView::Bytes16(sixteen@) },
        ),
{
}

/// The same of a hook as it stands, whatever came of it before: what is still
/// to be done is in its script and nothing else, what was done stays done, and
/// only the throw of the switch arms and disarms.
pub proof fn law_hook_goes_on_from_where_it_stands(hook: HookView, done: nat)
    ensures
        ({
            let head: nat = if hook.attached {
                0
            } else {
                1
            };
            let writes: nat = if hook.ready {
                0
            } else {
                hook.setup.len()
            };
            let script = hook.arm_script();
            let after = hook.after_arm(done);
            &&& script.len() == head + writes + 1
            &&& !hook.attached ==> script[0] == ActionView::Attach(hook.program, hook.iface)
            &&& forall|i: int|
                0 <= i < writes ==> script[head + i] == ActionView::Write(#[trigger] hook.setup[i])
            &&& script.last() == word_to(hook.switch, hook.on)
            &&& after.attached == (hook.attached || done >= 1)
            &&& after.ready == (hook.ready || done >= head + writes)
            &&& after.armed == (hook.armed || done == head + writes + 1)
            &&& hook.attached ==> hook.disarm_script() == seq![word_to(hook.switch, 0)]
            &&& !hook.attached ==> hook.disarm_script().len() == 0
            &&& hook.attached ==> hook.after_disarm(done).armed == (hook.armed && done == 0)
            &&& !hook.attached ==> !hook.after_disarm(done).armed
            &&& hook.after_disarm(done).attached == hook.attached
            &&& hook.after_disarm(done).ready == hook.ready
        }),
{
    assert forall|i: int| 0 <= i < hook.setup_script().len() implies #[trigger] hook.setup_script()[i]
        == ActionView::Write(hook.setup[i]) by {}
    let head = hook.attach_script().len();
    assert forall|i: int| 0 <= i < hook.setup_script().len() implies hook.arm_script()[head + i]
        == ActionView::Write(#[trigger] hook.setup[i]) by {
        assert(hook.arm_script()[head + i] == hook.setup_script()[i]);
    }
}

} // verus!
