//! What holds of the FIX faults as a whole.
use vstd::prelude::*;

use crate::fix::adapter;
use crate::fix::fields::{
    EXEC_TYPE_NEW, EXEC_TYPE_REJECTED, EXEC_TYPE_TRADE, MSG_TYPE_EXECUTION_REPORT,
    MSG_TYPE_ORDER_CANCEL_REJECT, MSG_TYPE_REJECT, ORD_STATUS_FILLED, ORD_STATUS_NEW,
    ORD_STATUS_PARTIALLY_FILLED, ORD_STATUS_REJECTED, TAG_EXEC_TYPE, TAG_MSG_TYPE, TAG_ORD_STATUS,
    TAG_PRICE,
};
use crate::fix::framing;
use crate::fix::laws;
use crate::fix::message;
use crate::fix::message::{Field, ParseError};
use crate::fix::relay;
use crate::fix::relay::DeliveryView;
use crate::harness::adapter::{ActionView, Direction, Seen};
use crate::harness::error::ErrorView;

verus! {

/// A fault that is about one direction leaves the other alone, whatever its
/// messages hold.
pub proof fn law_other_direction_is_left_alone(
    bytes: Seq<u8>,
    price: Seq<u8>,
    threshold: u64,
    count: u64,
)
    ensures
        adapter::silently_rejected(bytes, Direction::Outbound) == Ok::<ActionView, ErrorView>(
            ActionView::Forward,
        ),
        adapter::acked_without_execution(bytes, Direction::Outbound) == Ok::<
            ActionView,
            ErrorView,
        >(ActionView::Forward),
        adapter::repriced(bytes, Direction::Outbound, price) == Ok::<ActionView, ErrorView>(
            ActionView::Forward,
        ),
        adapter::throttled(threshold, count, Direction::Inbound) == ActionView::Forward,
        adapter::counted(count, Direction::Inbound) == count,
{
}

/// A fault that drops messages changes none: what it does not drop goes on as
/// it came, and it drops only what it is about. What it cannot read goes on.
pub proof fn law_dropping_faults_change_nothing_else(bytes: Seq<u8>, direction: Direction)
    ensures
        relay::delivered(bytes, adapter::silently_rejected(bytes, direction)) == (if direction
            == Direction::Inbound && (message::parsed(bytes) matches Ok(fields)
            && adapter::is_rejection(fields)) {
            DeliveryView::Nothing
        } else {
            DeliveryView::Send(bytes)
        }),
        relay::delivered(bytes, adapter::acked_without_execution(bytes, direction)) == (
        if direction == Direction::Inbound && (message::parsed(bytes) matches Ok(fields)
            && adapter::is_fill(fields)) {
            DeliveryView::Nothing
        } else {
            DeliveryView::Send(bytes)
        }),
{
}

/// The acknowledgement of a new order gets through both faults that drop
/// reports: it is neither a reject nor a trade.
pub proof fn law_acknowledgement_gets_through(fields: Seq<Field>)
    requires
        adapter::has(fields, TAG_MSG_TYPE, MSG_TYPE_EXECUTION_REPORT@),
        adapter::has(fields, TAG_ORD_STATUS, ORD_STATUS_NEW@),
        adapter::has(fields, TAG_EXEC_TYPE, EXEC_TYPE_NEW@),
    ensures
        !adapter::is_rejection(fields),
        !adapter::is_fill(fields),
{
    assert(MSG_TYPE_EXECUTION_REPORT@[0] == 0x38);
    assert(MSG_TYPE_REJECT@[0] == 0x33);
    assert(MSG_TYPE_ORDER_CANCEL_REJECT@[0] == 0x39);
    assert(ORD_STATUS_NEW@[0] == 0x30);
    assert(ORD_STATUS_REJECTED@[0] == 0x38);
    assert(ORD_STATUS_PARTIALLY_FILLED@[0] == 0x31);
    assert(ORD_STATUS_FILLED@[0] == 0x32);
    assert(EXEC_TYPE_NEW@[0] == 0x30);
    assert(EXEC_TYPE_REJECTED@[0] == 0x38);
    assert(EXEC_TYPE_TRADE@[0] == 0x46);
}

/// How many of the messages that were seen are outbound.
pub open spec fn outbound(seen: Seq<Seen>) -> nat
    decreases seen.len(),
{
    if seen.len() == 0 {
        0
    } else {
        outbound(seen.skip(1)) + (match seen[0] {
            Seen::Message(_, Direction::Outbound) => 1nat,
            _ => 0nat,
        })
    }
}

/// A throttle lets through the first outbound messages since its fault was
/// armed, as many as its threshold says, and drops every one behind them,
/// until it can count no further. What came by before that does not count.
pub proof fn law_throttle_lets_the_first_through(
    threshold: u64,
    count: u64,
    before: Seq<Seen>,
    since: Seq<Seen>,
)
    requires
        forall|i: int| 0 <= i < since.len() ==> (#[trigger] since[i]) is Message,
        outbound(since) < u64::MAX,
    ensures
        adapter::counted_over(count, before + seq![Seen::Armed] + since) == outbound(since),
        adapter::throttled(
            threshold,
            adapter::counted_over(count, before + seq![Seen::Armed] + since),
            Direction::Outbound,
        ) == (if outbound(since) < threshold {
            ActionView::Forward
        } else {
            ActionView::Drop
        }),
{
    let later = seq![Seen::Armed] + since;
    lemma_counted_over_parts(count, before, later);
    assert(before + later =~= before + seq![Seen::Armed] + since);
    assert(later.skip(1) =~= since);
    lemma_counted_since(0, since);
}

proof fn lemma_counted_over_parts(count: u64, sooner: Seq<Seen>, later: Seq<Seen>)
    ensures
        adapter::counted_over(count, sooner + later) == adapter::counted_over(
            adapter::counted_over(count, sooner),
            later,
        ),
    decreases sooner.len(),
{
    if sooner.len() == 0 {
        assert(sooner + later =~= later);
    } else {
        let next = match sooner[0] {
            Seen::Armed => 0,
            Seen::Message(_, direction) => adapter::counted(count, direction),
        };
        lemma_counted_over_parts(next, sooner.skip(1), later);
        assert((sooner + later).skip(1) =~= sooner.skip(1) + later);
    }
}

pub proof fn lemma_counted_since(count: u64, seen: Seq<Seen>)
    requires
        forall|i: int| 0 <= i < seen.len() ==> (#[trigger] seen[i]) is Message,
        count + outbound(seen) < u64::MAX,
    ensures
        adapter::counted_over(count, seen) == count + outbound(seen),
    decreases seen.len(),
{
    if seen.len() > 0 {
        assert(seen[0] is Message);
        let rest = seen.skip(1);
        assert forall|i: int| 0 <= i < rest.len() implies (#[trigger] rest[i]) is Message by {
            assert(rest[i] == seen[i + 1]);
        }
        lemma_counted_since(adapter::counted(count, seen[0]->Message_1), rest);
    }
}

/// A report that was given another price is a valid message: it parses, it is
/// one whole frame, its price is the one that was asked for, and every other
/// field of its body is that of the report. It is still the report of a trade.
pub proof fn law_repriced_report_is_valid(bytes: Seq<u8>, price: Seq<u8>)
    requires
        laws::fits_in_field(price),
        adapter::repriced(bytes, Direction::Inbound, price) matches Ok(ActionView::Mutate(out))
            && out.len() <= usize::MAX,
    ensures
        ({
            let before = message::parsed(bytes)->Ok_0;
            let out = adapter::repriced(bytes, Direction::Inbound, price)->Ok_0->Mutate_0;
            &&& framing::framed(out) == Ok::<Option<int>, ParseError>(Some(out.len() as int))
            &&& message::parsed(out) is Ok
            &&& message::value_of(message::parsed(out)->Ok_0, TAG_PRICE) == Some(price)
            &&& forall|t: u32|
                !message::is_structural(t) && t != TAG_PRICE ==> #[trigger] message::value_of(
                    message::parsed(out)->Ok_0,
                    t,
                ) == message::value_of(before, t)
            &&& adapter::is_fill(message::parsed(out)->Ok_0)
        }),
{
    laws::law_set_field_replaces_one_value(bytes, TAG_PRICE, price);
    laws::law_set_field_is_framed(bytes, TAG_PRICE, price);
}

} // verus!
