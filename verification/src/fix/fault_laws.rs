//! What each FIX fault does with a message, by what stands in the message.
use vstd::prelude::*;

use crate::fix::adapter::{
    FixAckWithoutExecution, FixExecutionReportPriceMutation, FixRateLimitThrottle, FixSilentReject,
};
use crate::fix::adapter_laws;
use crate::fix::fields::{
    EXEC_TYPE_REJECTED, EXEC_TYPE_TRADE, MSG_TYPE_EXECUTION_REPORT, MSG_TYPE_ORDER_CANCEL_REJECT,
    MSG_TYPE_REJECT, ORD_STATUS_FILLED, ORD_STATUS_PARTIALLY_FILLED, ORD_STATUS_REJECTED,
};
use crate::fix::framing;
use crate::fix::laws;
use crate::fix::message;
use crate::fix::message::{Field, ParseError};
use crate::fix::relay;
use crate::fix::relay::DeliveryView;
use crate::fix::set_field_laws;
use crate::harness::adapter::{ActionView, Direction, ProtocolAdapter, Seen};
use crate::harness::error::ErrorView;

verus! {

/// The codes that the faults go by, as they stand on the wire.
pub proof fn lemma_codes()
    ensures
        MSG_TYPE_REJECT@ == seq![0x33u8],
        MSG_TYPE_ORDER_CANCEL_REJECT@ == seq![0x39u8],
        MSG_TYPE_EXECUTION_REPORT@ == seq![0x38u8],
        ORD_STATUS_REJECTED@ == seq![0x38u8],
        ORD_STATUS_PARTIALLY_FILLED@ == seq![0x31u8],
        ORD_STATUS_FILLED@ == seq![0x32u8],
        EXEC_TYPE_REJECTED@ == seq![0x38u8],
        EXEC_TYPE_TRADE@ == seq![0x46u8],
{
    assert(MSG_TYPE_REJECT@ =~= seq![0x33u8]);
    assert(MSG_TYPE_ORDER_CANCEL_REJECT@ =~= seq![0x39u8]);
    assert(MSG_TYPE_EXECUTION_REPORT@ =~= seq![0x38u8]);
    assert(ORD_STATUS_REJECTED@ =~= seq![0x38u8]);
    assert(ORD_STATUS_PARTIALLY_FILLED@ =~= seq![0x31u8]);
    assert(ORD_STATUS_FILLED@ =~= seq![0x32u8]);
    assert(EXEC_TYPE_REJECTED@ =~= seq![0x38u8]);
    assert(EXEC_TYPE_TRADE@ =~= seq![0x46u8]);
    assert(seq![0x33u8][0] == 0x33 && seq![0x39u8][0] == 0x39 && seq![0x38u8][0] == 0x38);
    assert(seq![0x31u8][0] == 0x31 && seq![0x32u8][0] == 0x32 && seq![0x46u8][0] == 0x46);
}

/// The silent reject lets every execution report through whose OrdStatus is not
/// 8 and whose ExecType is not 8, fills among them, and it goes on unchanged.
pub proof fn law_silent_reject_spares_other_reports(
    fault: FixSilentReject,
    seen: Seq<Seen>,
    bytes: Seq<u8>,
    fields: Seq<Field>,
    verdict: Result<ActionView, ErrorView>,
)
    requires
        message::parsed(bytes) == Ok::<Seq<Field>, ParseError>(fields),
        message::value_of(fields, 35) == Some(seq![0x38u8]),
        message::value_of(fields, 39) != Some(seq![0x38u8]),
        message::value_of(fields, 150) != Some(seq![0x38u8]),
        fault.allows_after(seen, bytes, Direction::Inbound, verdict),
    ensures
        verdict == Ok::<ActionView, ErrorView>(ActionView::Forward),
        relay::delivered(bytes, verdict) == DeliveryView::Send(bytes),
{
    lemma_codes();
    assert(seq![0x38u8][0] != seq![0x33u8][0] && seq![0x38u8][0] != seq![0x39u8][0]);
}

/// The silent reject swallows every session reject (MsgType 3), every cancel
/// reject (9), and every execution report (8) with OrdStatus 8 or ExecType 8,
/// whatever else the message holds.
pub proof fn law_silent_reject_swallows_rejects(
    fault: FixSilentReject,
    seen: Seq<Seen>,
    bytes: Seq<u8>,
    fields: Seq<Field>,
    verdict: Result<ActionView, ErrorView>,
)
    requires
        message::parsed(bytes) == Ok::<Seq<Field>, ParseError>(fields),
        message::value_of(fields, 35) == Some(seq![0x33u8]) || message::value_of(fields, 35)
            == Some(seq![0x39u8]) || message::value_of(fields, 35) == Some(seq![0x38u8]) && (
        message::value_of(fields, 39) == Some(seq![0x38u8]) || message::value_of(fields, 150)
            == Some(seq![0x38u8])),
        fault.allows_after(seen, bytes, Direction::Inbound, verdict),
    ensures
        verdict == Ok::<ActionView, ErrorView>(ActionView::Drop),
        relay::delivered(bytes, verdict) == DeliveryView::Nothing,
{
    lemma_codes();
}

/// A message of any other type, or of none, is not touched by the faults that
/// drop or rewrite reports.
pub proof fn law_other_types_get_through(
    reject: FixSilentReject,
    ack: FixAckWithoutExecution,
    price: FixExecutionReportPriceMutation,
    seen: Seq<Seen>,
    bytes: Seq<u8>,
    fields: Seq<Field>,
    verdict: Result<ActionView, ErrorView>,
)
    requires
        message::parsed(bytes) == Ok::<Seq<Field>, ParseError>(fields),
        message::value_of(fields, 35) != Some(seq![0x38u8]),
    ensures
        ack.allows_after(seen, bytes, Direction::Inbound, verdict) ==> verdict == Ok::<
            ActionView,
            ErrorView,
        >(ActionView::Forward),
        price.allows_after(seen, bytes, Direction::Inbound, verdict) ==> verdict == Ok::<
            ActionView,
            ErrorView,
        >(ActionView::Forward),
        message::value_of(fields, 35) != Some(seq![0x33u8]) && message::value_of(fields, 35)
            != Some(seq![0x39u8]) && reject.allows_after(seen, bytes, Direction::Inbound, verdict)
            ==> verdict == Ok::<ActionView, ErrorView>(ActionView::Forward),
{
    lemma_codes();
}

/// The suppressed execution swallows every execution report that says a trade
/// was made (ExecType F), or that the order is filled in part (OrdStatus 1) or
/// whole (2); every other report goes on unchanged.
pub proof fn law_fills_are_suppressed_and_no_more(
    fault: FixAckWithoutExecution,
    seen: Seq<Seen>,
    bytes: Seq<u8>,
    fields: Seq<Field>,
    verdict: Result<ActionView, ErrorView>,
)
    requires
        message::parsed(bytes) == Ok::<Seq<Field>, ParseError>(fields),
        message::value_of(fields, 35) == Some(seq![0x38u8]),
        fault.allows_after(seen, bytes, Direction::Inbound, verdict),
    ensures
        verdict == Ok::<ActionView, ErrorView>(ActionView::Drop) <==> message::value_of(fields, 150)
            == Some(seq![0x46u8]) || message::value_of(fields, 39) == Some(seq![0x31u8])
            || message::value_of(fields, 39) == Some(seq![0x32u8]),
        verdict == Ok::<ActionView, ErrorView>(ActionView::Drop) ==> relay::delivered(
            bytes,
            verdict,
        ) == DeliveryView::Nothing,
        verdict != Ok::<ActionView, ErrorView>(ActionView::Drop) ==> verdict == Ok::<
            ActionView,
            ErrorView,
        >(ActionView::Forward) && relay::delivered(bytes, verdict) == DeliveryView::Send(bytes),
{
    lemma_codes();
}

/// The faults that read reports leave what goes to the exchange alone, and the
/// throttle what comes from it, whatever stands in it.
pub proof fn law_each_fault_is_about_one_direction(
    reject: FixSilentReject,
    ack: FixAckWithoutExecution,
    price: FixExecutionReportPriceMutation,
    throttle: FixRateLimitThrottle,
    seen: Seq<Seen>,
    bytes: Seq<u8>,
    verdict: Result<ActionView, ErrorView>,
)
    requires
        ({
            ||| reject.allows_after(seen, bytes, Direction::Outbound, verdict)
            ||| ack.allows_after(seen, bytes, Direction::Outbound, verdict)
            ||| price.allows_after(seen, bytes, Direction::Outbound, verdict)
            ||| throttle.allows_after(seen, bytes, Direction::Inbound, verdict)
        }),
    ensures
        verdict == Ok::<ActionView, ErrorView>(ActionView::Forward),
{
}

/// What cannot be read is refused by the fault that was to read it, which says
/// its own name and why, and goes on unchanged all the same.
pub proof fn law_unreadable_messages_go_on(
    reject: FixSilentReject,
    ack: FixAckWithoutExecution,
    price: FixExecutionReportPriceMutation,
    seen: Seq<Seen>,
    bytes: Seq<u8>,
    error: ParseError,
    verdict: Result<ActionView, ErrorView>,
)
    requires
        message::parsed(bytes) == Err::<Seq<Field>, ParseError>(error),
    ensures
        ({
            let why = match error {
                ParseError::Empty => "Empty"@,
                ParseError::MissingSoh => "MissingSoh"@,
                ParseError::MalformedTag => "MalformedTag"@,
            };
            let refused = |name: Seq<char>|
                Err::<ActionView, ErrorView>(ErrorView::AdapterRejected(name, why));
            &&& reject.allows_after(seen, bytes, Direction::Inbound, verdict) ==> verdict
                == refused("fix-silent-reject"@)
            &&& ack.allows_after(seen, bytes, Direction::Inbound, verdict) ==> verdict == refused(
                "fix-ack-without-execution"@,
            )
            &&& price.allows_after(seen, bytes, Direction::Inbound, verdict) ==> verdict
                == refused("fix-execution-report-price-mutation"@)
            &&& verdict is Err ==> relay::delivered(bytes, verdict) == DeliveryView::Send(bytes)
        }),
{
}

/// The price of a fill is rewritten, and nothing else is. A report of a trade
/// that has a price leaves with the new one: every field but BodyLength and
/// CheckSum is where it was, with the value it had. A report without a price,
/// or of no trade, goes on unchanged.
pub proof fn law_only_the_price_of_a_fill_is_rewritten(
    fault: FixExecutionReportPriceMutation,
    seen: Seq<Seen>,
    bytes: Seq<u8>,
    fields: Seq<Field>,
    verdict: Result<ActionView, ErrorView>,
)
    requires
        message::parsed(bytes) == Ok::<Seq<Field>, ParseError>(fields),
        message::value_of(fields, 35) == Some(seq![0x38u8]),
        laws::fits_in_field(fault.price()),
        fault.allows_after(seen, bytes, Direction::Inbound, verdict),
    ensures
        ({
            let fill = message::value_of(fields, 150) == Some(seq![0x46u8]) || message::value_of(
                fields,
                39,
            ) == Some(seq![0x31u8]) || message::value_of(fields, 39) == Some(seq![0x32u8]);
            let rewritten = fill && message::value_of(fields, 44) is Some;
            &&& !rewritten ==> verdict == Ok::<ActionView, ErrorView>(ActionView::Forward)
            &&& rewritten && message::value_of(fields, 8) is None ==> verdict == Err::<
                ActionView,
                ErrorView,
            >(
                ErrorView::AdapterRejected(
                    "fix-execution-report-price-mutation"@,
                    "no BeginString"@,
                ),
            )
            &&& rewritten && message::value_of(fields, 8) is Some ==> {
                &&& verdict matches Ok(ActionView::Mutate(out)) && relay::delivered(bytes, verdict)
                    == DeliveryView::Send(out)
                &&& is_repriced(fields, fault.price(), verdict->Ok_0->Mutate_0)
            }
        }),
{
    lemma_codes();
    if message::value_of(fields, 8) is Some {
        set_field_laws::law_set_field_keeps_the_other_fields(bytes, 44, fault.price());
        if laws::with_field(fields, 44, fault.price()).len() <= usize::MAX {
            laws::law_set_field_is_framed(bytes, 44, fault.price());
        }
    }
}

/// Whether `out` is the message of these fields with this price: it parses, it
/// is one whole frame, its price is this one, and all other fields but
/// BodyLength and CheckSum are there in their order with their own values.
pub open spec fn is_repriced(fields: Seq<Field>, price: Seq<u8>, out: Seq<u8>) -> bool {
    &&& message::parsed(out) is Ok
    &&& out.len() <= usize::MAX ==> framing::framed(out) == Ok::<Option<int>, ParseError>(
        Some(out.len() as int),
    )
    &&& {
        let after = message::parsed(out)->Ok_0;
        &&& message::value_of(after, 44) == Some(price)
        &&& message::value_of(after, 8) == message::value_of(fields, 8)
        &&& forall|t: u32|
            t != 9 && t != 10 && t != 44 ==> #[trigger] message::value_of(after, t)
                == message::value_of(fields, t)
        &&& set_field_laws::others(after).len() == set_field_laws::others(fields).len()
        &&& forall|i: int|
            0 <= i < set_field_laws::others(fields).len() ==> {
                &&& (#[trigger] set_field_laws::others(after)[i]).0 == set_field_laws::others(
                    fields,
                )[i].0
                &&& set_field_laws::others(after)[i].0 == 44 ==> set_field_laws::others(after)[i].1
                    == price
                &&& set_field_laws::others(after)[i].0 != 44 ==> set_field_laws::others(after)[i].1
                    == set_field_laws::others(fields)[i].1
            }
    }
}

/// The throttle counts what goes to the exchange since its fault was last armed
/// and nothing else: as many messages as its threshold says get through, and
/// every one behind them is swallowed, until it can count no further.
pub proof fn law_throttle_counts_from_arming(
    fault: FixRateLimitThrottle,
    before: Seq<Seen>,
    since: Seq<Seen>,
    bytes: Seq<u8>,
    verdict: Result<ActionView, ErrorView>,
)
    requires
        forall|i: int| 0 <= i < since.len() ==> (#[trigger] since[i]) is Message,
        adapter_laws::outbound(since) < u64::MAX,
        fault.allows_after(before + seq![Seen::Armed] + since, bytes, Direction::Outbound, verdict),
    ensures
        verdict == Ok::<ActionView, ErrorView>(
            if adapter_laws::outbound(since) < fault.threshold() {
                ActionView::Forward
            } else {
                ActionView::Drop
            },
        ),
{
    adapter_laws::law_throttle_lets_the_first_through(
        fault.threshold(),
        fault.count(),
        before,
        since,
    );
}

/// A throttle that has counted nothing yet counts from its first message on,
/// armed or not.
pub proof fn law_new_throttle_counts_from_the_start(
    fault: FixRateLimitThrottle,
    seen: Seq<Seen>,
    bytes: Seq<u8>,
    verdict: Result<ActionView, ErrorView>,
)
    requires
        fault.count() == 0,
        forall|i: int| 0 <= i < seen.len() ==> (#[trigger] seen[i]) is Message,
        adapter_laws::outbound(seen) < u64::MAX,
        fault.allows_after(seen, bytes, Direction::Outbound, verdict),
    ensures
        verdict == Ok::<ActionView, ErrorView>(
            if adapter_laws::outbound(seen) < fault.threshold() {
                ActionView::Forward
            } else {
                ActionView::Drop
            },
        ),
{
    adapter_laws::lemma_counted_since(0, seen);
}

/// What a verdict does to a message. Only a drop swallows it, only a rewriting
/// changes it, and only a delay holds it back, for as long as it says; in every
/// other case, an error among them, it leaves at once as it came.
pub proof fn law_verdict_decides_what_leaves(
    message: Seq<u8>,
    verdict: Result<ActionView, ErrorView>,
    out: Seq<u8>,
    ns: u64,
)
    ensures
        relay::delivered(message, verdict) == DeliveryView::Nothing <==> verdict == Ok::<
            ActionView,
            ErrorView,
        >(ActionView::Drop),
        relay::delivered(message, verdict) == DeliveryView::SendAfter(ns, out) <==> out == message
            && verdict == Ok::<ActionView, ErrorView>(ActionView::Delay(ns)),
        relay::delivered(message, verdict) == DeliveryView::Send(out) && out != message ==> verdict
            == Ok::<ActionView, ErrorView>(ActionView::Mutate(out)),
        verdict == Ok::<ActionView, ErrorView>(ActionView::Mutate(out)) ==> relay::delivered(
            message,
            verdict,
        ) == DeliveryView::Send(out),
        verdict is Err || verdict == Ok::<ActionView, ErrorView>(ActionView::Forward)
            ==> relay::delivered(message, verdict) == DeliveryView::Send(message),
{
}

} // verus!
