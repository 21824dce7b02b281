//! What each FIX fault makes of the messages of a session.
use vstd::prelude::*;

use crate::fix::adapter::{FixAckWithoutExecution, FixRateLimitThrottle, FixSilentReject};
use crate::fix::adapter_laws;
use crate::fix::fault_laws;
use crate::fix::injector;
use crate::fix::injector::FixFaultInjector;
use crate::fix::message;
use crate::fix::relay::DeliveryView;
use crate::harness::adapter::{ActionView, Direction, ProtocolAdapter, Seen};
use crate::harness::error::ErrorView;

verus! {

/// Whether a message says that something was rejected: by MsgType 3 or 9, or
/// by OrdStatus 8 or ExecType 8 in an execution report.
pub open spec fn says_rejected(bytes: Seq<u8>) -> bool {
    message::parsed(bytes) matches Ok(fields) && {
        ||| message::value_of(fields, 35) == Some(seq![0x33u8])
        ||| message::value_of(fields, 35) == Some(seq![0x39u8])
        ||| message::value_of(fields, 35) == Some(seq![0x38u8]) && (message::value_of(fields, 39)
            == Some(seq![0x38u8]) || message::value_of(fields, 150) == Some(seq![0x38u8]))
    }
}

/// Whether a message reports a trade: by ExecType F, or OrdStatus 1 or 2, in an
/// execution report.
pub open spec fn says_filled(bytes: Seq<u8>) -> bool {
    message::parsed(bytes) matches Ok(fields) && message::value_of(fields, 35) == Some(
        seq![0x38u8],
    ) && (message::value_of(fields, 150) == Some(seq![0x46u8]) || message::value_of(fields, 39)
        == Some(seq![0x31u8]) || message::value_of(fields, 39) == Some(seq![0x32u8]))
}

/// Whether the adapter of a fault answers every message as this one does.
pub open spec fn answers_as<A: ProtocolAdapter>(fault: FixFaultInjector, adapter: A) -> bool {
    forall|
        seen: Seq<Seen>,
        bytes: Seq<u8>,
        direction: Direction,
        verdict: Result<ActionView, ErrorView>,
    | #[trigger]
        fault.allows_after(seen, bytes, direction, verdict) == adapter.allows_after(
            seen,
            bytes,
            direction,
            verdict,
        )
}

/// Of what comes from the exchange, an armed silent reject swallows the
/// rejections and nothing else; the rest goes on unchanged and in order. What
/// goes to the exchange it leaves alone.
pub proof fn law_silent_reject_hides_rejections(
    before: FixFaultInjector,
    after: FixFaultInjector,
    adapter: FixSilentReject,
    direction: Direction,
    messages: Seq<Seq<u8>>,
    out: Seq<DeliveryView>,
    i: int,
)
    requires
        before.armed(),
        answers_as(before, adapter),
        injector::passed_on(before, after, direction, messages, out),
        0 <= i < messages.len(),
    ensures
        out.len() == messages.len(),
        out[i] == (if direction == Direction::Inbound && says_rejected(messages[i]) {
            DeliveryView::Nothing
        } else {
            DeliveryView::Send(messages[i])
        }),
{
    let bytes = messages[i];
    let verdicts = choose|verdicts: Seq<Result<ActionView, ErrorView>>|
        before.judges(direction, messages, verdicts) && out == #[trigger] injector::deliveries(
            messages,
            verdicts,
        );
    let seen = injector::seen_of(messages.take(i), direction);
    let verdict = verdicts[i];
    assert(before.allows_after(seen, bytes, direction, verdict));
    assert(adapter.allows_after(seen, bytes, direction, verdict));
    if direction == Direction::Inbound {
        if let Ok(fields) = message::parsed(bytes) {
            if says_rejected(bytes) {
                fault_laws::law_silent_reject_swallows_rejects(
                    adapter,
                    seen,
                    bytes,
                    fields,
                    verdict,
                );
            } else if message::value_of(fields, 35) == Some(seq![0x38u8]) {
                fault_laws::law_silent_reject_spares_other_reports(
                    adapter,
                    seen,
                    bytes,
                    fields,
                    verdict,
                );
            } else {
                fault_laws::lemma_codes();
            }
        }
    }
}

/// Of what comes from the exchange, an armed suppressed execution swallows the
/// reports of trades and nothing else; the rest goes on unchanged and in order.
/// What goes to the exchange it leaves alone.
pub proof fn law_suppressed_execution_hides_fills(
    before: FixFaultInjector,
    after: FixFaultInjector,
    adapter: FixAckWithoutExecution,
    direction: Direction,
    messages: Seq<Seq<u8>>,
    out: Seq<DeliveryView>,
    i: int,
)
    requires
        before.armed(),
        answers_as(before, adapter),
        injector::passed_on(before, after, direction, messages, out),
        0 <= i < messages.len(),
    ensures
        out.len() == messages.len(),
        out[i] == (if direction == Direction::Inbound && says_filled(messages[i]) {
            DeliveryView::Nothing
        } else {
            DeliveryView::Send(messages[i])
        }),
{
    let bytes = messages[i];
    let verdicts = choose|verdicts: Seq<Result<ActionView, ErrorView>>|
        before.judges(direction, messages, verdicts) && out == #[trigger] injector::deliveries(
            messages,
            verdicts,
        );
    let seen = injector::seen_of(messages.take(i), direction);
    let verdict = verdicts[i];
    assert(before.allows_after(seen, bytes, direction, verdict));
    assert(adapter.allows_after(seen, bytes, direction, verdict));
    if direction == Direction::Inbound {
        if let Ok(fields) = message::parsed(bytes) {
            if message::value_of(fields, 35) == Some(seq![0x38u8]) {
                fault_laws::law_fills_are_suppressed_and_no_more(
                    adapter,
                    seen,
                    bytes,
                    fields,
                    verdict,
                );
            } else {
                fault_laws::lemma_codes();
            }
        }
    }
}

/// A throttle that has just been armed lets the first messages to the exchange
/// through, as many as its threshold says, and swallows the rest. What comes
/// from the exchange it leaves alone.
pub proof fn law_throttle_cuts_off_behind_its_threshold(
    fresh: FixFaultInjector,
    before: FixFaultInjector,
    after: FixFaultInjector,
    adapter: FixRateLimitThrottle,
    direction: Direction,
    messages: Seq<Seq<u8>>,
    out: Seq<DeliveryView>,
    i: int,
)
    requires
        answers_as(fresh, adapter),
        before.has_seen(fresh, seq![Seen::Armed]),
        before.armed(),
        injector::passed_on(before, after, direction, messages, out),
        0 <= i < messages.len() < u64::MAX,
    ensures
        out.len() == messages.len(),
        out[i] == (if direction == Direction::Inbound || i < adapter.threshold() {
            DeliveryView::Send(messages[i])
        } else {
            DeliveryView::Nothing
        }),
{
    let bytes = messages[i];
    let verdicts = choose|verdicts: Seq<Result<ActionView, ErrorView>>|
        before.judges(direction, messages, verdicts) && out == #[trigger] injector::deliveries(
            messages,
            verdicts,
        );
    let since = injector::seen_of(messages.take(i), direction);
    let verdict = verdicts[i];
    let seen = seq![Seen::Armed] + since;
    assert(before.allows_after(since, bytes, direction, verdict));
    assert(fresh.allows_after(seen, bytes, direction, verdict));
    assert(adapter.allows_after(seen, bytes, direction, verdict));
    if direction == Direction::Outbound {
        lemma_outbound_of(messages.take(i));
        assert(Seq::<Seen>::empty() + seq![Seen::Armed] + since =~= seen);
        fault_laws::law_throttle_counts_from_arming(
            adapter,
            Seq::empty(),
            since,
            bytes,
            verdict,
        );
    }
}

proof fn lemma_outbound_of(messages: Seq<Seq<u8>>)
    ensures
        adapter_laws::outbound(injector::seen_of(messages, Direction::Outbound)) == messages.len(),
    decreases messages.len(),
{
    let seen = injector::seen_of(messages, Direction::Outbound);
    if messages.len() > 0 {
        lemma_outbound_of(messages.skip(1));
        assert(seen.skip(1) =~= injector::seen_of(messages.skip(1), Direction::Outbound));
        assert(seen[0] == Seen::Message(messages[0], Direction::Outbound));
    }
}

/// While a fault is not armed, every message leaves as it came, whatever its
/// adapter would say, and the adapter does not hear of it.
pub proof fn law_unarmed_fault_passes_everything(
    before: FixFaultInjector,
    after: FixFaultInjector,
    direction: Direction,
    messages: Seq<Seq<u8>>,
    out: Seq<DeliveryView>,
    i: int,
)
    requires
        !before.armed(),
        injector::passed_on(before, after, direction, messages, out),
        0 <= i < messages.len(),
    ensures
        out.len() == messages.len(),
        out[i] == DeliveryView::Send(messages[i]),
        after.has_seen(before, Seq::empty()),
{
}

} // verus!
