//! The rules of the FIX faults: what each does with a message on its way.
use vstd::prelude::*;

use crate::fix::fields::{
    EXEC_TYPE_REJECTED, EXEC_TYPE_TRADE, MSG_TYPE_EXECUTION_REPORT, MSG_TYPE_ORDER_CANCEL_REJECT,
    MSG_TYPE_REJECT, ORD_STATUS_FILLED, ORD_STATUS_PARTIALLY_FILLED, ORD_STATUS_REJECTED,
    TAG_BEGIN_STRING, TAG_EXEC_TYPE, TAG_MSG_TYPE, TAG_ORD_STATUS, TAG_PRICE,
};
use crate::fix::message;
use crate::fix::message::{parse, set_field, Field, FixMessage, ParseError};
use crate::harness::adapter::{Direction, InterceptAction, ProtocolAdapter, RawMessage};
use crate::harness::error::HarnessError;

#[allow(unused_imports)]
use crate::harness::adapter::{ActionView, Seen};
#[allow(unused_imports)]
use crate::harness::error::ErrorView;

verus! {

/// Whether the first value of `tag` is `value`.
pub open spec fn has(fields: Seq<Field>, tag: u32, value: Seq<u8>) -> bool {
    message::value_of(fields, tag) == Some(value)
}

/// Whether a message says that something was rejected: a reject of the
/// session, a reject of a cancel, or a report on a rejected order.
pub open spec fn is_rejection(fields: Seq<Field>) -> bool {
    ||| has(fields, TAG_MSG_TYPE, MSG_TYPE_REJECT@)
    ||| has(fields, TAG_MSG_TYPE, MSG_TYPE_ORDER_CANCEL_REJECT@)
    ||| has(fields, TAG_MSG_TYPE, MSG_TYPE_EXECUTION_REPORT@) && (has(
        fields,
        TAG_ORD_STATUS,
        ORD_STATUS_REJECTED@,
    ) || has(fields, TAG_EXEC_TYPE, EXEC_TYPE_REJECTED@))
}

/// Whether a message reports a trade: an order filled, whole or in part.
pub open spec fn is_fill(fields: Seq<Field>) -> bool {
    has(fields, TAG_MSG_TYPE, MSG_TYPE_EXECUTION_REPORT@) && (has(
        fields,
        TAG_EXEC_TYPE,
        EXEC_TYPE_TRADE@,
    ) || has(fields, TAG_ORD_STATUS, ORD_STATUS_PARTIALLY_FILLED@) || has(
        fields,
        TAG_ORD_STATUS,
        ORD_STATUS_FILLED@,
    ))
}

/// The name of a parse error.
pub open spec fn parse_error_name(error: ParseError) -> Seq<char> {
    match error {
        ParseError::Empty => "Empty"@,
        ParseError::MissingSoh => "MissingSoh"@,
        ParseError::MalformedTag => "MalformedTag"@,
    }
}

/// What an adapter says of a message that it could not read.
pub open spec fn unreadable(name: Seq<char>, error: ParseError) -> Result<ActionView, ErrorView> {
    Err(ErrorView::AdapterRejected(name, parse_error_name(error)))
}

/// What a fault that drops inbound messages does with one: `dropped` says
/// which.
pub open spec fn drop_inbound(
    name: Seq<char>,
    bytes: Seq<u8>,
    direction: Direction,
    dropped: spec_fn(Seq<Field>) -> bool,
) -> Result<ActionView, ErrorView> {
    if direction != Direction::Inbound {
        Ok(ActionView::Forward)
    } else {
        match message::parsed(bytes) {
            Err(e) => unreadable(name, e),
            Ok(fields) => Ok(
                if dropped(fields) {
                    ActionView::Drop
                } else {
                    ActionView::Forward
                },
            ),
        }
    }
}

/// What the silent reject does with a message.
pub open spec fn silently_rejected(bytes: Seq<u8>, direction: Direction) -> Result<
    ActionView,
    ErrorView,
> {
    drop_inbound(
        "fix-silent-reject"@,
        bytes,
        direction,
        |fields: Seq<Field>| is_rejection(fields),
    )
}

/// What the suppressed execution does with a message.
pub open spec fn acked_without_execution(bytes: Seq<u8>, direction: Direction) -> Result<
    ActionView,
    ErrorView,
> {
    drop_inbound(
        "fix-ack-without-execution"@,
        bytes,
        direction,
        |fields: Seq<Field>| is_fill(fields),
    )
}

fn rejected(name: &str, error: ParseError) -> (r: HarnessError)
    ensures
        r@ == ErrorView::AdapterRejected(name@, parse_error_name(error)),
{
    let reason = match error {
        ParseError::Empty => "Empty",
        ParseError::MissingSoh => "MissingSoh",
        ParseError::MalformedTag => "MalformedTag",
    };
    HarnessError::AdapterRejected(name.to_owned(), reason.to_owned())
}

fn says_rejection(m: &FixMessage) -> (r: bool)
    ensures
        r == is_rejection(m@),
{
    m.is(TAG_MSG_TYPE, &MSG_TYPE_REJECT) || m.is(TAG_MSG_TYPE, &MSG_TYPE_ORDER_CANCEL_REJECT) || (
    m.is(TAG_MSG_TYPE, &MSG_TYPE_EXECUTION_REPORT) && (m.is(TAG_ORD_STATUS, &ORD_STATUS_REJECTED)
        || m.is(TAG_EXEC_TYPE, &EXEC_TYPE_REJECTED)))
}

fn says_fill(m: &FixMessage) -> (r: bool)
    ensures
        r == is_fill(m@),
{
    m.is(TAG_MSG_TYPE, &MSG_TYPE_EXECUTION_REPORT) && (m.is(TAG_EXEC_TYPE, &EXEC_TYPE_TRADE)
        || m.is(TAG_ORD_STATUS, &ORD_STATUS_PARTIALLY_FILLED) || m.is(
        TAG_ORD_STATUS,
        &ORD_STATUS_FILLED,
    ))
}

/// Drops what says that something was rejected, on its way to the client. The
/// order looks live to the client, which never hears that it was refused.
pub struct FixSilentReject;

impl ProtocolAdapter for FixSilentReject {
    open spec fn named(&self) -> &str {
        "fix-silent-reject"
    }

    open spec fn allows_after(
        &self,
        seen: Seq<Seen>,
        bytes: Seq<u8>,
        direction: Direction,
        verdict: Result<ActionView, ErrorView>,
    ) -> bool {
        verdict == silently_rejected(bytes, direction)
    }

    fn name(&self) -> (r: &str) {
        "fix-silent-reject"
    }

    fn on_arm(&mut self) {
    }

    fn intercept(&mut self, msg: &RawMessage) -> (r: Result<InterceptAction, HarnessError>) {
        if msg.direction != Direction::Inbound {
            return Ok(InterceptAction::Forward);
        }
        match parse(msg.bytes.as_slice()) {
            Err(e) => Err(rejected(self.name(), e)),
            Ok(m) => Ok(
                if says_rejection(&m) {
                    InterceptAction::Drop
                } else {
                    InterceptAction::Forward
                },
            ),
        }
    }
}

/// Drops the reports of trades on their way to the client and lets the
/// acknowledgement through: the client sees its order accepted and never hears
/// that it traded.
pub struct FixAckWithoutExecution;

impl ProtocolAdapter for FixAckWithoutExecution {
    open spec fn named(&self) -> &str {
        "fix-ack-without-execution"
    }

    open spec fn allows_after(
        &self,
        seen: Seq<Seen>,
        bytes: Seq<u8>,
        direction: Direction,
        verdict: Result<ActionView, ErrorView>,
    ) -> bool {
        verdict == acked_without_execution(bytes, direction)
    }

    fn name(&self) -> (r: &str) {
        "fix-ack-without-execution"
    }

    fn on_arm(&mut self) {
    }

    fn intercept(&mut self, msg: &RawMessage) -> (r: Result<InterceptAction, HarnessError>) {
        if msg.direction != Direction::Inbound {
            return Ok(InterceptAction::Forward);
        }
        match parse(msg.bytes.as_slice()) {
            Err(e) => Err(rejected(self.name(), e)),
            Ok(m) => Ok(
                if says_fill(&m) {
                    InterceptAction::Drop
                } else {
                    InterceptAction::Forward
                },
            ),
        }
    }
}

/// Drops outbound messages once more than a threshold of them have come by
/// since the fault was armed, without a reject: under a rate limit the request
/// just never arrives.
pub struct FixRateLimitThrottle {
    threshold: u64,
    count: u64,
}

/// How many outbound messages a throttle has counted after one more message.
/// The count starts again at zero behind the last value that fits.
pub open spec fn counted(count: u64, direction: Direction) -> u64 {
    if direction != Direction::Outbound {
        count
    } else if count == u64::MAX {
        0
    } else {
        (count + 1) as u64
    }
}

/// How many outbound messages a throttle has counted after what it has seen:
/// when its fault is armed, it starts anew.
pub open spec fn counted_over(count: u64, seen: Seq<Seen>) -> u64
    decreases seen.len(),
{
    if seen.len() == 0 {
        count
    } else {
        let next = match seen[0] {
            Seen::Armed => 0,
            Seen::Message(_, direction) => counted(count, direction),
        };
        counted_over(next, seen.skip(1))
    }
}

/// Counting goes on from what came first.
proof fn lemma_counted_over_next(count: u64, first: Seen)
    ensures
        forall|seen: Seq<Seen>| #[trigger]
            counted_over(count, seq![first] + seen) == counted_over(
                match first {
                    Seen::Armed => 0,
                    Seen::Message(_, direction) => counted(count, direction),
                },
                seen,
            ),
{
    assert forall|seen: Seq<Seen>| #[trigger]
        counted_over(count, seq![first] + seen) == counted_over(
            match first {
                Seen::Armed => 0,
                Seen::Message(_, direction) => counted(count, direction),
            },
            seen,
        ) by {
        assert((seq![first] + seen).skip(1) =~= seen);
    }
}

/// What a throttle does with the next message.
pub open spec fn throttled(threshold: u64, count: u64, direction: Direction) -> ActionView {
    if direction == Direction::Outbound && counted(count, direction) > threshold {
        ActionView::Drop
    } else {
        ActionView::Forward
    }
}

impl FixRateLimitThrottle {
    /// How many messages get through.
    pub closed spec fn threshold(self) -> u64 {
        self.threshold
    }

    /// How many outbound messages have come by since the fault was armed.
    pub closed spec fn count(self) -> u64 {
        self.count
    }

    pub fn new(threshold: u64) -> (r: Self)
        ensures
            r.threshold() == threshold,
            r.count() == 0,
    {
        FixRateLimitThrottle { threshold, count: 0 }
    }
}

impl ProtocolAdapter for FixRateLimitThrottle {
    open spec fn named(&self) -> &str {
        "fix-rate-limit-throttle"
    }

    open spec fn allows_after(
        &self,
        seen: Seq<Seen>,
        bytes: Seq<u8>,
        direction: Direction,
        verdict: Result<ActionView, ErrorView>,
    ) -> bool {
        verdict == Ok::<ActionView, ErrorView>(
            throttled(self.threshold(), counted_over(self.count(), seen), direction),
        )
    }

    fn name(&self) -> (r: &str) {
        "fix-rate-limit-throttle"
    }

    fn on_arm(&mut self)
        ensures
            final(self).threshold() == old(self).threshold(),
            final(self).count() == 0,
    {
        proof {
            lemma_counted_over_next(old(self).count(), Seen::Armed);
        }
        self.count = 0;
    }

    fn intercept(&mut self, msg: &RawMessage) -> (r: Result<InterceptAction, HarnessError>)
        ensures
            final(self).threshold() == old(self).threshold(),
            final(self).count() == counted(old(self).count(), msg.direction),
    {
        proof {
            lemma_counted_over_next(old(self).count(), Seen::Message(msg.bytes@, msg.direction));
        }
        if msg.direction != Direction::Outbound {
            return Ok(InterceptAction::Forward);
        }
        self.count = self.count.wrapping_add(1);
        Ok(
            if self.count > self.threshold {
                InterceptAction::Drop
            } else {
                InterceptAction::Forward
            },
        )
    }
}

/// Gives the reports of trades another price on their way to the client. The
/// client gets a valid message that states a price at which nothing traded.
pub struct FixExecutionReportPriceMutation {
    price: Vec<u8>,
}

/// What a price mutation does with a message. A report without a price has
/// none to replace, and a message without BeginString cannot be written anew.
pub open spec fn repriced(bytes: Seq<u8>, direction: Direction, price: Seq<u8>) -> Result<
    ActionView,
    ErrorView,
> {
    let name = "fix-execution-report-price-mutation"@;
    if direction != Direction::Inbound {
        Ok(ActionView::Forward)
    } else {
        match message::parsed(bytes) {
            Err(e) => unreadable(name, e),
            Ok(fields) => if !is_fill(fields) || message::value_of(fields, TAG_PRICE) is None {
                Ok(ActionView::Forward)
            } else {
                match message::value_of(fields, TAG_BEGIN_STRING) {
                    None => Err(ErrorView::AdapterRejected(name, "no BeginString"@)),
                    Some(begin_string) => Ok(
                        ActionView::Mutate(
                            message::encoded_message(
                                begin_string,
                                message::replaced_body(fields, TAG_PRICE, price),
                            ),
                        ),
                    ),
                }
            },
        }
    }
}

impl FixExecutionReportPriceMutation {
    /// The price that replaces the one reported.
    pub closed spec fn price(self) -> Seq<u8> {
        self.price@
    }

    pub fn new(price: Vec<u8>) -> (r: Self)
        ensures
            r.price() == price@,
    {
        FixExecutionReportPriceMutation { price }
    }
}

impl ProtocolAdapter for FixExecutionReportPriceMutation {
    open spec fn named(&self) -> &str {
        "fix-execution-report-price-mutation"
    }

    open spec fn allows_after(
        &self,
        seen: Seq<Seen>,
        bytes: Seq<u8>,
        direction: Direction,
        verdict: Result<ActionView, ErrorView>,
    ) -> bool {
        verdict == repriced(bytes, direction, self.price())
    }

    fn name(&self) -> (r: &str) {
        "fix-execution-report-price-mutation"
    }

    fn on_arm(&mut self)
        ensures
            final(self).price() == old(self).price(),
    {
    }

    fn intercept(&mut self, msg: &RawMessage) -> (r: Result<InterceptAction, HarnessError>)
        ensures
            final(self).price() == old(self).price(),
    {
        if msg.direction != Direction::Inbound {
            return Ok(InterceptAction::Forward);
        }
        let m = match parse(msg.bytes.as_slice()) {
            Err(e) => {
                return Err(rejected(self.name(), e));
            },
            Ok(m) => m,
        };
        if !says_fill(&m) || m.get(TAG_PRICE).is_none() {
            return Ok(InterceptAction::Forward);
        }
        if m.get(TAG_BEGIN_STRING).is_none() {
            return Err(
                HarnessError::AdapterRejected(
                    self.name().to_owned(),
                    "no BeginString".to_owned(),
                ),
            );
        }
        match set_field(msg.bytes.as_slice(), TAG_PRICE, self.price.as_slice()) {
            Ok(bytes) => Ok(InterceptAction::Mutate(bytes)),
            Err(e) => Err(rejected(self.name(), e)),
        }
    }
}

} // verus!
