//! Protocol-aware fault injection: what an adapter sees and what it decides.
use vstd::prelude::*;

use crate::harness::error::{ErrorView, HarnessError};

verus! {

/// A message on its way, as the bytes that were on the wire.
pub struct RawMessage {
    pub bytes: Vec<u8>,
    pub direction: Direction,
}

/// Inbound is from the exchange to the client.
#[derive(Debug, Clone, Copy, PartialEq, Eq, Structural)]
pub enum Direction {
    Inbound,
    Outbound,
}

/// What an adapter decides to do with a message. A delay is in nanoseconds.
#[derive(Debug)]
pub enum InterceptAction {
    Forward,
    Drop,
    Mutate(Vec<u8>),
    Delay(u64),
}

/// An `InterceptAction` with its bytes as a sequence.
pub enum ActionView {
    Forward,
    Drop,
    Mutate(Seq<u8>),
    Delay(u64),
}

impl View for InterceptAction {
    type V = ActionView;

    open spec fn view(&self) -> ActionView {
        match *self {
            InterceptAction::Forward => ActionView::Forward,
            InterceptAction::Drop => ActionView::Drop,
            InterceptAction::Mutate(bytes) => ActionView::Mutate(bytes@),
            InterceptAction::Delay(ns) => ActionView::Delay(ns),
        }
    }
}

/// What became of a message, by view.
pub open spec fn verdict(r: Result<InterceptAction, HarnessError>) -> Result<
    ActionView,
    ErrorView,
> {
    match r {
        Ok(action) => Ok(action@),
        Err(e) => Err(e@),
    }
}

/// What an adapter has come by: its fault was armed, or it was asked about a
/// message.
pub enum Seen {
    Armed,
    Message(Seq<u8>, Direction),
}

/// A protocol's own faults: silent rejects, acks without execution, throttling.
/// An adapter parses its protocol and decides about each message. It may keep
/// count of what it has seen.
pub trait ProtocolAdapter: Send + Sync {
    /// The name of the adapter.
    spec fn named(&self) -> &str;

    /// Whether the adapter may answer a message with this verdict, after what
    /// it has seen. Where nothing is said of it, it may answer as it likes.
    open spec fn allows_after(
        &self,
        seen: Seq<Seen>,
        bytes: Seq<u8>,
        direction: Direction,
        verdict: Result<ActionView, ErrorView>,
    ) -> bool {
        true
    }

    fn name(&self) -> (r: &str)
        ensures
            r@ == self.named()@,
    ;

    /// Told when the fault is armed: what is counted from then is counted anew.
    fn on_arm(&mut self)
        ensures
            final(self).named()@ == old(self).named()@,
            forall|
                seen: Seq<Seen>,
                bytes: Seq<u8>,
                direction: Direction,
                verdict: Result<ActionView, ErrorView>,
            | #[trigger]
                final(self).allows_after(seen, bytes, direction, verdict) == old(self).allows_after(seq![Seen::Armed] + seen, bytes, direction, verdict),
    ;

    fn intercept(&mut self, msg: &RawMessage) -> (r: Result<InterceptAction, HarnessError>)
        ensures
            final(self).named()@ == old(self).named()@,
            old(self).allows_after(Seq::empty(), msg.bytes@, msg.direction, verdict(r)),
            forall|
                seen: Seq<Seen>,
                bytes: Seq<u8>,
                direction: Direction,
                verdict: Result<ActionView, ErrorView>,
            | #[trigger]
                final(self).allows_after(seen, bytes, direction, verdict) == old(self).allows_after(
                    seq![Seen::Message(msg.bytes@, msg.direction)] + seen,
                    bytes,
                    direction,
                    verdict,
                ),
    ;
}

/// A verdict is shown with everything it holds: the bytes of a rewriting, the
/// nanoseconds of a delay, and the error.
pub proof fn law_verdict_shows_everything(bytes: Vec<u8>, ns: u64, error: HarnessError)
    ensures
        verdict(Ok(InterceptAction::Forward)) == Ok::<ActionView, ErrorView>(ActionView::Forward),
        verdict(Ok(InterceptAction::Drop)) == Ok::<ActionView, ErrorView>(ActionView::Drop),
        verdict(Ok(InterceptAction::Mutate(bytes))) == Ok::<ActionView, ErrorView>(
            ActionView::Mutate(bytes@),
        ),
        verdict(Ok(InterceptAction::Delay(ns))) == Ok::<ActionView, ErrorView>(
            ActionView::Delay(ns),
        ),
        verdict(Err(error)) == Err::<ActionView, ErrorView>(error@),
{
}

} // verus!
