//! One direction of a FIX session: bytes come in as the network hands them
//! over, and go out message by message as the fault decides.
use vstd::prelude::*;

use crate::fix::framing;
use crate::fix::framing::find_complete_message;
use crate::fix::framing_laws;
use crate::harness::adapter;
use crate::harness::adapter::{Direction, InterceptAction, ProtocolAdapter, RawMessage};
use crate::harness::error::HarnessError;
use crate::text;

#[allow(unused_imports)]
use crate::harness::adapter::{ActionView, Seen};
#[allow(unused_imports)]
use crate::harness::error::ErrorView;

verus! {

/// What a look at the source came to.
pub enum ReadEvent {
    /// The proxy is being shut down.
    Shutdown,
    /// Bytes that were read. None at all means that the peer has closed.
    Bytes(Vec<u8>),
    /// Nothing has come in yet.
    NotReady,
    /// The connection is broken.
    Failed,
}

/// What to do after a look at the source.
#[derive(Debug, Clone, Copy, PartialEq, Eq, Structural)]
pub enum RelayStep {
    /// The relay has come to its end.
    Stop,
    /// Look again.
    ReadAgain,
    /// Pass on the messages that are whole.
    PassOn,
}

/// What leaves the relay in place of a message.
#[derive(Debug)]
pub enum Delivery {
    /// Nothing: the message is swallowed.
    Nothing,
    /// These bytes, at once.
    Send(Vec<u8>),
    /// These bytes, after so many nanoseconds.
    SendAfter(u64, Vec<u8>),
}

/// A `Delivery` with its bytes as a sequence.
pub enum DeliveryView {
    Nothing,
    Send(Seq<u8>),
    SendAfter(u64, Seq<u8>),
}

impl View for Delivery {
    type V = DeliveryView;

    open spec fn view(&self) -> DeliveryView {
        match *self {
            Delivery::Nothing => DeliveryView::Nothing,
            Delivery::Send(bytes) => DeliveryView::Send(bytes@),
            Delivery::SendAfter(ns, bytes) => DeliveryView::SendAfter(ns, bytes@),
        }
    }
}

/// What leaves the relay in place of `message`, given the verdict of the
/// adapter. A message that the adapter could not judge goes on unchanged.
pub open spec fn delivered(
    message: Seq<u8>,
    verdict: Result<ActionView, ErrorView>,
) -> DeliveryView {
    match verdict {
        Ok(ActionView::Forward) => DeliveryView::Send(message),
        Ok(ActionView::Drop) => DeliveryView::Nothing,
        Ok(ActionView::Mutate(bytes)) => DeliveryView::Send(bytes),
        Ok(ActionView::Delay(ns)) => DeliveryView::SendAfter(ns, message),
        Err(_) => DeliveryView::Send(message),
    }
}

/// The length of the first message, where it is whole.
pub open spec fn first_message(buf: Seq<u8>) -> Option<int> {
    match framing::framed(buf) {
        Ok(end) => end,
        Err(_) => None,
    }
}

/// What is to be done with a message on which the adapter gave this verdict.
pub fn deliver(message: Vec<u8>, outcome: Result<InterceptAction, HarnessError>) -> (r: Delivery)
    ensures
        r@ == delivered(message@, adapter::verdict(outcome)),
{
    match outcome {
        Ok(InterceptAction::Forward) => Delivery::Send(message),
        Ok(InterceptAction::Drop) => Delivery::Nothing,
        Ok(InterceptAction::Mutate(bytes)) => Delivery::Send(bytes),
        Ok(InterceptAction::Delay(ns)) => Delivery::SendAfter(ns, message),
        Err(_) => Delivery::Send(message),
    }
}

/// What a relay holds, and does next, after a look at the source.
pub open spec fn after_read(buf: Seq<u8>, event: ReadEvent) -> (Seq<u8>, RelayStep) {
    match event {
        ReadEvent::Bytes(bytes) => (
            buf + bytes@,
            if bytes@.len() == 0 {
                RelayStep::Stop
            } else {
                RelayStep::PassOn
            },
        ),
        ReadEvent::NotReady => (buf, RelayStep::ReadAgain),
        ReadEvent::Shutdown | ReadEvent::Failed => (buf, RelayStep::Stop),
    }
}

/// One direction of a session, with the bytes that have come in and not gone
/// out yet.
pub struct Relay {
    direction: Direction,
    buf: Vec<u8>,
}

impl Relay {
    pub closed spec fn direction(self) -> Direction {
        self.direction
    }

    /// The bytes that have come in and not gone out yet.
    pub closed spec fn buffered(self) -> Seq<u8> {
        self.buf@
    }

    pub fn new(direction: Direction) -> (r: Self)
        ensures
            r.direction() == direction,
            r.buffered() == Seq::<u8>::empty(),
    {
        Relay { direction, buf: Vec::new() }
    }

    /// Takes in what a look at the source came to.
    pub fn on_read(&mut self, event: ReadEvent) -> (r: RelayStep)
        ensures
            final(self).direction() == old(self).direction(),
            match event {
                ReadEvent::Bytes(bytes) => {
                    &&& r == (if bytes@.len() == 0 {
                        RelayStep::Stop
                    } else {
                        RelayStep::PassOn
                    })
                    &&& final(self).buffered() == old(self).buffered() + bytes@
                },
                ReadEvent::NotReady => r == RelayStep::ReadAgain && final(self).buffered() == old(self).buffered(),
                ReadEvent::Shutdown | ReadEvent::Failed => r == RelayStep::Stop && final(self).buffered() == old(self).buffered(),
            },
            (final(self).buffered(), r) == after_read(old(self).buffered(), event),
    {
        match event {
            ReadEvent::Bytes(bytes) => {
                text::append_bytes(&mut self.buf, bytes.as_slice());
                if bytes.len() == 0 {
                    RelayStep::Stop
                } else {
                    RelayStep::PassOn
                }
            },
            ReadEvent::NotReady => RelayStep::ReadAgain,
            ReadEvent::Shutdown => RelayStep::Stop,
            ReadEvent::Failed => RelayStep::Stop,
        }
    }

    /// Takes the first message out of the buffer, where it is whole.
    fn take_message(&mut self) -> (r: Option<Vec<u8>>)
        ensures
            final(self).direction() == old(self).direction(),
            match first_message(old(self).buffered()) {
                Some(len) => {
                    &&& r is Some
                    &&& r->0@ == old(self).buffered().take(len)
                    &&& final(self).buffered() == old(self).buffered().skip(len)
                },
                None => r is None && final(self).buffered() == old(self).buffered(),
            },
    {
        match find_complete_message(self.buf.as_slice()) {
            Ok(Some(len)) => {
                proof {
                    lemma_message_lies_in_buffer(self.buf@);
                }
                let buf = self.buf.as_slice();
                let mut message: Vec<u8> = Vec::new();
                text::append_bytes(&mut message, vstd::slice::slice_subrange(buf, 0, len));
                let mut rest: Vec<u8> = Vec::new();
                text::append_bytes(&mut rest, vstd::slice::slice_subrange(buf, len, buf.len()));
                assert(message@ =~= self.buf@.take(len as int));
                assert(rest@ =~= self.buf@.skip(len as int));
                self.buf = rest;
                Some(message)
            },
            _ => None,
        }
    }

    /// Takes the first whole message out of the buffer and says what leaves in
    /// its place: the adapter is asked about it, once. While the fault is not
    /// enabled the adapter is not asked and the message goes on unchanged.
    /// `None` where no message is whole.
    pub fn pass_on(&mut self, enabled: bool, adapter: &mut Box<dyn ProtocolAdapter>) -> (r: Option<
        Delivery,
    >)
        ensures
            final(self).direction() == old(self).direction(),
            match first_message(old(self).buffered()) {
                Some(len) => {
                    let message = old(self).buffered().take(len);
                    &&& final(self).buffered() == old(self).buffered().skip(len)
                    &&& r is Some
                    &&& !enabled ==> r->0@ == DeliveryView::Send(message) && *final(adapter)
                        == *old(adapter)
                    &&& enabled ==> exists|verdict: Result<ActionView, ErrorView>|
                        old(adapter).allows_after(
                            Seq::empty(),
                            message,
                            old(self).direction(),
                            verdict,
                        ) && r->0@ == #[trigger] delivered(message, verdict)
                    &&& final(adapter).named()@ == old(adapter).named()@
                    &&& enabled ==> forall|
                        seen: Seq<Seen>,
                        bytes: Seq<u8>,
                        direction: Direction,
                        verdict: Result<ActionView, ErrorView>,
                    | #[trigger]
                        final(adapter).allows_after(seen, bytes, direction, verdict) == old(adapter).allows_after(
                            seq![Seen::Message(message, old(self).direction())] + seen,
                            bytes,
                            direction,
                            verdict,
                        )
                },
                None => r is None && final(self).buffered() == old(self).buffered() && *final(adapter)
                    == *old(adapter),
            },
    {
        let bytes = match self.take_message() {
            Some(bytes) => bytes,
            None => {
                return None;
            },
        };
        if !enabled {
            return Some(Delivery::Send(bytes));
        }
        let msg = RawMessage { bytes, direction: self.direction };
        let outcome = adapter.intercept(&msg);
        let ghost verdict = adapter::verdict(outcome);
        let r = deliver(msg.bytes, outcome);
        assert(r@ == delivered(msg.bytes@, verdict));
        Some(r)
    }
}

/// The first message lies in the buffer.
proof fn lemma_message_lies_in_buffer(buf: Seq<u8>)
    ensures
        first_message(buf) matches Some(len) ==> 0 <= len <= buf.len(),
{
    if first_message(buf) is Some {
        framing_laws::law_found_message_lies_in_buffer(buf);
    }
}

} // verus!
