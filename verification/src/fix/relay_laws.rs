//! What holds of a relay over a whole stream.
use vstd::prelude::*;

use crate::fix::framing;
use crate::fix::framing_laws;
use crate::fix::message::ParseError;
use crate::fix::relay;
use crate::fix::relay::{Delivery, DeliveryView, ReadEvent, RelayStep};

verus! {

/// The messages that a relay takes out of a buffer, in order, until none is
/// whole.
pub open spec fn messages(buf: Seq<u8>) -> Seq<Seq<u8>>
    decreases buf.len(),
    via messages_decreases
{
    match relay::first_message(buf) {
        Some(len) => seq![buf.take(len)] + messages(buf.skip(len)),
        None => Seq::empty(),
    }
}

#[via_fn]
proof fn messages_decreases(buf: Seq<u8>) {
    if relay::first_message(buf) is Some {
        framing_laws::law_found_message_lies_in_buffer(buf);
    }
}

/// What is left in the buffer when no message in it is whole.
pub open spec fn leftover(buf: Seq<u8>) -> Seq<u8>
    decreases buf.len(),
    via leftover_decreases
{
    match relay::first_message(buf) {
        Some(len) => leftover(buf.skip(len)),
        None => buf,
    }
}

#[via_fn]
proof fn leftover_decreases(buf: Seq<u8>) {
    if relay::first_message(buf) is Some {
        framing_laws::law_found_message_lies_in_buffer(buf);
    }
}

/// What the first message is, and what comes behind it.
pub proof fn lemma_next_message(buf: Seq<u8>)
    ensures
        match relay::first_message(buf) {
            Some(len) => {
                &&& 0 < len <= buf.len()
                &&& messages(buf).len() > 0
                &&& messages(buf)[0] == buf.take(len)
                &&& messages(buf).skip(1) == messages(buf.skip(len))
                &&& leftover(buf) == leftover(buf.skip(len))
            },
            None => messages(buf).len() == 0 && leftover(buf) == buf,
        },
{
    if let Some(len) = relay::first_message(buf) {
        framing_laws::law_found_message_lies_in_buffer(buf);
        assert(messages(buf).skip(1) =~= messages(buf.skip(len)));
    }
}

/// Byte strings, one after the other.
pub open spec fn joined(parts: Seq<Seq<u8>>) -> Seq<u8>
    decreases parts.len(),
{
    if parts.len() == 0 {
        Seq::empty()
    } else {
        parts[0] + joined(parts.skip(1))
    }
}

/// A relay that passes every message on unchanged, as it does while its fault
/// is not enabled, loses no byte and changes none: what has gone out, and then
/// what is still held, is what came in.
pub proof fn law_relay_loses_nothing(buf: Seq<u8>)
    ensures
        joined(messages(buf)) + leftover(buf) == buf,
    decreases buf.len(),
{
    if let Some(len) = relay::first_message(buf) {
        framing_laws::law_found_message_lies_in_buffer(buf);
        let rest = buf.skip(len);
        law_relay_loses_nothing(rest);
        let all = messages(buf);
        assert(all.skip(1) =~= messages(rest));
        assert(all[0] == buf.take(len));
        assert(buf.take(len) + joined(messages(rest)) + leftover(rest) =~= buf.take(len) + (joined(
            messages(rest),
        ) + leftover(rest)));
        assert(buf.take(len) + rest =~= buf);
    } else {
        assert(joined(messages(buf)) + buf =~= buf);
    }
}

/// It does not matter how the network cuts the stream: messages taken out as
/// the bytes come in are those that would be taken out of all of them at once.
pub proof fn law_chunks_do_not_matter(sooner: Seq<u8>, later: Seq<u8>)
    ensures
        messages(sooner + later) == messages(sooner) + messages(leftover(sooner) + later),
        leftover(sooner + later) == leftover(leftover(sooner) + later),
    decreases sooner.len(),
{
    let whole = sooner + later;
    if relay::first_message(sooner) is Some {
        framing_laws::law_found_message_lies_in_buffer(sooner);
        framing_laws::law_found_message_stays_found(sooner, later);
        let len = relay::first_message(sooner)->0;
        let rest = sooner.skip(len);
        law_chunks_do_not_matter(rest, later);
        assert(whole.take(len) =~= sooner.take(len));
        assert(whole.skip(len) =~= rest + later);
        assert(messages(whole) =~= messages(sooner) + messages(leftover(sooner) + later));
    } else {
        assert(messages(sooner) + messages(whole) =~= messages(whole));
    }
}

/// Every message that a relay takes out is whole: framing finds its end at its
/// last byte.
pub proof fn law_relayed_messages_are_whole(buf: Seq<u8>, i: int)
    requires
        0 <= i < messages(buf).len(),
    ensures
        relay::first_message(messages(buf)[i]) == Some(messages(buf)[i].len() as int),
    decreases buf.len(),
{
    let len = relay::first_message(buf)->0;
    framing_laws::law_found_message_lies_in_buffer(buf);
    if i == 0 {
        framing_laws::law_message_is_found_alone(buf);
    } else {
        law_relayed_messages_are_whole(buf.skip(len), i - 1);
    }
}

/// A relay takes a message out where framing finds its end, and there only. A
/// stream that is out of step is held.
pub proof fn law_relay_goes_by_the_frame(buf: Seq<u8>, end: int)
    ensures
        relay::first_message(buf) == Some(end) <==> framing::framed(buf) == Ok::<
            Option<int>,
            ParseError,
        >(Some(end)),
        framing::framed(buf) is Err ==> messages(buf).len() == 0 && leftover(buf) == buf,
        framing::framed(buf) == Ok::<Option<int>, ParseError>(None) ==> messages(buf).len() == 0
            && leftover(buf) == buf,
{
}

/// A delivery is shown with everything it holds.
pub proof fn law_delivery_shows_everything(bytes: Vec<u8>, ns: u64)
    ensures
        Delivery::Nothing@ == DeliveryView::Nothing,
        Delivery::Send(bytes)@ == DeliveryView::Send(bytes@),
        Delivery::SendAfter(ns, bytes)@ == DeliveryView::SendAfter(ns, bytes@),
{
}

/// What comes in is held behind what is there, byte for byte. A relay goes on
/// while bytes come in or none have yet, and stops when its peer has closed, the
/// connection is broken or the proxy is shut down.
pub proof fn law_what_comes_in_is_held(buf: Seq<u8>, event: ReadEvent)
    ensures
        ({
            let (held, step) = relay::after_read(buf, event);
            let came = match event {
                ReadEvent::Bytes(bytes) => bytes@,
                _ => Seq::empty(),
            };
            &&& held.len() == buf.len() + came.len()
            &&& forall|i: int| 0 <= i < buf.len() ==> held[i] == buf[i]
            &&& forall|i: int| 0 <= i < came.len() ==> held[buf.len() + i] == #[trigger] came[i]
            &&& step == RelayStep::PassOn <==> came.len() > 0
            &&& step == RelayStep::ReadAgain <==> event is NotReady
            &&& step == RelayStep::Stop <==> event is Shutdown || event is Failed || (event is Bytes
                && came.len() == 0)
        }),
{
}

} // verus!
