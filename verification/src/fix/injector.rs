//! A FIX fault as something that is armed and disarmed.
use vstd::prelude::*;

use crate::fix::proxy::FixProxy;
use crate::fix::relay;
use crate::fix::relay::{Delivery, Relay};
use crate::fix::relay_laws;
use crate::harness::adapter::ProtocolAdapter;
use crate::harness::error;
use crate::harness::error::HarnessError;

#[allow(unused_imports)]
use crate::fix::proxy::ProxyView;
#[allow(unused_imports)]
use crate::fix::relay::DeliveryView;
#[allow(unused_imports)]
use crate::harness::adapter::{ActionView, Direction, Seen};
#[allow(unused_imports)]
use crate::harness::error::ErrorView;

verus! {

/// The adapter that decides about the messages of a session.
pub struct Judge {
    pub adapter: Box<dyn ProtocolAdapter>,
}

/// Arms and disarms a proxy. The proxy listens from the first time it is armed
/// and stays there; from then on only the switch is thrown. What the fault does
/// to a message is up to the adapter of the proxy.
pub struct FixFaultInjector {
    id: String,
    proxy: FixProxy,
    judge: Judge,
    armed: bool,
}

/// What an adapter has seen that was asked about these messages.
pub open spec fn seen_of(messages: Seq<Seq<u8>>, direction: Direction) -> Seq<Seen> {
    messages.map_values(|message: Seq<u8>| Seen::Message(message, direction))
}

/// What leaves in place of messages, given the verdict on each.
pub open spec fn deliveries(
    messages: Seq<Seq<u8>>,
    verdicts: Seq<Result<ActionView, ErrorView>>,
) -> Seq<DeliveryView> {
    Seq::new(messages.len(), |i: int| relay::delivered(messages[i], verdicts[i]))
}

/// What leaves while messages go on unchanged.
pub open spec fn unchanged(messages: Seq<Seq<u8>>) -> Seq<DeliveryView> {
    messages.map_values(|message: Seq<u8>| DeliveryView::Send(message))
}

/// Deliveries by their views.
pub open spec fn delivery_views(all: Seq<Delivery>) -> Seq<DeliveryView> {
    all.map_values(|delivery: Delivery| delivery@)
}

/// Whether these messages were passed on so: while the fault is armed the
/// adapter was asked about each, in order, and has seen nothing else; otherwise
/// they went on unchanged and it has seen nothing.
pub open spec fn passed_on(
    before: FixFaultInjector,
    after: FixFaultInjector,
    direction: Direction,
    messages: Seq<Seq<u8>>,
    out: Seq<DeliveryView>,
) -> bool {
    if before.armed() {
        &&& exists|verdicts: Seq<Result<ActionView, ErrorView>>|
            before.judges(direction, messages, verdicts) && out == #[trigger] deliveries(
                messages,
                verdicts,
            )
        &&& after.has_seen(before, seen_of(messages, direction))
    } else {
        &&& out == unchanged(messages)
        &&& after.has_seen(before, Seq::empty())
    }
}

/// The message that is next, where it is whole.
pub open spec fn next_message(buf: Seq<u8>) -> Seq<Seq<u8>> {
    match relay::first_message(buf) {
        Some(len) => seq![buf.take(len)],
        None => Seq::empty(),
    }
}

/// A delivery, where there is one.
pub open spec fn delivery_view(r: Option<Delivery>) -> Seq<DeliveryView> {
    match r {
        Some(delivery) => seq![delivery@],
        None => Seq::empty(),
    }
}

/// The error that arming comes to, where it does: where listening was still to
/// be done, and failed for this reason.
pub open spec fn arm_failure(proxy: ProxyView, failure: Option<Seq<char>>) -> Option<ErrorView> {
    match failure {
        Some(why) if !proxy.listening => Some(
            ErrorView::ArmFailed("fix-proxy"@, "binding "@ + proxy.listen_addr + ": "@ + why),
        ),
        _ => None,
    }
}

/// A proxy after its fault has been armed: it listens, and asks the adapter.
pub open spec fn armed_proxy(proxy: ProxyView) -> ProxyView {
    ProxyView { listening: true, enabled: true, ..proxy }
}

/// A proxy after its fault has been disarmed: it passes everything on.
pub open spec fn disarmed_proxy(proxy: ProxyView) -> ProxyView {
    ProxyView { enabled: false, ..proxy }
}

impl FixFaultInjector {
    pub closed spec fn id_view(self) -> Seq<char> {
        self.id@
    }

    pub closed spec fn proxy_view(self) -> ProxyView {
        self.proxy@
    }

    pub closed spec fn armed(self) -> bool {
        self.armed
    }

    /// Whether the adapter may answer a message with this verdict, after what
    /// it will have seen.
    pub closed spec fn allows_after(
        self,
        seen: Seq<Seen>,
        bytes: Seq<u8>,
        direction: Direction,
        verdict: Result<ActionView, ErrorView>,
    ) -> bool {
        self.judge.adapter.allows_after(seen, bytes, direction, verdict)
    }

    /// The name of the adapter.
    pub closed spec fn adapter_named(self) -> Seq<char> {
        self.judge.adapter.named()@
    }

    /// Whether the adapter answers from here on as the one of `before` does
    /// that has seen this: it is that adapter, and has seen nothing else.
    pub open spec fn has_seen(self, before: Self, seen: Seq<Seen>) -> bool {
        &&& self.adapter_named() == before.adapter_named()
        &&& forall|
            more: Seq<Seen>,
            bytes: Seq<u8>,
            direction: Direction,
            verdict: Result<ActionView, ErrorView>,
        | #[trigger]
            self.allows_after(more, bytes, direction, verdict) == before.allows_after(
                seen + more,
                bytes,
                direction,
                verdict,
            )
    }

    /// Whether the adapter may answer these messages with these verdicts, when
    /// it is asked about one after the other, once about each.
    pub open spec fn judges(
        self,
        direction: Direction,
        messages: Seq<Seq<u8>>,
        verdicts: Seq<Result<ActionView, ErrorView>>,
    ) -> bool {
        &&& verdicts.len() == messages.len()
        &&& forall|i: int|
            0 <= i < messages.len() ==> self.allows_after(
                seen_of(messages.take(i), direction),
                messages[i],
                direction,
                #[trigger] verdicts[i],
            )
    }

    /// Nothing but the adapter differs.
    pub open spec fn stands_as(self, before: Self) -> bool {
        &&& self.id_view() == before.id_view()
        &&& self.proxy_view() == before.proxy_view()
        &&& self.armed() == before.armed()
    }

    /// The switch stands as the injector says, and an armed fault is one whose
    /// proxy listens.
    pub open spec fn well_formed(self) -> bool {
        &&& self.proxy_view().enabled == self.armed()
        &&& self.armed() ==> self.proxy_view().listening
        &&& !self.proxy_view().shutdown
    }

    pub fn new(
        id: String,
        listen_addr: String,
        upstream_addr: String,
        judge: Judge,
    ) -> (r: Self)
        ensures
            forall|
                seen: Seq<Seen>,
                bytes: Seq<u8>,
                direction: Direction,
                verdict: Result<ActionView, ErrorView>,
            | #[trigger]
                r.allows_after(seen, bytes, direction, verdict) == judge.adapter.allows_after(
                    seen,
                    bytes,
                    direction,
                    verdict,
                ),
            r.adapter_named() == judge.adapter.named()@,
            r.well_formed(),
            r.id_view() == id@,
            !r.armed(),
            r.proxy_view() == (ProxyView {
                listen_addr: listen_addr@,
                upstream_addr: upstream_addr@,
                enabled: false,
                listening: false,
                shutdown: false,
            }),
    {
        FixFaultInjector {
            id,
            proxy: FixProxy::new(listen_addr, upstream_addr),
            judge,
            armed: false,
        }
    }

    pub fn id(&self) -> (r: &str)
        ensures
            r@ == self.id_view(),
    {
        self.id.as_str()
    }

    /// How the proxy stands.
    pub fn proxy(&self) -> (r: &FixProxy)
        ensures
            r@ == self.proxy_view(),
    {
        &self.proxy
    }

    /// The address to listen on before the fault is armed, where that is still
    /// to be done.
    pub fn arm_plan(&self) -> (r: Option<&str>)
        ensures
            match r {
                Some(addr) => !self.proxy_view().listening && addr@
                    == self.proxy_view().listen_addr,
                None => self.proxy_view().listening,
            },
    {
        self.proxy.start()
    }

    /// Arms the fault. `failure` is what the system said where listening was
    /// still to be done and failed. The adapter is told when a fault that was
    /// not armed is.
    pub fn arm(&mut self, failure: Option<&str>) -> (r: Result<(), HarnessError>)
        requires
            old(self).well_formed(),
        ensures
            final(self).well_formed(),
            final(self).id_view() == old(self).id_view(),
            match failure {
                Some(why) if !old(self).proxy_view().listening => {
                    &&& r is Err
                    &&& r->Err_0@ == ErrorView::ArmFailed(
                        "fix-proxy"@,
                        "binding "@ + old(self).proxy_view().listen_addr + ": "@ + why@,
                    )
                    &&& final(self).armed() == old(self).armed()
                    &&& final(self).proxy_view() == old(self).proxy_view()
                    &&& final(self).has_seen(*old(self), Seq::empty())
                },
                _ => {
                    &&& r is Ok
                    &&& final(self).armed()
                    &&& final(self).proxy_view() == armed_proxy(old(self).proxy_view())
                    &&& final(self).has_seen(
                        *old(self),
                        if old(self).armed() {
                            Seq::empty()
                        } else {
                            seq![Seen::Armed]
                        },
                    )
                },
            },
            error::failure_of(r) == arm_failure(
                old(self).proxy_view(),
                match failure {
                    Some(why) => Some(why@),
                    None => None,
                },
            ),
    {
        proof {
            lemma_nothing_seen();
        }
        if self.proxy.start().is_some() {
            match self.proxy.started(failure) {
                Ok(()) => {},
                Err(e) => {
                    return Err(e);
                },
            }
        }
        self.proxy.set_enabled(true);
        if !self.armed {
            self.judge.adapter.on_arm();
        }
        self.armed = true;
        Ok(())
    }

    /// Disarms the fault. The proxy stays and passes everything on.
    pub fn disarm(&mut self) -> (r: Result<(), HarnessError>)
        requires
            old(self).well_formed(),
        ensures
            final(self).well_formed(),
            final(self).id_view() == old(self).id_view(),
            r is Ok,
            !final(self).armed(),
            final(self).proxy_view() == disarmed_proxy(old(self).proxy_view()),
            final(self).has_seen(*old(self), Seq::empty()),
    {
        proof {
            lemma_nothing_seen();
        }
        self.proxy.set_enabled(false);
        self.armed = false;
        Ok(())
    }

    pub fn is_armed(&self) -> (r: bool)
        ensures
            r == self.armed(),
    {
        self.armed
    }

    /// The name of the adapter.
    pub fn adapter_name(&self) -> (r: &str)
        ensures
            r@ == self.adapter_named(),
    {
        self.judge.adapter.name()
    }

    /// Passes the first whole message of a relay on: while the fault is armed
    /// the adapter is asked about it, once; otherwise it goes on unchanged.
    /// `None` where no message is whole.
    pub fn pass_on(&mut self, relay: &mut Relay) -> (r: Option<Delivery>)
        requires
            old(self).well_formed(),
        ensures
            final(self).well_formed(),
            final(self).stands_as(*old(self)),
            final(relay).direction() == old(relay).direction(),
            match relay::first_message(old(relay).buffered()) {
                Some(len) => {
                    let message = old(relay).buffered().take(len);
                    let direction = old(relay).direction();
                    &&& r is Some
                    &&& final(relay).buffered() == old(relay).buffered().skip(len)
                    &&& if old(self).armed() {
                        &&& exists|verdict: Result<ActionView, ErrorView>|
                            old(self).allows_after(Seq::empty(), message, direction, verdict)
                                && r->0@ == #[trigger] relay::delivered(message, verdict)
                        &&& final(self).has_seen(
                            *old(self),
                            seq![Seen::Message(message, direction)],
                        )
                    } else {
                        &&& r->0@ == DeliveryView::Send(message)
                        &&& final(self).has_seen(*old(self), Seq::empty())
                    }
                },
                None => {
                    &&& r is None
                    &&& final(relay).buffered() == old(relay).buffered()
                    &&& final(self).has_seen(*old(self), Seq::empty())
                },
            },
            passed_on(
                *old(self),
                *final(self),
                old(relay).direction(),
                next_message(old(relay).buffered()),
                delivery_view(r),
            ),
    {
        proof {
            lemma_nothing_seen();
        }
        let ghost buf = relay.buffered();
        let ghost direction = relay.direction();
        let r = relay.pass_on(self.proxy.is_enabled(), &mut self.judge.adapter);
        proof {
            if relay::first_message(buf) is Some {
                let message = buf.take(relay::first_message(buf)->0);
                if old(self).armed() {
                    let verdict = choose|verdict: Result<ActionView, ErrorView>|
                        old(self).allows_after(Seq::empty(), message, direction, verdict) && r->0@
                            == #[trigger] relay::delivered(message, verdict);
                    lemma_one_passed_on(*old(self), *self, direction, message, verdict);
                    assert(delivery_view(r) =~= deliveries(seq![message], seq![verdict]));
                } else {
                    assert(delivery_view(r) =~= unchanged(seq![message]));
                }
            } else {
                let none = Seq::<Seq<u8>>::empty();
                let silent = Seq::<Result<ActionView, ErrorView>>::empty();
                assert(old(self).judges(direction, none, silent));
                assert(delivery_view(r) =~= deliveries(none, silent));
                assert(delivery_view(r) =~= unchanged(none));
                assert(seen_of(none, direction) =~= Seq::<Seen>::empty());
            }
        }
        r
    }

    /// Passes every whole message of a relay on, in order.
    pub fn pass_on_all(&mut self, relay: &mut Relay) -> (r: Vec<Delivery>)
        requires
            old(self).well_formed(),
        ensures
            final(self).well_formed(),
            final(self).stands_as(*old(self)),
            final(relay).direction() == old(relay).direction(),
            final(relay).buffered() == relay_laws::leftover(old(relay).buffered()),
            ({
                let messages = relay_laws::messages(old(relay).buffered());
                let direction = old(relay).direction();
                if old(self).armed() {
                    &&& exists|verdicts: Seq<Result<ActionView, ErrorView>>|
                        old(self).judges(direction, messages, verdicts) && delivery_views(r@)
                            == #[trigger] deliveries(messages, verdicts)
                    &&& final(self).has_seen(*old(self), seen_of(messages, direction))
                } else {
                    &&& delivery_views(r@) == unchanged(messages)
                    &&& final(self).has_seen(*old(self), Seq::empty())
                }
            }),
            passed_on(
                *old(self),
                *final(self),
                old(relay).direction(),
                relay_laws::messages(old(relay).buffered()),
                delivery_views(r@),
            ),
    {
        let mut out: Vec<Delivery> = Vec::new();
        let ghost all = relay_laws::messages(relay.buffered());
        let ghost direction = relay.direction();
        let ghost mut n: int = 0;
        let ghost mut verdicts: Seq<Result<ActionView, ErrorView>> = Seq::empty();
        proof {
            lemma_nothing_seen();
            assert(all.skip(0) =~= all);
            assert(seen_of(all.take(0), direction) =~= Seq::<Seen>::empty());
            assert(delivery_views(out@) =~= deliveries(all.take(0), verdicts));
            assert(delivery_views(out@) =~= unchanged(all.take(0)));
        }
        loop
            invariant
                old(self).well_formed(),
                self.well_formed(),
                self.stands_as(*old(self)),
                relay.direction() == direction,
                direction == old(relay).direction(),
                all == relay_laws::messages(old(relay).buffered()),
                0 <= n <= all.len(),
                all.skip(n) == relay_laws::messages(relay.buffered()),
                relay_laws::leftover(relay.buffered()) == relay_laws::leftover(
                    old(relay).buffered(),
                ),
                old(self).armed() ==> {
                    &&& old(self).judges(direction, all.take(n), verdicts)
                    &&& delivery_views(out@) == deliveries(all.take(n), verdicts)
                    &&& self.has_seen(*old(self), seen_of(all.take(n), direction))
                },
                !old(self).armed() ==> {
                    &&& delivery_views(out@) == unchanged(all.take(n))
                    &&& self.has_seen(*old(self), Seq::empty())
                },
            decreases relay.buffered().len(),
        {
            let ghost buf = relay.buffered();
            let ghost before = *self;
            let ghost sent = delivery_views(out@);
            proof {
                relay_laws::lemma_next_message(buf);
                lemma_nothing_seen();
            }
            match self.pass_on(relay) {
                None => {
                    assert(all.take(n) =~= all);
                    return out;
                },
                Some(delivery) => {
                    proof {
                        let message = all[n];
                        assert(all.skip(n)[0] == message);
                        assert(all.skip(n).skip(1) =~= all.skip(n + 1));
                        assert(all.take(n + 1) =~= all.take(n).push(message));
                        if old(self).armed() {
                            let verdict = choose|verdict: Result<ActionView, ErrorView>|
                                before.allows_after(Seq::empty(), message, direction, verdict)
                                    && delivery@ == #[trigger] relay::delivered(message, verdict);
                            lemma_judges_one_more(
                                *old(self),
                                before,
                                direction,
                                all.take(n),
                                verdicts,
                                message,
                                verdict,
                            );
                            lemma_has_seen_more(
                                *old(self),
                                before,
                                *self,
                                seen_of(all.take(n), direction),
                                seq![Seen::Message(message, direction)],
                            );
                            assert(seen_of(all.take(n + 1), direction) =~= seen_of(
                                all.take(n),
                                direction,
                            ) + seq![Seen::Message(message, direction)]);
                            assert(sent.push(delivery@) =~= deliveries(
                                all.take(n + 1),
                                verdicts.push(verdict),
                            )) by {
                                assert forall|i: int| 0 <= i < n implies deliveries(
                                    all.take(n + 1),
                                    verdicts.push(verdict),
                                )[i] == sent[i] by {
                                    assert(sent[i] == deliveries(all.take(n), verdicts)[i]);
                                }
                            }
                            verdicts = verdicts.push(verdict);
                        } else {
                            lemma_has_seen_more(
                                *old(self),
                                before,
                                *self,
                                Seq::empty(),
                                Seq::empty(),
                            );
                            assert(Seq::<Seen>::empty() + Seq::<Seen>::empty() =~= Seq::<
                                Seen,
                            >::empty());
                            assert(sent.push(delivery@) =~= unchanged(all.take(n + 1)));
                        }
                        n = n + 1;
                    }
                    out.push(delivery);
                    assert(delivery_views(out@) =~= sent.push(delivery@));
                },
            }
        }
    }
}

/// To have seen nothing more is to be as before.
proof fn lemma_nothing_seen()
    ensures
        forall|more: Seq<Seen>| #[trigger] (Seq::<Seen>::empty() + more) == more,
{
    assert forall|more: Seq<Seen>| #[trigger] (Seq::<Seen>::empty() + more) == more by {
        assert(Seq::<Seen>::empty() + more =~= more);
    }
}

proof fn lemma_one_passed_on(
    before: FixFaultInjector,
    after: FixFaultInjector,
    direction: Direction,
    message: Seq<u8>,
    verdict: Result<ActionView, ErrorView>,
)
    requires
        before.allows_after(Seq::empty(), message, direction, verdict),
        after.has_seen(before, seq![Seen::Message(message, direction)]),
    ensures
        before.judges(direction, seq![message], seq![verdict]),
        after.has_seen(before, seen_of(seq![message], direction)),
{
    let one = seq![message];
    assert(seen_of(one.take(0), direction) =~= Seq::<Seen>::empty());
    assert(seen_of(one, direction) =~= seq![Seen::Message(message, direction)]);
}

/// What was seen sooner and what was seen later add up.
proof fn lemma_has_seen_more(
    first: FixFaultInjector,
    then: FixFaultInjector,
    last: FixFaultInjector,
    sooner: Seq<Seen>,
    later: Seq<Seen>,
)
    requires
        then.has_seen(first, sooner),
        last.has_seen(then, later),
    ensures
        last.has_seen(first, sooner + later),
{
    assert forall|
        more: Seq<Seen>,
        bytes: Seq<u8>,
        direction: Direction,
        verdict: Result<ActionView, ErrorView>,
    | #[trigger]
        last.allows_after(more, bytes, direction, verdict) == first.allows_after(
            sooner + later + more,
            bytes,
            direction,
            verdict,
        ) by {
        assert(then.allows_after(later + more, bytes, direction, verdict) == first.allows_after(
            sooner + (later + more),
            bytes,
            direction,
            verdict,
        ));
        assert(sooner + (later + more) =~= sooner + later + more);
    }
}

proof fn lemma_judges_one_more(
    first: FixFaultInjector,
    then: FixFaultInjector,
    direction: Direction,
    messages: Seq<Seq<u8>>,
    verdicts: Seq<Result<ActionView, ErrorView>>,
    message: Seq<u8>,
    verdict: Result<ActionView, ErrorView>,
)
    requires
        first.judges(direction, messages, verdicts),
        then.has_seen(first, seen_of(messages, direction)),
        then.allows_after(Seq::empty(), message, direction, verdict),
    ensures
        first.judges(direction, messages.push(message), verdicts.push(verdict)),
{
    let seen = seen_of(messages, direction);
    assert(seen + Seq::<Seen>::empty() =~= seen);
    let all = messages.push(message);
    assert forall|i: int| 0 <= i < all.len() implies first.allows_after(
        seen_of(all.take(i), direction),
        all[i],
        direction,
        #[trigger] verdicts.push(verdict)[i],
    ) by {
        if i < messages.len() {
            assert(all.take(i) =~= messages.take(i));
            assert(verdicts.push(verdict)[i] == verdicts[i]);
        } else {
            assert(all.take(i) =~= messages);
        }
    }
}

/// A stream is judged in order, however it is cut: what the adapter says of the
/// messages that are whole sooner, and then of those that are whole later, is
/// what it may say of all of them, each once, and what leaves is what would
/// leave if they had come at once.
pub proof fn law_cut_stream_is_judged_in_order(
    first: FixFaultInjector,
    then: FixFaultInjector,
    direction: Direction,
    sooner: Seq<u8>,
    later: Seq<u8>,
    said_sooner: Seq<Result<ActionView, ErrorView>>,
    said_later: Seq<Result<ActionView, ErrorView>>,
)
    requires
        first.judges(direction, relay_laws::messages(sooner), said_sooner),
        then.has_seen(first, seen_of(relay_laws::messages(sooner), direction)),
        then.judges(
            direction,
            relay_laws::messages(relay_laws::leftover(sooner) + later),
            said_later,
        ),
    ensures
        first.judges(direction, relay_laws::messages(sooner + later), said_sooner + said_later),
        deliveries(relay_laws::messages(sooner + later), said_sooner + said_later) == deliveries(
            relay_laws::messages(sooner),
            said_sooner,
        ) + deliveries(
            relay_laws::messages(relay_laws::leftover(sooner) + later),
            said_later,
        ),
{
    relay_laws::law_chunks_do_not_matter(sooner, later);
    let a = relay_laws::messages(sooner);
    let b = relay_laws::messages(relay_laws::leftover(sooner) + later);
    let all = a + b;
    let said = said_sooner + said_later;
    assert forall|i: int| 0 <= i < all.len() implies first.allows_after(
        seen_of(all.take(i), direction),
        all[i],
        direction,
        #[trigger] said[i],
    ) by {
        if i < a.len() {
            assert(all.take(i) =~= a.take(i));
            assert(said[i] == said_sooner[i]);
        } else {
            let j = i - a.len();
            assert(said[i] == said_later[j]);
            assert(then.allows_after(
                seen_of(b.take(j), direction),
                b[j],
                direction,
                said_later[j],
            ));
            assert(seen_of(all.take(i), direction) =~= seen_of(a, direction) + seen_of(
                b.take(j),
                direction,
            ));
        }
    }
    assert(deliveries(all, said) =~= deliveries(a, said_sooner) + deliveries(b, said_later));
}

/// The bytes that are written for deliveries, in order.
pub open spec fn written(all: Seq<DeliveryView>) -> Seq<u8>
    decreases all.len(),
{
    if all.len() == 0 {
        Seq::empty()
    } else {
        (match all[0] {
            DeliveryView::Nothing => Seq::empty(),
            DeliveryView::Send(bytes) => bytes,
            DeliveryView::SendAfter(_, bytes) => bytes,
        }) + written(all.skip(1))
    }
}

/// While the fault is not armed, what is written, and then what is held, is
/// what came in.
pub proof fn law_unarmed_fault_changes_nothing(buf: Seq<u8>)
    ensures
        written(unchanged(relay_laws::messages(buf))) + relay_laws::leftover(buf) == buf,
{
    lemma_unchanged_is_joined(relay_laws::messages(buf));
    relay_laws::law_relay_loses_nothing(buf);
}

proof fn lemma_unchanged_is_joined(messages: Seq<Seq<u8>>)
    ensures
        written(unchanged(messages)) == relay_laws::joined(messages),
    decreases messages.len(),
{
    if messages.len() > 0 {
        lemma_unchanged_is_joined(messages.skip(1));
        assert(unchanged(messages).skip(1) =~= unchanged(messages.skip(1)));
    }
}

/// Arming twice is arming once, disarming twice is disarming once, and the
/// proxy of a fault that was armed stays where it is when the fault is
/// disarmed: arming again only throws the switch.
pub proof fn law_only_the_switch_is_thrown_again(proxy: ProxyView)
    ensures
        armed_proxy(armed_proxy(proxy)) == armed_proxy(proxy),
        disarmed_proxy(disarmed_proxy(proxy)) == disarmed_proxy(proxy),
        disarmed_proxy(armed_proxy(proxy)).listening,
        armed_proxy(disarmed_proxy(armed_proxy(proxy))) == armed_proxy(proxy),
{
}

/// Arming and disarming change the switch, and arming has the proxy listen; the
/// addresses, and whether it was shut down, stay as they are.
pub proof fn law_arming_keeps_the_addresses(proxy: ProxyView)
    ensures
        armed_proxy(proxy).enabled,
        armed_proxy(proxy).listening,
        armed_proxy(proxy).listen_addr == proxy.listen_addr,
        armed_proxy(proxy).upstream_addr == proxy.upstream_addr,
        armed_proxy(proxy).shutdown == proxy.shutdown,
        !disarmed_proxy(proxy).enabled,
        disarmed_proxy(proxy).listening == proxy.listening,
        disarmed_proxy(proxy).listen_addr == proxy.listen_addr,
        disarmed_proxy(proxy).upstream_addr == proxy.upstream_addr,
        disarmed_proxy(proxy).shutdown == proxy.shutdown,
{
}

/// Every message is answered in its place: there are as many deliveries as
/// messages, each is what the verdict on its own message makes of it, and a
/// fault that is not armed sends every message as it is.
pub proof fn law_each_message_has_its_delivery(
    messages: Seq<Seq<u8>>,
    verdicts: Seq<Result<ActionView, ErrorView>>,
    all: Seq<Delivery>,
    direction: Direction,
    i: int,
)
    requires
        verdicts.len() == messages.len(),
        0 <= i < messages.len(),
    ensures
        deliveries(messages, verdicts).len() == messages.len(),
        deliveries(messages, verdicts)[i] == relay::delivered(messages[i], verdicts[i]),
        unchanged(messages).len() == messages.len(),
        unchanged(messages)[i] == DeliveryView::Send(messages[i]),
        seen_of(messages, direction).len() == messages.len(),
        seen_of(messages, direction)[i] == Seen::Message(messages[i], direction),
        delivery_views(all).len() == all.len(),
        i < all.len() ==> delivery_views(all)[i] == all[i]@,
{
}

/// An adapter is asked about messages one after the other: about each after it
/// has seen those before it, in that direction, and nothing else.
pub proof fn law_adapter_is_asked_in_order(
    fault: FixFaultInjector,
    direction: Direction,
    messages: Seq<Seq<u8>>,
    verdicts: Seq<Result<ActionView, ErrorView>>,
    i: int,
)
    requires
        fault.judges(direction, messages, verdicts),
        0 <= i < messages.len(),
    ensures
        verdicts.len() == messages.len(),
        fault.allows_after(
            Seq::new(i as nat, |j: int| Seen::Message(messages[j], direction)),
            messages[i],
            direction,
            verdicts[i],
        ),
{
    assert(seen_of(messages.take(i), direction) =~= Seq::new(
        i as nat,
        |j: int| Seen::Message(messages[j], direction),
    ));
}

/// To have seen something is to answer from then on as one does that has: after
/// whatever comes next, as the fault before would have after both.
pub proof fn law_what_was_seen_counts(
    before: FixFaultInjector,
    after: FixFaultInjector,
    seen: Seq<Seen>,
    more: Seq<Seen>,
    bytes: Seq<u8>,
    direction: Direction,
    verdict: Result<ActionView, ErrorView>,
)
    requires
        after.has_seen(before, seen),
    ensures
        after.allows_after(more, bytes, direction, verdict) == before.allows_after(
            seen + more,
            bytes,
            direction,
            verdict,
        ),
        after.adapter_named() == before.adapter_named(),
{
}

/// Arming fails where the address could not be listened on, and only there; it
/// says which address and why. A proxy that listens already cannot fail so.
pub proof fn law_arming_fails_with_its_address(proxy: ProxyView, why: Seq<char>)
    ensures
        arm_failure(proxy, None) is None,
        proxy.listening ==> arm_failure(proxy, Some(why)) is None,
        !proxy.listening ==> arm_failure(proxy, Some(why)) == Some(
            ErrorView::ArmFailed("fix-proxy"@, "binding "@ + proxy.listen_addr + ": "@ + why),
        ),
{
}

} // verus!
