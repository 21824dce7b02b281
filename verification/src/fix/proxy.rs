//! A man in the middle for FIX sessions: what it does when a client calls, and
//! what starting and stopping it come to. One session is served at a time; a
//! second client waits until the first has gone.
use vstd::prelude::*;

use crate::harness::error::HarnessError;

#[allow(unused_imports)]
use crate::harness::error::ErrorView;

verus! {

/// How long the listener waits, in milliseconds, before it looks again for a
/// client.
pub const ACCEPT_PAUSE_MS: u64 = 10;

/// How long a relay waits for bytes, in milliseconds, before it looks whether
/// the proxy is being shut down.
pub const READ_TIMEOUT_MS: u64 = 200;

/// What a look at the listener came to.
#[derive(Debug, Clone, Copy, PartialEq, Eq, Structural)]
pub enum AcceptEvent {
    /// The proxy is being shut down.
    Shutdown,
    /// A client has called.
    Accepted,
    /// No client has called yet.
    NotReady,
    /// The listener is broken.
    Failed,
}

/// What to do after a look at the listener.
#[derive(Debug, Clone, Copy, PartialEq, Eq, Structural)]
pub enum AcceptStep {
    /// Listen no more.
    Stop,
    /// Call the exchange and, where it answers, serve the session to its end.
    /// Then look again.
    Serve,
    /// Wait so many milliseconds, then look again.
    Pause(u64),
}

/// What follows a look at the listener.
pub open spec fn step_after(event: AcceptEvent) -> AcceptStep {
    match event {
        AcceptEvent::Shutdown | AcceptEvent::Failed => AcceptStep::Stop,
        AcceptEvent::Accepted => AcceptStep::Serve,
        AcceptEvent::NotReady => AcceptStep::Pause(ACCEPT_PAUSE_MS),
    }
}

/// What to do after a look at the listener.
pub fn accept_step(event: AcceptEvent) -> (r: AcceptStep)
    ensures
        r == (match event {
            AcceptEvent::Shutdown | AcceptEvent::Failed => AcceptStep::Stop,
            AcceptEvent::Accepted => AcceptStep::Serve,
            AcceptEvent::NotReady => AcceptStep::Pause(ACCEPT_PAUSE_MS),
        }),
        r == step_after(event),
{
    match event {
        AcceptEvent::Shutdown => AcceptStep::Stop,
        AcceptEvent::Failed => AcceptStep::Stop,
        AcceptEvent::Accepted => AcceptStep::Serve,
        AcceptEvent::NotReady => AcceptStep::Pause(ACCEPT_PAUSE_MS),
    }
}

/// Where a proxy listens, whom it calls, and how it stands.
pub struct FixProxy {
    listen_addr: String,
    upstream_addr: String,
    enabled: bool,
    listening: bool,
    shutdown: bool,
}

/// A `FixProxy` by the views of its parts.
pub struct ProxyView {
    pub listen_addr: Seq<char>,
    pub upstream_addr: Seq<char>,
    /// Whether the adapter is asked about messages.
    pub enabled: bool,
    /// Whether the listener has been started, and not been stopped since.
    pub listening: bool,
    /// Whether the proxy has ever been told to shut down.
    pub shutdown: bool,
}

impl ProxyView {
    /// The proxy once its listener has been started.
    pub open spec fn after_start(self) -> ProxyView {
        ProxyView { listening: true, ..self }
    }

    /// The proxy once it has been shut down.
    pub open spec fn after_stop(self) -> ProxyView {
        ProxyView { listening: false, shutdown: true, ..self }
    }

    /// The proxy with its switch thrown.
    pub open spec fn switched(self, enabled: bool) -> ProxyView {
        ProxyView { enabled, ..self }
    }
}

impl View for FixProxy {
    type V = ProxyView;

    closed spec fn view(&self) -> ProxyView {
        ProxyView {
            listen_addr: self.listen_addr@,
            upstream_addr: self.upstream_addr@,
            enabled: self.enabled,
            listening: self.listening,
            shutdown: self.shutdown,
        }
    }
}

impl FixProxy {
    pub fn new(listen_addr: String, upstream_addr: String) -> (r: Self)
        ensures
            r@ == (ProxyView {
                listen_addr: listen_addr@,
                upstream_addr: upstream_addr@,
                enabled: false,
                listening: false,
                shutdown: false,
            }),
    {
        FixProxy { listen_addr, upstream_addr, enabled: false, listening: false, shutdown: false }
    }

    /// The address of the exchange.
    pub fn upstream_addr(&self) -> (r: &str)
        ensures
            r@ == self@.upstream_addr,
    {
        self.upstream_addr.as_str()
    }

    /// Whether the adapter is asked about messages. While it is not, every
    /// message goes on unchanged.
    pub fn is_enabled(&self) -> (r: bool)
        ensures
            r == self@.enabled,
    {
        self.enabled
    }

    pub fn set_enabled(&mut self, enabled: bool)
        ensures
            final(self)@ == (ProxyView { enabled, ..old(self)@ }),
            final(self)@ == old(self)@.switched(enabled),
    {
        self.enabled = enabled;
    }

    /// The address to listen on, where that is still to be done.
    pub fn start(&self) -> (r: Option<&str>)
        ensures
            match r {
                Some(addr) => !self@.listening && addr@ == self@.listen_addr,
                None => self@.listening,
            },
    {
        if self.listening {
            None
        } else {
            Some(self.listen_addr.as_str())
        }
    }

    /// Takes in how listening went: `failure` is what the system said where it
    /// failed.
    pub fn started(&mut self, failure: Option<&str>) -> (r: Result<(), HarnessError>)
        ensures
            match failure {
                None => r is Ok && final(self)@ == (ProxyView { listening: true, ..old(self)@ })
                    && final(self)@ == old(self)@.after_start(),
                Some(why) => {
                    &&& r is Err
                    &&& r->Err_0@ == ErrorView::ArmFailed(
                        "fix-proxy"@,
                        "binding "@ + old(self)@.listen_addr + ": "@ + why@,
                    )
                    &&& final(self)@ == old(self)@
                },
            },
    {
        match failure {
            None => {
                self.listening = true;
                Ok(())
            },
            Some(why) => {
                let mut reason = "binding ".to_owned();
                reason.append(self.listen_addr.as_str());
                reason.append(": ");
                reason.append(why);
                Err(HarnessError::ArmFailed("fix-proxy".to_owned(), reason))
            },
        }
    }

    /// Shuts the proxy down for good. Says whether a listener is to be waited
    /// for.
    pub fn stop(&mut self) -> (r: bool)
        ensures
            r == old(self)@.listening,
            final(self)@ == (ProxyView { shutdown: true, listening: false, ..old(self)@ }),
            final(self)@ == old(self)@.after_stop(),
    {
        let r: bool = self.listening;
        self.shutdown = true;
        self.listening = false;
        r
    }
}

/// A client is served where one has called, and only there. The listener waits
/// while none has, ten milliseconds at a time, and stops where it is broken or
/// the proxy is shut down.
pub proof fn law_listener_serves_who_calls(event: AcceptEvent)
    ensures
        step_after(event) == AcceptStep::Serve <==> event == AcceptEvent::Accepted,
        step_after(event) == AcceptStep::Pause(10) <==> event == AcceptEvent::NotReady,
        step_after(event) == AcceptStep::Stop <==> event == AcceptEvent::Shutdown || event
            == AcceptEvent::Failed,
{
}

/// Starting, stopping and switching change what they are about and nothing
/// else: the listener, the shutdown, the switch. The addresses never change.
pub proof fn law_proxy_keeps_what_is_not_touched(proxy: ProxyView, enabled: bool)
    ensures
        proxy.after_start().listening,
        proxy.after_start().enabled == proxy.enabled,
        proxy.after_start().shutdown == proxy.shutdown,
        !proxy.after_stop().listening,
        proxy.after_stop().shutdown,
        proxy.after_stop().enabled == proxy.enabled,
        proxy.switched(enabled).enabled == enabled,
        proxy.switched(enabled).listening == proxy.listening,
        proxy.switched(enabled).shutdown == proxy.shutdown,
        proxy.after_start().listen_addr == proxy.listen_addr,
        proxy.after_start().upstream_addr == proxy.upstream_addr,
        proxy.after_stop().listen_addr == proxy.listen_addr,
        proxy.after_stop().upstream_addr == proxy.upstream_addr,
        proxy.switched(enabled).listen_addr == proxy.listen_addr,
        proxy.switched(enabled).upstream_addr == proxy.upstream_addr,
{
}

} // verus!
