use blackswan::fix::adapter::{FixRateLimitThrottle, FixSilentReject};
use blackswan::fix::compute_checksum;
use blackswan::fix::injector::{FixFaultInjector, Judge};
use blackswan::fix::proxy::{accept_step, AcceptEvent, AcceptStep, FixProxy, ACCEPT_PAUSE_MS};
use blackswan::fix::relay::{deliver, Delivery, ReadEvent, Relay, RelayStep};
use blackswan::harness::adapter::{Direction, InterceptAction, ProtocolAdapter, RawMessage};
use blackswan::harness::error::HarnessError;

fn message(body: &str) -> Vec<u8> {
    let header = format!("8=FIX.4.4\x019={}\x01", body.len());
    let mut full = format!("{header}{body}").into_bytes();
    let sum = compute_checksum(&full);
    full.extend_from_slice(format!("10={sum:03}\x01").as_bytes());
    full
}

fn sent(delivery: Option<Delivery>) -> Vec<u8> {
    match delivery {
        Some(Delivery::Send(bytes)) => bytes,
        other => panic!("expected bytes, got {other:?}"),
    }
}

struct Refuses;

impl ProtocolAdapter for Refuses {
    fn named(&self) -> &str {
        "refuses"
    }

    fn name(&self) -> &str {
        "refuses"
    }

    fn on_arm(&mut self) {}

    fn intercept(&mut self, _msg: &RawMessage) -> Result<InterceptAction, HarnessError> {
        Err(HarnessError::AdapterRejected("refuses".into(), "always".into()))
    }
}

struct Delays;

impl ProtocolAdapter for Delays {
    fn named(&self) -> &str {
        "delays"
    }

    fn name(&self) -> &str {
        "delays"
    }

    fn on_arm(&mut self) {}

    fn intercept(&mut self, msg: &RawMessage) -> Result<InterceptAction, HarnessError> {
        assert_eq!(msg.direction, Direction::Outbound);
        Ok(InterceptAction::Delay(5))
    }
}

#[test]
fn a_disabled_relay_passes_the_stream_through_however_it_is_cut() {
    let mut stream = Vec::new();
    for body in ["35=8\x0139=8\x01", "35=A\x01", "35=3\x01"] {
        stream.extend_from_slice(&message(body));
    }
    for size in 1..stream.len() {
        let mut adapter: Box<dyn ProtocolAdapter> = Box::new(FixSilentReject);
        let mut relay = Relay::new(Direction::Inbound);
        let mut out = Vec::new();
        for chunk in stream.chunks(size) {
            assert_eq!(relay.on_read(ReadEvent::Bytes(chunk.to_vec())), RelayStep::PassOn);
            while let Some(delivery) = relay.pass_on(false, &mut adapter) {
                out.extend_from_slice(&sent(Some(delivery)));
            }
        }
        assert_eq!(out, stream);
    }
}

#[test]
fn an_enabled_relay_asks_the_adapter_about_each_message() {
    let ack = message("35=8\x0139=0\x01150=0\x01");
    let reject = message("35=8\x0139=8\x01150=8\x01");
    let mut adapter: Box<dyn ProtocolAdapter> = Box::new(FixSilentReject);
    let mut relay = Relay::new(Direction::Inbound);
    let mut both = reject.clone();
    both.extend_from_slice(&ack);
    relay.on_read(ReadEvent::Bytes(both));
    assert!(matches!(relay.pass_on(true, &mut adapter), Some(Delivery::Nothing)));
    assert_eq!(sent(relay.pass_on(true, &mut adapter)), ack);
    assert!(relay.pass_on(true, &mut adapter).is_none());
}

#[test]
fn a_throttle_counts_only_while_it_is_enabled() {
    let order = message("35=D\x01");
    let mut adapter: Box<dyn ProtocolAdapter> = Box::new(FixRateLimitThrottle::new(1));
    let mut relay = Relay::new(Direction::Outbound);
    for enabled in [false, true, false, true] {
        relay.on_read(ReadEvent::Bytes(order.clone()));
        let delivery = relay.pass_on(enabled, &mut adapter);
        if enabled && matches!(delivery, Some(Delivery::Nothing)) {
            continue;
        }
        assert_eq!(sent(delivery), order);
    }
    relay.on_read(ReadEvent::Bytes(order.clone()));
    assert!(matches!(relay.pass_on(true, &mut adapter), Some(Delivery::Nothing)));
}

#[test]
fn what_the_adapter_cannot_judge_goes_on_unchanged() {
    let order = message("35=D\x01");
    let mut adapter: Box<dyn ProtocolAdapter> = Box::new(Refuses);
    let mut relay = Relay::new(Direction::Outbound);
    relay.on_read(ReadEvent::Bytes(order.clone()));
    assert_eq!(sent(relay.pass_on(true, &mut adapter)), order);
}

#[test]
fn a_delayed_message_keeps_its_bytes() {
    let order = message("35=D\x01");
    let mut adapter: Box<dyn ProtocolAdapter> = Box::new(Delays);
    let mut relay = Relay::new(Direction::Outbound);
    relay.on_read(ReadEvent::Bytes(order.clone()));
    match relay.pass_on(true, &mut adapter) {
        Some(Delivery::SendAfter(ns, bytes)) => {
            assert_eq!(ns, 5);
            assert_eq!(bytes, order);
        }
        other => panic!("expected a delay, got {other:?}"),
    }
}

#[test]
fn each_verdict_has_its_delivery() {
    let bytes = vec![1, 2, 3];
    assert_eq!(sent(Some(deliver(bytes.clone(), Ok(InterceptAction::Forward)))), bytes);
    assert!(matches!(deliver(bytes.clone(), Ok(InterceptAction::Drop)), Delivery::Nothing));
    assert_eq!(sent(Some(deliver(bytes.clone(), Ok(InterceptAction::Mutate(vec![9]))))), vec![9]);
    let failed = Err(HarnessError::Io("gone".into()));
    assert_eq!(sent(Some(deliver(bytes.clone(), failed))), bytes);
}

#[test]
fn a_relay_stops_when_its_source_does() {
    let mut relay = Relay::new(Direction::Inbound);
    assert_eq!(relay.on_read(ReadEvent::NotReady), RelayStep::ReadAgain);
    assert_eq!(relay.on_read(ReadEvent::Bytes(Vec::new())), RelayStep::Stop);
    assert_eq!(relay.on_read(ReadEvent::Failed), RelayStep::Stop);
    assert_eq!(relay.on_read(ReadEvent::Shutdown), RelayStep::Stop);
}

#[test]
fn a_stream_out_of_step_passes_nothing_on() {
    let mut adapter: Box<dyn ProtocolAdapter> = Box::new(FixSilentReject);
    let mut relay = Relay::new(Direction::Inbound);
    let mut bytes = b"noise".to_vec();
    bytes.extend_from_slice(&message("35=A\x01"));
    relay.on_read(ReadEvent::Bytes(bytes));
    assert!(relay.pass_on(false, &mut adapter).is_none());
    let mut lone = Relay::new(Direction::Inbound);
    lone.on_read(ReadEvent::Bytes(b"8=FIX.4.4\x01\x01".to_vec()));
    assert!(lone.pass_on(false, &mut adapter).is_none());
}

#[test]
fn the_listener_serves_pauses_or_stops() {
    assert_eq!(accept_step(AcceptEvent::Accepted), AcceptStep::Serve);
    assert_eq!(accept_step(AcceptEvent::NotReady), AcceptStep::Pause(ACCEPT_PAUSE_MS));
    assert_eq!(accept_step(AcceptEvent::Failed), AcceptStep::Stop);
    assert_eq!(accept_step(AcceptEvent::Shutdown), AcceptStep::Stop);
    assert_eq!(ACCEPT_PAUSE_MS, 10);
}

#[test]
fn a_proxy_listens_once_and_says_why_it_could_not() {
    let mut proxy = FixProxy::new("127.0.0.1:1".into(), "127.0.0.1:2".into());
    assert_eq!(proxy.upstream_addr(), "127.0.0.1:2");
    assert_eq!(proxy.start(), Some("127.0.0.1:1"));
    let error = proxy.started(Some("address in use")).unwrap_err();
    assert_eq!(
        error.message(),
        "fault injector fix-proxy failed to arm: binding 127.0.0.1:1: address in use"
    );
    assert_eq!(proxy.start(), Some("127.0.0.1:1"));
    assert!(proxy.started(None).is_ok());
    assert_eq!(proxy.start(), None);
    assert!(proxy.stop());
    assert!(!proxy.stop());
}

#[test]
fn an_injector_keeps_its_proxy_across_cycles() {
    let mut injector = fault(FixSilentReject);
    assert_eq!(injector.id(), "f");
    assert!(injector.disarm().is_ok());
    assert_eq!(injector.arm_plan(), Some("127.0.0.1:1"));
    assert!(injector.arm(Some("refused")).is_err());
    assert!(!injector.is_armed());
    assert!(injector.arm(None).is_ok());
    assert!(injector.is_armed());
    assert!(injector.proxy().is_enabled());
    assert!(injector.disarm().is_ok());
    assert!(!injector.proxy().is_enabled());
    assert_eq!(injector.arm_plan(), None);
    assert!(injector.arm(None).is_ok());
    assert!(injector.is_armed());
}

fn fault(adapter: impl ProtocolAdapter + 'static) -> FixFaultInjector {
    let judge = Judge { adapter: Box::new(adapter) };
    FixFaultInjector::new("f".into(), "127.0.0.1:1".into(), "127.0.0.1:2".into(), judge)
}

#[test]
fn arming_again_starts_the_throttle_anew() {
    let mut injector = fault(FixRateLimitThrottle::new(1));
    let mut relay = Relay::new(Direction::Outbound);
    let order = message("35=D\x01");
    let mut send = |injector: &mut FixFaultInjector| {
        relay.on_read(ReadEvent::Bytes(order.clone()));
        !matches!(injector.pass_on(&mut relay), Some(Delivery::Nothing))
    };
    injector.arm(None).unwrap();
    assert!(send(&mut injector));
    injector.disarm().unwrap();
    assert!(send(&mut injector));
    injector.arm(None).unwrap();
    assert!(send(&mut injector));
    assert!(!send(&mut injector));
    // arming what is armed changes nothing
    injector.arm(None).unwrap();
    assert!(!send(&mut injector));
}

#[test]
fn a_reject_is_swallowed_and_the_ack_behind_it_goes_on() {
    let mut injector = fault(FixSilentReject);
    injector.arm(None).unwrap();
    let mut relay = Relay::new(Direction::Inbound);
    let ack = b"8=FIX.4.4\x019=16\x0135=8\x0139=0\x01150=0\x0110=187\x01".to_vec();
    let mut read = b"8=FIX.4.4\x019=16\x0135=8\x0139=8\x01150=8\x0110=203\x01".to_vec();
    read.extend_from_slice(&ack);
    relay.on_read(ReadEvent::Bytes(read));
    let mut written = Vec::new();
    for delivery in injector.pass_on_all(&mut relay) {
        match delivery {
            Delivery::Nothing => {}
            other => written.extend_from_slice(&sent(Some(other))),
        }
    }
    assert_eq!(written, ack);
}

#[test]
fn a_stream_is_judged_the_same_however_it_is_cut() {
    let mut stream = Vec::new();
    for _ in 0..4 {
        stream.extend_from_slice(&message("35=D\x01"));
    }
    for size in 1..stream.len() {
        let mut injector = fault(FixRateLimitThrottle::new(3));
        injector.arm(None).unwrap();
        let mut relay = Relay::new(Direction::Outbound);
        let mut passed = Vec::new();
        for chunk in stream.chunks(size) {
            relay.on_read(ReadEvent::Bytes(chunk.to_vec()));
            for delivery in injector.pass_on_all(&mut relay) {
                passed.push(!matches!(delivery, Delivery::Nothing));
            }
        }
        assert_eq!(passed, vec![true, true, true, false]);
    }
}

#[test]
fn an_injector_bears_the_name_of_its_adapter_throughout() {
    let mut fault = FixFaultInjector::new(
        "f".into(),
        "127.0.0.1:1".into(),
        "127.0.0.1:2".into(),
        Judge { adapter: Box::new(Delays) },
    );
    assert_eq!(fault.adapter_name(), "delays");
    fault.arm(None).unwrap();
    assert_eq!(fault.adapter_name(), "delays");
    let mut relay = Relay::new(Direction::Outbound);
    relay.on_read(ReadEvent::Bytes(message("35=A\x01")));
    assert_eq!(fault.pass_on_all(&mut relay).len(), 1);
    assert_eq!(fault.adapter_name(), "delays");
    fault.disarm().unwrap();
    assert_eq!(fault.adapter_name(), "delays");
}
