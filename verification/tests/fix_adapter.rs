use blackswan::fix::adapter::{
    FixAckWithoutExecution, FixExecutionReportPriceMutation, FixRateLimitThrottle, FixSilentReject,
};
use blackswan::fix::{compute_checksum, find_complete_message, parse};
use blackswan::harness::adapter::{Direction, InterceptAction, ProtocolAdapter, RawMessage};
use blackswan::harness::error::HarnessError;

fn reference_execution_report(ord_status: &str, exec_type: &str) -> Vec<u8> {
    let body = format!("35=8\x0139={ord_status}\x01150={exec_type}\x01");
    message(&body)
}

fn message(body: &str) -> Vec<u8> {
    let header = format!("8=FIX.4.4\x019={}\x01", body.len());
    let mut full = format!("{header}{body}").into_bytes();
    let sum = compute_checksum(&full);
    full.extend_from_slice(format!("10={sum:03}\x01").as_bytes());
    full
}

fn inbound(bytes: Vec<u8>) -> RawMessage {
    RawMessage { bytes, direction: Direction::Inbound }
}

fn outbound(bytes: Vec<u8>) -> RawMessage {
    RawMessage { bytes, direction: Direction::Outbound }
}

#[test]
fn silent_reject_drops_rejected_execution_report() {
    let mut adapter = FixSilentReject;
    let msg = inbound(reference_execution_report("8", "8"));
    assert!(matches!(adapter.intercept(&msg).unwrap(), InterceptAction::Drop));
}

#[test]
fn silent_reject_forwards_a_new_ack() {
    let mut adapter = FixSilentReject;
    let msg = inbound(reference_execution_report("0", "0"));
    assert!(matches!(adapter.intercept(&msg).unwrap(), InterceptAction::Forward));
}

#[test]
fn silent_reject_ignores_outbound_traffic() {
    let mut adapter = FixSilentReject;
    let msg = outbound(reference_execution_report("8", "8"));
    assert!(matches!(adapter.intercept(&msg).unwrap(), InterceptAction::Forward));
}

#[test]
fn ack_without_execution_drops_a_fill_but_not_the_ack() {
    let mut adapter = FixAckWithoutExecution;

    let ack = inbound(reference_execution_report("0", "0"));
    assert!(matches!(adapter.intercept(&ack).unwrap(), InterceptAction::Forward));

    let fill = inbound(reference_execution_report("2", "F"));
    assert!(matches!(adapter.intercept(&fill).unwrap(), InterceptAction::Drop));
}

#[test]
fn rate_limit_throttle_allows_up_to_threshold_then_drops() {
    let mut adapter = FixRateLimitThrottle::new(2);
    let msg = || outbound(reference_execution_report("0", "0"));

    assert!(matches!(adapter.intercept(&msg()).unwrap(), InterceptAction::Forward)); // 1
    assert!(matches!(adapter.intercept(&msg()).unwrap(), InterceptAction::Forward)); // 2
    assert!(matches!(adapter.intercept(&msg()).unwrap(), InterceptAction::Drop)); // 3, over threshold
    assert!(matches!(adapter.intercept(&msg()).unwrap(), InterceptAction::Drop)); // 4, still over
}

#[test]
fn rate_limit_throttle_ignores_inbound_traffic() {
    let mut adapter = FixRateLimitThrottle::new(0);
    let msg = inbound(reference_execution_report("0", "0"));
    assert!(matches!(adapter.intercept(&msg).unwrap(), InterceptAction::Forward));
}

#[test]
fn silent_reject_drops_session_and_cancel_rejects() {
    let mut adapter = FixSilentReject;
    for body in ["35=3\x01", "35=9\x01", "35=8\x0139=8\x01", "35=8\x01150=8\x01"] {
        let verdict = adapter.intercept(&inbound(message(body))).unwrap();
        assert!(matches!(verdict, InterceptAction::Drop));
    }
    for body in ["35=j\x01", "35=D\x0139=8\x01", "35=8\x0139=2\x01"] {
        let verdict = adapter.intercept(&inbound(message(body))).unwrap();
        assert!(matches!(verdict, InterceptAction::Forward));
    }
}

#[test]
fn ack_without_execution_needs_an_execution_report() {
    let mut adapter = FixAckWithoutExecution;
    for body in ["35=8\x01150=F\x01", "35=8\x0139=1\x01", "35=8\x0139=2\x01"] {
        let verdict = adapter.intercept(&inbound(message(body))).unwrap();
        assert!(matches!(verdict, InterceptAction::Drop));
    }
    let verdict = adapter.intercept(&inbound(message("35=9\x0139=2\x01"))).unwrap();
    assert!(matches!(verdict, InterceptAction::Forward));
}

#[test]
fn throttle_does_not_count_what_comes_in() {
    let mut adapter = FixRateLimitThrottle::new(1);
    for _ in 0..5 {
        adapter.intercept(&inbound(message("35=0\x01"))).unwrap();
    }
    let first = adapter.intercept(&outbound(message("35=D\x01"))).unwrap();
    assert!(matches!(first, InterceptAction::Forward));
    let second = adapter.intercept(&outbound(message("35=D\x01"))).unwrap();
    assert!(matches!(second, InterceptAction::Drop));
}

#[test]
fn an_unreadable_message_is_rejected_with_the_adapters_name() {
    let mut adapter = FixSilentReject;
    match adapter.intercept(&inbound(b"35D\x01".to_vec())) {
        Err(HarnessError::AdapterRejected(name, reason)) => {
            assert_eq!(name, "fix-silent-reject");
            assert_eq!(reason, "MalformedTag");
        }
        other => panic!("expected a reject, got {other:?}"),
    }
    let error = FixAckWithoutExecution.intercept(&inbound(Vec::new())).unwrap_err();
    assert_eq!(
        error.message(),
        "adapter fix-ack-without-execution rejected message: Empty"
    );
    let error = FixAckWithoutExecution.intercept(&inbound(vec![1])).unwrap_err();
    assert_eq!(
        error.message(),
        "adapter fix-ack-without-execution rejected message: MissingSoh"
    );
    // what is not looked at need not be readable
    assert!(FixSilentReject.intercept(&outbound(b"35D".to_vec())).is_ok());
}

#[test]
fn price_mutation_rewrites_the_price_of_a_fill() {
    let mut adapter = FixExecutionReportPriceMutation::new(b"1.25".to_vec());
    let fill = message("35=8\x0139=2\x01150=F\x0144=100.50\x0155=XYZ\x01");
    match adapter.intercept(&inbound(fill)).unwrap() {
        InterceptAction::Mutate(out) => {
            assert_eq!(out, message("35=8\x0139=2\x01150=F\x0144=1.25\x0155=XYZ\x01"));
            assert_eq!(find_complete_message(&out), Ok(Some(out.len())));
            assert!(parse(&out).unwrap().is(44, b"1.25"));
        }
        other => panic!("expected a mutation, got {other:?}"),
    }
    assert_eq!(adapter.name(), "fix-execution-report-price-mutation");
}

#[test]
fn price_mutation_leaves_everything_else_alone() {
    let mut adapter = FixExecutionReportPriceMutation::new(b"1.25".to_vec());
    let ack = message("35=8\x0139=0\x01150=0\x0144=100.50\x01");
    assert!(matches!(adapter.intercept(&inbound(ack)).unwrap(), InterceptAction::Forward));
    let no_price = message("35=8\x0139=2\x01150=F\x01");
    assert!(matches!(adapter.intercept(&inbound(no_price)).unwrap(), InterceptAction::Forward));
    let fill = message("35=8\x0139=2\x01150=F\x0144=100.50\x01");
    assert!(matches!(adapter.intercept(&outbound(fill)).unwrap(), InterceptAction::Forward));
    let headless = b"35=8\x0139=2\x0144=100.50\x01".to_vec();
    assert!(matches!(
        adapter.intercept(&inbound(headless)),
        Err(HarnessError::AdapterRejected(_, _))
    ));
}

#[test]
fn a_throttle_counts_from_when_its_fault_was_armed() {
    let mut adapter = FixRateLimitThrottle::new(1);
    let mut order = || adapter_answer(&mut adapter);
    assert!(matches!(order(), InterceptAction::Forward));
    assert!(matches!(order(), InterceptAction::Drop));
    adapter.on_arm();
    assert!(matches!(adapter_answer(&mut adapter), InterceptAction::Forward));
    assert!(matches!(adapter_answer(&mut adapter), InterceptAction::Drop));
}

fn adapter_answer(adapter: &mut FixRateLimitThrottle) -> InterceptAction {
    adapter.intercept(&outbound(message("35=D\x01"))).unwrap()
}
