use onvif_client::datagram::{
    discovery_step, AttemptOutcome, DatagramAction, DatagramExchange, DiscoveryState, RetryPolicy,
};
use onvif_client::error::OnvifError;

fn is_send(action: &DatagramAction, attempt: u8, timeout_ms: u64) -> bool {
    matches!(action, DatagramAction::Send { attempt: a, timeout_ms: t } if *a == attempt && *t == timeout_ms)
}

#[test]
fn standard_policy_is_three_times_three_seconds() {
    let policy = RetryPolicy::standard();
    assert_eq!(policy.attempts, 3);
    assert_eq!(policy.per_attempt_timeout_ms, 3000);
    assert_eq!(policy.total_wait_ms(), 9000);
}

#[test]
fn total_wait_does_not_overflow() {
    let policy = RetryPolicy { attempts: 255, per_attempt_timeout_ms: u64::MAX };
    assert_eq!(policy.total_wait_ms(), 255u128 * (u64::MAX as u128));
}

#[test]
fn silent_endpoint_exhausts_three_attempts() {
    let (mut exchange, first) = DatagramExchange::begin(RetryPolicy::standard());
    assert!(is_send(&first, 1, 3000));
    let second = exchange.on_outcome(AttemptOutcome::TimedOut);
    assert!(is_send(&second, 2, 3000));
    let third = exchange.on_outcome(AttemptOutcome::TimedOut);
    assert!(is_send(&third, 3, 3000));
    let last = exchange.on_outcome(AttemptOutcome::TimedOut);
    assert!(matches!(last, DatagramAction::Fail(OnvifError::AllAttemptsExhausted)));
    assert_eq!(exchange.attempts_made(), 3);
    assert!(exchange.is_done());
}

#[test]
fn reply_on_second_attempt_stops_the_exchange() {
    let (mut exchange, first) = DatagramExchange::begin(RetryPolicy::standard());
    assert!(is_send(&first, 1, 3000));
    let second = exchange.on_outcome(AttemptOutcome::TimedOut);
    assert!(is_send(&second, 2, 3000));
    let done = exchange.on_outcome(AttemptOutcome::Reply(vec![1, 2, 3]));
    assert!(matches!(done, DatagramAction::Deliver(ref b) if b == &vec![1u8, 2, 3]));
    assert_eq!(exchange.attempts_made(), 2);
    assert!(exchange.is_done());
    let after = exchange.on_outcome(AttemptOutcome::TimedOut);
    assert!(matches!(after, DatagramAction::Idle));
    assert_eq!(exchange.attempts_made(), 2);
}

#[test]
fn reply_on_first_attempt_is_delivered() {
    let (mut exchange, _) = DatagramExchange::begin(RetryPolicy::standard());
    let done = exchange.on_outcome(AttemptOutcome::Reply(vec![9]));
    assert!(matches!(done, DatagramAction::Deliver(ref b) if b == &vec![9u8]));
    assert_eq!(exchange.attempts_made(), 1);
}

#[test]
fn empty_datagram_is_no_reply() {
    let (mut exchange, _) = DatagramExchange::begin(RetryPolicy::standard());
    let next = exchange.on_outcome(AttemptOutcome::Reply(Vec::new()));
    assert!(is_send(&next, 2, 3000));
    assert!(!exchange.is_done());
}

#[test]
fn policy_without_attempts_fails_at_once() {
    let policy = RetryPolicy { attempts: 0, per_attempt_timeout_ms: 10 };
    let (exchange, first) = DatagramExchange::begin(policy);
    assert!(matches!(first, DatagramAction::Fail(OnvifError::AllAttemptsExhausted)));
    assert!(exchange.is_done());
    assert_eq!(exchange.attempts_made(), 0);
}

#[test]
fn single_attempt_policy() {
    let policy = RetryPolicy { attempts: 1, per_attempt_timeout_ms: 50 };
    let (mut exchange, first) = DatagramExchange::begin(policy);
    assert!(is_send(&first, 1, 50));
    let last = exchange.on_outcome(AttemptOutcome::TimedOut);
    assert!(matches!(last, DatagramAction::Fail(OnvifError::AllAttemptsExhausted)));
    assert_eq!(exchange.attempts_made(), 1);
}

#[test]
fn many_attempts_never_exceed_the_policy() {
    let policy = RetryPolicy { attempts: 255, per_attempt_timeout_ms: 1 };
    let (mut exchange, _) = DatagramExchange::begin(policy);
    let mut sends = 1u32;
    for _ in 0..1000 {
        if let DatagramAction::Send { .. } = exchange.on_outcome(AttemptOutcome::TimedOut) {
            sends += 1;
        }
    }
    assert_eq!(sends, 255);
    assert_eq!(exchange.attempts_made(), 255);
}

#[test]
fn discovery_delivers_first_responder() {
    let (state, action) = discovery_step(DiscoveryState::AwaitingReply, AttemptOutcome::Reply(vec![7, 8]));
    assert_eq!(state, DiscoveryState::Completed);
    assert!(matches!(action, DatagramAction::Deliver(ref b) if b == &vec![7u8, 8]));
}

#[test]
fn discovery_times_out_once() {
    let (state, action) = discovery_step(DiscoveryState::AwaitingReply, AttemptOutcome::TimedOut);
    assert_eq!(state, DiscoveryState::Completed);
    assert!(matches!(action, DatagramAction::Fail(OnvifError::TimeoutExceeded)));
    let (state, action) = discovery_step(state, AttemptOutcome::Reply(vec![1]));
    assert_eq!(state, DiscoveryState::Completed);
    assert!(matches!(action, DatagramAction::Idle));
}

#[test]
fn discovery_ignores_empty_datagram() {
    let (state, action) = discovery_step(DiscoveryState::AwaitingReply, AttemptOutcome::Reply(Vec::new()));
    assert_eq!(state, DiscoveryState::Completed);
    assert!(matches!(action, DatagramAction::Fail(OnvifError::TimeoutExceeded)));
}
