use arena_common::retry::{RetryPolicy, RetryState, RetryStep, MAX_RETRIES, RETRY_DELAY_SECS};

/// Runs one exchange against a transport that fails `failing` times before
/// it answers, and reports the result with the number of attempts and pauses.
fn exchange(failing: u32) -> (Result<&'static str, String>, u32, u64) {
    exchange_under(RetryPolicy::cache_proxy(), failing)
}

fn exchange_under(policy: RetryPolicy, failing: u32) -> (Result<&'static str, String>, u32, u64) {
    let mut state = RetryState::new(policy);
    let mut attempts: u32 = 0;
    let mut paused: u64 = 0;
    loop {
        attempts += 1;
        let outcome = if attempts <= failing {
            Err(format!("connection refused ({attempts})"))
        } else {
            Ok("payload")
        };
        match state.on_outcome(outcome) {
            RetryStep::Finished(result) => return (result, attempts, paused),
            RetryStep::RetryAfter { seconds } => paused += seconds,
        }
    }
}

#[test]
fn policy_is_ten_retries_one_second_apart() {
    assert_eq!(MAX_RETRIES, 10);
    assert_eq!(RETRY_DELAY_SECS, 1);
    assert_eq!(RetryPolicy::cache_proxy(), RetryPolicy { max_retries: 10, delay_secs: 1 });
    assert_eq!(RetryPolicy::once(), RetryPolicy { max_retries: 0, delay_secs: 0 });
}

#[test]
fn success_at_once_needs_no_retry() {
    assert_eq!(exchange(0), (Ok("payload"), 1, 0));
}

#[test]
fn three_failures_then_success_yield_the_payload() {
    assert_eq!(exchange(3), (Ok("payload"), 4, 3));
}

#[test]
fn ten_failures_then_success_yield_the_payload() {
    assert_eq!(exchange(10), (Ok("payload"), 11, 10));
}

#[test]
fn eleven_failures_surface_the_last_error() {
    assert_eq!(exchange(11), (Err("connection refused (11)".to_string()), 11, 10));
    assert_eq!(exchange(50), (Err("connection refused (11)".to_string()), 11, 10));
}

#[test]
fn a_response_ends_the_exchange_whatever_came_before() {
    let mut state = RetryState::new(RetryPolicy::cache_proxy());
    let first: RetryStep<u16, &str> = state.on_outcome(Err("timeout"));
    assert!(matches!(first, RetryStep::RetryAfter { seconds: 1 }));
    let second: RetryStep<u16, &str> = state.on_outcome(Ok(503));
    assert!(matches!(second, RetryStep::Finished(Ok(503))));
}

#[test]
fn single_attempt_is_never_repeated() {
    assert_eq!(exchange_under(RetryPolicy::once(), 0), (Ok("payload"), 1, 0));
    assert_eq!(
        exchange_under(RetryPolicy::once(), 1),
        (Err("connection refused (1)".to_string()), 1, 0)
    );
}

#[test]
fn pauses_follow_the_policy() {
    let policy = RetryPolicy { max_retries: 2, delay_secs: 5 };
    assert_eq!(exchange_under(policy, 2), (Ok("payload"), 3, 10));
    assert_eq!(exchange_under(policy, 3), (Err("connection refused (3)".to_string()), 3, 10));
}
