use open_feature_flagd::retry::{ConnectRetry, RetryDecision, StreamRetry};

#[test]
fn test_retry_mechanism_inprocess() {
    // backoff 100ms, at most 400ms, three attempts: waits of 100ms and
    // 200ms, then the third failure gives up
    let mut retry = ConnectRetry::new(100, 400, 3);
    assert_eq!(retry.on_failure(), RetryDecision::Retry(100));
    assert_eq!(retry.on_failure(), RetryDecision::Retry(200));
    assert_eq!(retry.on_failure(), RetryDecision::GiveUp);
}

#[test]
fn connect_retry_waits_double_up_to_the_maximum() {
    let mut retry = ConnectRetry::new(1000, 5000, 10);
    let mut waits = Vec::new();
    loop {
        match retry.on_failure() {
            RetryDecision::Retry(w) => waits.push(w),
            RetryDecision::GiveUp => break,
        }
    }
    assert_eq!(waits, vec![1000, 2000, 4000, 5000, 5000, 5000, 5000, 5000, 5000]);
}

#[test]
fn connect_retry_with_zero_grace_period_makes_one_attempt() {
    let mut retry = ConnectRetry::new(1000, 120000, 0);
    assert_eq!(retry.on_failure(), RetryDecision::GiveUp);
    let mut retry = ConnectRetry::new(1000, 120000, 1);
    assert_eq!(retry.on_failure(), RetryDecision::GiveUp);
}

#[test]
fn connect_retry_does_not_overflow_large_delays() {
    let mut retry = ConnectRetry::new(u32::MAX, u32::MAX, 5);
    assert_eq!(retry.on_failure(), RetryDecision::Retry(u32::MAX));
    assert_eq!(retry.on_failure(), RetryDecision::Retry(u32::MAX));
}

#[test]
fn stream_retry_resets_after_graceful_end() {
    let mut retry = StreamRetry::new(100, 1000);
    assert_eq!(retry.on_stream_end(false), 100);
    assert_eq!(retry.on_stream_end(false), 200);
    assert_eq!(retry.on_stream_end(false), 400);
    assert_eq!(retry.on_stream_end(false), 800);
    assert_eq!(retry.on_stream_end(false), 1000);
    assert_eq!(retry.on_stream_end(true), 100);
    assert_eq!(retry.on_stream_end(false), 200);
}
