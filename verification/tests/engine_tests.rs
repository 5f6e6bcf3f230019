use httpr::engine::{next_step, run_attempts, EngineResult, NextStep, SendOutcome};
use httpr::errors::{classify_error_text, classify_timeout_text, ErrorKind};
use httpr::retry::RetrySettings;

fn settings(max_retries: u32, backoff_factor_millis: u64) -> RetrySettings {
    RetrySettings {
        max_retries,
        backoff_factor_millis,
    }
}

fn failure(kind: ErrorKind, detail: &str) -> SendOutcome {
    SendOutcome::TransportFailure {
        kind,
        detail: detail.to_string(),
    }
}

fn status(code: u16, body_text: &str) -> SendOutcome {
    SendOutcome::Delivered {
        status: code,
        body_text: body_text.to_string(),
    }
}

#[test]
fn default_settings_are_three_retries_doubling() {
    let s = RetrySettings::default();
    assert_eq!(s.max_retries, 3);
    assert_eq!(s.backoff_factor_millis, 2000);
}

#[test]
fn backoff_delays_double_per_attempt() {
    let s = settings(5, 2000);
    assert_eq!(s.next_delay_millis(1), Some(2000));
    assert_eq!(s.next_delay_millis(2), Some(4000));
    assert_eq!(s.next_delay_millis(3), Some(8000));
}

#[test]
fn backoff_triples_with_factor_three() {
    let s = settings(5, 3000);
    assert_eq!(s.next_delay_millis(1), Some(3000));
    assert_eq!(s.next_delay_millis(2), Some(9000));
    assert_eq!(s.next_delay_millis(3), Some(27000));
}

#[test]
fn fractional_backoff_factor() {
    let s = settings(5, 1500);
    assert_eq!(s.next_delay_millis(1), Some(1500));
    assert_eq!(s.next_delay_millis(2), Some(2250));
    assert_eq!(s.next_delay_millis(3), Some(3375));
}

#[test]
fn permanently_failing_transport_makes_max_retries_plus_one_attempts() {
    let s = settings(3, 2000);
    let outcomes = vec![
        failure(ErrorKind::ConnectError, "refused 1"),
        failure(ErrorKind::ConnectError, "refused 2"),
        failure(ErrorKind::ConnectError, "refused 3"),
        failure(ErrorKind::ConnectError, "refused 4"),
        failure(ErrorKind::ConnectError, "refused 5"),
        failure(ErrorKind::ConnectError, "refused 6"),
    ];
    let r = run_attempts(&s, &outcomes);
    match r {
        EngineResult::Exhausted {
            kind,
            detail,
            status,
            attempts,
        } => {
            assert_eq!(attempts, 4);
            assert_eq!(kind, ErrorKind::ConnectError);
            assert_eq!(detail, "refused 4");
            assert_eq!(status, None);
        }
        EngineResult::Delivered { .. } => panic!("a failing transport must not deliver"),
    }
}

#[test]
fn zero_retries_means_exactly_one_attempt() {
    let s = settings(0, 2000);
    let outcomes = vec![failure(ErrorKind::ReadTimeout, "stalled")];
    let r = run_attempts(&s, &outcomes);
    match r {
        EngineResult::Exhausted {
            kind,
            detail,
            status,
            attempts,
        } => {
            assert_eq!(attempts, 1);
            assert_eq!(kind, ErrorKind::ReadTimeout);
            assert_eq!(detail, "stalled");
            assert_eq!(status, None);
        }
        EngineResult::Delivered { .. } => panic!("a failing transport must not deliver"),
    }
}

#[test]
fn success_on_second_attempt_stops_the_run() {
    let s = settings(3, 2000);
    let outcomes = vec![
        failure(ErrorKind::ConnectTimeout, "slow"),
        status(200, ""),
        status(201, ""),
        status(202, ""),
    ];
    let r = run_attempts(&s, &outcomes);
    match r {
        EngineResult::Delivered { status, attempts } => {
            assert_eq!(status, 200);
            assert_eq!(attempts, 2);
        }
        EngineResult::Exhausted { .. } => panic!("the second attempt succeeded"),
    }
}

#[test]
fn non_2xx_status_is_retried_and_surfaces_as_status_error() {
    let s = settings(1, 2000);
    let outcomes = vec![status(500, "boom"), status(503, "still down")];
    let r = run_attempts(&s, &outcomes);
    match r {
        EngineResult::Exhausted {
            kind,
            detail,
            status,
            attempts,
        } => {
            assert_eq!(attempts, 2);
            assert_eq!(kind, ErrorKind::HttpStatusError);
            assert_eq!(detail, "still down");
            assert_eq!(status, Some(503));
        }
        EngineResult::Delivered { .. } => panic!("5xx statuses are failures"),
    }
}

#[test]
fn non_retryable_failures_surface_on_first_occurrence() {
    let s = settings(3, 2000);
    let outcomes = vec![failure(ErrorKind::InvalidUrl, "bad scheme"); 4];
    let r = run_attempts(&s, &outcomes);
    match r {
        EngineResult::Exhausted {
            kind,
            detail,
            status,
            attempts,
        } => {
            assert_eq!(attempts, 1);
            assert_eq!(kind, ErrorKind::InvalidUrl);
            assert_eq!(detail, "bad scheme");
            assert_eq!(status, None);
        }
        EngineResult::Delivered { .. } => panic!("a failing transport must not deliver"),
    }
    let step = next_step(&s, 1, &failure(ErrorKind::BuildError, "no such file"));
    assert_eq!(step, NextStep::GiveUp);
}

#[test]
fn next_step_delivers_on_success() {
    let s = settings(3, 2000);
    let step = next_step(&s, 1, &status(204, ""));
    assert_eq!(step, NextStep::Deliver);
}

#[test]
fn next_step_waits_the_backoff_delay() {
    let s = settings(3, 2000);
    let step = next_step(&s, 2, &failure(ErrorKind::ReadError, "reset"));
    assert_eq!(step, NextStep::RetryAfter { delay_millis: 4000 });
}

#[test]
fn next_step_gives_up_past_the_budget() {
    let s = settings(3, 2000);
    let step = next_step(&s, 4, &failure(ErrorKind::ReadError, "reset"));
    assert_eq!(step, NextStep::GiveUp);
}

#[test]
fn classification_reads_failure_text() {
    assert_eq!(
        classify_error_text("invalid URL scheme"),
        ErrorKind::InvalidUrl
    );
    assert_eq!(
        classify_error_text("operation timed out"),
        ErrorKind::ReadTimeout
    );
    assert_eq!(
        classify_error_text("connect timeout reached"),
        ErrorKind::ConnectTimeout
    );
    assert_eq!(
        classify_error_text("Connection refused"),
        ErrorKind::ConnectError
    );
    assert_eq!(
        classify_error_text("dns error: name not resolved"),
        ErrorKind::ConnectError
    );
    assert_eq!(
        classify_error_text("No such file or directory"),
        ErrorKind::RequestError
    );
    assert_eq!(
        classify_error_text("bad proxy reply"),
        ErrorKind::ProxyError
    );
    assert_eq!(
        classify_error_text("TLS handshake failed"),
        ErrorKind::ConnectError
    );
    assert_eq!(classify_error_text("something else"), ErrorKind::RequestError);
}

#[test]
fn timeout_classification_reads_the_direction() {
    assert_eq!(
        classify_timeout_text("error sending request"),
        ErrorKind::WriteTimeout
    );
    assert_eq!(
        classify_timeout_text("recv stalled"),
        ErrorKind::ReadTimeout
    );
    assert_eq!(classify_timeout_text("plain stall"), ErrorKind::ReadTimeout);
}

#[test]
fn build_errors_are_not_retryable() {
    assert!(!ErrorKind::BuildError.is_retryable());
    assert!(!ErrorKind::InvalidUrl.is_retryable());
    assert!(ErrorKind::ConnectTimeout.is_retryable());
    assert!(ErrorKind::HttpStatusError.is_retryable());
    assert!(ErrorKind::DecodingError.is_retryable());
}
