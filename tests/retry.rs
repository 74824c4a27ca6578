use page_scan::retry::{RetryState, RetryStep, MAX_RETRIES};

/// Runs attempts with the given outcomes until the policy stops; returns the
/// number of attempts made and the final step.
fn run(outcomes: &[Result<u32, String>]) -> (usize, RetryStep<u32, String>) {
    let mut state = RetryState::new(MAX_RETRIES);
    let mut attempts = 0;
    loop {
        let outcome = outcomes[attempts].clone();
        attempts += 1;
        match state.on_outcome(outcome) {
            RetryStep::Retry(_) => {}
            step => return (attempts, step),
        }
    }
}

#[test]
fn success_on_first_attempt() {
    let (n, step) = run(&[Ok(7)]);
    assert_eq!(n, 1);
    assert!(matches!(step, RetryStep::Done(7)));
}

#[test]
fn retries_do_not_change_the_result() {
    for k in 0..=MAX_RETRIES {
        let mut outcomes: Vec<Result<u32, String>> =
            (0..k).map(|i| Err(format!("busy {i}"))).collect();
        outcomes.push(Ok(42));
        let (n, step) = run(&outcomes);
        assert_eq!(n, k + 1);
        assert!(matches!(step, RetryStep::Done(42)));
    }
}

#[test]
fn always_failing_fetch_aborts_after_max_retries_plus_one() {
    let outcomes: Vec<Result<u32, String>> =
        (0..MAX_RETRIES + 5).map(|i| Err(format!("busy {i}"))).collect();
    let (n, step) = run(&outcomes);
    assert_eq!(n, MAX_RETRIES + 1);
    match step {
        RetryStep::Abort(a) => {
            assert_eq!(a.attempts, MAX_RETRIES + 1);
            assert_eq!(a.last_error, format!("busy {}", MAX_RETRIES));
        }
        _ => panic!("expected an abort"),
    }
}

#[test]
fn zero_retries_aborts_on_first_failure() {
    let mut state = RetryState::new(0);
    match state.on_outcome::<u32, &str>(Err("down")) {
        RetryStep::Abort(a) => {
            assert_eq!(a.attempts, 1);
            assert_eq!(a.last_error, "down");
        }
        _ => panic!("expected an abort"),
    }
}
