use rget::retry::{next_attempt_action, simulate_retry, AttemptDecision, MAX_ATTEMPTS};
use rget::outcome::{first_failure, DownloadError, WorkerOutcome, WorkerReport};

#[test]
fn attempt_ceiling_is_three() {
    assert_eq!(MAX_ATTEMPTS, 3);
}

#[test]
fn backoff_is_tiered_by_attempt() {
    assert!(matches!(next_attempt_action(1, true), AttemptDecision::RetryAfterMillis(1000)));
    assert!(matches!(next_attempt_action(2, true), AttemptDecision::RetryAfterMillis(2000)));
    assert!(matches!(next_attempt_action(3, true), AttemptDecision::GiveUp));
    assert!(matches!(next_attempt_action(1, false), AttemptDecision::Done));
    assert!(matches!(next_attempt_action(3, false), AttemptDecision::Done));
}

#[test]
fn third_attempt_success_is_overall_success() {
    let r = simulate_retry(&vec![false, false, true]);
    assert!(r.succeeded);
    assert_eq!(r.attempts_used, 3);
    assert_eq!(r.waited_millis, 3000);
}

#[test]
fn first_attempt_success_needs_no_backoff() {
    let r = simulate_retry(&vec![true, false, false]);
    assert!(r.succeeded);
    assert_eq!(r.attempts_used, 1);
    assert_eq!(r.waited_millis, 0);
}

#[test]
fn second_attempt_success_waits_once() {
    let r = simulate_retry(&vec![false, true, false]);
    assert!(r.succeeded);
    assert_eq!(r.attempts_used, 2);
    assert_eq!(r.waited_millis, 1000);
}

#[test]
fn three_failures_exhaust_the_budget() {
    let r = simulate_retry(&vec![false, false, false, true]);
    assert!(!r.succeeded, "a fourth attempt must never happen");
    assert_eq!(r.attempts_used, 3);
    assert_eq!(r.waited_millis, 3000);
}

#[test]
fn all_completed_is_success() {
    let outcomes = vec![
        WorkerOutcome { index: 0, report: WorkerReport::Completed },
        WorkerOutcome { index: 1, report: WorkerReport::Completed },
        WorkerOutcome { index: 2, report: WorkerReport::Completed },
    ];
    assert!(first_failure(outcomes).is_ok());
}

#[test]
fn no_workers_is_success() {
    assert!(first_failure(Vec::new()).is_ok());
}

#[test]
fn exhausted_chunk_surfaces_chunk_failed() {
    let outcomes = vec![
        WorkerOutcome { index: 2, report: WorkerReport::Completed },
        WorkerOutcome { index: 1, report: WorkerReport::Failed(String::from("timed out")) },
        WorkerOutcome { index: 0, report: WorkerReport::Completed },
    ];
    match first_failure(outcomes) {
        Err(DownloadError::ChunkFailed(index, cause)) => {
            assert_eq!(index, 1);
            assert_eq!(cause, "timed out");
        },
        other => panic!("expected ChunkFailed, got {:?}", other),
    }
}

#[test]
fn crash_is_distinct_from_failure() {
    let outcomes = vec![
        WorkerOutcome { index: 0, report: WorkerReport::Crashed },
        WorkerOutcome { index: 1, report: WorkerReport::Failed(String::from("boom")) },
    ];
    assert!(matches!(first_failure(outcomes), Err(DownloadError::WorkerCrashed(0))));
}

#[test]
fn first_bad_outcome_in_completion_order_wins() {
    let outcomes = vec![
        WorkerOutcome { index: 3, report: WorkerReport::Completed },
        WorkerOutcome { index: 2, report: WorkerReport::Failed(String::from("first")) },
        WorkerOutcome { index: 0, report: WorkerReport::Failed(String::from("second")) },
    ];
    match first_failure(outcomes) {
        Err(DownloadError::ChunkFailed(index, cause)) => {
            assert_eq!(index, 2);
            assert_eq!(cause, "first");
        },
        other => panic!("expected ChunkFailed, got {:?}", other),
    }
}
