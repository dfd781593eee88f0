use modmapper::nexus_api::retry::{
    after_attempt, succeeded, ApiError, AttemptOutcome, Operation, RetryAction, MAX_ATTEMPTS,
    RETRY_DELAY_SECONDS,
};
use modmapper::time::Wait;

const ALL: [Operation; 6] = [
    Operation::ListMods,
    Operation::GetFilesForMod,
    Operation::GetDownloadLink,
    Operation::DownloadFile,
    Operation::GetFileMetadata,
    Operation::GetModDetail,
];

fn retry() -> RetryAction {
    RetryAction::RetryAfter(Wait { seconds: 1, nanos: 0 })
}

fn run(operation: Operation, outcomes: &[AttemptOutcome]) -> (RetryAction, u8) {
    let mut attempt = 0;
    for outcome in outcomes {
        attempt += 1;
        match after_attempt(operation, attempt, *outcome) {
            RetryAction::RetryAfter(_) => {}
            done => return (done, attempt),
        }
    }
    panic!("the outcomes ran out while another attempt was due");
}

#[test]
fn retry_constants_are_three_attempts_a_second_apart() {
    assert_eq!(MAX_ATTEMPTS, 3);
    assert_eq!(RETRY_DELAY_SECONDS, 1);
}

#[test]
fn a_good_status_ends_the_operation() {
    for operation in ALL {
        for status in [200, 204, 302, 399, 100, 600] {
            for attempt in 1..=3 {
                assert_eq!(
                    after_attempt(operation, attempt, AttemptOutcome::Status(status)),
                    RetryAction::Done
                );
            }
        }
    }
}

#[test]
fn a_missing_download_link_is_not_asked_for_again() {
    for attempt in 1..=3 {
        assert_eq!(
            after_attempt(Operation::GetDownloadLink, attempt, AttemptOutcome::Status(404)),
            RetryAction::Fail(ApiError::NotFound)
        );
    }
}

#[test]
fn not_found_elsewhere_is_tried_again() {
    for operation in ALL {
        if operation == Operation::GetDownloadLink {
            continue;
        }
        assert_eq!(after_attempt(operation, 1, AttemptOutcome::Status(404)), retry());
        assert_eq!(
            after_attempt(operation, 3, AttemptOutcome::Status(404)),
            RetryAction::Fail(ApiError::Exhausted)
        );
    }
}

#[test]
fn failures_are_tried_again_twice() {
    for operation in ALL {
        for outcome in [
            AttemptOutcome::Status(500),
            AttemptOutcome::Status(503),
            AttemptOutcome::Status(429),
            AttemptOutcome::Status(400),
            AttemptOutcome::Status(599),
            AttemptOutcome::TransportFailure,
        ] {
            assert_eq!(after_attempt(operation, 1, outcome), retry());
            assert_eq!(after_attempt(operation, 2, outcome), retry());
            assert!(matches!(after_attempt(operation, 3, outcome), RetryAction::Fail(_)));
            assert!(matches!(after_attempt(operation, 4, outcome), RetryAction::Fail(_)));
            assert!(matches!(after_attempt(operation, u8::MAX, outcome), RetryAction::Fail(_)));
        }
    }
}

#[test]
fn a_download_that_breaks_off_for_the_third_time_is_a_transport_failure() {
    assert_eq!(
        after_attempt(Operation::DownloadFile, 3, AttemptOutcome::TransportFailure),
        RetryAction::Fail(ApiError::Transport)
    );
    assert_eq!(
        after_attempt(Operation::DownloadFile, 3, AttemptOutcome::Status(500)),
        RetryAction::Fail(ApiError::Exhausted)
    );
    assert_eq!(
        after_attempt(Operation::GetFilesForMod, 3, AttemptOutcome::TransportFailure),
        RetryAction::Fail(ApiError::Exhausted)
    );
}

#[test]
fn an_operation_succeeds_on_the_attempt_that_succeeds() {
    let bad = AttemptOutcome::Status(502);
    let good = AttemptOutcome::Status(200);
    assert_eq!(run(Operation::ListMods, &[good]), (RetryAction::Done, 1));
    assert_eq!(run(Operation::ListMods, &[bad, good]), (RetryAction::Done, 2));
    assert_eq!(run(Operation::ListMods, &[bad, bad, good]), (RetryAction::Done, 3));
    assert_eq!(
        run(Operation::ListMods, &[bad, bad, bad, good]),
        (RetryAction::Fail(ApiError::Exhausted), 3)
    );
}

#[test]
fn an_attempt_succeeds_on_a_status_that_reports_no_error() {
    assert!(succeeded(AttemptOutcome::Status(200)));
    assert!(succeeded(AttemptOutcome::Status(302)));
    assert!(succeeded(AttemptOutcome::Status(399)));
    assert!(succeeded(AttemptOutcome::Status(600)));
    assert!(!succeeded(AttemptOutcome::Status(400)));
    assert!(!succeeded(AttemptOutcome::Status(404)));
    assert!(!succeeded(AttemptOutcome::Status(599)));
    assert!(!succeeded(AttemptOutcome::TransportFailure));
}
