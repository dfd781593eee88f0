//! When a request to the upstream API is tried again.
//!
//! Each operation is attempted up to three times, a second apart. The
//! caller makes the request and reports how the attempt ended; this module
//! answers what to do next.

use vstd::prelude::*;
use crate::time::Wait;

verus! {

/// The attempts that one operation is given.
pub const MAX_ATTEMPTS: u8 = 3;

/// The seconds between two attempts.
pub const RETRY_DELAY_SECONDS: u64 = 1;

/// The operations of the API.
#[derive(Debug, Clone, Copy, PartialEq, Eq, Structural)]
pub enum Operation {
    ListMods,
    GetFilesForMod,
    GetDownloadLink,
    DownloadFile,
    GetFileMetadata,
    GetModDetail,
}

/// How one attempt ended.
#[derive(Debug, Clone, Copy, PartialEq, Eq, Structural)]
pub enum AttemptOutcome {
    /// A response arrived, with this status code.
    Status(u16),
    /// No response arrived, or its body broke off.
    TransportFailure,
}

/// Why an operation failed for good.
#[derive(Debug, Clone, Copy, PartialEq, Eq, Structural)]
pub enum ApiError {
    /// The API has no download link for this file.
    NotFound,
    /// Every attempt failed.
    Exhausted,
    /// Every attempt failed, the last while the download was streaming.
    Transport,
}

/// What to do after an attempt.
#[derive(Debug, Clone, Copy, PartialEq, Eq, Structural)]
pub enum RetryAction {
    /// The attempt succeeded: use its response.
    Done,
    /// Wait, then attempt again.
    RetryAfter(Wait),
    /// Give the operation up.
    Fail(ApiError),
}

/// Whether a status code reports a client or server error.
pub open spec fn is_error_status(status: u16) -> bool {
    400 <= status < 600
}

/// Whether the outcome says that what was asked for does not exist: a
/// status 404 in answer to a request for a download link.
pub open spec fn is_not_found(operation: Operation, outcome: AttemptOutcome) -> bool {
    operation == Operation::GetDownloadLink && outcome == AttemptOutcome::Status(404)
}

/// Whether the attempt succeeded: a response whose status reports no
/// error.
pub open spec fn is_success(outcome: AttemptOutcome) -> bool {
    outcome matches AttemptOutcome::Status(status) && !is_error_status(status)
}

/// The failure that ends an operation whose last attempt ended in
/// `outcome`.
pub open spec fn final_failure(operation: Operation, outcome: AttemptOutcome) -> ApiError {
    if operation == Operation::DownloadFile && outcome == AttemptOutcome::TransportFailure {
        ApiError::Transport
    } else {
        ApiError::Exhausted
    }
}

/// What follows attempt number `attempt`, counted from one, that ended in
/// `outcome`.
pub open spec fn after_attempt_spec(
    operation: Operation,
    attempt: u8,
    outcome: AttemptOutcome,
) -> RetryAction {
    if is_success(outcome) {
        RetryAction::Done
    } else if is_not_found(operation, outcome) {
        RetryAction::Fail(ApiError::NotFound)
    } else if attempt < MAX_ATTEMPTS {
        RetryAction::RetryAfter(Wait { seconds: RETRY_DELAY_SECONDS, nanos: 0 })
    } else {
        RetryAction::Fail(final_failure(operation, outcome))
    }
}

/// Whether an attempt succeeded, so that the response can be read.
pub fn succeeded(outcome: AttemptOutcome) -> (r: bool)
    ensures
        r == is_success(outcome),
{
    match outcome {
        AttemptOutcome::Status(status) => !(400 <= status && status < 600),
        AttemptOutcome::TransportFailure => false,
    }
}

/// Decides what follows an attempt.
///
/// A response without an error status ends the operation with success. A
/// missing download link ends it at once: asking again would not bring
/// one. Any other outcome is tried again after a second, until the third
/// attempt has failed.
pub fn after_attempt(operation: Operation, attempt: u8, outcome: AttemptOutcome) -> (r:
    RetryAction)
    ensures
        r == after_attempt_spec(operation, attempt, outcome),
{
    match outcome {
        AttemptOutcome::Status(status) => {
            if !(400 <= status && status < 600) {
                return RetryAction::Done;
            }
            if status == 404 {
                if let Operation::GetDownloadLink = operation {
                    return RetryAction::Fail(ApiError::NotFound);
                }
            }
            if attempt < MAX_ATTEMPTS {
                RetryAction::RetryAfter(Wait::from_secs(RETRY_DELAY_SECONDS))
            } else {
                RetryAction::Fail(ApiError::Exhausted)
            }
        },
        AttemptOutcome::TransportFailure => {
            if attempt < MAX_ATTEMPTS {
                RetryAction::RetryAfter(Wait::from_secs(RETRY_DELAY_SECONDS))
            } else if let Operation::DownloadFile = operation {
                RetryAction::Fail(ApiError::Transport)
            } else {
                RetryAction::Fail(ApiError::Exhausted)
            }
        },
    }
}

/// What an operation comes to when its attempts end in the given outcomes,
/// in order: the action that ends it and the attempts made, or `None`
/// where the outcomes run out while another attempt is due.
pub open spec fn run_spec(operation: Operation, outcomes: Seq<AttemptOutcome>, made: u8) -> Option<
    (RetryAction, u8),
>
    decreases outcomes.len(),
{
    if outcomes.len() == 0 || made >= MAX_ATTEMPTS {
        None
    } else {
        let attempt = (made + 1) as u8;
        match after_attempt_spec(operation, attempt, outcomes[0]) {
            RetryAction::RetryAfter(_) => run_spec(operation, outcomes.drop_first(), attempt),
            action => Some((action, attempt)),
        }
    }
}

/// An operation is never attempted more than three times: whatever the
/// third attempt comes to, no further attempt follows it.
pub proof fn lemma_third_attempt_is_last(operation: Operation, outcome: AttemptOutcome)
    ensures
        !(after_attempt_spec(operation, MAX_ATTEMPTS, outcome) is RetryAfter),
{
}

/// An operation that ends has made between one and three attempts, and
/// ends in success or failure, never in a wait.
pub proof fn lemma_run_is_bounded(operation: Operation, outcomes: Seq<AttemptOutcome>, made: u8)
    ensures
        run_spec(operation, outcomes, made) matches Some((action, attempts)) ==> made < attempts
            <= MAX_ATTEMPTS && !(action is RetryAfter),
    decreases outcomes.len(),
{
    if outcomes.len() > 0 && made < MAX_ATTEMPTS {
        lemma_run_is_bounded(operation, outcomes.drop_first(), (made + 1) as u8);
    }
}

/// Three outcomes always suffice: an operation that starts fresh ends
/// within whatever three outcomes it meets.
pub proof fn lemma_three_outcomes_suffice(operation: Operation, outcomes: Seq<AttemptOutcome>)
    requires
        outcomes.len() >= 3,
    ensures
        run_spec(operation, outcomes, 0) is Some,
{
    let second = outcomes.drop_first();
    let third = second.drop_first();
    assert(third.len() >= 1);
    lemma_third_attempt_is_last(operation, third[0]);
    assert(run_spec(operation, third, 2) is Some);
    assert(run_spec(operation, second, 1) is Some);
}

} // verus!
