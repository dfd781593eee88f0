//! The rate limiter: how long to wait after a response of the upstream
//! API before the next request may go out.
//!
//! The API reports in three headers how many requests remain for the day
//! and for the hour, and when the hourly count is reset. While requests
//! remain, the limiter asks for a short fixed pause. Once both counts are down
//! to one, it asks to wait until a few seconds past the hourly reset.

use vstd::prelude::*;
use crate::radix::{parse_decimal_i32, parse_i32_spec};
use crate::time::{Timestamp, Wait};

verus! {

/// The seconds to pause between requests while requests remain.
pub const PACING_SECONDS: u64 = 1;

/// The seconds added to the hourly reset before requests resume.
pub const RESET_GRACE_SECONDS: i64 = 5;

/// The text of the three rate-limit headers of a response; `None` for a
/// header that the response does not carry.
#[derive(Debug, Clone)]
pub struct RateLimitHeaders {
    /// `x-rl-daily-remaining`
    pub daily_remaining: Option<String>,
    /// `x-rl-hourly-remaining`
    pub hourly_remaining: Option<String>,
    /// `x-rl-hourly-reset`
    pub hourly_reset: Option<String>,
}

/// Why the limiter could not derive a wait.
#[derive(Debug, Clone, Copy, PartialEq, Eq, Structural)]
pub enum RateLimitError {
    /// The daily count is present and is no number.
    InvalidDailyRemaining,
    /// The hourly count is present and is no number.
    InvalidHourlyRemaining,
    /// The reset time is present and does not have the expected form.
    InvalidReset,
    /// The reset time and its grace lie in the past.
    ResetElapsed,
    /// The wait is longer than a span of time can hold.
    WaitTooLong,
}

/// Whether a character is white space: a character with the Unicode
/// property `White_Space`.
pub open spec fn is_white_space(c: char) -> bool {
    let n = c as u32;
    ||| 0x09 <= n <= 0x0D
    ||| n == 0x20
    ||| n == 0x85
    ||| n == 0xA0
    ||| n == 0x1680
    ||| 0x2000 <= n <= 0x200A
    ||| n == 0x2028
    ||| n == 0x2029
    ||| n == 0x202F
    ||| n == 0x205F
    ||| n == 0x3000
}

/// A text without the white space at its start.
pub open spec fn without_leading_space(text: Seq<char>) -> Seq<char>
    decreases text.len(),
{
    if text.len() > 0 && is_white_space(text.first()) {
        without_leading_space(text.drop_first())
    } else {
        text
    }
}

/// A text without the white space at its end.
pub open spec fn without_trailing_space(text: Seq<char>) -> Seq<char>
    decreases text.len(),
{
    if text.len() > 0 && is_white_space(text.last()) {
        without_trailing_space(text.drop_last())
    } else {
        text
    }
}

/// The text of a header without the white space at its two ends.
pub open spec fn trimmed(text: Seq<char>) -> Seq<char> {
    without_trailing_space(without_leading_space(text))
}

/// The instant that a text denotes under a format of the `chrono` crate, as
/// seconds since the epoch and nanoseconds, or `None` where the text does
/// not match the format: the result of `DateTime::parse_from_str`.
pub uninterp spec fn parsed_instant(text: Seq<char>, format: Seq<char>) -> Option<(i64, u32)>;

/// `str::trim` of the standard library. Trusted: the result is the text
/// without the characters of the Unicode property `White_Space` at its
/// start and at its end.
pub assume_specification[ str::trim ](s: &str) -> (r: &str)
    ensures
        r@ == trimmed(s@),
;

/// Calls `chrono::DateTime::parse_from_str` and hands out the instant it
/// found as seconds and nanoseconds. Trusted: the result is the named
/// function of the text and the format.
#[verifier::external_body]
fn parse_instant(text: &str, format: &str) -> (r: Option<(i64, u32)>)
    ensures
        r == parsed_instant(text@, format@),
{
    match chrono::DateTime::parse_from_str(text, format) {
        Ok(t) => Some((t.timestamp(), t.timestamp_subsec_nanos())),
        Err(_) => None,
    }
}

/// The format of the hourly reset header: date, time of day and numeric
/// offset from UTC.
pub open spec fn reset_format() -> Seq<char> {
    "%Y-%m-%d %H:%M:%S %z"@
}

/// The pause between requests while requests remain.
pub open spec fn pacing_wait() -> Wait {
    Wait { seconds: PACING_SECONDS, nanos: 0 }
}

/// Whether both counts are used up, so that the next request has to wait
/// for the hourly reset.
pub open spec fn counters_exhausted_spec(daily: i32, hourly: i32) -> bool {
    daily <= 1 && hourly <= 1
}

/// The nanoseconds from `now` until the grace after `reset` has passed.
pub open spec fn nanos_until_reset(reset: Timestamp, now: Timestamp) -> int {
    reset.total_nanos() + RESET_GRACE_SECONDS * 1_000_000_000 - now.total_nanos()
}

/// The wait until the grace after `reset` has passed: an error where that
/// moment lies before `now`, or is further away than a wait can hold.
pub open spec fn wait_until_reset_spec(reset: Timestamp, now: Timestamp) -> Result<
    Wait,
    RateLimitError,
> {
    let nanos = nanos_until_reset(reset, now);
    if nanos < 0 {
        Err(RateLimitError::ResetElapsed)
    } else if nanos / 1_000_000_000 > u64::MAX {
        Err(RateLimitError::WaitTooLong)
    } else {
        Ok(Wait { seconds: (nanos / 1_000_000_000) as u64, nanos: (nanos % 1_000_000_000) as u32 })
    }
}

/// What the limiter answers, given what the reset header denotes.
pub open spec fn pacing_spec(
    daily: Option<Seq<char>>,
    hourly: Option<Seq<char>>,
    reset: Option<Seq<char>>,
    now: Timestamp,
) -> Result<Wait, RateLimitError> {
    if daily is None || hourly is None {
        Ok(pacing_wait())
    } else if parse_i32_spec(daily->0) is None {
        Err(RateLimitError::InvalidDailyRemaining)
    } else if parse_i32_spec(hourly->0) is None {
        Err(RateLimitError::InvalidHourlyRemaining)
    } else if !counters_exhausted_spec(parse_i32_spec(daily->0)->0, parse_i32_spec(hourly->0)->0)
        || reset is None {
        Ok(pacing_wait())
    } else {
        match parsed_instant(trimmed(reset->0), reset_format()) {
            None => Err(RateLimitError::InvalidReset),
            Some(at) => wait_until_reset_spec(Timestamp { seconds: at.0, nanos: at.1 }, now),
        }
    }
}

/// The view of an optional header.
pub open spec fn header_view(header: Option<String>) -> Option<Seq<char>> {
    match header {
        Some(text) => Some(text@),
        None => None,
    }
}

/// Whether both counts are used up.
pub fn counters_exhausted(daily: i32, hourly: i32) -> (r: bool)
    ensures
        r == counters_exhausted_spec(daily, hourly),
{
    daily <= 1 && hourly <= 1
}

/// The wait from `now` until the grace after the hourly reset has passed.
///
/// The result counts exactly the nanoseconds between the two moments. A
/// reset that, grace included, lies before `now` is an error, not a wait of
/// zero.
pub fn wait_until_reset(reset: &Timestamp, now: &Timestamp) -> (r: Result<Wait, RateLimitError>)
    ensures
        r == wait_until_reset_spec(*reset, *now),
        r matches Ok(w) ==> w.well_formed() && w.total_nanos() == nanos_until_reset(*reset, *now),
{
    let target: i128 = (reset.seconds as i128 + RESET_GRACE_SECONDS as i128) * 1_000_000_000
        + reset.nanos as i128;
    let current: i128 = now.seconds as i128 * 1_000_000_000 + now.nanos as i128;
    let nanos: i128 = target - current;
    if nanos < 0 {
        return Err(RateLimitError::ResetElapsed);
    }
    let seconds: i128 = nanos / 1_000_000_000;
    let rest: i128 = nanos % 1_000_000_000;
    if seconds > u64::MAX as i128 {
        return Err(RateLimitError::WaitTooLong);
    }
    Ok(Wait { seconds: seconds as u64, nanos: rest as u32 })
}

/// The wait that the headers of a response ask for.
///
/// A response without the two counts asks for the fixed pause, and so does
/// one whose counts are not both down to one, or that names no reset time.
/// A count that is no number is an error. With both counts used up, the
/// wait runs until the grace after the reset time, read without the white
/// space around it.
pub fn rate_limit_wait_duration(headers: &RateLimitHeaders, now: &Timestamp) -> (r: Result<
    Wait,
    RateLimitError,
>)
    ensures
        r == pacing_spec(
            header_view(headers.daily_remaining),
            header_view(headers.hourly_remaining),
            header_view(headers.hourly_reset),
            *now,
        ),
{
    let daily_text = match &headers.daily_remaining {
        Some(text) => text,
        None => {
            return Ok(Wait::from_secs(PACING_SECONDS));
        },
    };
    let hourly_text = match &headers.hourly_remaining {
        Some(text) => text,
        None => {
            return Ok(Wait::from_secs(PACING_SECONDS));
        },
    };
    let daily: i32 = match parse_decimal_i32(daily_text.as_str()) {
        Some(n) => n,
        None => {
            return Err(RateLimitError::InvalidDailyRemaining);
        },
    };
    let hourly: i32 = match parse_decimal_i32(hourly_text.as_str()) {
        Some(n) => n,
        None => {
            return Err(RateLimitError::InvalidHourlyRemaining);
        },
    };
    if !counters_exhausted(daily, hourly) {
        return Ok(Wait::from_secs(PACING_SECONDS));
    }
    let reset_text = match &headers.hourly_reset {
        Some(text) => text,
        None => {
            return Ok(Wait::from_secs(PACING_SECONDS));
        },
    };
    match parse_instant(reset_text.as_str().trim(), "%Y-%m-%d %H:%M:%S %z") {
        None => Err(RateLimitError::InvalidReset),
        Some(at) => wait_until_reset(&Timestamp { seconds: at.0, nanos: at.1 }, now),
    }
}

} // verus!
