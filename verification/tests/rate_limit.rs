use modmapper::rate_limit::{
    counters_exhausted, rate_limit_wait_duration, wait_until_reset, RateLimitError,
    RateLimitHeaders,
};
use modmapper::time::{Timestamp, Wait};

fn headers(daily: Option<&str>, hourly: Option<&str>, reset: Option<&str>) -> RateLimitHeaders {
    RateLimitHeaders {
        daily_remaining: daily.map(String::from),
        hourly_remaining: hourly.map(String::from),
        hourly_reset: reset.map(String::from),
    }
}

// 2024-01-01 12:00:00 UTC
const NOON: i64 = 1_704_110_400;

fn at(seconds: i64) -> Timestamp {
    Timestamp { seconds, nanos: 0 }
}

#[test]
fn plenty_of_requests_left_asks_for_the_fixed_pause() {
    let h = headers(Some("2400"), Some("99"), Some("2024-01-01 12:00:00 +0000"));
    assert_eq!(rate_limit_wait_duration(&h, &at(NOON)), Ok(Wait { seconds: 1, nanos: 0 }));
}

#[test]
fn one_counter_left_still_asks_for_the_fixed_pause() {
    let reset = Some("2024-01-01 13:00:00 +0000");
    let h = headers(Some("1"), Some("2"), reset);
    assert_eq!(rate_limit_wait_duration(&h, &at(NOON)), Ok(Wait { seconds: 1, nanos: 0 }));
    let h = headers(Some("2"), Some("1"), reset);
    assert_eq!(rate_limit_wait_duration(&h, &at(NOON)), Ok(Wait { seconds: 1, nanos: 0 }));
}

#[test]
fn both_counters_used_up_waits_until_five_seconds_past_the_reset() {
    let h = headers(Some("1"), Some("0"), Some("2024-01-01 13:00:00 +0000"));
    assert_eq!(rate_limit_wait_duration(&h, &at(NOON)), Ok(Wait { seconds: 3605, nanos: 0 }));
}

#[test]
fn negative_counters_count_as_used_up() {
    let h = headers(Some("-3"), Some("-1"), Some("2024-01-01 12:00:10 +0000"));
    assert_eq!(rate_limit_wait_duration(&h, &at(NOON)), Ok(Wait { seconds: 15, nanos: 0 }));
}

#[test]
fn the_reset_is_read_in_its_own_time_zone() {
    let h = headers(Some("0"), Some("0"), Some("2024-01-01 14:00:00 +0100"));
    assert_eq!(rate_limit_wait_duration(&h, &at(NOON)), Ok(Wait { seconds: 3605, nanos: 0 }));
    let h = headers(Some("0"), Some("0"), Some("2024-01-01 07:30:00 -0500"));
    assert_eq!(rate_limit_wait_duration(&h, &at(NOON)), Ok(Wait { seconds: 1805, nanos: 0 }));
}

#[test]
fn white_space_around_the_reset_is_ignored() {
    let h = headers(Some("0"), Some("0"), Some("  2024-01-01 12:01:00 +0000 \t"));
    assert_eq!(rate_limit_wait_duration(&h, &at(NOON)), Ok(Wait { seconds: 65, nanos: 0 }));
}

#[test]
fn the_wait_counts_nanoseconds() {
    let h = headers(Some("0"), Some("0"), Some("2024-01-01 12:00:00 +0000"));
    let now = Timestamp { seconds: NOON, nanos: 250_000_000 };
    assert_eq!(
        rate_limit_wait_duration(&h, &now),
        Ok(Wait { seconds: 4, nanos: 750_000_000 })
    );
}

#[test]
fn a_reset_exactly_five_seconds_ago_gives_no_wait() {
    let h = headers(Some("0"), Some("0"), Some("2024-01-01 12:00:00 +0000"));
    assert_eq!(rate_limit_wait_duration(&h, &at(NOON + 5)), Ok(Wait { seconds: 0, nanos: 0 }));
}

#[test]
fn a_reset_that_has_passed_is_an_error() {
    let h = headers(Some("0"), Some("0"), Some("2024-01-01 12:00:00 +0000"));
    assert_eq!(rate_limit_wait_duration(&h, &at(NOON + 6)), Err(RateLimitError::ResetElapsed));
    let just_after = Timestamp { seconds: NOON + 5, nanos: 1 };
    assert_eq!(rate_limit_wait_duration(&h, &just_after), Err(RateLimitError::ResetElapsed));
}

#[test]
fn missing_counters_ask_for_the_fixed_pause() {
    let reset = Some("2024-01-01 13:00:00 +0000");
    for h in [
        headers(None, None, None),
        headers(None, Some("0"), reset),
        headers(Some("0"), None, reset),
        headers(None, Some("junk"), reset),
    ] {
        assert_eq!(rate_limit_wait_duration(&h, &at(NOON)), Ok(Wait { seconds: 1, nanos: 0 }));
    }
}

#[test]
fn a_missing_reset_asks_for_the_fixed_pause() {
    let h = headers(Some("0"), Some("0"), None);
    assert_eq!(rate_limit_wait_duration(&h, &at(NOON)), Ok(Wait { seconds: 1, nanos: 0 }));
}

#[test]
fn counters_that_are_no_numbers_are_errors() {
    let reset = Some("2024-01-01 13:00:00 +0000");
    let h = headers(Some("many"), Some("0"), reset);
    assert_eq!(rate_limit_wait_duration(&h, &at(NOON)), Err(RateLimitError::InvalidDailyRemaining));
    let h = headers(Some("0"), Some(""), reset);
    assert_eq!(
        rate_limit_wait_duration(&h, &at(NOON)),
        Err(RateLimitError::InvalidHourlyRemaining)
    );
    let h = headers(Some("x"), Some("y"), reset);
    assert_eq!(rate_limit_wait_duration(&h, &at(NOON)), Err(RateLimitError::InvalidDailyRemaining));
}

#[test]
fn a_reset_of_another_form_is_an_error() {
    for reset in ["", "soon", "2024-01-01 13:00:00", "2024-01-01T13:00:00+00:00", "2024-13-01 13:00:00 +0000"] {
        let h = headers(Some("0"), Some("0"), Some(reset));
        assert_eq!(rate_limit_wait_duration(&h, &at(NOON)), Err(RateLimitError::InvalidReset));
    }
}

#[test]
fn an_invalid_reset_does_not_matter_while_requests_remain() {
    let h = headers(Some("5"), Some("5"), Some("soon"));
    assert_eq!(rate_limit_wait_duration(&h, &at(NOON)), Ok(Wait { seconds: 1, nanos: 0 }));
}

#[test]
fn counters_exhausted_needs_both_at_most_one() {
    assert!(counters_exhausted(1, 1));
    assert!(counters_exhausted(0, -5));
    assert!(!counters_exhausted(2, 1));
    assert!(!counters_exhausted(1, 2));
    assert!(!counters_exhausted(i32::MAX, i32::MAX));
}

#[test]
fn wait_until_reset_counts_exactly() {
    let reset = Timestamp { seconds: 100, nanos: 0 };
    let now = Timestamp { seconds: 90, nanos: 999_999_999 };
    assert_eq!(wait_until_reset(&reset, &now), Ok(Wait { seconds: 14, nanos: 1 }));
    let reset = Timestamp { seconds: 100, nanos: 500 };
    let now = Timestamp { seconds: 105, nanos: 500 };
    assert_eq!(wait_until_reset(&reset, &now), Ok(Wait { seconds: 0, nanos: 0 }));
    let now = Timestamp { seconds: 105, nanos: 501 };
    assert_eq!(wait_until_reset(&reset, &now), Err(RateLimitError::ResetElapsed));
}

#[test]
fn wait_until_reset_handles_the_ends_of_time() {
    let reset = Timestamp { seconds: i64::MAX, nanos: 0 };
    let now = Timestamp { seconds: i64::MIN, nanos: 0 };
    assert_eq!(wait_until_reset(&reset, &now), Err(RateLimitError::WaitTooLong));
    assert_eq!(wait_until_reset(&now, &reset), Err(RateLimitError::ResetElapsed));
    let now = Timestamp { seconds: 0, nanos: 0 };
    assert_eq!(
        wait_until_reset(&reset, &now),
        Ok(Wait { seconds: i64::MAX as u64 + 5, nanos: 0 })
    );
}

#[test]
fn a_leap_second_in_the_reset_counts_as_the_second_after() {
    let h = headers(Some("0"), Some("0"), Some("2016-12-31 23:59:60 +0000"));
    // 2016-12-31 23:59:59 UTC
    let now = at(1_483_228_799);
    assert_eq!(rate_limit_wait_duration(&h, &now), Ok(Wait { seconds: 6, nanos: 0 }));
}

#[test]
fn every_kind_of_unicode_white_space_around_the_reset_is_ignored() {
    let spaces = [
        '\t', '\n', '\u{0B}', '\u{0C}', '\r', ' ', '\u{85}', '\u{A0}', '\u{1680}', '\u{2000}',
        '\u{2005}', '\u{200A}', '\u{2028}', '\u{2029}', '\u{202F}', '\u{205F}', '\u{3000}',
    ];
    for space in spaces {
        let reset = format!("{}{}2024-01-01 13:00:00 +0000{}", space, space, space);
        let h = headers(Some("0"), Some("0"), Some(&reset));
        assert_eq!(rate_limit_wait_duration(&h, &at(NOON)), Ok(Wait { seconds: 3605, nanos: 0 }));
    }
}

#[test]
fn what_is_no_white_space_around_the_reset_is_not_taken_off() {
    for other in ['\u{200B}', '\u{180E}', '\u{FEFF}', '\u{1C}', '_'] {
        let reset = format!("{}2024-01-01 13:00:00 +0000", other);
        let h = headers(Some("0"), Some("0"), Some(&reset));
        assert_eq!(rate_limit_wait_duration(&h, &at(NOON)), Err(RateLimitError::InvalidReset));
        let reset = format!("2024-01-01 13:00:00 +0000{}", other);
        let h = headers(Some("0"), Some("0"), Some(&reset));
        assert_eq!(rate_limit_wait_duration(&h, &at(NOON)), Err(RateLimitError::InvalidReset));
    }
}
