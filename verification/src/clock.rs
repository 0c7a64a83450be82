//! The clock, and how long ago an instant was, in words.

use vstd::prelude::*;
use millisecond::relative::formatter::RelativeFormatter;
use crate::number::{digits_of, parse_i64, parse_i64_spec};
use crate::text::chars_of;

verus! {

/// The first instant of chrono's calendar, in milliseconds since the Unix
/// epoch: the start of the year 262144 BCE.
pub const MIN_TIMESTAMP_MILLIS: i64 = -8_334_601_228_800_000;

/// The last instant of chrono's calendar, in milliseconds since the Unix
/// epoch: the last millisecond of the year 262142 CE.
pub const MAX_TIMESTAMP_MILLIS: i64 = 8_210_266_876_799_999;

/// Whether `chrono` can represent the instant that lies `millis`
/// milliseconds after the Unix epoch: whether it lies within the calendar.
pub open spec fn timestamp_in_range(millis: i64) -> bool {
    MIN_TIMESTAMP_MILLIS <= millis <= MAX_TIMESTAMP_MILLIS
}

/// How a count of units is told: `1` has a phrase of its own, a larger
/// count stands before or within the plural.
pub open spec fn counted(
    count: nat,
    single: Seq<char>,
    before: Seq<char>,
    after: Seq<char>,
) -> Seq<char> {
    if count == 1 {
        single
    } else {
        before + digits_of(count) + after
    }
}

/// How a duration of `secs` whole seconds is told: in the largest of years
/// of 365 days, months of 30 days, days, hours and minutes of which it holds
/// at least one, or as less than a minute.
pub open spec fn relative_label(secs: nat) -> Seq<char> {
    if secs / 31_536_000 > 0 {
        counted(secs / 31_536_000, "about a year"@, ""@, " years"@)
    } else if secs / 2_592_000 > 0 {
        counted(secs / 2_592_000, "about a month"@, ""@, " months"@)
    } else if secs / 86_400 > 0 {
        counted(secs / 86_400, "a day"@, ""@, " days"@)
    } else if secs / 3_600 > 0 {
        counted(secs / 3_600, "about an hour"@, "about "@, " hours"@)
    } else if secs / 60 > 0 {
        counted(secs / 60, "about a minute"@, ""@, " minutes"@)
    } else {
        "less than a minute"@
    }
}

/// How the `millisecond` crate tells a duration of `millis` milliseconds as
/// a time in the past: the label of its whole seconds, and ` ago`.
pub open spec fn relative_phrase(millis: u64) -> Seq<char> {
    relative_label((millis / 1000) as nat) + " ago"@
}

/// Reads the system clock and has `chrono` turn the reading into a
/// `DateTime<Utc>`, of which it takes `timestamp_millis`: the milliseconds
/// since the Unix epoch. Nothing is promised of a clock's reading; one from
/// before 1970 is a negative count.
#[verifier::external_body]
pub(crate) fn now_millis() -> (millis: i64) {
    chrono::DateTime::<chrono::Utc>::from(std::time::SystemTime::now()).timestamp_millis()
}

/// Calls `chrono::DateTime::from_timestamp_millis` and tells whether it
/// returned an instant, which it does for the instants of its calendar.
#[verifier::external_body]
pub(crate) fn is_timestamp(millis: i64) -> (b: bool)
    ensures
        b == timestamp_in_range(millis),
{
    chrono::DateTime::<chrono::Utc>::from_timestamp_millis(millis).is_some()
}

/// Calls `relative` of the `millisecond` crate on a duration of `millis`
/// milliseconds. It tells the whole seconds of the duration in one of
/// eleven forms and appends ` ago`.
#[verifier::external_body]
pub(crate) fn relative(millis: u64) -> (out: String)
    ensures
        out@ == relative_phrase(millis),
{
    core::time::Duration::from_millis(millis).relative()
}

/// The milliseconds from `then` to `now`, counted modulo 2^64: an instant
/// in the future gives a very long time.
pub open spec fn elapsed_millis(now: i64, then: i64) -> u64 {
    if now >= then {
        (now - then) as u64
    } else {
        (now - then + 0x1_0000_0000_0000_0000) as u64
    }
}

/// The instant that an identifier names: a time in milliseconds since the
/// Unix epoch, written as a decimal integer, within the calendar.
pub open spec fn instant_of(id: Seq<char>) -> Option<i64> {
    match parse_i64_spec(id) {
        Some(then) => if timestamp_in_range(then) {
            Some(then)
        } else {
            None
        },
        None => None,
    }
}

/// How long before `now` the payload with identifier `id` was received, in
/// words. An identifier that names no instant is reported as invalid.
pub open spec fn time_label(id: Seq<char>, now: i64) -> Seq<char> {
    match instant_of(id) {
        Some(then) => relative_phrase(elapsed_millis(now, then)),
        None => "Invalid timestamp"@,
    }
}

/// Reads the instant that an identifier names.
pub fn read_instant(id: &str) -> (out: Option<i64>)
    ensures
        out == instant_of(id@),
{
    let digits = chars_of(id);
    match parse_i64(digits.as_slice()) {
        Some(then) => {
            if is_timestamp(then) {
                Some(then)
            } else {
                None
            }
        },
        None => None,
    }
}

/// Tells how long before `now` the instant `then` was.
pub fn time_since(then: i64, now: i64) -> (out: String)
    ensures
        out@ == relative_phrase(elapsed_millis(now, then)),
{
    let diff: i128 = now as i128 - then as i128;
    let elapsed: u64 = if diff >= 0 {
        diff as u64
    } else {
        (diff + 0x1_0000_0000_0000_0000) as u64
    };
    relative(elapsed)
}

/// Tells how long before `now` the payload with identifier `id` was
/// received.
pub fn human_readable_time_at(id: &str, now: i64) -> (out: String)
    ensures
        out@ == time_label(id@, now),
{
    match read_instant(id) {
        Some(then) => time_since(then, now),
        None => String::from_str("Invalid timestamp"),
    }
}

/// Converts a timestamp identifier into a human-readable relative time, such
/// as "5 minutes ago", as seen from the current time. The clock is read only
/// for an identifier that names an instant.
pub fn human_readable_time(id: &str) -> (out: String)
    ensures
        instant_of(id@) is None ==> out@ == "Invalid timestamp"@,
        exists|now: i64| out@ == #[trigger] time_label(id@, now),
{
    match read_instant(id) {
        Some(then) => {
            let now = now_millis();
            let out = time_since(then, now);
            assert(out@ == time_label(id@, now));
            out
        },
        None => {
            let out = String::from_str("Invalid timestamp");
            assert(out@ == time_label(id@, 0));
            out
        },
    }
}

} // verus!
