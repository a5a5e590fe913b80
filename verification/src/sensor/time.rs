//! Rendering of the microsecond timestamps carried by sensor packets.
use vstd::prelude::*;
use crate::arith::{trunc_div, trunc_rem};

verus! {

/// The `strftime` pattern used for packet timestamps.
pub open spec fn time_pattern() -> Seq<char> {
    "%Y-%m-%d %H:%M:%S"@
}

/// What chrono renders for a UTC instant given as whole seconds and
/// nanoseconds since the Unix epoch in the given `strftime` pattern, or `None`
/// when chrono refuses the instant.
pub uninterp spec fn chrono_utc_format(secs: i64, nsecs: u32, pattern: Seq<char>) -> Option<
    Seq<char>,
>;

/// Calls `chrono::DateTime::from_timestamp(secs, nsecs)` and renders the
/// instant with `DateTime::format(pattern)`. Claimed: the result is the named
/// `chrono_utc_format` of the arguments, and chrono refuses every nanosecond
/// count of two billion or more (its `NaiveTime::from_num_seconds_from_midnight_opt`
/// rejects them). The calendar arithmetic itself is not stated.
#[verifier::external_body]
fn utc_format(secs: i64, nsecs: u32, pattern: &str) -> (text: Option<String>)
    requires
        pattern@ == time_pattern(),
    ensures
        match text {
            Some(t) => chrono_utc_format(secs, nsecs, pattern@) == Some(t@),
            None => chrono_utc_format(secs, nsecs, pattern@) is None,
        },
        nsecs >= 2_000_000_000 ==> text is None,
{
    match chrono::DateTime::from_timestamp(secs, nsecs) {
        Some(instant) => Some(instant.format(pattern).to_string()),
        None => None,
    }
}

/// Whole seconds of a microsecond timestamp.
pub open spec fn timestamp_secs(micro_ts: i64) -> i64 {
    trunc_div(micro_ts as int, 1_000_000) as i64
}

/// Nanoseconds of a microsecond timestamp, as the unsigned 32-bit value that
/// is handed to chrono (negative remainders wrap around).
pub open spec fn timestamp_nanos(micro_ts: i64) -> u32 {
    (trunc_rem(micro_ts as int, 1_000_000) * 1000) as u32
}

/// The text shown for a rendered timestamp, or the marker of an invalid one.
pub open spec fn time_text_of(rendered: Option<Seq<char>>) -> Seq<char> {
    match rendered {
        Some(t) => t,
        None => "INVALID_TIME"@,
    }
}

/// The text shown for a microsecond timestamp.
pub open spec fn time_text(micro_ts: i64) -> Seq<char> {
    time_text_of(
        chrono_utc_format(timestamp_secs(micro_ts), timestamp_nanos(micro_ts), time_pattern()),
    )
}

/// Splits a microsecond timestamp into the seconds and nanoseconds handed to chrono.
pub fn timestamp_parts(micro_ts: i64) -> (parts: (i64, u32))
    ensures
        parts.0 == timestamp_secs(micro_ts),
        parts.1 == timestamp_nanos(micro_ts),
{
    let secs = micro_ts / 1_000_000;
    let rem = micro_ts % 1_000_000;
    let nsecs = (rem * 1_000) as u32;
    (secs, nsecs)
}

/// The text shown for chrono's rendering of a timestamp: the rendering itself,
/// or `INVALID_TIME` when chrono refused the instant.
pub fn time_text_or_invalid(rendered: Option<String>) -> (text: String)
    ensures
        text@ == time_text_of(
            match rendered {
                Some(t) => Some(t@),
                None => None,
            },
        ),
{
    match rendered {
        Some(t) => t,
        None => String::from_str("INVALID_TIME"),
    }
}

/// Renders a microsecond Unix timestamp as `YYYY-MM-DD HH:MM:SS` (UTC).
/// A negative timestamp that does not fall on a whole second is always
/// rendered as `INVALID_TIME`.
pub fn format_time(micro_ts: i64) -> (text: String)
    ensures
        text@ == time_text(micro_ts),
        micro_ts < 0 && trunc_rem(micro_ts as int, 1_000_000) != 0 ==> text@ == "INVALID_TIME"@,
{
    let (secs, nsecs) = timestamp_parts(micro_ts);
    proof {
        let r = trunc_rem(micro_ts as int, 1_000_000);
        if micro_ts < 0 && r != 0 {
            let x: i64 = (r * 1000) as i64;
            assert(-999_999_000 <= x < 0);
            assert(-999_999_000 <= x < 0 ==> (x as u32) >= 2_000_000_000) by (bit_vector);
        }
    }
    let rendered = utc_format(secs, nsecs, "%Y-%m-%d %H:%M:%S");
    time_text_or_invalid(rendered)
}

} // verus!
