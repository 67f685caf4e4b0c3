//! Points in time as text.

use crate::decimal;
use vstd::prelude::*;

verus! {

/// The text that `chrono` has for a number of seconds and nanoseconds since 1970, in UTC:
/// `chrono::DateTime::from_timestamp`, then `to_rfc3339`. Nothing where the time lies
/// outside the range of `chrono`.
pub uninterp spec fn rfc3339_at(secs: i64, nanos: u32) -> Option<Seq<char>>;

/// `chrono::DateTime::from_timestamp`, and `to_rfc3339` on what it gives. The result is a
/// function of the two numbers.
#[verifier::external_body]
fn rfc3339(secs: i64, nanos: u32) -> (r: Option<String>)
    ensures
        r is Some == rfc3339_at(secs, nanos) is Some,
        r is Some ==> r->0@ == rfc3339_at(secs, nanos)->0,
{
    chrono::DateTime::from_timestamp(secs, nanos).map(|t| t.to_rfc3339())
}

/// A time in milliseconds as text, given what `chrono` has for it: the beginning of 1970
/// for times before it, and the number itself where `chrono` has nothing.
pub open spec fn iso_text(ts_ms: i64, formatted: Option<Seq<char>>) -> Seq<char> {
    if ts_ms <= 0 {
        "1970-01-01T00:00:00Z"@
    } else {
        match formatted {
            Some(s) => s,
            None => decimal::signed_numeral(ts_ms as int),
        }
    }
}

/// A time in milliseconds as text, given what `chrono` has for it.
pub fn iso_or_number(ts_ms: i64, formatted: Option<String>) -> (r: String)
    ensures
        r@ == iso_text(
            ts_ms,
            match formatted {
                Some(s) => Some(s@),
                None => None,
            },
        ),
{
    if ts_ms <= 0 {
        "1970-01-01T00:00:00Z".to_owned()
    } else {
        match formatted {
            Some(s) => s,
            None => decimal::format_i64(ts_ms),
        }
    }
}

/// A time in milliseconds as text.
pub open spec fn iso_of(ts_ms: i64) -> Seq<char> {
    iso_text(ts_ms, rfc3339_at((ts_ms / 1000) as i64, ((ts_ms % 1000) * 1_000_000) as u32))
}

/// A time in milliseconds as text.
pub fn ms_to_iso(ts_ms: i64) -> (r: String)
    ensures
        r@ == iso_of(ts_ms),
{
    if ts_ms <= 0 {
        return iso_or_number(ts_ms, None);
    }
    let secs: i64 = ts_ms / 1000;
    let nanos: u32 = (ts_ms % 1000) as u32 * 1_000_000;
    iso_or_number(ts_ms, rfc3339(secs, nanos))
}

/// The seconds of a number of milliseconds, towards zero.
pub open spec fn secs_part(ts_ms: int) -> int {
    if ts_ms >= 0 {
        ts_ms / 1000
    } else {
        -((-ts_ms) / 1000)
    }
}

/// What is left of a number of milliseconds beside its seconds, as nanoseconds; what is
/// left of a negative number becomes a number beyond every nanosecond.
pub open spec fn nanos_part(ts_ms: int) -> u32 {
    let rest = if ts_ms >= 0 {
        ts_ms % 1000
    } else {
        -((-ts_ms) % 1000)
    };
    ((rest * 1_000_000) as i64) as u32
}

/// A time in milliseconds as text: what `chrono` has for it, or the number itself.
pub open spec fn iso8601_text(ts_ms: i64, formatted: Option<Seq<char>>) -> Seq<char> {
    match formatted {
        Some(s) => s,
        None => decimal::signed_numeral(ts_ms as int),
    }
}

pub open spec fn iso8601_of(ts_ms: i64) -> Seq<char> {
    iso8601_text(ts_ms, rfc3339_at(secs_part(ts_ms as int) as i64, nanos_part(ts_ms as int)))
}

/// A time in milliseconds as text: what `chrono` has for it, or the number itself.
pub fn formatted_or_number(ts_ms: i64, formatted: Option<String>) -> (r: String)
    ensures
        r@ == iso8601_text(
            ts_ms,
            match formatted {
                Some(s) => Some(s@),
                None => None,
            },
        ),
{
    match formatted {
        Some(s) => s,
        None => decimal::format_i64(ts_ms),
    }
}

/// A time in milliseconds as text.
pub fn ms_to_iso8601(ts_ms: i64) -> (r: String)
    ensures
        r@ == iso8601_of(ts_ms),
{
    let ms: i128 = ts_ms as i128;
    let secs: i64 = if ms >= 0 {
        (ms / 1000) as i64
    } else {
        (-((-ms) / 1000)) as i64
    };
    let rest: i64 = if ms >= 0 {
        (ms % 1000) as i64
    } else {
        (-((-ms) % 1000)) as i64
    };
    let nanos: i64 = rest * 1_000_000;
    formatted_or_number(ts_ms, rfc3339(secs, nanos as u32))
}

} // verus!
