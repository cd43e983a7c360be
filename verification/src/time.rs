//! Timestamps and the clock.
//!
//! The library models every point in time as a count of non-leap seconds
//! since the Unix epoch (`i64`).  Reading the clock and parsing a
//! human-entered date string are delegated to the `chrono` crate through
//! trusted wrappers; everything else works on plain integers.

use vstd::prelude::*;

verus! {

/// Seconds since the Unix epoch.
pub type Timestamp = i64;

/// What `chrono` parses a date string (with a format string) into:
/// `Some` seconds-since-epoch on success, `None` on a parse failure.
/// The result depends on the two strings alone.
pub uninterp spec fn parsed_instant(s: Seq<char>, fmt: Seq<char>) -> Option<i64>;

/// Relies on `chrono::DateTime::parse_from_str`: parses a date-and-offset
/// string against a format string; the outcome is a function of the two
/// strings alone.  The instant is reduced to seconds since the epoch.
#[verifier::external_body]
pub fn parse_instant(s: &str, fmt: &str) -> (r: Option<i64>)
    ensures
        r == parsed_instant(s@, fmt@),
{
    chrono::DateTime::parse_from_str(s, fmt).ok().map(|d| d.timestamp())
}

/// Relies on `chrono::Utc::now` for the current time; nothing can be
/// promised about the value it returns.  Like every clock read through
/// `chrono`, this panics when the system clock is set before the Unix
/// epoch.
#[verifier::external_body]
pub fn now_utc() -> (r: i64) {
    chrono::Utc::now().timestamp()
}

/// `a <= b` where `None` stands for "unbounded", later than every instant.
pub open spec fn opt_time_le(a: Option<i64>, b: Option<i64>) -> bool {
    match b {
        Option::None => true,
        Option::Some(tb) => match a {
            Option::None => false,
            Option::Some(ta) => ta <= tb,
        },
    }
}

/// Exact equality on optional instants.
pub open spec fn opt_time_eq(a: Option<i64>, b: Option<i64>) -> bool {
    opt_time_le(a, b) && opt_time_le(b, a)
}

/// Executable counterpart of `opt_time_le`.
pub fn opt_time_le_exec(a: &Option<i64>, b: &Option<i64>) -> (r: bool)
    ensures
        r == opt_time_le(*a, *b),
{
    match b {
        Option::None => true,
        Option::Some(tb) => match a {
            Option::None => false,
            Option::Some(ta) => *ta <= *tb,
        },
    }
}

} // verus!
