//! The crate's trusted boundary: contracts for functions of std and of the
//! calendar library that the verifier has no specification for.

use vstd::prelude::*;

use chrono::TimeZone;

verus! {

/// Relies on std's String::push: appends the character to the end of the
/// string.
pub assume_specification[ String::push ](s: &mut String, ch: char)
    ensures
        final(s)@ == old(s)@.push(ch),
;

/// Whether a wire timestamp (milliseconds since the Unix epoch, reinterpreted
/// as a signed 64-bit count the way the codec does) denotes a valid calendar
/// instant. The exact range is decided by the calendar library (roughly
/// 262,000 years either side of the common era); the codec only needs the
/// same fixed answer for the same input, which holds because the check is a
/// pure function of the milliseconds alone.
pub uninterp spec fn timestamp_in_calendar(ms: u64) -> bool;

/// Relies on chrono's TimeZone::timestamp_millis_opt for Utc: returns a
/// single valid instant exactly when the millisecond count is in the
/// library's supported calendar range, and None otherwise.
#[verifier::external_body]
pub fn timestamp_millis_valid(ms: u64) -> (r: bool)
    ensures
        r == timestamp_in_calendar(ms),
{
    chrono::Utc.timestamp_millis_opt(ms as i64).single().is_some()
}

} // verus!
