//! The time of day, and how a point in time is written.

use std::time::SystemTime;
use time::format_description::well_known::Rfc3339;
use time::OffsetDateTime;
use vstd::prelude::*;
use crate::numbers::{fmt_i64, int_text};
use crate::strings::text_opt;

verus! {

/// `SystemTime::now` of std, as whole seconds since the start of 1970;
/// `None` if the clock stands before that. Nothing is known of the number.
#[verifier::external_body]
pub(crate) fn system_now() -> (r: Option<i64>) {
    SystemTime::now().duration_since(SystemTime::UNIX_EPOCH).ok().map(|d| d.as_secs() as i64)
}

/// `OffsetDateTime::now_utc` of the time crate, as its Unix timestamp.
/// Nothing is known of the number.
#[verifier::external_body]
pub(crate) fn utc_now() -> (r: i64) {
    OffsetDateTime::now_utc().unix_timestamp()
}

/// The point in time `secs` seconds after the start of 1970, written in
/// UTC as RFC 3339 has it; `None` for a point in time that the time crate
/// cannot hold or cannot write so.
pub uninterp spec fn rfc3339_of(secs: int) -> Option<Seq<char>>;

/// `OffsetDateTime::from_unix_timestamp` and `OffsetDateTime::format` of
/// the time crate, with the format `Rfc3339`.
#[verifier::external_body]
fn rfc3339(secs: i64) -> (r: Option<String>)
    ensures
        text_opt(r) == rfc3339_of(secs as int),
{
    match OffsetDateTime::from_unix_timestamp(secs) {
        Ok(t) => t.format(&Rfc3339).ok(),
        Err(_) => None,
    }
}

/// How a point in time is shown: as it was written, or as the bare number
/// of seconds if it could not be written.
pub open spec fn shown_time(written: Option<Seq<char>>, secs: int) -> Seq<char> {
    match written {
        Some(s) => s,
        None => int_text(secs),
    }
}

/// Shows a point in time for which `written` is what the calendar gave.
pub fn fmt_ts_from(written: Option<String>, secs: i64) -> (r: String)
    ensures
        r@ == shown_time(text_opt(written), secs as int),
{
    match written {
        Some(s) => s,
        None => fmt_i64(secs),
    }
}

/// Shows the point in time `secs` seconds after the start of 1970: in UTC
/// as RFC 3339 has it, or as the bare number where that cannot be done.
pub fn fmt_ts(secs: i64) -> (r: String)
    ensures
        r@ == shown_time(rfc3339_of(secs as int), secs as int),
{
    fmt_ts_from(rfc3339(secs), secs)
}

} // verus!
