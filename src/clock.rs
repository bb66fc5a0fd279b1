//! Points in time, as RFC 3339 text in UTC.

use vstd::prelude::*;
use crate::record::has_no_break;

verus! {

/// The RFC 3339 text, in UTC, of the instant that `text` denotes; `None`
/// where `text` is no RFC 3339 time.
pub uninterp spec fn utc_rfc3339(text: Seq<char>) -> Option<Seq<char>>;

/// Relies on chrono's `FromStr` for `DateTime<Utc>` (an RFC 3339 time,
/// turned to UTC) and on `DateTime::to_rfc3339`: the result depends on the
/// text alone.
#[verifier::external_body]
pub(crate) fn normalize_timestamp(text: &str) -> (r: Option<String>)
    ensures
        match r {
            Some(s) => utc_rfc3339(text@) == Some(s@),
            None => utc_rfc3339(text@) is None,
        },
{
    text.parse::<chrono::DateTime<chrono::Utc>>().ok().map(|t| t.to_rfc3339())
}

/// Relies on `SystemTime::now`, on chrono's `From<SystemTime>` for
/// `DateTime<Utc>` (which also takes a clock set before 1970) and on
/// `DateTime::to_rfc3339`: the present instant as RFC 3339 text, made of
/// digits, signs, `T`, `:` and `.` only, so with no line break.
#[verifier::external_body]
pub(crate) fn now_timestamp() -> (r: String)
    ensures
        has_no_break(r@),
{
    chrono::DateTime::<chrono::Utc>::from(std::time::SystemTime::now()).to_rfc3339()
}

} // verus!
