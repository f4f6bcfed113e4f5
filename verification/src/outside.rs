use chrono::Datelike;
use vstd::prelude::*;

verus! {

/// What parsing an RFC 3339 datetime out of a text yields: seconds since the
/// Unix epoch and subsecond nanoseconds, or nothing when the text is not a
/// well-formed datetime. The result depends on the characters alone.
pub uninterp spec fn spec_timestamp_of_text(s: Seq<char>) -> Option<(i64, u32)>;

/// What parsing a calendar date out of a datetime text yields: days since the
/// common era, or nothing. The result depends on the characters alone.
pub uninterp spec fn spec_date_of_text(s: Seq<char>) -> Option<i32>;

/// What parsing a UUID out of a text, in any of its accepted textual
/// forms, yields: the 128-bit value, or nothing. The result depends on the
/// characters alone.
pub uninterp spec fn spec_uuid_of_text(s: Seq<char>) -> Option<u128>;

/// Relies on chrono's `NaiveDateTime::parse_from_str` with the RFC 3339
/// format `%+`, a pure function of the text: on success the parsed moment is
/// handed back as Unix seconds plus subsecond nanoseconds via
/// `DateTime::timestamp` and `DateTime::timestamp_subsec_nanos`.
#[verifier::external_body]
pub fn parse_timestamp_text(s: &str) -> (r: Option<(i64, u32)>)
    ensures
        r == spec_timestamp_of_text(s@),
{
    match chrono::NaiveDateTime::parse_from_str(s, "%+") {
        Ok(dt) => {
            let utc = dt.and_utc();
            Some((utc.timestamp(), utc.timestamp_subsec_nanos()))
        },
        Err(_) => None,
    }
}

/// Relies on chrono's `NaiveDate::parse_from_str` with the RFC 3339-shaped
/// format `%Y-%m-%dT%H:%M:%S%.f%:z`, a pure function of the text: the date
/// part of a full datetime text, handed back as days since the common era via
/// `Datelike::num_days_from_ce`.
#[verifier::external_body]
pub fn parse_date_text(s: &str) -> (r: Option<i32>)
    ensures
        r == spec_date_of_text(s@),
{
    match chrono::NaiveDate::parse_from_str(s, "%Y-%m-%dT%H:%M:%S%.f%:z") {
        Ok(d) => Some(d.num_days_from_ce()),
        Err(_) => None,
    }
}

/// Relies on uuid's `Uuid::parse_str`, a pure function of the text: on
/// success the 128-bit value is handed back via `Uuid::as_u128`.
#[verifier::external_body]
pub fn parse_uuid_text(s: &str) -> (r: Option<u128>)
    ensures
        r == spec_uuid_of_text(s@),
{
    match uuid::Uuid::parse_str(s) {
        Ok(u) => Some(u.as_u128()),
        Err(_) => None,
    }
}

} // verus!
