//! Wrappers around outside crates. Each body only makes the outside call and
//! converts values; the contract states what the call's documentation
//! promises, and nothing more.

use vstd::prelude::*;

verus! {

/// Relies on `uuid::Uuid::new_v4` and its `Display` impl: a fresh random
/// UUID printed in the hyphenated form, which is 36 characters long. The
/// value is random, so nothing beyond its length is promised.
#[verifier::external_body]
pub fn fresh_uuid() -> (r: String)
    ensures
        r@.len() == 36,
{
    uuid::Uuid::new_v4().to_string()
}

/// Relies on `chrono::Utc::now` and `DateTime::to_rfc3339`: the current time
/// rendered as an RFC 3339 timestamp. The clock decides the value, so
/// nothing is promised about it.
#[verifier::external_body]
pub fn now_rfc3339() -> String {
    chrono::Utc::now().to_rfc3339()
}

/// Relies on `chrono::Utc::now` and `DateTime::timestamp`: the current time
/// in whole seconds since the Unix epoch. The clock decides the value.
#[verifier::external_body]
pub fn now_epoch_seconds() -> i64 {
    chrono::Utc::now().timestamp()
}

/// Relies on `chrono`: parsing an RFC 3339 timestamp via
/// `str::parse::<DateTime<Utc>>`, converting it to the machine's local time
/// zone, and rendering `%H:%M:%S`, which is exactly eight characters. The
/// machine's time zone decides the value, so no more is promised.
#[verifier::external_body]
pub fn local_hms_of_timestamp(ts: &str) -> (r: Option<String>)
    ensures
        r matches Some(h) ==> h@.len() == 8,
{
    ts.parse::<chrono::DateTime<chrono::Utc>>().ok().map(
        |t| t.with_timezone(&chrono::Local).format("%H:%M:%S").to_string(),
    )
}

} // verus!
