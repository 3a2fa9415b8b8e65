//! The current time and fresh identifiers. Nothing is promised of their values.

use vstd::prelude::*;

verus! {

/// Relies on `chrono::Utc::now` and `to_rfc3339_opts` with milliseconds and `Z`.
#[verifier::external_body]
pub fn now_iso_millis() -> (r: String) {
    chrono::Utc::now().to_rfc3339_opts(chrono::SecondsFormat::Millis, true)
}

/// Relies on `chrono::Utc::now` and `timestamp`: whole seconds since the epoch.
#[verifier::external_body]
pub fn now_unix_seconds() -> (r: i64) {
    chrono::Utc::now().timestamp()
}

/// Relies on `uuid::Uuid::new_v4` in its `simple` (unhyphenated) form.
#[verifier::external_body]
pub fn new_uuid_simple() -> (r: String) {
    uuid::Uuid::new_v4().simple().to_string()
}

} // verus!
