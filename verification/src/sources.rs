use vstd::prelude::*;

verus! {

/// Draws a fresh identifier: a call of `uuid::Uuid::new_v4`, written out by
/// the `Display` impl of `uuid::Uuid`. The identifier is random; the contract
/// claims only its length, the 36 characters of the hyphenated form. Where
/// the system has no random bytes to give, the call does not return.
#[verifier::external_body]
pub(crate) fn fresh_id() -> (id: String)
    ensures
        id@.len() == 36,
{
    uuid::Uuid::new_v4().to_string()
}

/// Reads the clock: a call of `chrono::Utc::now`, written out by
/// `chrono::DateTime::to_rfc3339`. The result depends on the moment of the
/// call, so nothing is claimed of it. On a machine whose clock stands
/// before the year 1970 the call does not return.
#[verifier::external_body]
pub(crate) fn now_rfc3339() -> (now: String) {
    chrono::Utc::now().to_rfc3339()
}

/// Reads the clock for the name of a backup: a call of `chrono::Utc::now`,
/// written out by `chrono::DateTime::format` as year, month, day, an
/// underscore, hour, minute and second. The result depends on the moment of
/// the call, so nothing is claimed of it. On a machine whose clock stands
/// before the year 1970 the call does not return.
#[verifier::external_body]
pub(crate) fn now_stamp() -> (stamp: String) {
    chrono::Utc::now().format("%Y%m%d_%H%M%S").to_string()
}

} // verus!
