//! What the library takes from its surroundings: the clock and fresh
//! identifiers.

use vstd::prelude::*;

verus! {

/// Trusted: calls `chrono::Utc::now` and reads the result with
/// `DateTime::timestamp`, the number of seconds since the Unix epoch.
///
/// Nothing is claimed of the value: two calls may differ, and the clock may
/// run backwards. `Utc::now` panics when the system clock stands before the
/// epoch.
#[verifier::external_body]
pub(crate) fn unix_time() -> (seconds: i64) {
    chrono::Utc::now().timestamp()
}

/// Trusted: calls `uuid::Uuid::new_v4` and formats the result with `Display`.
///
/// Claims only the length: `uuid` writes an identifier in its hyphenated
/// form, which is 36 characters long. Which identifier comes back is left
/// open, and so is whether it was handed out before. `new_v4` panics when
/// the operating system has no random bytes to give.
#[verifier::external_body]
pub(crate) fn fresh_identifier() -> (id: String)
    ensures
        id@.len() == 36,
{
    uuid::Uuid::new_v4().to_string()
}

} // verus!
