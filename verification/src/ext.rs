//! The three outside calls the core logic needs: random bytes for
//! identifier allocation, fresh UUIDs for new rows, and the wall-clock
//! timestamp written into created/updated columns.  Each result depends on
//! chance or on the clock, so no contract pins a value; the verified
//! callers state what holds of every outcome.

use vstd::prelude::*;

verus! {

/// Relies on getrandom::getrandom to fill four bytes from the operating
/// system's random source; `None` reports its failure.  Nothing can be
/// promised of random bytes.
#[verifier::external_body]
pub(crate) fn random_bytes() -> (r: Option<[u8; 4]>)
{
    let mut buf = [0u8; 4];
    match getrandom::getrandom(&mut buf) {
        Ok(()) => Some(buf),
        Err(_) => None,
    }
}

/// Relies on uuid::Uuid::new_v4 and its hyphenated rendering: a random
/// version-4 UUID, written as 36 characters.
#[verifier::external_body]
pub(crate) fn new_uuid() -> (r: String)
    ensures
        r@.len() == 36,
{
    uuid::Uuid::new_v4().to_string()
}

/// Relies on chrono's Utc::now and DateTime::format: the current UTC time
/// rendered with millisecond precision and offset, as the store's
/// timestamp columns expect.  The result depends on the clock, so nothing
/// is promised of it.
#[verifier::external_body]
pub(crate) fn now_timestamp() -> (r: String)
{
    chrono::Utc::now().format("%Y-%m-%d %H:%M:%S%.3f %:z").to_string()
}

} // verus!
