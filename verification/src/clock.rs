//! The system clock.
use vstd::prelude::*;

verus! {

/// Seconds since the Unix epoch by the system clock
/// (`std::time::SystemTime::now`), or 0 when the clock reads earlier.
///
/// The time is not a function of anything the library holds: the contract
/// states nothing of it.
#[verifier::external_body]
pub(crate) fn now_unix_secs() -> (secs: u64) {
    match std::time::SystemTime::now().duration_since(std::time::UNIX_EPOCH) {
        Ok(elapsed) => elapsed.as_secs(),
        Err(_) => 0,
    }
}

/// Nanoseconds since the Unix epoch by the system clock
/// (`std::time::SystemTime::now`), cut to the low 64 bits, or 0 when the
/// clock reads earlier.
///
/// The time is not a function of anything the library holds: the contract
/// states nothing of it.
#[verifier::external_body]
pub(crate) fn now_unix_nanos() -> (nanos: u64) {
    match std::time::SystemTime::now().duration_since(std::time::UNIX_EPOCH) {
        Ok(elapsed) => elapsed.as_nanos() as u64,
        Err(_) => 0,
    }
}

/// The current UTC time as RFC 3339 text: the system clock
/// (`std::time::SystemTime::now`) read as seconds and nanoseconds since the
/// Unix epoch, made a date by `chrono::DateTime::from_timestamp` and written
/// by `to_rfc3339`; `None` when the clock reads before the epoch or the
/// date is out of `chrono`'s range.
///
/// The time is not a function of anything the library holds: the contract
/// states nothing of it.
#[verifier::external_body]
pub(crate) fn now_rfc3339() -> (text: Option<String>) {
    match std::time::SystemTime::now().duration_since(std::time::UNIX_EPOCH) {
        Ok(elapsed) => {
            match chrono::DateTime::<chrono::Utc>::from_timestamp(
                elapsed.as_secs() as i64,
                elapsed.subsec_nanos(),
            ) {
                Some(at) => Some(at.to_rfc3339()),
                None => None,
            }
        },
        Err(_) => None,
    }
}

} // verus!
