//! Wall-clock access. What the clock returns depends on the machine
//! and the moment, so these functions promise nothing about the time
//! values they hand back — only that a failure names the time source —
//! and every caller states what holds whatever came back. None of them
//! panics, whatever the clock reads.

use vstd::prelude::*;

use crate::types::StoreError;

verus! {

/// Relies on `std::time::SystemTime::now` and `duration_since`: seconds
/// since the Unix epoch, or a `TimeSource` error when the system clock
/// reads before the epoch.
#[verifier::external_body]
pub(crate) fn unix_now() -> (r: Result<u64, StoreError>)
    ensures
        r matches Err(e) ==> e is TimeSource,
{
    match std::time::SystemTime::now().duration_since(std::time::UNIX_EPOCH) {
        Ok(d) => Ok(d.as_secs()),
        Err(_) => Err(
            StoreError::TimeSource {
                reason: "system time reads before the Unix epoch".to_owned(),
            },
        ),
    }
}

/// Relies on `chrono::DateTime::from_timestamp` and
/// `DateTime::format`: renders the given epoch second as a UTC
/// datetime with its offset, for the human-readable check-in field, or
/// a `TimeSource` error when the second lies outside chrono's range.
/// Neither call panics: the conversion is checked, and the format
/// string is valid for a UTC datetime.
#[verifier::external_body]
fn format_epoch_secs(secs: u64) -> (r: Result<String, StoreError>)
    ensures
        r matches Err(e) ==> e is TimeSource,
{
    i64::try_from(secs)
        .ok()
        .and_then(|s| chrono::DateTime::from_timestamp(s, 0))
        .map(|t| t.format("%Y-%m-%d %H:%M:%S%:z").to_string())
        .ok_or(
            StoreError::TimeSource {
                reason: "system time is outside the representable range".to_owned(),
            },
        )
}

/// The current UTC time, rendered with its offset, or a `TimeSource`
/// error when the clock cannot be read or lies outside the
/// representable range. Never panics, whatever the clock reads.
pub(crate) fn formatted_now() -> (r: Result<String, StoreError>)
    ensures
        r matches Err(e) ==> e is TimeSource,
{
    match unix_now() {
        Ok(t) => format_epoch_secs(t),
        Err(e) => Err(e),
    }
}

} // verus!
