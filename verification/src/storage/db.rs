//! Times of the catalog, and where the catalog is kept.

use std::time::{Duration, SystemTime, UNIX_EPOCH};
use vstd::prelude::*;
use crate::config::{Database, Location};
use crate::storage::{resolve_location, resolved, usb_not_found};
use crate::storage::error::StorageError;
use crate::text::{signed_decimal, signed_decimal_string};

verus! {

/// A time as the catalog records it: seconds since the Unix epoch.
pub type SecondsSinceUnix = i64;

/// `std::time::SystemTime`: a point in time of the system clock.
#[verifier::external_type_specification]
#[verifier::external_body]
pub struct ExSystemTime(SystemTime);

/// Calls `SystemTime::duration_since` with `UNIX_EPOCH`: the time that has
/// passed since the epoch, and `None` for a time before the epoch.
#[verifier::external_body]
fn since_epoch(time: &SystemTime) -> (passed: Option<Duration>) {
    time.duration_since(UNIX_EPOCH).ok()
}

/// `Duration::as_secs` returns the number of whole seconds of the
/// duration.
pub assume_specification[ Duration::as_secs ](duration: &Duration) -> (secs: u64);

/// What becomes of the seconds that have passed since the epoch: a time of
/// the catalog, if there are any and they fit.
pub open spec fn timestamp_of(passed: Option<u64>) -> Result<SecondsSinceUnix, Seq<char>> {
    match passed {
        Some(secs) => if secs <= i64::MAX {
            Ok(secs as i64)
        } else {
            Err("failed to get scan timestamp in seconds"@)
        },
        None => Err("failed to get unix timestamp"@),
    }
}

/// The time of the catalog for a number of seconds since the epoch; `None`
/// stands for a time before the epoch, which has none.
pub fn seconds_to_timestamp(passed: Option<u64>) -> (r: Result<SecondsSinceUnix, StorageError>)
    ensures
        match timestamp_of(passed) {
            Ok(t) => r == Ok::<SecondsSinceUnix, StorageError>(t),
            Err(text) => r matches Err(StorageError::Internal(msg)) && msg@ == text,
        },
{
    match passed {
        Some(secs) => {
            if secs <= i64::MAX as u64 {
                Ok(secs as i64)
            } else {
                Err(
                    StorageError::Internal(
                        String::from_str("failed to get scan timestamp in seconds"),
                    ),
                )
            }
        },
        None => Err(StorageError::Internal(String::from_str("failed to get unix timestamp"))),
    }
}

/// Converts a time of the system clock to the number of seconds since the
/// Unix epoch. A time before the epoch has none.
pub fn system_time_to_i64(time: SystemTime) -> (r: Result<SecondsSinceUnix, StorageError>)
    ensures
        match r {
            Ok(t) => t >= 0,
            Err(e) => e is Internal,
        },
{
    match since_epoch(&time) {
        Some(passed) => seconds_to_timestamp(Some(passed.as_secs())),
        None => seconds_to_timestamp(None),
    }
}

/// Whether chrono's calendar reaches the time that many seconds after the
/// Unix epoch: whether `chrono::DateTime::from_timestamp_secs` returns
/// `Some` for the number.
pub uninterp spec fn chrono_has_time(since_unix: i64) -> bool;

/// Calls `chrono::DateTime::from_timestamp_secs`, which gives the time in
/// UTC that many seconds after the Unix epoch, or `None` for a number
/// outside the years that chrono can hold; then converts the time to the
/// time zone of the machine with `DateTime::<Local>::from`, and writes it
/// out with `to_string`. Whether there is a text depends on the number
/// alone; the text depends on the time zone of the machine, and nothing is
/// said of it.
#[verifier::external_body]
fn local_time_text(since_unix: i64) -> (text: Option<String>)
    ensures
        text is Some <==> chrono_has_time(since_unix),
{
    match chrono::DateTime::from_timestamp_secs(since_unix) {
        Some(utc) => Some(chrono::DateTime::<chrono::Local>::from(utc).to_string()),
        None => None,
    }
}

/// The message for a number of seconds that is no time.
pub open spec fn no_such_time(since_unix: i64) -> Seq<char> {
    "failed to convert "@ + signed_decimal(since_unix as int) + " s timestamp to datetime"@
}

/// The date and time as text, where the calendar has one for the number of
/// seconds, and the failure where it has none.
pub fn time_text_or_failure(since_unix: i64, text: Option<String>) -> (r: Result<String, StorageError>)
    ensures
        match text {
            Some(t) => r matches Ok(shown) && shown == t,
            None => r matches Err(StorageError::Internal(msg)) && msg@ == no_such_time(since_unix),
        },
{
    match text {
        Some(t) => Ok(t),
        None => Err(
            StorageError::Internal(
                String::from_str("failed to convert ").concat(
                    signed_decimal_string(since_unix).as_str(),
                ).concat(" s timestamp to datetime"),
            ),
        ),
    }
}

/// The local date and time at a time of the catalog, as text. There is one
/// exactly for the numbers of seconds that chrono's calendar reaches; for
/// any other number the failure says which number it was.
pub fn i64_seconds_to_local_time(since_unix: i64) -> (r: Result<String, StorageError>)
    ensures
        r is Ok <==> chrono_has_time(since_unix),
        r matches Err(e) ==> e matches StorageError::Internal(msg) && msg@ == no_such_time(
            since_unix,
        ),
{
    time_text_or_failure(since_unix, local_time_text(since_unix))
}

/// The path of the file that keeps the catalog, given the table of mounts;
/// `None` for a catalog that is kept in memory.
pub fn resolve_database_path(db: &Database, mounts: &str) -> (r: Result<Option<String>, StorageError>)
    ensures
        match *db {
            Database::InMemory => r matches Ok(None),
            Database::OnDisk { location } => match resolved(location, mounts@) {
                Some(path) => r matches Ok(Some(found)) && found@ == path,
                None => r matches Err(StorageError::Internal(msg)) && location matches Location::Usb {
                    label,
                    ..
                } && msg@ == usb_not_found(label@),
            },
        },
{
    match db {
        Database::InMemory => Ok(None),
        Database::OnDisk { location } => match resolve_location(location, mounts) {
            Ok(path) => Ok(Some(path)),
            Err(e) => Err(e),
        },
    }
}

} // verus!
