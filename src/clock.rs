//! The time source: the current time in whole seconds since the Unix epoch.
use crate::errors::{Error, ValidationErrorCode};
use std::time::{SystemTime, SystemTimeError};
use vstd::prelude::*;

verus! {

#[verifier::external_type_specification]
#[verifier::external_body]
pub struct ExSystemTime(SystemTime);

/// Relies on std's `SystemTime::now`: it reads the machine's clock, so
/// nothing is promised of the value.
#[verifier::external_body]
fn system_time_now() -> (r: SystemTime) {
    SystemTime::now()
}

/// Relies on std's `SystemTime::duration_since` from `UNIX_EPOCH`, in whole
/// seconds: it fails when `t` lies before the epoch.
#[verifier::external_body]
fn seconds_since_epoch(t: &SystemTime) -> (r: Result<u64, SystemTimeError>) {
    t.duration_since(std::time::UNIX_EPOCH).map(|d| d.as_secs())
}

/// The current time in seconds since the Unix epoch, or a time fault when
/// the clock cannot be read.
pub fn now() -> (r: Result<u64, Error>)
    ensures
        r matches Err(e) ==> e.validation_code() == Some(ValidationErrorCode::TimeError),
{
    let t = system_time_now();
    match seconds_since_epoch(&t) {
        Ok(s) => Ok(s),
        Err(e) => Err(Error::from(e)),
    }
}

} // verus!
