//! Reading the system clock.
//!
//! The clock is the one source of values here that nothing can predict, so
//! the functions that read it promise nothing about the value; the
//! arithmetic on what they return is verified where it is used.

use std::time::{Duration, SystemTime};
use vstd::prelude::*;

verus! {

#[verifier::external_type_specification]
#[verifier::external_body]
pub struct ExSystemTime(SystemTime);

/// The time elapsed from the Unix epoch to `t`, as
/// `SystemTime::duration_since(UNIX_EPOCH)` computes it, or `None` when `t`
/// is earlier than the epoch.
pub uninterp spec fn epoch_offset(t: SystemTime) -> Option<Duration>;

/// The number of whole nanoseconds in a `Duration`, as `Duration::as_nanos`
/// computes it.
pub uninterp spec fn duration_nanos(d: Duration) -> u128;

/// The number of whole seconds in a `Duration`, as `Duration::as_secs`
/// computes it.
pub uninterp spec fn duration_secs(d: Duration) -> u64;

/// Calls `SystemTime::now()`. Nothing is claimed about the value: it is
/// whatever the clock says at the moment of the call.
#[verifier::external_body]
pub(crate) fn system_now() -> (r: SystemTime) {
    SystemTime::now()
}

/// Calls `SystemTime::duration_since(UNIX_EPOCH)`, the error (a time before
/// the epoch) becoming `None`. The result is tied to `t` through the name
/// `epoch_offset`.
#[verifier::external_body]
pub(crate) fn since_epoch(t: &SystemTime) -> (r: Option<Duration>)
    ensures
        r == epoch_offset(*t),
{
    t.duration_since(std::time::UNIX_EPOCH).ok()
}

/// Calls `Duration::as_nanos`, the total number of nanoseconds of the
/// duration: the result is named by `duration_nanos`, and its whole seconds
/// are those that `Duration::as_secs` gives.
#[verifier::external_body]
pub(crate) fn nanos_of(d: &Duration) -> (r: u128)
    ensures
        r == duration_nanos(*d),
        r / 1_000_000_000 == duration_secs(*d),
{
    d.as_nanos()
}

/// Calls `Duration::as_secs`. The contract only ties the result to the
/// duration through the name `duration_secs`.
#[verifier::external_body]
pub(crate) fn secs_of(d: &Duration) -> (r: u64)
    ensures
        r == duration_secs(*d),
{
    d.as_secs()
}

/// Nanoseconds since the epoch as the system clock reads them, or `None` when
/// the clock reads before the epoch.
pub fn unix_nanos() -> (r: Option<u128>)
    ensures
        exists|t: SystemTime|
            r == match #[trigger] epoch_offset(t) {
                Some(d) => Some(duration_nanos(d)),
                None => None,
            },
{
    let now = system_now();
    let offset = since_epoch(&now);
    match offset {
        Some(d) => Some(nanos_of(&d)),
        None => None,
    }
}

/// Seconds since the epoch as the system clock reads them, or `None` when the
/// clock reads before the epoch.
pub fn unix_secs() -> (r: Option<u64>)
    ensures
        exists|t: SystemTime|
            r == match #[trigger] epoch_offset(t) {
                Some(d) => Some(duration_secs(d)),
                None => None,
            },
{
    let now = system_now();
    let offset = since_epoch(&now);
    match offset {
        Some(d) => Some(secs_of(&d)),
        None => None,
    }
}

} // verus!
