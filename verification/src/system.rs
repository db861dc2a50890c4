//! The few items of the standard library that this crate uses and that the
//! verifier has no specification for. Nothing is proved of them: each
//! contract below is taken from the documentation of the item it names.

use std::time::Duration;
use std::time::Instant;
use std::time::SystemTime;
use vstd::prelude::*;

verus! {

/// `std::io::Error`, carried through without being looked into.
#[verifier::external_type_specification]
#[verifier::external_body]
pub struct ExIoError(std::io::Error);

/// `std::time::Instant`, a reading of the monotonic clock.
#[verifier::external_type_specification]
#[verifier::external_body]
pub struct ExInstant(Instant);

/// `std::time::SystemTime`, a reading of the wall clock.
#[verifier::external_type_specification]
#[verifier::external_body]
pub struct ExSystemTime(SystemTime);

/// `Instant::now` reads the monotonic clock; nothing is known of the value.
pub assume_specification[ Instant::now ]() -> (t: Instant)
;

/// `SystemTime::now` reads the wall clock; nothing is known of the value.
pub assume_specification[ SystemTime::now ]() -> (t: SystemTime)
;

/// `Instant::saturating_duration_since` gives the time from `earlier` to
/// `later`, or zero where `earlier` is the later one. It never panics.
pub assume_specification[ Instant::saturating_duration_since ](
    later: &Instant,
    earlier: Instant,
) -> (d: Duration)
;

/// `Duration::as_nanos` gives the whole duration in nanoseconds.
pub assume_specification[ Duration::as_nanos ](d: &Duration) -> (n: u128)
;

/// A wall clock reading written out for the metadata of a snapshot, in the
/// form that the standard library gives to such readings when debugging.
/// Nothing is known of the text.
#[verifier::external_body]
pub(crate) fn describe_time(t: &SystemTime) -> (text: String) {
    format!("{t:?}")
}

/// The text of an I/O error, as the standard library displays it. Nothing
/// is known of the text.
#[verifier::external_body]
pub(crate) fn describe_io_error(e: &std::io::Error) -> (text: String) {
    format!("{e}")
}

/// A count of nanoseconds in 64 bits: the count itself, or `u64::MAX`
/// where it is larger.
pub fn capped_nanos(nanos: u128) -> (ns: u64)
    ensures
        ns == if nanos > u64::MAX {
            u64::MAX
        } else {
            nanos as u64
        },
{
    if nanos > u64::MAX as u128 {
        u64::MAX
    } else {
        nanos as u64
    }
}

/// Nanoseconds from `origin` to now on the monotonic clock, capped at
/// `u64::MAX`. The reading is the clock's: nothing is known of it.
pub fn nanos_since(origin: &Instant) -> (ns: u64) {
    let now = Instant::now();
    let elapsed = now.saturating_duration_since(*origin);
    capped_nanos(elapsed.as_nanos())
}

} // verus!
