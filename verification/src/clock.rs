//! Wall-clock time in milliseconds.

use std::time::{Duration, SystemTime};
use vstd::prelude::*;

verus! {

/// Nanoseconds in a millisecond.
pub const NANOS_PER_MILLI: u64 = 1_000_000;

/// A `std::time::SystemTime`, opaque: `nanos_at` says how far it is from the epoch.
#[verifier::external_type_specification]
#[verifier::external_body]
pub struct ExSystemTime(SystemTime);

/// How many nanoseconds after the Unix epoch a point in time is; `None` for one
/// before the epoch.
pub uninterp spec fn nanos_at(time: SystemTime) -> Option<nat>;

/// How many nanoseconds a duration lasts.
pub uninterp spec fn nanos_in(duration: Duration) -> nat;

/// `SystemTime::now`: the point in time that the clock shows.
///
/// Nothing is claimed of it: it is whatever the clock says.
#[verifier::external_body]
fn clock_time() -> (time: SystemTime) {
    SystemTime::now()
}

/// `SystemTime::duration_since` the Unix epoch: how long after the epoch the point
/// in time is, or `None` (the error dropped) where it is before the epoch.
#[verifier::external_body]
fn since_epoch(time: SystemTime) -> (elapsed: Option<Duration>)
    ensures
        match elapsed {
            Some(duration) => nanos_at(time) == Some(nanos_in(duration)),
            None => nanos_at(time) is None,
        },
{
    time.duration_since(std::time::UNIX_EPOCH).ok()
}

/// `Duration::as_millis`: the whole milliseconds that the duration lasts.
#[verifier::external_body]
fn whole_millis(duration: Duration) -> (millis: u128)
    ensures
        millis == nanos_in(duration) / NANOS_PER_MILLI as nat,
{
    duration.as_millis()
}

/// The timestamp for a clock reading: the low 64 bits of the milliseconds since
/// the epoch, or zero for a clock that stands before the epoch.
pub open spec fn stamp(elapsed: Option<nat>) -> int {
    match elapsed {
        Some(total) => total as int % 0x1_0000_0000_0000_0000,
        None => 0,
    }
}

/// The timestamp for a point in time.
pub open spec fn stamp_at(time: SystemTime) -> int {
    stamp(
        match nanos_at(time) {
            Some(nanos) => Some(nanos / NANOS_PER_MILLI as nat),
            None => None,
        },
    )
}

/// A timestamp counts the milliseconds since the epoch, exactly until the count no longer
/// fits, and from zero again after that.
pub proof fn stamps_count_milliseconds(total: nat)
    ensures
        total < 0x1_0000_0000_0000_0000 ==> stamp(Some(total)) == total,
        stamp(Some(total + 0x1_0000_0000_0000_0000)) == stamp(Some(total)),
        stamp(None) == 0,
{
}

/// The timestamp for a point in time is the number of whole milliseconds, of a million
/// nanoseconds each, that lie between the epoch and it.
pub proof fn stamps_are_whole_milliseconds(time: SystemTime, ms: nat)
    requires
        nanos_at(time) matches Some(nanos) && ms * 1_000_000 <= nanos < (ms + 1) * 1_000_000,
        ms < 0x1_0000_0000_0000_0000,
    ensures
        stamp_at(time) == ms,
{
}

/// The timestamp for a clock reading: the low 64 bits of the milliseconds since
/// the epoch, or zero for a clock that stands before the epoch.
pub fn epoch_millis(elapsed: Option<u128>) -> (ms: u64)
    ensures
        ms as int == stamp(
            match elapsed {
                Some(total) => Some(total as nat),
                None => None,
            },
        ),
{
    match elapsed {
        Some(total) => {
            let ms: u64 = #[verifier::truncate] (total as u64);
            assert(ms == total % 0x1_0000_0000_0000_0000) by (bit_vector)
                requires
                    ms == total as u64,
            ;
            ms
        },
        None => 0,
    }
}

/// Milliseconds since the Unix epoch: the timestamp for a point in time that the
/// clock shows.
///
/// Which point in time that is, no contract fixes.
pub fn now_ms() -> (ms: u64)
    ensures
        exists|time: SystemTime| ms as int == #[trigger] stamp_at(time),
{
    let time: SystemTime = clock_time();
    let elapsed: Option<u128> = match since_epoch(time) {
        Some(duration) => Some(whole_millis(duration)),
        None => None,
    };
    let ms: u64 = epoch_millis(elapsed);
    assert(ms as int == stamp_at(time));
    ms
}

} // verus!
