//! Wall-clock and stopwatch readings, in nanoseconds.

use std::time::{Instant, UNIX_EPOCH};
use vstd::prelude::*;

verus! {

/// The system clock shows a moment before the Unix epoch.
#[derive(Clone, Copy, Debug, PartialEq, Eq, Structural)]
pub struct ClockBeforeEpoch;

/// A reading of the operating system's monotonic clock.
#[verifier::external_type_specification]
#[verifier::external_body]
pub struct ExInstant(Instant);

/// Calls `SystemTime::elapsed` on `UNIX_EPOCH`: the nanoseconds from the Unix
/// epoch to now, or `None` where the system clock shows an earlier moment.
/// The reading depends on the time alone, so nothing is claimed of it.
#[verifier::external_body]
fn nanos_since_epoch() -> (reading: Option<u128>) {
    match UNIX_EPOCH.elapsed() {
        Ok(elapsed) => Some(elapsed.as_nanos()),
        Err(_) => None,
    }
}

/// Calls `Instant::now`: the moment a measurement starts. Nothing is claimed of it.
#[verifier::external_body]
pub(crate) fn start_stopwatch() -> (start: Instant) {
    Instant::now()
}

/// Calls `Instant::elapsed`: the nanoseconds that have passed since `start`.
/// The reading depends on the time, so nothing is claimed of it.
#[verifier::external_body]
pub(crate) fn stopwatch_nanos(start: &Instant) -> (nanos: u128) {
    start.elapsed().as_nanos()
}

/// The system clock gave this reading: the nanoseconds since the Unix epoch, or that it
/// shows an earlier moment.
pub closed spec fn clock_showed(reading: Option<u128>) -> bool {
    call_ensures(nanos_since_epoch, (), reading)
}

/// The timestamp comes from a reading of the system clock, and so does the lack of one.
pub open spec fn clock_gave(timestamp: Result<u64, ClockBeforeEpoch>) -> bool {
    exists|reading: Option<u128>| #[trigger]
        clock_showed(reading) && match reading {
            Some(nanos) => timestamp == Ok::<u64, ClockBeforeEpoch>(
                (nanos as nat % 0x1_0000_0000_0000_0000) as u64,
            ),
            None => timestamp == Err::<u64, ClockBeforeEpoch>(ClockBeforeEpoch),
        }
}

/// A stopwatch was started, and later showed that so many nanoseconds had passed.
pub closed spec fn stopwatch_showed(nanos: u128) -> bool {
    exists|start: Instant|
        call_ensures(start_stopwatch, (), start) && #[trigger] call_ensures(
            stopwatch_nanos,
            (&start,),
            nanos,
        )
}

/// The duration is what a stopwatch showed, cut to 64 bits.
pub open spec fn timed(duration_ns: u64) -> bool {
    exists|nanos: u128| #[trigger]
        stopwatch_showed(nanos) && duration_ns == nanos as nat % 0x1_0000_0000_0000_0000
}

/// How long it has been since a stopwatch was started, cut to 64 bits.
pub(crate) fn elapsed_ns(start: &Instant) -> (duration_ns: u64)
    requires
        call_ensures(start_stopwatch, (), *start),
    ensures
        timed(duration_ns),
{
    let nanos: u128 = stopwatch_nanos(start);
    assert(stopwatch_showed(nanos));
    low_u64(nanos)
}

/// The low 64 bits of a count of nanoseconds.
pub fn low_u64(nanos: u128) -> (low: u64)
    ensures
        low == nanos as nat % 0x1_0000_0000_0000_0000,
{
    let low: u64 = #[verifier::truncate] (nanos as u64);
    assert(low as u128 == nanos % 0x1_0000_0000_0000_0000u128) by (bit_vector)
        requires
            low == nanos as u64,
    ;
    low
}

/// A timestamp from a clock reading: the low 64 bits of the nanoseconds since
/// the Unix epoch, or an error where the clock shows an earlier moment.
pub fn unix_timestamp(reading: Option<u128>) -> (timestamp: Result<u64, ClockBeforeEpoch>)
    ensures
        match reading {
            Some(nanos) => timestamp == Ok::<u64, ClockBeforeEpoch>(
                (nanos as nat % 0x1_0000_0000_0000_0000) as u64,
            ),
            None => timestamp == Err::<u64, ClockBeforeEpoch>(ClockBeforeEpoch),
        },
{
    match reading {
        Some(nanos) => Ok(low_u64(nanos)),
        None => Err(ClockBeforeEpoch),
    }
}

/// The nanoseconds since the Unix epoch, cut to 64 bits, as the system clock shows them.
/// Which value comes back rests on the clock; [`unix_timestamp`] says how a reading is
/// turned into it.
pub fn now_ns() -> (timestamp: Result<u64, ClockBeforeEpoch>)
    ensures
        timestamp matches Err(e) ==> e == ClockBeforeEpoch,
        clock_gave(timestamp),
{
    let reading = nanos_since_epoch();
    assert(clock_showed(reading));
    unix_timestamp(reading)
}

/// A timestamp is the reading of the clock itself, unchanged but for what 64 bits cannot
/// hold, and there is none only where the clock shows a moment before the Unix epoch.
pub proof fn law_timestamp_is_the_reading(timestamp: Result<u64, ClockBeforeEpoch>)
    requires
        clock_gave(timestamp),
    ensures
        match timestamp {
            Ok(ns) => exists|nanos: u128| #[trigger]
                clock_showed(Some(nanos)) && (nanos - ns) % 0x1_0000_0000_0000_0000 == 0 && (nanos
                    <= u64::MAX ==> nanos == ns),
            Err(_) => clock_showed(None),
        },
{
    let reading = choose|reading: Option<u128>| #[trigger]
        clock_showed(reading) && match reading {
            Some(nanos) => timestamp == Ok::<u64, ClockBeforeEpoch>(
                (nanos as nat % 0x1_0000_0000_0000_0000) as u64,
            ),
            None => timestamp == Err::<u64, ClockBeforeEpoch>(ClockBeforeEpoch),
        };
    if let Some(nanos) = reading {
        assert(clock_showed(Some(nanos)));
    }
}

/// A duration is what a stopwatch showed, unchanged but for what 64 bits cannot hold.
pub proof fn law_duration_is_measured(duration_ns: u64)
    requires
        timed(duration_ns),
    ensures
        exists|nanos: u128| #[trigger]
            stopwatch_showed(nanos) && (nanos - duration_ns) % 0x1_0000_0000_0000_0000 == 0 && (
            nanos <= u64::MAX ==> nanos == duration_ns),
{
    let nanos = choose|nanos: u128| #[trigger]
        stopwatch_showed(nanos) && duration_ns == nanos as nat % 0x1_0000_0000_0000_0000;
    assert((nanos - duration_ns) % 0x1_0000_0000_0000_0000 == 0);
}

} // verus!
