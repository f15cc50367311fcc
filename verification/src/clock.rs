//! Wall-clock and monotonic time.
//!
//! Nothing here can say what time it is, so no reading has a stated value. Each
//! operation that reads a clock has a counterpart that takes the reading as an
//! argument, and that one says what happens for every reading.

use std::time::Duration;
use std::time::Instant;
use std::time::SystemTime;
use std::time::SystemTimeError;
use vstd::prelude::*;

verus! {

/// A point of the system clock.
#[verifier::external_type_specification]
#[verifier::external_body]
pub struct ExSystemTime(SystemTime);

/// What `SystemTime::duration_since` reports when the clock runs before the
/// given point.
#[verifier::external_type_specification]
#[verifier::external_body]
pub struct ExSystemTimeError(SystemTimeError);

/// A point of the monotonic clock.
#[verifier::external_type_specification]
#[verifier::external_body]
pub struct ExInstant(Instant);

/// `SystemTime::now` reads the system clock. Nothing is claimed of the reading.
pub assume_specification[ SystemTime::now ]() -> (r: SystemTime);

/// `SystemTime::duration_since` measures from one point to another. Nothing is
/// claimed of the result.
pub assume_specification[ SystemTime::duration_since ](
    s: &SystemTime,
    earlier: SystemTime,
) -> (r: Result<Duration, SystemTimeError>);

/// `Instant::now` reads the monotonic clock. Nothing is claimed of the reading.
pub assume_specification[ Instant::now ]() -> (r: Instant);

/// `Instant::elapsed` measures the time since a reading. Nothing is claimed of
/// the result.
pub assume_specification[ Instant::elapsed ](s: &Instant) -> (r: Duration);

/// `Duration::as_secs` gives the whole seconds of a duration. Nothing is
/// claimed of the result.
pub assume_specification[ Duration::as_secs ](d: &Duration) -> (r: u64);

/// `Duration::subsec_nanos` gives the nanoseconds beyond the whole seconds,
/// always fewer than a billion.
pub assume_specification[ Duration::subsec_nanos ](d: &Duration) -> (r: u32)
    ensures
        r < 1_000_000_000,
;

/// `Duration::as_nanos` gives the length of a duration in nanoseconds. Nothing
/// is claimed of the result.
pub assume_specification[ Duration::as_nanos ](d: &Duration) -> (r: u128);

/// The Unix epoch, `SystemTime::UNIX_EPOCH`.
#[verifier::external_body]
fn unix_epoch() -> (r: SystemTime) {
    SystemTime::UNIX_EPOCH
}

/// `r` is what a measurement of the system clock against the epoch reads as: a
/// measurement that succeeded gives seconds and nanoseconds, and one of a clock
/// that stands before the epoch gives nothing. How many seconds a duration has
/// is not stated.
pub open spec fn reads_as(
    measured: Result<Duration, SystemTimeError>,
    r: Option<(u64, u32)>,
) -> bool {
    match measured {
        Ok(_) => r matches Some(d) && d.1 < 1_000_000_000,
        Err(_) => r is None,
    }
}

/// Reads a measurement as whole seconds and nanoseconds.
pub fn reading_of(measured: Result<Duration, SystemTimeError>) -> (r: Option<(u64, u32)>)
    ensures
        reads_as(measured, r),
{
    match measured {
        Ok(d) => Some((d.as_secs(), d.subsec_nanos())),
        Err(_) => None,
    }
}

/// The time since the Unix epoch as whole seconds and nanoseconds, or `None` if
/// the system clock stands before it.
pub fn since_epoch() -> (r: Option<(u64, u32)>)
    ensures
        exists|measured: Result<Duration, SystemTimeError>| #[trigger] reads_as(measured, r),
        r matches Some(d) ==> d.1 < 1_000_000_000,
{
    let measured = SystemTime::now().duration_since(unix_epoch());
    reading_of(measured)
}

/// The milliseconds of a reading of [`since_epoch`], cut to 64 bits; zero for
/// a clock that stands before the epoch.
pub open spec fn millis_of(reading: Option<(u64, u32)>) -> i64 {
    match reading {
        Some(d) => (d.0 * 1000 + d.1 as int / 1_000_000) as i64,
        None => 0,
    }
}

/// See [`millis_of`].
pub fn to_millis(reading: Option<(u64, u32)>) -> (r: i64)
    ensures
        r == millis_of(reading),
{
    match reading {
        Some(d) => (d.0 as u128 * 1000 + (d.1 / 1_000_000) as u128) as i64,
        None => 0,
    }
}

/// Milliseconds since the Unix epoch.
pub fn now_ms() -> (r: i64)
    ensures
        exists|reading: Option<(u64, u32)>| r == #[trigger] millis_of(reading),
{
    let reading = since_epoch();
    to_millis(reading)
}

/// A monotonic clock that counts nanoseconds from when it was made.
#[derive(Debug)]
pub struct Monotonic {
    origin: Instant,
}

impl Monotonic {
    pub fn new() -> (r: Self) {
        Monotonic { origin: Instant::now() }
    }

    /// Nanoseconds since the clock was made.
    pub fn nanos(&self) -> (r: u128) {
        self.origin.elapsed().as_nanos()
    }
}

/// The milliseconds of a reading are the whole ones since the epoch, as long as
/// 64 bits hold them. A clock before the epoch reads as zero.
pub proof fn law_whole_milliseconds(secs: u64, nanos: u32)
    requires
        nanos < 1_000_000_000,
        secs <= 9_000_000_000_000_000,
    ensures
        millis_of(Some((secs, nanos))) * 1_000_000 <= secs * 1_000_000_000 + nanos,
        millis_of(Some((secs, nanos))) * 1_000_000 + 1_000_000 > secs * 1_000_000_000 + nanos,
        millis_of(None) == 0,
{
}

} // verus!
