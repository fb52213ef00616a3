//! Points in time, counted from the start of 1970.

use vstd::prelude::*;
use vstd::std_specs::convert::FromSpecImpl;

verus! {

pub const SECS_PER_DAY: i64 = 86_400;

/// Division that drops the fraction, as Rust divides.
pub open spec fn div_toward_zero(a: int, b: int) -> int
    recommends
        b > 0,
{
    if a >= 0 {
        a / b
    } else {
        -((-a) / b)
    }
}

/// Seconds since the start of 1970.
#[derive(Debug, Clone, Copy, PartialEq, Eq, PartialOrd, Ord, Hash, Structural)]
pub struct TimestampSecs(pub i64);

/// Milliseconds since the start of 1970.
#[derive(Debug, Clone, Copy, PartialEq, Eq, PartialOrd, Ord, Hash, Structural)]
pub struct TimestampMillis(pub i64);

impl From<i64> for TimestampSecs {
    fn from(secs: i64) -> (stamp: Self) {
        TimestampSecs(secs)
    }
}

impl FromSpecImpl<i64> for TimestampSecs {
    open spec fn obeys_from_spec() -> bool {
        true
    }

    open spec fn from_spec(secs: i64) -> Self {
        TimestampSecs(secs)
    }
}

impl TimestampSecs {
    /// The point in time `secs` later, or earlier where `secs` is negative.
    pub fn adding_secs(self, secs: i64) -> (stamp: TimestampSecs)
        requires
            i64::MIN <= self.0 + secs <= i64::MAX,
        ensures
            stamp.0 == self.0 + secs,
    {
        TimestampSecs(self.0 + secs)
    }
}

/// The milliseconds that a reading of the clock stands for: those since 1970 counted up,
/// those before 1970 counted down, cut to 64 bits.
pub open spec fn reading_millis(reading: Result<u128, u128>) -> i64 {
    match reading {
        Ok(since) => since as i64,
        Err(before) => if before as i64 == i64::MIN {
            i64::MIN
        } else {
            (-(before as i64)) as i64
        },
    }
}

/// Calls `std::time::SystemTime::elapsed` on `std::time::UNIX_EPOCH`. The result is `Ok` with
/// the whole milliseconds since then, or, on a clock that is set to an earlier time, `Err`
/// with the whole milliseconds up to then. It depends on the clock, so nothing is claimed
/// of it.
#[verifier::external_body]
fn epoch_elapsed_millis() -> (reading: Result<u128, u128>) {
    match std::time::UNIX_EPOCH.elapsed() {
        Ok(since) => Ok(since.as_millis()),
        Err(before) => Err(before.duration().as_millis()),
    }
}

/// The reading is one that the clock gave.
pub closed spec fn is_clock_reading(reading: Result<u128, u128>) -> bool {
    call_ensures(epoch_elapsed_millis, (), reading)
}

impl TimestampMillis {
    /// The point in time that a reading of the clock stands for.
    pub fn from_reading(reading: Result<u128, u128>) -> (stamp: TimestampMillis)
        ensures
            stamp.0 == reading_millis(reading),
    {
        match reading {
            Ok(since) => TimestampMillis(#[verifier::truncate] (since as i64)),
            Err(before) => {
                let millis: i64 = #[verifier::truncate] (before as i64);
                if millis == i64::MIN {
                    TimestampMillis(i64::MIN)
                } else {
                    TimestampMillis(-millis)
                }
            },
        }
    }

    /// The current time: the milliseconds that the clock reads.
    pub fn now() -> (stamp: TimestampMillis)
        ensures
            exists|reading: Result<u128, u128>| #[trigger]
                is_clock_reading(reading) && stamp.0 == reading_millis(reading),
    {
        let reading = epoch_elapsed_millis();
        assert(is_clock_reading(reading));
        TimestampMillis::from_reading(reading)
    }
}

} // verus!
