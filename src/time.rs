use vstd::prelude::*;

verus! {

/// A time of day as an hour and a minute.
#[derive(Clone, Copy, Debug, PartialEq, Eq, Structural)]
pub struct HourMinutePair {
    pub hour: i32,
    pub minute: i32,
}

/// The one way a time string can be refused: it holds no time in the expected
/// notation, or one whose numbers are too large to hold.
#[derive(Clone, Copy, Debug, PartialEq, Eq, Structural)]
pub struct InvalidTimeString;

/// The hour reached by adding `delta` hours to `hour`, corrected by one day at most:
/// a negative sum gains 24 hours and a sum of 24 or more loses 24.
pub open spec fn shifted_hour(hour: int, delta: int) -> int {
    let sum = hour + delta;
    if sum < 0 {
        sum + 24
    } else if sum >= 24 {
        sum - 24
    } else {
        sum
    }
}

/// `time` moved by `delta` hours as [`shifted_hour`] says; the minute is kept.
pub open spec fn shifted(time: HourMinutePair, delta: int) -> HourMinutePair {
    HourMinutePair { hour: shifted_hour(time.hour as int, delta) as i32, minute: time.minute }
}

/// Moving an hour of the day by at most a day, forward or back, lands on an
/// hour of the day, the same modulo 24 as the plain sum.
pub proof fn lemma_shift_stays_in_day(hour: int, delta: int)
    requires
        0 <= hour <= 23,
        -24 <= delta <= 24,
    ensures
        0 <= shifted_hour(hour, delta) <= 23,
        (shifted_hour(hour, delta) - (hour + delta)) % 24 == 0,
{
}

/// Shifts a time by `hour_delta` hours, wrapping around midnight once; the minute is kept.
pub fn add_delta(time_a: &HourMinutePair, hour_delta: i32) -> (r: HourMinutePair)
    requires
        i32::MIN <= shifted_hour(time_a.hour as int, hour_delta as int) <= i32::MAX,
    ensures
        r.hour == shifted_hour(time_a.hour as int, hour_delta as int),
        r.minute == time_a.minute,
        r == shifted(*time_a, hour_delta as int),
{
    let sum: i64 = time_a.hour as i64 + hour_delta as i64;
    let summed_hour: i64 = if sum < 0 {
        sum + 24
    } else if sum >= 24 {
        sum - 24
    } else {
        sum
    };
    HourMinutePair { hour: summed_hour as i32, minute: time_a.minute }
}

} // verus!
