//! The wall clock, how it is read for a time of day, and how long to wait
//! until the clock next shows that time.

use crate::error::RuntimeError;
use crate::value::{Duration, NANOS_PER_SECOND};
use vstd::prelude::*;

verus! {

/// Seconds in one day.
pub const SECONDS_PER_DAY: i64 = 86_400;

/// One reading of the wall clock, in seconds since the epoch.
pub struct Clock {
    /// When the time of day asked for falls today, if today has such a time.
    pub target: Option<i64>,
    /// The present moment.
    pub now: i64,
}

/// Whether a day has the time of day `hour`:`minute`: its hours run from 0 to
/// 23 and its minutes from 0 to 59.
pub open spec fn is_time_of_day(hour: u32, minute: u32) -> bool {
    hour < 24 && minute < 60
}

/// How many seconds lie between `now` and the next time the clock shows what
/// it shows at `target`: today if that is still to come, otherwise a day later.
pub open spec fn seconds_until(target: int, now: int) -> int {
    if target - now <= 0 {
        target - now + SECONDS_PER_DAY
    } else {
        target - now
    }
}

/// How long to wait, in nanoseconds, after one reading of the clock, or why
/// there is nothing to wait for.
pub open spec fn wait_of(clock: Clock) -> Result<nat, RuntimeError> {
    match clock.target {
        Some(target) => if seconds_until(target as int, clock.now as int) > 0 {
            Ok((seconds_until(target as int, clock.now as int) * NANOS_PER_SECOND) as nat)
        } else {
            Err(RuntimeError::UnknownTime)
        },
        None => Err(RuntimeError::UnknownTime),
    }
}

/// The present moment by `chrono::Local::now`, in seconds since the epoch:
/// nothing is promised of it. It gives up on a clock set before the epoch.
#[verifier::external_body]
fn now_seconds() -> i64 {
    chrono::Local::now().timestamp()
}

impl Clock {
    /// Reads the wall clock for the time of day `hour`:`minute`: the moment
    /// at which today's clock shows that time, and the present moment. Where
    /// no day has such a time of day, today has no such moment. What the
    /// moments are is what the machine's clock shows: nothing more is known
    /// of them.
    pub fn read(hour: u32, minute: u32) -> (clock: Clock)
        ensures
            !is_time_of_day(hour, minute) ==> clock.target is None,
    {
        let target = today_seconds(hour, minute);
        let now = now_seconds();
        Clock { target, now }
    }

    /// How long to wait until the time of day that the clock was read for.
    pub fn wait(&self) -> (r: Result<Duration, RuntimeError>)
        ensures
            match wait_of(*self) {
                Ok(nanos) => r matches Ok(d) && d.as_nanos() == nanos,
                Err(e) => r matches Err(f) && f == e,
            },
    {
        match self.target {
            Some(target) => {
                let mut diff: i128 = target as i128 - self.now as i128;
                if diff <= 0 {
                    diff = diff + SECONDS_PER_DAY as i128;
                }
                if diff > 0 {
                    Ok(Duration::from_secs(diff as u64))
                } else {
                    Err(RuntimeError::UnknownTime)
                }
            },
            None => Err(RuntimeError::UnknownTime),
        }
    }
}

/// The moment at which today's clock shows `hour` and `minute`, by
/// `chrono::Local::today` and `and_hms_opt`, in seconds since the epoch, or
/// nothing where today has no such moment. `and_hms_opt` gives nothing for an
/// hour from 24 on and for a minute from 60 on. Of the moment itself nothing
/// is promised: it depends on the day and on the machine's time zone, and
/// `and_hms_opt` gives nothing too where the time zone leaves the moment out
/// or has it twice. `Local::today` reads the clock as `Local::now` does.
#[verifier::external_body]
#[allow(deprecated)]
fn today_seconds(hour: u32, minute: u32) -> (r: Option<i64>)
    ensures
        !is_time_of_day(hour, minute) ==> r is None,
{
    chrono::Local::today().and_hms_opt(hour, minute, 0).map(|t| t.timestamp())
}

} // verus!
