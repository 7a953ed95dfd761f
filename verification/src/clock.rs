//! The time of day as a number of seconds.

use vstd::prelude::*;

verus! {

/// `SystemTime::elapsed`, since the Unix epoch, in whole seconds; `None` where the
/// system clock stands before the epoch. Nothing is claimed of the outcome: it is
/// whatever the clock says.
#[verifier::external_body]
fn seconds_since_epoch() -> (elapsed: Option<u64>) {
    std::time::UNIX_EPOCH.elapsed().ok().map(|elapsed| elapsed.as_secs())
}

/// Whether `elapsed` is what the system clock can have said when it was read.
pub closed spec fn is_reading(elapsed: Option<u64>) -> bool {
    call_ensures(seconds_since_epoch, (), elapsed)
}

/// Reads the system clock: whole seconds since the Unix epoch, or `None` before it.
pub fn reading() -> (elapsed: Option<u64>)
    ensures
        is_reading(elapsed),
{
    seconds_since_epoch()
}

/// The time that a clock reading stands for: 0 before the epoch, and the greatest
/// time there is where the reading is beyond it.
pub open spec fn capped_seconds(elapsed: Option<u64>) -> int {
    match elapsed {
        Some(seconds) => if seconds <= i64::MAX {
            seconds as int
        } else {
            i64::MAX as int
        },
        None => 0,
    }
}

/// Turns a clock reading into a time, capped at the greatest there is.
pub fn cap_seconds(elapsed: Option<u64>) -> (time: i64)
    ensures
        time == capped_seconds(elapsed),
{
    match elapsed {
        Some(seconds) => if seconds <= 0x7fff_ffff_ffff_ffff {
            seconds as i64
        } else {
            i64::MAX
        },
        None => 0,
    }
}

/// The current time in seconds since the Unix epoch.
pub fn unix_time() -> (now: i64)
    ensures
        exists|elapsed: Option<u64>| #[trigger]
            is_reading(elapsed) && now == capped_seconds(elapsed),
        now >= 0,
{
    let elapsed: Option<u64> = reading();
    cap_seconds(elapsed)
}

/// A reading that is a time is taken as it is, one before the epoch as its start, and
/// one beyond all times as the last.
pub proof fn law_a_reading_is_capped(elapsed: Option<u64>, time: i64)
    requires
        call_ensures(cap_seconds, (elapsed,), time),
    ensures
        elapsed is None ==> time == 0,
        elapsed matches Some(seconds) ==> time <= seconds && (time == seconds || time == i64::MAX),
        elapsed matches Some(seconds) ==> (seconds <= i64::MAX ==> time == seconds),
{
}

/// The current time is what the clock says, as far as that is a time.
pub proof fn law_the_time_is_read(now: i64)
    requires
        call_ensures(unix_time, (), now),
    ensures
        exists|elapsed: Option<u64>| #[trigger]
            is_reading(elapsed) && match elapsed {
                Some(seconds) => now <= seconds && (now == seconds || now == i64::MAX),
                None => now == 0,
            },
{
}

}
