//! The time of day, in whole seconds.

use vstd::prelude::*;

verus! {

/// `std::time::SystemTime::elapsed` since the Unix epoch, in whole seconds, and
/// nothing where the clock stands before it. Which moment it is rests on the
/// machine.
#[verifier::external_body]
fn seconds_since_epoch() -> (seconds: Option<u64>) {
    match std::time::UNIX_EPOCH.elapsed() {
        Ok(since) => Some(since.as_secs()),
        Err(_) => None,
    }
}

/// A moment as it is written down: the seconds since the epoch in a signed
/// 64-bit number, which wraps around where they do not fit, and zero before.
pub open spec fn moment_of(seconds: Option<u64>) -> int {
    match seconds {
        Some(seconds) => if seconds <= i64::MAX {
            seconds as int
        } else {
            seconds - 0x1_0000_0000_0000_0000
        },
        None => 0,
    }
}

/// A moment as it is written down.
pub fn moment(seconds: Option<u64>) -> (at: i64)
    ensures
        at == moment_of(seconds),
{
    match seconds {
        Some(seconds) => if seconds <= i64::MAX as u64 {
            seconds as i64
        } else {
            -1 - ((u64::MAX - seconds) as i64)
        },
        None => 0,
    }
}

/// What the clock says now.
pub fn now() -> (at: i64)
    ensures
        exists|seconds: Option<u64>| at == #[trigger] moment_of(seconds),
{
    let seconds = seconds_since_epoch();
    moment(seconds)
}

/// A second that fits is written down as it is, two that are two to the power of
/// sixty-four apart in the same way, and a clock before the epoch as zero.
pub proof fn a_moment_is_its_seconds(seconds: u64)
    ensures
        moment_of(None) == 0,
        seconds < 0x8000_0000_0000_0000 ==> moment_of(Some(seconds)) == seconds,
        i64::MIN <= moment_of(Some(seconds)) <= i64::MAX,
        (moment_of(Some(seconds)) - seconds) % 0x1_0000_0000_0000_0000 == 0,
{
}

}
