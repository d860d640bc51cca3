//! Reading the system clock.
//!
//! The clock is outside the library's control: nothing is claimed of the
//! time it reports, and callers state what holds whatever comes back. A
//! [`Clock`] keeps count of the readings taken through it and remembers the
//! latest one, so that a caller can state which reading a result came from.
use std::time::{Duration, SystemTime, SystemTimeError};
use vstd::prelude::*;

verus! {

#[verifier::external_type_specification]
#[verifier::external_body]
pub struct ExSystemTime(std::time::SystemTime);

#[verifier::external_type_specification]
#[verifier::external_body]
pub struct ExSystemTimeError(std::time::SystemTimeError);

/// Calls `std::time::SystemTime::now`. The reading depends on the machine's
/// clock, so nothing is claimed of it.
#[verifier::external_body]
fn system_now() -> SystemTime {
    SystemTime::now()
}

/// Calls `SystemTime::duration_since` with `UNIX_EPOCH`: the time elapsed
/// since the Unix epoch, or an error when the reading lies before it.
/// Nothing is claimed of which of the two comes back.
#[verifier::external_body]
fn since_unix_epoch(t: &SystemTime) -> Result<Duration, SystemTimeError> {
    t.duration_since(std::time::UNIX_EPOCH)
}

/// Calls `Duration::as_millis`: the number of whole milliseconds in the
/// duration. No clause states it, as `Duration`'s fields are not visible here.
#[verifier::external_body]
fn whole_millis(d: &Duration) -> u128 {
    d.as_millis()
}

/// Milliseconds since the Unix epoch by the system clock (truncated to 64
/// bits), or the clock's error text.
pub(crate) fn unix_time_ms() -> Result<u64, String> {
    let now = system_now();
    match since_unix_epoch(&now) {
        Ok(elapsed) => {
            let ms = whole_millis(&elapsed);
            Ok(#[verifier::truncate] (ms as u64))
        },
        Err(e) => Err(e.to_string()),
    }
}

/// The successor of a read count, wrapping to 0 after `u128::MAX`.
pub open spec fn next_count(reads: u128) -> u128 {
    if reads == u128::MAX {
        0
    } else {
        (reads + 1) as u128
    }
}

/// How many readings a clock took to go from count `before` to count
/// `after`, counted modulo 2^128.
pub open spec fn reads_between(before: u128, after: u128) -> int {
    if after >= before {
        after - before
    } else {
        after + 0x1_0000_0000_0000_0000_0000_0000_0000_0000 - before
    }
}

/// Counting one more reading adds one to the count since any earlier point,
/// while fewer than 2^128 − 1 readings lie between them.
pub proof fn lemma_reads_between_step(start: u128, reads: u128)
    requires
        reads_between(start, reads) < u128::MAX,
    ensures
        reads_between(start, next_count(reads)) == reads_between(start, reads) + 1,
{
}

/// The system clock as the library reads it: every reading goes through
/// [`Clock::read_ms`], which counts it and remembers its outcome.
#[derive(Clone, Copy, Debug)]
pub struct Clock {
    reads: u128,
    latest: Option<u64>,
}

impl Clock {
    /// How many readings were taken (modulo 2^128).
    pub closed spec fn reads(self) -> u128 {
        self.reads
    }

    /// The outcome of the latest reading: the milliseconds since the Unix
    /// epoch that it gave, or `None` when it failed or none was taken.
    pub closed spec fn latest(self) -> Option<u64> {
        self.latest
    }

    /// A clock through which no reading was taken yet.
    pub(crate) fn new() -> (clock: Clock)
        ensures
            clock.reads() == 0,
            clock.latest() is None,
    {
        Clock { reads: 0, latest: None }
    }

    /// Reads the system clock: milliseconds since the Unix epoch (truncated
    /// to 64 bits), or the clock's error text. The reading is counted and
    /// remembered as the latest.
    pub(crate) fn read_ms(&mut self) -> (res: Result<u64, String>)
        ensures
            final(self).reads() == next_count(old(self).reads()),
            res matches Ok(ms) ==> final(self).latest() == Some(ms),
            res is Err ==> final(self).latest() is None,
    {
        let res = unix_time_ms();
        self.reads = if self.reads == u128::MAX {
            0
        } else {
            self.reads + 1
        };
        self.latest = match &res {
            Ok(ms) => Some(*ms),
            Err(_) => None,
        };
        res
    }
}

} // verus!
