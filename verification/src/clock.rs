//! The time of day.
use vstd::prelude::*;

use crate::records::Link;

verus! {

/// Reads the clock: `SystemTime::now`, taken against `UNIX_EPOCH` by
/// `duration_since`, in whole seconds. `None` where the clock stands before the
/// epoch. Nothing is claimed of the time.
#[verifier::external_body]
fn clock_seconds() -> (seconds: Option<u64>) {
    std::time::SystemTime::now().duration_since(std::time::UNIX_EPOCH).ok().map(|d| d.as_secs())
}

/// The time that a reading of the clock stands for: its seconds since the epoch,
/// zero where it stands before the epoch.
pub open spec fn time_of(reading: Option<u64>) -> u64 {
    match reading {
        Some(seconds) => seconds,
        None => 0,
    }
}

/// The time that a reading of the clock stands for.
pub fn unix_of(reading: Option<u64>) -> (now: u64)
    ensures
        now == time_of(reading),
{
    match reading {
        Some(seconds) => seconds,
        None => 0,
    }
}

/// What [`unix_of`] makes of a clock's reading.
fn read_clock<F: Fn() -> Option<u64>>(clock: F) -> (now: u64)
    requires
        clock.requires(()),
    ensures
        exists|reading: Option<u64>| #[trigger]
            clock.ensures((), reading) && now == time_of(reading),
{
    let reading = clock();
    unix_of(reading)
}

/// Whether the clock gave a reading: whether `clock_seconds` returned it.
pub closed spec fn clock_gave(reading: Option<u64>) -> bool {
    call_ensures(clock_seconds, (), reading)
}

/// The present time in seconds since the epoch, zero before it: what [`unix_of`]
/// makes of a reading that the clock gave. Operations that need the time take it as an
/// argument in the variants that end in `_at`.
pub fn now_unix() -> (now: u64)
    ensures
        exists|reading: Option<u64>| #[trigger]
            clock_gave(reading) && now == time_of(reading),
{
    let now: u64 = read_clock(clock_seconds);
    proof {
        let reading = choose|reading: Option<u64>| #[trigger]
            call_ensures(clock_seconds, (), reading) && now == time_of(reading);
        assert(clock_gave(reading));
    }
    now
}

impl Link {
    /// Whether the link takes uploads at `now`.
    pub open spec fn usable(self, now: u64) -> bool {
        self.active && match self.expires_at {
            Some(at) => now < at,
            None => true,
        }
    }

    /// Whether the link takes uploads at `now`.
    pub fn usable_at(&self, now: u64) -> (r: bool)
        ensures
            r == self.usable(now),
    {
        self.active && match self.expires_at {
            Some(at) => now < at,
            None => true,
        }
    }

    /// Whether the link takes uploads now.
    pub fn usable_now(&self) -> (r: bool)
        ensures
            exists|reading: Option<u64>| #[trigger]
                clock_gave(reading) && r == self.usable(time_of(reading)),
    {
        let now: u64 = now_unix();
        self.usable_at(now)
    }
}

} // verus!
