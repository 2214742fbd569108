//! Unix time in whole seconds.
use vstd::prelude::*;

verus! {

/// A point in time, in seconds since the unix epoch.
#[derive(Debug, Clone, Copy, PartialEq, Eq)]
pub struct Time(pub u32);

/// `SystemTime::now` of std, in seconds since the unix epoch, or 0 for a clock set before it.
/// Nothing is claimed of its value.
#[verifier::external_body]
pub(crate) fn unix_now() -> u64 {
    std::time::SystemTime::now().duration_since(std::time::UNIX_EPOCH).map_or(0, |d| d.as_secs())
}

impl Time {
    /// The time `seconds` after `now`, where it can be represented.
    pub open spec fn spec_after(now: u64, seconds: u64) -> Option<Time> {
        if now + seconds <= u32::MAX {
            Some(Time((now + seconds) as u32))
        } else {
            None
        }
    }

    /// The time `seconds` after `now`, where it can be represented.
    pub fn after(now: u64, seconds: u64) -> (r: Option<Time>)
        ensures
            r == Self::spec_after(now, seconds),
    {
        let sum: u64 = now.checked_add(seconds)?;
        if sum <= 0xffff_ffff {
            Some(Time(sum as u32))
        } else {
            None
        }
    }

    /// The time `seconds` from now, where it can be represented.
    pub fn from_now(seconds: u64) -> (r: Option<Time>)
        ensures
            r matches Some(time) ==> time.0 >= seconds,
            seconds > u32::MAX ==> r is None,
            exists|now: u64| r == #[trigger] Self::spec_after(now, seconds),
    {
        Self::after(unix_now(), seconds)
    }

    /// Whether this time has passed at `now`.
    pub open spec fn spec_elapsed_at(self, now: u64) -> bool {
        self.0 <= now
    }

    /// Whether this time has passed at `now`.
    pub fn elapsed_at(&self, now: u64) -> (r: bool)
        ensures
            r == self.spec_elapsed_at(now),
    {
        self.0 as u64 <= now
    }
}

/// What has passed stays past.
pub proof fn law_elapsed_is_monotone(t: Time, now: u64, later: u64)
    requires
        now <= later,
        t.spec_elapsed_at(now),
    ensures
        t.spec_elapsed_at(later),
{
}

/// A time some seconds after another is there exactly where it can be written in 32 bits, and is then
/// that many seconds later.
pub proof fn law_later_time(now: u64, seconds: u64)
    ensures
        Time::spec_after(now, seconds) is Some <==> now + seconds < 0x1_0000_0000,
        Time::spec_after(now, seconds) matches Some(t) ==> t.0 - now == seconds,
{
}

/// A time has passed from the second on that it names.
pub proof fn law_time_passes(t: Time, now: u64)
    ensures
        t.spec_elapsed_at(now) <==> now >= t.0,
{
}

} // verus!
