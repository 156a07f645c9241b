use vstd::prelude::*;

verus! {

/// A span of time, stored as whole milliseconds.  Wide enough to hold any
/// `hours:minutes:seconds,milliseconds` reading whose four fields each fit
/// in 64 bits.
#[derive(Debug, Clone, Copy, PartialEq, Eq, Hash, Structural)]
pub struct Duration {
    pub millis: u128,
}

impl Duration {
    pub fn from_millis(millis: u128) -> (r: Duration)
        ensures
            r.millis == millis,
    {
        Duration { millis }
    }

    pub fn from_secs(secs: u64) -> (r: Duration)
        ensures
            r.millis == secs * 1000,
    {
        Duration { millis: secs as u128 * 1000 }
    }

    pub fn from_mins(mins: u64) -> (r: Duration)
        ensures
            r.millis == mins * 60000,
    {
        Duration { millis: mins as u128 * 60000 }
    }

    pub fn from_hours(hours: u64) -> (r: Duration)
        ensures
            r.millis == hours * 3600000,
    {
        Duration { millis: hours as u128 * 3600000 }
    }

    pub fn zero() -> (r: Duration)
        ensures
            r.millis == 0,
    {
        Duration { millis: 0 }
    }

    pub fn as_millis(&self) -> (r: u128)
        ensures
            r == self.millis,
    {
        self.millis
    }

    pub fn is_zero(&self) -> (r: bool)
        ensures
            r == (self.millis == 0),
    {
        self.millis == 0
    }

    /// The difference `self - other`, clamped at zero.
    pub fn saturating_sub(self, other: Duration) -> (r: Duration)
        ensures
            other.millis <= self.millis ==> r.millis == self.millis - other.millis,
            other.millis > self.millis ==> r.millis == 0,
    {
        if other.millis <= self.millis {
            Duration { millis: self.millis - other.millis }
        } else {
            Duration { millis: 0 }
        }
    }
}

impl Default for Duration {
    /// The zero duration.
    fn default() -> (r: Duration)
        ensures
            r.millis == 0,
    {
        Duration { millis: 0 }
    }
}

} // verus!
