//! Sums and differences of times, and a time put together from its parts.
//!
//! A count of milliseconds has 32 bits. A result that leaves that range
//! wraps around, as `i32::wrapping_add` does: nothing saturates and nothing
//! is refused.

use crate::time::{wrap32, Time, TimeParts};
use std::ops::{Add, AddAssign, Sub, SubAssign};
use vstd::prelude::*;

verus! {

/// Within the range of `i32` nothing wraps.
pub proof fn lemma_wrap32_in_range(x: int)
    requires
        i32::MIN <= x <= i32::MAX,
    ensures
        wrap32(x) == x,
{
}

impl Add for Time {
    type Output = Time;

    /// The sum of two times.
    fn add(self, other: Time) -> (sum: Time) {
        Time { milliseconds: self.milliseconds.wrapping_add(other.milliseconds) }
    }
}

impl vstd::std_specs::ops::AddSpecImpl for Time {
    open spec fn obeys_add_spec() -> bool {
        true
    }

    open spec fn add_req(self, other: Time) -> bool {
        true
    }

    open spec fn add_spec(self, other: Time) -> Time {
        Time::wrapped(self@ + other@)
    }
}

impl Sub for Time {
    type Output = Time;

    /// The difference of two times.
    fn sub(self, other: Time) -> (difference: Time) {
        Time { milliseconds: self.milliseconds.wrapping_sub(other.milliseconds) }
    }
}

impl vstd::std_specs::ops::SubSpecImpl for Time {
    open spec fn obeys_sub_spec() -> bool {
        true
    }

    open spec fn sub_req(self, other: Time) -> bool {
        true
    }

    open spec fn sub_spec(self, other: Time) -> Time {
        Time::wrapped(self@ - other@)
    }
}

impl Add for &Time {
    type Output = Time;

    /// The sum of two times.
    fn add(self, other: &Time) -> (sum: Time) {
        Time { milliseconds: self.milliseconds.wrapping_add(other.milliseconds) }
    }
}

impl vstd::std_specs::ops::AddSpecImpl for &Time {
    open spec fn obeys_add_spec() -> bool {
        true
    }

    open spec fn add_req(self, other: &Time) -> bool {
        true
    }

    open spec fn add_spec(self, other: &Time) -> Time {
        Time::wrapped(self@ + other@)
    }
}

impl Sub for &Time {
    type Output = Time;

    /// The difference of two times.
    fn sub(self, other: &Time) -> (difference: Time) {
        Time { milliseconds: self.milliseconds.wrapping_sub(other.milliseconds) }
    }
}

impl vstd::std_specs::ops::SubSpecImpl for &Time {
    open spec fn obeys_sub_spec() -> bool {
        true
    }

    open spec fn sub_req(self, other: &Time) -> bool {
        true
    }

    open spec fn sub_spec(self, other: &Time) -> Time {
        Time::wrapped(self@ - other@)
    }
}

impl AddAssign for Time {
    /// Adds a time to this one.
    fn add_assign(&mut self, other: Time)
        ensures
            *final(self) == Time::wrapped(old(self)@ + other@),
    {
        self.milliseconds = self.milliseconds.wrapping_add(other.milliseconds);
    }
}

impl SubAssign for Time {
    /// Takes a time off this one.
    fn sub_assign(&mut self, other: Time)
        ensures
            *final(self) == Time::wrapped(old(self)@ - other@),
    {
        self.milliseconds = self.milliseconds.wrapping_sub(other.milliseconds);
    }
}

impl From<TimeParts> for Time {
    /// The time that display fields add up to. The fields need not be
    /// within their natural ranges.
    fn from(parts: TimeParts) -> (time: Time) {
        let total: i64 = parts.milliseconds as i64 + parts.seconds as i64 * 1000
            + parts.minutes as i64 * 60000 + parts.hours as i64 * 3600000;
        let low: i64 = (total + 0x8000_0000) % 0x1_0000_0000;
        let kept: i64 = if low < 0 {
            low + 0x8000_0000
        } else {
            low - 0x8000_0000
        };
        Time { milliseconds: kept as i32 }
    }
}

impl vstd::std_specs::convert::FromSpecImpl<TimeParts> for Time {
    open spec fn obeys_from_spec() -> bool {
        true
    }

    open spec fn from_spec(parts: TimeParts) -> Time {
        Time::wrapped(parts.total())
    }
}

} // verus!
