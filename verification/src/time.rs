//! A signed count of milliseconds, its arithmetic and its display parts.

use crate::digits::{padded_decimal, push_padded};
use vstd::prelude::*;

verus! {

/// Milliseconds in a second.
pub const MS_PER_SEC: i32 = 1000;

/// Seconds in a minute.
pub const SEC_PER_MIN: i32 = 60;

/// Minutes in an hour.
pub const MIN_PER_HR: i32 = 60;

/// Milliseconds in a minute.
pub const MS_PER_MIN: i32 = 60000;

/// Milliseconds in an hour.
pub const MS_PER_HR: i32 = 3600000;

/// Seconds in an hour.
pub const SEC_PER_HR: i32 = 3600;

/// A point on a track's time line, or a distance along it, held as a signed
/// count of whole milliseconds.
#[derive(Clone, Copy, Debug, PartialEq, Eq, Ord, Structural)]
pub struct Time {
    pub milliseconds: i32,
}

/// The fields that a time is displayed in. Each carries the sign of the
/// count that it was taken from.
#[derive(Clone, Copy, Debug, PartialEq, Eq, Structural)]
pub struct TimeParts {
    pub hours: i16,
    pub minutes: i8,
    pub seconds: i8,
    pub milliseconds: i16,
}

impl View for Time {
    type V = int;

    open spec fn view(&self) -> int {
        self.milliseconds as int
    }
}

/// The quotient of `a` by a positive `b`, rounded toward zero.
pub open spec fn trunc_div(a: int, b: int) -> int {
    if a >= 0 {
        a / b
    } else {
        -((-a) / b)
    }
}

/// The remainder that goes with `trunc_div`: it has the sign of `a`.
pub open spec fn trunc_rem(a: int, b: int) -> int {
    if a >= 0 {
        a % b
    } else {
        -((-a) % b)
    }
}

/// The one value within the range of `i32` that differs from `x` by a
/// multiple of 2^32: what fixed-width arithmetic keeps of `x`.
pub open spec fn wrap32(x: int) -> int {
    let r = (x + 0x8000_0000) % 0x1_0000_0000;
    r - 0x8000_0000
}

/// The hours field of a count of milliseconds.
pub open spec fn hours_of(ms: int) -> int {
    trunc_div(ms, 3600000)
}

/// The minutes field of a count of milliseconds.
pub open spec fn minutes_of(ms: int) -> int {
    trunc_rem(trunc_div(ms, 60000), 60)
}

/// The seconds field of a count of milliseconds.
pub open spec fn seconds_of(ms: int) -> int {
    trunc_rem(trunc_div(ms, 1000), 60)
}

/// The milliseconds field of a count of milliseconds.
pub open spec fn millis_of(ms: int) -> int {
    trunc_rem(ms, 1000)
}

/// The text of the minutes, seconds and milliseconds of a count, as
/// `MM:SS.mmm`. Each field is written with its own sign and filled with
/// zeros to its width.
pub open spec fn clock_text(ms: int) -> Seq<u8> {
    padded_decimal(minutes_of(ms), 2) + seq![58u8] + padded_decimal(seconds_of(ms), 2) + seq![
        46u8,
    ] + padded_decimal(millis_of(ms), 3)
}

/// The text of a count of milliseconds: that of its minutes, seconds and
/// milliseconds, behind the hours and a colon where the hours field is not
/// zero.
pub open spec fn format_text(ms: int) -> Seq<u8> {
    if hours_of(ms) == 0 {
        clock_text(ms)
    } else {
        padded_decimal(hours_of(ms), 2) + seq![58u8] + clock_text(ms)
    }
}

impl TimeParts {
    /// The count of milliseconds that the fields add up to.
    pub open spec fn total(self) -> int {
        self.milliseconds + self.seconds * 1000 + self.minutes * 60000 + self.hours * 3600000
    }
}

impl Time {
    /// The time that an `i32` sum or difference of exact value `x` comes to.
    pub open spec fn wrapped(x: int) -> Time {
        Time { milliseconds: wrap32(x) as i32 }
    }

    /// Whether the count is below zero.
    pub fn is_negative(&self) -> (negative: bool)
        ensures
            negative == (self@ < 0),
    {
        self.milliseconds < 0
    }

    /// Splits the count into its display fields. Every division rounds
    /// toward zero, so each field of a negative count is zero or negative.
    pub fn parts(&self) -> (parts: TimeParts)
        ensures
            parts.hours == hours_of(self@),
            parts.minutes == minutes_of(self@),
            parts.seconds == seconds_of(self@),
            parts.milliseconds == millis_of(self@),
            parts.total() == self@,
    {
        let hours: i32 = self.milliseconds / MS_PER_HR;
        let minutes: i32 = self.milliseconds / MS_PER_MIN - hours * MIN_PER_HR;
        let seconds: i32 = self.milliseconds / MS_PER_SEC - minutes * SEC_PER_MIN - hours
            * SEC_PER_HR;
        let milliseconds: i32 = self.milliseconds - seconds * MS_PER_SEC - minutes * MS_PER_MIN
            - hours * MS_PER_HR;
        TimeParts {
            hours: hours as i16,
            minutes: minutes as i8,
            seconds: seconds as i8,
            milliseconds: milliseconds as i16,
        }
    }

    /// Writes the time out as `MM:SS.mmm`, or as `HH:MM:SS.mmm` where the
    /// hours field is not zero.
    pub fn format(&self) -> (text: Vec<u8>)
        ensures
            text@ == format_text(self@),
            hours_of(self@) == 0 ==> text@ == clock_text(self@),
            hours_of(self@) != 0 ==> text@ == padded_decimal(hours_of(self@), 2) + seq![58u8]
                + clock_text(self@),
    {
        let parts = self.parts();
        let mut text: Vec<u8> = Vec::new();
        if parts.hours != 0 {
            push_padded(&mut text, parts.hours, 2);
            text.push(58u8);
        }
        push_padded(&mut text, parts.minutes as i16, 2);
        text.push(58u8);
        push_padded(&mut text, parts.seconds as i16, 2);
        text.push(46u8);
        push_padded(&mut text, parts.milliseconds, 3);
        assert(text@ =~= format_text(self@));
        text
    }
}

impl Default for Time {
    /// The zero time.
    fn default() -> (zero: Time)
        ensures
            zero@ == 0,
    {
        Time { milliseconds: 0 }
    }
}

} // verus!
