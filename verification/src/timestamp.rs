//! The scanner for the timestamps of a cue file, and for the range line
//! that joins two of them.
//!
//! A timestamp is `MM:SS.mmm` or `HH:MM:SS.mmm`: groups of exactly two
//! digits, then a comma or a full stop, then exactly three digits. No field
//! is held to its natural range, so `00:75:99,000` is a timestamp.

use crate::arith::lemma_wrap32_in_range;
use crate::digits::{byte_is_digit, digit_of, digit_value, is_digit};
use crate::time::{Time, TimeParts};
use vstd::prelude::*;
use vstd::slice::slice_subrange;

verus! {

/// The byte `:`.
pub const COLON: u8 = 58;

/// The byte `,`.
pub const COMMA: u8 = 44;

/// The byte `.`.
pub const FULL_STOP: u8 = 46;

/// How many bytes the separator of a range takes.
pub const ARROW_LEN: usize = 5;

/// The greatest count of milliseconds that a timestamp can denote: that of
/// `99:99:99.999`.
pub const MAX_TIMESTAMP: i32 = 362439999;

/// Whether the byte may stand between the seconds and the milliseconds.
pub open spec fn is_fraction_mark(b: u8) -> bool {
    b == 44 || b == 46
}

/// Whether two digits stand at `i`.
pub open spec fn pair_at(s: Seq<u8>, i: int) -> bool {
    is_digit(s[i]) && is_digit(s[i + 1])
}

/// The number that the two digits at `i` denote.
pub open spec fn pair_value(s: Seq<u8>, i: int) -> int {
    10 * digit_value(s[i]) + digit_value(s[i + 1])
}

/// Whether three digits stand at `i`.
pub open spec fn triple_at(s: Seq<u8>, i: int) -> bool {
    is_digit(s[i]) && is_digit(s[i + 1]) && is_digit(s[i + 2])
}

/// The number that the three digits at `i` denote.
pub open spec fn triple_value(s: Seq<u8>, i: int) -> int {
    100 * digit_value(s[i]) + 10 * digit_value(s[i + 1]) + digit_value(s[i + 2])
}

/// Whether the sequence starts with a timestamp without hours.
pub open spec fn short_stamp(s: Seq<u8>) -> bool {
    &&& s.len() >= 9
    &&& pair_at(s, 0)
    &&& s[2] == 58
    &&& pair_at(s, 3)
    &&& is_fraction_mark(s[5])
    &&& triple_at(s, 6)
}

/// Whether the sequence starts with a timestamp with hours.
pub open spec fn long_stamp(s: Seq<u8>) -> bool {
    &&& s.len() >= 12
    &&& pair_at(s, 0)
    &&& s[2] == 58
    &&& pair_at(s, 3)
    &&& s[5] == 58
    &&& pair_at(s, 6)
    &&& is_fraction_mark(s[8])
    &&& triple_at(s, 9)
}

/// The timestamp that the sequence starts with, as its count of
/// milliseconds and the number of bytes that it takes; `None` where the
/// sequence starts with none. A single pair before the fraction is minutes
/// and seconds; only a third pair makes the first one hours.
pub open spec fn timestamp_at(s: Seq<u8>) -> Option<(int, nat)> {
    if long_stamp(s) {
        Some(
            (
                pair_value(s, 0) * 3600000 + pair_value(s, 3) * 60000 + pair_value(s, 6) * 1000
                    + triple_value(s, 9),
                12nat,
            ),
        )
    } else if short_stamp(s) {
        Some((pair_value(s, 0) * 60000 + pair_value(s, 3) * 1000 + triple_value(s, 6), 9nat))
    } else {
        None
    }
}

/// What separates the two timestamps of a range: a space, two hyphens, a
/// greater-than sign and a space.
pub open spec fn arrow() -> Seq<u8> {
    seq![32u8, 45u8, 45u8, 62u8, 32u8]
}

/// The range that the sequence starts with, as the counts of milliseconds
/// of its two timestamps; `None` where the sequence does not start with a
/// timestamp, the separator and a timestamp. What follows the second
/// timestamp is not looked at.
pub open spec fn range_at(s: Seq<u8>) -> Option<(int, int)> {
    match timestamp_at(s) {
        Some((begin, n)) => {
            if s.len() >= n + 5 && s.subrange(n as int, n as int + 5) == arrow() {
                match timestamp_at(s.skip(n as int + 5)) {
                    Some((end, _)) => Some((begin, end)),
                    None => None,
                }
            } else {
                None
            }
        },
        None => None,
    }
}

/// What the scanner of a timestamp waits for.
#[derive(Clone, Copy, Debug, PartialEq, Eq, Structural)]
enum Expecting {
    HourOrMinute1,
    HourOrMinute2,
    Colon1,
    MinuteOrSecond1,
    MinuteOrSecond2,
    Colon2OrCommaOrDecimal,
    Second1,
    Second2,
    CommaOrDecimal,
    Millisecond1,
    Millisecond2,
    Millisecond3,
}

/// What the scanner has read while it waits for `expecting` at byte `i`:
/// the bytes before `i` fit a timestamp, with hours if `long`, and the
/// fields hold the digits read so far.
spec fn scanned(
    expecting: Expecting,
    s: Seq<u8>,
    i: int,
    long: bool,
    first: int,
    second: int,
    third: int,
    millis: int,
) -> bool {
    let head = pair_at(s, 0) && s[2] == 58 && first == pair_value(s, 0);
    let middle = head && pair_at(s, 3) && second == pair_value(s, 3);
    let tail = middle && if long {
        s[5] == 58 && pair_at(s, 6) && third == pair_value(s, 6) && is_fraction_mark(s[8])
    } else {
        is_fraction_mark(s[5])
    };
    match expecting {
        Expecting::HourOrMinute1 => i == 0 && !long,
        Expecting::HourOrMinute2 => i == 1 && !long && is_digit(s[0]) && first == 10 * digit_value(
            s[0],
        ),
        Expecting::Colon1 => i == 2 && !long && pair_at(s, 0) && first == pair_value(s, 0),
        Expecting::MinuteOrSecond1 => i == 3 && !long && head,
        Expecting::MinuteOrSecond2 => i == 4 && !long && head && is_digit(s[3]) && second == 10
            * digit_value(s[3]),
        Expecting::Colon2OrCommaOrDecimal => i == 5 && !long && middle,
        Expecting::Second1 => i == 6 && long && middle && s[5] == 58,
        Expecting::Second2 => i == 7 && long && middle && s[5] == 58 && is_digit(s[6]) && third
            == 10 * digit_value(s[6]),
        Expecting::CommaOrDecimal => i == 8 && long && middle && s[5] == 58 && pair_at(s, 6)
            && third == pair_value(s, 6),
        Expecting::Millisecond1 => tail && i == (if long {
            9int
        } else {
            6int
        }),
        Expecting::Millisecond2 => tail && i == (if long {
            10int
        } else {
            7int
        }) && is_digit(s[i - 1]) && millis == 100 * digit_value(s[i - 1]),
        Expecting::Millisecond3 => tail && i == (if long {
            11int
        } else {
            8int
        }) && is_digit(s[i - 2]) && is_digit(s[i - 1]) && millis == 100 * digit_value(s[i - 2])
            + 10 * digit_value(s[i - 1]),
    }
}

impl Time {
    /// Reads the timestamp that `input` starts with. Gives its time and the
    /// number of bytes that it takes, so that the caller can go on behind it;
    /// gives `None` where `input` does not start with a whole timestamp.
    pub fn parse_time(input: &[u8]) -> (found: Option<(Time, usize)>)
        ensures
            match timestamp_at(input@) {
                Some((ms, n)) => found == Some((Time { milliseconds: ms as i32 }, n as usize)) && 0
                    <= ms <= MAX_TIMESTAMP && n <= input@.len(),
                None => found is None,
            },
    {
        let mut expecting = Expecting::HourOrMinute1;
        let mut long: bool = false;
        let mut first: i16 = 0;
        let mut second: i8 = 0;
        let mut third: i8 = 0;
        let mut millis: i16 = 0;
        let mut i: usize = 0;
        while i < input.len()
            invariant
                i <= input@.len(),
                scanned(
                    expecting,
                    input@,
                    i as int,
                    long,
                    first as int,
                    second as int,
                    third as int,
                    millis as int,
                ),
            decreases input@.len() - i,
        {
            let byte: u8 = input[i];
            i = i + 1;
            match expecting {
                Expecting::HourOrMinute1 => {
                    if !byte_is_digit(byte) {
                        return None;
                    }
                    first = 10 * (digit_of(byte) as i16);
                    expecting = Expecting::HourOrMinute2;
                },
                Expecting::HourOrMinute2 => {
                    if !byte_is_digit(byte) {
                        return None;
                    }
                    first = first + (digit_of(byte) as i16);
                    expecting = Expecting::Colon1;
                },
                Expecting::Colon1 => {
                    if byte != COLON {
                        return None;
                    }
                    expecting = Expecting::MinuteOrSecond1;
                },
                Expecting::MinuteOrSecond1 => {
                    if !byte_is_digit(byte) {
                        return None;
                    }
                    second = 10 * (digit_of(byte) as i8);
                    expecting = Expecting::MinuteOrSecond2;
                },
                Expecting::MinuteOrSecond2 => {
                    if !byte_is_digit(byte) {
                        return None;
                    }
                    second = second + (digit_of(byte) as i8);
                    expecting = Expecting::Colon2OrCommaOrDecimal;
                },
                Expecting::Colon2OrCommaOrDecimal => {
                    if byte == COLON {
                        long = true;
                        expecting = Expecting::Second1;
                    } else if byte == COMMA || byte == FULL_STOP {
                        expecting = Expecting::Millisecond1;
                    } else {
                        return None;
                    }
                },
                Expecting::Second1 => {
                    if !byte_is_digit(byte) {
                        return None;
                    }
                    third = 10 * (digit_of(byte) as i8);
                    expecting = Expecting::Second2;
                },
                Expecting::Second2 => {
                    if !byte_is_digit(byte) {
                        return None;
                    }
                    third = third + (digit_of(byte) as i8);
                    expecting = Expecting::CommaOrDecimal;
                },
                Expecting::CommaOrDecimal => {
                    if byte != COMMA && byte != FULL_STOP {
                        return None;
                    }
                    expecting = Expecting::Millisecond1;
                },
                Expecting::Millisecond1 => {
                    if !byte_is_digit(byte) {
                        return None;
                    }
                    millis = 100 * (digit_of(byte) as i16);
                    expecting = Expecting::Millisecond2;
                },
                Expecting::Millisecond2 => {
                    if !byte_is_digit(byte) {
                        return None;
                    }
                    millis = millis + 10 * (digit_of(byte) as i16);
                    expecting = Expecting::Millisecond3;
                },
                Expecting::Millisecond3 => {
                    if !byte_is_digit(byte) {
                        return None;
                    }
                    millis = millis + (digit_of(byte) as i16);
                    let parts = if long {
                        TimeParts {
                            hours: first,
                            minutes: second,
                            seconds: third,
                            milliseconds: millis,
                        }
                    } else {
                        TimeParts {
                            hours: 0,
                            minutes: first as i8,
                            seconds: second,
                            milliseconds: millis,
                        }
                    };
                    proof {
                        lemma_wrap32_in_range(parts.total());
                    }
                    return Some((Time::from(parts), i));
                },
            }
        }
        None
    }

    /// Reads the range that a line starts with: a timestamp, the separator
    /// ` --> ` and a timestamp. Gives the two times, or `None` where the line
    /// does not start so. Bytes behind the second timestamp are passed over.
    pub fn parse_times(input: &[u8]) -> (found: Option<(Time, Time)>)
        ensures
            match range_at(input@) {
                Some((begin, end)) => found == Some(
                    (Time { milliseconds: begin as i32 }, Time { milliseconds: end as i32 }),
                ) && 0 <= begin <= MAX_TIMESTAMP && 0 <= end <= MAX_TIMESTAMP,
                None => found is None,
            },
    {
        let (begin, n) = match Time::parse_time(input) {
            Some(found) => found,
            None => {
                return None;
            },
        };
        if input.len() - n < ARROW_LEN {
            return None;
        }
        if input[n] != 32 || input[n + 1] != 45 || input[n + 2] != 45 || input[n + 3] != 62
            || input[n + 4] != 32 {
            proof {
                let cut = input@.subrange(n as int, n + 5);
                assert(cut[0] == input@[n as int]);
                assert(cut[1] == input@[n + 1]);
                assert(cut[2] == input@[n + 2]);
                assert(cut[3] == input@[n + 3]);
                assert(cut[4] == input@[n + 4]);
            }
            return None;
        }
        assert(input@.subrange(n as int, n + 5) =~= arrow());
        let rest = slice_subrange(input, n + ARROW_LEN, input.len());
        assert(rest@ =~= input@.skip(n + 5));
        match Time::parse_time(rest) {
            Some((end, _)) => Some((begin, end)),
            None => None,
        }
    }
}

} // verus!
