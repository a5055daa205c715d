//! The scanner for an offset argument: a count of seconds with an optional
//! sign and up to three digits of fraction, such as `+1`, `-0.25` or `.5`.

use crate::digits::{
    all_digits, byte_is_digit, decimal_value, digit_of, digit_value, is_digit,
    lemma_decimal_value_push, lemma_digits_value_bounds,
};
use crate::error::{Error, OffsetRole};
use crate::time::Time;
use vstd::prelude::*;

verus! {

/// The byte `+`.
pub const PLUS: u8 = 43;

/// The byte `-`.
pub const MINUS: u8 = 45;

/// The byte `.`.
pub const POINT: u8 = 46;

/// Where the scanner stops counting whole seconds: from here on a thousand
/// times the count is beyond what a time can hold.
pub const SECONDS_CAP: i64 = 2147484;

/// Whether the byte is a sign.
pub open spec fn is_sign(b: u8) -> bool {
    b == 43 || b == 45
}

/// How many bytes the sign of an offset takes: one or none.
pub open spec fn sign_len(s: Seq<u8>) -> int {
    if s.len() > 0 && is_sign(s[0]) {
        1
    } else {
        0
    }
}

/// Whether the offset starts with a minus.
pub open spec fn is_minus(s: Seq<u8>) -> bool {
    s.len() > 0 && s[0] == 45
}

/// How many bytes follow the point of an unsigned offset, counting up to
/// three; zero where no point stands among its last four bytes.
pub open spec fn fraction_len(u: Seq<u8>) -> int {
    let n = u.len() as int;
    if n >= 2 && u[n - 2] == 46 {
        1
    } else if n >= 3 && u[n - 3] == 46 {
        2
    } else if n >= 4 && u[n - 4] == 46 {
        3
    } else {
        0
    }
}

/// The bytes of an unsigned offset before its point, or all of them where
/// it has no fraction.
pub open spec fn whole_digits(u: Seq<u8>) -> Seq<u8> {
    let f = fraction_len(u);
    if f == 0 {
        u
    } else {
        u.take(u.len() - f - 1)
    }
}

/// The bytes of an unsigned offset behind its point.
pub open spec fn fraction_digits(u: Seq<u8>) -> Seq<u8> {
    u.skip(u.len() - fraction_len(u))
}

/// The milliseconds that a fraction of one to three digits denotes: the
/// digits filled up with zeros on the right to three.
pub open spec fn fraction_millis(digits: Seq<u8>) -> int {
    if digits.len() == 1 {
        decimal_value(digits) * 100
    } else if digits.len() == 2 {
        decimal_value(digits) * 10
    } else {
        decimal_value(digits)
    }
}

/// Whether the bytes are an offset: an optional sign, then digits, or
/// digits with a point and one to three digits behind it, or a point and
/// one to three digits.
pub open spec fn is_offset(s: Seq<u8>) -> bool {
    let u = s.skip(sign_len(s));
    &&& all_digits(whole_digits(u))
    &&& all_digits(fraction_digits(u))
    &&& (fraction_len(u) > 0 || u.len() > 0)
}

/// The count of milliseconds that an offset denotes.
pub open spec fn offset_millis(s: Seq<u8>) -> int {
    let u = s.skip(sign_len(s));
    let magnitude = decimal_value(whole_digits(u)) * 1000 + fraction_millis(fraction_digits(u));
    if is_minus(s) {
        -magnitude
    } else {
        magnitude
    }
}

/// The time that the bytes denote as an offset; `None` where they are no
/// offset, or denote more than a time can hold.
pub open spec fn offset_at(s: Seq<u8>) -> Option<Time> {
    if is_offset(s) && i32::MIN <= offset_millis(s) <= i32::MAX {
        Some(Time { milliseconds: offset_millis(s) as i32 })
    } else {
        None
    }
}

/// The bytes of an offset behind its sign: digits, but for the point that
/// stands before the last one to three of them.
pub proof fn lemma_offset_shape(s: Seq<u8>)
    requires
        is_offset(s),
    ensures
        sign_len(s) < s.len(),
        forall|j: int|
            sign_len(s) <= j < s.len() ==> if fraction_len(s.skip(sign_len(s))) > 0 && j == s.len()
                - fraction_len(s.skip(sign_len(s))) - 1 {
                s[j] == 46
            } else {
                is_digit(#[trigger] s[j])
            },
{
    let sl = sign_len(s);
    let u = s.skip(sl);
    let f = fraction_len(u);
    let whole = whole_digits(u);
    let frac = fraction_digits(u);
    assert forall|j: int| sl <= j < s.len() implies if f > 0 && j == s.len() - f - 1 {
        s[j] == 46
    } else {
        is_digit(#[trigger] s[j])
    } by {
        if f > 0 && j == s.len() - f - 1 {
            assert(u[u.len() - f - 1] == s[j]);
        } else if f > 0 && j > s.len() - f - 1 {
            assert(frac[j - (s.len() - f)] == s[j]);
        } else {
            assert(whole[j - sl] == s[j]);
        }
    }
}

/// Digits alone, behind an optional sign, are an offset of whole seconds.
pub proof fn lemma_whole_offset(s: Seq<u8>)
    requires
        sign_len(s) < s.len(),
        forall|j: int| sign_len(s) <= j < s.len() ==> is_digit(#[trigger] s[j]),
    ensures
        is_offset(s),
        offset_millis(s) == if is_minus(s) {
            -(decimal_value(s.skip(sign_len(s))) * 1000)
        } else {
            decimal_value(s.skip(sign_len(s))) * 1000
        },
{
    let sl = sign_len(s);
    let u = s.skip(sl);
    let n = u.len() as int;
    assert forall|k: int| 0 <= k < n implies is_digit(#[trigger] u[k]) by {
        assert(u[k] == s[sl + k]);
    }
    if n >= 2 {
        assert(is_digit(u[n - 2]));
    }
    if n >= 3 {
        assert(is_digit(u[n - 3]));
    }
    if n >= 4 {
        assert(is_digit(u[n - 4]));
    }
    assert(fraction_len(u) == 0);
    assert(fraction_digits(u) =~= Seq::<u8>::empty());
    assert(decimal_value(fraction_digits(u)) == 0);
}

/// Digits, a point at `d` and one to three digits behind it, all behind an
/// optional sign, are an offset; its value is that of the digits before the
/// point in seconds and of those behind it in tenths, hundredths and
/// thousandths.
pub proof fn lemma_fraction_offset(s: Seq<u8>, d: int)
    requires
        sign_len(s) <= d < s.len(),
        s[d] == 46,
        1 <= s.len() - d - 1 <= 3,
        forall|j: int| sign_len(s) <= j < s.len() && j != d ==> is_digit(#[trigger] s[j]),
    ensures
        is_offset(s),
        offset_millis(s) == {
            let f = s.len() - d - 1;
            let magnitude = decimal_value(s.subrange(sign_len(s), d)) * 1000 + 100 * digit_value(
                s[d + 1],
            ) + (if f >= 2 {
                10 * digit_value(s[d + 2])
            } else {
                0
            }) + (if f >= 3 {
                digit_value(s[d + 3])
            } else {
                0
            });
            if is_minus(s) {
                -magnitude
            } else {
                magnitude
            }
        },
{
    let sl = sign_len(s);
    let u = s.skip(sl);
    let n = u.len() as int;
    let f = s.len() - d - 1;
    assert(forall|k: int| 0 <= k < n ==> u[k] == s[sl + k]);
    assert(u[n - f - 1] == 46);
    if f >= 2 {
        assert(is_digit(s[d + 2]));
        assert(u[n - 2] == s[d + f - 1]);
    }
    if f >= 3 {
        assert(is_digit(s[d + 3]));
        assert(u[n - 3] == s[d + 1]);
        assert(is_digit(s[d + 1]));
    }
    assert(fraction_len(u) == f);
    let whole = whole_digits(u);
    let frac = fraction_digits(u);
    assert(whole =~= s.subrange(sl, d));
    assert forall|k: int| 0 <= k < whole.len() implies is_digit(#[trigger] whole[k]) by {
        assert(whole[k] == s[sl + k]);
    }
    assert forall|k: int| 0 <= k < frac.len() implies is_digit(#[trigger] frac[k]) by {
        assert(frac[k] == s[d + 1 + k]);
    }
    let none = Seq::<u8>::empty();
    assert(decimal_value(none) == 0);
    lemma_decimal_value_push(none, s[d + 1]);
    if f == 1 {
        assert(frac =~= none.push(s[d + 1]));
    } else if f == 2 {
        lemma_decimal_value_push(none.push(s[d + 1]), s[d + 2]);
        assert(frac =~= none.push(s[d + 1]).push(s[d + 2]));
    } else {
        lemma_decimal_value_push(none.push(s[d + 1]), s[d + 2]);
        lemma_decimal_value_push(none.push(s[d + 1]).push(s[d + 2]), s[d + 3]);
        assert(frac =~= none.push(s[d + 1]).push(s[d + 2]).push(s[d + 3]));
    }
}

/// What the scanner of an offset waits for.
#[derive(Clone, Copy, Debug, PartialEq, Eq, Structural)]
enum Expecting {
    SignSecondsOrDot,
    SecondsOrDot,
    SecondsDotOrEnd,
    Milliseconds1,
    Milliseconds2OrEnd,
    Milliseconds3OrEnd,
    End,
}

/// The count of whole seconds that the scanner keeps: exact below the cap,
/// the cap from there on.
spec fn capped(seconds: int) -> int {
    if seconds < SECONDS_CAP {
        seconds
    } else {
        SECONDS_CAP as int
    }
}

/// What the scanner has read while it waits for `expecting` at byte `i`:
/// behind the sign the bytes before `i` are digits, but for a point at `d`,
/// and the two counts hold what those digits denote.
spec fn scanned(
    expecting: Expecting,
    s: Seq<u8>,
    i: int,
    d: int,
    seconds: int,
    millis: int,
) -> bool {
    let sl = sign_len(s);
    let before_point = sl <= d < i && s[d] == 46 && seconds == capped(
        decimal_value(s.subrange(sl, d)),
    ) && forall|j: int| sl <= j < i && j != d ==> is_digit(#[trigger] s[j]);
    match expecting {
        Expecting::SignSecondsOrDot => i == 0 && seconds == 0 && millis == 0,
        Expecting::SecondsOrDot => i == 1 && sl == 1 && seconds == 0 && millis == 0,
        Expecting::SecondsDotOrEnd => sl < i && millis == 0 && seconds == capped(
            decimal_value(s.subrange(sl, i)),
        ) && forall|j: int| sl <= j < i ==> is_digit(#[trigger] s[j]),
        Expecting::Milliseconds1 => before_point && i == d + 1 && millis == 0,
        Expecting::Milliseconds2OrEnd => before_point && i == d + 2 && millis == 100 * digit_value(
            s[d + 1],
        ),
        Expecting::Milliseconds3OrEnd => before_point && i == d + 3 && millis == 100 * digit_value(
            s[d + 1],
        ) + 10 * digit_value(s[d + 2]),
        Expecting::End => before_point && i == d + 4 && millis == 100 * digit_value(s[d + 1]) + 10
            * digit_value(s[d + 2]) + digit_value(s[d + 3]),
    }
}

/// A byte behind the sign that is neither a digit nor the one point leaves
/// no offset: a byte that is neither digit nor point, a point behind an
/// earlier one at `d`, a point with more than three bytes behind it, or a
/// point at the very end.
pub proof fn lemma_stray_byte(s: Seq<u8>, j: int, d: int)
    requires
        sign_len(s) <= j < s.len(),
        !is_digit(s[j]),
        s[j] != 46 || (sign_len(s) <= d < j && s[d] == 46) || s.len() - j > 4 || j == s.len() - 1,
    ensures
        !is_offset(s),
{
    if is_offset(s) {
        lemma_offset_shape(s);
        if sign_len(s) <= d < j && s[d] == 46 {
            assert(!is_digit(s[d]));
        }
    }
}

impl Time {
    /// Reads an offset argument: an optional sign, then seconds as digits,
    /// with or without a point and one to three digits of fraction, or a
    /// point and such a fraction alone. Gives `None` for anything else, a
    /// fourth digit of fraction included, and for an offset that a time
    /// cannot hold.
    pub fn parse_seconds(input: &[u8]) -> (found: Option<Time>)
        ensures
            found == offset_at(input@),
    {
        let mut expecting = Expecting::SignSecondsOrDot;
        let mut negative: bool = false;
        let mut seconds: i64 = 0;
        let mut millis: i64 = 0;
        let mut i: usize = 0;
        let ghost mut d: int = 0;
        while i < input.len()
            invariant
                i <= input@.len(),
                0 <= seconds <= SECONDS_CAP,
                scanned(expecting, input@, i as int, d, seconds as int, millis as int),
                negative == (i > 0 && is_minus(input@)),
            decreases input@.len() - i,
        {
            let byte: u8 = input[i];
            let ghost sl = sign_len(input@);
            match expecting {
                Expecting::SignSecondsOrDot => {
                    if byte == MINUS {
                        negative = true;
                        expecting = Expecting::SecondsOrDot;
                    } else if byte == PLUS {
                        expecting = Expecting::SecondsOrDot;
                    } else if byte == POINT {
                        proof {
                            d = 0;
                            assert(input@.subrange(0, 0) =~= Seq::<u8>::empty());
                        }
                        expecting = Expecting::Milliseconds1;
                    } else if byte_is_digit(byte) {
                        seconds = digit_of(byte) as i64;
                        proof {
                            lemma_decimal_value_push(Seq::<u8>::empty(), byte);
                            assert(input@.subrange(0, 1) =~= Seq::<u8>::empty().push(byte));
                        }
                        expecting = Expecting::SecondsDotOrEnd;
                    } else {
                        proof {
                            lemma_stray_byte(input@, 0, 0);
                        }
                        return None;
                    }
                },
                Expecting::SecondsOrDot | Expecting::SecondsDotOrEnd => {
                    if byte_is_digit(byte) {
                        let next: i64 = seconds * 10 + digit_of(byte) as i64;
                        proof {
                            lemma_decimal_value_push(input@.subrange(sl, i as int), byte);
                            assert(input@.subrange(sl, i + 1) =~= input@.subrange(sl, i as int).push(
                                byte,
                            ));
                            lemma_digits_value_bounds(input@.subrange(sl, i as int));
                        }
                        seconds = if next < SECONDS_CAP {
                            next
                        } else {
                            SECONDS_CAP
                        };
                        expecting = Expecting::SecondsDotOrEnd;
                    } else if byte == POINT {
                        proof {
                            d = i as int;
                        }
                        expecting = Expecting::Milliseconds1;
                    } else {
                        proof {
                            lemma_stray_byte(input@, i as int, 0);
                        }
                        return None;
                    }
                },
                Expecting::Milliseconds1 => {
                    if !byte_is_digit(byte) {
                        proof {
                            lemma_stray_byte(input@, i as int, d);
                        }
                        return None;
                    }
                    millis = 100 * (digit_of(byte) as i64);
                    expecting = Expecting::Milliseconds2OrEnd;
                },
                Expecting::Milliseconds2OrEnd => {
                    if !byte_is_digit(byte) {
                        proof {
                            lemma_stray_byte(input@, i as int, d);
                        }
                        return None;
                    }
                    millis = millis + 10 * (digit_of(byte) as i64);
                    expecting = Expecting::Milliseconds3OrEnd;
                },
                Expecting::Milliseconds3OrEnd => {
                    if !byte_is_digit(byte) {
                        proof {
                            lemma_stray_byte(input@, i as int, d);
                        }
                        return None;
                    }
                    millis = millis + (digit_of(byte) as i64);
                    expecting = Expecting::End;
                },
                Expecting::End => {
                    proof {
                        lemma_stray_byte(input@, d, d);
                    }
                    return None;
                },
            }
            i = i + 1;
        }
        let ghost sl = sign_len(input@);
        match expecting {
            Expecting::SignSecondsOrDot | Expecting::SecondsOrDot => {
                return None;
            },
            Expecting::Milliseconds1 => {
                proof {
                    lemma_stray_byte(input@, d, d);
                }
                return None;
            },
            Expecting::SecondsDotOrEnd => {
                proof {
                    lemma_whole_offset(input@);
                    assert(input@.subrange(sl, i as int) =~= input@.skip(sl));
                }
            },
            _ => {
                proof {
                    lemma_fraction_offset(input@, d);
                }
            },
        }
        let magnitude: i64 = seconds * 1000 + millis;
        let total: i64 = if negative {
            -magnitude
        } else {
            magnitude
        };
        if total < -0x8000_0000 || total > 0x7fff_ffff {
            return None;
        }
        Some(Time { milliseconds: total as i32 })
    }
}

/// The two offsets of one rewrite: what is added to every begin time and
/// what is added to every end time.
#[derive(Clone, Copy, Debug, PartialEq, Eq, Structural)]
pub struct OffsetPair {
    pub begin: Time,
    pub end: Time,
}

/// The pair of offsets that up to two arguments give: none leaves both at
/// zero, one sets both, two set begin and end in turn. An argument that is
/// no offset is an error that names its role; of two bad ones the first.
pub open spec fn offsets_of(arguments: Seq<Seq<u8>>) -> Result<OffsetPair, Error> {
    if arguments.len() == 0 {
        Ok(OffsetPair { begin: Time { milliseconds: 0 }, end: Time { milliseconds: 0 } })
    } else if arguments.len() == 1 {
        match offset_at(arguments[0]) {
            Some(both) => Ok(OffsetPair { begin: both, end: both }),
            None => Err(Error::InvalidOffsetArgument { role: OffsetRole::Both }),
        }
    } else {
        match offset_at(arguments[0]) {
            Some(begin) => match offset_at(arguments[1]) {
                Some(end) => Ok(OffsetPair { begin, end }),
                None => Err(Error::InvalidOffsetArgument { role: OffsetRole::End }),
            },
            None => Err(Error::InvalidOffsetArgument { role: OffsetRole::Begin }),
        }
    }
}

impl OffsetPair {
    /// Reads the offsets from the arguments that give them, at most two.
    pub fn from_arguments(arguments: &Vec<Vec<u8>>) -> (pair: Result<OffsetPair, Error>)
        requires
            arguments@.len() <= 2,
        ensures
            pair == offsets_of(arguments.deep_view()),
    {
        let zero = Time { milliseconds: 0 };
        if arguments.len() == 0 {
            return Ok(OffsetPair { begin: zero, end: zero });
        }
        assert(arguments.deep_view()[0] == arguments@[0]@);
        let first = Time::parse_seconds(arguments[0].as_slice());
        if arguments.len() == 1 {
            return match first {
                Some(both) => Ok(OffsetPair { begin: both, end: both }),
                None => Err(Error::InvalidOffsetArgument { role: OffsetRole::Both }),
            };
        }
        assert(arguments.deep_view()[1] == arguments@[1]@);
        match first {
            Some(begin) => match Time::parse_seconds(arguments[1].as_slice()) {
                Some(end) => Ok(OffsetPair { begin, end }),
                None => Err(Error::InvalidOffsetArgument { role: OffsetRole::End }),
            },
            None => Err(Error::InvalidOffsetArgument { role: OffsetRole::Begin }),
        }
    }
}

} // verus!
