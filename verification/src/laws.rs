//! What holds of the library as a whole: laws that tie its functions
//! together, each proved from their specifications.

use crate::arith::lemma_wrap32_in_range;
use crate::digits::{
    all_digits, decimal_digits, decimal_value, digit_byte, is_digit,
    lemma_decimal_digits_are_digits, lemma_decimal_round_trip, lemma_decimal_value_push,
    lemma_three_digits, lemma_two_digits, lemma_unsigned_text_is_digits, padded_decimal,
};
use crate::error::{Error, Reason, Side};
use crate::offset::{
    fraction_millis, lemma_fraction_offset, lemma_stray_byte, offset_at,
    offset_millis, sign_len, OffsetPair,
};
use crate::rewriter::{
    header_line, header_token, lemma_error_stays, progress, range_fragment, range_outcome,
    rewritten, step_outcome, text_fragment, State,
};
use crate::time::{
    clock_text, format_text, hours_of, millis_of, minutes_of, seconds_of, wrap32, Time,
};
use crate::timestamp::{
    arrow, long_stamp, pair_value, range_at, short_stamp, timestamp_at, triple_value,
};
use vstd::prelude::*;

verus! {

/// The count below which a time has fewer than a hundred hours.
pub const HUNDRED_HOURS: i32 = 360000000;

/// A time split into its display fields and put together again is the
/// same time.
pub proof fn law_parts_add_up(time: Time)
    ensures
        Time::wrapped(
            hours_of(time@) * 3600000 + minutes_of(time@) * 60000 + seconds_of(time@) * 1000
                + millis_of(time@),
        ) == time,
{
    let ms = time@;
    lemma_wrap32_in_range(ms);
    if ms >= 0 {
        lemma_fields_of_count(ms);
    } else {
        lemma_fields_of_count(-ms);
        assert(hours_of(ms) == -hours_of(-ms));
        assert(minutes_of(ms) == -minutes_of(-ms));
        assert(seconds_of(ms) == -seconds_of(-ms));
        assert(millis_of(ms) == -millis_of(-ms));
    }
}

/// The text of a time that is not negative holds digits, colons and a full
/// stop, and so no minus sign.
pub proof fn law_format_has_no_sign(time: Time)
    requires
        time@ >= 0,
    ensures
        forall|i: int|
            0 <= i < format_text(time@).len() ==> {
                let b = #[trigger] format_text(time@)[i];
                is_digit(b) || b == 58 || b == 46
            },
        !format_text(time@).contains(45u8),
{
    let ms = time@;
    let text = format_text(ms);
    let hours = padded_decimal(hours_of(ms), 2);
    let minutes = padded_decimal(minutes_of(ms), 2);
    let seconds = padded_decimal(seconds_of(ms), 2);
    let millis = padded_decimal(millis_of(ms), 3);
    lemma_unsigned_text_is_digits(hours_of(ms), 2);
    lemma_unsigned_text_is_digits(minutes_of(ms), 2);
    lemma_unsigned_text_is_digits(seconds_of(ms), 2);
    lemma_unsigned_text_is_digits(millis_of(ms), 3);
    let clock = clock_text(ms);
    assert forall|i: int| 0 <= i < clock.len() implies {
        let b = #[trigger] clock[i];
        is_digit(b) || b == 58 || b == 46
    } by {
        let a = minutes.len() as int;
        let c = a + 1 + seconds.len();
        if i < a {
            assert(clock[i] == minutes[i]);
        } else if i == a {
        } else if i < c {
            assert(clock[i] == seconds[i - a - 1]);
        } else if i == c {
        } else {
            assert(clock[i] == millis[i - c - 1]);
        }
    }
    assert forall|i: int| 0 <= i < text.len() implies {
        let b = #[trigger] text[i];
        is_digit(b) || b == 58 || b == 46
    } by {
        if hours_of(ms) != 0 {
            let a = hours.len() as int;
            if i < a {
                assert(text[i] == hours[i]);
            } else if i == a {
            } else {
                assert(text[i] == clock[i - a - 1]);
            }
        }
    }
    if text.contains(45u8) {
        let i = choose|i: int| 0 <= i < text.len() && text[i] == 45u8;
        assert(is_digit(text[i]) || text[i] == 58 || text[i] == 46);
    }
}

/// The fields of a count that is not negative are within their natural
/// ranges and add up to the count.
pub proof fn lemma_fields_of_count(ms: int)
    requires
        0 <= ms,
    ensures
        0 <= hours_of(ms),
        0 <= minutes_of(ms) < 60,
        0 <= seconds_of(ms) < 60,
        0 <= millis_of(ms) < 1000,
        hours_of(ms) * 3600000 + minutes_of(ms) * 60000 + seconds_of(ms) * 1000 + millis_of(ms)
            == ms,
        ms < HUNDRED_HOURS ==> hours_of(ms) < 100,
{
}

/// Two digits that stand for a number below a hundred denote it.
proof fn lemma_pair_denotes(text: Seq<u8>, i: int, v: int)
    requires
        0 <= v < 100,
        0 <= i,
        i + 1 < text.len(),
        text[i] == digit_byte(v / 10),
        text[i + 1] == digit_byte(v % 10),
    ensures
        is_digit(text[i]),
        is_digit(text[i + 1]),
        pair_value(text, i) == v,
{
}

/// Three digits that stand for a number below a thousand denote it.
proof fn lemma_triple_denotes(text: Seq<u8>, i: int, v: int)
    requires
        0 <= v < 1000,
        0 <= i,
        i + 2 < text.len(),
        text[i] == digit_byte(v / 100),
        text[i + 1] == digit_byte((v / 10) % 10),
        text[i + 2] == digit_byte(v % 10),
    ensures
        is_digit(text[i]),
        is_digit(text[i + 1]),
        is_digit(text[i + 2]),
        triple_value(text, i) == v,
{
}

/// Minutes, seconds and milliseconds written out as `MM:SS.mmm` are a
/// timestamp without hours that denotes them.
pub proof fn lemma_clock_text_is_stamp(m: int, s: int, f: int)
    requires
        0 <= m < 100,
        0 <= s < 100,
        0 <= f < 1000,
    ensures
        ({
            let text = padded_decimal(m, 2) + seq![58u8] + padded_decimal(s, 2) + seq![46u8]
                + padded_decimal(f, 3);
            &&& text.len() == 9
            &&& short_stamp(text)
            &&& !long_stamp(text)
            &&& pair_value(text, 0) == m
            &&& pair_value(text, 3) == s
            &&& triple_value(text, 6) == f
        }),
{
    lemma_two_digits(m);
    lemma_two_digits(s);
    lemma_three_digits(f);
    let text = padded_decimal(m, 2) + seq![58u8] + padded_decimal(s, 2) + seq![46u8]
        + padded_decimal(f, 3);
    let want = seq![
        digit_byte(m / 10),
        digit_byte(m % 10),
        58u8,
        digit_byte(s / 10),
        digit_byte(s % 10),
        46u8,
        digit_byte(f / 100),
        digit_byte((f / 10) % 10),
        digit_byte(f % 10),
    ];
    assert(text =~= want);
    lemma_pair_denotes(text, 0, m);
    lemma_pair_denotes(text, 3, s);
    lemma_triple_denotes(text, 6, f);
}

/// Hours, minutes, seconds and milliseconds written out as `HH:MM:SS.mmm`
/// are a timestamp with hours that denotes them.
pub proof fn lemma_hours_text_is_stamp(h: int, m: int, s: int, f: int)
    requires
        0 <= h < 100,
        0 <= m < 100,
        0 <= s < 100,
        0 <= f < 1000,
    ensures
        ({
            let text = padded_decimal(h, 2) + seq![58u8] + (padded_decimal(m, 2) + seq![58u8]
                + padded_decimal(s, 2) + seq![46u8] + padded_decimal(f, 3));
            &&& text.len() == 12
            &&& long_stamp(text)
            &&& pair_value(text, 0) == h
            &&& pair_value(text, 3) == m
            &&& pair_value(text, 6) == s
            &&& triple_value(text, 9) == f
        }),
{
    lemma_two_digits(h);
    lemma_two_digits(m);
    lemma_two_digits(s);
    lemma_three_digits(f);
    let text = padded_decimal(h, 2) + seq![58u8] + (padded_decimal(m, 2) + seq![58u8]
        + padded_decimal(s, 2) + seq![46u8] + padded_decimal(f, 3));
    let want = seq![
        digit_byte(h / 10),
        digit_byte(h % 10),
        58u8,
        digit_byte(m / 10),
        digit_byte(m % 10),
        58u8,
        digit_byte(s / 10),
        digit_byte(s % 10),
        46u8,
        digit_byte(f / 100),
        digit_byte((f / 10) % 10),
        digit_byte(f % 10),
    ];
    assert(text =~= want);
    lemma_pair_denotes(text, 0, h);
    lemma_pair_denotes(text, 3, m);
    lemma_pair_denotes(text, 6, s);
    lemma_triple_denotes(text, 9, f);
}

/// A time from zero to just under a hundred hours, written out and read
/// back as a timestamp, is the same time, and the whole text is read.
pub proof fn law_format_round_trip(time: Time)
    requires
        0 <= time@ < HUNDRED_HOURS,
    ensures
        timestamp_at(format_text(time@)) == Some((time@, format_text(time@).len())),
{
    let ms = time@;
    lemma_fields_of_count(ms);
    if hours_of(ms) == 0 {
        lemma_clock_text_is_stamp(minutes_of(ms), seconds_of(ms), millis_of(ms));
    } else {
        lemma_hours_text_is_stamp(hours_of(ms), minutes_of(ms), seconds_of(ms), millis_of(ms));
    }
}

/// A time of a hundred hours or more is written with three digits of
/// hours, which no timestamp has: its text does not read back.
pub proof fn law_hundred_hours_do_not_read_back(time: Time)
    requires
        time@ >= HUNDRED_HOURS,
    ensures
        timestamp_at(format_text(time@)) is None,
{
    let ms = time@;
    let h = hours_of(ms);
    let digits = decimal_digits(h as nat);
    lemma_decimal_digits_are_digits(h as nat);
    lemma_decimal_digits_are_digits((h as nat) / 10);
    lemma_decimal_digits_are_digits((h as nat) / 10 / 10);
    assert(digits.len() >= 3);
    assert(padded_decimal(h, 2) == digits);
    let text = format_text(ms);
    assert(text[2] == digits[2]);
    assert(is_digit(digits[2]));
}

/// Seconds, a point and one to three digits of fraction are an offset of
/// that many seconds and of the fraction in milliseconds, the fraction
/// being filled with zeros on the right; provided a time can hold it.
pub proof fn law_seconds_and_fraction(seconds: nat, fraction: Seq<u8>)
    requires
        all_digits(fraction),
        1 <= fraction.len() <= 3,
        seconds * 1000 + fraction_millis(fraction) <= i32::MAX,
    ensures
        offset_at(decimal_digits(seconds) + seq![46u8] + fraction) == Some(
            Time { milliseconds: (seconds * 1000 + fraction_millis(fraction)) as i32 },
        ),
{
    let whole = decimal_digits(seconds);
    let s = whole + seq![46u8] + fraction;
    let d = whole.len() as int;
    lemma_decimal_digits_are_digits(seconds);
    lemma_decimal_round_trip(seconds);
    assert(s[0] == whole[0]);
    assert(is_digit(whole[0]));
    assert(sign_len(s) == 0);
    assert forall|j: int| 0 <= j < s.len() && j != d implies is_digit(#[trigger] s[j]) by {
        if j < d {
            assert(s[j] == whole[j]);
        } else {
            assert(s[j] == fraction[j - d - 1]);
        }
    }
    lemma_fraction_offset(s, d);
    assert(s.subrange(0, d) =~= whole);
    let none = Seq::<u8>::empty();
    assert(decimal_value(none) == 0);
    lemma_decimal_value_push(none, fraction[0]);
    assert(s[d + 1] == fraction[0]);
    if fraction.len() == 1 {
        assert(fraction =~= none.push(fraction[0]));
    } else if fraction.len() == 2 {
        assert(s[d + 2] == fraction[1]);
        lemma_decimal_value_push(none.push(fraction[0]), fraction[1]);
        assert(fraction =~= none.push(fraction[0]).push(fraction[1]));
    } else {
        assert(s[d + 2] == fraction[1]);
        assert(s[d + 3] == fraction[2]);
        lemma_decimal_value_push(none.push(fraction[0]), fraction[1]);
        lemma_decimal_value_push(none.push(fraction[0]).push(fraction[1]), fraction[2]);
        assert(fraction =~= none.push(fraction[0]).push(fraction[1]).push(fraction[2]));
    }
    assert(is_digit(fraction[0]));
    assert(offset_millis(s) == seconds * 1000 + fraction_millis(fraction));
}

/// A point with four or more bytes behind it leaves no offset, whatever
/// stands before and behind: a fourth digit of fraction is refused.
pub proof fn law_fourth_fraction_digit_is_refused(before: Seq<u8>, after: Seq<u8>)
    requires
        after.len() >= 4,
    ensures
        offset_at(before + seq![46u8] + after) is None,
{
    let s = before + seq![46u8] + after;
    let d = before.len() as int;
    assert(s[d] == 46);
    lemma_stray_byte(s, d, d);
}

/// A point with nothing behind it leaves no offset.
pub proof fn law_empty_fraction_is_refused(before: Seq<u8>)
    ensures
        offset_at(before.push(46u8)) is None,
{
    let s = before.push(46u8);
    let d = before.len() as int;
    assert(s[d] == 46);
    lemma_stray_byte(s, d, d);
}

/// A timestamp denotes a count from zero up to that of `99:99:99.999`.
pub proof fn lemma_timestamp_bounds(s: Seq<u8>)
    requires
        timestamp_at(s) is Some,
    ensures
        timestamp_at(s) matches Some((ms, n)) && 0 <= ms <= 362439999 && (n == 9 || n == 12) && n
            <= s.len(),
{
}

/// The two times of a range are counts from zero up to that of
/// `99:99:99.999`.
pub proof fn lemma_range_bounds(line: Seq<u8>)
    requires
        range_at(line) is Some,
    ensures
        range_at(line) matches Some((begin, end)) && 0 <= begin <= 362439999 && 0 <= end
            <= 362439999,
        line.len() >= 23,
{
    lemma_timestamp_bounds(line);
    let n = timestamp_at(line).unwrap().1;
    lemma_timestamp_bounds(line.skip(n as int + 5));
}

/// Two texts that are each one whole timestamp, with the separator
/// between them, are the range of the two.
pub proof fn lemma_range_of_stamps(first: Seq<u8>, second: Seq<u8>)
    requires
        timestamp_at(first) matches Some((_, n)) && n == first.len(),
        timestamp_at(second) is Some,
    ensures
        range_at(first + arrow() + second) == Some(
            (timestamp_at(first).unwrap().0, timestamp_at(second).unwrap().0),
        ),
{
    let line = first + arrow() + second;
    let n = first.len() as int;
    assert(forall|i: int| 0 <= i < n ==> line[i] == first[i]);
    assert(line[n] == 32);
    assert(long_stamp(line) == long_stamp(first));
    assert(short_stamp(line) == short_stamp(first));
    assert(line.subrange(n, n + 5) =~= arrow());
    assert(line.skip(n + 5) =~= second);
}

/// Two times from zero to just under a hundred hours, written out with the
/// separator between them, read back as the range of those two times.
pub proof fn law_range_round_trip(begin: Time, end: Time)
    requires
        0 <= begin@ < HUNDRED_HOURS,
        0 <= end@ < HUNDRED_HOURS,
    ensures
        range_at(format_text(begin@) + arrow() + format_text(end@)) == Some((begin@, end@)),
{
    law_format_round_trip(begin);
    law_format_round_trip(end);
    lemma_range_of_stamps(format_text(begin@), format_text(end@));
}

/// A blank line is passed over before a cue, ends a cue whose text has
/// begun, and is an error where times or text are due.
pub proof fn law_blank_lines(state: State, number: usize, offsets: OffsetPair)
    ensures
        step_outcome(state, number, Seq::<u8>::empty(), offsets) == match state {
            State::HeaderOrCueOrBlank => Ok((State::HeaderOrCueOrBlank, Seq::<u8>::empty())),
            State::CueIndexOrTimes => Err::<(State, Seq<u8>), Error>(
                Error::MalformedStructure { line: number, reason: Reason::ExpectedTimesThenText },
            ),
            State::CueIndexTimesOrBlank => Ok((State::CueIndexTimesOrBlank, Seq::<u8>::empty())),
            State::CueText => Err::<(State, Seq<u8>), Error>(
                Error::MalformedStructure { line: number, reason: Reason::ExpectedText },
            ),
            State::CueTextOrBlank => Ok((State::CueIndexTimesOrBlank, Seq::<u8>::empty())),
        },
{
    reveal(step_outcome);
}

/// The header word, where a document may open with it, is passed over.
pub proof fn law_header_is_passed_over(number: usize, offsets: OffsetPair)
    ensures
        step_outcome(State::HeaderOrCueOrBlank, number, header_token(), offsets) == Ok::<
            (State, Seq<u8>),
            Error,
        >((State::HeaderOrCueOrBlank, Seq::<u8>::empty())),
{
    reveal(step_outcome);
    assert(header_token()[0] == 87);
    assert(timestamp_at(header_token()) is None);
}

/// A line of a cue's text that is neither blank nor a time range is copied
/// with a line feed behind it.
pub proof fn law_text_is_copied(state: State, number: usize, line: Seq<u8>, offsets: OffsetPair)
    requires
        state == State::CueText || state == State::CueTextOrBlank,
        line.len() > 0,
        range_at(line) is None,
    ensures
        step_outcome(state, number, line, offsets) == Ok::<(State, Seq<u8>), Error>(
            (State::CueTextOrBlank, text_fragment(line)),
        ),
{
    reveal(step_outcome);
}

/// With both offsets at zero a time range is written with its own times.
pub proof fn lemma_range_outcome_unmoved(begin: int, end: int)
    requires
        0 <= begin <= i32::MAX,
        0 <= end <= i32::MAX,
    ensures
        range_outcome(
            begin,
            end,
            OffsetPair { begin: Time { milliseconds: 0 }, end: Time { milliseconds: 0 } },
        ) == Ok::<(State, Seq<u8>), Error>(
            (
                State::CueText,
                range_fragment(
                    Time { milliseconds: begin as i32 },
                    Time { milliseconds: end as i32 },
                ),
            ),
        ),
{
    lemma_wrap32_in_range(begin);
    lemma_wrap32_in_range(end);
    let zero = Time { milliseconds: 0 };
    assert(Time::wrapped(begin + zero@) == Time { milliseconds: begin as i32 });
    assert(Time::wrapped(end + zero@) == Time { milliseconds: end as i32 });
}

/// A document in the newer format that holds its header, a blank line, a
/// time range, a line of text and a blank line comes out, with both
/// offsets at zero, as the header line, the range written anew and the
/// text: the header stands once, and nothing else is added or lost.
pub proof fn law_single_cue_document(range_line: Seq<u8>, text_line: Seq<u8>)
    requires
        range_at(range_line) is Some,
        text_line.len() > 0,
        range_at(text_line) is None,
    ensures
        ({
            let zero = Time { milliseconds: 0 };
            let range = range_at(range_line).unwrap();
            let begin = Time { milliseconds: range.0 as i32 };
            let end = Time { milliseconds: range.1 as i32 };
            let lines = seq![
                header_token(),
                Seq::<u8>::empty(),
                range_line,
                text_line,
                Seq::<u8>::empty(),
            ];
            let done = rewritten(lines, OffsetPair { begin: zero, end: zero }, true);
            &&& done.state == Ok::<State, Error>(State::CueIndexTimesOrBlank)
            &&& done.written == header_line() + range_fragment(begin, end) + text_fragment(
                text_line,
            )
        }),
{
    let zero = Time { milliseconds: 0 };
    let offsets = OffsetPair { begin: zero, end: zero };
    let lines = seq![
        header_token(),
        Seq::<u8>::empty(),
        range_line,
        text_line,
        Seq::<u8>::empty(),
    ];
    let range = range_at(range_line).unwrap();
    let begin = Time { milliseconds: range.0 as i32 };
    let end = Time { milliseconds: range.1 as i32 };
    lemma_range_bounds(range_line);
    law_header_is_passed_over(1, offsets);
    law_blank_lines(State::HeaderOrCueOrBlank, 2, offsets);
    law_range_where_welcome(State::HeaderOrCueOrBlank, 3, range_line, offsets);
    lemma_range_outcome_unmoved(range.0, range.1);
    law_text_is_copied(State::CueText, 4, text_line, offsets);
    law_blank_lines(State::CueTextOrBlank, 5, offsets);
    let at_start = progress(lines, 0, offsets, true);
    let past_header = progress(lines, 1, offsets, true);
    let past_blank = progress(lines, 2, offsets, true);
    let past_range = progress(lines, 3, offsets, true);
    let past_text = progress(lines, 4, offsets, true);
    let at_end = progress(lines, 5, offsets, true);
    assert(at_start.state == Ok::<State, Error>(State::HeaderOrCueOrBlank));
    assert(past_header.state == Ok::<State, Error>(State::HeaderOrCueOrBlank) && past_header.written
        =~= header_line());
    assert(past_blank.state == Ok::<State, Error>(State::HeaderOrCueOrBlank) && past_blank.written
        =~= header_line());
    assert(past_range.state == Ok::<State, Error>(State::CueText) && past_range.written =~= header_line()
        + range_fragment(begin, end));
    assert(past_text.state == Ok::<State, Error>(State::CueTextOrBlank) && past_text.written =~= header_line()
        + range_fragment(begin, end) + text_fragment(text_line));
    assert(at_end.state == Ok::<State, Error>(State::CueIndexTimesOrBlank) && at_end.written
        =~= past_text.written);
}

/// Whether the state takes a time range as the start of a cue.
pub open spec fn welcomes_times(state: State) -> bool {
    state == State::HeaderOrCueOrBlank || state == State::CueIndexOrTimes || state
        == State::CueIndexTimesOrBlank
}

/// Where a time range is welcome, it is written anew or refused for a time
/// below zero, whatever the number of its line.
pub proof fn law_range_where_welcome(state: State, number: usize, line: Seq<u8>, offsets: OffsetPair)
    requires
        welcomes_times(state),
        range_at(line) is Some,
    ensures
        range_at(line) matches Some((begin, end)) && step_outcome(state, number, line, offsets)
            == range_outcome(begin, end, offsets),
{
    reveal(step_outcome);
    lemma_range_bounds(line);
}

/// A begin time that its offset moves below zero ends the rewrite: from
/// the line of that range on, the error names the begin side, and what has
/// been written is what was written before that line, so that no later cue
/// leaves a trace.
pub proof fn law_negative_begin_aborts(
    lines: Seq<Seq<u8>>,
    failing: nat,
    later: nat,
    offsets: OffsetPair,
    target_format: bool,
)
    requires
        failing < later <= lines.len(),
        lines.len() <= usize::MAX,
        progress(lines, failing, offsets, target_format).state is Ok,
        welcomes_times(progress(lines, failing, offsets, target_format).state->Ok_0),
        range_at(lines[failing as int]) matches Some((begin, _)) && wrap32(begin + offsets.begin@)
            < 0,
    ensures
        progress(lines, later, offsets, target_format).state == Err::<State, Error>(
            Error::NegativeResultingTime { side: Side::Begin },
        ),
        progress(lines, later, offsets, target_format).written == progress(
            lines,
            failing,
            offsets,
            target_format,
        ).written,
{
    let state = progress(lines, failing, offsets, target_format).state->Ok_0;
    law_range_where_welcome(state, (failing + 1) as usize, lines[failing as int], offsets);
    let at = progress(lines, failing + 1, offsets, target_format);
    assert(at.state == Err::<State, Error>(Error::NegativeResultingTime { side: Side::Begin }));
    lemma_error_stays(lines, failing + 1, later, offsets, target_format);
}

/// A time range among the lines of a cue's text is an error, not the start
/// of a new cue: a blank line has to come first.
pub proof fn law_range_within_text_is_refused(
    state: State,
    number: usize,
    line: Seq<u8>,
    offsets: OffsetPair,
)
    requires
        state == State::CueText || state == State::CueTextOrBlank,
        range_at(line) is Some,
    ensures
        step_outcome(state, number, line, offsets) == Err::<(State, Seq<u8>), Error>(
            Error::MalformedStructure { line: number, reason: Reason::ExpectedBlankBeforeTimes },
        ),
{
    reveal(step_outcome);
    lemma_range_bounds(line);
}

/// Between cues, a line that is neither blank nor a time range is taken
/// for the number of the next cue, whatever it holds: nothing is written
/// for it, and the range that follows is treated as one that had no number
/// before it.
pub proof fn law_cue_numbers_are_dropped(
    number: usize,
    index_line: Seq<u8>,
    range_line: Seq<u8>,
    offsets: OffsetPair,
)
    requires
        index_line.len() > 0,
        range_at(index_line) is None,
        range_at(range_line) is Some,
        number < usize::MAX,
    ensures
        step_outcome(State::CueIndexTimesOrBlank, number, index_line, offsets) == Ok::<
            (State, Seq<u8>),
            Error,
        >((State::CueIndexOrTimes, Seq::<u8>::empty())),
        step_outcome(State::CueIndexOrTimes, (number + 1) as usize, range_line, offsets)
            == step_outcome(State::CueIndexTimesOrBlank, number, range_line, offsets),
{
    reveal(step_outcome);
    lemma_range_bounds(range_line);
}

} // verus!
