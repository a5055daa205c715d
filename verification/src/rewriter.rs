//! The line state machine that rewrites a cue document.
//!
//! Each line is blank, a time range, or something else, and what becomes of
//! it depends on what the document was waiting for. Ranges are written anew
//! with the offsets applied, text is copied, the numbers that the older
//! format puts before its ranges are dropped. The first line that does not
//! fit ends the rewrite.

use crate::error::{Error, Reason, Side};
use crate::offset::OffsetPair;
use crate::time::{format_text, Time};
use crate::timestamp::{arrow, range_at};
use vstd::prelude::*;

verus! {

/// The byte that ends a line.
pub const LINE_FEED: u8 = 10;

/// What the document is waiting for.
#[derive(Clone, Copy, Debug, PartialEq, Eq, Structural)]
pub enum State {
    /// The header, the number or the times of a cue, or a blank line.
    HeaderOrCueOrBlank,
    /// The times of a cue, a number having been read.
    CueIndexOrTimes,
    /// The number or the times of a cue, or a blank line.
    CueIndexTimesOrBlank,
    /// The first line of a cue's text.
    CueText,
    /// A further line of a cue's text, or the blank line that ends the cue.
    CueTextOrBlank,
}

/// The word that a document in the newer format starts with: `WEBVTT`.
pub open spec fn header_token() -> Seq<u8> {
    seq![87u8, 69u8, 66u8, 86u8, 84u8, 84u8]
}

/// The line that every rewritten document starts with.
pub open spec fn header_line() -> Seq<u8> {
    header_token().push(10u8)
}

/// What a time range is written as: a blank line, the two times with the
/// separator between them, and a line feed.
pub open spec fn range_fragment(begin: Time, end: Time) -> Seq<u8> {
    seq![10u8] + format_text(begin@) + arrow() + format_text(end@) + seq![10u8]
}

/// What a line of text is written as: itself and a line feed.
pub open spec fn text_fragment(line: Seq<u8>) -> Seq<u8> {
    line.push(10u8)
}

/// The state that a document starts in: one in the newer format may open
/// with its header, one in the older format opens with a cue.
pub open spec fn initial_state(target_format: bool) -> State {
    if target_format {
        State::HeaderOrCueOrBlank
    } else {
        State::CueIndexTimesOrBlank
    }
}

/// What becomes of a time range where one is welcome: with the offsets
/// added, the times are written out and text is due; a time that comes out
/// below zero is an error that names its side, the begin before the end.
pub open spec fn range_outcome(begin: int, end: int, offsets: OffsetPair) -> Result<
    (State, Seq<u8>),
    Error,
> {
    let begin = Time::wrapped(begin + offsets.begin@);
    let end = Time::wrapped(end + offsets.end@);
    if begin@ < 0 {
        Err(Error::NegativeResultingTime { side: Side::Begin })
    } else if end@ < 0 {
        Err(Error::NegativeResultingTime { side: Side::End })
    } else {
        Ok((State::CueText, range_fragment(begin, end)))
    }
}

/// The outcome for a line that does not fit where it stands.
pub open spec fn misplaced(number: usize, reason: Reason) -> Result<(State, Seq<u8>), Error> {
    Err(Error::MalformedStructure { line: number, reason })
}

/// What becomes of the line with the given number, counted from one, in
/// the given state: the next state and the bytes to write, or the error
/// that ends the rewrite.
#[verifier::opaque]
pub open spec fn step_outcome(state: State, number: usize, line: Seq<u8>, offsets: OffsetPair)
    -> Result<(State, Seq<u8>), Error> {
    let nothing = Seq::<u8>::empty();
    match state {
        State::HeaderOrCueOrBlank => {
            if line.len() == 0 {
                Ok((State::HeaderOrCueOrBlank, nothing))
            } else if let Some((begin, end)) = range_at(line) {
                range_outcome(begin, end, offsets)
            } else if line == header_token() {
                Ok((State::HeaderOrCueOrBlank, nothing))
            } else {
                Ok((State::CueIndexOrTimes, nothing))
            }
        },
        State::CueIndexOrTimes => {
            if line.len() == 0 {
                misplaced(number, Reason::ExpectedTimesThenText)
            } else if let Some((begin, end)) = range_at(line) {
                range_outcome(begin, end, offsets)
            } else if number == 1 {
                Ok((State::CueIndexOrTimes, nothing))
            } else {
                misplaced(number, Reason::ExpectedTimesThenText)
            }
        },
        State::CueIndexTimesOrBlank => {
            if line.len() == 0 {
                Ok((State::CueIndexTimesOrBlank, nothing))
            } else if let Some((begin, end)) = range_at(line) {
                range_outcome(begin, end, offsets)
            } else {
                Ok((State::CueIndexOrTimes, nothing))
            }
        },
        State::CueText => {
            if line.len() == 0 {
                misplaced(number, Reason::ExpectedText)
            } else if range_at(line) is Some {
                misplaced(number, Reason::ExpectedBlankBeforeTimes)
            } else {
                Ok((State::CueTextOrBlank, text_fragment(line)))
            }
        },
        State::CueTextOrBlank => {
            if line.len() == 0 {
                Ok((State::CueIndexTimesOrBlank, nothing))
            } else if range_at(line) is Some {
                misplaced(number, Reason::ExpectedBlankBeforeTimes)
            } else {
                Ok((State::CueTextOrBlank, text_fragment(line)))
            }
        },
    }
}

/// How far a rewrite has come: what has been written, and the state that
/// it is in or the error that ended it.
pub struct Progress {
    pub written: Seq<u8>,
    pub state: Result<State, Error>,
}

/// The rewrite after the first `count` lines of a document. It starts with
/// the header line written; each line is then taken in turn until one
/// fails, and nothing is written from the failing line on.
pub open spec fn progress(
    lines: Seq<Seq<u8>>,
    count: nat,
    offsets: OffsetPair,
    target_format: bool,
) -> Progress
    decreases count,
{
    if count == 0 {
        Progress { written: header_line(), state: Ok(initial_state(target_format)) }
    } else {
        let before = progress(lines, (count - 1) as nat, offsets, target_format);
        match before.state {
            Ok(state) => match step_outcome(
                state,
                count as usize,
                lines[count - 1],
                offsets,
            ) {
                Ok((next, fragment)) => Progress {
                    written: before.written + fragment,
                    state: Ok(next),
                },
                Err(error) => Progress { written: before.written, state: Err(error) },
            },
            Err(_) => before,
        }
    }
}

/// The rewrite of a whole document.
pub open spec fn rewritten(lines: Seq<Seq<u8>>, offsets: OffsetPair, target_format: bool)
    -> Progress {
    progress(lines, lines.len(), offsets, target_format)
}

/// Tests whether a line is the header word.
pub fn is_header(line: &[u8]) -> (header: bool)
    ensures
        header == (line@ == header_token()),
{
    let header = line.len() == 6 && line[0] == 87 && line[1] == 69 && line[2] == 66 && line[3]
        == 86 && line[4] == 84 && line[5] == 84;
    proof {
        if header {
            assert(line@ =~= header_token());
        } else if line@.len() == 6 {
            let token = header_token();
            assert(token[0] == 87 && token[1] == 69 && token[2] == 66 && token[3] == 86
                && token[4] == 84 && token[5] == 84);
        }
    }
    header
}

/// Appends bytes to the output.
pub fn write_bytes(out: &mut Vec<u8>, bytes: &[u8])
    ensures
        final(out)@ == old(out)@ + bytes@,
{
    let mut i: usize = 0;
    while i < bytes.len()
        invariant
            i <= bytes@.len(),
            out@ == old(out)@ + bytes@.take(i as int),
        decreases bytes@.len() - i,
    {
        out.push(bytes[i]);
        i = i + 1;
        assert(out@ =~= old(out)@ + bytes@.take(i as int));
    }
    assert(bytes@.take(i as int) =~= bytes@);
}

/// Writes the line that every rewritten document starts with.
pub fn write_header(out: &mut Vec<u8>)
    ensures
        final(out)@ == old(out)@ + header_line(),
{
    out.push(87);
    out.push(69);
    out.push(66);
    out.push(86);
    out.push(84);
    out.push(84);
    out.push(LINE_FEED);
    assert(out@ =~= old(out)@ + header_line());
}

impl State {
    /// The state that a document starts in.
    pub fn initial(target_format: bool) -> (state: State)
        ensures
            state == initial_state(target_format),
    {
        if target_format {
            State::HeaderOrCueOrBlank
        } else {
            State::CueIndexTimesOrBlank
        }
    }
}

/// Applies the offsets to a time range and writes it out, unless a time
/// comes out below zero.
pub fn write_range(begin: Time, end: Time, offsets: &OffsetPair, out: &mut Vec<u8>) -> (next:
    Result<State, Error>)
    ensures
        match range_outcome(begin@, end@, *offsets) {
            Ok((state, fragment)) => next == Ok::<State, Error>(state) && final(out)@ == old(out)@
                + fragment,
            Err(error) => next == Err::<State, Error>(error) && final(out)@ == old(out)@,
        },
{
    let begin = begin + offsets.begin;
    let end = end + offsets.end;
    if begin.is_negative() {
        return Err(Error::NegativeResultingTime { side: Side::Begin });
    }
    if end.is_negative() {
        return Err(Error::NegativeResultingTime { side: Side::End });
    }
    let begin_text = begin.format();
    let end_text = end.format();
    out.push(LINE_FEED);
    write_bytes(out, begin_text.as_slice());
    out.push(32);
    out.push(45);
    out.push(45);
    out.push(62);
    out.push(32);
    write_bytes(out, end_text.as_slice());
    out.push(LINE_FEED);
    assert(out@ =~= old(out)@ + range_fragment(begin, end));
    Ok(State::CueText)
}

/// Takes one line of the document: the line with the given number, counted
/// from one, without its line terminator. Writes what the line comes to and
/// gives the state for the next line, or gives the error that ends the
/// rewrite and writes nothing.
pub fn step(state: State, number: usize, line: &[u8], offsets: &OffsetPair, out: &mut Vec<u8>)
    -> (next: Result<State, Error>)
    ensures
        match step_outcome(state, number, line@, *offsets) {
            Ok((state, fragment)) => next == Ok::<State, Error>(state) && final(out)@ == old(out)@
                + fragment,
            Err(error) => next == Err::<State, Error>(error) && final(out)@ == old(out)@,
        },
{
    reveal(step_outcome);
    let blank = line.len() == 0;
    match state {
        State::HeaderOrCueOrBlank | State::CueIndexOrTimes | State::CueIndexTimesOrBlank => {
            if blank {
                return match state {
                    State::CueIndexOrTimes => Err(
                        Error::MalformedStructure {
                            line: number,
                            reason: Reason::ExpectedTimesThenText,
                        },
                    ),
                    _ => {
                        assert(out@ =~= old(out)@ + Seq::<u8>::empty());
                        Ok(state)
                    },
                };
            }
            match Time::parse_times(line) {
                Some((begin, end)) => write_range(begin, end, offsets, out),
                None => {
                    assert(out@ =~= old(out)@ + Seq::<u8>::empty());
                    match state {
                        State::HeaderOrCueOrBlank => {
                            if is_header(line) {
                                Ok(State::HeaderOrCueOrBlank)
                            } else {
                                Ok(State::CueIndexOrTimes)
                            }
                        },
                        State::CueIndexOrTimes => {
                            if number == 1 {
                                Ok(State::CueIndexOrTimes)
                            } else {
                                Err(
                                    Error::MalformedStructure {
                                        line: number,
                                        reason: Reason::ExpectedTimesThenText,
                                    },
                                )
                            }
                        },
                        _ => Ok(State::CueIndexOrTimes),
                    }
                },
            }
        },
        State::CueText | State::CueTextOrBlank => {
            if blank {
                return match state {
                    State::CueText => Err(
                        Error::MalformedStructure { line: number, reason: Reason::ExpectedText },
                    ),
                    _ => {
                        assert(out@ =~= old(out)@ + Seq::<u8>::empty());
                        Ok(State::CueIndexTimesOrBlank)
                    },
                };
            }
            match Time::parse_times(line) {
                Some(_) => Err(
                    Error::MalformedStructure {
                        line: number,
                        reason: Reason::ExpectedBlankBeforeTimes,
                    },
                ),
                None => {
                    write_bytes(out, line);
                    out.push(LINE_FEED);
                    assert(out@ =~= old(out)@ + text_fragment(line@));
                    Ok(State::CueTextOrBlank)
                },
            }
        },
    }
}

/// Rewrites a whole document, given as its lines without their line
/// terminators. Writes the header line and then what each line comes to,
/// up to the first line that fails, and gives that line's error.
pub fn rewrite(
    lines: &Vec<Vec<u8>>,
    offsets: &OffsetPair,
    target_format: bool,
    out: &mut Vec<u8>,
) -> (done: Result<(), Error>)
    ensures
        final(out)@ == old(out)@ + rewritten(lines.deep_view(), *offsets, target_format).written,
        done == match rewritten(lines.deep_view(), *offsets, target_format).state {
            Ok(_) => Ok::<(), Error>(()),
            Err(error) => Err::<(), Error>(error),
        },
{
    write_header(out);
    let mut state = State::initial(target_format);
    let mut i: usize = 0;
    while i < lines.len()
        invariant
            i <= lines@.len(),
            progress(lines.deep_view(), i as nat, *offsets, target_format).state == Ok::<
                State,
                Error,
            >(state),
            out@ == old(out)@ + progress(
                lines.deep_view(),
                i as nat,
                *offsets,
                target_format,
            ).written,
        decreases lines@.len() - i,
    {
        let ghost before = progress(lines.deep_view(), i as nat, *offsets, target_format);
        assert(lines.deep_view()[i as int] == lines@[i as int]@);
        match step(state, i + 1, lines[i].as_slice(), offsets, out) {
            Ok(next) => {
                state = next;
            },
            Err(error) => {
                proof {
                    lemma_error_stays(
                        lines.deep_view(),
                        (i + 1) as nat,
                        lines@.len(),
                        *offsets,
                        target_format,
                    );
                }
                return Err(error);
            },
        }
        i = i + 1;
        proof {
            let after = progress(lines.deep_view(), i as nat, *offsets, target_format);
            assert(out@ =~= old(out)@ + after.written);
        }
    }
    assert(lines.deep_view().len() == lines@.len());
    Ok(())
}

/// Once a line has failed, the rewrite stays as that line left it.
pub proof fn lemma_error_stays(
    lines: Seq<Seq<u8>>,
    failed: nat,
    later: nat,
    offsets: OffsetPair,
    target_format: bool,
)
    requires
        progress(lines, failed, offsets, target_format).state is Err,
        failed <= later,
    ensures
        progress(lines, later, offsets, target_format) == progress(
            lines,
            failed,
            offsets,
            target_format,
        ),
    decreases later,
{
    if failed < later {
        lemma_error_stays(lines, failed, (later - 1) as nat, offsets, target_format);
    }
}

} // verus!
