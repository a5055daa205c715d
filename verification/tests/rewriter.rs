use subshift::error::{Error, Reason, Side};
use subshift::offset::OffsetPair;
use subshift::rewriter::{is_header, rewrite, step, write_bytes, write_header, write_range, State};
use subshift::time::Time;

fn offsets(begin: i32, end: i32) -> OffsetPair {
    OffsetPair { begin: Time { milliseconds: begin }, end: Time { milliseconds: end } }
}

fn lines(document: &[&str]) -> Vec<Vec<u8>> {
    document.iter().map(|line| line.as_bytes().to_vec()).collect()
}

fn run(document: &[&str], pair: OffsetPair, target_format: bool) -> (String, Result<(), Error>) {
    let mut out = Vec::new();
    let done = rewrite(&lines(document), &pair, target_format, &mut out);
    (String::from_utf8(out).unwrap(), done)
}

fn one(state: State, number: usize, line: &str, pair: OffsetPair) -> (String, Result<State, Error>) {
    let mut out = b"kept".to_vec();
    let next = step(state, number, line.as_bytes(), &pair, &mut out);
    let written = String::from_utf8(out).unwrap();
    assert!(written.starts_with("kept"));
    (written["kept".len()..].to_string(), next)
}

fn misplaced(line: usize, reason: Reason) -> Error {
    Error::MalformedStructure { line, reason }
}

const RANGE: &str = "00:00:01,000 --> 00:00:03,000";

#[test]
fn an_empty_document_comes_out_as_the_header() {
    assert_eq!(run(&[], offsets(0, 0), true), (String::from("WEBVTT\n"), Ok(())));
    assert_eq!(run(&[], offsets(0, 0), false), (String::from("WEBVTT\n"), Ok(())));
}

#[test]
fn a_single_cue_with_zero_offsets() {
    let document = ["WEBVTT", "", "00:01.000 --> 00:03.000", "Hello", ""];
    let (out, done) = run(&document, offsets(0, 0), true);
    assert_eq!(done, Ok(()));
    assert_eq!(out, "WEBVTT\n\n00:01.000 --> 00:03.000\nHello\n");
    assert_eq!(out.matches("WEBVTT").count(), 1);
}

#[test]
fn the_header_is_written_once_with_or_without_one_in_the_source() {
    let with = ["WEBVTT", "", RANGE, "Hello"];
    let without = ["", RANGE, "Hello"];
    let expected = "WEBVTT\n\n00:01.000 --> 00:03.000\nHello\n";
    assert_eq!(run(&with, offsets(0, 0), true), (String::from(expected), Ok(())));
    assert_eq!(run(&without, offsets(0, 0), true), (String::from(expected), Ok(())));
    let twice = ["WEBVTT", "WEBVTT", "", RANGE, "Hello"];
    assert_eq!(run(&twice, offsets(0, 0), true), (String::from(expected), Ok(())));
}

#[test]
fn an_older_document_is_rewritten() {
    let document = [
        "1",
        "00:00:01,000 --> 00:00:03,000",
        "Hello",
        "world",
        "",
        "2",
        "01:00:04,500 --> 01:00:06,250",
        "Again",
        "",
    ];
    let (out, done) = run(&document, offsets(0, 0), false);
    assert_eq!(done, Ok(()));
    assert_eq!(
        out,
        "WEBVTT\n\n00:01.000 --> 00:03.000\nHello\nworld\n\n01:00:04.500 --> 01:00:06.250\nAgain\n"
    );
}

#[test]
fn offsets_of_one_second_on_both_sides() {
    let (out, next) = one(State::CueIndexTimesOrBlank, 1, RANGE, offsets(1_000, 1_000));
    assert_eq!(next, Ok(State::CueText));
    assert_eq!(out, "\n00:02.000 --> 00:04.000\n");
}

#[test]
fn an_offset_of_one_second_on_the_end() {
    let (out, next) = one(State::CueIndexTimesOrBlank, 1, RANGE, offsets(0, 1_000));
    assert_eq!(next, Ok(State::CueText));
    assert_eq!(out, "\n00:01.000 --> 00:04.000\n");
}

#[test]
fn offsets_are_applied_to_each_side() {
    let (out, next) = one(State::HeaderOrCueOrBlank, 7, RANGE, offsets(-500, 3_600_000));
    assert_eq!(next, Ok(State::CueText));
    assert_eq!(out, "\n00:00.500 --> 01:00:03.000\n");
}

#[test]
fn a_negative_begin_aborts_the_rewrite() {
    let document = [
        "1",
        "00:00:05,000 --> 00:00:06,000",
        "First",
        "",
        "2",
        "00:00:01,000 --> 00:00:08,000",
        "Second",
        "",
        "3",
        "00:00:09,000 --> 00:00:10,000",
        "Third",
    ];
    let (out, done) = run(&document, offsets(-2_000, 0), false);
    assert_eq!(done, Err(Error::NegativeResultingTime { side: Side::Begin }));
    assert_eq!(out, "WEBVTT\n\n00:03.000 --> 00:06.000\nFirst\n");
}

#[test]
fn a_negative_end_aborts_the_rewrite() {
    let (out, next) = one(State::CueIndexOrTimes, 2, RANGE, offsets(0, -3_001));
    assert_eq!(next, Err(Error::NegativeResultingTime { side: Side::End }));
    assert_eq!(out, "");
}

#[test]
fn a_negative_begin_is_named_before_a_negative_end() {
    let (out, next) = one(State::CueIndexOrTimes, 2, RANGE, offsets(-1_001, -3_001));
    assert_eq!(next, Err(Error::NegativeResultingTime { side: Side::Begin }));
    assert_eq!(out, "");
}

#[test]
fn a_time_that_comes_out_at_zero_is_kept() {
    let (out, next) = one(State::CueIndexOrTimes, 2, RANGE, offsets(-1_000, -3_000));
    assert_eq!(next, Ok(State::CueText));
    assert_eq!(out, "\n00:00.000 --> 00:00.000\n");
}

#[test]
fn a_sum_beyond_the_range_wraps_below_zero() {
    let (out, next) = one(State::CueIndexOrTimes, 2, RANGE, offsets(i32::MAX, 0));
    assert_eq!(next, Err(Error::NegativeResultingTime { side: Side::Begin }));
    assert_eq!(out, "");
    let (out, next) = one(State::CueIndexOrTimes, 2, RANGE, offsets(i32::MAX - 1_000, i32::MAX - 2_999));
    assert_eq!(next, Err(Error::NegativeResultingTime { side: Side::End }));
    assert_eq!(out, "");
    let (out, next) = one(State::CueIndexOrTimes, 2, RANGE, offsets(i32::MAX - 1_000, i32::MAX - 3_000));
    assert_eq!(next, Ok(State::CueText));
    assert_eq!(out, "\n596:31:23.647 --> 596:31:23.647\n");
}

#[test]
fn a_range_within_text_is_refused() {
    let document = ["", RANGE, "Hello", RANGE, "World"];
    let (out, done) = run(&document, offsets(0, 0), true);
    assert_eq!(done, Err(misplaced(4, Reason::ExpectedBlankBeforeTimes)));
    assert_eq!(out, "WEBVTT\n\n00:01.000 --> 00:03.000\nHello\n");
    let (out, next) = one(State::CueText, 9, RANGE, offsets(0, 0));
    assert_eq!(next, Err(misplaced(9, Reason::ExpectedBlankBeforeTimes)));
    assert_eq!(out, "");
    let (out, next) = one(State::CueTextOrBlank, 9, RANGE, offsets(0, 0));
    assert_eq!(next, Err(misplaced(9, Reason::ExpectedBlankBeforeTimes)));
    assert_eq!(out, "");
}

#[test]
fn a_range_without_text_is_refused() {
    let document = ["", RANGE, "", "Hello"];
    let (out, done) = run(&document, offsets(0, 0), true);
    assert_eq!(done, Err(misplaced(3, Reason::ExpectedText)));
    assert_eq!(out, "WEBVTT\n\n00:01.000 --> 00:03.000\n");
}

#[test]
fn a_number_without_times_is_refused() {
    let document = ["1", "", RANGE, "Hello"];
    let (out, done) = run(&document, offsets(0, 0), false);
    assert_eq!(done, Err(misplaced(2, Reason::ExpectedTimesThenText)));
    assert_eq!(out, "WEBVTT\n");
}

#[test]
fn cue_numbers_are_dropped() {
    let numbered = ["1", RANGE, "Hello", "", "2", "00:00:04,000 --> 00:00:05,000", "World"];
    let bare = [RANGE, "Hello", "", "00:00:04,000 --> 00:00:05,000", "World"];
    let expected = "WEBVTT\n\n00:01.000 --> 00:03.000\nHello\n\n00:04.000 --> 00:05.000\nWorld\n";
    assert_eq!(run(&numbered, offsets(0, 0), false), (String::from(expected), Ok(())));
    assert_eq!(run(&bare, offsets(0, 0), false), (String::from(expected), Ok(())));
}

#[test]
fn any_line_between_cues_passes_for_a_number() {
    let (out, next) = one(State::CueIndexTimesOrBlank, 5, "not a number", offsets(0, 0));
    assert_eq!((out.as_str(), next), ("", Ok(State::CueIndexOrTimes)));
    let (out, next) = one(State::CueIndexTimesOrBlank, 5, "WEBVTT", offsets(0, 0));
    assert_eq!((out.as_str(), next), ("", Ok(State::CueIndexOrTimes)));
    let (out, next) = one(State::HeaderOrCueOrBlank, 5, "42", offsets(0, 0));
    assert_eq!((out.as_str(), next), ("", Ok(State::CueIndexOrTimes)));
    let document = ["cue the first", RANGE, "Hello"];
    let expected = "WEBVTT\n\n00:01.000 --> 00:03.000\nHello\n";
    assert_eq!(run(&document, offsets(0, 0), false), (String::from(expected), Ok(())));
}

// Permissive by design: a line between the header and the first cue that is
// neither blank nor a range passes for the number of that cue.
#[test]
fn a_line_behind_the_header_passes_for_a_number() {
    let document = ["WEBVTT", "Kind: captions", RANGE, "Hello"];
    let expected = "WEBVTT\n\n00:01.000 --> 00:03.000\nHello\n";
    assert_eq!(run(&document, offsets(0, 0), true), (String::from(expected), Ok(())));
}

#[test]
fn a_second_line_before_the_times_is_refused() {
    let document = ["WEBVTT", "Kind: captions", "Language: en", "", RANGE, "Hello"];
    let (out, done) = run(&document, offsets(0, 0), true);
    assert_eq!(done, Err(misplaced(3, Reason::ExpectedTimesThenText)));
    assert_eq!(out, "WEBVTT\n");
    let (out, next) = one(State::CueIndexOrTimes, 2, "2", offsets(0, 0));
    assert_eq!((out.as_str(), next), ("", Err(misplaced(2, Reason::ExpectedTimesThenText))));
}

#[test]
fn the_first_line_is_let_through_where_times_are_due() {
    let (out, next) = one(State::CueIndexOrTimes, 1, "1", offsets(0, 0));
    assert_eq!((out.as_str(), next), ("", Ok(State::CueIndexOrTimes)));
}

#[test]
fn the_header_word_is_passed_over_where_a_document_may_open() {
    let (out, next) = one(State::HeaderOrCueOrBlank, 1, "WEBVTT", offsets(0, 0));
    assert_eq!((out.as_str(), next), ("", Ok(State::HeaderOrCueOrBlank)));
    let (out, next) = one(State::HeaderOrCueOrBlank, 1, "WEBVTT ", offsets(0, 0));
    assert_eq!((out.as_str(), next), ("", Ok(State::CueIndexOrTimes)));
    let (out, next) = one(State::HeaderOrCueOrBlank, 1, "webvtt", offsets(0, 0));
    assert_eq!((out.as_str(), next), ("", Ok(State::CueIndexOrTimes)));
}

#[test]
fn blank_lines_in_each_state() {
    let zero = offsets(0, 0);
    assert_eq!(one(State::HeaderOrCueOrBlank, 3, "", zero), (String::new(), Ok(State::HeaderOrCueOrBlank)));
    assert_eq!(
        one(State::CueIndexOrTimes, 3, "", zero),
        (String::new(), Err(misplaced(3, Reason::ExpectedTimesThenText)))
    );
    assert_eq!(one(State::CueIndexTimesOrBlank, 3, "", zero), (String::new(), Ok(State::CueIndexTimesOrBlank)));
    assert_eq!(one(State::CueText, 3, "", zero), (String::new(), Err(misplaced(3, Reason::ExpectedText))));
    assert_eq!(one(State::CueTextOrBlank, 3, "", zero), (String::new(), Ok(State::CueIndexTimesOrBlank)));
}

#[test]
fn text_is_copied_as_it_stands() {
    let zero = offsets(0, 0);
    assert_eq!(one(State::CueText, 3, "Hello", zero), (String::from("Hello\n"), Ok(State::CueTextOrBlank)));
    assert_eq!(one(State::CueTextOrBlank, 4, " - World ", zero), (String::from(" - World \n"), Ok(State::CueTextOrBlank)));
    assert_eq!(one(State::CueText, 3, "WEBVTT", zero), (String::from("WEBVTT\n"), Ok(State::CueTextOrBlank)));
    assert_eq!(one(State::CueText, 3, "12", zero), (String::from("12\n"), Ok(State::CueTextOrBlank)));
    assert_eq!(one(State::CueText, 3, " ", zero), (String::from(" \n"), Ok(State::CueTextOrBlank)));
}

#[test]
fn text_that_is_not_utf8_is_copied_too() {
    let mut out = Vec::new();
    let next = step(State::CueText, 3, &[0xff, 0x00, 0x80], &offsets(0, 0), &mut out);
    assert_eq!(next, Ok(State::CueTextOrBlank));
    assert_eq!(out, vec![0xff, 0x00, 0x80, b'\n']);
}

#[test]
fn a_document_may_end_anywhere() {
    let zero = offsets(0, 0);
    assert_eq!(run(&["WEBVTT"], zero, true).1, Ok(()));
    assert_eq!(run(&["1"], zero, false).1, Ok(()));
    assert_eq!(run(&["1", RANGE], zero, false).1, Ok(()));
    assert_eq!(run(&["1", RANGE, "Hello"], zero, false).1, Ok(()));
    assert_eq!(run(&["1", RANGE, "Hello", ""], zero, false).1, Ok(()));
    assert_eq!(run(&["1", RANGE, "Hello", "", "", ""], zero, false).1, Ok(()));
}

#[test]
fn the_rewrite_is_the_steps_in_turn() {
    let document = lines(&["WEBVTT", "", "1", RANGE, "Hello", "", "2", "00:01:00.000 --> 00:01:01.000", "World"]);
    let pair = offsets(250, -250);
    let mut whole = Vec::new();
    assert_eq!(rewrite(&document, &pair, true, &mut whole), Ok(()));
    let mut stepped = Vec::new();
    write_header(&mut stepped);
    let mut state = State::initial(true);
    for (i, line) in document.iter().enumerate() {
        state = step(state, i + 1, line, &pair, &mut stepped).unwrap();
    }
    assert_eq!(state, State::CueTextOrBlank);
    assert_eq!(whole, stepped);
    assert_eq!(
        String::from_utf8(whole).unwrap(),
        "WEBVTT\n\n00:01.250 --> 00:02.750\nHello\n\n01:00.250 --> 01:00.750\nWorld\n"
    );
}

#[test]
fn rewrite_appends_to_what_is_there() {
    let mut out = b"before".to_vec();
    let done = rewrite(&lines(&["", RANGE, "Hello"]), &offsets(0, 0), true, &mut out);
    assert_eq!(done, Ok(()));
    assert_eq!(String::from_utf8(out).unwrap(), "beforeWEBVTT\n\n00:01.000 --> 00:03.000\nHello\n");
}

#[test]
fn initial_states() {
    assert_eq!(State::initial(true), State::HeaderOrCueOrBlank);
    assert_eq!(State::initial(false), State::CueIndexTimesOrBlank);
}

#[test]
fn the_header_word_in_an_older_document_passes_for_a_number() {
    let document = ["WEBVTT", RANGE, "Hello"];
    let expected = "WEBVTT\n\n00:01.000 --> 00:03.000\nHello\n";
    assert_eq!(run(&document, offsets(0, 0), false), (String::from(expected), Ok(())));
    let document = ["WEBVTT", "", RANGE, "Hello"];
    let (out, done) = run(&document, offsets(0, 0), false);
    assert_eq!(done, Err(misplaced(2, Reason::ExpectedTimesThenText)));
    assert_eq!(out, "WEBVTT\n");
}

#[test]
fn header_test_and_writers() {
    assert!(is_header(b"WEBVTT"));
    assert!(!is_header(b"WEBVTT\n"));
    assert!(!is_header(b"WEBVT"));
    assert!(!is_header(b"WEBVTX"));
    assert!(!is_header(b""));
    let mut out = b"a".to_vec();
    write_header(&mut out);
    write_bytes(&mut out, b"bc");
    write_bytes(&mut out, b"");
    assert_eq!(out, b"aWEBVTT\nbc".to_vec());
    let mut out = b"a".to_vec();
    let begin = Time { milliseconds: 1_000 };
    let end = Time { milliseconds: 3_600_000 };
    assert_eq!(write_range(begin, end, &offsets(1, 2), &mut out), Ok(State::CueText));
    assert_eq!(String::from_utf8(out).unwrap(), "a\n00:01.001 --> 01:00:00.002\n");
}
