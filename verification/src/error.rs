//! What can go wrong while offsets are read and a document is rewritten.

use vstd::prelude::*;

verus! {

/// One end of a cue's time range.
#[derive(Clone, Copy, Debug, PartialEq, Eq, Structural)]
pub enum Side {
    Begin,
    End,
}

/// Why a line does not fit where it stands in the document.
#[derive(Clone, Copy, Debug, PartialEq, Eq, Structural)]
pub enum Reason {
    /// A time range was due.
    ExpectedTimesThenText,
    /// A line of cue text was due.
    ExpectedText,
    /// A time range came with no blank line before it.
    ExpectedBlankBeforeTimes,
}

/// Which offset an argument was meant to give.
#[derive(Clone, Copy, Debug, PartialEq, Eq, Structural)]
pub enum OffsetRole {
    /// The one offset that is applied to both ends.
    Both,
    /// The offset of the begin times.
    Begin,
    /// The offset of the end times.
    End,
}

/// A failure. The first one ends the whole operation.
#[derive(Clone, Copy, Debug, PartialEq, Eq, Structural)]
pub enum Error {
    /// An argument is no offset.
    InvalidOffsetArgument { role: OffsetRole },
    /// The line with this number, counted from one, could not be read.
    IoReadFailure { line: usize },
    /// The output could not be written.
    IoWriteFailure,
    /// The line with this number, counted from one, breaks the structure of
    /// the document.
    MalformedStructure { line: usize, reason: Reason },
    /// An offset moves a time of this side below zero.
    NegativeResultingTime { side: Side },
}

impl Side {
    /// The name of the side in lower case.
    pub fn name(&self) -> (name: &'static str)
        ensures
            name@ == match *self {
                Side::Begin => "begin"@,
                Side::End => "end"@,
            },
    {
        match self {
            Side::Begin => "begin",
            Side::End => "end",
        }
    }
}

impl Reason {
    /// The reason in words.
    pub fn text(&self) -> (text: &'static str)
        ensures
            text@ == match *self {
                Reason::ExpectedTimesThenText => "expected times then text"@,
                Reason::ExpectedText => "expected text"@,
                Reason::ExpectedBlankBeforeTimes => "expected a blank line before times"@,
            },
    {
        match self {
            Reason::ExpectedTimesThenText => "expected times then text",
            Reason::ExpectedText => "expected text",
            Reason::ExpectedBlankBeforeTimes => "expected a blank line before times",
        }
    }
}

impl Error {
    /// The number of the line that the failure is about, counted from one,
    /// where it is about a line.
    pub fn line(&self) -> (line: Option<usize>)
        ensures
            line == match *self {
                Error::IoReadFailure { line } => Some(line),
                Error::MalformedStructure { line, .. } => Some(line),
                _ => None,
            },
    {
        match self {
            Error::IoReadFailure { line } => Some(*line),
            Error::MalformedStructure { line, .. } => Some(*line),
            _ => None,
        }
    }
}

} // verus!
