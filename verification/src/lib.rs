//! Shifting the timecodes of subtitle cue files.
//!
//! The crate holds the value type for a count of milliseconds, the two byte
//! scanners that read an offset argument and an in-file time range, and the
//! line state machine that rewrites a cue document.

pub mod arith;
pub mod compare;
pub mod digits;
pub mod error;
pub mod laws;
pub mod offset;
pub mod rewriter;
pub mod time;
pub mod timestamp;
