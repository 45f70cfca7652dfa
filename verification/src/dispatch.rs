//! Directives and their outcomes.
//!
//! A directive is the text of one inbound frame. The table of recognised directives is
//! `lookup`; what a handler's outside work brought back becomes an outcome here, and a
//! failure of that work becomes a fixed sentence that gives no detail away.
use vstd::prelude::*;
use crate::text::{same_text, string_from_utf8, text_of};

verus! {

/// The work behind a recognised directive.
#[derive(Clone, Copy, Debug, PartialEq, Eq, Structural)]
pub enum Handler {
    /// Ask the host for the date and time.
    Clock,
}

/// What asking the host's clock brought back.
#[derive(Debug, PartialEq, Eq)]
pub enum ClockReading {
    /// The clock answered with these bytes.
    Output(Vec<u8>),
    /// The clock could not be asked.
    Failed,
}

/// The handler that `directive` names, if it names one.
pub open spec fn handler_of(directive: Seq<char>) -> Option<Handler> {
    if directive == "gettime"@ {
        Some(Handler::Clock)
    } else {
        None
    }
}

/// The outcome of the clock directive for a given reading.
pub open spec fn clock_text(reading: ClockReading) -> Seq<char> {
    match reading {
        ClockReading::Failed => "Failed to execute command"@,
        ClockReading::Output(bytes) => match text_of(bytes@) {
            Some(text) => text,
            None => "Error converting output to string"@,
        },
    }
}

/// Reads a frame's payload as a directive: `None` when it is not UTF-8.
pub fn directive_of(payload: Vec<u8>) -> (r: Option<String>)
    ensures
        match text_of(payload@) {
            Some(text) => r matches Some(s) && s@ == text,
            None => r is None,
        },
{
    string_from_utf8(payload)
}

/// Looks `directive` up in the table of recognised directives. The match is exact.
pub fn lookup(directive: &str) -> (h: Option<Handler>)
    ensures
        h == handler_of(directive@),
{
    if same_text(directive, "gettime") {
        Some(Handler::Clock)
    } else {
        None
    }
}

/// The outcome for a directive that the table does not hold.
pub fn invalid_command() -> (s: String)
    ensures
        s@ == "invalid command"@,
{
    "invalid command".to_owned()
}

/// Turns what the clock brought back into the outcome of the clock directive.
///
/// A clock that could not be asked, and an answer that is not text, each give their own
/// fixed sentence; any other answer is returned as it came.
pub fn clock_outcome(reading: ClockReading) -> (s: String)
    ensures
        s@ == clock_text(reading),
{
    match reading {
        ClockReading::Failed => "Failed to execute command".to_owned(),
        ClockReading::Output(bytes) => match string_from_utf8(bytes) {
            Some(text) => text,
            None => "Error converting output to string".to_owned(),
        },
    }
}

} // verus!
