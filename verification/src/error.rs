//! What can go wrong while a document is read, shifted and written.

use vstd::prelude::*;

verus! {

/// Why a line of a document is malformed.
#[derive(Clone, Copy, Debug, PartialEq, Eq)]
pub enum Reason {
    /// A SubRip block begins with a line that is no sequence number.
    UnexpectedLine,
    /// A timing line lacks its arrow, or has more than one.
    TimecodeSyntax,
    /// A time stamp is not made of the fields its format asks for.
    DurationSyntax,
    /// An hour, minute or second is no decimal number, or the time stamp is
    /// too large for a [`Duration`](crate::duration::Duration).
    InvalidNumber,
    /// The milliseconds of a time stamp are not exactly three digits.
    MillisecondDigits,
    /// A WebVTT document does not begin with `WEBVTT`.
    MissingHeader,
    /// A WebVTT line that is neither a timing line nor followed by one.
    LoneTextLine,
}

/// A failure that ends the processing of a document.
#[derive(Clone, Debug, PartialEq, Eq)]
pub enum Error {
    /// The source could not hand out the line that follows line `line`.
    Io { line: usize },
    /// The document ends after line `line`, where more was required.
    UnexpectedEof { line: usize },
    /// Line `line` (counted from one), whose text is `data`, is malformed.
    InvalidData { reason: Reason, data: String, line: usize },
    /// Taking a delta from a cue would move it before time zero.
    Underflow,
    /// Adding a delta to a cue would move it past the longest duration.
    Overflow,
}

/// The mathematical content of an [`Error`].
pub enum ErrorView {
    Io { line: nat },
    UnexpectedEof { line: nat },
    InvalidData { reason: Reason, data: Seq<char>, line: nat },
    Underflow,
    Overflow,
}

impl View for Error {
    type V = ErrorView;

    open spec fn view(&self) -> ErrorView {
        match *self {
            Error::Io { line } => ErrorView::Io { line: line as nat },
            Error::UnexpectedEof { line } => ErrorView::UnexpectedEof { line: line as nat },
            Error::InvalidData { reason, data, line } => ErrorView::InvalidData {
                reason,
                data: data@,
                line: line as nat,
            },
            Error::Underflow => ErrorView::Underflow,
            Error::Overflow => ErrorView::Overflow,
        }
    }
}

/// An error for the malformed line `data`, which is line `line` of its
/// document.
pub fn invalid_data(reason: Reason, data: &str, line: usize) -> (e: Error)
    ensures
        e@ == (ErrorView::InvalidData { reason, data: data@, line: line as nat }),
{
    Error::InvalidData { reason, data: data.to_owned(), line }
}

} // verus!
