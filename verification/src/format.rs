//! The formats that a document can be read from and written to.

use crate::text::{matches_at, to_chars};
use std::str::FromStr;
use vstd::prelude::*;

verus! {

/// The supported formats of an input or output stream.
#[derive(Debug, Copy, Clone, PartialEq, Eq)]
pub enum Format {
    WebVTT,
    Srt,
}

/// A name that stands for no format.
#[derive(Debug, Copy, Clone, PartialEq, Eq)]
pub struct UnknownFormat;

/// The format that a name stands for: `srt` or `webvtt`.
pub open spec fn format_named(s: Seq<char>) -> Option<Format> {
    if s == seq!['s', 'r', 't'] {
        Some(Format::Srt)
    } else if s == seq!['w', 'e', 'b', 'v', 't', 't'] {
        Some(Format::WebVTT)
    } else {
        None
    }
}

impl FromStr for Format {
    type Err = UnknownFormat;

    /// The format that the name `s` stands for.
    fn from_str(s: &str) -> (r: Result<Format, UnknownFormat>)
        ensures
            r == match format_named(s@) {
                Some(f) => Ok::<Format, UnknownFormat>(f),
                None => Err::<Format, UnknownFormat>(UnknownFormat),
            },
    {
        let chars = to_chars(s);
        let srt: [char; 3] = ['s', 'r', 't'];
        let webvtt: [char; 6] = ['w', 'e', 'b', 'v', 't', 't'];
        proof {
            assert(srt@ =~= seq!['s', 'r', 't']);
            assert(webvtt@ =~= seq!['w', 'e', 'b', 'v', 't', 't']);
            assert(chars@.subrange(0, chars@.len() as int) =~= chars@);
        }
        if chars.len() == 3 && matches_at(chars.as_slice(), srt.as_slice(), 0) {
            Ok(Format::Srt)
        } else if chars.len() == 6 && matches_at(chars.as_slice(), webvtt.as_slice(), 0) {
            Ok(Format::WebVTT)
        } else {
            Err(UnknownFormat)
        }
    }
}

} // verus!
