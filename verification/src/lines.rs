//! A document as lines of text: how bytes are cut into lines and decoded,
//! and a reader that hands the lines out one by one and counts them.

use crate::error::{Error, ErrorView};
use crate::text::{find_byte, lemma_position_bounds, position_from};
use vstd::prelude::*;
use vstd::slice::slice_subrange;
use vstd::string::StringSliceAdditionalSpecFns;
use vstd::utf8::{decode_utf8, valid_utf8};

verus! {

/// A line of a document: its characters, or `None` where its bytes are no
/// valid UTF-8.
pub type Line = Option<Seq<char>>;

/// The line feed, which ends a line.
pub const LINE_FEED: u8 = 0x0A;

/// The carriage return, which may stand before a line feed.
pub const CARRIAGE_RETURN: u8 = 0x0D;

/// The number of bytes that a UTF-8 byte-order mark takes up at the start of
/// `b`: three where there is one, else zero.
pub open spec fn bom_len(b: Seq<u8>) -> int {
    if b.len() >= 3 && b[0] == 0xEF && b[1] == 0xBB && b[2] == 0xBF {
        3
    } else {
        0
    }
}

/// The index of the line feed that ends the line starting at `from`, or the
/// length of `b` where the line runs to the end.
pub open spec fn line_end(b: Seq<u8>, from: int) -> int {
    position_from(b, LINE_FEED, from)
}

/// The bytes of the line that starts at `from`, without the line feed, or
/// carriage return and line feed, that ends it.
pub open spec fn line_bytes(b: Seq<u8>, from: int) -> Seq<u8> {
    let end = line_end(b, from);
    if end < b.len() && from < end && b[end - 1] == CARRIAGE_RETURN {
        b.subrange(from, end - 1)
    } else {
        b.subrange(from, end)
    }
}

/// The text that the bytes of a line stand for.
pub open spec fn decode_line(raw: Seq<u8>) -> Line {
    if valid_utf8(raw) {
        Some(decode_utf8(raw))
    } else {
        None
    }
}

/// The lines of `b` from the index `from` on. A line ends with a line feed
/// or with the document; an empty rest holds no line.
pub open spec fn lines_from(b: Seq<u8>, from: int) -> Seq<Line>
    decreases b.len() - from,
{
    if from < 0 || from >= b.len() {
        Seq::empty()
    } else {
        proof {
            lemma_position_bounds(b, LINE_FEED, from);
        }
        let first = seq![decode_line(line_bytes(b, from))];
        if line_end(b, from) >= b.len() {
            first
        } else {
            first + lines_from(b, line_end(b, from) + 1)
        }
    }
}

/// The lines of the document `b`: a byte-order mark at its start is no part
/// of the first line.
pub open spec fn document_lines(b: Seq<u8>) -> Seq<Line> {
    lines_from(b, bom_len(b))
}

/// A document holds no more lines than bytes.
pub proof fn lemma_lines_len(b: Seq<u8>, from: int)
    requires
        0 <= from <= b.len(),
    ensures
        lines_from(b, from).len() <= b.len() - from,
    decreases b.len() - from,
{
    if from < b.len() {
        lemma_position_bounds(b, LINE_FEED, from);
        if line_end(b, from) < b.len() {
            lemma_lines_len(b, line_end(b, from) + 1);
        }
    }
}

/// The error of `core::str::from_utf8`. Nothing is said of what it holds.
#[verifier::external_type_specification]
#[verifier::external_body]
pub struct ExUtf8Error(core::str::Utf8Error);

/// `core::str::from_utf8` succeeds on the byte sequences that are valid
/// UTF-8, and on no others; the string slice it returns is made of the very
/// bytes it was given.
pub assume_specification<'a>[ core::str::from_utf8 ](v: &'a [u8]) -> (r: Result<
    &'a str,
    core::str::Utf8Error,
>)
    ensures
        r is Ok <==> valid_utf8(v@),
        r matches Ok(s) ==> s.spec_bytes() == v@,
;

/// A reader that hands out the lines of a document one by one and counts
/// those it has handed out.
pub struct LineNb<'a> {
    data: &'a [u8],
    pos: usize,
    nb: usize,
}

impl<'a> LineNb<'a> {
    /// Every line handed out took up a byte or more.
    #[verifier::type_invariant]
    spec fn inv(self) -> bool {
        self.nb <= self.pos <= self.data@.len()
    }

    /// The lines that are still to come.
    pub closed spec fn rest(&self) -> Seq<Line> {
        lines_from(self.data@, self.pos as int)
    }

    /// The number of lines that were handed out as text.
    pub closed spec fn count(&self) -> nat {
        self.nb as nat
    }

    /// A reader at the start of the document `data`, behind its byte-order
    /// mark where it has one.
    pub fn new(data: &'a [u8]) -> (r: LineNb<'a>)
        ensures
            r.rest() == document_lines(data@),
            r.count() == 0,
    {
        let skip: usize = if data.len() >= 3 && data[0] == 0xEF && data[1] == 0xBB && data[2]
            == 0xBF {
            3
        } else {
            0
        };
        LineNb { data, pos: skip, nb: 0 }
    }

    /// Returns the current line number: the number of lines read so far.
    pub fn current(&self) -> (n: usize)
        ensures
            n == self.count(),
            self.count() + self.rest().len() <= usize::MAX,
    {
        let len = self.data.len();
        proof {
            use_type_invariant(self);
            lemma_lines_len(self.data@, self.pos as int);
        }
        self.nb
    }

    /// Hands out the next line, or `None` at the end of the document. A line
    /// that is no valid UTF-8 is used up and reported as an error, and is
    /// not counted.
    pub fn next(&mut self) -> (r: Option<Result<String, Error>>)
        ensures
            old(self).rest().len() == 0 ==> r is None && final(self).rest() == old(self).rest()
                && final(self).count() == old(self).count(),
            old(self).rest().len() > 0 ==> final(self).rest() == old(self).rest().drop_first()
                && match old(self).rest()[0] {
                Some(l) => r matches Some(Ok(s)) && s@ == l && final(self).count() == old(
                    self,
                ).count() + 1,
                None => r matches Some(Err(e)) && e@ == (ErrorView::Io {
                    line: old(self).count(),
                }) && final(self).count() == old(self).count(),
            },
    {
        proof {
            use_type_invariant(&*self);
        }
        let n = self.data.len();
        let start = self.pos;
        if start >= n {
            return None;
        }
        let end = find_byte(self.data, LINE_FEED, start);
        let stop = if end < n && start < end && self.data[end - 1] == CARRIAGE_RETURN {
            end - 1
        } else {
            end
        };
        let raw = slice_subrange(self.data, start, stop);
        proof {
            let b = self.data@;
            assert(raw@ == line_bytes(b, start as int));
            if end < n {
                assert(lines_from(b, start as int).drop_first() =~= lines_from(b, end + 1));
            } else {
                assert(lines_from(b, start as int).drop_first() =~= lines_from(b, n as int));
            }
        }
        self.pos = if end < n { end + 1 } else { n };
        match core::str::from_utf8(raw) {
            Ok(s) => {
                proof {
                    vstd::utf8::encode_utf8_decode_utf8(s@);
                }
                self.nb = self.nb + 1;
                Some(Ok(s.to_owned()))
            },
            Err(_) => Some(Err(Error::Io { line: self.nb })),
        }
    }
}

} // verus!
