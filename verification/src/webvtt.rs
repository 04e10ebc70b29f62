//! WebVTT documents: reading cues from them and writing cues as one.

use crate::cue::{cue_views, id_view, text_bytes, write_text, Cue, CueView};
use crate::duration::Duration;
use crate::error::{invalid_data, Error, ErrorView, Reason};
use crate::lines::{document_lines, Line, LineNb};
use crate::step::{item_view, lemma_text_block_progress, read_text, text_block, Step};
use crate::text::{
    all_digits, contains_seq, decimal_u64, decimal_value, find, find_char, is_all_digits,
    lemma_append_twice, lemma_three_digits, matches_at, occurs_at, only_digit, padded_decimal,
    parse_decimal, position, position_from, push_decimal, push_str, skip_spaces, skip_whitespace,
    starts_with, to_chars,
};
use vstd::prelude::*;
use vstd::slice::slice_subrange;
use vstd::utf8::encode_utf8;

verus! {

/// The three characters between the two time stamps of a timing line.
pub open spec fn arrow() -> Seq<char> {
    seq!['-', '-', '>']
}

/// The seconds that `s` stands for, where `s` has the form `MM:SS` or
/// `HH:MM:SS`, each field being a decimal number of any width.
#[verifier::opaque]
pub open spec fn clock_seconds(s: Seq<char>) -> Result<nat, Reason> {
    let c1 = position(s, ':');
    let c2 = position_from(s, ':', c1 + 1);
    let c3 = position_from(s, ':', c2 + 1);
    if c1 >= s.len() || c3 < s.len() {
        // one field, or more than three
        Err(Reason::DurationSyntax)
    } else {
        let two = c2 >= s.len();
        let hours = if two { Some(0u64) } else { decimal_u64(s.take(c1)) };
        let minutes = decimal_u64(if two { s.take(c1) } else { s.subrange(c1 + 1, c2) });
        let seconds = decimal_u64(if two { s.skip(c1 + 1) } else { s.skip(c2 + 1) });
        match (hours, minutes, seconds) {
            (Some(h), Some(m), Some(sec)) => {
                let total = (h as nat * 60 + m as nat) * 60 + sec as nat;
                if total <= u64::MAX {
                    Ok(total)
                } else {
                    Err(Reason::InvalidNumber)
                }
            },
            _ => Err(Reason::InvalidNumber),
        }
    }
}

/// The time stamp at the start of `s`: the number of characters it takes up
/// and its value in nanoseconds. A time stamp is `MM:SS.mmm` or
/// `HH:MM:SS.mmm`; it ends three digits after the first dot of `s`.
#[verifier::opaque]
pub open spec fn webvtt_duration(s: Seq<char>) -> Result<(int, nat), Reason> {
    let dot = position(s, '.');
    if dot >= s.len() {
        Err(Reason::DurationSyntax)
    } else if !(dot + 4 <= s.len() && all_digits(s.subrange(dot + 1, dot + 4))) {
        Err(Reason::MillisecondDigits)
    } else {
        match clock_seconds(s.take(dot)) {
            Err(reason) => Err(reason),
            Ok(secs) => Ok(
                (
                    dot + 4,
                    secs * 1_000_000_000 + decimal_value(s.subrange(dot + 1, dot + 4)) * 1_000_000,
                ),
            ),
        }
    }
}

/// The two times of the timing line `s`: a time stamp, the arrow with or
/// without white space around it, and a second time stamp. What follows the
/// second time stamp is not looked at.
#[verifier::opaque]
pub open spec fn webvtt_timing(s: Seq<char>) -> Result<(nat, nat), Reason> {
    match webvtt_duration(s) {
        Err(reason) => Err(reason),
        Ok((len, begin)) => {
            let at = skip_whitespace(s, len);
            if !occurs_at(s, arrow(), at) {
                Err(Reason::TimecodeSyntax)
            } else {
                match webvtt_duration(s.skip(skip_whitespace(s, at + 3))) {
                    Err(reason) => Err(reason),
                    Ok((_, end)) => Ok((begin, end)),
                }
            }
        },
    }
}

/// Combines hours, minutes and seconds, where the sum fits in 64 bits.
fn combine(h: u64, m: u64, sec: u64) -> (r: Option<u64>)
    ensures
        r == (if (h as nat * 60 + m as nat) * 60 + sec as nat <= u64::MAX {
            Some(((h as nat * 60 + m as nat) * 60 + sec as nat) as u64)
        } else {
            None
        }),
{
    let a = match h.checked_mul(60) {
        Some(v) => v,
        None => { return None; },
    };
    let b = match a.checked_add(m) {
        Some(v) => v,
        None => { return None; },
    };
    let c = match b.checked_mul(60) {
        Some(v) => v,
        None => { return None; },
    };
    c.checked_add(sec)
}

/// Reads `s` as `MM:SS` or `HH:MM:SS`.
fn parse_clock(s: &[char]) -> (r: Result<u64, Reason>)
    ensures
        match clock_seconds(s@) {
            Ok(v) => r == Ok::<u64, Reason>(v as u64) && v <= u64::MAX,
            Err(reason) => r == Err::<u64, Reason>(reason),
        },
{
    reveal(clock_seconds);
    let n = s.len();
    let c1 = find_char(s, ':', 0);
    if c1 >= n {
        return Err(Reason::DurationSyntax);
    }
    let c2 = find_char(s, ':', c1 + 1);
    if c2 >= n {
        proof {
            assert(position_from(s@, ':', c2 + 1) == s@.len());
            assert(s@.subrange(0, c1 as int) =~= s@.take(c1 as int));
            assert(s@.subrange(c1 + 1, n as int) =~= s@.skip(c1 + 1));
        }
        let minutes = parse_decimal(slice_subrange(s, 0, c1));
        let seconds = parse_decimal(slice_subrange(s, c1 + 1, n));
        return match (minutes, seconds) {
            (Some(m), Some(sec)) => match combine(0, m, sec) {
                Some(v) => Ok(v),
                None => Err(Reason::InvalidNumber),
            },
            _ => Err(Reason::InvalidNumber),
        };
    }
    let c3 = find_char(s, ':', c2 + 1);
    if c3 < n {
        return Err(Reason::DurationSyntax);
    }
    proof {
        assert(s@.subrange(0, c1 as int) =~= s@.take(c1 as int));
        assert(s@.subrange(c2 + 1, n as int) =~= s@.skip(c2 + 1));
    }
    let hours = parse_decimal(slice_subrange(s, 0, c1));
    let minutes = parse_decimal(slice_subrange(s, c1 + 1, c2));
    let seconds = parse_decimal(slice_subrange(s, c2 + 1, n));
    match (hours, minutes, seconds) {
        (Some(h), Some(m), Some(sec)) => match combine(h, m, sec) {
            Some(v) => Ok(v),
            None => Err(Reason::InvalidNumber),
        },
        _ => Err(Reason::InvalidNumber),
    }
}

/// Reads the time stamp at the start of `s`.
fn parse_stamp(s: &[char]) -> (r: Result<(usize, Duration), Reason>)
    ensures
        match webvtt_duration(s@) {
            Ok((len, t)) => r matches Ok((n, d)) && n == len && d@ == t && n <= s.len(),
            Err(reason) => r matches Err(e) && e == reason,
        },
{
    reveal(webvtt_duration);
    let n = s.len();
    let dot = find_char(s, '.', 0);
    if dot >= n {
        return Err(Reason::DurationSyntax);
    }
    if n - dot < 4 {
        return Err(Reason::MillisecondDigits);
    }
    let fraction = slice_subrange(s, dot + 1, dot + 4);
    if !is_all_digits(fraction) {
        return Err(Reason::MillisecondDigits);
    }
    proof {
        lemma_three_digits(fraction@);
        assert(s@.subrange(0, dot as int) =~= s@.take(dot as int));
    }
    let millis: u32 = match parse_decimal(fraction) {
        Some(v) => v as u32,
        None => 0,
    };
    match parse_clock(slice_subrange(s, 0, dot)) {
        Err(reason) => Err(reason),
        Ok(secs) => Ok((dot + 4, Duration::new(secs, millis * 1_000_000))),
    }
}

/// Reads the time stamp at the start of `s`, which was found in line `line`
/// of a document. Returns the number of characters that the time stamp takes
/// up, and its value.
pub fn parse_duration(s: &str, line: usize) -> (r: Result<(usize, Duration), Error>)
    ensures
        match webvtt_duration(s@) {
            Ok((len, t)) => r matches Ok((n, d)) && n == len && d@ == t,
            Err(reason) => r matches Err(e) && e@ == (ErrorView::InvalidData {
                reason,
                data: s@,
                line: line as nat,
            }),
        },
{
    let chars = to_chars(s);
    match parse_stamp(chars.as_slice()) {
        Ok(found) => Ok(found),
        Err(reason) => Err(invalid_data(reason, s, line)),
    }
}

/// Reads the two times of a timing line.
fn parse_timing_chars(s: &[char]) -> (r: Result<(Duration, Duration), Reason>)
    ensures
        match webvtt_timing(s@) {
            Ok((begin, end)) => r matches Ok((b, e)) && b@ == begin && e@ == end,
            Err(reason) => r matches Err(e) && e == reason,
        },
{
    reveal(webvtt_timing);
    let (len, begin) = match parse_stamp(s) {
        Ok(found) => found,
        Err(reason) => { return Err(reason); },
    };
    let at = skip_spaces(s, len);
    let pattern: [char; 3] = ['-', '-', '>'];
    proof {
        assert(pattern@ =~= arrow());
    }
    if !matches_at(s, pattern.as_slice(), at) {
        return Err(Reason::TimecodeSyntax);
    }
    let from = skip_spaces(s, at + 3);
    proof {
        assert(s@.subrange(from as int, s.len() as int) =~= s@.skip(from as int));
    }
    match parse_stamp(slice_subrange(s, from, s.len())) {
        Ok((_, end)) => Ok((begin, end)),
        Err(reason) => Err(reason),
    }
}

/// Reads the two times of the timing line `s`, which is line `line` of a
/// document.
pub fn parse_timing(s: &str, line: usize) -> (r: Result<(Duration, Duration), Error>)
    ensures
        match webvtt_timing(s@) {
            Ok((begin, end)) => r matches Ok((b, e)) && b@ == begin && e@ == end,
            Err(reason) => r matches Err(e) && e@ == (ErrorView::InvalidData {
                reason,
                data: s@,
                line: line as nat,
            }),
        },
{
    let chars = to_chars(s);
    match parse_timing_chars(chars.as_slice()) {
        Ok(times) => Ok(times),
        Err(reason) => Err(invalid_data(reason, s, line)),
    }
}

/// The word that opens the first line of a document.
pub open spec fn magic() -> Seq<char> {
    seq!['W', 'E', 'B', 'V', 'T', 'T']
}

/// The line opens a block that holds no cue: a region, a note or a style.
pub open spec fn is_metadata(l: Seq<char>) -> bool {
    ||| starts_with(l, seq!['R', 'E', 'G', 'I', 'O', 'N'])
    ||| starts_with(l, seq!['N', 'O', 'T', 'E'])
    ||| starts_with(l, seq!['S', 'T', 'Y', 'L', 'E'])
}

/// The identifier that a cue keeps: the line before its timing line, unless
/// that line is made of digits alone.
pub open spec fn kept_id(id: Option<Seq<char>>) -> Option<Seq<char>> {
    match id {
        Some(i) => if all_digits(i) { None } else { Some(i) },
        None => None,
    }
}

/// The cue whose timing line `timing` was read last, as line `count`: its
/// times, and the text that follows.
pub open spec fn webvtt_cue(
    rest: Seq<Line>,
    count: nat,
    timing: Seq<char>,
    id: Option<Seq<char>>,
) -> Step {
    match webvtt_timing(timing) {
        Err(reason) => Step::fail(
            ErrorView::InvalidData { reason, data: timing, line: count },
            rest,
            count,
        ),
        Ok((begin, end)) => {
            let block = text_block(rest, count);
            if block.failed {
                Step::fail(ErrorView::Io { line: block.count }, block.rest, block.count)
            } else {
                Step::cue(
                    CueView::spanning(kept_id(id), begin, end, block.text),
                    block.rest,
                    block.count,
                )
            }
        },
    }
}

/// The step that follows the line `id`, read as line `count`, which is no
/// timing line: a timing line must come next. At the end of the document the
/// line is dropped.
pub open spec fn webvtt_after_id(rest: Seq<Line>, count: nat, id: Seq<char>) -> Step {
    if rest.len() == 0 {
        Step::end(rest, count)
    } else {
        match rest[0] {
            None => Step::fail(ErrorView::Io { line: count }, rest.drop_first(), count),
            Some(l) => if contains_seq(l, arrow()) {
                webvtt_cue(rest.drop_first(), count + 1, l, Some(id))
            } else {
                Step::fail(
                    ErrorView::InvalidData { reason: Reason::LoneTextLine, data: id, line: count },
                    rest.drop_first(),
                    count + 1,
                )
            },
        }
    }
}

/// The next step of a WebVTT parser that has `rest` before it and has read
/// `count` lines; `skipping` says that it is inside a block of metadata,
/// which ends with an empty line. Between blocks, empty lines are passed
/// over; a line that opens a block of metadata is passed over with its
/// block; any other line without an arrow is held as an identifier; a line
/// with an arrow is a timing line.
pub open spec fn webvtt_next(rest: Seq<Line>, count: nat, skipping: bool) -> Step
    decreases rest.len(),
{
    if rest.len() == 0 {
        Step::end(rest, count)
    } else {
        match rest[0] {
            None => Step::fail(ErrorView::Io { line: count }, rest.drop_first(), count),
            Some(l) => if skipping {
                webvtt_next(rest.drop_first(), count + 1, l.len() > 0)
            } else if l.len() == 0 {
                webvtt_next(rest.drop_first(), count + 1, false)
            } else if is_metadata(l) {
                webvtt_next(rest.drop_first(), count + 1, true)
            } else if !contains_seq(l, arrow()) {
                webvtt_after_id(rest.drop_first(), count + 1, l)
            } else {
                webvtt_cue(rest.drop_first(), count + 1, l, None)
            },
        }
    }
}

/// What the first line of a document must be: a line that begins with
/// `WEBVTT`. Gives the error where it is not.
pub open spec fn webvtt_header(lines: Seq<Line>) -> Option<ErrorView> {
    if lines.len() == 0 {
        Some(ErrorView::UnexpectedEof { line: 0 })
    } else {
        match lines[0] {
            None => Some(ErrorView::Io { line: 0 }),
            Some(l) => if starts_with(l, magic()) {
                None
            } else {
                Some(ErrorView::InvalidData { reason: Reason::MissingHeader, data: l, line: 1 })
            },
        }
    }
}

/// A step that hands out a cue uses up one line or more.
pub proof fn lemma_webvtt_progress(rest: Seq<Line>, count: nat, skipping: bool)
    ensures
        webvtt_next(rest, count, skipping).item matches Some(Ok(_)) ==> webvtt_next(
            rest,
            count,
            skipping,
        ).rest.len() < rest.len(),
    decreases rest.len(),
{
    if rest.len() > 0 {
        match rest[0] {
            None => {},
            Some(l) => {
                let after = rest.drop_first();
                if skipping {
                    lemma_webvtt_progress(after, count + 1, l.len() > 0);
                } else if l.len() == 0 {
                    lemma_webvtt_progress(after, count + 1, false);
                } else if is_metadata(l) {
                    lemma_webvtt_progress(after, count + 1, true);
                } else if !contains_seq(l, arrow()) {
                    if after.len() > 0 {
                        lemma_text_block_progress(after.drop_first(), count + 2);
                    }
                } else {
                    lemma_text_block_progress(after, count + 1);
                }
            },
        }
    }
}

/// A cue that a WebVTT parser hands out does not end before it begins, and
/// its identifier, where it has one, is not made of digits alone.
pub proof fn lemma_webvtt_cue_shape(rest: Seq<Line>, count: nat, skipping: bool)
    ensures
        webvtt_next(rest, count, skipping).item matches Some(Ok(c)) ==> c.wf() && !(c.id matches
            Some(i) && all_digits(i)),
    decreases rest.len(),
{
    if rest.len() > 0 {
        match rest[0] {
            None => {},
            Some(l) => {
                let after = rest.drop_first();
                if skipping {
                    lemma_webvtt_cue_shape(after, count + 1, l.len() > 0);
                } else if l.len() == 0 {
                    lemma_webvtt_cue_shape(after, count + 1, false);
                } else if is_metadata(l) {
                    lemma_webvtt_cue_shape(after, count + 1, true);
                }
            },
        }
    }
}

/// The view of what a parser found: a cue, the end of the document, or an
/// error.
pub open spec fn found_view(found: Result<Option<Cue>, Error>) -> Option<
    Result<CueView, ErrorView>,
> {
    match found {
        Ok(Some(c)) => Some(Ok(c@)),
        Ok(None) => None,
        Err(e) => Some(Err(e@)),
    }
}

/// Whether the line opens a block of metadata.
fn opens_metadata(l: &[char]) -> (r: bool)
    ensures
        r == is_metadata(l@),
{
    let region: [char; 6] = ['R', 'E', 'G', 'I', 'O', 'N'];
    let note: [char; 4] = ['N', 'O', 'T', 'E'];
    let style: [char; 5] = ['S', 'T', 'Y', 'L', 'E'];
    proof {
        assert(region@ =~= seq!['R', 'E', 'G', 'I', 'O', 'N']);
        assert(note@ =~= seq!['N', 'O', 'T', 'E']);
        assert(style@ =~= seq!['S', 'T', 'Y', 'L', 'E']);
    }
    matches_at(l, region.as_slice(), 0) || matches_at(l, note.as_slice(), 0) || matches_at(
        l,
        style.as_slice(),
        0,
    )
}

/// Whether the line holds an arrow.
fn has_arrow(l: &[char]) -> (r: bool)
    ensures
        r == contains_seq(l@, arrow()),
{
    let pattern: [char; 3] = ['-', '-', '>'];
    proof {
        assert(pattern@ =~= arrow());
    }
    find(l, pattern.as_slice(), 0).is_some()
}

/// A parser of a WebVTT stream: it hands out the cues one by one.
pub struct WebVTTParser<'a> {
    lines: LineNb<'a>,
    end: bool,
}

impl<'a> WebVTTParser<'a> {
    /// The lines that the parser has not read yet.
    pub closed spec fn rest(&self) -> Seq<Line> {
        self.lines.rest()
    }

    /// The number of lines that the parser has read.
    pub closed spec fn count(&self) -> nat {
        self.lines.count()
    }

    /// Whether the parser has come to the end of the document or has failed:
    /// it then hands out nothing more.
    pub closed spec fn ended(&self) -> bool {
        self.end
    }

    /// A parser for the document `r`, whose first line it reads: that line
    /// must begin with `WEBVTT`.
    pub fn new(r: &'a [u8]) -> (p: Result<WebVTTParser<'a>, Error>)
        ensures
            match webvtt_header(document_lines(r@)) {
                Some(error) => p matches Err(e) && e@ == error,
                None => p matches Ok(parser) && parser.rest() == document_lines(r@).drop_first()
                    && parser.count() == 1 && !parser.ended(),
            },
    {
        let mut lines = LineNb::new(r);
        match lines.next() {
            None => Err(Error::UnexpectedEof { line: 0 }),
            Some(Err(e)) => Err(e),
            Some(Ok(l)) => {
                let chars = to_chars(l.as_str());
                let word: [char; 6] = ['W', 'E', 'B', 'V', 'T', 'T'];
                proof {
                    assert(word@ =~= magic());
                }
                if matches_at(chars.as_slice(), word.as_slice(), 0) {
                    Ok(WebVTTParser { lines, end: false })
                } else {
                    Err(invalid_data(Reason::MissingHeader, l.as_str(), 1))
                }
            },
        }
    }

    /// The number of lines read so far.
    pub fn line_number(&self) -> (n: usize)
        ensures
            n == self.count(),
            self.count() + self.rest().len() <= usize::MAX,
    {
        self.lines.current()
    }

    /// Tries to read the next cue; at the end of the document, returns
    /// `Ok(None)`. `id` is the line read last, where that line may be the
    /// identifier of the cue.
    fn next_cue(&mut self, id: Option<String>) -> (r: Result<Option<Cue>, Error>)
        ensures
            final(self).end == old(self).end,
            ({
                let step = match id {
                    Some(i) => webvtt_after_id(old(self).rest(), old(self).count(), i@),
                    None => webvtt_next(old(self).rest(), old(self).count(), false),
                };
                &&& step.item == found_view(r)
                &&& final(self).rest() == step.rest
                &&& final(self).count() == step.count
            }),
    {
        match id {
            Some(id) => self.after_id(id),
            None => self.await_cue(),
        }
    }

    /// Reads the line that follows the line `id`, which is no timing line:
    /// it must be the timing line of a cue.
    fn after_id(&mut self, id: String) -> (r: Result<Option<Cue>, Error>)
        ensures
            final(self).end == old(self).end,
            webvtt_after_id(old(self).rest(), old(self).count(), id@).item == found_view(r),
            webvtt_after_id(old(self).rest(), old(self).count(), id@).rest == final(self).rest(),
            webvtt_after_id(old(self).rest(), old(self).count(), id@).count
                == final(self).count(),
    {
        let number = self.lines.current();
        let line: String = match self.lines.next() {
            None => { return Ok(None); },
            Some(Err(e)) => { return Err(e); },
            Some(Ok(l)) => l,
        };
        let chars = to_chars(line.as_str());
        if has_arrow(chars.as_slice()) {
            match self.parse_cue(line.as_str(), Some(id)) {
                Ok(c) => Ok(Some(c)),
                Err(e) => Err(e),
            }
        } else {
            Err(invalid_data(Reason::LoneTextLine, id.as_str(), number))
        }
    }

    /// Passes over empty lines and blocks of metadata and reads the cue
    /// that follows them.
    fn await_cue(&mut self) -> (r: Result<Option<Cue>, Error>)
        ensures
            final(self).end == old(self).end,
            webvtt_next(old(self).rest(), old(self).count(), false).item == found_view(r),
            webvtt_next(old(self).rest(), old(self).count(), false).rest == final(self).rest(),
            webvtt_next(old(self).rest(), old(self).count(), false).count == final(self).count(),
    {
        loop
            invariant
                self.end == old(self).end,
                webvtt_next(old(self).rest(), old(self).count(), false) == webvtt_next(
                    self.rest(),
                    self.count(),
                    false,
                ),
            decreases self.rest().len(),
        {
            let ghost rest0 = self.rest();
            let ghost count0 = self.count();
            let line: String = match self.lines.next() {
                None => { return Ok(None); },
                Some(Err(e)) => { return Err(e); },
                Some(Ok(l)) => l,
            };
            assert(rest0.len() > 0 && rest0[0] == Some(line@));
            if line.as_str().is_empty() {
                assert(webvtt_next(rest0, count0, false) == webvtt_next(
                    self.rest(),
                    self.count(),
                    false,
                ));
                continue;
            }
            let chars = to_chars(line.as_str());
            if opens_metadata(chars.as_slice()) {
                assert(webvtt_next(rest0, count0, false) == webvtt_next(
                    self.rest(),
                    self.count(),
                    true,
                ));
                match self.next_while_empty() {
                    Ok(()) => { continue; },
                    Err(e) => { return Err(e); },
                }
            }
            if !has_arrow(chars.as_slice()) {
                assert(webvtt_next(rest0, count0, false) == webvtt_after_id(
                    self.rest(),
                    self.count(),
                    line@,
                ));
                return self.after_id(line);
            }
            assert(webvtt_next(rest0, count0, false) == webvtt_cue(
                self.rest(),
                self.count(),
                line@,
                None,
            ));
            return match self.parse_cue(line.as_str(), None) {
                Ok(c) => Ok(Some(c)),
                Err(e) => Err(e),
            };
        }
    }

    /// Reads lines up to the first empty one, or up to the end of the
    /// document, or up to a line that cannot be read.
    fn next_while_empty(&mut self) -> (r: Result<(), Error>)
        ensures
            final(self).end == old(self).end,
            final(self).rest().len() <= old(self).rest().len(),
            match r {
                Ok(()) => webvtt_next(old(self).rest(), old(self).count(), true) == webvtt_next(
                    final(self).rest(),
                    final(self).count(),
                    false,
                ),
                Err(e) => webvtt_next(old(self).rest(), old(self).count(), true) == Step::fail(
                    e@,
                    final(self).rest(),
                    final(self).count(),
                ),
            },
    {
        loop
            invariant
                self.end == old(self).end,
                self.rest().len() <= old(self).rest().len(),
                webvtt_next(old(self).rest(), old(self).count(), true) == webvtt_next(
                    self.rest(),
                    self.count(),
                    true,
                ),
            decreases self.rest().len(),
        {
            match self.lines.next() {
                None => {
                    assert(webvtt_next(self.rest(), self.count(), true) == webvtt_next(
                        self.rest(),
                        self.count(),
                        false,
                    ));
                    return Ok(());
                },
                Some(Err(e)) => {
                    return Err(e);
                },
                Some(Ok(l)) => {
                    if l.as_str().is_empty() {
                        return Ok(());
                    }
                },
            }
        }
    }

    /// Reads the times of a cue from its timing line `first`, which was read
    /// last, and then the text of the cue.
    fn parse_cue(&mut self, first: &str, id: Option<String>) -> (r: Result<Cue, Error>)
        ensures
            final(self).end == old(self).end,
            item_view(Some(r)) == webvtt_cue(
                old(self).rest(),
                old(self).count(),
                first@,
                id_view(id),
            ).item,
            final(self).rest() == webvtt_cue(
                old(self).rest(),
                old(self).count(),
                first@,
                id_view(id),
            ).rest,
            final(self).count() == webvtt_cue(
                old(self).rest(),
                old(self).count(),
                first@,
                id_view(id),
            ).count,
    {
        let (begin, end) = match parse_timing(first, self.lines.current()) {
            Ok(times) => times,
            Err(e) => { return Err(e); },
        };
        let text = match read_text(&mut self.lines) {
            Ok(text) => text,
            Err(e) => { return Err(e); },
        };
        let id = match id {
            Some(id) => if only_digit(id.as_str()) { None } else { Some(id) },
            None => None,
        };
        Ok(Cue::new(id, begin, end, text))
    }

    /// Hands out the next cue, or the error that ends the document's
    /// processing, or `None` at the end of the document. After `None` or an
    /// error it hands out `None` for ever.
    pub fn next(&mut self) -> (r: Option<Result<Cue, Error>>)
        ensures
            old(self).ended() ==> r is None && final(self).ended() && final(self).rest() == old(
                self,
            ).rest() && final(self).count() == old(self).count(),
            !old(self).ended() ==> {
                let step = webvtt_next(old(self).rest(), old(self).count(), false);
                &&& item_view(r) == step.item
                &&& final(self).rest() == step.rest
                &&& final(self).count() == step.count
                &&& final(self).ended() == !(r matches Some(Ok(_)))
            },
    {
        if self.end {
            return None;
        }
        match self.next_cue(None) {
            Ok(Some(c)) => Some(Ok(c)),
            Ok(None) => {
                self.end = true;
                None
            },
            Err(e) => {
                self.end = true;
                Some(Err(e))
            },
        }
    }
}

/// The time `t`, given in nanoseconds, as `MM:SS.mmm` where it is shorter
/// than an hour, and else as `HH:MM:SS.mmm`.
#[verifier::opaque]
pub open spec fn webvtt_time(t: nat) -> Seq<u8> {
    let secs = t / 1_000_000_000;
    let millis = t % 1_000_000_000 / 1_000_000;
    let clock = padded_decimal(secs / 60 % 60, 2) + encode_utf8(":"@) + padded_decimal(
        secs % 60,
        2,
    ) + encode_utf8("."@) + padded_decimal(millis, 3);
    if secs / 3600 == 0 {
        clock
    } else {
        padded_decimal(secs / 3600, 2) + encode_utf8(":"@) + clock
    }
}

/// The line that holds the identifier of a cue, where it has one.
pub open spec fn id_bytes(id: Option<Seq<char>>) -> Seq<u8> {
    match id {
        Some(i) => encode_utf8(i) + encode_utf8("\n"@),
        None => Seq::empty(),
    }
}

/// The block that stands for a cue in a document: the identifier where the
/// cue has one, the timing line, the text and an empty line.
#[verifier::opaque]
pub open spec fn webvtt_block(c: CueView) -> Seq<u8> {
    id_bytes(c.id) + webvtt_time(c.begin) + encode_utf8(" --> "@) + webvtt_time(c.end)
        + encode_utf8("\n"@) + text_bytes(c.text) + encode_utf8("\n"@)
}

/// The blocks of a list of cues, one after the other.
pub open spec fn webvtt_blocks(cues: Seq<CueView>) -> Seq<u8>
    decreases cues.len(),
{
    if cues.len() == 0 {
        Seq::empty()
    } else {
        webvtt_blocks(cues.drop_last()) + webvtt_block(cues.last())
    }
}

/// The first line of a document and the empty line behind it.
pub open spec fn webvtt_head() -> Seq<u8> {
    encode_utf8("WEBVTT\n\n"@)
}

/// The document that stands for a list of cues.
pub open spec fn webvtt_document(cues: Seq<CueView>) -> Seq<u8> {
    webvtt_head() + webvtt_blocks(cues)
}

/// Writes one time code.
pub fn write_duration(w: &mut Vec<u8>, d: &Duration) -> (r: Result<(), Error>)
    ensures
        r is Ok,
        final(w)@ == old(w)@ + webvtt_time(d@),
{
    reveal(webvtt_time);
    let sec = d.as_secs();
    let hours = sec / 3600;
    if hours != 0 {
        push_decimal(w, hours, 2);
        push_str(w, ":");
    }
    push_decimal(w, sec / 60 % 60, 2);
    push_str(w, ":");
    push_decimal(w, sec % 60, 2);
    push_str(w, ".");
    push_decimal(w, d.subsec_millis() as u64, 3);
    proof {
        assert(w@ =~= old(w)@ + webvtt_time(d@));
    }
    Ok(())
}

/// Writes the first line of a document and the empty line behind it.
pub fn write_head(w: &mut Vec<u8>)
    ensures
        final(w)@ == old(w)@ + webvtt_head(),
{
    push_str(w, "WEBVTT\n\n");
}

/// Writes the block of the cue `c`.
pub fn write(w: &mut Vec<u8>, c: &Cue)
    ensures
        final(w)@ == old(w)@ + webvtt_block(c@),
{
    reveal(webvtt_block);
    let ghost start = w@;
    match &c.id {
        Some(id) => {
            push_str(w, id.as_str());
            push_str(w, "\n");
            proof {
                lemma_append_twice(start, encode_utf8(id@), encode_utf8("\n"@));
            }
        },
        None => {
            assert(w@ =~= start + id_bytes(c@.id));
        },
    }
    let ghost mut block = id_bytes(c@.id);
    assert(w@ == start + block);
    let _ = write_duration(w, &c.begin);
    proof {
        lemma_append_twice(start, block, webvtt_time(c.begin@));
        block = block + webvtt_time(c.begin@);
    }
    push_str(w, " --> ");
    proof {
        lemma_append_twice(start, block, encode_utf8(" --> "@));
        block = block + encode_utf8(" --> "@);
    }
    let _ = write_duration(w, &c.end);
    proof {
        lemma_append_twice(start, block, webvtt_time(c.end@));
        block = block + webvtt_time(c.end@);
    }
    push_str(w, "\n");
    proof {
        lemma_append_twice(start, block, encode_utf8("\n"@));
        block = block + encode_utf8("\n"@);
    }
    write_text(w, &c.text);
    proof {
        lemma_append_twice(start, block, text_bytes(c@.text));
        block = block + text_bytes(c@.text);
    }
    push_str(w, "\n");
    proof {
        lemma_append_twice(start, block, encode_utf8("\n"@));
    }
}

/// Writes all the cues to `w` as a WebVTT document. Returns the number of
/// cues written.
pub fn out(cues: Vec<Cue>, w: &mut Vec<u8>) -> (r: Result<usize, Error>)
    ensures
        r == Ok::<usize, Error>(cues.len()),
        final(w)@ == old(w)@ + webvtt_document(cue_views(cues@)),
{
    write_head(w);
    let ghost views = cue_views(cues@);
    let mut nb: usize = 0;
    assert(views.take(0) =~= Seq::empty());
    assert(webvtt_head() + webvtt_blocks(Seq::empty()) =~= webvtt_head());
    while nb < cues.len()
        invariant
            nb <= cues.len(),
            views == cue_views(cues@),
            w@ == old(w)@ + webvtt_document(views.take(nb as int)),
        decreases cues.len() - nb,
    {
        write(w, &cues[nb]);
        proof {
            assert(views.take(nb + 1).drop_last() =~= views.take(nb as int));
            lemma_append_twice(
                webvtt_head(),
                webvtt_blocks(views.take(nb as int)),
                webvtt_block(views[nb as int]),
            );
            lemma_append_twice(
                old(w)@,
                webvtt_document(views.take(nb as int)),
                webvtt_block(views[nb as int]),
            );
        }
        nb += 1;
    }
    proof {
        assert(views.take(cues.len() as int) =~= views);
    }
    Ok(nb)
}

} // verus!
