//! SubRip documents: reading cues from them and writing cues as one.

use crate::cue::{cue_views, text_bytes, text_view, write_text, Cue, CueView};
use crate::duration::Duration;
use crate::error::{invalid_data, Error, ErrorView, Reason};
use crate::lines::{document_lines, Line, LineNb};
use crate::step::{item_view, lemma_text_block_progress, read_text, text_block, Step};
use crate::text::{
    all_digits, decimal_text, decimal_u64, decimal_value, find, find_char, find_from, is_all_digits,
    lemma_append_twice, lemma_three_digits, only_digit, padded_decimal, parse_decimal, position,
    position_from, push_decimal, push_str, skip_spaces, to_chars, trim_end, trim_start,
    trimmed_length,
};
use vstd::prelude::*;
use vstd::slice::slice_subrange;
use vstd::utf8::encode_utf8;

verus! {

/// The five characters between the two time stamps of a timing line.
pub open spec fn separator() -> Seq<char> {
    seq![' ', '-', '-', '>', ' ']
}

/// The value in nanoseconds of the time stamp `s`, which has the form
/// `H:MM:SS,mmm`: hours, minutes and seconds are decimal numbers of any
/// width, the milliseconds are exactly three digits.
#[verifier::opaque]
pub open spec fn srt_duration(s: Seq<char>) -> Result<nat, Reason> {
    let c1 = position(s, ':');
    let c2 = position_from(s, ':', c1 + 1);
    let c3 = position_from(s, ':', c2 + 1);
    let k1 = position_from(s, ',', c2 + 1);
    let k2 = position_from(s, ',', k1 + 1);
    if c2 >= s.len() || c3 < s.len() {
        // fewer or more than two colons
        Err(Reason::DurationSyntax)
    } else if k1 >= s.len() || k2 < s.len() {
        // no comma behind the seconds, or more than one
        Err(Reason::DurationSyntax)
    } else {
        let hours = decimal_u64(s.take(c1));
        let minutes = decimal_u64(s.subrange(c1 + 1, c2));
        let seconds = decimal_u64(s.subrange(c2 + 1, k1));
        let fraction = s.skip(k1 + 1);
        match (hours, minutes, seconds) {
            (Some(h), Some(m), Some(sec)) => {
                let total = h as nat * 3600 + m as nat * 60 + sec as nat;
                if !(fraction.len() == 3 && all_digits(fraction)) {
                    Err(Reason::MillisecondDigits)
                } else if total <= u64::MAX {
                    Ok(total * 1_000_000_000 + decimal_value(fraction) * 1_000_000)
                } else {
                    Err(Reason::InvalidNumber)
                }
            },
            _ => Err(Reason::InvalidNumber),
        }
    }
}

/// The two times of the timing line `s`: two time stamps with the separator
/// ` --> ` between them, which stands in the line exactly once. White space
/// around the separator is no part of the time stamps.
#[verifier::opaque]
pub open spec fn srt_timecode(s: Seq<char>) -> Result<(nat, nat), Reason> {
    match find_from(s, separator(), 0) {
        None => Err(Reason::TimecodeSyntax),
        Some(i) => if find_from(s, separator(), i + 5) is Some {
            Err(Reason::TimecodeSyntax)
        } else {
            match srt_duration(trim_end(s.take(i))) {
                Err(reason) => Err(reason),
                Ok(begin) => match srt_duration(trim_start(s.skip(i + 5))) {
                    Err(reason) => Err(reason),
                    Ok(end) => Ok((begin, end)),
                },
            }
        },
    }
}

/// Combines hours, minutes and seconds, where the sum fits in 64 bits.
fn combine(h: u64, m: u64, sec: u64) -> (r: Option<u64>)
    ensures
        r == (if h as nat * 3600 + m as nat * 60 + sec as nat <= u64::MAX {
            Some((h as nat * 3600 + m as nat * 60 + sec as nat) as u64)
        } else {
            None
        }),
{
    let a = match h.checked_mul(3600) {
        Some(v) => v,
        None => { return None; },
    };
    let b = match m.checked_mul(60) {
        Some(v) => v,
        None => { return None; },
    };
    let c = match a.checked_add(b) {
        Some(v) => v,
        None => { return None; },
    };
    c.checked_add(sec)
}

/// Reads the time stamp `s`.
fn parse_stamp(s: &[char]) -> (r: Result<Duration, Reason>)
    ensures
        match srt_duration(s@) {
            Ok(t) => r matches Ok(d) && d@ == t,
            Err(reason) => r matches Err(e) && e == reason,
        },
{
    reveal(srt_duration);
    let n = s.len();
    let c1 = find_char(s, ':', 0);
    if c1 >= n {
        assert(position_from(s@, ':', c1 + 1) == s@.len());
        return Err(Reason::DurationSyntax);
    }
    let c2 = find_char(s, ':', c1 + 1);
    if c2 >= n {
        return Err(Reason::DurationSyntax);
    }
    let c3 = find_char(s, ':', c2 + 1);
    if c3 < n {
        return Err(Reason::DurationSyntax);
    }
    let k1 = find_char(s, ',', c2 + 1);
    if k1 >= n {
        return Err(Reason::DurationSyntax);
    }
    let k2 = find_char(s, ',', k1 + 1);
    if k2 < n {
        return Err(Reason::DurationSyntax);
    }
    proof {
        assert(s@.subrange(0, c1 as int) =~= s@.take(c1 as int));
        assert(s@.subrange(k1 + 1, n as int) =~= s@.skip(k1 + 1));
    }
    let hours = parse_decimal(slice_subrange(s, 0, c1));
    let minutes = parse_decimal(slice_subrange(s, c1 + 1, c2));
    let seconds = parse_decimal(slice_subrange(s, c2 + 1, k1));
    let fraction = slice_subrange(s, k1 + 1, n);
    match (hours, minutes, seconds) {
        (Some(h), Some(m), Some(sec)) => {
            if fraction.len() != 3 || !is_all_digits(fraction) {
                return Err(Reason::MillisecondDigits);
            }
            proof {
                lemma_three_digits(fraction@);
            }
            let millis: u32 = match parse_decimal(fraction) {
                Some(v) => v as u32,
                None => 0,
            };
            match combine(h, m, sec) {
                Some(total) => Ok(Duration::new(total, millis * 1_000_000)),
                None => Err(Reason::InvalidNumber),
            }
        },
        _ => Err(Reason::InvalidNumber),
    }
}

/// Reads the two times of a timing line.
fn parse_time_chars(s: &[char]) -> (r: Result<(Duration, Duration), Reason>)
    ensures
        match srt_timecode(s@) {
            Ok((begin, end)) => r matches Ok((b, e)) && b@ == begin && e@ == end,
            Err(reason) => r matches Err(e) && e == reason,
        },
{
    reveal(srt_timecode);
    let pattern: [char; 5] = [' ', '-', '-', '>', ' '];
    proof {
        assert(pattern@ =~= separator());
    }
    let i = match find(s, pattern.as_slice(), 0) {
        Some(i) => i,
        None => { return Err(Reason::TimecodeSyntax); },
    };
    if find(s, pattern.as_slice(), i + 5).is_some() {
        return Err(Reason::TimecodeSyntax);
    }
    let left = slice_subrange(s, 0, i);
    let right = slice_subrange(s, i + 5, s.len());
    let left_len = trimmed_length(left);
    let right_from = skip_spaces(right, 0);
    proof {
        assert(left@ =~= s@.take(i as int));
        assert(right@ =~= s@.skip(i + 5));
        assert(left@.subrange(0, left_len as int) =~= trim_end(left@));
        assert(right@.subrange(right_from as int, right@.len() as int) =~= trim_start(right@));
    }
    let begin = match parse_stamp(slice_subrange(left, 0, left_len)) {
        Ok(d) => d,
        Err(reason) => { return Err(reason); },
    };
    match parse_stamp(slice_subrange(right, right_from, right.len())) {
        Ok(end) => Ok((begin, end)),
        Err(reason) => Err(reason),
    }
}

/// Reads the two times of the timing line `s`, which is line `line` of a
/// document.
pub fn parse_time(s: &str, line: usize) -> (r: Result<(Duration, Duration), Error>)
    ensures
        match srt_timecode(s@) {
            Ok((begin, end)) => r matches Ok((b, e)) && b@ == begin && e@ == end,
            Err(reason) => r matches Err(e) && e@ == (ErrorView::InvalidData {
                reason,
                data: s@,
                line: line as nat,
            }),
        },
{
    let chars = to_chars(s);
    match parse_time_chars(chars.as_slice()) {
        Ok(times) => Ok(times),
        Err(reason) => Err(invalid_data(reason, s, line)),
    }
}

/// Reads the time stamp `s`, which was found in line `line` of a document.
pub fn parse_duration(s: &str, line: usize) -> (r: Result<Duration, Error>)
    ensures
        match srt_duration(s@) {
            Ok(t) => r matches Ok(d) && d@ == t,
            Err(reason) => r matches Err(e) && e@ == (ErrorView::InvalidData {
                reason,
                data: s@,
                line: line as nat,
            }),
        },
{
    let chars = to_chars(s);
    match parse_stamp(chars.as_slice()) {
        Ok(d) => Ok(d),
        Err(reason) => Err(invalid_data(reason, s, line)),
    }
}

/// What follows the sequence number of a block: the timing line and the
/// text. `count` lines were read so far, the sequence number among them.
pub open spec fn srt_cue(rest: Seq<Line>, count: nat) -> Step {
    if rest.len() == 0 {
        Step::fail(ErrorView::UnexpectedEof { line: count }, rest, count)
    } else {
        match rest[0] {
            None => Step::fail(ErrorView::Io { line: count }, rest.drop_first(), count),
            Some(l) => match srt_timecode(l) {
                Err(reason) => Step::fail(
                    ErrorView::InvalidData { reason, data: l, line: count + 1 },
                    rest.drop_first(),
                    count + 1,
                ),
                Ok((begin, end)) => {
                    let block = text_block(rest.drop_first(), count + 1);
                    if block.failed {
                        Step::fail(ErrorView::Io { line: block.count }, block.rest, block.count)
                    } else {
                        Step::cue(
                            CueView::spanning(None, begin, end, block.text),
                            block.rest,
                            block.count,
                        )
                    }
                },
            },
        }
    }
}

/// The next step of a SubRip parser that has `rest` before it and has read
/// `count` lines. Empty lines between blocks are passed over. A block begins
/// with a line of digits, which is not kept.
pub open spec fn srt_next(rest: Seq<Line>, count: nat) -> Step
    decreases rest.len(),
{
    if rest.len() == 0 {
        Step::end(rest, count)
    } else {
        match rest[0] {
            None => Step::fail(ErrorView::Io { line: count }, rest.drop_first(), count),
            Some(l) => if l.len() == 0 {
                srt_next(rest.drop_first(), count + 1)
            } else if !all_digits(l) {
                Step::fail(
                    ErrorView::InvalidData {
                        reason: Reason::UnexpectedLine,
                        data: l,
                        line: count + 1,
                    },
                    rest.drop_first(),
                    count + 1,
                )
            } else {
                srt_cue(rest.drop_first(), count + 1)
            },
        }
    }
}

/// A step that hands out a cue uses up one line or more.
pub proof fn lemma_srt_progress(rest: Seq<Line>, count: nat)
    ensures
        srt_next(rest, count).item matches Some(Ok(_)) ==> srt_next(rest, count).rest.len()
            < rest.len(),
    decreases rest.len(),
{
    if rest.len() > 0 {
        match rest[0] {
            None => {},
            Some(l) => {
                if l.len() == 0 {
                    lemma_srt_progress(rest.drop_first(), count + 1);
                } else if all_digits(l) {
                    let after = rest.drop_first();
                    if after.len() > 0 {
                        lemma_text_block_progress(after.drop_first(), count + 2);
                    }
                }
            },
        }
    }
}

/// A cue that a SubRip parser hands out does not end before it begins, and
/// has no identifier.
pub proof fn lemma_srt_cue_shape(rest: Seq<Line>, count: nat)
    ensures
        srt_next(rest, count).item matches Some(Ok(c)) ==> c.wf() && c.id is None,
    decreases rest.len(),
{
    if rest.len() > 0 {
        match rest[0] {
            None => {},
            Some(l) => {
                if l.len() == 0 {
                    lemma_srt_cue_shape(rest.drop_first(), count + 1);
                }
            },
        }
    }
}

/// A parser of a SubRip document: it hands out the cues one by one.
pub struct SrtParser<'a> {
    lines: LineNb<'a>,
    end: bool,
}

impl<'a> SrtParser<'a> {
    /// The lines that the parser has not read yet.
    pub closed spec fn rest(&self) -> Seq<Line> {
        self.lines.rest()
    }

    /// The number of lines that the parser has read.
    pub closed spec fn count(&self) -> nat {
        self.lines.count()
    }

    /// Whether the parser has come to the end of the document or has failed:
    /// it then hands out nothing more.
    pub closed spec fn ended(&self) -> bool {
        self.end
    }

    /// A parser at the start of the document `r`.
    pub fn new(r: &'a [u8]) -> (p: Result<SrtParser<'a>, Error>)
        ensures
            p matches Ok(parser) && parser.rest() == document_lines(r@) && parser.count() == 0
                && !parser.ended(),
    {
        Ok(SrtParser { lines: LineNb::new(r), end: false })
    }

    /// The number of lines read so far.
    pub fn line_number(&self) -> (n: usize)
        ensures
            n == self.count(),
            self.count() + self.rest().len() <= usize::MAX,
    {
        self.lines.current()
    }

    /// Just after the sequence number was read, reads the rest of the block:
    /// the timing line and the text.
    fn next_cue(&mut self) -> (r: Result<Cue, Error>)
        ensures
            final(self).end == old(self).end,
            item_view(Some(r)) == srt_cue(old(self).rest(), old(self).count()).item,
            final(self).rest() == srt_cue(old(self).rest(), old(self).count()).rest,
            final(self).count() == srt_cue(old(self).rest(), old(self).count()).count,
    {
        match self.lines.next() {
            None => Err(Error::UnexpectedEof { line: self.lines.current() }),
            Some(Err(e)) => Err(e),
            Some(Ok(time_code)) => {
                let (begin, end) = match parse_time(time_code.as_str(), self.lines.current()) {
                    Ok(times) => times,
                    Err(e) => { return Err(e); },
                };
                match self.next_text() {
                    Ok(text) => Ok(Cue::new(None, begin, end, text)),
                    Err(e) => Err(e),
                }
            },
        }
    }

    /// Returns the text of a cue.
    fn next_text(&mut self) -> (r: Result<Vec<String>, Error>)
        ensures
            final(self).end == old(self).end,
            final(self).rest() == text_block(old(self).rest(), old(self).count()).rest,
            final(self).count() == text_block(old(self).rest(), old(self).count()).count,
            match r {
                Ok(t) => !text_block(old(self).rest(), old(self).count()).failed && text_view(t@)
                    == text_block(old(self).rest(), old(self).count()).text,
                Err(e) => text_block(old(self).rest(), old(self).count()).failed && e@ == (
                ErrorView::Io { line: final(self).count() }),
            },
    {
        read_text(&mut self.lines)
    }

    /// Hands out the next cue, or the error that ends the document's
    /// processing, or `None` at the end of the document. After `None` or an
    /// error it hands out `None` for ever.
    pub fn next(&mut self) -> (r: Option<Result<Cue, Error>>)
        ensures
            old(self).ended() ==> r is None && final(self).ended() && final(self).rest() == old(
                self,
            ).rest() && final(self).count() == old(self).count(),
            !old(self).ended() ==> {
                let step = srt_next(old(self).rest(), old(self).count());
                &&& item_view(r) == step.item
                &&& final(self).rest() == step.rest
                &&& final(self).count() == step.count
                &&& final(self).ended() == !(r matches Some(Ok(_)))
            },
    {
        if self.end {
            return None;
        }
        loop
            invariant
                !old(self).end,
                !self.end,
                srt_next(old(self).rest(), old(self).count()) == srt_next(
                    self.rest(),
                    self.count(),
                ),
            decreases self.rest().len(),
        {
            match self.lines.next() {
                None => {
                    self.end = true;
                    return None;
                },
                Some(Err(e)) => {
                    self.end = true;
                    return Some(Err(e));
                },
                Some(Ok(l)) => {
                    if l.as_str().is_empty() {
                        continue;
                    }
                    if !only_digit(l.as_str()) {
                        self.end = true;
                        return Some(
                            Err(
                                invalid_data(
                                    Reason::UnexpectedLine,
                                    l.as_str(),
                                    self.lines.current(),
                                ),
                            ),
                        );
                    }
                    return match self.next_cue() {
                        Err(e) => {
                            self.end = true;
                            Some(Err(e))
                        },
                        Ok(c) => Some(Ok(c)),
                    };
                },
            }
        }
    }
}

/// The time `t`, given in nanoseconds, as `HH:MM:SS,mmm`. The hours take
/// two digits or as many as they need.
#[verifier::opaque]
pub open spec fn srt_time(t: nat) -> Seq<u8> {
    let secs = t / 1_000_000_000;
    let millis = t % 1_000_000_000 / 1_000_000;
    padded_decimal(secs / 3600, 2) + encode_utf8(":"@) + padded_decimal(secs / 60 % 60, 2)
        + encode_utf8(":"@) + padded_decimal(secs % 60, 2) + encode_utf8(","@) + padded_decimal(
        millis,
        3,
    )
}

/// The block that stands for a cue in a document: the number of the block,
/// the timing line, the text and an empty line. The identifier of the cue
/// has no part in it.
#[verifier::opaque]
pub open spec fn srt_block(number: nat, c: CueView) -> Seq<u8> {
    decimal_text(number) + encode_utf8("\n"@) + srt_time(c.begin) + encode_utf8(" --> "@)
        + srt_time(c.end) + encode_utf8("\n"@) + text_bytes(c.text) + encode_utf8("\n"@)
}

/// The document that stands for a list of cues: their blocks, numbered from
/// one.
pub open spec fn srt_document(cues: Seq<CueView>) -> Seq<u8>
    decreases cues.len(),
{
    if cues.len() == 0 {
        Seq::empty()
    } else {
        srt_document(cues.drop_last()) + srt_block(cues.len(), cues.last())
    }
}

/// A parser of a SubRip document that hands out cues alone: the error that
/// ends the reading, where there is one, is kept in `error`.
pub struct Srt<'a> {
    input: SrtParser<'a>,
    pub error: Option<Error>,
}

impl<'a> Srt<'a> {
    /// The parser that reads the document.
    pub closed spec fn parser(&self) -> SrtParser<'a> {
        self.input
    }

    /// The error that ended the reading.
    pub closed spec fn failure(&self) -> Option<Error> {
        self.error
    }

    /// A parser at the start of the document `input`.
    pub fn parse(input: &'a [u8]) -> (s: Srt<'a>)
        ensures
            s.failure() is None,
            s.parser().rest() == document_lines(input@),
            s.parser().count() == 0,
            !s.parser().ended(),
    {
        Srt { input: SrtParser { lines: LineNb::new(input), end: false }, error: None }
    }

    /// Hands out the next cue, or `None` at the end of the document or
    /// where the reading fails; after a failure, `error` says why.
    pub fn next(&mut self) -> (r: Option<Cue>)
        ensures
            old(self).parser().ended() ==> r is None && final(self).failure() == old(
                self,
            ).failure() && final(self).parser().ended(),
            !old(self).parser().ended() ==> {
                let step = srt_next(old(self).parser().rest(), old(self).parser().count());
                &&& final(self).parser().rest() == step.rest
                &&& final(self).parser().count() == step.count
                &&& final(self).parser().ended() == !(r is Some)
                &&& match step.item {
                    Some(Ok(c)) => r matches Some(found) && found@ == c && final(self).failure()
                        == old(self).failure(),
                    Some(Err(e)) => r is None && (final(self).failure() matches Some(kept)
                        && kept@ == e),
                    None => r is None && final(self).failure() == old(self).failure(),
                }
            },
    {
        match self.input.next() {
            Some(Ok(c)) => Some(c),
            Some(Err(e)) => {
                self.error = Some(e);
                None
            },
            None => None,
        }
    }
}

/// The document of the first `k` cues opens the document of them all.
pub proof fn lemma_document_prefix(cues: Seq<CueView>, k: int)
    requires
        0 <= k <= cues.len(),
    ensures
        srt_document(cues.take(k)).is_prefix_of(srt_document(cues)),
    decreases cues.len() - k,
{
    if k == cues.len() {
        assert(cues.take(k) =~= cues);
    } else {
        lemma_document_prefix(cues, k + 1);
        assert(cues.take(k + 1).drop_last() =~= cues.take(k));
    }
}

/// A block opens with its number on a line of its own, and is the same
/// whatever identifier the cue carries.
pub proof fn lemma_block_opening(number: nat, c: CueView, id: Option<Seq<char>>)
    ensures
        (decimal_text(number) + encode_utf8("\n"@)).is_prefix_of(srt_block(number, c)),
        srt_block(number, CueView { id, ..c }) == srt_block(number, c),
{
    reveal(srt_block);
    let opening = decimal_text(number) + encode_utf8("\n"@);
    let tail = srt_time(c.begin) + encode_utf8(" --> "@) + srt_time(c.end) + encode_utf8("\n"@)
        + text_bytes(c.text) + encode_utf8("\n"@);
    assert(srt_block(number, c) =~= opening + tail);
    assert((opening + tail).subrange(0, opening.len() as int) =~= opening);
}

/// The blocks of a document are numbered from one, in order: the document
/// of the first `k + 1` cues is the document of the first `k`, then the
/// block of the next cue under the number `k + 1`.
pub proof fn lemma_sequence_numbers(cues: Seq<CueView>, k: int)
    requires
        0 <= k < cues.len(),
    ensures
        srt_document(cues.take(k + 1)) == srt_document(cues.take(k)) + srt_block(
            (k + 1) as nat,
            cues[k],
        ),
        srt_document(cues.take(k + 1)).is_prefix_of(srt_document(cues)),
{
    assert(cues.take(k + 1).drop_last() =~= cues.take(k));
    lemma_document_prefix(cues, k + 1);
}

/// Two lists of cues that differ in the identifiers alone stand for the
/// same document.
pub proof fn lemma_identifiers_ignored(a: Seq<CueView>, b: Seq<CueView>)
    requires
        a.len() == b.len(),
        forall|i: int| 0 <= i < a.len() ==> #[trigger] b[i] == (CueView { id: b[i].id, ..a[i] }),
    ensures
        srt_document(a) == srt_document(b),
    decreases a.len(),
{
    if a.len() > 0 {
        lemma_identifiers_ignored(a.drop_last(), b.drop_last());
        assert(b.last() == (CueView { id: b.last().id, ..a.last() }));
        lemma_block_opening(a.len(), a.last(), b.last().id);
    }
}

/// Writes one time code.
pub fn write_duration(w: &mut Vec<u8>, d: &Duration) -> (r: Result<(), Error>)
    ensures
        r is Ok,
        final(w)@ == old(w)@ + srt_time(d@),
{
    reveal(srt_time);
    let sec = d.as_secs();
    push_decimal(w, sec / 3600, 2);
    push_str(w, ":");
    push_decimal(w, sec / 60 % 60, 2);
    push_str(w, ":");
    push_decimal(w, sec % 60, 2);
    push_str(w, ",");
    push_decimal(w, d.subsec_millis() as u64, 3);
    proof {
        assert(w@ =~= old(w)@ + srt_time(d@));
    }
    Ok(())
}

/// Writes the block of the cue `c`, numbered `number`.
pub fn write(w: &mut Vec<u8>, number: usize, c: &Cue)
    ensures
        final(w)@ == old(w)@ + srt_block(number as nat, c@),
{
    reveal(srt_block);
    let ghost start = w@;
    push_decimal(w, number as u64, 1);
    let ghost mut block = decimal_text(number as nat);
    assert(padded_decimal(number as nat, 1) == block);
    push_str(w, "\n");
    proof {
        lemma_append_twice(start, block, encode_utf8("\n"@));
        block = block + encode_utf8("\n"@);
    }
    let _ = write_duration(w, &c.begin);
    proof {
        lemma_append_twice(start, block, srt_time(c.begin@));
        block = block + srt_time(c.begin@);
    }
    push_str(w, " --> ");
    proof {
        lemma_append_twice(start, block, encode_utf8(" --> "@));
        block = block + encode_utf8(" --> "@);
    }
    let _ = write_duration(w, &c.end);
    proof {
        lemma_append_twice(start, block, srt_time(c.end@));
        block = block + srt_time(c.end@);
    }
    push_str(w, "\n");
    proof {
        lemma_append_twice(start, block, encode_utf8("\n"@));
        block = block + encode_utf8("\n"@);
    }
    write_text(w, &c.text);
    proof {
        lemma_append_twice(start, block, text_bytes(c@.text));
        block = block + text_bytes(c@.text);
    }
    push_str(w, "\n");
    proof {
        lemma_append_twice(start, block, encode_utf8("\n"@));
    }
}

/// Writes all the cues to `w` as a SubRip document. Returns the number of
/// cues written.
pub fn out(cues: Vec<Cue>, w: &mut Vec<u8>) -> (r: Result<usize, Error>)
    ensures
        r == Ok::<usize, Error>(cues.len()),
        final(w)@ == old(w)@ + srt_document(cue_views(cues@)),
{
    let ghost views = cue_views(cues@);
    let mut nb: usize = 0;
    while nb < cues.len()
        invariant
            nb <= cues.len(),
            views == cue_views(cues@),
            w@ == old(w)@ + srt_document(views.take(nb as int)),
        decreases cues.len() - nb,
    {
        write(w, nb + 1, &cues[nb]);
        proof {
            lemma_sequence_numbers(views, nb as int);
            lemma_append_twice(
                old(w)@,
                srt_document(views.take(nb as int)),
                srt_block((nb + 1) as nat, views[nb as int]),
            );
        }
        nb += 1;
    }
    proof {
        assert(views.take(cues.len() as int) =~= views);
    }
    Ok(nb)
}

} // verus!
