//! The whole way of a document: cues are read from the input one by one,
//! moved in time and written to the output.

use crate::cue::{Cue, CueView};
use crate::delta::{shift_cue, Delta, DeltaView};
use crate::error::{Error, ErrorView};
use crate::format::Format;
use crate::lines::{document_lines, Line};
use crate::srt::{
    lemma_srt_cue_shape, lemma_srt_progress, srt_block, srt_document, srt_next, SrtParser,
};
use crate::step::{item_view, Step};
use crate::text::lemma_append_twice;
use crate::webvtt::{
    lemma_webvtt_cue_shape, lemma_webvtt_progress, webvtt_block, webvtt_blocks, webvtt_document,
    webvtt_head, webvtt_header, webvtt_next, WebVTTParser,
};
use vstd::prelude::*;

verus! {

/// What a document holds: its cues up to the end or up to the first error,
/// and that error.
pub struct Parsed {
    pub cues: Seq<CueView>,
    pub error: Option<ErrorView>,
}

/// The next step of a parser for `format` that has `rest` before it and has
/// read `count` lines.
#[verifier::opaque]
pub open spec fn step_of(format: Format, rest: Seq<Line>, count: nat) -> Step {
    match format {
        Format::Srt => srt_next(rest, count),
        Format::WebVTT => webvtt_next(rest, count, false),
    }
}

/// A step that hands out a cue uses up one line or more.
pub proof fn lemma_progress(format: Format, rest: Seq<Line>, count: nat)
    ensures
        step_of(format, rest, count).item matches Some(Ok(_)) ==> step_of(
            format,
            rest,
            count,
        ).rest.len() < rest.len(),
{
    reveal(step_of);
    match format {
        Format::Srt => lemma_srt_progress(rest, count),
        Format::WebVTT => lemma_webvtt_progress(rest, count, false),
    }
}

/// What a parser for `format` finds in the lines `rest`, after `count`
/// lines: all that it hands out, step by step.
#[verifier::opaque]
pub open spec fn parse_from(format: Format, rest: Seq<Line>, count: nat) -> Parsed
    decreases rest.len(),
{
    let step = step_of(format, rest, count);
    match step.item {
        None => Parsed { cues: Seq::empty(), error: None },
        Some(Err(e)) => Parsed { cues: Seq::empty(), error: Some(e) },
        Some(Ok(c)) => {
            proof {
                lemma_progress(format, rest, count);
            }
            let then = parse_from(format, step.rest, step.count);
            Parsed { cues: seq![c] + then.cues, error: then.error }
        },
    }
}

/// What a parser finds is what its next step hands out, and then what it
/// finds behind that step.
pub proof fn lemma_parse_step(format: Format, rest: Seq<Line>, count: nat)
    ensures
        match step_of(format, rest, count).item {
            None => parse_from(format, rest, count) == (Parsed { cues: Seq::empty(), error: None }),
            Some(Err(e)) => parse_from(format, rest, count) == (Parsed {
                cues: Seq::empty(),
                error: Some(e),
            }),
            Some(Ok(c)) => {
                let step = step_of(format, rest, count);
                let then = parse_from(format, step.rest, step.count);
                &&& step.rest.len() < rest.len()
                &&& parse_from(format, rest, count).cues == seq![c] + then.cues
                &&& parse_from(format, rest, count).error == then.error
            },
        },
{
    reveal(parse_from);
    lemma_progress(format, rest, count);
}

/// No cue that a parser finds ends before it begins.
pub proof fn lemma_parsed_cues_wf(format: Format, rest: Seq<Line>, count: nat)
    ensures
        forall|i: int|
            0 <= i < parse_from(format, rest, count).cues.len() ==> (#[trigger] parse_from(
                format,
                rest,
                count,
            ).cues[i]).wf(),
    decreases rest.len(),
{
    lemma_parse_step(format, rest, count);
    let step = step_of(format, rest, count);
    match step.item {
        Some(Ok(c)) => {
            reveal(step_of);
            match format {
                Format::Srt => lemma_srt_cue_shape(rest, count),
                Format::WebVTT => lemma_webvtt_cue_shape(rest, count, false),
            }
            lemma_parsed_cues_wf(format, step.rest, step.count);
        },
        _ => {},
    }
}

/// What the document `bytes` holds, read as `format`. A WebVTT document
/// that lacks its first line holds nothing: the error is all there is.
pub open spec fn parse_document(format: Format, bytes: Seq<u8>) -> Result<Parsed, ErrorView> {
    let lines = document_lines(bytes);
    match format {
        Format::Srt => Ok(parse_from(format, lines, 0)),
        Format::WebVTT => match webvtt_header(lines) {
            Some(e) => Err(e),
            None => Ok(parse_from(format, lines.drop_first(), 1)),
        },
    }
}

/// The cues moved by `delta`, one by one, up to the first that cannot be
/// moved; `error` says why that one cannot.
#[verifier::opaque]
pub open spec fn shift_all(delta: DeltaView, cues: Seq<CueView>) -> Parsed
    decreases cues.len(),
{
    if cues.len() == 0 {
        Parsed { cues: Seq::empty(), error: None }
    } else {
        match delta.apply(cues[0]) {
            Err(e) => Parsed { cues: Seq::empty(), error: Some(e) },
            Ok(moved) => {
                let then = shift_all(delta, cues.drop_first());
                Parsed { cues: seq![moved] + then.cues, error: then.error }
            },
        }
    }
}

/// Moving a list of cues moves the first of them, and then the others.
pub proof fn lemma_shift_step(delta: DeltaView, c: CueView, cues: Seq<CueView>)
    ensures
        match delta.apply(c) {
            Err(e) => shift_all(delta, seq![c] + cues) == (Parsed {
                cues: Seq::empty(),
                error: Some(e),
            }),
            Ok(moved) => {
                &&& shift_all(delta, seq![c] + cues).cues == seq![moved] + shift_all(
                    delta,
                    cues,
                ).cues
                &&& shift_all(delta, seq![c] + cues).error == shift_all(delta, cues).error
            },
        },
{
    reveal(shift_all);
    assert((seq![c] + cues).drop_first() =~= cues);
}

/// Where there is no cue, none is moved and nothing goes wrong.
pub proof fn lemma_shift_nothing(delta: DeltaView)
    ensures
        shift_all(delta, Seq::empty()) == (Parsed { cues: Seq::empty(), error: None }),
{
    reveal(shift_all);
}

/// Moved cues are as many as the cues they come from, or fewer; each stands
/// for the cue at its place, moved; and where none stopped the delta, none
/// is missing.
pub proof fn lemma_shift_all_shape(delta: DeltaView, cues: Seq<CueView>)
    ensures
        shift_all(delta, cues).cues.len() <= cues.len(),
        forall|i: int|
            0 <= i < shift_all(delta, cues).cues.len() ==> delta.apply(cues[i]) == Ok::<
                CueView,
                ErrorView,
            >(#[trigger] shift_all(delta, cues).cues[i]),
        shift_all(delta, cues).error is None <==> shift_all(delta, cues).cues.len() == cues.len(),
        shift_all(delta, cues).error matches Some(e) ==> delta.apply(
            cues[shift_all(delta, cues).cues.len() as int],
        ) == Err::<CueView, ErrorView>(e),
    decreases cues.len(),
{
    reveal(shift_all);
    if cues.len() > 0 {
        lemma_shift_all_shape(delta, cues.drop_first());
        match delta.apply(cues[0]) {
            Err(e) => {},
            Ok(moved) => {
                let then = shift_all(delta, cues.drop_first());
                let all = shift_all(delta, cues).cues;
                assert forall|i: int| 0 <= i < all.len() implies delta.apply(cues[i]) == Ok::<
                    CueView,
                    ErrorView,
                >(#[trigger] all[i]) by {
                    if i > 0 {
                        assert(all[i] == then.cues[i - 1]);
                        assert(cues[i] == cues.drop_first()[i - 1]);
                    }
                }
                if then.error is Some {
                    let k = then.cues.len() as int;
                    assert(cues[k + 1] == cues.drop_first()[k]);
                }
            },
        }
    }
}

/// The delta `Zero` moves no cue, and no cue stops it.
pub proof fn lemma_shift_zero(cues: Seq<CueView>)
    ensures
        shift_all(DeltaView::Zero, cues) == (Parsed { cues, error: None }),
    decreases cues.len(),
{
    reveal(shift_all);
    if cues.len() > 0 {
        lemma_shift_zero(cues.drop_first());
        assert(seq![cues[0]] + cues.drop_first() =~= cues);
    } else {
        assert(cues =~= Seq::empty());
    }
}

/// The document in `format` that stands for a list of cues.
#[verifier::opaque]
pub open spec fn document_bytes(format: Format, cues: Seq<CueView>) -> Seq<u8> {
    match format {
        Format::Srt => srt_document(cues),
        Format::WebVTT => webvtt_document(cues),
    }
}

/// How a conversion ends, for what the input holds: the number of cues
/// written, or the error that a cue could not be moved, or else the error
/// that ended the reading.
pub open spec fn outcome(parsed: Parsed, moved: Parsed) -> Result<nat, ErrorView> {
    match (moved.error, parsed.error) {
        (Some(e), _) => Err(e),
        (None, Some(e)) => Err(e),
        (None, None) => Ok(moved.cues.len()),
    }
}

/// The view of how a conversion ended.
pub open spec fn outcome_view(r: Result<usize, Error>) -> Result<nat, ErrorView> {
    match r {
        Ok(n) => Ok(n as nat),
        Err(e) => Err(e@),
    }
}

/// A parser of one of the two formats.
pub enum Parser<'a> {
    Srt(SrtParser<'a>),
    WebVTT(WebVTTParser<'a>),
}

impl<'a> Parser<'a> {
    /// The format that the parser reads.
    pub open spec fn format(&self) -> Format {
        match self {
            Parser::Srt(_) => Format::Srt,
            Parser::WebVTT(_) => Format::WebVTT,
        }
    }

    /// The lines that the parser has not read yet.
    pub open spec fn rest(&self) -> Seq<Line> {
        match self {
            Parser::Srt(p) => p.rest(),
            Parser::WebVTT(p) => p.rest(),
        }
    }

    /// The number of lines that the parser has read.
    pub open spec fn count(&self) -> nat {
        match self {
            Parser::Srt(p) => p.count(),
            Parser::WebVTT(p) => p.count(),
        }
    }

    /// Whether the parser hands out nothing more.
    pub open spec fn ended(&self) -> bool {
        match self {
            Parser::Srt(p) => p.ended(),
            Parser::WebVTT(p) => p.ended(),
        }
    }

    /// All that the parser will hand out from now on.
    pub open spec fn parsed(&self) -> Parsed {
        if self.ended() {
            Parsed { cues: Seq::empty(), error: None }
        } else {
            parse_from(self.format(), self.rest(), self.count())
        }
    }

    /// A parser for the document `input`, read as `format`.
    pub fn new(input: &'a [u8], format: Format) -> (r: Result<Parser<'a>, Error>)
        ensures
            match parse_document(format, input@) {
                Err(error) => r matches Err(e) && e@ == error,
                Ok(parsed) => r matches Ok(p) && p.format() == format && p.parsed() == parsed,
            },
    {
        match format {
            Format::WebVTT => match WebVTTParser::new(input) {
                Ok(p) => Ok(Parser::WebVTT(p)),
                Err(e) => Err(e),
            },
            Format::Srt => match SrtParser::new(input) {
                Ok(p) => Ok(Parser::Srt(p)),
                Err(e) => Err(e),
            },
        }
    }

    /// The number of lines read so far.
    pub fn line_number(&self) -> (n: usize)
        ensures
            n == self.count(),
            self.count() + self.rest().len() <= usize::MAX,
    {
        match self {
            Parser::Srt(p) => p.line_number(),
            Parser::WebVTT(p) => p.line_number(),
        }
    }

    /// Hands out the next cue, or the error that ends the document's
    /// processing, or `None` at the end of the document.
    pub fn next(&mut self) -> (r: Option<Result<Cue, Error>>)
        ensures
            final(self).format() == old(self).format(),
            old(self).ended() ==> r is None && final(self).ended() && final(self).rest() == old(
                self,
            ).rest() && final(self).count() == old(self).count(),
            !old(self).ended() ==> {
                let step = step_of(old(self).format(), old(self).rest(), old(self).count());
                &&& item_view(r) == step.item
                &&& final(self).rest() == step.rest
                &&& final(self).count() == step.count
                &&& final(self).ended() == !(r matches Some(Ok(_)))
            },
    {
        reveal(step_of);
        match self {
            Parser::Srt(p) => p.next(),
            Parser::WebVTT(p) => p.next(),
        }
    }
}

/// The block that stands for the cue `c` in a document in `format`, where
/// it is the cue number `number`.
#[verifier::opaque]
pub open spec fn block_bytes(format: Format, number: nat, c: CueView) -> Seq<u8> {
    match format {
        Format::Srt => srt_block(number, c),
        Format::WebVTT => webvtt_block(c),
    }
}

/// A document with one cue more is the document, then the block of that
/// cue, which is numbered by its place.
pub proof fn lemma_document_push(format: Format, cues: Seq<CueView>, c: CueView)
    ensures
        document_bytes(format, cues.push(c)) == document_bytes(format, cues) + block_bytes(
            format,
            cues.len() + 1,
            c,
        ),
{
    reveal(document_bytes);
    reveal(block_bytes);
    assert(cues.push(c).drop_last() =~= cues);
    match format {
        Format::Srt => {},
        Format::WebVTT => {
            lemma_append_twice(webvtt_head(), webvtt_blocks(cues), webvtt_block(c));
        },
    }
}

/// Writes what opens a document in `format`.
fn write_head(w: &mut Vec<u8>, format: Format)
    ensures
        final(w)@ == old(w)@ + document_bytes(format, Seq::empty()),
{
    reveal(document_bytes);
    match format {
        Format::WebVTT => {
            crate::webvtt::write_head(w);
            assert(webvtt_head() + webvtt_blocks(Seq::empty()) =~= webvtt_head());
        },
        Format::Srt => {
            assert(w@ =~= old(w)@ + srt_document(Seq::empty()));
        },
    }
}

/// Writes the block of the cue `c`, which is the cue number `number` of its
/// document.
fn write_block(w: &mut Vec<u8>, format: Format, number: usize, c: &Cue)
    ensures
        final(w)@ == old(w)@ + block_bytes(format, number as nat, c@),
{
    reveal(block_bytes);
    match format {
        Format::WebVTT => crate::webvtt::write(w, c),
        Format::Srt => crate::srt::write(w, number, c),
    }
}

/// Applies the delta time to all the cues that `input` hands out and writes
/// them to `output_writer` as a document in `output_format`. The cues are
/// read, moved and written one by one: what was written before an error
/// stays written. Returns the number of cues written, or the first error.
pub fn convert_output(
    input: Parser<'_>,
    output_writer: &mut Vec<u8>,
    output_format: Format,
    delta: Delta,
) -> (r: Result<usize, Error>)
    ensures
        final(output_writer)@ == old(output_writer)@ + document_bytes(
            output_format,
            shift_all(delta@, input.parsed().cues).cues,
        ),
        outcome_view(r) == outcome(input.parsed(), shift_all(delta@, input.parsed().cues)),
{
    let mut parser = input;
    let ghost parsed = input.parsed();
    let ghost moved = shift_all(delta@, parsed.cues);
    let ghost start = output_writer@;
    let ghost mut done: Seq<CueView> = Seq::empty();
    let mut nb: usize = 0;
    let lines = parser.line_number();
    write_head(output_writer, output_format);
    loop
        invariant
            start == old(output_writer)@,
            parsed == input.parsed(),
            moved == shift_all(delta@, parsed.cues),
            nb == done.len(),
            nb + parser.rest().len() <= usize::MAX,
            output_writer@ == start + document_bytes(output_format, done),
            moved.cues == done + shift_all(delta@, parser.parsed().cues).cues,
            moved.error == shift_all(delta@, parser.parsed().cues).error,
            parsed.error == parser.parsed().error,
        decreases parser.rest().len(),
    {
        let ghost format = parser.format();
        let ghost rest = parser.rest();
        let ghost count = parser.count();
        let ghost ended = parser.ended();
        proof {
            lemma_parse_step(format, rest, count);
            lemma_shift_nothing(delta@);
        }
        let c = match parser.next() {
            None => {
                assert(moved.cues =~= done);
                return Ok(nb);
            },
            Some(Err(e)) => {
                assert(moved.cues =~= done);
                return Err(e);
            },
            Some(Ok(c)) => c,
        };
        let ghost tail = parser.parsed().cues;
        proof {
            lemma_shift_step(delta@, c@, tail);
        }
        let c = match shift_cue(&delta, c) {
            Ok(c) => c,
            Err(e) => {
                assert(moved.cues =~= done);
                return Err(e);
            },
        };
        write_block(output_writer, output_format, nb + 1, &c);
        proof {
            lemma_document_push(output_format, done, c@);
            lemma_append_twice(
                start,
                document_bytes(output_format, done),
                block_bytes(output_format, done.len() + 1, c@),
            );
            lemma_append_twice(done, seq![c@], shift_all(delta@, tail).cues);
            assert(done + seq![c@] =~= done.push(c@));
            done = done.push(c@);
        }
        nb += 1;
    }
}

/// Converts the cues of the document `input_reader`, read as
/// `input_format`: applies the delta time to each and writes them to
/// `output_writer` as a document in `output_format`. Returns the number of
/// cues written, or the first error; what was written before the error
/// stays written.
pub fn convert(
    input_reader: &[u8],
    input_format: Format,
    output_writer: &mut Vec<u8>,
    output_format: Format,
    delta: Delta,
) -> (r: Result<usize, Error>)
    ensures
        match parse_document(input_format, input_reader@) {
            Err(error) => r matches Err(e) && e@ == error && final(output_writer)@ == old(
                output_writer,
            )@,
            Ok(parsed) => final(output_writer)@ == old(output_writer)@ + document_bytes(
                output_format,
                shift_all(delta@, parsed.cues).cues,
            ) && outcome_view(r) == outcome(parsed, shift_all(delta@, parsed.cues)),
        },
{
    match Parser::new(input_reader, input_format) {
        Err(e) => Err(e),
        Ok(parser) => convert_output(parser, output_writer, output_format, delta),
    }
}

/// Converts a SubRip document to a WebVTT document, without moving the
/// cues in time.
pub fn srt2vtt(output: &mut Vec<u8>, input: &[u8]) -> (r: Result<(), Error>)
    ensures
        final(output)@ == old(output)@ + webvtt_document(parse_from(
            Format::Srt,
            document_lines(input@),
            0,
        ).cues),
        match parse_from(Format::Srt, document_lines(input@), 0).error {
            Some(error) => r matches Err(e) && e@ == error,
            None => r is Ok,
        },
{
    proof {
        reveal(document_bytes);
        lemma_shift_zero(parse_from(Format::Srt, document_lines(input@), 0).cues);
    }
    match convert(input, Format::Srt, output, Format::WebVTT, Delta::Zero) {
        Ok(_) => Ok(()),
        Err(e) => Err(e),
    }
}

} // verus!
