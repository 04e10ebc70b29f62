//! What the two parsers have in common: the outcome of one step, and the
//! block of text lines that ends a cue.

use crate::cue::{text_view, Cue, CueView};
use crate::error::{Error, ErrorView};
use crate::lines::{Line, LineNb};
use vstd::prelude::*;

verus! {

/// The outcome of asking a parser for its next cue: the cue or the error it
/// hands out (`None` at the end of the document), the lines that are left,
/// and the number of lines read so far.
pub struct Step {
    pub item: Option<Result<CueView, ErrorView>>,
    pub rest: Seq<Line>,
    pub count: nat,
}

impl Step {
    /// The document has come to its end.
    pub open spec fn end(rest: Seq<Line>, count: nat) -> Step {
        Step { item: None, rest, count }
    }

    /// The parser fails with `error`.
    pub open spec fn fail(error: ErrorView, rest: Seq<Line>, count: nat) -> Step {
        Step { item: Some(Err(error)), rest, count }
    }

    /// The parser hands out `cue`.
    pub open spec fn cue(cue: CueView, rest: Seq<Line>, count: nat) -> Step {
        Step { item: Some(Ok(cue)), rest, count }
    }
}

/// The view of what a parser hands out.
pub open spec fn item_view(item: Option<Result<Cue, Error>>) -> Option<Result<CueView, ErrorView>> {
    match item {
        None => None,
        Some(Ok(c)) => Some(Ok(c@)),
        Some(Err(e)) => Some(Err(e@)),
    }
}

/// The outcome of reading the text of a cue: its lines, whether a line could
/// not be read, the lines that are left, and the number of lines read so far.
pub struct TextBlock {
    pub text: Seq<Seq<char>>,
    pub failed: bool,
    pub rest: Seq<Line>,
    pub count: nat,
}

/// The text of a cue: the lines up to the first empty line, which is used up
/// too, or up to the end of the document. A line that cannot be read makes
/// the block fail.
pub open spec fn text_block(rest: Seq<Line>, count: nat) -> TextBlock
    decreases rest.len(),
{
    if rest.len() == 0 {
        TextBlock { text: Seq::empty(), failed: false, rest, count }
    } else {
        match rest[0] {
            None => TextBlock { text: Seq::empty(), failed: true, rest: rest.drop_first(), count },
            Some(l) => if l.len() == 0 {
                TextBlock {
                    text: Seq::empty(),
                    failed: false,
                    rest: rest.drop_first(),
                    count: count + 1,
                }
            } else {
                let block = text_block(rest.drop_first(), count + 1);
                TextBlock { text: seq![l] + block.text, ..block }
            },
        }
    }
}

/// A block of text uses up lines, and counts those it read.
pub proof fn lemma_text_block_progress(rest: Seq<Line>, count: nat)
    ensures
        text_block(rest, count).rest.len() <= rest.len(),
        text_block(rest, count).count >= count,
    decreases rest.len(),
{
    if rest.len() > 0 {
        match rest[0] {
            None => {},
            Some(l) => {
                if l.len() > 0 {
                    lemma_text_block_progress(rest.drop_first(), count + 1);
                }
            },
        }
    }
}

/// Reads the text of a cue.
pub fn read_text(lines: &mut LineNb) -> (r: Result<Vec<String>, Error>)
    ensures
        final(lines).rest() == text_block(old(lines).rest(), old(lines).count()).rest,
        final(lines).count() == text_block(old(lines).rest(), old(lines).count()).count,
        match r {
            Ok(t) => !text_block(old(lines).rest(), old(lines).count()).failed && text_view(t@)
                == text_block(old(lines).rest(), old(lines).count()).text,
            Err(e) => text_block(old(lines).rest(), old(lines).count()).failed && e@ == (
            ErrorView::Io { line: final(lines).count() }),
        },
{
    let ghost whole = text_block(lines.rest(), lines.count());
    let mut text: Vec<String> = Vec::new();
    loop
        invariant
            whole == text_block(old(lines).rest(), old(lines).count()),
            whole.text == text_view(text@) + text_block(lines.rest(), lines.count()).text,
            whole.failed == text_block(lines.rest(), lines.count()).failed,
            whole.rest == text_block(lines.rest(), lines.count()).rest,
            whole.count == text_block(lines.rest(), lines.count()).count,
        decreases lines.rest().len(),
    {
        let ghost before = text_view(text@);
        match lines.next() {
            None => {
                assert(whole.text =~= text_view(text@));
                return Ok(text);
            },
            Some(Err(e)) => {
                return Err(e);
            },
            Some(Ok(l)) => {
                if l.as_str().is_empty() {
                    assert(whole.text =~= text_view(text@));
                    return Ok(text);
                }
                text.push(l);
                proof {
                    assert(text_view(text@) =~= before.push(l@));
                    assert(before.push(l@) + text_block(lines.rest(), lines.count()).text
                        =~= before + (seq![l@] + text_block(lines.rest(), lines.count()).text));
                }
            },
        }
    }
}

} // verus!
