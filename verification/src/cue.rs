//! One timed subtitle entry.

use crate::duration::Duration;
use crate::text::push_str;
use vstd::prelude::*;
use vstd::utf8::encode_utf8;

verus! {

/// One cue: an optional identifier, the span of time during which it is
/// shown, and its lines of text.
#[derive(Clone, Debug, PartialEq)]
pub struct Cue {
    pub id: Option<String>,
    pub begin: Duration,
    pub end: Duration,
    pub text: Vec<String>,
}

/// The mathematical content of a [`Cue`]: times in nanoseconds, text as
/// sequences of characters.
pub struct CueView {
    pub id: Option<Seq<char>>,
    pub begin: nat,
    pub end: nat,
    pub text: Seq<Seq<char>>,
}

/// The character sequences of a list of strings.
pub open spec fn text_view(text: Seq<String>) -> Seq<Seq<char>> {
    Seq::new(text.len(), |i: int| text[i]@)
}

/// The characters of an identifier, where there is one.
pub open spec fn id_view(id: Option<String>) -> Option<Seq<char>> {
    match id {
        Some(s) => Some(s@),
        None => None,
    }
}

impl View for Cue {
    type V = CueView;

    open spec fn view(&self) -> CueView {
        CueView {
            id: id_view(self.id),
            begin: self.begin@,
            end: self.end@,
            text: text_view(self.text@),
        }
    }
}

impl CueView {
    /// A cue does not end before it begins.
    pub open spec fn wf(self) -> bool {
        self.begin <= self.end
    }

    /// The cue that is shown between the times `a` and `b`, whichever of the
    /// two comes first.
    pub open spec fn spanning(
        id: Option<Seq<char>>,
        a: nat,
        b: nat,
        text: Seq<Seq<char>>,
    ) -> CueView {
        CueView {
            id,
            begin: if a > b { b } else { a },
            end: if a > b { a } else { b },
            text,
        }
    }
}

impl Cue {
    /// A cue does not end before it begins.
    pub open spec fn wf(&self) -> bool {
        self@.wf()
    }

    /// Creates a cue. Where `begin` is later than `end`, the two are
    /// exchanged.
    pub fn new(id: Option<String>, begin: Duration, end: Duration, t: Vec<String>) -> (c: Cue)
        ensures
            c.id == id,
            c.text == t,
            c.begin == (if begin@ > end@ { end } else { begin }),
            c.end == (if begin@ > end@ { begin } else { end }),
            c.wf(),
            c@ == CueView::spanning(id_view(id), begin@, end@, text_view(t@)),
    {
        if begin.gt(&end) {
            Cue { id, begin: end, end: begin, text: t }
        } else {
            Cue { id, begin, end, text: t }
        }
    }
}

/// The views of a list of cues.
pub open spec fn cue_views(cues: Seq<Cue>) -> Seq<CueView> {
    Seq::new(cues.len(), |i: int| cues[i]@)
}

/// The bytes of the text of a cue: each line in UTF-8, with a line feed
/// behind it.
pub open spec fn text_bytes(text: Seq<Seq<char>>) -> Seq<u8>
    decreases text.len(),
{
    if text.len() == 0 {
        Seq::empty()
    } else {
        text_bytes(text.drop_last()) + encode_utf8(text.last()) + encode_utf8("\n"@)
    }
}

/// Writes the lines of text of a cue, each with a line feed behind it.
pub fn write_text(w: &mut Vec<u8>, text: &Vec<String>)
    ensures
        final(w)@ == old(w)@ + text_bytes(text_view(text@)),
{
    let ghost lines = text_view(text@);
    let mut i: usize = 0;
    while i < text.len()
        invariant
            i <= text.len(),
            lines == text_view(text@),
            w@ == old(w)@ + text_bytes(lines.take(i as int)),
        decreases text.len() - i,
    {
        let ghost before = w@;
        push_str(w, text[i].as_str());
        push_str(w, "\n");
        proof {
            assert(lines.take(i + 1).drop_last() =~= lines.take(i as int));
            assert(lines.take(i + 1).last() == text@[i as int]@);
            assert(w@ =~= old(w)@ + text_bytes(lines.take(i + 1)));
        }
        i += 1;
    }
    proof {
        assert(lines.take(text.len() as int) =~= lines);
    }
}

} // verus!
