//! A shift in time that is applied to the cues of a document.

use crate::cue::{Cue, CueView};
use crate::duration::{max_nanos, Duration};
use crate::error::{Error, ErrorView};
use vstd::prelude::*;

verus! {

/// A delta duration to apply on a cue's time code.
#[derive(Clone, Copy, Debug, PartialEq)]
pub enum Delta {
    Add(Duration),
    Sub(Duration),
    /// No shift at all.
    Zero,
}

/// The mathematical content of a [`Delta`]: the shift in nanoseconds.
pub enum DeltaView {
    Add(nat),
    Sub(nat),
    Zero,
}

impl View for Delta {
    type V = DeltaView;

    open spec fn view(&self) -> DeltaView {
        match *self {
            Delta::Add(d) => DeltaView::Add(d@),
            Delta::Sub(d) => DeltaView::Sub(d@),
            Delta::Zero => DeltaView::Zero,
        }
    }
}

impl DeltaView {
    /// The time `t` moved by the delta. A time cannot be moved before zero,
    /// nor past the longest duration.
    pub open spec fn shift(self, t: nat) -> Result<nat, ErrorView> {
        match self {
            DeltaView::Add(d) => if t + d <= max_nanos() {
                Ok(t + d)
            } else {
                Err(ErrorView::Overflow)
            },
            DeltaView::Sub(d) => if t >= d {
                Ok((t - d) as nat)
            } else {
                Err(ErrorView::Underflow)
            },
            DeltaView::Zero => Ok(t),
        }
    }

    /// The cue `c` with its begin and its end moved by the delta.
    pub open spec fn apply(self, c: CueView) -> Result<CueView, ErrorView> {
        match (self.shift(c.begin), self.shift(c.end)) {
            (Ok(begin), Ok(end)) => Ok(CueView { begin, end, ..c }),
            (Err(e), _) => Err(e),
            (_, Err(e)) => Err(e),
        }
    }
}

/// Taking away what was added gives the cue back.
pub proof fn lemma_add_then_sub(d: nat, c: CueView)
    ensures
        DeltaView::Add(d).apply(c) matches Ok(moved) ==> DeltaView::Sub(d).apply(moved) == Ok::<
            CueView,
            ErrorView,
        >(c),
{
}

/// The delta `Zero` leaves a cue as it is.
pub proof fn lemma_zero_is_identity(c: CueView)
    ensures
        DeltaView::Zero.apply(c) == Ok::<CueView, ErrorView>(c),
{
}

/// A moved cue still does not end before it begins.
pub proof fn lemma_apply_keeps_order(delta: DeltaView, c: CueView)
    requires
        c.wf(),
    ensures
        delta.apply(c) matches Ok(moved) ==> moved.wf(),
{
}

/// Applies `delta` to the cue `c`.
pub fn shift_cue(delta: &Delta, c: Cue) -> (r: Result<Cue, Error>)
    ensures
        match delta@.apply(c@) {
            Ok(moved) => r matches Ok(m) && m@ == moved && m.id == c.id && m.text == c.text,
            Err(error) => r matches Err(e) && e@ == error,
        },
{
    let mut c = c;
    match delta.apply(&mut c) {
        Ok(()) => Ok(c),
        Err(e) => Err(e),
    }
}

impl Delta {
    /// Apply the delta time to the cue. Where the cue cannot be moved, it
    /// is left as it was.
    pub fn apply(&self, c: &mut Cue) -> (r: Result<(), Error>)
        ensures
            final(c).id == old(c).id,
            final(c).text == old(c).text,
            old(c).wf() ==> final(c).wf(),
            match self@.apply(old(c)@) {
                Ok(moved) => r is Ok && final(c)@ == moved,
                Err(error) => r matches Err(e) && e@ == error && *final(c) == *old(c),
            },
    {
        match self {
            Delta::Add(d) => {
                let begin = c.begin.checked_add(d);
                let end = c.end.checked_add(d);
                match (begin, end) {
                    (Some(b), Some(e)) => {
                        c.begin = b;
                        c.end = e;
                        Ok(())
                    },
                    _ => Err(Error::Overflow),
                }
            },
            Delta::Sub(d) => {
                let begin = c.begin.checked_sub(d);
                let end = c.end.checked_sub(d);
                match (begin, end) {
                    (Some(b), Some(e)) => {
                        c.begin = b;
                        c.end = e;
                        Ok(())
                    },
                    _ => Err(Error::Underflow),
                }
            },
            Delta::Zero => Ok(()),
        }
    }

    /// A closure to apply the delta time on a cue.
    pub fn applicator(&self) -> (f: impl Fn(Cue) -> Result<Cue, Error>)
        ensures
            forall|c: Cue| f.requires((c,)),
            forall|c: Cue, r: Result<Cue, Error>|
                f.ensures((c,), r) ==> match self@.apply(c@) {
                    Ok(moved) => r matches Ok(m) && m@ == moved && m.id == c.id && m.text
                        == c.text,
                    Err(error) => r matches Err(e) && e@ == error,
                },
    {
        let delta: Delta = *self;
        move |c: Cue| -> (r: Result<Cue, Error>)
            ensures
                match delta@.apply(c@) {
                    Ok(moved) => r matches Ok(m) && m@ == moved && m.id == c.id && m.text
                        == c.text,
                    Err(error) => r matches Err(e) && e@ == error,
                },
            { shift_cue(&delta, c) }
    }
}

} // verus!
