//! The text form of a delta, as it is given on a command line.

use crate::delta::{Delta, DeltaView};
use crate::duration::{max_nanos, Duration};
use crate::text::{
    all_digits, decimal_u64, decimal_value, digit_value, find_char, is_all_digits, is_digit,
    parse_decimal, position, to_chars,
};
use std::str::FromStr;
use vstd::prelude::*;
use vstd::slice::slice_subrange;

verus! {

/// Why a text stands for no delta.
#[derive(Clone, Copy, Debug, PartialEq, Eq)]
pub enum DeltaSyntax {
    /// The text begins with neither `+` nor `-`.
    MissingSign,
    /// What stands before the colon is no decimal number.
    Minutes,
    /// The seconds are not digits, with or without a dot among them.
    Seconds,
    /// The delta is longer than the longest duration.
    TooLarge,
}

/// The nanoseconds that the digits of `f` from the index `from` on stand
/// for, where the first of them counts `unit` nanoseconds and each further
/// one a tenth of the one before it. Digits that count less than a
/// nanosecond are dropped.
pub open spec fn fraction_nanos(f: Seq<char>, from: int, unit: nat) -> nat
    decreases f.len() - from,
{
    if from < 0 || from >= f.len() || unit == 0 {
        0
    } else {
        digit_value(f[from]) * unit + fraction_nanos(f, from + 1, unit / 10)
    }
}

/// The nanoseconds that the seconds `s` of a delta stand for: digits, with
/// or without one dot among them, and one digit at the least.
pub open spec fn seconds_nanos(s: Seq<char>) -> Result<nat, DeltaSyntax> {
    let dot = position(s, '.');
    let whole = s.take(dot);
    let fraction = if dot < s.len() { s.skip(dot + 1) } else { Seq::empty() };
    if !all_digits(whole) || !all_digits(fraction) || whole.len() + fraction.len() == 0 {
        Err(DeltaSyntax::Seconds)
    } else {
        Ok(decimal_value(whole) * 1_000_000_000 + fraction_nanos(fraction, 0, 100_000_000))
    }
}

/// The delta that the text `s` stands for. The empty text and `0` stand for
/// no shift. Any other text begins with its sign, `+` or `-`; then come the
/// minutes and a colon, which may both be left out; then the seconds.
pub open spec fn delta_of(s: Seq<char>) -> Result<DeltaView, DeltaSyntax> {
    if s.len() == 0 || s == seq!['0'] {
        Ok(DeltaView::Zero)
    } else if s[0] != '+' && s[0] != '-' {
        Err(DeltaSyntax::MissingSign)
    } else {
        let body = s.skip(1);
        let colon = position(body, ':');
        let minutes = if colon < body.len() { decimal_u64(body.take(colon)) } else { Some(0u64) };
        let seconds = seconds_nanos(if colon < body.len() { body.skip(colon + 1) } else { body });
        match (minutes, seconds) {
            (None, _) => Err(DeltaSyntax::Minutes),
            (_, Err(e)) => Err(e),
            (Some(m), Ok(nanos)) => {
                let total = m as nat * 60_000_000_000 + nanos;
                if total > max_nanos() {
                    Err(DeltaSyntax::TooLarge)
                } else if s[0] == '+' {
                    Ok(DeltaView::Add(total))
                } else {
                    Ok(DeltaView::Sub(total))
                }
            },
        }
    }
}

/// The digits behind the dot stand for less than a second.
pub proof fn lemma_fraction_bound(f: Seq<char>, from: int, unit: nat)
    requires
        all_digits(f),
        0 <= from,
    ensures
        unit == 0 ==> fraction_nanos(f, from, unit) == 0,
        unit > 0 ==> fraction_nanos(f, from, unit) <= 10 * unit - 1,
    decreases f.len() - from,
{
    if from < f.len() && unit > 0 {
        lemma_fraction_bound(f, from + 1, unit / 10);
        let d = digit_value(f[from]);
        assert(is_digit(f[from]));
        assert(d * unit <= 9 * unit) by (nonlinear_arith)
            requires
                d <= 9,
        ;
    }
}

/// Reads the digits behind the dot of the seconds.
fn parse_fraction(f: &[char]) -> (nanos: u32)
    requires
        all_digits(f@),
    ensures
        nanos == fraction_nanos(f@, 0, 100_000_000),
        nanos < 1_000_000_000,
{
    let mut nanos: u32 = 0;
    let mut unit: u32 = 100_000_000;
    let mut i: usize = 0;
    while i < f.len() && unit > 0
        invariant
            i <= f.len(),
            all_digits(f@),
            nanos + 10 * unit <= 1_000_000_000,
            unit == 0 ==> nanos < 1_000_000_000,
            fraction_nanos(f@, 0, 100_000_000) == nanos + fraction_nanos(f@, i as int, unit as nat),
        decreases f.len() - i,
    {
        let c = f[i];
        assert(is_digit(c));
        let d: u32 = c as u32 - '0' as u32;
        assert(d * unit <= 9 * unit) by (nonlinear_arith)
            requires
                d <= 9,
        ;
        nanos = nanos + d * unit;
        unit = unit / 10;
        i += 1;
    }
    nanos
}

/// Reads the seconds of a delta: whole seconds and nanoseconds.
fn parse_seconds(s: &[char]) -> (r: Result<(Option<u64>, u32), DeltaSyntax>)
    ensures
        match seconds_nanos(s@) {
            Err(e) => r == Err::<(Option<u64>, u32), DeltaSyntax>(e),
            Ok(total) => r matches Ok((whole, nanos)) && nanos < 1_000_000_000 && match whole {
                Some(w) => total == w * 1_000_000_000 + nanos,
                None => total > max_nanos(),
            },
        },
{
    let n = s.len();
    let dot = find_char(s, '.', 0);
    let whole = slice_subrange(s, 0, dot);
    let fraction = if dot < n { slice_subrange(s, dot + 1, n) } else { slice_subrange(s, n, n) };
    proof {
        assert(whole@ =~= s@.take(dot as int));
        if dot < n {
            assert(fraction@ =~= s@.skip(dot + 1));
        } else {
            assert(fraction@ =~= Seq::<char>::empty());
        }
    }
    if !is_all_digits(whole) || !is_all_digits(fraction) || (whole.len() == 0 && fraction.len()
        == 0) {
        return Err(DeltaSyntax::Seconds);
    }
    let nanos = parse_fraction(fraction);
    if whole.len() == 0 {
        assert(decimal_value(whole@) == 0);
        return Ok((Some(0), nanos));
    }
    Ok((parse_decimal(whole), nanos))
}

impl FromStr for Delta {
    type Err = DeltaSyntax;

    /// Reads a delta: `+SS`, `-MM:SS.mmm` and the like; the empty text and
    /// `0` stand for no shift.
    fn from_str(s: &str) -> (r: Result<Delta, DeltaSyntax>)
        ensures
            match delta_of(s@) {
                Ok(delta) => r matches Ok(d) && d@ == delta,
                Err(e) => r == Err::<Delta, DeltaSyntax>(e),
            },
    {
        let chars = to_chars(s);
        let s = chars.as_slice();
        let n = s.len();
        if n == 0 {
            return Ok(Delta::Zero);
        }
        if n == 1 && s[0] == '0' {
            assert(s@ =~= seq!['0']);
            return Ok(Delta::Zero);
        }
        assert(s@ != seq!['0']) by {
            if s@ == seq!['0'] {
                assert(s@.len() == 1 && s@[0] == '0');
            }
        }
        let sign = s[0];
        if sign != '+' && sign != '-' {
            return Err(DeltaSyntax::MissingSign);
        }
        let body = slice_subrange(s, 1, n);
        let colon = find_char(body, ':', 0);
        proof {
            assert(body@ =~= s@.skip(1));
            assert(body@.subrange(0, colon as int) =~= body@.take(colon as int));
            if colon < body.len() {
                assert(body@.subrange(colon + 1, body@.len() as int) =~= body@.skip(colon + 1));
            }
        }
        let minutes: Option<u64> = if colon < body.len() {
            parse_decimal(slice_subrange(body, 0, colon))
        } else {
            Some(0)
        };
        let seconds = if colon < body.len() {
            parse_seconds(slice_subrange(body, colon + 1, body.len()))
        } else {
            parse_seconds(body)
        };
        let m = match minutes {
            Some(m) => m,
            None => { return Err(DeltaSyntax::Minutes); },
        };
        let (whole, nanos) = match seconds {
            Ok(found) => found,
            Err(e) => { return Err(e); },
        };
        let w = match whole {
            Some(w) => w,
            None => { return Err(DeltaSyntax::TooLarge); },
        };
        let secs = match m.checked_mul(60) {
            Some(v) => v.checked_add(w),
            None => None,
        };
        match secs {
            None => Err(DeltaSyntax::TooLarge),
            Some(secs) => {
                let d = Duration::new(secs, nanos);
                if sign == '+' {
                    Ok(Delta::Add(d))
                } else {
                    Ok(Delta::Sub(d))
                }
            },
        }
    }
}

} // verus!
