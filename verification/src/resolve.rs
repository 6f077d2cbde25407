//! The offset resolver: combines a signed directive with a stream's total
//! count (of lines or bytes) into a concrete decision, with the asymmetric
//! clamp behaviour of conventional tail semantics: a tail request longer
//! than the stream is clamped to the start, while an absolute start past
//! the end yields no output at all.

use crate::quantity::Action;
use vstd::prelude::*;

verus! {

/// What the resolver decides for one source and one unit.
#[derive(Debug, Clone, Copy, PartialEq, Eq, Structural)]
pub enum Resolution {
    /// Emit the stream unmodified; no counting pass is needed.
    All,
    /// Emit nothing at all.
    Nothing,
    /// Discard this many leading units (lines or bytes), then emit the rest.
    Skip(usize),
}

/// The decision for a directive against a total of `total` units.
pub open spec fn resolution_of(d: Action, total: nat) -> Resolution
    recommends
        total <= usize::MAX,
{
    match d {
        Action::Everything => Resolution::All,
        Action::From(c) => if c == 0 {
            Resolution::Nothing
        } else if c < 0 {
            if total + c >= 0 {
                Resolution::Skip((total + c) as usize)
            } else {
                Resolution::Skip(0)
            }
        } else {
            if c > total {
                Resolution::Nothing
            } else {
                Resolution::Skip((c - 1) as usize)
            }
        },
    }
}

/// Resolves a directive against a total count.  A pure function: no
/// input is read here.
///
/// For a negative count the skip index is `max(0, total + c)`; for a
/// positive count an absolute start beyond the end means nothing is
/// printed, and otherwise the skip index is `c - 1`.
pub fn resolve(directive: Action, total: usize) -> (r: Resolution)
    ensures
        r == resolution_of(directive, total as nat),
        directive is Everything ==> r == Resolution::All,
        directive matches Action::From(c) ==> {
            &&& c == 0 ==> r == Resolution::Nothing
            &&& c < 0 ==> r == (if total + c >= 0 {
                Resolution::Skip((total + c) as usize)
            } else {
                Resolution::Skip(0)
            })
            &&& c > 0 ==> r == (if c > total {
                Resolution::Nothing
            } else {
                Resolution::Skip((c - 1) as usize)
            })
        },
{
    match directive {
        Action::Everything => Resolution::All,
        Action::From(c) => {
            if c == 0 {
                Resolution::Nothing
            } else if c < 0 {
                let magnitude: u64 = ((-1 - c) as u64) + 1;
                if total as u64 >= magnitude {
                    Resolution::Skip((total as u64 - magnitude) as usize)
                } else {
                    Resolution::Skip(0)
                }
            } else {
                if c as u64 > total as u64 {
                    Resolution::Nothing
                } else {
                    Resolution::Skip((c - 1) as usize)
                }
            }
        },
    }
}

} // verus!
