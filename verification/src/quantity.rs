//! The quantity parser: turns a textual quantity such as `10`, `+10`, `-0`
//! into a directive saying which part of a stream to emit.

use crate::digits::{digit_run_ok, digits_val, parse_digit_run};
use vstd::prelude::*;
use vstd::string::StrSliceExecFns;

verus! {

/// What a quantity asks for: the whole stream, or a suffix computed from a
/// signed offset.  A positive offset is an absolute (1-based) start
/// position; a negative offset counts from the end.
#[derive(Debug, Clone, Copy, PartialEq, Eq, Structural)]
pub enum Action {
    Everything,
    From(i64),
}

/// The one fatal error class: a quantity text that is not a valid signed
/// count.
#[derive(Debug, Clone, Copy, PartialEq, Eq, Structural)]
pub enum QuantityError {
    InvalidQuantity,
}

/// The directive a quantity text denotes, or `None` when the text (after an
/// optional leading sign) is not a run of decimal digits with a value
/// representable as an `i64`.  A zero quantity always normalizes to
/// `Everything`; an unsigned quantity counts from the end.
pub open spec fn quantity_directive(q: Seq<char>) -> Option<Action> {
    if q.len() > 0 && q[0] == '+' {
        let t = q.skip(1);
        if digit_run_ok(t, i64::MAX as int) {
            if digits_val(t) == 0 {
                Some(Action::Everything)
            } else {
                Some(Action::From(digits_val(t) as i64))
            }
        } else {
            None
        }
    } else if q.len() > 0 && q[0] == '-' {
        let t = q.skip(1);
        if digit_run_ok(t, i64::MAX as int) {
            if digits_val(t) == 0 {
                Some(Action::Everything)
            } else {
                Some(Action::From((0 - digits_val(t)) as i64))
            }
        } else {
            None
        }
    } else {
        if digit_run_ok(q, i64::MAX as int) {
            if digits_val(q) == 0 {
                Some(Action::Everything)
            } else {
                Some(Action::From((0 - digits_val(q)) as i64))
            }
        } else {
            None
        }
    }
}

/// Parses a quantity text into its directive; fails with `InvalidQuantity`
/// exactly when the text denotes no directive.
pub fn parse_quantity(qty: String) -> (r: Result<Action, QuantityError>)
    ensures
        match r {
            Ok(a) => quantity_directive(qty@) == Some(a),
            Err(e) => quantity_directive(qty@) is None && e == QuantityError::InvalidQuantity,
        },
{
    let s = qty.as_str();
    let n = s.unicode_len();
    if n == 0 {
        return Err(QuantityError::InvalidQuantity);
    }
    let c0 = s.get_char(0);
    let signed = c0 == '+' || c0 == '-';
    let start: usize = if signed { 1 } else { 0 };
    proof {
        if signed {
            assert(s@.subrange(1, n as int) =~= qty@.skip(1));
        } else {
            assert(s@.subrange(0, n as int) =~= qty@);
        }
    }
    match parse_digit_run(s, start, n, i64::MAX as u64) {
        None => Err(QuantityError::InvalidQuantity),
        Some(v) => {
            if v == 0 {
                Ok(Action::Everything)
            } else if c0 == '+' {
                Ok(Action::From(v as i64))
            } else {
                Ok(Action::From(-(v as i64)))
            }
        },
    }
}

} // verus!
