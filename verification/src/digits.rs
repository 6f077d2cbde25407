//! Decimal digit strings: their numeric value, and rendering numbers back
//! into digit strings.  Shared by the quantity parser, the position-list
//! parser and the calendar helpers.

use vstd::prelude::*;
use vstd::string::{StrSliceExecFns, StringExecFns};

verus! {

/// `c` is one of the ten ASCII decimal digits.
pub open spec fn is_digit(c: char) -> bool {
    '0' <= c && c <= '9'
}

/// Every character of `s` is a decimal digit.
pub open spec fn all_digits(s: Seq<char>) -> bool {
    forall|i: int| 0 <= i < s.len() ==> is_digit(#[trigger] s[i])
}

/// Numeric value of a digit character.
pub open spec fn digit_val(c: char) -> int {
    c as int - 48
}

/// Numeric value of a digit string, most significant digit first.
/// Only meaningful when `all_digits(s)` holds.
pub open spec fn digits_val(s: Seq<char>) -> int
    decreases s.len(),
{
    if s.len() == 0 {
        0
    } else {
        digits_val(s.drop_last()) * 10 + digit_val(s.last())
    }
}

/// The digit character with value `d` (for `0 <= d <= 9`).
pub open spec fn digit_char(d: int) -> char {
    (48 + d) as char
}

/// Decimal rendering of `n`, most significant digit first, no leading zeros
/// (except for `n == 0`, rendered as `"0"`).
pub open spec fn dec_chars(n: nat) -> Seq<char>
    decreases n,
{
    if n < 10 {
        seq![digit_char(n as int)]
    } else {
        dec_chars(n / 10) + seq![digit_char((n % 10) as int)]
    }
}

/// A digit string has a non-negative value.
pub proof fn lemma_digits_val_nonneg(s: Seq<char>)
    requires
        all_digits(s),
    ensures
        digits_val(s) >= 0,
    decreases s.len(),
{
    if s.len() > 0 {
        assert(all_digits(s.drop_last())) by {
            assert(forall|i: int|
                0 <= i < s.drop_last().len() ==> s.drop_last()[i] == #[trigger] s[i]);
        }
        lemma_digits_val_nonneg(s.drop_last());
    }
}

/// Extending a digit string with further digits never lowers its value.
pub proof fn lemma_digits_val_prefix_le(s: Seq<char>, j: int)
    requires
        all_digits(s),
        0 <= j <= s.len(),
    ensures
        digits_val(s.take(j)) <= digits_val(s),
    decreases s.len(),
{
    if j == s.len() {
        assert(s.take(j) =~= s);
    } else {
        assert(all_digits(s.drop_last())) by {
            assert(forall|i: int|
                0 <= i < s.drop_last().len() ==> s.drop_last()[i] == #[trigger] s[i]);
        }
        assert(s.drop_last().take(j) =~= s.take(j));
        lemma_digits_val_prefix_le(s.drop_last(), j);
        lemma_digits_val_nonneg(s.drop_last());
    }
}

/// The digit character for `d`, as a string slice.
pub fn digit_str(d: u64) -> (r: &'static str)
    requires
        d < 10,
    ensures
        r@ =~= seq![digit_char(d as int)],
{
    proof {
        reveal_strlit("0");
        reveal_strlit("1");
        reveal_strlit("2");
        reveal_strlit("3");
        reveal_strlit("4");
        reveal_strlit("5");
        reveal_strlit("6");
        reveal_strlit("7");
        reveal_strlit("8");
        reveal_strlit("9");
    }
    match d {
        0 => "0",
        1 => "1",
        2 => "2",
        3 => "3",
        4 => "4",
        5 => "5",
        6 => "6",
        7 => "7",
        8 => "8",
        _ => "9",
    }
}

/// `t` is a non-empty run of decimal digits whose value is at most `limit`.
pub open spec fn digit_run_ok(t: Seq<char>, limit: int) -> bool {
    t.len() > 0 && all_digits(t) && digits_val(t) <= limit
}

/// Parses the character range `start..end` of `s` as a run of decimal
/// digits, most significant first.  Yields the value exactly when the run is
/// non-empty, consists of digits only, and its value does not exceed `limit`.
pub fn parse_digit_run(s: &str, start: usize, end: usize, limit: u64) -> (r: Option<u64>)
    requires
        start <= end <= s@.len(),
        9 <= limit,
    ensures
        match r {
            Some(v) => {
                &&& digit_run_ok(s@.subrange(start as int, end as int), limit as int)
                &&& v == digits_val(s@.subrange(start as int, end as int))
            },
            None => !digit_run_ok(s@.subrange(start as int, end as int), limit as int),
        },
{
    let ghost t = s@.subrange(start as int, end as int);
    if start == end {
        return None;
    }
    let mut i: usize = start;
    let mut val: u64 = 0;
    while i < end
        invariant
            start <= i <= end <= s@.len(),
            9 <= limit,
            t == s@.subrange(start as int, end as int),
            all_digits(t.take(i - start)),
            val == digits_val(t.take(i - start)),
            val <= limit,
        decreases end - i,
    {
        let c = s.get_char(i);
        proof {
            assert(t[i - start] == s@[i as int]);
        }
        if c < '0' || c > '9' {
            assert(!is_digit(t[i - start]));
            return None;
        }
        let d: u64 = (c as u32 - 48) as u64;
        proof {
            assert(t.take(i - start + 1).drop_last() =~= t.take(i - start));
            assert(t.take(i - start + 1).last() == t[i - start]);
            assert(digits_val(t.take(i - start + 1)) == val * 10 + d);
        }
        if val > (limit - d) / 10 {
            proof {
                assert(10 * ((limit - d) / 10) <= limit - d);
                assert(val * 10 + d > limit);
                if all_digits(t) {
                    lemma_digits_val_prefix_le(t, i - start + 1);
                }
            }
            return None;
        }
        proof {
            assert(10 * ((limit - d) / 10) + (limit - d) % 10 == limit - d);
            assert(val * 10 + d <= limit);
        }
        val = val * 10 + d;
        i = i + 1;
    }
    proof {
        assert(t.take(end - start) =~= t);
    }
    Some(val)
}

/// Renders `n` in decimal.
pub fn u64_dec_string(n: u64) -> (s: String)
    ensures
        s@ == dec_chars(n as nat),
    decreases n,
{
    if n < 10 {
        String::from_str(digit_str(n))
    } else {
        let mut s = u64_dec_string(n / 10);
        s.append(digit_str(n % 10));
        s
    }
}

} // verus!
