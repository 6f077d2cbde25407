//! The position-list parser: turns a list such as `1,7,3-5` into half-open
//! 0-based index ranges, rejecting zero positions, leading `+` signs,
//! non-numeric entries and ranges whose first number is not lower than the
//! second.

use crate::digits::{dec_chars, digit_run_ok, digits_val, parse_digit_run, u64_dec_string};
use core::ops::Range;
use vstd::prelude::*;
use vstd::string::{StrSliceExecFns, StringExecFns};

verus! {

/// Mathematical view of a position-list error.
pub enum ListErrorView {
    IllegalValue(Seq<char>),
    BadOrder(int, int),
}

/// An error of the position-list parser: an entry that is not a legal list
/// value (carrying the offending text), or a range out of order.
#[derive(Debug)]
pub enum ListError {
    IllegalValue(String),
    BadOrder(usize, usize),
}

impl View for ListError {
    type V = ListErrorView;

    open spec fn view(&self) -> ListErrorView {
        match self {
            ListError::IllegalValue(t) => ListErrorView::IllegalValue(t@),
            ListError::BadOrder(a, b) => ListErrorView::BadOrder(*a as int, *b as int),
        }
    }
}

/// The diagnostic text of a position-list error.
pub open spec fn message_of(e: ListErrorView) -> Seq<char> {
    match e {
        ListErrorView::IllegalValue(t) => "illegal list value: \""@ + t + "\""@,
        ListErrorView::BadOrder(a, b) => "First number in range ("@ + dec_chars(a as nat)
            + ") must be lower than second number ("@ + dec_chars(b as nat) + ")"@,
    }
}

impl ListError {
    /// Renders the diagnostic text for this error.
    pub fn message(&self) -> (m: String)
        ensures
            m@ == message_of(self@),
    {
        match self {
            ListError::IllegalValue(t) => {
                let mut m = String::from_str("illegal list value: \"");
                m.append(t.as_str());
                m.append("\"");
                m
            },
            ListError::BadOrder(a, b) => {
                let mut m = String::from_str("First number in range (");
                let a_text = u64_dec_string(*a as u64);
                m.append(a_text.as_str());
                m.append(") must be lower than second number (");
                let b_text = u64_dec_string(*b as u64);
                m.append(b_text.as_str());
                m.append(")");
                m
            },
        }
    }
}

/// The value a single list entry denotes: rejected are a leading `+`, an
/// empty entry, non-digit characters, a value too large for `usize`, and
/// the value zero (whose diagnostic carries the rendered value rather than
/// the entry text).
pub open spec fn number_of(t: Seq<char>, orig: Seq<char>) -> Result<usize, ListErrorView> {
    if t.len() > 0 && t[0] == '+' {
        Err(ListErrorView::IllegalValue(orig))
    } else if t.len() == 0 {
        Err(ListErrorView::IllegalValue(orig))
    } else if digit_run_ok(t, usize::MAX as int) {
        if digits_val(t) == 0 {
            Err(ListErrorView::IllegalValue(dec_chars(0)))
        } else {
            Ok(digits_val(t) as usize)
        }
    } else {
        Err(ListErrorView::IllegalValue(orig))
    }
}

/// Parses one number of a list entry; `original_s` is the entry text used
/// in diagnostics.
pub fn parse_number(s: &str, original_s: &str) -> (r: Result<usize, ListError>)
    ensures
        match r {
            Ok(v) => number_of(s@, original_s@) == Ok::<usize, ListErrorView>(v) && v >= 1,
            Err(e) => number_of(s@, original_s@) == Err::<usize, ListErrorView>(e@),
        },
{
    let n = s.unicode_len();
    if n > 0 && s.get_char(0) == '+' {
        return Err(ListError::IllegalValue(String::from_str(original_s)));
    }
    if n == 0 {
        return Err(ListError::IllegalValue(String::from_str(original_s)));
    }
    proof {
        assert(s@.subrange(0, n as int) =~= s@);
    }
    match parse_digit_run(s, 0, n, usize::MAX as u64) {
        None => Err(ListError::IllegalValue(String::from_str(original_s))),
        Some(v) => {
            if v == 0 {
                proof {
                    reveal_strlit("0");
                    assert(dec_chars(0) =~= "0"@);
                }
                Err(ListError::IllegalValue(String::from_str("0")))
            } else {
                Ok(v as usize)
            }
        },
    }
}

/// Index of the first occurrence of `c` in `s`; the length of `s` when `c`
/// does not occur.
pub open spec fn find_first(s: Seq<char>, c: char) -> int
    decreases s.len(),
{
    if s.len() == 0 {
        0
    } else if s[0] == c {
        0
    } else {
        1 + find_first(s.skip(1), c)
    }
}

/// The first occurrence lies within the string.
pub proof fn lemma_find_first_le_len(s: Seq<char>, c: char)
    ensures
        0 <= find_first(s, c) <= s.len(),
    decreases s.len(),
{
    if s.len() > 0 && s[0] != c {
        lemma_find_first_le_len(s.skip(1), c);
    }
}

/// Finds the first occurrence of `c` in `s`, by character index.
fn find_char(s: &str, c: char) -> (i: usize)
    ensures
        i == find_first(s@, c),
{
    let n = s.unicode_len();
    let mut i: usize = 0;
    proof {
        assert(s@.skip(0) =~= s@);
    }
    while i < n
        invariant
            0 <= i <= n == s@.len(),
            find_first(s@, c) == i + find_first(s@.skip(i as int), c),
        decreases n - i,
    {
        proof {
            assert(s@.skip(i as int).len() > 0);
            assert(s@.skip(i as int)[0] == s@[i as int]);
            assert(s@.skip(i as int).skip(1) =~= s@.skip(i + 1));
        }
        if s.get_char(i) == c {
            return i;
        }
        i = i + 1;
    }
    proof {
        assert(s@.skip(n as int).len() == 0);
    }
    i
}

/// The pair of bounds one list entry denotes: `a-b` becomes the 0-based
/// half-open pair `(a-1, b)` when `a < b`; a single index `a` becomes
/// `(a-1, a)`.  The text before the first `-` is the first number.
pub open spec fn entry_of(seg: Seq<char>) -> Result<(usize, usize), ListErrorView> {
    let j = find_first(seg, '-');
    if j == seg.len() {
        match number_of(seg, seg) {
            Ok(v) => Ok(((v - 1) as usize, v)),
            Err(e) => Err(e),
        }
    } else {
        match number_of(seg.take(j), seg) {
            Err(e) => Err(e),
            Ok(a) => match number_of(seg.skip(j + 1), seg) {
                Err(e) => Err(e),
                Ok(b) => if a >= b {
                    Err(ListErrorView::BadOrder(a as int, b as int))
                } else {
                    Ok(((a - 1) as usize, b))
                },
            },
        }
    }
}

/// Parses one comma-separated entry of a position list.
fn parse_entry(seg: &str) -> (r: Result<Range<usize>, ListError>)
    ensures
        match r {
            Ok(rg) => entry_of(seg@) matches Ok(p) && rg.start == p.0 && rg.end == p.1,
            Err(e) => entry_of(seg@) == Err::<(usize, usize), ListErrorView>(e@),
        },
{
    let n = seg.unicode_len();
    let j = find_char(seg, '-');
    proof {
        lemma_find_first_le_len(seg@, '-');
    }
    if j == n {
        match parse_number(seg, seg) {
            Ok(v) => Ok((v - 1)..v),
            Err(e) => Err(e),
        }
    } else {
        let left = seg.substring_char(0, j);
        proof {
            assert(left@ =~= seg@.take(j as int));
        }
        let a = match parse_number(left, seg) {
            Ok(a) => a,
            Err(e) => {
                return Err(e);
            },
        };
        let right = seg.substring_char(j + 1, n);
        proof {
            assert(right@ =~= seg@.skip(j + 1));
        }
        let b = match parse_number(right, seg) {
            Ok(b) => b,
            Err(e) => {
                return Err(e);
            },
        };
        if a >= b {
            Err(ListError::BadOrder(a, b))
        } else {
            Ok((a - 1)..b)
        }
    }
}

/// The ranges a whole position list denotes, entries processed left to
/// right, the first error aborting the parse.
pub open spec fn entries_of(s: Seq<char>) -> Result<Seq<(usize, usize)>, ListErrorView>
    decreases s.len(),
    via entries_of_decreases
{
    let i = find_first(s, ',');
    match entry_of(s.take(i)) {
        Err(e) => Err(e),
        Ok(p) => if i == s.len() {
            Ok(seq![p])
        } else {
            match entries_of(s.skip(i + 1)) {
                Err(e) => Err(e),
                Ok(rest) => Ok(seq![p] + rest),
            }
        },
    }
}

#[via_fn]
proof fn entries_of_decreases(s: Seq<char>)
{
    lemma_find_first_le_len(s, ',');
}

/// What a position list as a whole denotes; an empty list is illegal.
pub open spec fn pos_list_of(s: Seq<char>) -> Result<Seq<(usize, usize)>, ListErrorView> {
    if s.len() == 0 {
        Err(ListErrorView::IllegalValue(s))
    } else {
        entries_of(s)
    }
}

/// Parses the comma-separated entries of a non-empty position list.
fn parse_entries(s: &str) -> (r: Result<Vec<Range<usize>>, ListError>)
    ensures
        match r {
            Ok(v) => {
                &&& entries_of(s@) matches Ok(ps)
                &&& v@.len() == ps.len()
                &&& forall|k: int|
                    0 <= k < ps.len() ==> (#[trigger] v@[k]).start == ps[k].0 && v@[k].end
                        == ps[k].1
            },
            Err(e) => entries_of(s@) == Err::<Seq<(usize, usize)>, ListErrorView>(e@),
        },
    decreases s@.len(),
{
    let n = s.unicode_len();
    let i = find_char(s, ',');
    proof {
        lemma_find_first_le_len(s@, ',');
    }
    let seg = s.substring_char(0, i);
    proof {
        assert(seg@ =~= s@.take(i as int));
    }
    match parse_entry(seg) {
        Err(e) => Err(e),
        Ok(rg) => {
            if i == n {
                let mut v: Vec<Range<usize>> = Vec::new();
                v.push(rg);
                Ok(v)
            } else {
                let rest_str = s.substring_char(i + 1, n);
                proof {
                    assert(rest_str@ =~= s@.skip(i + 1));
                }
                match parse_entries(rest_str) {
                    Err(e) => Err(e),
                    Ok(mut rest) => {
                        rest.insert(0, rg);
                        Ok(rest)
                    },
                }
            }
        },
    }
}

/// Parses a position list such as `1,7,3-5` into 0-based half-open ranges.
pub fn parse_pos(s: String) -> (r: Result<Vec<Range<usize>>, ListError>)
    ensures
        match r {
            Ok(v) => {
                &&& pos_list_of(s@) matches Ok(ps)
                &&& v@.len() == ps.len()
                &&& forall|k: int|
                    0 <= k < ps.len() ==> (#[trigger] v@[k]).start == ps[k].0 && v@[k].end
                        == ps[k].1
            },
            Err(e) => pos_list_of(s@) == Err::<Seq<(usize, usize)>, ListErrorView>(e@),
        },
{
    let text = s.as_str();
    if text.unicode_len() == 0 {
        proof {
            reveal_strlit("");
            assert(""@ =~= s@);
        }
        return Err(ListError::IllegalValue(String::from_str("")));
    }
    parse_entries(text)
}

} // verus!
