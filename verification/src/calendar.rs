//! Column-layout helpers for the calendar utility: centring header text,
//! resolving a month argument, and laying day cells out into week rows.

use crate::digits::{dec_chars, digit_run_ok, digits_val, parse_digit_run, u64_dec_string};
use vstd::prelude::*;
use vstd::string::{StrSliceExecFns, StringExecFns, StringSliceAdditionalSpecFns};

verus! {

/// A run of `n` spaces.
pub open spec fn spaces(n: nat) -> Seq<char> {
    Seq::new(n, |i: int| ' ')
}

/// Builds a string of `n` spaces.
fn space_string(n: usize) -> (s: String)
    ensures
        s@ == spaces(n as nat),
{
    let mut s = String::new();
    let mut i: usize = 0;
    proof {
        assert(s@ =~= spaces(0));
    }
    while i < n
        invariant
            0 <= i <= n,
            s@ == spaces(i as nat),
        decreases n - i,
    {
        s.append(" ");
        proof {
            reveal_strlit(" ");
            assert(spaces((i + 1) as nat) =~= spaces(i as nat) + " "@);
        }
        i = i + 1;
    }
    s
}

/// `text` centred on a line of `width` columns, where `bytes` is the byte
/// length of the text: the text sits one column left of centre, with the
/// slack given to the right-hand padding.
pub open spec fn centered(text: Seq<char>, bytes: nat, width: nat) -> Seq<char>
    recommends
        bytes + 2 <= width,
{
    let padding = (width - bytes) / 2;
    spaces((padding - 1) as nat) + text + spaces((width - padding - bytes + 1) as nat)
}

/// Centres `text` on a line of `line_length` columns.  The paddings are
/// computed from the byte length of the text, which must leave room for at
/// least one column of padding on each side.
pub fn center_text(text: &str, line_length: usize) -> (r: String)
    requires
        text.spec_bytes().len() + 2 <= line_length,
    ensures
        r@ == centered(text@, text.spec_bytes().len(), line_length as nat),
{
    let text_len = text.len();
    let padding = (line_length - text_len) / 2;
    proof {
        assert(padding >= 1);
        assert(padding + text_len <= line_length);
    }
    let mut r = space_string(padding - 1);
    r.append(text);
    let right = space_string(line_length - padding - text_len + 1);
    r.append(right.as_str());
    r
}

/// What `str::to_lowercase` returns for a string with these characters.
pub uninterp spec fn lower_of(s: Seq<char>) -> Seq<char>;

/// Relies on str::to_lowercase: the result is a function of the characters
/// alone.
#[verifier::external_body]
fn lowercase(s: &str) -> (r: String)
    ensures
        r@ == lower_of(s@),
{
    s.to_lowercase()
}

/// The month number a lowercased month name denotes.
pub open spec fn month_number(t: Seq<char>) -> Option<u32> {
    if t == "january"@ {
        Some(1u32)
    } else if t == "february"@ {
        Some(2u32)
    } else if t == "march"@ {
        Some(3u32)
    } else if t == "april"@ {
        Some(4u32)
    } else if t == "may"@ {
        Some(5u32)
    } else if t == "june"@ {
        Some(6u32)
    } else if t == "july"@ {
        Some(7u32)
    } else if t == "august"@ {
        Some(8u32)
    } else if t == "september"@ {
        Some(9u32)
    } else if t == "october"@ {
        Some(10u32)
    } else if t == "november"@ {
        Some(11u32)
    } else if t == "december"@ {
        Some(12u32)
    } else {
        None
    }
}

/// The `u32` a month argument parses to, following the standard unsigned
/// parse: an optional leading `+`, then decimal digits, value at most
/// `u32::MAX`.
pub open spec fn u32_of_text(t: Seq<char>) -> Option<u32> {
    if t.len() > 0 && t[0] == '+' {
        if digit_run_ok(t.skip(1), u32::MAX as int) {
            Some(digits_val(t.skip(1)) as u32)
        } else {
            None
        }
    } else {
        if digit_run_ok(t, u32::MAX as int) {
            Some(digits_val(t) as u32)
        } else {
            None
        }
    }
}

/// The month a textual month argument denotes: its numeric value when it
/// parses as a number, else the month whose name it spells (after
/// lowercasing), else the current month.
pub open spec fn month_choice(t: Seq<char>, current_month: u32) -> u32 {
    match u32_of_text(t) {
        Some(m) => m,
        None => match month_number(lower_of(t)) {
            Some(m) => m,
            None => current_month,
        },
    }
}

/// Character-wise string equality.
fn str_eq_chars(a: &str, b: &str) -> (r: bool)
    ensures
        r == (a@ == b@),
{
    let na = a.unicode_len();
    let nb = b.unicode_len();
    if na != nb {
        return false;
    }
    let mut i: usize = 0;
    while i < na
        invariant
            0 <= i <= na == a@.len(),
            nb == b@.len(),
            na == nb,
            forall|k: int| 0 <= k < i ==> a@[k] == b@[k],
        decreases na - i,
    {
        if a.get_char(i) != b.get_char(i) {
            return false;
        }
        i = i + 1;
    }
    proof {
        assert(a@ =~= b@);
    }
    true
}

/// The month number a lowercased name denotes, if any.
fn month_from_name(t: &str) -> (r: Option<u32>)
    ensures
        r == month_number(t@),
{
    if str_eq_chars(t, "january") {
        Some(1)
    } else if str_eq_chars(t, "february") {
        Some(2)
    } else if str_eq_chars(t, "march") {
        Some(3)
    } else if str_eq_chars(t, "april") {
        Some(4)
    } else if str_eq_chars(t, "may") {
        Some(5)
    } else if str_eq_chars(t, "june") {
        Some(6)
    } else if str_eq_chars(t, "july") {
        Some(7)
    } else if str_eq_chars(t, "august") {
        Some(8)
    } else if str_eq_chars(t, "september") {
        Some(9)
    } else if str_eq_chars(t, "october") {
        Some(10)
    } else if str_eq_chars(t, "november") {
        Some(11)
    } else if str_eq_chars(t, "december") {
        Some(12)
    } else {
        None
    }
}

/// Parses a month argument as a number, as the standard unsigned parse
/// does.
fn parse_u32_text(s: &str) -> (r: Option<u32>)
    ensures
        r == u32_of_text(s@),
{
    let n = s.unicode_len();
    let has_plus = n > 0 && s.get_char(0) == '+';
    let start: usize = if has_plus {
        1
    } else {
        0
    };
    proof {
        if has_plus {
            assert(s@.subrange(1, n as int) =~= s@.skip(1));
        } else {
            assert(s@.subrange(0, n as int) =~= s@);
        }
    }
    match parse_digit_run(s, start, n, u32::MAX as u64) {
        None => None,
        Some(v) => Some(v as u32),
    }
}

/// Resolves an optional month argument: a number is taken as given, a
/// month name (in any case) is looked up, anything else falls back to the
/// current month.
pub fn get_month(possible_month: &Option<String>, current_month: u32) -> (m: u32)
    ensures
        m == match possible_month {
            Some(t) => month_choice(t@, current_month),
            None => current_month,
        },
{
    match possible_month {
        None => current_month,
        Some(text) => {
            let s = text.as_str();
            match parse_u32_text(s) {
                Some(m) => m,
                None => {
                    let lowered = lowercase(s);
                    match month_from_name(lowered.as_str()) {
                        Some(m) => m,
                        None => current_month,
                    }
                },
            }
        },
    }
}

/// A day of the month together with its position in the week (0 is
/// Sunday).
pub struct WkDay {
    pub day_in_week: i64,
    pub day: i64,
}

/// Decimal rendering of a signed number.
pub open spec fn int_dec_chars(n: int) -> Seq<char> {
    if n < 0 {
        seq!['-'] + dec_chars((-n) as nat)
    } else {
        dec_chars(n as nat)
    }
}

/// A day cell: the day number right-aligned in two columns.
pub open spec fn day_cell(day: int) -> Seq<char> {
    if int_dec_chars(day).len() < 2 {
        seq![' '] + int_dec_chars(day)
    } else {
        int_dec_chars(day)
    }
}

/// The week row a vector of cells denotes: each cell's characters.
pub open spec fn rows_view(v: Seq<String>) -> Seq<Seq<char>> {
    Seq::new(v.len(), |i: int| v[i]@)
}

/// Appending a cell appends its characters to the row.
pub proof fn lemma_rows_view_push(v: Seq<String>, c: String)
    ensures
        rows_view(v.push(c)) =~= rows_view(v).push(c@),
{
}

/// `k` blank day cells (none when `k` is not positive).
pub open spec fn blank_cells(k: int) -> Seq<Seq<char>> {
    Seq::new(
        if k < 0 {
            0nat
        } else {
            k as nat
        },
        |i: int| seq![' ', ' '],
    )
}

/// Renders a signed number in decimal.
fn i64_dec_string(n: i64) -> (s: String)
    ensures
        s@ == int_dec_chars(n as int),
{
    if n >= 0 {
        u64_dec_string(n as u64)
    } else {
        let magnitude: u64 = ((-1 - n) as u64) + 1;
        let mut s = String::from_str("-");
        proof {
            reveal_strlit("-");
            assert(s@ =~= seq!['-']);
        }
        let digits_part = u64_dec_string(magnitude);
        s.append(digits_part.as_str());
        s
    }
}

/// Renders a day cell of width at least two.
fn day_cell_string(day: i64) -> (s: String)
    ensures
        s@ == day_cell(day as int),
{
    let text = i64_dec_string(day);
    if text.as_str().unicode_len() < 2 {
        let mut s = String::from_str(" ");
        proof {
            reveal_strlit(" ");
            assert(s@ =~= seq![' ']);
        }
        s.append(text.as_str());
        s
    } else {
        text
    }
}

/// A blank day cell of two spaces.
fn blank_cell_string() -> (s: String)
    ensures
        s@ == seq![' ', ' '],
{
    let s = String::from_str("  ");
    proof {
        reveal_strlit("  ");
        assert(s@ =~= seq![' ', ' ']);
    }
    s
}

/// Appends a day cell to the current week row; an empty row is first
/// padded with blank cells up to the day's position in the week.
pub fn add_day_to_vec(vec: &mut Vec<String>, weekday: WkDay)
    ensures
        rows_view(final(vec)@) == if old(vec)@.len() == 0 {
            blank_cells(weekday.day_in_week as int) + seq![day_cell(weekday.day as int)]
        } else {
            rows_view(old(vec)@) + seq![day_cell(weekday.day as int)]
        },
{
    let ghost start = vec@;
    if vec.len() == 0 {
        let mut i: i64 = 0;
        proof {
            assert(rows_view(vec@) =~= blank_cells(0));
        }
        while i < weekday.day_in_week
            invariant
                0 <= i,
                weekday.day_in_week > 0 ==> i <= weekday.day_in_week,
                weekday.day_in_week <= 0 ==> i == 0,
                rows_view(vec@) == blank_cells(i as int),
            decreases weekday.day_in_week - i,
        {
            let ghost pre = vec@;
            let cell = blank_cell_string();
            proof {
                lemma_rows_view_push(pre, cell);
            }
            vec.push(cell);
            proof {
                assert(rows_view(vec@) =~= blank_cells(i + 1));
            }
            i = i + 1;
        }
        let ghost pre = vec@;
        let cell = day_cell_string(weekday.day);
        proof {
            lemma_rows_view_push(pre, cell);
        }
        vec.push(cell);
        proof {
            assert(blank_cells(i as int) =~= blank_cells(weekday.day_in_week as int));
            assert(rows_view(vec@) == blank_cells(i as int).push(day_cell(weekday.day as int)));
            assert(blank_cells(weekday.day_in_week as int).push(day_cell(weekday.day as int))
                =~= blank_cells(weekday.day_in_week as int) + seq![
                day_cell(weekday.day as int),
            ]);
        }
    } else {
        let cell = day_cell_string(weekday.day);
        proof {
            lemma_rows_view_push(start, cell);
        }
        vec.push(cell);
        proof {
            assert(rows_view(vec@) =~= rows_view(start) + seq![day_cell(weekday.day as int)]);
        }
    }
}

/// Pads a week row that holds at most seven cells with blank cells up to
/// seven.
pub fn complete_vec(vec: &mut Vec<String>)
    requires
        old(vec)@.len() <= 7,
    ensures
        rows_view(final(vec)@) == rows_view(old(vec)@) + blank_cells(7 - old(vec)@.len()),
{
    let ghost start = vec@;
    let missing = 7 - vec.len();
    let mut i: usize = 0;
    proof {
        assert(rows_view(vec@) =~= rows_view(start) + blank_cells(0));
    }
    while i < missing
        invariant
            0 <= i <= missing,
            start == old(vec)@,
            rows_view(vec@) == rows_view(start) + blank_cells(i as int),
        decreases missing - i,
    {
        let ghost pre = vec@;
        let cell = blank_cell_string();
        proof {
            lemma_rows_view_push(pre, cell);
        }
        vec.push(cell);
        proof {
            assert(rows_view(vec@) =~= rows_view(start) + blank_cells(i + 1));
        }
        i = i + 1;
    }
}

} // verus!
