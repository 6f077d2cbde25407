//! The stream counter and the tail emitter, over in-memory byte streams.
//!
//! A line consists of its bytes and its terminating newline byte when
//! present; trailing bytes without a terminator form a final line.  The
//! counter makes one pass to obtain the line and byte totals; the emitters
//! produce the suffix of a stream from a given byte offset or line index.

use vstd::prelude::*;

verus! {

/// Number of newline bytes in `s`.
pub open spec fn newlines_in(s: Seq<u8>) -> nat
    decreases s.len(),
{
    if s.len() == 0 {
        0
    } else {
        newlines_in(s.drop_last()) + if s.last() == 10 {
            1nat
        } else {
            0nat
        }
    }
}

/// Number of lines of `s`: one per newline byte, plus a final line when the
/// stream ends without a terminator.
pub open spec fn line_count(s: Seq<u8>) -> nat {
    newlines_in(s) + if s.len() > 0 && s.last() != 10 {
        1nat
    } else {
        0nat
    }
}

/// Byte offset at which line `k` (0-based) starts, clamped to the length of
/// `s` when `s` has no such line.
pub open spec fn line_offset(s: Seq<u8>, k: nat) -> int
    decreases s.len(),
{
    if k == 0 {
        0
    } else if s.len() == 0 {
        0
    } else if s[0] == 10 {
        1 + line_offset(s.skip(1), (k - 1) as nat)
    } else {
        1 + line_offset(s.skip(1), k)
    }
}

/// There are no more newlines than bytes.
pub proof fn lemma_newlines_le_len(s: Seq<u8>)
    ensures
        newlines_in(s) <= s.len(),
    decreases s.len(),
{
    if s.len() > 0 {
        lemma_newlines_le_len(s.drop_last());
    }
}

/// A line offset lies within the stream.
pub proof fn lemma_line_offset_le_len(s: Seq<u8>, k: nat)
    ensures
        0 <= line_offset(s, k) <= s.len(),
    decreases s.len(),
{
    if k > 0 && s.len() > 0 {
        if s[0] == 10 {
            lemma_line_offset_le_len(s.skip(1), (k - 1) as nat);
        } else {
            lemma_line_offset_le_len(s.skip(1), k);
        }
    }
}

/// Newlines counted from the front: the first byte plus the rest.
pub proof fn lemma_newlines_front(s: Seq<u8>)
    requires
        s.len() > 0,
    ensures
        newlines_in(s) == newlines_in(s.skip(1)) + if s[0] == 10 {
            1nat
        } else {
            0nat
        },
    decreases s.len(),
{
    if s.len() == 1 {
        assert(s.drop_last().len() == 0);
        assert(s.skip(1).len() == 0);
        assert(s.last() == s[0]);
        assert(newlines_in(s.skip(1)) == 0);
        assert(newlines_in(s.drop_last()) == 0);
        assert(newlines_in(s) == if s[0] == 10 {
            1nat
        } else {
            0nat
        });
    } else {
        let d = s.drop_last();
        lemma_newlines_front(d);
        assert(d[0] == s[0]);
        assert(d.skip(1) =~= s.skip(1).drop_last());
        assert(s.skip(1).len() > 0);
        assert(s.skip(1).last() == s.last());
        assert(newlines_in(s) == newlines_in(d) + if s.last() == 10 {
            1nat
        } else {
            0nat
        });
        assert(newlines_in(s.skip(1)) == newlines_in(s.skip(1).drop_last()) + if s.skip(
            1,
        ).last() == 10 {
            1nat
        } else {
            0nat
        });
    }
}

/// Lines counted from the front, for a stream of at least two bytes.
pub proof fn lemma_line_count_front(s: Seq<u8>)
    requires
        s.len() >= 2,
    ensures
        line_count(s) == line_count(s.skip(1)) + if s[0] == 10 {
            1nat
        } else {
            0nat
        },
{
    lemma_newlines_front(s);
    assert(s.skip(1).last() == s.last());
    assert(s.skip(1).len() > 0);
}

/// Asking to start at or past the last line leaves nothing to emit.
pub proof fn lemma_line_offset_past_end(s: Seq<u8>, k: nat)
    requires
        k >= line_count(s),
    ensures
        line_offset(s, k) == s.len(),
    decreases s.len(),
{
    if s.len() == 0 {
    } else {
        assert(line_count(s) >= 1);
        assert(k >= 1);
        if s.len() == 1 {
            assert(s.skip(1).len() == 0);
            assert(line_offset(s.skip(1), (k - 1) as nat) == 0);
            assert(line_offset(s.skip(1), k) == 0);
            assert(line_offset(s, k) == 1);
        } else {
            lemma_line_count_front(s);
            assert(s.skip(1).len() == s.len() - 1);
            if s[0] == 10 {
                assert((k - 1) as nat >= line_count(s.skip(1)));
                lemma_line_offset_past_end(s.skip(1), (k - 1) as nat);
                assert(line_offset(s, k) == 1 + s.skip(1).len());
            } else {
                assert(k >= line_count(s.skip(1)));
                lemma_line_offset_past_end(s.skip(1), k);
                assert(line_offset(s, k) == 1 + s.skip(1).len());
            }
        }
    }
}

/// The 0-based line index a byte position belongs to: the number of
/// newlines strictly before it.  A newline byte belongs to the line it
/// terminates.
pub open spec fn line_of(s: Seq<u8>, i: int) -> nat
    recommends
        0 <= i <= s.len(),
{
    newlines_in(s.take(i))
}

/// The cut position selects exactly the bytes of lines `k` onward: a byte
/// position lies at or past `line_offset(s, k)` exactly when it belongs to
/// a line with index at least `k`.
pub proof fn lemma_line_offset_selects(s: Seq<u8>, k: nat, i: int)
    requires
        0 <= i < s.len(),
    ensures
        line_offset(s, k) <= i <==> line_of(s, i) >= k,
    decreases s.len(),
{
    if k == 0 {
    } else if i == 0 {
        assert(s.take(0).len() == 0);
        if s[0] == 10 {
            lemma_line_offset_le_len(s.skip(1), (k - 1) as nat);
        } else {
            lemma_line_offset_le_len(s.skip(1), k);
        }
        assert(line_offset(s, k) >= 1);
    } else {
        let rest = s.skip(1);
        let front: nat = if s[0] == 10 {
            1nat
        } else {
            0nat
        };
        assert(s.take(i).len() > 0);
        lemma_newlines_front(s.take(i));
        assert(s.take(i)[0] == s[0]);
        assert(s.take(i).skip(1) =~= rest.take(i - 1));
        assert(newlines_in(s.take(i)) == front + newlines_in(rest.take(i - 1)));
        if s[0] == 10 {
            lemma_line_offset_selects(rest, (k - 1) as nat, i - 1);
        } else {
            lemma_line_offset_selects(rest, k, i - 1);
        }
    }
}

/// The stream counter: one forward pass yielding the line count and the
/// byte count of `data`.
pub fn counts(data: &Vec<u8>) -> (r: (usize, usize))
    ensures
        r.0 == line_count(data@),
        r.1 == data@.len(),
{
    let mut i: usize = 0;
    let mut nl: usize = 0;
    while i < data.len()
        invariant
            0 <= i <= data@.len(),
            nl == newlines_in(data@.take(i as int)),
            nl <= i,
        decreases data@.len() - i,
    {
        proof {
            assert(data@.take(i + 1).drop_last() =~= data@.take(i as int));
            assert(data@.take(i + 1).last() == data@[i as int]);
        }
        if data[i] == 10 {
            nl = nl + 1;
        }
        i = i + 1;
    }
    proof {
        assert(data@.take(data@.len() as int) =~= data@);
    }
    let lines = if data.len() > 0 && data[data.len() - 1] != 10 {
        proof {
            lemma_newlines_le_len(data@.drop_last());
            assert(data@.drop_last().len() == data@.len() - 1);
        }
        nl + 1
    } else {
        nl
    };
    (lines, data.len())
}

/// The byte-unit emitter: the suffix of `data` from byte offset `skip`.
pub fn tail_bytes(data: &Vec<u8>, skip: usize) -> (out: Vec<u8>)
    requires
        skip <= data@.len(),
    ensures
        out@ == data@.skip(skip as int),
{
    let mut out: Vec<u8> = Vec::new();
    let mut i: usize = skip;
    while i < data.len()
        invariant
            skip <= i <= data@.len(),
            out@ == data@.subrange(skip as int, i as int),
        decreases data@.len() - i,
    {
        out.push(data[i]);
        proof {
            assert(data@.subrange(skip as int, i + 1) =~= data@.subrange(
                skip as int,
                i as int,
            ).push(data@[i as int]));
        }
        i = i + 1;
    }
    proof {
        assert(data@.subrange(skip as int, data@.len() as int) =~= data@.skip(skip as int));
    }
    out
}

/// The line-unit emitter: every line of `data` whose 0-based index is at
/// least `skip`, each with its terminator, verbatim.
pub fn tail_lines(data: &Vec<u8>, skip: usize) -> (out: Vec<u8>)
    ensures
        out@ == data@.skip(line_offset(data@, skip as nat)),
        skip == 0 ==> out@ == data@,
        skip >= line_count(data@) ==> out@ == Seq::<u8>::empty(),
        forall|j: int|
            0 <= j < data@.len() ==> (line_offset(data@, skip as nat) <= j <==> #[trigger] line_of(
                data@,
                j,
            ) >= skip),
{
    let ghost s = data@;
    let mut i: usize = 0;
    let mut seen: usize = 0;
    proof {
        assert(s.skip(0) =~= s);
    }
    while i < data.len() && seen < skip
        invariant
            0 <= i <= s.len(),
            seen <= skip,
            s == data@,
            line_offset(s, skip as nat) == i + line_offset(
                s.skip(i as int),
                (skip - seen) as nat,
            ),
        decreases s.len() - i,
    {
        proof {
            assert(s.skip(i as int).len() > 0);
            assert(s.skip(i as int)[0] == s[i as int]);
            assert(s.skip(i as int).skip(1) =~= s.skip(i + 1));
        }
        if data[i] == 10 {
            seen = seen + 1;
        }
        i = i + 1;
    }
    proof {
        if seen == skip {
            assert(line_offset(s, skip as nat) == i);
        } else {
            assert(i == s.len());
            assert(s.skip(i as int).len() == 0);
            assert(line_offset(s, skip as nat) == i);
        }
        lemma_line_offset_le_len(s, skip as nat);
        if skip >= line_count(s) {
            lemma_line_offset_past_end(s, skip as nat);
            assert(s.skip(s.len() as int) =~= Seq::<u8>::empty());
        }
        if skip == 0 {
            assert(s.skip(0) =~= s);
        }
        assert forall|j: int| 0 <= j < s.len() implies (line_offset(s, skip as nat) <= j
            <==> #[trigger] line_of(s, j) >= skip) by {
            lemma_line_offset_selects(s, skip as nat, j);
        }
    }
    tail_bytes(data, i)
}

} // verus!
