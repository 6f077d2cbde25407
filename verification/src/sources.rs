//! The multi-source orchestrator's computational core: per-source tail
//! emission, section headers, and the composition of a whole batch of
//! sources into one output stream.
//!
//! Reading the sources and reporting unreadable ones is left to the caller;
//! everything here works on sources that have already been read.

use crate::quantity::Action;
use crate::resolve::{resolution_of, resolve, Resolution};
use crate::tail::{counts, line_count, line_offset, tail_bytes, tail_lines};
use vstd::prelude::*;

verus! {

/// One input, already read: its display name and its content.
pub struct NamedSource {
    pub name: Vec<u8>,
    pub data: Vec<u8>,
}

/// What the emitter produces for one source under a directive: in byte
/// mode the suffix from the resolved byte offset, in line mode the suffix
/// from the resolved line's first byte; nothing for a zero count or for an
/// absolute start past the end of the stream.
pub open spec fn emitted(data: Seq<u8>, d: Action, byte_mode: bool) -> Seq<u8>
    recommends
        data.len() <= usize::MAX,
{
    let total: nat = if byte_mode {
        data.len()
    } else {
        line_count(data)
    };
    match resolution_of(d, total) {
        Resolution::All => data,
        Resolution::Nothing => Seq::empty(),
        Resolution::Skip(k) => if byte_mode {
            data.skip(k as int)
        } else {
            data.skip(line_offset(data, k as nat))
        },
    }
}

/// Law: emission is a pure function of the source bytes and the directive,
/// so running the emitter twice over the same unmodified source with the
/// same resolved skip position yields byte-identical output.
pub proof fn lemma_emission_repeatable(
    data: Seq<u8>,
    d: Action,
    byte_mode: bool,
    first: Seq<u8>,
    second: Seq<u8>,
)
    requires
        first == emitted(data, d, byte_mode),
        second == emitted(data, d, byte_mode),
    ensures
        first == second,
{
}

/// The per-source pipeline: one counting pass, offset resolution, then
/// emission of the selected suffix.
pub fn file_tail(data: &Vec<u8>, directive: Action, byte_mode: bool) -> (out: Vec<u8>)
    ensures
        out@ == emitted(data@, directive, byte_mode),
        directive is Everything ==> out@ == data@,
{
    let (line_total, byte_total) = counts(data);
    let total = if byte_mode {
        byte_total
    } else {
        line_total
    };
    match resolve(directive, total) {
        Resolution::All => {
            proof {
                assert(data@.skip(0) =~= data@);
            }
            tail_bytes(data, 0)
        },
        Resolution::Nothing => Vec::new(),
        Resolution::Skip(k) => {
            proof {
                assert(k <= total);
            }
            if byte_mode {
                tail_bytes(data, k)
            } else {
                tail_lines(data, k)
            }
        },
    }
}

/// Header bytes for a named section: `==> `, the name, ` <==`, a newline.
pub open spec fn header_of(name: Seq<u8>) -> Seq<u8> {
    seq![61u8, 61u8, 62u8, 32u8] + name + seq![32u8, 60u8, 61u8, 61u8, 10u8]
}

/// Builds the header for one source; a blank line separates headers after
/// the first.
pub fn header_line(name: &Vec<u8>, first: bool) -> (h: Vec<u8>)
    ensures
        h@ == (if first {
            Seq::<u8>::empty()
        } else {
            seq![10u8]
        }) + header_of(name@),
{
    let mut h: Vec<u8> = Vec::new();
    if !first {
        h.push(10);
    }
    h.push(61);
    h.push(61);
    h.push(62);
    h.push(32);
    let ghost lead = h@;
    let mut i: usize = 0;
    while i < name.len()
        invariant
            0 <= i <= name@.len(),
            h@ == lead + name@.take(i as int),
        decreases name@.len() - i,
    {
        h.push(name[i]);
        proof {
            assert(lead + name@.take(i + 1) =~= (lead + name@.take(i as int)).push(
                name@[i as int],
            ));
        }
        i = i + 1;
    }
    proof {
        assert(name@.take(name@.len() as int) =~= name@);
    }
    h.push(32);
    h.push(60);
    h.push(61);
    h.push(61);
    h.push(10);
    proof {
        assert(h@ =~= (if first {
            Seq::<u8>::empty()
        } else {
            seq![10u8]
        }) + header_of(name@));
    }
    h
}

/// Output for one source within a batch: its header, when headers are on,
/// then its tail.
pub open spec fn section_output(
    src: NamedSource,
    d: Action,
    byte_mode: bool,
    headers: bool,
    first: bool,
) -> Seq<u8> {
    (if headers {
        (if first {
            Seq::<u8>::empty()
        } else {
            seq![10u8]
        }) + header_of(src.name@)
    } else {
        Seq::<u8>::empty()
    }) + emitted(src.data@, d, byte_mode)
}

/// Output for the first `n` sources of a batch, in the order given.
pub open spec fn batch_output(
    srcs: Seq<NamedSource>,
    d: Action,
    byte_mode: bool,
    headers: bool,
    n: nat,
) -> Seq<u8>
    decreases n,
{
    if n == 0 {
        Seq::empty()
    } else {
        batch_output(srcs, d, byte_mode, headers, (n - 1) as nat) + section_output(
            srcs[n - 1],
            d,
            byte_mode,
            headers,
            n - 1 == 0,
        )
    }
}

/// The orchestrator: every source's tail in the order given, each preceded
/// by its header exactly when more than one source is present and `quiet`
/// is not set.
pub fn run_output(sources: &Vec<NamedSource>, directive: Action, byte_mode: bool, quiet: bool) -> (out:
    Vec<u8>)
    ensures
        out@ == batch_output(
            sources@,
            directive,
            byte_mode,
            sources@.len() > 1 && !quiet,
            sources@.len(),
        ),
{
    let headers = sources.len() > 1 && !quiet;
    let mut out: Vec<u8> = Vec::new();
    let mut idx: usize = 0;
    while idx < sources.len()
        invariant
            0 <= idx <= sources@.len(),
            headers == (sources@.len() > 1 && !quiet),
            out@ == batch_output(sources@, directive, byte_mode, headers, idx as nat),
        decreases sources@.len() - idx,
    {
        let src = &sources[idx];
        if headers {
            let mut h = header_line(&src.name, idx == 0);
            out.append(&mut h);
        }
        let mut t = file_tail(&src.data, directive, byte_mode);
        out.append(&mut t);
        proof {
            assert(out@ =~= batch_output(sources@, directive, byte_mode, headers, (idx + 1) as nat));
        }
        idx = idx + 1;
    }
    out
}

} // verus!
