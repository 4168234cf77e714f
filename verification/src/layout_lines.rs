//! Line arithmetic behind the transcript turn separators and the viewer-echo
//! entry dividers (the pixel placement itself multiplies these line indices
//! by the line height).

use vstd::prelude::*;
use vstd::string::StringSliceAdditionalSpecFns;
use vstd::utf8::is_char_boundary;

verus! {

broadcast use {vstd::slice::group_slice_axioms, vstd::utf8::encode_utf8_valid_utf8};

/// Number of newline bytes (`'\n'`, 0x0A) in `bytes`.
pub open spec fn newline_count(bytes: Seq<u8>) -> nat
    decreases bytes.len(),
{
    if bytes.len() == 0 {
        0
    } else {
        newline_count(bytes.drop_last()) + if bytes.last() == 10u8 {
            1nat
        } else {
            0nat
        }
    }
}

/// The blank-line index of a thematic break at byte `offset` of `plain`: the
/// number of newlines before it (the offset is clamped to the text length).
///
/// The clamped offset must fall on a character boundary.
pub fn newlines_before(plain: &str, offset: usize) -> (lines: usize)
    requires
        is_char_boundary(
            plain.spec_bytes(),
            if offset < plain.spec_bytes().len() {
                offset as int
            } else {
                plain.spec_bytes().len() as int
            },
        ),
    ensures
        lines == newline_count(
            plain.spec_bytes().subrange(
                0,
                if offset < plain.spec_bytes().len() {
                    offset as int
                } else {
                    plain.spec_bytes().len() as int
                },
            ),
        ),
{
    let bytes = plain.as_bytes();
    let clamped = if offset < bytes.len() {
        offset
    } else {
        bytes.len()
    };
    let mut count: usize = 0;
    let mut i: usize = 0;
    while i < clamped
        invariant
            clamped <= bytes@.len(),
            bytes@ == plain.spec_bytes(),
            0 <= i <= clamped,
            count == newline_count(bytes@.subrange(0, i as int)),
            count <= i,
        decreases clamped - i,
    {
        assert(bytes@.subrange(0, i + 1).drop_last() =~= bytes@.subrange(0, i as int));
        if bytes[i] == 10u8 {
            count = count + 1;
        }
        i = i + 1;
    }
    count
}

/// The sum of the first `n` entries of `counts`.
pub open spec fn prefix_sum(counts: Seq<usize>, n: int) -> int
    decreases n,
{
    if n <= 0 {
        0
    } else {
        prefix_sum(counts, n - 1) + counts[n - 1]
    }
}

/// The boundary line index between each adjacent pair of viewer-echo
/// entries, given each entry's wrapped line count (oldest first): boundary
/// `k` sits at the first line of entry `k + 1`. `n` entries give `n - 1`
/// boundaries (none for fewer than two entries).
///
/// The line total of all entries but the newest must fit in `usize`.
pub fn echo_divider_line_offsets(entry_line_counts: &[usize]) -> (offsets: Vec<usize>)
    requires
        prefix_sum(entry_line_counts@, entry_line_counts@.len() - 1) <= usize::MAX,
    ensures
        entry_line_counts@.len() < 2 ==> offsets@.len() == 0,
        entry_line_counts@.len() >= 2 ==> offsets@.len() == entry_line_counts@.len() - 1,
        forall|k: int|
            0 <= k < offsets@.len() ==> #[trigger] offsets@[k] == prefix_sum(
                entry_line_counts@,
                k + 1,
            ),
{
    let mut offsets: Vec<usize> = Vec::new();
    let n = entry_line_counts.len();
    if n < 2 {
        return offsets;
    }
    let mut cumulative: usize = 0;
    let mut i: usize = 0;
    proof {
        lemma_prefix_sum_monotone(entry_line_counts@, 0, n - 1);
    }
    while i < n - 1
        invariant
            n == entry_line_counts@.len(),
            n >= 2,
            prefix_sum(entry_line_counts@, n - 1) <= usize::MAX,
            0 <= i <= n - 1,
            cumulative == prefix_sum(entry_line_counts@, i as int),
            offsets@.len() == i,
            forall|k: int|
                0 <= k < i ==> #[trigger] offsets@[k] == prefix_sum(entry_line_counts@, k + 1),
        decreases n - 1 - i,
    {
        proof {
            lemma_prefix_sum_monotone(entry_line_counts@, i + 1, n - 1);
        }
        cumulative = cumulative + entry_line_counts[i];
        offsets.push(cumulative);
        i = i + 1;
    }
    offsets
}

/// Prefix sums of line counts never decrease.
pub proof fn lemma_prefix_sum_monotone(counts: Seq<usize>, i: int, j: int)
    requires
        0 <= i <= j <= counts.len(),
    ensures
        prefix_sum(counts, i) <= prefix_sum(counts, j),
    decreases j - i,
{
    if i < j {
        lemma_prefix_sum_monotone(counts, i, j - 1);
    }
}

} // verus!
