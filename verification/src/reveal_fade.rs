//! The slicing behind the streaming-reveal fade of a portal tile's text: the
//! byte boundaries of the full-coverage run list, and the original styled
//! run whose style each slice inherits.

use vstd::prelude::*;
use vstd::string::StringSliceAdditionalSpecFns;
use vstd::utf8::{is_char_boundary, valid_utf8};

verus! {

broadcast use {vstd::utf8::encode_utf8_valid_utf8, vstd::slice::group_slice_axioms};

/// `x` clamped to `n`.
pub open spec fn clamp_to(x: usize, n: int) -> int {
    if (x as int) < n {
        x as int
    } else {
        n
    }
}

/// Whether `v` is a slice boundary of a text of bytes `bytes`: an end of the
/// text, or a candidate offset (reveal start, breakpoint or run edge) that,
/// clamped to the text length, falls on a char boundary.
pub open spec fn is_slice_bound(bytes: Seq<u8>, candidates: Seq<usize>, v: int) -> bool {
    ||| v == 0
    ||| v == bytes.len()
    ||| exists|k: int|
        0 <= k < candidates.len() && clamp_to(#[trigger] candidates[k], bytes.len() as int) == v
            && is_char_boundary(bytes, v)
}

/// Every run edge of `runs`, start then end, in run order.
pub open spec fn run_edges(runs: Seq<(usize, usize)>) -> Seq<usize> {
    Seq::new(2 * runs.len(), |i: int| if i % 2 == 0 { runs[i / 2].0 } else { runs[i / 2].1 })
}

/// The candidate offsets of a fade: the reveal start, the breakpoints, then
/// the run edges.
pub open spec fn fade_candidates(
    reveal_start: usize,
    breakpoints: Seq<usize>,
    runs: Seq<(usize, usize)>,
) -> Seq<usize> {
    seq![reveal_start] + breakpoints + run_edges(runs)
}

/// Each candidate offset, clamped to the text length, is a slice boundary
/// whenever it falls on a char boundary: the reveal start, every
/// breakpoint, and the start and end of every styled run.
pub proof fn law_candidates_become_bounds(
    bytes: Seq<u8>,
    reveal_start: usize,
    breakpoints: Seq<usize>,
    runs: Seq<(usize, usize)>,
)
    ensures
        ({
            let n = bytes.len() as int;
            let cands = fade_candidates(reveal_start, breakpoints, runs);
            &&& is_char_boundary(bytes, clamp_to(reveal_start, n)) ==> is_slice_bound(
                bytes,
                cands,
                clamp_to(reveal_start, n),
            )
            &&& forall|k: int|
                0 <= k < breakpoints.len() && is_char_boundary(
                    bytes,
                    clamp_to(#[trigger] breakpoints[k], n),
                ) ==> is_slice_bound(bytes, cands, clamp_to(breakpoints[k], n))
            &&& forall|r: int|
                0 <= r < runs.len() && is_char_boundary(bytes, clamp_to((#[trigger] runs[r]).0, n))
                    ==> is_slice_bound(bytes, cands, clamp_to(runs[r].0, n))
            &&& forall|r: int|
                0 <= r < runs.len() && is_char_boundary(bytes, clamp_to((#[trigger] runs[r]).1, n))
                    ==> is_slice_bound(bytes, cands, clamp_to(runs[r].1, n))
        }),
{
    let n = bytes.len() as int;
    let cands = fade_candidates(reveal_start, breakpoints, runs);
    let b = breakpoints.len() as int;
    assert(cands[0] == reveal_start);
    assert forall|k: int| 0 <= k < breakpoints.len() implies cands[1 + k] == #[trigger] breakpoints[k] by {
    }
    assert forall|r: int| 0 <= r < runs.len() implies cands[1 + b + 2 * r] == (#[trigger] runs[r]).0
        && cands[1 + b + 2 * r + 1] == runs[r].1 by {
        assert(run_edges(runs)[2 * r] == runs[r].0);
        assert(run_edges(runs)[2 * r + 1] == runs[r].1);
    }
}

fn insert_bound(bounds: &mut Vec<usize>, x: usize)
    requires
        forall|i: int, j: int| 0 <= i < j < old(bounds)@.len() ==> old(bounds)@[i] < old(bounds)@[j],
    ensures
        forall|i: int, j: int| 0 <= i < j < final(bounds)@.len() ==> final(bounds)@[i] < final(bounds)@[j],
        forall|v: usize| #[trigger] final(bounds)@.contains(v) <==> (old(bounds)@.contains(v) || v == x),
{
    let ghost before = bounds@;
    let n = bounds.len();
    let mut j: usize = 0;
    while j < n && bounds[j] < x
        invariant
            n == bounds@.len(),
            before == bounds@,
            0 <= j <= n,
            forall|i: int| 0 <= i < j ==> bounds@[i] < x,
        decreases n - j,
    {
        j = j + 1;
    }
    if j < n && bounds[j] == x {
        return;
    }
    bounds.insert(j, x);
    proof {
        assert(bounds@ =~= before.insert(j as int, x));
        assert forall|v: usize| #[trigger] bounds@.contains(v) <==> (before.contains(v) || v == x) by {
            if bounds@.contains(v) {
                let k = choose|k: int| 0 <= k < bounds@.len() && bounds@[k] == v;
                if k < j {
                    assert(before[k] == v);
                } else if k > j {
                    assert(before[k - 1] == v);
                }
            }
            if before.contains(v) {
                let k = choose|k: int| 0 <= k < before.len() && before[k] == v;
                if k < j {
                    assert(bounds@[k] == v);
                } else {
                    assert(bounds@[k + 1] == v);
                }
            }
            if v == x {
                assert(bounds@[j as int] == v);
            }
        }
    }
}

/// The slice boundaries of the full-coverage fade run list for a non-empty
/// text: its two ends plus every candidate offset (the reveal start, each
/// breakpoint, each run's start and end) that, clamped to the text length,
/// lies on a char boundary; ascending, without repeats. Consecutive
/// boundaries delimit the slices, so the slices cover the whole text and
/// never split a character.
pub fn reveal_slice_bounds(
    text: &str,
    reveal_start: usize,
    breakpoints: &[usize],
    runs: &[(usize, usize)],
) -> (bounds: Vec<usize>)
    requires
        text.spec_bytes().len() > 0,
        1 + breakpoints@.len() + 2 * runs@.len() <= usize::MAX,
    ensures
        forall|i: int, j: int| 0 <= i < j < bounds@.len() ==> bounds@[i] < bounds@[j],
        forall|v: usize|
            #[trigger] bounds@.contains(v) <==> is_slice_bound(
                text.spec_bytes(),
                fade_candidates(reveal_start, breakpoints@, runs@),
                v as int,
            ),
        bounds@.contains(0usize),
        bounds@.contains(text.spec_bytes().len() as usize),
        is_char_boundary(
            text.spec_bytes(),
            clamp_to(reveal_start, text.spec_bytes().len() as int),
        ) ==> bounds@.contains(clamp_to(reveal_start, text.spec_bytes().len() as int) as usize),
        forall|k: int|
            0 <= k < breakpoints@.len() && is_char_boundary(
                text.spec_bytes(),
                clamp_to(#[trigger] breakpoints@[k], text.spec_bytes().len() as int),
            ) ==> bounds@.contains(
                clamp_to(breakpoints@[k], text.spec_bytes().len() as int) as usize,
            ),
        forall|r: int|
            0 <= r < runs@.len() && is_char_boundary(
                text.spec_bytes(),
                clamp_to((#[trigger] runs@[r]).0, text.spec_bytes().len() as int),
            ) ==> bounds@.contains(clamp_to(runs@[r].0, text.spec_bytes().len() as int) as usize),
        forall|r: int|
            0 <= r < runs@.len() && is_char_boundary(
                text.spec_bytes(),
                clamp_to((#[trigger] runs@[r]).1, text.spec_bytes().len() as int),
            ) ==> bounds@.contains(clamp_to(runs@[r].1, text.spec_bytes().len() as int) as usize),
{
    let ghost bytes = text.spec_bytes();
    let ghost cands = fade_candidates(reveal_start, breakpoints@, runs@);
    let n = text.as_bytes().len();
    let mut bounds: Vec<usize> = Vec::new();
    bounds.push(0);
    proof {
        assert forall|v: usize| #[trigger] bounds@.contains(v) <==> v == 0 by {
            if v == 0 {
                assert(bounds@[0] == v);
            }
        }
    }
    insert_bound(&mut bounds, n);
    // Candidates are visited in order; `k` counts those visited.
    let total: usize = 1 + breakpoints.len() + 2 * runs.len();
    let mut k: usize = 0;
    while k < total
        invariant
            bytes == text.spec_bytes(),
            n == bytes.len(),
            n > 0,
            cands == fade_candidates(reveal_start, breakpoints@, runs@),
            total == cands.len(),
            0 <= k <= total,
            forall|i: int, j: int| 0 <= i < j < bounds@.len() ==> bounds@[i] < bounds@[j],
            forall|v: usize|
                #[trigger] bounds@.contains(v) <==> (v == 0 || v == n || exists|q: int|
                    0 <= q < k && clamp_to(#[trigger] cands[q], n as int) == v
                        && is_char_boundary(bytes, v as int)),
        decreases total - k,
    {
        let x: usize = if k == 0 {
            reveal_start
        } else if k < 1 + breakpoints.len() {
            breakpoints[k - 1]
        } else {
            let r: usize = (k - 1 - breakpoints.len()) / 2;
            if (k - 1 - breakpoints.len()) % 2 == 0 {
                runs[r].0
            } else {
                runs[r].1
            }
        };
        proof {
            assert(cands[k as int] == x);
        }
        let off: usize = if x < n {
            x
        } else {
            n
        };
        let ghost before = bounds@;
        if text.is_char_boundary(off) {
            insert_bound(&mut bounds, off);
        }
        proof {
            assert forall|v: usize| #[trigger] bounds@.contains(v) <==> (v == 0 || v == n
                || exists|q: int|
                0 <= q < k + 1 && clamp_to(#[trigger] cands[q], n as int) == v && is_char_boundary(
                    bytes,
                    v as int,
                )) by {
                if exists|q: int|
                    0 <= q < k + 1 && clamp_to(#[trigger] cands[q], n as int) == v
                        && is_char_boundary(bytes, v as int) {
                    let q = choose|q: int|
                        0 <= q < k + 1 && clamp_to(#[trigger] cands[q], n as int) == v
                            && is_char_boundary(bytes, v as int);
                    if q < k {
                        assert(before.contains(v));
                    }
                }
            }
        }
        k = k + 1;
    }
    proof {
        vstd::utf8::is_char_boundary_start_end_of_seq(bytes);
        assert forall|v: usize| #[trigger] bounds@.contains(v) <==> is_slice_bound(
            bytes,
            cands,
            v as int,
        ) by {
            if v == 0 || v == n {
            }
        }
        law_candidates_become_bounds(bytes, reveal_start, breakpoints@, runs@);
        assert(bounds@.contains(0usize));
        assert(bounds@.contains(n));
        let cs = clamp_to(reveal_start, n as int);
        if is_char_boundary(bytes, cs) {
            assert(is_slice_bound(bytes, cands, (cs as usize) as int));
        }
        assert forall|k: int|
            0 <= k < breakpoints@.len() && is_char_boundary(
                bytes,
                clamp_to(#[trigger] breakpoints@[k], n as int),
            ) implies bounds@.contains(clamp_to(breakpoints@[k], n as int) as usize) by {
            let c = clamp_to(breakpoints@[k], n as int);
            assert(is_slice_bound(bytes, cands, (c as usize) as int));
        }
        assert forall|r: int|
            0 <= r < runs@.len() && is_char_boundary(
                bytes,
                clamp_to((#[trigger] runs@[r]).0, n as int),
            ) implies bounds@.contains(clamp_to(runs@[r].0, n as int) as usize) by {
            let c = clamp_to(runs@[r].0, n as int);
            assert(is_slice_bound(bytes, cands, (c as usize) as int));
        }
        assert forall|r: int|
            0 <= r < runs@.len() && is_char_boundary(
                bytes,
                clamp_to((#[trigger] runs@[r]).1, n as int),
            ) implies bounds@.contains(clamp_to(runs@[r].1, n as int) as usize) by {
            let c = clamp_to(runs@[r].1, n as int);
            assert(is_slice_bound(bytes, cands, (c as usize) as int));
        }
    }
    bounds
}

/// The fade slices of a non-empty text cover it from its first to its last
/// byte, and no slice boundary splits a character.
pub proof fn law_slices_cover_text(bytes: Seq<u8>, candidates: Seq<usize>, bounds: Seq<usize>)
    requires
        valid_utf8(bytes),
        bytes.len() > 0,
        bytes.len() <= usize::MAX,
        forall|i: int, j: int| 0 <= i < j < bounds.len() ==> bounds[i] < bounds[j],
        forall|v: usize|
            #[trigger] bounds.contains(v) <==> is_slice_bound(bytes, candidates, v as int),
    ensures
        bounds.len() >= 2,
        bounds[0] == 0,
        bounds.last() == bytes.len(),
        forall|i: int| 0 <= i < bounds.len() ==> is_char_boundary(bytes, #[trigger] bounds[i] as int),
{
    vstd::utf8::is_char_boundary_start_end_of_seq(bytes);
    let n = bytes.len() as usize;
    assert(is_slice_bound(bytes, candidates, 0));
    assert(bounds.contains(0usize));
    assert(is_slice_bound(bytes, candidates, n as int));
    assert(bounds.contains(n));
    let a = choose|a: int| 0 <= a < bounds.len() && bounds[a] == 0usize;
    let b = choose|b: int| 0 <= b < bounds.len() && bounds[b] == n;
    assert(a != b);
    if a > 0 {
        assert(bounds[0] < bounds[a]);
    }
    assert forall|i: int| 0 <= i < bounds.len() implies bounds[i] <= n && is_char_boundary(
        bytes,
        #[trigger] bounds[i] as int,
    ) by {
        assert(bounds.contains(bounds[i]));
        assert(is_slice_bound(bytes, candidates, bounds[i] as int));
    }
    let last = bounds.len() - 1;
    if b < last {
        assert(bounds[b] < bounds[last]);
    }
}

/// The last run of `runs` covering byte `s` (`start <= s < end`), if any:
/// the run whose style a slice starting at `s` inherits.
pub open spec fn last_covering_run(runs: Seq<(usize, usize)>, s: usize) -> Option<int>
    decreases runs.len(),
{
    if runs.len() == 0 {
        None
    } else if runs.last().0 <= s && s < runs.last().1 {
        Some(runs.len() - 1)
    } else {
        last_covering_run(runs.drop_last(), s)
    }
}

/// The index of the last run covering byte `s`, if any.
pub fn covering_run_index(runs: &[(usize, usize)], s: usize) -> (r: Option<usize>)
    ensures
        match r {
            Some(i) => last_covering_run(runs@, s) == Some(i as int),
            None => last_covering_run(runs@, s) is None,
        },
{
    let mut i: usize = runs.len();
    proof {
        assert(runs@.take(runs@.len() as int) =~= runs@);
    }
    while i > 0
        invariant
            0 <= i <= runs@.len(),
            last_covering_run(runs@, s) == last_covering_run(runs@.take(i as int), s),
        decreases i,
    {
        let start: usize = runs[i - 1].0;
        let end: usize = runs[i - 1].1;
        let ghost t = runs@.take(i as int);
        proof {
            assert(t.last() == runs@[i - 1]);
            assert(t.drop_last() =~= runs@.take(i - 1));
        }
        if start <= s && s < end {
            return Some(i - 1);
        }
        i = i - 1;
    }
    None
}

} // verus!
