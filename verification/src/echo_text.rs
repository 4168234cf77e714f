//! Presentation text of the viewer echo block: the compact "HH:MM" clock
//! prefix, each entry's display text, the joined block and the byte ranges of
//! the clock prefixes inside it.

use vstd::prelude::*;

use crate::scene_id::SceneId;
use crate::text_util::{
    all_ascii, digit_char, lemma_ascii_encoding, lemma_encode_utf8_concat, push_two_digits,
    string_push, two_digits,
};
use crate::viewer_echo::{queue_records, records_of, EchoRecord, ViewerEchoEntry, ViewerEchoStore};
use vstd::utf8::encode_utf8;

verus! {

/// Microseconds per second.
pub const MICROS_PER_SECOND: u64 = 1_000_000;

/// Seconds per day: the clock prefix is a time of day (UTC).
pub const SECONDS_PER_DAY: u64 = 86_400;

/// The clock prefix of a submit time: `None` for the "no timestamp" value `0`,
/// otherwise the UTC time of day as `"HH:MM"` followed by two spaces.
pub open spec fn timestamp_prefix(submitted_at_wall_us: u64) -> Option<Seq<char>> {
    if submitted_at_wall_us == 0 {
        None
    } else {
        let secs_of_day = (submitted_at_wall_us / 1_000_000) % 86_400;
        let hour = secs_of_day / 3600;
        let minute = (secs_of_day % 3600) / 60;
        Some(two_digits(hour as int) + seq![':'] + two_digits(minute as int) + seq![' ', ' '])
    }
}

/// The characters an entry displays: its clock prefix (if any) and its text.
pub open spec fn display_chars(r: EchoRecord) -> Seq<char> {
    match timestamp_prefix(r.1) {
        Some(p) => p + r.0,
        None => r.0,
    }
}

/// Lines joined with `'\n'` between consecutive lines.
pub open spec fn join_lines(lines: Seq<Seq<char>>) -> Seq<char>
    decreases lines.len(),
{
    if lines.len() == 0 {
        Seq::empty()
    } else if lines.len() == 1 {
        lines[0]
    } else {
        join_lines(lines.drop_last()) + seq!['\n'] + lines.last()
    }
}

/// The display texts of a tile window, oldest first.
pub open spec fn display_lines(rs: Seq<EchoRecord>) -> Seq<Seq<char>> {
    rs.map_values(|r: EchoRecord| display_chars(r))
}

/// The UTF-8 byte length of an entry's display text.
pub open spec fn display_byte_len(r: EchoRecord) -> int {
    encode_utf8(display_chars(r)).len() as int
}

/// Byte offset in the joined block at which entry `i` of `rs` starts.
pub open spec fn entry_start(rs: Seq<EchoRecord>, i: int) -> int
    decreases i,
{
    if i <= 0 {
        0
    } else {
        entry_start(rs, i - 1) + display_byte_len(rs[i - 1]) + 1
    }
}

/// The byte ranges of the clock prefixes among the first `n` entries of `rs`.
pub open spec fn prefix_ranges(rs: Seq<EchoRecord>, n: int) -> Seq<(int, int)>
    decreases n,
{
    if n <= 0 {
        Seq::empty()
    } else {
        let prev = prefix_ranges(rs, n - 1);
        if rs[n - 1].1 != 0 {
            prev.push((entry_start(rs, n - 1), entry_start(rs, n - 1) + 7))
        } else {
            prev
        }
    }
}

/// Compact "HH:MM" clock prefix (UTC time of day, two trailing spaces) for a
/// viewer-echo entry's submit time, or `None` when it is `0`, the "no
/// timestamp captured" value.
pub fn viewer_echo_timestamp_prefix(submitted_at_wall_us: u64) -> (r: Option<String>)
    ensures
        match r {
            Some(s) => timestamp_prefix(submitted_at_wall_us) == Some(s@),
            None => timestamp_prefix(submitted_at_wall_us) is None,
        },
{
    if submitted_at_wall_us == 0 {
        return None;
    }
    let secs_of_day = (submitted_at_wall_us / MICROS_PER_SECOND) % SECONDS_PER_DAY;
    let hour = secs_of_day / 3600;
    let minute = (secs_of_day % 3600) / 60;
    let mut s = String::new();
    push_two_digits(&mut s, hour);
    string_push(&mut s, ':');
    push_two_digits(&mut s, minute);
    string_push(&mut s, ' ');
    string_push(&mut s, ' ');
    assert(s@ =~= two_digits(hour as int) + seq![':'] + two_digits(minute as int) + seq![' ', ' ']);
    Some(s)
}

/// The display text of a viewer-echo entry: its clock prefix (if any)
/// followed by the entry's submitted text.
pub fn viewer_echo_display_text(entry: &ViewerEchoEntry) -> (r: String)
    ensures
        r@ == display_chars(entry@),
{
    match viewer_echo_timestamp_prefix(entry.submitted_at_wall_us) {
        Some(prefix) => {
            let mut s = prefix;
            s.append(entry.text.as_str());
            s
        },
        None => String::from_str(entry.text.as_str()),
    }
}

/// The display texts of a tile's retained entries, oldest first, or `None`
/// when the tile has no entries.
pub fn viewer_echo_entry_texts(store: &ViewerEchoStore, tile_id: SceneId) -> (r: Option<
    Vec<String>,
>)
    ensures
        match r {
            Some(v) => store@.contains_key(tile_id.raw) && v@.map_values(|s: String| s@)
                == display_lines(store@[tile_id.raw]),
            None => !store@.contains_key(tile_id.raw),
        },
{
    match store.entries_for(tile_id) {
        None => None,
        Some(q) => {
            let ghost rs = store@[tile_id.raw];
            let mut out: Vec<String> = Vec::new();
            let n = q.len();
            let mut i: usize = 0;
            while i < n
                invariant
                    n == q@.len(),
                    rs == queue_records(*q),
                    0 <= i <= n,
                    out@.len() == i,
                    forall|j: int| 0 <= j < i ==> #[trigger] out@[j]@ == display_chars(rs[j]),
                decreases n - i,
            {
                let t = viewer_echo_display_text(&q[i]);
                out.push(t);
                i = i + 1;
            }
            assert(out@.map_values(|s: String| s@) =~= display_lines(rs));
            Some(out)
        },
    }
}

/// The tile's retained entry display texts joined oldest-first with `'\n'`,
/// or `None` when the tile has no entries.
pub fn viewer_echo_joined_text(store: &ViewerEchoStore, tile_id: SceneId) -> (r: Option<String>)
    ensures
        match r {
            Some(s) => store@.contains_key(tile_id.raw) && s@ == join_lines(
                display_lines(store@[tile_id.raw]),
            ),
            None => !store@.contains_key(tile_id.raw),
        },
{
    match viewer_echo_entry_texts(store, tile_id) {
        None => None,
        Some(texts) => {
            let ghost lines = texts@.map_values(|s: String| s@);
            let mut joined = String::new();
            let mut i: usize = 0;
            while i < texts.len()
                invariant
                    lines == texts@.map_values(|s: String| s@),
                    0 <= i <= texts@.len(),
                    joined@ == join_lines(lines.take(i as int)),
                decreases texts@.len() - i,
            {
                if i > 0 {
                    joined.append("\n");
                    proof {
                        reveal_strlit("\n");
                    }
                }
                joined.append(texts[i].as_str());
                assert(lines.take(i + 1).drop_last() =~= lines.take(i as int));
                i = i + 1;
            }
            assert(lines.take(texts@.len() as int) =~= lines);
            Some(joined)
        },
    }
}

/// A clock prefix is seven ASCII characters.
pub proof fn lemma_prefix_ascii(us: u64)
    requires
        us != 0,
    ensures
        timestamp_prefix(us) is Some,
        timestamp_prefix(us).unwrap().len() == 7,
        all_ascii(timestamp_prefix(us).unwrap()),
        encode_utf8(timestamp_prefix(us).unwrap()).len() == 7,
{
    let p = timestamp_prefix(us).unwrap();
    let secs_of_day = (us / 1_000_000) % 86_400;
    let hour = secs_of_day / 3600;
    let minute = (secs_of_day % 3600) / 60;
    assert(hour < 24 && minute < 60);
    assert forall|i: int| 0 <= i < p.len() implies (#[trigger] p[i] as u32) < 0x80 by {
        assert(p[0] == digit_char(hour as int / 10));
        assert(p[1] == digit_char(hour as int % 10));
        assert(p[3] == digit_char(minute as int / 10));
        assert(p[4] == digit_char(minute as int % 10));
    }
    lemma_ascii_encoding(p);
}

/// The byte length of an entry's display text: the seven prefix bytes (when
/// timestamped) plus the UTF-8 length of its text.
pub proof fn lemma_display_byte_len(r: EchoRecord)
    ensures
        display_byte_len(r) == (if r.1 != 0 {
            7int
        } else {
            0int
        }) + encode_utf8(r.0).len(),
{
    if r.1 != 0 {
        lemma_prefix_ascii(r.1);
        lemma_encode_utf8_concat(timestamp_prefix(r.1).unwrap(), r.0);
    }
}

/// Byte ranges within the joined viewer-echo text (see
/// [`viewer_echo_joined_text`]) covering each entry's clock prefix, if any.
///
/// Empty when the tile has no entries.
pub fn viewer_echo_timestamp_byte_ranges(store: &ViewerEchoStore, tile_id: SceneId) -> (r: Vec<
    (usize, usize),
>)
    requires
        entry_start(
            records_of(store@, tile_id.raw),
            records_of(store@, tile_id.raw).len() as int,
        ) <= usize::MAX,
    ensures
        r@.map_values(|p: (usize, usize)| (p.0 as int, p.1 as int)) == prefix_ranges(
            records_of(store@, tile_id.raw),
            records_of(store@, tile_id.raw).len() as int,
        ),
{
    let mut ranges: Vec<(usize, usize)> = Vec::new();
    let q = match store.entries_for(tile_id) {
        None => {
            assert(ranges@.map_values(|p: (usize, usize)| (p.0 as int, p.1 as int)) =~= Seq::<
                (int, int),
            >::empty());
            return ranges;
        },
        Some(q) => q,
    };
    let ghost rs = store@[tile_id.raw];
    let n = q.len();
    let mut cursor: usize = 0;
    let mut i: usize = 0;
    proof {
        lemma_entry_start_monotone(rs, 0, n as int);
    }
    while i < n
        invariant
            n == q@.len(),
            rs == queue_records(*q),
            rs == records_of(store@, tile_id.raw),
            entry_start(rs, n as int) <= usize::MAX,
            0 <= i <= n,
            i == 0 ==> cursor == 0,
            i > 0 ==> cursor == entry_start(rs, i as int) - 1,
            ranges@.map_values(|p: (usize, usize)| (p.0 as int, p.1 as int)) == prefix_ranges(
                rs,
                i as int,
            ),
        decreases n - i,
    {
        let ghost prev = ranges@;
        proof {
            lemma_display_byte_len(rs[i as int]);
            lemma_entry_start_monotone(rs, i + 1, n as int);
            assert(rs[i as int] == q@[i as int]@);
        }
        if i > 0 {
            cursor = cursor + 1;
        }
        let entry = &q[i];
        assert(entry@ == rs[i as int]);
        assert(entry_start(rs, i + 1) == entry_start(rs, i as int) + display_byte_len(rs[i as int]) + 1);
        match viewer_echo_timestamp_prefix(entry.submitted_at_wall_us) {
            Some(prefix) => {
                proof {
                    lemma_prefix_ascii(entry.submitted_at_wall_us);
                }
                let plen = prefix.as_str().len();
                let tlen = entry.text.as_str().len();
                assert(plen == 7);
                assert(tlen == encode_utf8(rs[i as int].0).len());
                ranges.push((cursor, cursor + plen));
                cursor = cursor + plen + tlen;
            },
            None => {
                let tlen = entry.text.as_str().len();
                cursor = cursor + tlen;
            },
        }
        assert(ranges@.map_values(|p: (usize, usize)| (p.0 as int, p.1 as int)) =~= prefix_ranges(
            rs,
            i + 1,
        ));
        i = i + 1;
    }
    ranges
}

/// Entry start offsets never decrease along the block.
pub proof fn lemma_entry_start_monotone(rs: Seq<EchoRecord>, i: int, j: int)
    requires
        0 <= i <= j,
    ensures
        entry_start(rs, i) <= entry_start(rs, j),
    decreases j - i,
{
    if i < j {
        lemma_entry_start_monotone(rs, i, j - 1);
    }
}

/// Byte layout of the joined block over its first `m` entries: the block is
/// `entry_start(rs, m) - 1` bytes long and entry `i` occupies the bytes from
/// `entry_start(rs, i)` on.
pub proof fn lemma_joined_layout(rs: Seq<EchoRecord>, m: int)
    requires
        1 <= m <= rs.len(),
    ensures
        encode_utf8(join_lines(display_lines(rs).take(m))).len() == entry_start(rs, m) - 1,
        forall|i: int|
            0 <= i < m ==> #[trigger] encode_utf8(join_lines(display_lines(rs).take(m))).subrange(
                entry_start(rs, i),
                entry_start(rs, i) + display_byte_len(rs[i]),
            ) == encode_utf8(display_chars(rs[i])),
    decreases m,
{
    let lines = display_lines(rs);
    if m == 1 {
        assert(lines.take(1) =~= seq![display_chars(rs[0])]);
        let j = encode_utf8(join_lines(lines.take(1)));
        assert(j.subrange(0, display_byte_len(rs[0])) =~= j);
    } else {
        lemma_joined_layout(rs, m - 1);
        let prev = join_lines(lines.take(m - 1));
        let line = display_chars(rs[m - 1]);
        assert(lines.take(m).drop_last() =~= lines.take(m - 1));
        assert(join_lines(lines.take(m)) == prev + seq!['\n'] + line);
        lemma_encode_utf8_concat(prev + seq!['\n'], line);
        lemma_encode_utf8_concat(prev, seq!['\n']);
        lemma_ascii_encoding(seq!['\n']);
        let ep = encode_utf8(prev);
        let nl = encode_utf8(seq!['\n']);
        let el = encode_utf8(line);
        let whole = encode_utf8(join_lines(lines.take(m)));
        assert(whole == ep + nl + el);
        assert(entry_start(rs, m) == entry_start(rs, m - 1) + display_byte_len(rs[m - 1]) + 1);
        assert(nl.len() == 1);
        assert forall|i: int| 0 <= i < m implies #[trigger] whole.subrange(
            entry_start(rs, i),
            entry_start(rs, i) + display_byte_len(rs[i]),
        ) == encode_utf8(display_chars(rs[i])) by {
            lemma_entry_start_monotone(rs, 0, i);
            if i < m - 1 {
                lemma_entry_start_monotone(rs, i + 1, m - 1);
                assert(whole.subrange(entry_start(rs, i), entry_start(rs, i) + display_byte_len(rs[i]))
                    =~= ep.subrange(entry_start(rs, i), entry_start(rs, i) + display_byte_len(rs[i])));
            } else {
                assert(whole.subrange(entry_start(rs, i), entry_start(rs, i) + display_byte_len(rs[i]))
                    =~= el);
            }
        }
    }
}

/// The clock-prefix byte range of every timestamped entry selects, in the
/// joined block, exactly the UTF-8 bytes of that entry's `"HH:MM  "` prefix.
pub proof fn law_prefix_range_selects_prefix_bytes(rs: Seq<EchoRecord>, i: int)
    requires
        0 <= i < rs.len(),
        rs[i].1 != 0,
    ensures
        ({
            let block = encode_utf8(join_lines(display_lines(rs)));
            &&& entry_start(rs, i) + 7 <= block.len()
            &&& block.subrange(entry_start(rs, i), entry_start(rs, i) + 7) == encode_utf8(
                timestamp_prefix(rs[i].1).unwrap(),
            )
        }),
{
    let n = rs.len() as int;
    lemma_joined_layout(rs, n);
    assert(display_lines(rs).take(n) =~= display_lines(rs));
    let block = encode_utf8(join_lines(display_lines(rs)));
    let p = timestamp_prefix(rs[i].1).unwrap();
    lemma_prefix_ascii(rs[i].1);
    lemma_encode_utf8_concat(p, rs[i].0);
    lemma_display_byte_len(rs[i]);
    lemma_entry_start_monotone(rs, i + 1, n);
    lemma_entry_start_monotone(rs, 0, i);
    let s = entry_start(rs, i);
    let whole = block.subrange(s, s + display_byte_len(rs[i]));
    assert(block.subrange(s, s + 7) =~= whole.subrange(0, 7));
    assert(whole.subrange(0, 7) =~= encode_utf8(p));
}

/// Every range reported for the first `n` entries is the prefix range of a
/// timestamped entry among them, and the ranges come in entry order.
pub proof fn lemma_prefix_ranges_are_entry_prefixes(rs: Seq<EchoRecord>, n: int, k: int)
    requires
        0 <= n <= rs.len(),
        0 <= k < prefix_ranges(rs, n).len(),
    ensures
        exists|i: int|
            0 <= i < n && rs[i].1 != 0 && #[trigger] prefix_ranges(rs, n)[k] == (
                entry_start(rs, i),
                entry_start(rs, i) + 7,
            ),
    decreases n,
{
    let prev = prefix_ranges(rs, n - 1);
    if k < prev.len() {
        lemma_prefix_ranges_are_entry_prefixes(rs, n - 1, k);
        let i = choose|i: int|
            0 <= i < n - 1 && rs[i].1 != 0 && #[trigger] prefix_ranges(rs, n - 1)[k] == (
                entry_start(rs, i),
                entry_start(rs, i) + 7,
            );
        assert(prefix_ranges(rs, n)[k] == prefix_ranges(rs, n - 1)[k]);
    } else {
        assert(prefix_ranges(rs, n)[k] == (entry_start(rs, n - 1), entry_start(rs, n - 1) + 7));
    }
}

} // verus!
