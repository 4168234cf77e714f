//! Zone text content: the visible prefix of a word-by-word stream reveal,
//! and the status-bar entries (merged by key, sorted, formatted as lines).

use vstd::prelude::*;
use vstd::string::StringSliceAdditionalSpecFns;
use vstd::utf8::{decode_utf8, is_char_boundary};

use crate::composer::is_snapped_cursor;
use crate::echo_text::join_lines;
use crate::token_colors::{status_bar_icon_prefix, status_bar_prefix_for};

verus! {

broadcast use {
    vstd::utf8::encode_utf8_valid_utf8,
    vstd::utf8::encode_utf8_decode_utf8,
    vstd::slice::group_slice_axioms,
};

/// The reveal offset that stands for "fully revealed".
pub const FULLY_REVEALED_OFFSET: usize = usize::MAX;

/// The visible part of a stream text under a word-by-word reveal at byte
/// `offset`: the whole text when the reveal is complete
/// (`FULLY_REVEALED_OFFSET`), otherwise the text up to the offset clamped to
/// the text length and snapped down to a char boundary.
pub fn stream_reveal_visible_text(text: &str, offset: usize) -> (r: &str)
    ensures
        offset == FULLY_REVEALED_OFFSET ==> r@ == text@,
        offset != FULLY_REVEALED_OFFSET ==> exists|c: int|
            is_snapped_cursor(text.spec_bytes(), offset as int, c) && r@ == decode_utf8(
                text.spec_bytes().subrange(0, c),
            ),
{
    if offset == FULLY_REVEALED_OFFSET {
        return text;
    }
    let ghost bytes = text.spec_bytes();
    let len = text.as_bytes().len();
    let mut cut = if offset < len {
        offset
    } else {
        len
    };
    let ghost limit = cut as int;
    while cut > 0 && !text.is_char_boundary(cut)
        invariant
            0 <= cut <= limit,
            limit <= bytes.len(),
            bytes == text.spec_bytes(),
            forall|j: int| cut < j <= limit ==> !#[trigger] is_char_boundary(bytes, j),
        decreases cut,
    {
        cut = cut - 1;
    }
    proof {
        if cut == 0 {
            vstd::utf8::is_char_boundary_start_end_of_seq(bytes);
        }
    }
    let (before, _after) = text.split_at(cut);
    proof {
        assert(before@ == decode_utf8(before.spec_bytes()));
        assert(is_snapped_cursor(bytes, offset as int, cut as int));
    }
    before
}

// ---------------------------------------------------------------------------
// Status-bar entries
// ---------------------------------------------------------------------------

/// Lexicographic order of keys by code point (the order of `str`, whose
/// UTF-8 byte order agrees with code-point order).
pub open spec fn key_less(a: Seq<char>, b: Seq<char>) -> bool
    decreases a.len(),
{
    if b.len() == 0 {
        false
    } else if a.len() == 0 {
        true
    } else if a[0] != b[0] {
        a[0] < b[0]
    } else {
        key_less(a.drop_first(), b.drop_first())
    }
}

/// No key is before itself.
pub proof fn lemma_key_less_irreflexive(a: Seq<char>)
    ensures
        !key_less(a, a),
    decreases a.len(),
{
    if a.len() > 0 {
        lemma_key_less_irreflexive(a.drop_first());
    }
}

/// The key order is transitive.
pub proof fn lemma_key_less_transitive(a: Seq<char>, b: Seq<char>, c: Seq<char>)
    requires
        key_less(a, b),
        key_less(b, c),
    ensures
        key_less(a, c),
    decreases a.len(),
{
    if a.len() > 0 && b.len() > 0 && c.len() > 0 && a[0] == b[0] && b[0] == c[0] {
        lemma_key_less_transitive(a.drop_first(), b.drop_first(), c.drop_first());
    }
}

proof fn lemma_key_less_step(a: Seq<char>, b: Seq<char>, i: int)
    requires
        0 <= i < a.len(),
        i < b.len(),
        a[i] == b[i],
    ensures
        key_less(a.skip(i), b.skip(i)) == key_less(a.skip(i + 1), b.skip(i + 1)),
{
    assert(a.skip(i).drop_first() =~= a.skip(i + 1));
    assert(b.skip(i).drop_first() =~= b.skip(i + 1));
}

/// Three-way comparison of two keys: negative when `a` sorts before `b`,
/// positive when after, zero when equal.
pub fn compare_keys(a: &str, b: &str) -> (c: i8)
    ensures
        (c < 0) == key_less(a@, b@),
        (c > 0) == key_less(b@, a@),
        (c == 0) == (a@ == b@),
{
    let na = a.unicode_len();
    let nb = b.unicode_len();
    let mut i: usize = 0;
    proof {
        assert(a@.skip(0) =~= a@);
        assert(b@.skip(0) =~= b@);
    }
    while i < na && i < nb
        invariant
            na == a@.len(),
            nb == b@.len(),
            0 <= i <= na,
            i <= nb,
            forall|j: int| 0 <= j < i ==> a@[j] == b@[j],
            key_less(a@, b@) == key_less(a@.skip(i as int), b@.skip(i as int)),
            key_less(b@, a@) == key_less(b@.skip(i as int), a@.skip(i as int)),
        decreases na - i,
    {
        let x = a.get_char(i);
        let y = b.get_char(i);
        if x != y {
            proof {
                assert(a@.skip(i as int)[0] == x);
                assert(b@.skip(i as int)[0] == y);
                if a@ == b@ {
                    assert(a@[i as int] == b@[i as int]);
                }
            }
            if x < y {
                return -1;
            } else {
                return 1;
            }
        }
        proof {
            lemma_key_less_step(a@, b@, i as int);
            lemma_key_less_step(b@, a@, i as int);
        }
        i = i + 1;
    }
    proof {
        assert(a@.skip(i as int).len() == na - i);
        assert(b@.skip(i as int).len() == nb - i);
    }
    if na < nb {
        proof {
            if a@ == b@ {
                assert(a@.len() == b@.len());
            }
        }
        -1
    } else if nb < na {
        proof {
            if a@ == b@ {
                assert(a@.len() == b@.len());
            }
        }
        1
    } else {
        assert(a@ =~= b@);
        proof {
            lemma_key_less_irreflexive(a@);
        }
        0
    }
}

/// A status-bar entry as plain text: key and value.
pub open spec fn entry_view(e: (String, String)) -> (Seq<char>, Seq<char>) {
    (e.0@, e.1@)
}

/// The entries as plain text.
pub open spec fn entries_view(es: Seq<(String, String)>) -> Seq<(Seq<char>, Seq<char>)> {
    es.map_values(|e: (String, String)| entry_view(e))
}

/// The value last written for `key` in `entries`, if any.
pub open spec fn latest_value(entries: Seq<(Seq<char>, Seq<char>)>, key: Seq<char>) -> Option<
    Seq<char>,
>
    decreases entries.len(),
{
    if entries.len() == 0 {
        None
    } else if entries.last().0 == key {
        Some(entries.last().1)
    } else {
        latest_value(entries.drop_last(), key)
    }
}

/// `merged` holds, sorted by key, exactly the keys written in `entries`,
/// each with the value last written for it.
pub open spec fn is_merged_by_key(
    entries: Seq<(Seq<char>, Seq<char>)>,
    merged: Seq<(Seq<char>, Seq<char>)>,
) -> bool {
    &&& forall|i: int, j: int|
        0 <= i < j < merged.len() ==> key_less(#[trigger] merged[i].0, #[trigger] merged[j].0)
    &&& forall|i: int|
        0 <= i < merged.len() ==> latest_value(entries, #[trigger] merged[i].0) == Some(
            merged[i].1,
        )
    &&& forall|k: Seq<char>|
        #[trigger] latest_value(entries, k) is Some ==> exists|i: int|
            0 <= i < merged.len() && #[trigger] merged[i].0 == k
}

/// Merge the entries of a zone's status-bar publications (oldest
/// publication first, each publication's entries in turn): for each key the
/// last written value wins, and the result is sorted by key.
pub fn merge_status_bar_entries(entries: &[(String, String)]) -> (merged: Vec<(String, String)>)
    ensures
        is_merged_by_key(entries_view(entries@), entries_view(merged@)),
{
    let ghost all = entries_view(entries@);
    let mut merged: Vec<(String, String)> = Vec::new();
    let n = entries.len();
    let mut p: usize = 0;
    proof {
        assert(all.take(0) =~= Seq::<(Seq<char>, Seq<char>)>::empty());
    }
    while p < n
        invariant
            n == entries@.len(),
            all == entries_view(entries@),
            0 <= p <= n,
            is_merged_by_key(all.take(p as int), entries_view(merged@)),
        decreases n - p,
    {
        let key = &entries[p].0;
        let value = &entries[p].1;
        let ghost before = entries_view(merged@);
        let ghost seen = all.take(p as int);
        let ghost now = all.take(p + 1);
        proof {
            assert(now.drop_last() =~= seen);
            assert(now.last() == (key@, value@));
        }
        let m = merged.len();
        let mut j: usize = 0;
        let mut c: i8 = -1;
        while j < m
            invariant
                m == merged@.len(),
                before == entries_view(merged@),
                0 <= j <= m,
                forall|i: int| 0 <= i < j ==> key_less(#[trigger] before[i].0, key@),
            ensures
                0 <= j <= m,
                forall|i: int| 0 <= i < j ==> key_less(#[trigger] before[i].0, key@),
                j < m ==> c >= 0 && (c == 0) == (before[j as int].0 == key@) && (c > 0)
                    == key_less(key@, before[j as int].0),
            decreases m - j,
        {
            c = compare_keys(merged[j].0.as_str(), key.as_str());
            if c >= 0 {
                break;
            }
            j = j + 1;
        }
        let entry = (key.clone(), value.clone());
        proof {
            assert(entry_view(entry) == (key@, value@));
        }
        if j < m && c == 0 {
            merged.set(j, entry);
            let ghost after = entries_view(merged@);
            proof {
                assert(after =~= before.update(j as int, (key@, value@)));
                assert forall|k: Seq<char>| #[trigger] latest_value(now, k) is Some implies exists|
                    i: int,
                | 0 <= i < after.len() && #[trigger] after[i].0 == k by {
                    if k != key@ {
                        assert(latest_value(now, k) == latest_value(seen, k));
                        assert(latest_value(seen, k) is Some);
                        let i = choose|i: int| 0 <= i < before.len() && #[trigger] before[i].0 == k;
                        assert(after[i].0 == k);
                    } else {
                        assert(after[j as int].0 == k);
                    }
                }
                assert forall|i: int| 0 <= i < after.len() implies latest_value(
                    now,
                    #[trigger] after[i].0,
                ) == Some(after[i].1) by {
                    if i != j {
                        assert(after[i] == before[i]);
                        assert(before[i].0 != key@) by {
                            if i < j {
                                lemma_key_less_irreflexive(key@);
                            } else {
                                assert(key_less(before[j as int].0, before[i].0));
                                lemma_key_less_irreflexive(key@);
                            }
                        }
                    }
                }
            }
        } else {
            merged.insert(j, entry);
            let ghost after = entries_view(merged@);
            proof {
                assert(after =~= before.insert(j as int, (key@, value@)));
                assert forall|i: int| 0 <= i < before.len() implies #[trigger] before[i].0 != key@ by {
                    if i < j {
                        lemma_key_less_irreflexive(key@);
                    } else {
                        assert(key_less(key@, before[j as int].0));
                        if i > j {
                            assert(key_less(before[j as int].0, before[i].0));
                            lemma_key_less_transitive(key@, before[j as int].0, before[i].0);
                        }
                        lemma_key_less_irreflexive(key@);
                    }
                }
                assert forall|a: int, b: int| 0 <= a < b < after.len() implies key_less(
                    #[trigger] after[a].0,
                    #[trigger] after[b].0,
                ) by {
                    if b < j {
                        assert(key_less(before[a].0, before[b].0));
                    } else if b == j {
                        assert(key_less(before[a].0, key@));
                    } else if a == j {
                        assert(key_less(key@, before[j as int].0));
                        if b > j + 1 {
                            assert(key_less(before[j as int].0, before[b - 1].0));
                            lemma_key_less_transitive(key@, before[j as int].0, before[b - 1].0);
                        }
                    } else if a < j {
                        assert(key_less(before[a].0, key@));
                        assert(key_less(key@, before[j as int].0));
                        lemma_key_less_transitive(before[a].0, key@, before[j as int].0);
                        if b > j + 1 {
                            assert(key_less(before[j as int].0, before[b - 1].0));
                            lemma_key_less_transitive(
                                before[a].0,
                                before[j as int].0,
                                before[b - 1].0,
                            );
                        }
                    } else {
                        assert(key_less(before[a - 1].0, before[b - 1].0));
                    }
                }
                assert forall|k: Seq<char>| #[trigger] latest_value(now, k) is Some implies exists|
                    i: int,
                | 0 <= i < after.len() && #[trigger] after[i].0 == k by {
                    if k != key@ {
                        assert(latest_value(now, k) == latest_value(seen, k));
                        assert(latest_value(seen, k) is Some);
                        let i = choose|i: int| 0 <= i < before.len() && #[trigger] before[i].0 == k;
                        if i < j {
                            assert(after[i].0 == k);
                        } else {
                            assert(after[i + 1].0 == k);
                        }
                    } else {
                        assert(after[j as int].0 == k);
                    }
                }
                assert forall|i: int| 0 <= i < after.len() implies latest_value(
                    now,
                    #[trigger] after[i].0,
                ) == Some(after[i].1) by {
                    if i < j {
                        assert(after[i] == before[i]);
                    } else if i > j {
                        assert(after[i] == before[i - 1]);
                    }
                }
            }
        }
        p = p + 1;
    }
    proof {
        assert(all.take(n as int) =~= all);
    }
    merged
}

/// The text of one status-bar line: `key: value`.
pub open spec fn entry_line(key: Seq<char>, value: Seq<char>) -> Seq<char> {
    key + ": "@ + value
}

fn push_entry_line(s: &mut String, key: &str, value: &str)
    ensures
        final(s)@ == old(s)@ + entry_line(key@, value@),
{
    s.append(key);
    s.append(": ");
    s.append(value);
    assert(final(s)@ =~= old(s)@ + entry_line(key@, value@));
}

/// The status-bar text when no entry has an icon: one `key: value` line per
/// entry, joined with `'\n'`.
pub fn status_bar_text(entries: &[(String, String)]) -> (text: String)
    ensures
        text@ == join_lines(
            entries_view(entries@).map_values(
                |e: (Seq<char>, Seq<char>)| entry_line(e.0, e.1),
            ),
        ),
{
    let ghost lines = entries_view(entries@).map_values(
        |e: (Seq<char>, Seq<char>)| entry_line(e.0, e.1),
    );
    let mut text = String::new();
    let n = entries.len();
    let mut i: usize = 0;
    while i < n
        invariant
            n == entries@.len(),
            lines == entries_view(entries@).map_values(
                |e: (Seq<char>, Seq<char>)| entry_line(e.0, e.1),
            ),
            0 <= i <= n,
            text@ == join_lines(lines.take(i as int)),
        decreases n - i,
    {
        if i > 0 {
            text.append("\n");
            proof {
                reveal_strlit("\n");
            }
        }
        push_entry_line(&mut text, entries[i].0.as_str(), entries[i].1.as_str());
        assert(lines.take(i + 1).drop_last() =~= lines.take(i as int));
        assert(lines[i as int] == entry_line(entries@[i as int].0@, entries@[i as int].1@));
        i = i + 1;
    }
    assert(lines.take(n as int) =~= lines);
    text
}

/// The text of one status-bar row in the per-entry (icon) layout: `key:
/// value`, preceded by the key's emoji and a space when the key has no icon
/// but a well-known emoji.
pub open spec fn icon_row_text(key: Seq<char>, value: Seq<char>, has_icon: bool) -> Seq<char> {
    if has_icon || status_bar_prefix_for(key).len() == 0 {
        entry_line(key, value)
    } else {
        status_bar_prefix_for(key) + " "@ + entry_line(key, value)
    }
}

/// One row of the per-entry status-bar layout (see [`icon_row_text`]).
pub fn status_bar_row_text(key: &str, value: &str, has_icon: bool) -> (text: String)
    ensures
        text@ == icon_row_text(key@, value@, has_icon),
{
    let mut text = String::new();
    if !has_icon {
        let prefix = status_bar_icon_prefix(key);
        if prefix.unicode_len() != 0 {
            text.append(prefix);
            text.append(" ");
        }
    }
    push_entry_line(&mut text, key, value);
    assert(text@ =~= icon_row_text(key@, value@, has_icon));
    text
}

} // verus!
