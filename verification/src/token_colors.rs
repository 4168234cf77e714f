//! Design-token color parsing (the hex notation part) and the status-bar
//! fallback icon prefixes.

use vstd::prelude::*;

use crate::identity::{
    eq_ignore_ascii_case,
    eq_ignore_ascii_case_spec,
    is_ascii_layout_char,
    is_unicode_whitespace,
    law_whitespace_characters,
    is_whitespace_char,
};
use crate::text_util::str_equal;

verus! {

/// The value of a hexadecimal digit character (either case).
pub open spec fn hex_digit_value(c: char) -> Option<u8> {
    if '0' <= c && c <= '9' {
        Some(((c as u32) - 48) as u8)
    } else if 'a' <= c && c <= 'f' {
        Some(((c as u32) - 87) as u8)
    } else if 'A' <= c && c <= 'F' {
        Some(((c as u32) - 55) as u8)
    } else {
        None
    }
}

/// The byte written by two hexadecimal digits, or `None` when either
/// character is not a hexadecimal digit.
pub open spec fn hex_pair_value(a: char, b: char) -> Option<u8> {
    match (hex_digit_value(a), hex_digit_value(b)) {
        (Some(x), Some(y)) => Some((16 * x + y) as u8),
        _ => None,
    }
}

/// `s` without leading whitespace.
pub open spec fn trim_start(s: Seq<char>) -> Seq<char>
    decreases s.len(),
{
    if s.len() > 0 && is_unicode_whitespace(s[0]) {
        trim_start(s.drop_first())
    } else {
        s
    }
}

/// `s` without trailing whitespace.
pub open spec fn trim_end(s: Seq<char>) -> Seq<char>
    decreases s.len(),
{
    if s.len() > 0 && is_unicode_whitespace(s.last()) {
        trim_end(s.drop_last())
    } else {
        s
    }
}

/// `s` without leading and trailing whitespace.
pub open spec fn trimmed(s: Seq<char>) -> Seq<char> {
    trim_end(trim_start(s))
}

/// All characters are ASCII.
pub open spec fn chars_ascii(s: Seq<char>) -> bool {
    forall|i: int| 0 <= i < s.len() ==> (#[trigger] s[i] as u32) < 0x80
}

/// The sRGB channel bytes `[r, g, b, a]` of a `#RRGGBB` or `#RRGGBBAA` token
/// (surrounding whitespace ignored; alpha `255` when absent), or `None` when
/// the value has neither form.
pub open spec fn hex_color_channels(s: Seq<char>) -> Option<Seq<u8>> {
    let t = trimmed(s);
    if t.len() == 0 || t[0] != '#' || !chars_ascii(t) || !(t.len() == 7 || t.len() == 9) {
        None
    } else {
        let r = hex_pair_value(t[1], t[2]);
        let g = hex_pair_value(t[3], t[4]);
        let b = hex_pair_value(t[5], t[6]);
        let a = if t.len() == 9 {
            hex_pair_value(t[7], t[8])
        } else {
            Some(255u8)
        };
        if r is Some && g is Some && b is Some && a is Some {
            Some(seq![r.unwrap(), g.unwrap(), b.unwrap(), a.unwrap()])
        } else {
            None
        }
    }
}

proof fn lemma_trim_start_push(s: Seq<char>, d: char)
    requires
        is_unicode_whitespace(d),
    ensures
        trim_start(s.push(d)) == if trim_start(s).len() > 0 {
            trim_start(s).push(d)
        } else {
            Seq::<char>::empty()
        },
    decreases s.len(),
{
    if s.len() == 0 {
        assert(s.push(d).drop_first() =~= Seq::<char>::empty());
        assert(trim_start(Seq::<char>::empty()) == Seq::<char>::empty());
        assert(trim_start(s.push(d)) == trim_start(s.push(d).drop_first()));
    } else if is_unicode_whitespace(s[0]) {
        assert(s.push(d)[0] == s[0]);
        assert(s.push(d).drop_first() =~= s.drop_first().push(d));
        lemma_trim_start_push(s.drop_first(), d);
    } else {
        assert(s.push(d)[0] == s[0]);
    }
}

/// Trimming ignores ASCII whitespace (TAB, LF, VT, FF, CR, SPACE) added at
/// either end: a token value with a CR LF or padding around it trims to
/// the same text.
pub proof fn law_trim_ignores_ascii_whitespace(s: Seq<char>, c: char, d: char)
    requires
        is_ascii_layout_char(c),
        is_ascii_layout_char(d),
    ensures
        trimmed(seq![c] + s) == trimmed(s),
        trimmed(s.push(d)) == trimmed(s),
        trimmed(seq![c] + s.push(d)) == trimmed(s),
{
    law_whitespace_characters(c);
    law_whitespace_characters(d);
    assert((seq![c] + s).drop_first() =~= s);
    assert((seq![c] + s.push(d)).drop_first() =~= s.push(d));
    lemma_trim_start_push(s, d);
    if trim_start(s).len() > 0 {
        assert(trim_start(s).push(d).drop_last() =~= trim_start(s));
    }
}

/// A colour token reads the same with ASCII whitespace (a trailing CR LF,
/// padding) around it.
pub proof fn law_hex_color_ignores_ascii_padding(s: Seq<char>, c: char, d: char)
    requires
        is_ascii_layout_char(c),
        is_ascii_layout_char(d),
    ensures
        hex_color_channels(seq![c] + s) == hex_color_channels(s),
        hex_color_channels(s.push(d)) == hex_color_channels(s),
        hex_color_channels(seq![c] + s.push(d)) == hex_color_channels(s),
{
    law_trim_ignores_ascii_whitespace(s, c, d);
}

/// The lower-case hexadecimal digit character of `n` (`0 <= n < 16`).
pub open spec fn lower_hex_char(n: int) -> char {
    if n < 10 {
        (48 + n) as char
    } else {
        (87 + n) as char
    }
}

/// The upper-case hexadecimal digit character of `n` (`0 <= n < 16`).
pub open spec fn upper_hex_char(n: int) -> char {
    if n < 10 {
        (48 + n) as char
    } else {
        (55 + n) as char
    }
}

/// Every hexadecimal digit character, in either case, stands for its
/// numeric value: `'0'..='9'` for 0 to 9, `'a'..='f'` and `'A'..='F'` for 10
/// to 15.
pub proof fn law_hex_digits_have_their_values(n: int)
    requires
        0 <= n < 16,
    ensures
        hex_digit_value(lower_hex_char(n)) == Some(n as u8),
        hex_digit_value(upper_hex_char(n)) == Some(n as u8),
{
}

/// `#` followed by two hexadecimal digits (either case, high digit first)
/// per channel gives back exactly those channel bytes: three pairs with an
/// opaque alpha, four pairs with the fourth as alpha.
pub proof fn law_hex_color_round_trip(r: u8, g: u8, b: u8, a: u8, upper: bool)
    ensures
        ({
            let d = |x: u8, hi: bool|
                if upper {
                    upper_hex_char(if hi { x as int / 16 } else { x as int % 16 })
                } else {
                    lower_hex_char(if hi { x as int / 16 } else { x as int % 16 })
                };
            let six = seq!['#', d(r, true), d(r, false), d(g, true), d(g, false), d(b, true), d(b, false)];
            let eight = six + seq![d(a, true), d(a, false)];
            &&& hex_color_channels(six) == Some(seq![r, g, b, 255u8])
            &&& hex_color_channels(eight) == Some(seq![r, g, b, a])
        }),
{
    let d = |x: u8, hi: bool|
        if upper {
            upper_hex_char(if hi { x as int / 16 } else { x as int % 16 })
        } else {
            lower_hex_char(if hi { x as int / 16 } else { x as int % 16 })
        };
    assert forall|x: u8| #[trigger] hex_pair_value(d(x, true), d(x, false)) == Some(x) by {
        law_hex_digits_have_their_values(x as int / 16);
        law_hex_digits_have_their_values(x as int % 16);
        assert(16 * (x as int / 16) + x as int % 16 == x as int);
    }
    assert forall|x: u8, hi: bool| !is_unicode_whitespace(#[trigger] d(x, hi)) && (d(x, hi) as u32) < 0x80 by {
        let n = if hi { x as int / 16 } else { x as int % 16 };
        law_hex_digits_have_their_values(n);
    }
    let six = seq!['#', d(r, true), d(r, false), d(g, true), d(g, false), d(b, true), d(b, false)];
    let eight = six + seq![d(a, true), d(a, false)];
    lemma_trimmed_unchanged(six);
    lemma_trimmed_unchanged(eight);
    assert(chars_ascii(six));
    assert(chars_ascii(eight));
    assert(hex_pair_value(six[1], six[2]) == Some(r));
    assert(hex_pair_value(six[3], six[4]) == Some(g));
    assert(hex_pair_value(six[5], six[6]) == Some(b));
    assert(hex_pair_value(eight[7], eight[8]) == Some(a));
    assert(hex_color_channels(six) =~= Some(seq![r, g, b, 255u8]));
}

/// A text that neither begins nor ends with whitespace is its own trim.
proof fn lemma_trimmed_unchanged(s: Seq<char>)
    requires
        s.len() > 0,
        !is_unicode_whitespace(s[0]),
        !is_unicode_whitespace(s.last()),
    ensures
        trimmed(s) == s,
{
}

fn hex_digit(c: char) -> (v: Option<u8>)
    ensures
        v == hex_digit_value(c),
{
    if '0' <= c && c <= '9' {
        Some(((c as u32) - 48) as u8)
    } else if 'a' <= c && c <= 'f' {
        Some(((c as u32) - 87) as u8)
    } else if 'A' <= c && c <= 'F' {
        Some(((c as u32) - 55) as u8)
    } else {
        None
    }
}

fn hex_pair(a: char, b: char) -> (v: Option<u8>)
    ensures
        v == hex_pair_value(a, b),
{
    match (hex_digit(a), hex_digit(b)) {
        (Some(x), Some(y)) => Some(16 * x + y),
        _ => None,
    }
}

proof fn lemma_trim_start_suffix(s: Seq<char>)
    ensures
        exists|k: int|
            0 <= k <= s.len() && trim_start(s) == s.subrange(k, s.len() as int) && (forall|
                j: int,
            | 0 <= j < k ==> is_unicode_whitespace(#[trigger] s[j])) && (k < s.len()
                ==> !is_unicode_whitespace(s[k])),
    decreases s.len(),
{
    if s.len() > 0 && is_unicode_whitespace(s[0]) {
        lemma_trim_start_suffix(s.drop_first());
        let k = choose|k: int|
            0 <= k <= s.drop_first().len() && trim_start(s.drop_first()) == s.drop_first().subrange(
                k,
                s.drop_first().len() as int,
            ) && (forall|j: int|
                0 <= j < k ==> is_unicode_whitespace(#[trigger] s.drop_first()[j])) && (k
                < s.drop_first().len() ==> !is_unicode_whitespace(s.drop_first()[k]));
        assert(s.drop_first().subrange(k, s.drop_first().len() as int) =~= s.subrange(
            k + 1,
            s.len() as int,
        ));
        assert forall|j: int| 0 <= j < k + 1 implies is_unicode_whitespace(#[trigger] s[j]) by {
            if j > 0 {
                assert(s[j] == s.drop_first()[j - 1]);
            }
        }
    } else {
        assert(s =~= s.subrange(0, s.len() as int));
    }
}

proof fn lemma_trim_end_prefix(s: Seq<char>)
    ensures
        exists|k: int|
            0 <= k <= s.len() && trim_end(s) == s.subrange(0, k) && (forall|j: int|
                k <= j < s.len() ==> is_unicode_whitespace(#[trigger] s[j])) && (k > 0
                ==> !is_unicode_whitespace(s[k - 1])),
    decreases s.len(),
{
    if s.len() > 0 && is_unicode_whitespace(s.last()) {
        lemma_trim_end_prefix(s.drop_last());
        let k = choose|k: int|
            0 <= k <= s.drop_last().len() && trim_end(s.drop_last()) == s.drop_last().subrange(
                0,
                k,
            ) && (forall|j: int|
                k <= j < s.drop_last().len() ==> is_unicode_whitespace(#[trigger] s.drop_last()[j]))
                && (k > 0 ==> !is_unicode_whitespace(s.drop_last()[k - 1]));
        assert(s.drop_last().subrange(0, k) =~= s.subrange(0, k));
        assert forall|j: int| k <= j < s.len() implies is_unicode_whitespace(#[trigger] s[j]) by {
            if j < s.len() - 1 {
                assert(s[j] == s.drop_last()[j]);
            }
        }
    } else {
        assert(s =~= s.subrange(0, s.len() as int));
    }
}

/// The character range of `s` left after trimming whitespace from both
/// ends.
pub fn trim_bounds(s: &str) -> (r: (usize, usize))
    ensures
        r.0 <= r.1 <= s@.len(),
        s@.subrange(r.0 as int, r.1 as int) == trimmed(s@),
{
    let n = s.unicode_len();
    let mut lo: usize = 0;
    while lo < n && is_whitespace_char(s.get_char(lo))
        invariant
            n == s@.len(),
            0 <= lo <= n,
            forall|j: int| 0 <= j < lo ==> is_unicode_whitespace(#[trigger] s@[j]),
        decreases n - lo,
    {
        lo = lo + 1;
    }
    let mut hi: usize = n;
    while hi > lo && is_whitespace_char(s.get_char(hi - 1))
        invariant
            n == s@.len(),
            0 <= lo <= hi <= n,
            forall|j: int| hi <= j < n ==> is_unicode_whitespace(#[trigger] s@[j]),
        decreases hi,
    {
        hi = hi - 1;
    }
    let ghost t = s@.subrange(lo as int, hi as int);
    proof {
        lemma_trim_start_suffix(s@);
        let k = choose|k: int|
            0 <= k <= s@.len() && trim_start(s@) == s@.subrange(k, s@.len() as int) && (forall|
                j: int,
            | 0 <= j < k ==> is_unicode_whitespace(#[trigger] s@[j])) && (k < s@.len()
                ==> !is_unicode_whitespace(s@[k]));
        if lo < n {
            assert(!is_unicode_whitespace(s@[lo as int]));
        }
        if k < lo {
            assert(is_unicode_whitespace(s@[k]));
        }
        if lo < k {
            assert(is_unicode_whitespace(s@[lo as int]));
        }
        let ts = trim_start(s@);
        assert(ts =~= s@.subrange(lo as int, n as int));
        lemma_trim_end_prefix(ts);
        let m = choose|m: int|
            0 <= m <= ts.len() && trim_end(ts) == ts.subrange(0, m) && (forall|j: int|
                m <= j < ts.len() ==> is_unicode_whitespace(#[trigger] ts[j])) && (m > 0
                ==> !is_unicode_whitespace(ts[m - 1]));
        let h = hi - lo;
        if h > 0 {
            assert(!is_unicode_whitespace(ts[h - 1]));
        }
        if m < h {
            assert(is_unicode_whitespace(ts[h - 1]));
        }
        if h < m {
            assert(is_unicode_whitespace(ts[m - 1]) == is_unicode_whitespace(s@[lo + m - 1]));
        }
        assert(trimmed(s@) =~= t);
    }
    (lo, hi)
}

/// Parse a `#RRGGBB` or `#RRGGBBAA` design-token value into its sRGB channel
/// bytes `[r, g, b, a]` (alpha `255` when absent). Surrounding whitespace is
/// ignored; any other form yields `None`.
pub fn parse_hex_color_channels(s: &str) -> (channels: Option<[u8; 4]>)
    ensures
        match channels {
            Some(c) => hex_color_channels(s@) == Some(c@),
            None => hex_color_channels(s@) is None,
        },
{
    let bounds = trim_bounds(s);
    let lo: usize = bounds.0;
    let hi: usize = bounds.1;
    let n = s.unicode_len();
    let ghost t = s@.subrange(lo as int, hi as int);
    let len = hi - lo;
    assert(t.len() == len);
    assert(len > 0 ==> t[0] == s@[lo as int]);
    if len == 0 || s.get_char(lo) != '#' {
        return None;
    }
    let mut i: usize = lo;
    while i < hi
        invariant
            n == s@.len(),
            0 <= lo <= i <= hi <= n,
            t == s@.subrange(lo as int, hi as int),
            trimmed(s@) == t,
            forall|j: int| lo <= j < i ==> (#[trigger] s@[j] as u32) < 0x80,
        decreases hi - i,
    {
        if (s.get_char(i) as u32) >= 0x80 {
            assert(!chars_ascii(t)) by {
                assert(t[i - lo] == s@[i as int]);
            }
            return None;
        }
        i = i + 1;
    }
    assert(chars_ascii(t)) by {
        assert forall|j: int| 0 <= j < t.len() implies (#[trigger] t[j] as u32) < 0x80 by {
            assert(t[j] == s@[lo + j]);
        }
    }
    if len != 7 && len != 9 {
        return None;
    }
    let r = hex_pair(s.get_char(lo + 1), s.get_char(lo + 2));
    let g = hex_pair(s.get_char(lo + 3), s.get_char(lo + 4));
    let b = hex_pair(s.get_char(lo + 5), s.get_char(lo + 6));
    let a = if len == 9 {
        hex_pair(s.get_char(lo + 7), s.get_char(lo + 8))
    } else {
        Some(255u8)
    };
    assert(t[1] == s@[lo + 1] && t[2] == s@[lo + 2] && t[3] == s@[lo + 3]);
    assert(t[4] == s@[lo + 4] && t[5] == s@[lo + 5] && t[6] == s@[lo + 6]);
    if len == 9 {
        assert(t[7] == s@[lo + 7] && t[8] == s@[lo + 8]);
    }
    match (r, g, b, a) {
        (Some(r), Some(g), Some(b), Some(a)) => {
            let c = [r, g, b, a];
            assert(c@ =~= seq![r, g, b, a]);
            Some(c)
        },
        _ => None,
    }
}

/// Where the composer box rests in its region.
#[derive(Clone, Copy, Debug, PartialEq, Eq, Structural)]
pub enum ComposerVerticalAnchor {
    /// On the region's bottom edge (the default chat strip).
    Bottom,
    /// On the region's top edge (the two-pane input profile).
    Top,
}

/// The composer anchor selected by the `portal.composer.anchor` token: only
/// `top` (surrounding whitespace and ASCII case ignored) selects the top
/// edge; any other, missing or malformed value selects the bottom.
pub open spec fn anchor_for(value: Option<Seq<char>>) -> ComposerVerticalAnchor {
    match value {
        Some(v) => if eq_ignore_ascii_case_spec(trimmed(v), "top"@) {
            ComposerVerticalAnchor::Top
        } else {
            ComposerVerticalAnchor::Bottom
        },
        None => ComposerVerticalAnchor::Bottom,
    }
}

/// Resolve the composer anchor from the `portal.composer.anchor` token value.
pub fn composer_anchor(value: Option<&str>) -> (anchor: ComposerVerticalAnchor)
    ensures
        anchor == anchor_for(
            match value {
                Some(v) => Some(v@),
                None => None,
            },
        ),
{
    match value {
        None => ComposerVerticalAnchor::Bottom,
        Some(v) => {
            let bounds = trim_bounds(v);
            let inner = v.substring_char(bounds.0, bounds.1);
            if eq_ignore_ascii_case(inner, "top") {
                ComposerVerticalAnchor::Top
            } else {
                ComposerVerticalAnchor::Bottom
            }
        },
    }
}

/// The composer's default maximum visible line count.
pub const COMPOSER_DEFAULT_MAX_LINES: u32 = 6;

/// A decimal digit character.
pub open spec fn is_decimal_digit(c: char) -> bool {
    '0' <= c && c <= '9'
}

/// The value of a string of decimal digits.
pub open spec fn decimal_value(ds: Seq<char>) -> int
    decreases ds.len(),
{
    if ds.len() == 0 {
        0
    } else {
        decimal_value(ds.drop_last()) * 10 + (ds.last() as int - '0' as int)
    }
}

/// The digits of an unsigned integer literal: an optional leading `'+'`
/// dropped.
pub open spec fn unsigned_digits(s: Seq<char>) -> Seq<char> {
    if s.len() > 0 && s[0] == '+' {
        s.drop_first()
    } else {
        s
    }
}

/// `u32`'s decimal parse: an optional `'+'`, then one or more decimal digits
/// whose value fits in `u32`; anything else is refused.
pub open spec fn parse_u32_value(s: Seq<char>) -> Option<u32> {
    let ds = unsigned_digits(s);
    if ds.len() > 0 && (forall|i: int| 0 <= i < ds.len() ==> is_decimal_digit(#[trigger] ds[i]))
        && decimal_value(ds) <= u32::MAX {
        Some(decimal_value(ds) as u32)
    } else {
        None
    }
}

/// Parse a decimal `u32` as `str::parse::<u32>` does.
pub fn parse_u32(s: &str) -> (r: Option<u32>)
    ensures
        r == parse_u32_value(s@),
{
    let n = s.unicode_len();
    let mut start: usize = 0;
    if n > 0 && s.get_char(0) == '+' {
        start = 1;
    }
    let ghost ds = s@.subrange(start as int, n as int);
    proof {
        if n > 0 && s@[0] == '+' {
            assert(ds =~= s@.drop_first());
        } else {
            assert(ds =~= s@);
        }
        assert(ds == unsigned_digits(s@));
    }
    if start == n {
        return None;
    }
    let mut acc: u64 = 0;
    let mut overflow = false;
    let mut i: usize = start;
    proof {
        assert(s@.subrange(start as int, start as int) =~= Seq::<char>::empty());
    }
    while i < n
        invariant
            n == s@.len(),
            0 <= start <= i <= n,
            ds == s@.subrange(start as int, n as int),
            ds == unsigned_digits(s@),
            forall|j: int| start <= j < i ==> is_decimal_digit(#[trigger] s@[j]),
            !overflow ==> acc == decimal_value(s@.subrange(start as int, i as int)) && acc
                <= u32::MAX,
            overflow ==> decimal_value(s@.subrange(start as int, i as int)) > u32::MAX,
        decreases n - i,
    {
        let c = s.get_char(i);
        if !('0' <= c && c <= '9') {
            assert(!is_decimal_digit(ds[i - start]));
            return None;
        }
        let ghost prev = s@.subrange(start as int, i as int);
        let ghost next = s@.subrange(start as int, i + 1);
        assert(next.drop_last() =~= prev);
        assert(next.last() == c);
        if !overflow {
            let d: u64 = ((c as u32) - 48) as u64;
            acc = acc * 10 + d;
            if acc > 0xFFFF_FFFFu64 {
                overflow = true;
            }
        }
        i = i + 1;
    }
    assert(s@.subrange(start as int, n as int) =~= ds);
    assert forall|j: int| 0 <= j < ds.len() implies is_decimal_digit(#[trigger] ds[j]) by {
        assert(ds[j] == s@[start + j]);
    }
    if overflow {
        None
    } else {
        Some(acc as u32)
    }
}

/// The composer's maximum visible line count from the
/// `portal.composer.max_lines` token: a parsed value of at least one, or
/// the default when the token is missing, malformed or zero.
pub open spec fn max_lines_for(value: Option<Seq<char>>) -> u32 {
    match value {
        Some(v) => match parse_u32_value(v) {
            Some(m) => if m >= 1 {
                m
            } else {
                COMPOSER_DEFAULT_MAX_LINES
            },
            None => COMPOSER_DEFAULT_MAX_LINES,
        },
        None => COMPOSER_DEFAULT_MAX_LINES,
    }
}

/// Resolve the composer's maximum visible line count from the token value.
pub fn composer_max_lines(value: Option<&str>) -> (max_lines: u32)
    ensures
        max_lines == max_lines_for(
            match value {
                Some(v) => Some(v@),
                None => None,
            },
        ),
{
    match value {
        None => COMPOSER_DEFAULT_MAX_LINES,
        Some(v) => match parse_u32(v) {
            Some(m) => if m >= 1 {
                m
            } else {
                COMPOSER_DEFAULT_MAX_LINES
            },
            None => COMPOSER_DEFAULT_MAX_LINES,
        },
    }
}

/// The design token naming the alert-banner backdrop for a notification
/// urgency: `3` critical, `2` warning, any other value info.
pub open spec fn severity_token_for(urgency: u32) -> Seq<char> {
    if urgency == 3 {
        "color.severity.critical"@
    } else if urgency == 2 {
        "color.severity.warning"@
    } else {
        "color.severity.info"@
    }
}

/// The severity token key looked up for an alert-banner publication of this
/// urgency (the colour itself falls back to a built-in constant when the key
/// is absent or unparsable).
pub fn severity_token_key(urgency: u32) -> (key: &'static str)
    ensures
        key@ == severity_token_for(urgency),
{
    if urgency == 3 {
        "color.severity.critical"
    } else if urgency == 2 {
        "color.severity.warning"
    } else {
        "color.severity.info"
    }
}

/// The design token naming the notification-area backdrop for an urgency,
/// urgencies above `3` counting as critical.
pub open spec fn notification_urgency_token_for(urgency: u32) -> Seq<char> {
    if urgency == 0 {
        "color.notification.urgency.low"@
    } else if urgency == 1 {
        "color.notification.urgency.normal"@
    } else if urgency == 2 {
        "color.notification.urgency.urgent"@
    } else {
        "color.notification.urgency.critical"@
    }
}

/// The notification-urgency token key looked up for a notification-area
/// publication of this urgency.
pub fn notification_urgency_token_key(urgency: u32) -> (key: &'static str)
    ensures
        key@ == notification_urgency_token_for(urgency),
{
    let level = if urgency > 3 { 3 } else { urgency };
    if level == 0 {
        "color.notification.urgency.low"
    } else if level == 1 {
        "color.notification.urgency.normal"
    } else if level == 2 {
        "color.notification.urgency.urgent"
    } else {
        "color.notification.urgency.critical"
    }
}

/// The emoji prefix shown for a well-known status-bar key when no SVG icon
/// is mapped to it (empty for other keys).
pub open spec fn status_bar_prefix_for(key: Seq<char>) -> Seq<char> {
    if key == "battery"@ {
        "\u{1F50B}"@
    } else if key == "wifi"@ || key == "network"@ {
        "\u{1F4F6}"@
    } else if key == "cpu"@ {
        "\u{1F5A5}"@
    } else if key == "memory"@ || key == "mem"@ {
        "\u{1F4BE}"@
    } else if key == "time"@ || key == "clock"@ {
        "\u{1F550}"@
    } else if key == "weather"@ {
        "\u{2600}"@
    } else if key == "temperature"@ || key == "temp"@ {
        "\u{1F321}"@
    } else {
        ""@
    }
}

/// Unicode emoji prefix for well-known status-bar keys, used when no SVG
/// icon mapping exists; empty for unrecognized keys.
pub fn status_bar_icon_prefix(key: &str) -> (prefix: &'static str)
    ensures
        prefix@ == status_bar_prefix_for(key@),
{
    if str_equal(key, "battery") {
        "\u{1F50B}"
    } else if str_equal(key, "wifi") || str_equal(key, "network") {
        "\u{1F4F6}"
    } else if str_equal(key, "cpu") {
        "\u{1F5A5}"
    } else if str_equal(key, "memory") || str_equal(key, "mem") {
        "\u{1F4BE}"
    } else if str_equal(key, "time") || str_equal(key, "clock") {
        "\u{1F550}"
    } else if str_equal(key, "weather") {
        "\u{2600}"
    } else if str_equal(key, "temperature") || str_equal(key, "temp") {
        "\u{1F321}"
    } else {
        ""
    }
}

} // verus!
