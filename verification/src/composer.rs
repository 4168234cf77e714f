//! Local composer echo: the caret blink phase, the caret-bearing display
//! text, the single-slot draft hand-off and the wrapped-line window.

use vstd::prelude::*;
use vstd::string::StringSliceAdditionalSpecFns;
use vstd::utf8::{decode_utf8, encode_utf8, is_char_boundary};

use crate::scene_id::SceneId;

verus! {

broadcast use {
    vstd::utf8::encode_utf8_valid_utf8,
    vstd::utf8::encode_utf8_decode_utf8,
    vstd::slice::group_slice_axioms,
};

/// Caret blink half-period in nanoseconds (530 ms): the caret stays solid for
/// this long, then hidden for this long, repeating.
pub const CARET_BLINK_HALF_PERIOD_NANOS: u128 = 530_000_000;

/// The caret glyph inserted into the composer echo text (U+258C LEFT HALF BLOCK).
pub const CARET_GLYPH: char = '\u{258C}';

/// Blink phase: solid during even half-periods, hidden during odd ones.
pub open spec fn caret_phase_visible(elapsed_nanos: u128) -> bool {
    (elapsed_nanos / CARET_BLINK_HALF_PERIOD_NANOS) % 2 == 0
}

/// Whether the caret is drawn `elapsed_nanos` after it was last reset to
/// solid (a keystroke or caret move).
///
/// Phase 0 (`[0, half)`) is solid, phase 1 (`[half, 2*half)`) hidden, and so
/// on; resetting the elapsed time on edit shows a solid caret at once.
pub fn caret_visible_at(elapsed_nanos: u128) -> (visible: bool)
    ensures
        visible == caret_phase_visible(elapsed_nanos),
{
    let half = CARET_BLINK_HALF_PERIOD_NANOS;
    if half == 0 {
        return true;
    }
    (elapsed_nanos / half) % 2 == 0
}

/// The caret is solid throughout the first half-period after a reset, hidden
/// throughout the second, and the pattern repeats with period two
/// half-periods.
pub proof fn law_caret_blink_period(t: u128)
    ensures
        t < CARET_BLINK_HALF_PERIOD_NANOS ==> caret_phase_visible(t),
        CARET_BLINK_HALF_PERIOD_NANOS <= t < 2 * CARET_BLINK_HALF_PERIOD_NANOS
            ==> !caret_phase_visible(t),
        t + 2 * CARET_BLINK_HALF_PERIOD_NANOS <= u128::MAX ==> caret_phase_visible(
            (t + 2 * CARET_BLINK_HALF_PERIOD_NANOS) as u128,
        ) == caret_phase_visible(t),
{
    let h = CARET_BLINK_HALF_PERIOD_NANOS as int;
    let q = t as int / h;
    assert(((t as int + 2 * h) / h) == q + 2) by (nonlinear_arith)
        requires
            h > 0,
            q == t as int / h,
            t >= 0,
    ;
}

/// The largest char boundary of `bytes` at or below `min(cursor, len)`.
pub open spec fn is_snapped_cursor(bytes: Seq<u8>, cursor: int, c: int) -> bool {
    let limit = if cursor < bytes.len() {
        cursor
    } else {
        bytes.len() as int
    };
    &&& 0 <= c <= limit
    &&& is_char_boundary(bytes, c)
    &&& forall|j: int| c < j <= limit ==> !#[trigger] is_char_boundary(bytes, j)
}

/// The composer echo text for a caret at byte `c`: the text before it, the
/// caret glyph, then the text after it.
pub open spec fn caret_text(bytes: Seq<u8>, c: int) -> Seq<char> {
    decode_utf8(bytes.subrange(0, c)) + seq![CARET_GLYPH] + decode_utf8(
        bytes.subrange(c, bytes.len() as int),
    )
}

/// Build the display string for the composer echo overlay: the draft text
/// with the caret glyph inserted at `cursor_byte` when `caret_visible` is
/// `true`, or the draft text alone in the blink "off" phase.
///
/// An out-of-range `cursor_byte` is clamped to the text length and a
/// mid-character offset is snapped down to the previous char boundary.
pub fn composer_display_text_blink(text: &str, cursor_byte: usize, caret_visible: bool) -> (r:
    String)
    ensures
        !caret_visible ==> r@ == text@,
        caret_visible ==> exists|c: int|
            is_snapped_cursor(text.spec_bytes(), cursor_byte as int, c) && r@ == caret_text(
                text.spec_bytes(),
                c,
            ),
{
    composer_display_text_blink_inner(text, cursor_byte, caret_visible)
}

/// The composer echo display text with the caret always shown.
pub fn composer_display_text(text: &str, cursor_byte: usize) -> (r: String)
    ensures
        exists|c: int|
            is_snapped_cursor(text.spec_bytes(), cursor_byte as int, c) && r@ == caret_text(
                text.spec_bytes(),
                c,
            ),
{
    composer_display_text_blink_inner(text, cursor_byte, true)
}

fn composer_display_text_blink_inner(text: &str, cursor_byte: usize, caret_visible: bool) -> (r:
    String)
    ensures
        !caret_visible ==> r@ == text@,
        caret_visible ==> exists|c: int|
            is_snapped_cursor(text.spec_bytes(), cursor_byte as int, c) && r@ == caret_text(
                text.spec_bytes(),
                c,
            ),
{
    if !caret_visible {
        return String::from_str(text);
    }
    let ghost bytes = text.spec_bytes();
    let len = text.as_bytes().len();
    let mut cursor = if cursor_byte < len {
        cursor_byte
    } else {
        len
    };
    let ghost limit = cursor as int;
    while cursor > 0 && !text.is_char_boundary(cursor)
        invariant
            0 <= cursor <= limit,
            limit <= bytes.len(),
            bytes == text.spec_bytes(),
            forall|j: int| cursor < j <= limit ==> !#[trigger] is_char_boundary(bytes, j),
        decreases cursor,
    {
        cursor = cursor - 1;
    }
    proof {
        if cursor == 0 {
            vstd::utf8::is_char_boundary_start_end_of_seq(bytes);
        }
    }
    let (before, after) = text.split_at(cursor);
    proof {
        assert(before@ == decode_utf8(before.spec_bytes()));
        assert(after@ == decode_utf8(after.spec_bytes()));
        reveal_strlit("\u{258C}");
    }
    let mut display = String::from_str(before);
    display.append("\u{258C}");
    display.append(after);
    assert(display@ =~= caret_text(bytes, cursor as int));
    assert(limit == (if cursor_byte < bytes.len() { cursor_byte as int } else { bytes.len() as int }));
    assert(is_char_boundary(bytes, cursor as int));
    assert(is_snapped_cursor(bytes, cursor_byte as int, cursor as int));
    display
}

/// The caret text is the draft with the caret glyph inserted at one
/// character position: removing that glyph gives back the draft exactly.
pub proof fn law_caret_text_inserts_one_glyph(text: Seq<char>, c: int)
    requires
        is_char_boundary(encode_utf8(text), c),
    ensures
        ({
            let k = decode_utf8(encode_utf8(text).subrange(0, c)).len() as int;
            let shown = caret_text(encode_utf8(text), c);
            &&& 0 <= k < shown.len()
            &&& shown[k] == CARET_GLYPH
            &&& shown.remove(k) == text
        }),
{
    let b = encode_utf8(text);
    vstd::utf8::decode_utf8_split(b, c);
    let pre = decode_utf8(b.subrange(0, c));
    let post = decode_utf8(b.subrange(c, b.len() as int));
    let k = pre.len() as int;
    let shown = caret_text(b, c);
    assert(shown.remove(k) =~= pre + post);
}

/// The draft state echoed locally by the compositor while the composer is
/// focused.
#[derive(Debug, Clone)]
pub struct LocalComposerState {
    /// Draft text.
    pub text: String,
    /// Caret position as a byte offset into `text`.
    pub cursor_byte: usize,
    /// Selection anchor as a byte offset into `text` (equal to `cursor_byte`
    /// when no selection is active).
    pub selection_anchor: usize,
    /// True when the draft buffer has reached its byte capacity.
    pub at_capacity: bool,
    /// The hit-region node that owns this composer region.
    pub node_id: SceneId,
}

/// Apply one drain cycle of the single-slot composer hand-off.
///
/// - `slot` holds `None`: `current` is left unchanged;
/// - `slot` holds `Some(None)`: `current` is cleared (deactivation);
/// - `slot` holds `Some(Some(s))`: `current` is replaced with `s`.
///
/// The slot is left empty. Returns `true` exactly when a new draft state was
/// applied (the caller then resets the caret blink phase).
pub fn apply_composer_slot(
    slot: &mut Option<Option<LocalComposerState>>,
    current: &mut Option<LocalComposerState>,
) -> (new_draft: bool)
    ensures
        *final(slot) is None,
        match *old(slot) {
            None => *final(current) == *old(current) && !new_draft,
            Some(update) => *final(current) == update && new_draft == update is Some,
        },
{
    if let Some(update) = slot.take() {
        let is_new_draft = update.is_some();
        *current = update;
        return is_new_draft;
    }
    false
}

/// The locally echoed composer draft, refreshed once per frame from the
/// single-slot hand-off written by the input thread.
pub struct ComposerEcho {
    /// The draft currently shown, if the composer is active.
    pub local_composer: Option<LocalComposerState>,
}

impl ComposerEcho {
    /// No active composer.
    pub fn new() -> (e: Self)
        ensures
            e.local_composer is None,
    {
        ComposerEcho { local_composer: None }
    }

    /// Drain any pending update from `slot` (see [`apply_composer_slot`]);
    /// returns `true` when a new draft was applied.
    pub fn drain_local_composer_state(&mut self, slot: &mut Option<Option<LocalComposerState>>) -> (new_draft: bool)
        ensures
            *final(slot) is None,
            match *old(slot) {
                None => final(self).local_composer == old(self).local_composer && !new_draft,
                Some(update) => final(self).local_composer == update && new_draft
                    == update is Some,
            },
    {
        apply_composer_slot(slot, &mut self.local_composer)
    }

    /// Drain the slot and report whether the frame must render on the
    /// composer's behalf: while a composer is active (its caret blinks) and on
    /// the single frame on which it deactivates.
    pub fn drain_local_composer_and_needs_render(
        &mut self,
        slot: &mut Option<Option<LocalComposerState>>,
    ) -> (needs_render: bool)
        ensures
            *final(slot) is None,
            match *old(slot) {
                None => final(self).local_composer == old(self).local_composer,
                Some(update) => final(self).local_composer == update,
            },
            needs_render == (old(self).local_composer is Some
                || final(self).local_composer is Some),
    {
        let was_active = self.local_composer.is_some();
        let _ = self.drain_local_composer_state(slot);
        let is_active = self.local_composer.is_some();
        is_active || was_active
    }
}

/// Number of text lines the composer box shows for a wrapped draft: the box
/// grows from one line up to `max_lines` (at least one).
pub fn composer_visible_line_count(total_lines: usize, max_lines: usize) -> (n: usize)
    ensures
        n == (if total_lines < 1 {
            1
        } else if total_lines > (if max_lines < 1 { 1 } else { max_lines }) {
            if max_lines < 1 { 1 } else { max_lines }
        } else {
            total_lines
        }),
{
    let upper = if max_lines < 1 { 1 } else { max_lines };
    if total_lines < 1 {
        1
    } else if total_lines > upper {
        upper
    } else {
        total_lines
    }
}

/// First visible wrapped line of the bounded composer window: no scroll when
/// the draft fits, otherwise the caret line is pinned to the bottom visible
/// line as the draft grows.
pub open spec fn vertical_line_offset(caret_line: int, total_lines: int, max_lines: int) -> int {
    let m = if max_lines < 1 { 1 } else { max_lines };
    if total_lines <= m {
        0
    } else {
        let desired = if caret_line >= m - 1 { caret_line - (m - 1) } else { 0 };
        if desired < total_lines - m { desired } else { total_lines - m }
    }
}

/// First visible wrapped line (count scrolled off the top) so the caret line
/// stays visible inside the bounded `max_lines` window.
pub fn composer_vertical_line_offset(caret_line: usize, total_lines: usize, max_lines: usize) -> (first: usize)
    ensures
        first == vertical_line_offset(caret_line as int, total_lines as int, max_lines as int),
{
    let max_lines = if max_lines < 1 { 1 } else { max_lines };
    if total_lines <= max_lines {
        return 0;
    }
    let max_first = total_lines - max_lines;
    let desired = caret_line.saturating_sub(max_lines - 1);
    if desired < max_first { desired } else { max_first }
}

/// A draft that fits in the window (at most `max(max_lines, 1)` lines) is
/// never scrolled, wherever the caret is; a longer draft with the caret in
/// the first window is not scrolled either, and one with the caret on its
/// last line shows exactly its last window.
pub proof fn law_fitting_draft_never_scrolls(caret_line: int, total_lines: int, max_lines: int)
    requires
        0 <= caret_line < total_lines,
    ensures
        ({
            let m = if max_lines < 1 { 1 } else { max_lines };
            &&& total_lines <= m ==> vertical_line_offset(caret_line, total_lines, max_lines) == 0
            &&& caret_line < m ==> vertical_line_offset(caret_line, total_lines, max_lines) == 0
            &&& total_lines > m && caret_line == total_lines - 1 ==> vertical_line_offset(
                caret_line,
                total_lines,
                max_lines,
            ) == total_lines - m
        }),
{
}

/// The vertical window never scrolls past the last full window, and a caret
/// on an existing line is always inside the visible window.
pub proof fn law_caret_line_stays_visible(caret_line: int, total_lines: int, max_lines: int)
    requires
        0 <= caret_line < total_lines,
    ensures
        ({
            let m = if max_lines < 1 { 1 } else { max_lines };
            let first = vertical_line_offset(caret_line, total_lines, max_lines);
            &&& 0 <= first
            &&& total_lines > m ==> first + m <= total_lines
            &&& first <= caret_line < first + m
        }),
{
}

} // verus!
