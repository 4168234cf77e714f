use tze_hud_compositor::composer::{
    apply_composer_slot, caret_visible_at, composer_display_text, composer_display_text_blink,
    composer_vertical_line_offset, composer_visible_line_count, ComposerEcho, LocalComposerState,
    CARET_BLINK_HALF_PERIOD_NANOS,
};
use tze_hud_compositor::scene_id::SceneId;

fn draft(text: &str, cursor_byte: usize) -> LocalComposerState {
    LocalComposerState {
        text: text.to_string(),
        cursor_byte,
        selection_anchor: cursor_byte,
        at_capacity: false,
        node_id: SceneId::from_raw(7),
    }
}

#[test]
fn caret_is_solid_then_hidden_each_half_period() {
    let half = CARET_BLINK_HALF_PERIOD_NANOS;
    assert_eq!(half, 530_000_000);
    assert!(caret_visible_at(0));
    assert!(caret_visible_at(half - 1));
    assert!(!caret_visible_at(half));
    assert!(!caret_visible_at(2 * half - 1));
    assert!(caret_visible_at(2 * half));
    assert!(!caret_visible_at(3 * half + 5));
}

#[test]
fn caret_blink_repeats_every_full_period() {
    let half = CARET_BLINK_HALF_PERIOD_NANOS;
    for t in [0u128, 1, half - 1, half, half + 17, 2 * half - 1] {
        assert_eq!(caret_visible_at(t), caret_visible_at(t + 2 * half));
        assert_eq!(caret_visible_at(t), caret_visible_at(t + 10 * half));
    }
}

#[test]
fn caret_inserted_at_cursor() {
    assert_eq!(composer_display_text("hello", 2), "he\u{258C}llo");
    assert_eq!(composer_display_text("hello", 0), "\u{258C}hello");
    assert_eq!(composer_display_text("hello", 5), "hello\u{258C}");
    assert_eq!(composer_display_text("", 0), "\u{258C}");
}

#[test]
fn caret_cursor_past_end_is_clamped() {
    assert_eq!(composer_display_text("abc", 99), "abc\u{258C}");
}

#[test]
fn caret_cursor_inside_multibyte_char_snaps_down() {
    // 'é' occupies bytes 1..3.
    assert_eq!(composer_display_text("aéb", 2), "a\u{258C}éb");
    assert_eq!(composer_display_text("aéb", 3), "aé\u{258C}b");
    // '€' occupies bytes 0..3.
    assert_eq!(composer_display_text("€", 1), "\u{258C}€");
    assert_eq!(composer_display_text("€", 2), "\u{258C}€");
}

#[test]
fn hidden_caret_shows_draft_only() {
    assert_eq!(composer_display_text_blink("hello", 2, false), "hello");
    assert_eq!(composer_display_text_blink("hello", 2, true), "he\u{258C}llo");
}

#[test]
fn caret_text_removing_glyph_gives_draft_back() {
    let shown = composer_display_text("añb", 2);
    assert_eq!(shown.chars().count(), "añb".chars().count() + 1);
    assert_eq!(shown.replace('\u{258C}', ""), "añb");
}

#[test]
fn empty_slot_keeps_current_state() {
    let mut slot: Option<Option<LocalComposerState>> = None;
    let mut current = Some(draft("hi", 2));
    assert!(!apply_composer_slot(&mut slot, &mut current));
    assert_eq!(current.as_ref().map(|s| s.text.as_str()), Some("hi"));
}

#[test]
fn deactivation_clears_current_state() {
    let mut slot = Some(None);
    let mut current = Some(draft("hi", 2));
    assert!(!apply_composer_slot(&mut slot, &mut current));
    assert!(current.is_none());
    assert!(slot.is_none());
}

#[test]
fn new_draft_replaces_current_state() {
    let mut slot = Some(Some(draft("new", 1)));
    let mut current = Some(draft("old", 0));
    assert!(apply_composer_slot(&mut slot, &mut current));
    let s = current.expect("draft applied");
    assert_eq!(s.text, "new");
    assert_eq!(s.cursor_byte, 1);
    assert!(slot.is_none());
}

#[test]
fn composer_echo_renders_while_active_and_on_deactivation() {
    let mut echo = ComposerEcho::new();
    let mut slot: Option<Option<LocalComposerState>> = None;
    assert!(!echo.drain_local_composer_and_needs_render(&mut slot));

    let mut slot = Some(Some(draft("x", 1)));
    assert!(echo.drain_local_composer_and_needs_render(&mut slot));
    assert!(echo.local_composer.is_some());

    let mut slot: Option<Option<LocalComposerState>> = None;
    assert!(echo.drain_local_composer_and_needs_render(&mut slot));

    let mut slot = Some(None);
    assert!(echo.drain_local_composer_and_needs_render(&mut slot));
    assert!(echo.local_composer.is_none());

    let mut slot: Option<Option<LocalComposerState>> = None;
    assert!(!echo.drain_local_composer_and_needs_render(&mut slot));
}

#[test]
fn drain_reports_new_draft_only() {
    let mut echo = ComposerEcho::new();
    let mut slot = Some(Some(draft("a", 0)));
    assert!(echo.drain_local_composer_state(&mut slot));
    let mut slot = Some(None);
    assert!(!echo.drain_local_composer_state(&mut slot));
    assert!(echo.local_composer.is_none());
}

#[test]
fn visible_line_count_grows_then_caps() {
    assert_eq!(composer_visible_line_count(0, 4), 1);
    assert_eq!(composer_visible_line_count(1, 4), 1);
    assert_eq!(composer_visible_line_count(3, 4), 3);
    assert_eq!(composer_visible_line_count(9, 4), 4);
    assert_eq!(composer_visible_line_count(9, 0), 1);
}

#[test]
fn vertical_offset_pins_caret_to_bottom_line() {
    // Fits: no scroll.
    assert_eq!(composer_vertical_line_offset(2, 3, 4), 0);
    // Caret in the first window.
    assert_eq!(composer_vertical_line_offset(1, 10, 4), 0);
    // Caret at the end of a long draft: last window.
    assert_eq!(composer_vertical_line_offset(9, 10, 4), 6);
    // Caret in the middle: caret on the bottom visible line.
    assert_eq!(composer_vertical_line_offset(5, 10, 4), 2);
    // Zero max lines behaves as one.
    assert_eq!(composer_vertical_line_offset(5, 10, 0), 5);
}

#[test]
fn vertical_offset_keeps_caret_visible() {
    for total in 1usize..12 {
        for max in 0usize..6 {
            let m = max.max(1);
            for caret in 0..total {
                let first = composer_vertical_line_offset(caret, total, max);
                assert!(first <= caret && caret < first + m);
                if total > m {
                    assert!(first + m <= total);
                }
            }
        }
    }
}
