use tze_hud_compositor::zone_text::{
    compare_keys, merge_status_bar_entries, status_bar_row_text, status_bar_text,
    stream_reveal_visible_text, FULLY_REVEALED_OFFSET,
};

fn e(k: &str, v: &str) -> (String, String) {
    (k.to_string(), v.to_string())
}

#[test]
fn reveal_shows_prefix_up_to_offset() {
    assert_eq!(stream_reveal_visible_text("hello world", 5), "hello");
    assert_eq!(stream_reveal_visible_text("hello world", 0), "");
    assert_eq!(stream_reveal_visible_text("hello", 99), "hello");
    assert_eq!(stream_reveal_visible_text("hello", FULLY_REVEALED_OFFSET), "hello");
}

#[test]
fn reveal_offset_inside_a_char_snaps_down() {
    // 'é' occupies bytes 1..3, '€' bytes 3..6.
    assert_eq!(stream_reveal_visible_text("aé€b", 2), "a");
    assert_eq!(stream_reveal_visible_text("aé€b", 4), "aé");
    assert_eq!(stream_reveal_visible_text("aé€b", 6), "aé€");
}

#[test]
fn keys_compare_lexicographically() {
    assert!(compare_keys("a", "b") < 0);
    assert!(compare_keys("b", "a") > 0);
    assert_eq!(compare_keys("cpu", "cpu"), 0);
    assert!(compare_keys("mem", "memory") < 0);
    assert!(compare_keys("", "a") < 0);
    assert!(compare_keys("Z", "a") < 0);
    assert!(compare_keys("é", "z") > 0);
}

#[test]
fn merge_keeps_last_value_per_key_sorted() {
    let entries = vec![
        e("wifi", "weak"),
        e("battery", "80%"),
        e("cpu", "12%"),
        e("battery", "79%"),
        e("wifi", "strong"),
    ];
    assert_eq!(
        merge_status_bar_entries(&entries),
        vec![e("battery", "79%"), e("cpu", "12%"), e("wifi", "strong")]
    );
    assert_eq!(merge_status_bar_entries(&[]), Vec::<(String, String)>::new());
}

#[test]
fn merged_keys_sort_like_str() {
    let entries = vec![e("time", "1"), e("temp", "2"), e("Time", "3"), e("te", "4")];
    let merged = merge_status_bar_entries(&entries);
    let keys: Vec<&str> = merged.iter().map(|(k, _)| k.as_str()).collect();
    let mut expected = vec!["time", "temp", "Time", "te"];
    expected.sort();
    assert_eq!(keys, expected);
}

#[test]
fn status_bar_lines_joined_with_newlines() {
    let entries = vec![e("battery", "80%"), e("cpu", "12%")];
    assert_eq!(status_bar_text(&entries), "battery: 80%\ncpu: 12%");
    assert_eq!(status_bar_text(&[e("k", "v")]), "k: v");
    assert_eq!(status_bar_text(&[]), "");
}

#[test]
fn icon_rows_use_emoji_only_without_icon() {
    assert_eq!(status_bar_row_text("battery", "80%", true), "battery: 80%");
    assert_eq!(status_bar_row_text("battery", "80%", false), "🔋 battery: 80%");
    assert_eq!(status_bar_row_text("disk", "1G", false), "disk: 1G");
}
