use tze_hud_compositor::token_colors::{
    composer_anchor, composer_max_lines, parse_u32, ComposerVerticalAnchor,
    COMPOSER_DEFAULT_MAX_LINES,
    notification_urgency_token_key, parse_hex_color_channels, severity_token_key,
    status_bar_icon_prefix,
};

#[test]
fn six_digit_hex_is_opaque() {
    assert_eq!(parse_hex_color_channels("#ff8000"), Some([255, 128, 0, 255]));
    assert_eq!(parse_hex_color_channels("#000000"), Some([0, 0, 0, 255]));
}

#[test]
fn eight_digit_hex_carries_alpha() {
    assert_eq!(parse_hex_color_channels("#10203040"), Some([16, 32, 48, 64]));
    assert_eq!(parse_hex_color_channels("#FFFFFF00"), Some([255, 255, 255, 0]));
}

#[test]
fn digits_of_either_case() {
    assert_eq!(parse_hex_color_channels("#aBcDeF"), Some([0xab, 0xcd, 0xef, 255]));
}

#[test]
fn surrounding_whitespace_is_ignored() {
    assert_eq!(parse_hex_color_channels("  #101010\n"), Some([16, 16, 16, 255]));
    assert_eq!(parse_hex_color_channels("\t#f0f0f0 "), Some([240, 240, 240, 255]));
    assert_eq!(parse_hex_color_channels("\u{3000}#010203\u{00A0}"), Some([1, 2, 3, 255]));
}

#[test]
fn malformed_values_are_rejected() {
    assert_eq!(parse_hex_color_channels(""), None);
    assert_eq!(parse_hex_color_channels("#"), None);
    assert_eq!(parse_hex_color_channels("ff8000"), None);
    assert_eq!(parse_hex_color_channels("#ff800"), None);
    assert_eq!(parse_hex_color_channels("#ff80000"), None);
    assert_eq!(parse_hex_color_channels("#ff8000000"), None);
    assert_eq!(parse_hex_color_channels("#gg0000"), None);
    assert_eq!(parse_hex_color_channels("# ff800"), None);
    assert_eq!(parse_hex_color_channels("#ff80é0"), None);
    assert_eq!(parse_hex_color_channels("#-f0000"), None);
    assert_eq!(parse_hex_color_channels("red"), None);
}

#[test]
fn sign_characters_are_not_hex_digits() {
    assert_eq!(parse_hex_color_channels("#+F+F+F"), None);
    assert_eq!(parse_hex_color_channels("#+f0000"), None);
    assert_eq!(parse_hex_color_channels("#00+a00+1"), None);
    assert_eq!(parse_hex_color_channels("#++0000"), None);
}

#[test]
fn status_bar_prefixes_for_known_keys() {
    assert_eq!(status_bar_icon_prefix("battery"), "🔋");
    assert_eq!(status_bar_icon_prefix("wifi"), "📶");
    assert_eq!(status_bar_icon_prefix("network"), "📶");
    assert_eq!(status_bar_icon_prefix("cpu"), "🖥");
    assert_eq!(status_bar_icon_prefix("memory"), "💾");
    assert_eq!(status_bar_icon_prefix("mem"), "💾");
    assert_eq!(status_bar_icon_prefix("time"), "🕐");
    assert_eq!(status_bar_icon_prefix("clock"), "🕐");
    assert_eq!(status_bar_icon_prefix("weather"), "☀");
    assert_eq!(status_bar_icon_prefix("temperature"), "🌡");
    assert_eq!(status_bar_icon_prefix("temp"), "🌡");
}

#[test]
fn status_bar_prefix_empty_for_other_keys() {
    assert_eq!(status_bar_icon_prefix(""), "");
    assert_eq!(status_bar_icon_prefix("Battery"), "");
    assert_eq!(status_bar_icon_prefix("disk"), "");
}

#[test]
fn severity_tokens_by_urgency() {
    assert_eq!(severity_token_key(0), "color.severity.info");
    assert_eq!(severity_token_key(1), "color.severity.info");
    assert_eq!(severity_token_key(2), "color.severity.warning");
    assert_eq!(severity_token_key(3), "color.severity.critical");
    // Only exactly 3 is critical for the alert banner.
    assert_eq!(severity_token_key(4), "color.severity.info");
}

#[test]
fn notification_tokens_clamp_to_critical() {
    assert_eq!(notification_urgency_token_key(0), "color.notification.urgency.low");
    assert_eq!(notification_urgency_token_key(1), "color.notification.urgency.normal");
    assert_eq!(notification_urgency_token_key(2), "color.notification.urgency.urgent");
    assert_eq!(notification_urgency_token_key(3), "color.notification.urgency.critical");
    assert_eq!(notification_urgency_token_key(u32::MAX), "color.notification.urgency.critical");
}

#[test]
fn composer_anchor_top_only_when_token_says_top() {
    assert_eq!(composer_anchor(Some("top")), ComposerVerticalAnchor::Top);
    assert_eq!(composer_anchor(Some("  TOP\n")), ComposerVerticalAnchor::Top);
    assert_eq!(composer_anchor(Some("Top")), ComposerVerticalAnchor::Top);
    assert_eq!(composer_anchor(Some("bottom")), ComposerVerticalAnchor::Bottom);
    assert_eq!(composer_anchor(Some("t op")), ComposerVerticalAnchor::Bottom);
    assert_eq!(composer_anchor(Some("")), ComposerVerticalAnchor::Bottom);
    assert_eq!(composer_anchor(None), ComposerVerticalAnchor::Bottom);
}

#[test]
fn u32_parse_matches_std() {
    for s in ["0", "7", "+7", "007", "4294967295", "4294967296", "", "+", "-1", " 1", "1 ", "12a", "99999999999999999999"] {
        assert_eq!(parse_u32(s), s.parse::<u32>().ok(), "input {s:?}");
    }
}

#[test]
fn composer_max_lines_rejects_zero_and_malformed() {
    assert_eq!(COMPOSER_DEFAULT_MAX_LINES, 6);
    assert_eq!(composer_max_lines(Some("3")), 3);
    assert_eq!(composer_max_lines(Some("+12")), 12);
    assert_eq!(composer_max_lines(Some("0")), 6);
    assert_eq!(composer_max_lines(Some("-2")), 6);
    assert_eq!(composer_max_lines(Some("many")), 6);
    assert_eq!(composer_max_lines(Some(" 3")), 6);
    assert_eq!(composer_max_lines(None), 6);
}
