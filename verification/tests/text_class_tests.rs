use pptx_editor_engine::text_class::{
    hangs_opening_glyph, is_east_asian_text, is_hanging_closing_punctuation,
    is_hanging_opening_punctuation, is_vertical_compact_char, is_vertical_fullwidth_char,
    is_vertical_horizontal_char, is_vertical_rotated_char, should_rotate_vertical_run,
};

#[test]
fn east_asian_text_is_recognised() {
    assert!(!is_east_asian_text("Hello, world"));
    assert!(is_east_asian_text("门户统一"));
    assert!(is_east_asian_text("abc한"));
    assert!(is_east_asian_text("カナ"));
    assert!(!is_east_asian_text(""));
    // Full-width punctuation alone does not make a text East Asian.
    assert!(!is_east_asian_text("，。"));
}

#[test]
fn vertical_character_classes() {
    assert!(is_vertical_horizontal_char('A'));
    assert!(is_vertical_horizontal_char('7'));
    assert!(!is_vertical_horizontal_char('-'));
    assert!(is_vertical_rotated_char('-'));
    assert!(!is_vertical_rotated_char('\n'));
    assert!(!is_vertical_rotated_char('中'));
    assert!(is_vertical_compact_char('A'));
    assert!(is_vertical_compact_char('\u{2014}'));
    assert!(!is_vertical_compact_char('中'));
    assert!(is_vertical_fullwidth_char('中'));
    assert!(is_vertical_fullwidth_char('。'));
    assert!(is_vertical_fullwidth_char('！'));
    assert!(!is_vertical_fullwidth_char('A'));
}

#[test]
fn classes_nest_on_samples() {
    for ch in ['a', 'Z', '0', '.', ' ', '中', '。', '\u{2026}', '\t', 'é'] {
        if is_vertical_horizontal_char(ch) {
            assert!(is_vertical_rotated_char(ch));
        }
        if is_vertical_rotated_char(ch) {
            assert!(is_vertical_compact_char(ch));
        }
        assert!(!(is_vertical_compact_char(ch) && is_vertical_fullwidth_char(ch)));
    }
}

#[test]
fn rotated_runs() {
    assert!(should_rotate_vertical_run("中A"));
    assert!(!should_rotate_vertical_run("中文"));
    assert!(!should_rotate_vertical_run(""));
}

#[test]
fn hanging_punctuation_classes() {
    assert!(is_hanging_closing_punctuation('，'));
    assert!(is_hanging_closing_punctuation('.'));
    assert!(is_hanging_closing_punctuation('」'));
    assert!(!is_hanging_closing_punctuation('（'));
    assert!(is_hanging_opening_punctuation('（'));
    assert!(is_hanging_opening_punctuation('“'));
    assert!(is_hanging_opening_punctuation('<'));
    assert!(!is_hanging_opening_punctuation('a'));
}

#[test]
fn opening_glyph_hangs_only_at_line_start() {
    assert!(hangs_opening_glyph(true, 0, "（中"));
    assert!(!hangs_opening_glyph(true, 1, "（"));
    assert!(!hangs_opening_glyph(false, 0, "（"));
    assert!(!hangs_opening_glyph(true, 0, ""));
    assert!(!hangs_opening_glyph(true, 0, "中（"));
}
