use pptx_editor_engine::paragraph::{
    classify_font_family, is_centered_hanging_paragraph, is_point_spacing, paragraph_align,
    paragraph_wrap_mode, requested_font_family, run_byte_ranges, spans_within,
    split_paragraph_texts, uses_explicit_line_breaks, vertical_token_advance_kind,
    FontFamilyKind, RunSpan, TextAlign, VerticalAdvance, WrapMode,
};

#[test]
fn generic_family_names() {
    assert_eq!(classify_font_family("serif"), FontFamilyKind::Serif);
    assert_eq!(classify_font_family("Sans-Serif"), FontFamilyKind::SansSerif);
    assert_eq!(classify_font_family("SANS SERIF"), FontFamilyKind::SansSerif);
    assert_eq!(classify_font_family("Cursive"), FontFamilyKind::Cursive);
    assert_eq!(classify_font_family("fantasy"), FontFamilyKind::Fantasy);
    assert_eq!(classify_font_family("MonoSpace"), FontFamilyKind::Monospace);
    assert_eq!(classify_font_family("Aptos"), FontFamilyKind::Named);
    assert_eq!(classify_font_family("sansserif"), FontFamilyKind::Named);
}

#[test]
fn east_asian_family_is_used_for_east_asian_text() {
    assert_eq!(requested_font_family("Aptos", "SimSun", "核心"), "SimSun");
    assert_eq!(requested_font_family("Aptos", "SimSun", "core"), "Aptos");
    assert_eq!(requested_font_family("Aptos", "", "核心"), "Aptos");
}

#[test]
fn alignments() {
    assert_eq!(paragraph_align("center"), TextAlign::Center);
    assert_eq!(paragraph_align("right"), TextAlign::Right);
    assert_eq!(paragraph_align("justify"), TextAlign::Left);
    assert!(is_centered_hanging_paragraph(false, false, true, true, "center"));
    assert!(is_centered_hanging_paragraph(false, false, true, true, "right"));
    assert!(!is_centered_hanging_paragraph(false, false, true, true, "left"));
    assert!(!is_centered_hanging_paragraph(false, true, true, true, "center"));
    assert!(!is_centered_hanging_paragraph(true, false, true, true, "center"));
}

#[test]
fn wrapping_modes() {
    assert_eq!(paragraph_wrap_mode(false, "plain words"), WrapMode::Word);
    assert_eq!(paragraph_wrap_mode(true, "plain words"), WrapMode::WordOrGlyph);
    assert_eq!(paragraph_wrap_mode(false, "中文段落"), WrapMode::WordOrGlyph);
    assert!(uses_explicit_line_breaks("中文", true, false, false));
    assert!(uses_explicit_line_breaks("中文", false, true, false));
    assert!(uses_explicit_line_breaks("中文", false, true, true));
    assert!(!uses_explicit_line_breaks("中文", false, false, false));
    // A hanging or first-line indent without a bullet gives the first line
    // its own width, whatever the script.
    assert!(uses_explicit_line_breaks("latin", true, true, false));
    assert!(uses_explicit_line_breaks("latin", false, true, false));
    assert!(!uses_explicit_line_breaks("latin", true, true, true));
    assert!(!uses_explicit_line_breaks("latin", true, false, false));
    assert!(is_point_spacing("points"));
    assert!(!is_point_spacing("percent"));
}

#[test]
fn vertical_advance_kinds() {
    assert_eq!(vertical_token_advance_kind("中文"), VerticalAdvance::FullCell);
    assert_eq!(vertical_token_advance_kind(""), VerticalAdvance::FullCell);
    assert_eq!(vertical_token_advance_kind("AB"), VerticalAdvance::Shaped);
    assert_eq!(vertical_token_advance_kind("A中"), VerticalAdvance::Mixed);
    assert_eq!(vertical_token_advance_kind("é"), VerticalAdvance::Mixed);
}

#[test]
fn plain_content_paragraphs() {
    assert_eq!(split_paragraph_texts("Title"), vec!["Title".to_string()]);
    assert_eq!(
        split_paragraph_texts("a\nbé\n"),
        vec!["a".to_string(), "bé".to_string(), String::new()]
    );
    assert_eq!(split_paragraph_texts(""), vec![String::new()]);
    let content = "一\n\ntwo";
    assert_eq!(split_paragraph_texts(content).join("\n"), content);
}

#[test]
fn run_ranges_and_spans() {
    let ranges = run_byte_ranges(&vec![3, 0, 4, 2]);
    assert_eq!(ranges, vec![(0, 3), (3, 3), (3, 7), (7, 9)]);
    let spans = spans_within(&ranges, 2, 8);
    assert_eq!(
        spans,
        vec![
            RunSpan { run: 0, start: 0, end: 1 },
            RunSpan { run: 2, start: 1, end: 5 },
            RunSpan { run: 3, start: 5, end: 6 },
        ]
    );
    assert!(spans_within(&ranges, 3, 3).is_empty());
}
