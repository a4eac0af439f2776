use pptx_editor_engine::ast::{default_align, default_font_family, Bullet};
use pptx_editor_engine::font_catalog::sorted_family_names;
use pptx_editor_engine::shape_style::{
    coverage_alpha, fills_plain_shape, line_dash_pattern, shape_kind, ShapeKind,
};
use pptx_editor_engine::text_box::{
    allows_vertical_overflow, clips_to_shape, is_vertical_text, renders_layout_height,
    shrinks_text_to_fit, vertical_anchor, TextBodyFlags, VerticalAnchor,
};

fn body(anchor: &str, auto_fit: &str, overflow: &str, direction: &str) -> TextBodyFlags {
    TextBodyFlags {
        vertical_anchor: anchor.to_string(),
        auto_fit: auto_fit.to_string(),
        vertical_overflow: overflow.to_string(),
        text_direction: direction.to_string(),
    }
}

#[test]
fn text_box_decisions() {
    let fixed = body("middle", "none", "clip", "horz");
    assert!(clips_to_shape(Some(&fixed)));
    assert!(!renders_layout_height(Some(&fixed)));
    assert!(!allows_vertical_overflow(Some(&fixed)));
    assert_eq!(vertical_anchor(Some(&fixed)), VerticalAnchor::Middle);
    assert!(!is_vertical_text(Some(&fixed)));

    let grows = body("bottom", "shape", "clip", "eaVert");
    assert!(!clips_to_shape(Some(&grows)));
    assert!(renders_layout_height(Some(&grows)));
    assert_eq!(vertical_anchor(Some(&grows)), VerticalAnchor::Bottom);
    assert!(is_vertical_text(Some(&grows)));

    let shrink = body("t", "shrink", "overflow", "horz");
    assert!(shrinks_text_to_fit(Some(&shrink)));
    assert!(!clips_to_shape(Some(&shrink)));
    assert_eq!(vertical_anchor(Some(&shrink)), VerticalAnchor::Top);

    assert!(!clips_to_shape(None));
    assert!(renders_layout_height(None));
    assert!(allows_vertical_overflow(None));
    assert!(!shrinks_text_to_fit(None));
    assert!(!is_vertical_text(None));
    assert_eq!(vertical_anchor(None), VerticalAnchor::Top);
}

#[test]
fn clipping_matches_render_height() {
    for fit in ["none", "shape", "shrink", ""] {
        for overflow in ["overflow", "clip", "ellipsis", ""] {
            let b = body("top", fit, overflow, "horz");
            assert_eq!(clips_to_shape(Some(&b)), !renders_layout_height(Some(&b)));
        }
    }
}

#[test]
fn dash_patterns() {
    assert_eq!(line_dash_pattern("dot"), Some(vec![1, 3]));
    assert_eq!(line_dash_pattern("sysDash"), Some(vec![6, 4]));
    assert_eq!(line_dash_pattern("lgDash"), Some(vec![8, 4]));
    assert_eq!(line_dash_pattern("sysDashDot"), Some(vec![6, 4, 1, 4]));
    assert_eq!(line_dash_pattern("lgDashDot"), Some(vec![8, 4, 1, 4]));
    assert_eq!(line_dash_pattern("dashDotDot"), Some(vec![6, 4, 1, 4, 1, 4]));
    assert_eq!(line_dash_pattern("lgDashDotDot"), Some(vec![8, 4, 1, 4, 1, 4]));
    assert_eq!(line_dash_pattern("solid"), None);
}

#[test]
fn shape_kinds_and_fills() {
    assert_eq!(shape_kind("roundRect"), ShapeKind::RoundRect);
    assert_eq!(shape_kind("upArrow"), ShapeKind::UpArrow);
    assert_eq!(shape_kind("line"), ShapeKind::Line);
    assert_eq!(shape_kind("star5"), ShapeKind::Rect);
    assert!(fills_plain_shape("rect", "#ff0000"));
    assert!(!fills_plain_shape("rect", "transparent"));
    assert!(!fills_plain_shape("line", "#ff0000"));
    assert_eq!(coverage_alpha(0), 0);
    assert_eq!(coverage_alpha(2), 128);
    assert_eq!(coverage_alpha(4), 255);
}

#[test]
fn family_catalog_is_sorted_and_unique() {
    let names = vec![
        "Noto Sans".to_string(),
        "Arial".to_string(),
        "Noto Sans".to_string(),
        "Zed".to_string(),
        "Aptos".to_string(),
    ];
    assert_eq!(
        sorted_family_names(&names),
        vec!["Aptos".to_string(), "Arial".to_string(), "Noto Sans".to_string(), "Zed".to_string()]
    );
    assert!(sorted_family_names(&Vec::new()).is_empty());
}

#[test]
fn style_defaults() {
    assert_eq!(default_align(), "left");
    assert_eq!(default_font_family(), "sans-serif");
    let bullet = Bullet { char: "•".to_string(), color: "#000000".to_string() };
    assert_eq!(bullet.clone(), bullet);
}
