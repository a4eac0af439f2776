use pptx_editor_engine::color_syntax::{parse_effect_rgb, parse_text_color_syntax, TextColorSyntax};

#[test]
fn effect_colours_read_hex() {
    assert_eq!(parse_effect_rgb("#c00000"), (192, 0, 0));
    assert_eq!(parse_effect_rgb("#FFaa09"), (255, 170, 9));
    assert_eq!(parse_effect_rgb("#+f+f+f"), (15, 15, 15));
}

#[test]
fn effect_colours_default_to_black() {
    assert_eq!(parse_effect_rgb("red"), (0, 0, 0));
    assert_eq!(parse_effect_rgb("#12345"), (0, 0, 0));
    assert_eq!(parse_effect_rgb("#1234567"), (0, 0, 0));
    assert_eq!(parse_effect_rgb("#12g456"), (0, 0, 0));
    assert_eq!(parse_effect_rgb(""), (0, 0, 0));
}

#[test]
fn text_colour_hex_form() {
    assert_eq!(
        parse_text_color_syntax("#c00000"),
        TextColorSyntax::Hex { red: 192, green: 0, blue: 0 }
    );
}

#[test]
fn text_colour_rgba_form() {
    assert_eq!(
        parse_text_color_syntax("rgba(1,2,3,0.5)"),
        TextColorSyntax::Rgba { red: 1, green: 2, blue: 3, alpha: "0.5".to_string() }
    );
    assert_eq!(
        parse_text_color_syntax("rgba( 10 , +20 ,030,\t1 )"),
        TextColorSyntax::Rgba { red: 10, green: 20, blue: 30, alpha: "1".to_string() }
    );
    assert_eq!(
        parse_text_color_syntax("rgba(0,0,0,)"),
        TextColorSyntax::Rgba { red: 0, green: 0, blue: 0, alpha: String::new() }
    );
}

#[test]
fn text_colour_unrecognized_forms() {
    assert_eq!(parse_text_color_syntax("rgba(256,0,0,1)"), TextColorSyntax::Unrecognized);
    assert_eq!(parse_text_color_syntax("rgba(1,2,3)"), TextColorSyntax::Unrecognized);
    assert_eq!(parse_text_color_syntax("rgba(1,2,3,4,5)"), TextColorSyntax::Unrecognized);
    assert_eq!(parse_text_color_syntax("rgba(-1,2,3,1)"), TextColorSyntax::Unrecognized);
    assert_eq!(parse_text_color_syntax("rgba(1,2,3,1"), TextColorSyntax::Unrecognized);
    assert_eq!(parse_text_color_syntax("rgb(1,2,3)"), TextColorSyntax::Unrecognized);
    assert_eq!(parse_text_color_syntax("#zz0000"), TextColorSyntax::Unrecognized);
    assert_eq!(parse_text_color_syntax("rgba("), TextColorSyntax::Unrecognized);
}

#[test]
fn hex_text_round_trips() {
    for (r, g, b) in [(0u8, 0u8, 0u8), (255, 128, 7), (18, 52, 86)] {
        let lower = format!("#{:02x}{:02x}{:02x}", r, g, b);
        let upper = format!("#{:02X}{:02X}{:02X}", r, g, b);
        assert_eq!(parse_effect_rgb(&lower), (r, g, b));
        assert_eq!(parse_effect_rgb(&upper), (r, g, b));
        let rgba = format!("rgba({},{},{},0.25)", r, g, b);
        assert_eq!(
            parse_text_color_syntax(&rgba),
            TextColorSyntax::Rgba { red: r, green: g, blue: b, alpha: "0.25".to_string() }
        );
    }
}
