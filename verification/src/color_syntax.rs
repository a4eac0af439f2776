//! Reading the colour strings of the slide description: `#rrggbb` hex
//! colours and `rgba(r, g, b, alpha)` colours.
use vstd::prelude::*;
use vstd::string::StrSliceExecFns;
use vstd::string::StringSliceAdditionalSpecFns;
use vstd::utf8::is_char_boundary;
use crate::char_seq::{
    all_digits, decimal_value, is_digit_char, lemma_split_on_concat, lemma_split_on_nonempty,
    lemma_split_on_single, parse_u8_decimal, parse_u8_range, range_texts, split_on, split_ranges,
    str_chars, trim, trim_end, trim_range, trim_start, unsigned_digits,
};

verus! {

/// The value of one hexadecimal digit byte (`0-9`, `a-f`, `A-F`).
pub open spec fn hex_digit_value(b: u8) -> Option<u8> {
    if 48 <= b <= 57 {
        Some((b - 48) as u8)
    } else if 97 <= b <= 102 {
        Some((b - 87) as u8)
    } else if 65 <= b <= 70 {
        Some((b - 55) as u8)
    } else {
        None
    }
}

/// The `u8` that `u8::from_str_radix(_, 16)` reads from a two-byte text: two
/// hex digits, or a `+` followed by one hex digit.
pub open spec fn hex_pair_value(hi: u8, lo: u8) -> Option<u8> {
    if hi == 43 {
        hex_digit_value(lo)
    } else {
        match (hex_digit_value(hi), hex_digit_value(lo)) {
            (Some(h), Some(l)) => Some((h * 16 + l) as u8),
            _ => None,
        }
    }
}

/// The red, green and blue channels of a `#rrggbb` colour, given as the
/// UTF-8 bytes of the text.
pub open spec fn hex_rgb(bytes: Seq<u8>) -> Option<(u8, u8, u8)> {
    if bytes.len() == 7 && bytes[0] == 35 {
        match (
            hex_pair_value(bytes[1], bytes[2]),
            hex_pair_value(bytes[3], bytes[4]),
            hex_pair_value(bytes[5], bytes[6]),
        ) {
            (Some(r), Some(g), Some(b)) => Some((r, g, b)),
            _ => None,
        }
    } else {
        None
    }
}

/// A seven-byte text that starts with `#` is cut into its channel pairs at
/// bytes 3 and 5; those cuts must fall between characters.
pub open spec fn hex_cuts_on_char_boundaries(bytes: Seq<u8>) -> bool {
    (bytes.len() == 7 && bytes[0] == 35) ==> (is_char_boundary(bytes, 3) && is_char_boundary(
        bytes,
        5,
    ))
}

/// The characters `rgba(`.
pub open spec fn rgba_prefix() -> Seq<char> {
    seq!['r', 'g', 'b', 'a', '(']
}

/// The channels of an `rgba(r, g, b, alpha)` colour: the text between
/// `rgba(` and the final `)` splits on `,` into four pieces; the first three,
/// trimmed, are decimal `u8`s, and the fourth, trimmed, is the alpha text.
pub open spec fn rgba_parts(c: Seq<char>) -> Option<(u8, u8, u8, Seq<char>)> {
    if c.len() >= 6 && c.take(5) == rgba_prefix() && c.last() == ')' {
        let parts = split_on(c.subrange(5, c.len() - 1), ',');
        if parts.len() == 4 {
            match (
                parse_u8_decimal(trim(parts[0])),
                parse_u8_decimal(trim(parts[1])),
                parse_u8_decimal(trim(parts[2])),
            ) {
                (Some(r), Some(g), Some(b)) => Some((r, g, b, trim(parts[3]))),
                _ => None,
            }
        } else {
            None
        }
    } else {
        None
    }
}

/// What a text colour string says, before its alpha text is read as a number.
#[derive(Debug, Clone, PartialEq, Eq)]
pub enum TextColorSyntax {
    /// `#rrggbb`.
    Hex { red: u8, green: u8, blue: u8 },
    /// `rgba(r, g, b, alpha)` with the alpha component still as text.
    Rgba { red: u8, green: u8, blue: u8, alpha: String },
    /// Anything else; it is drawn black.
    Unrecognized,
}

fn hex_digit(b: u8) -> (r: Option<u8>)
    ensures
        r == hex_digit_value(b),
{
    if 48 <= b && b <= 57 {
        Some(b - 48)
    } else if 97 <= b && b <= 102 {
        Some(b - 87)
    } else if 65 <= b && b <= 70 {
        Some(b - 55)
    } else {
        None
    }
}

fn hex_pair(hi: u8, lo: u8) -> (r: Option<u8>)
    ensures
        r == hex_pair_value(hi, lo),
{
    if hi == 43 {
        hex_digit(lo)
    } else {
        match (hex_digit(hi), hex_digit(lo)) {
            (Some(h), Some(l)) => Some(h * 16 + l),
            _ => None,
        }
    }
}

fn hex_color(value: &str) -> (r: Option<(u8, u8, u8)>)
    ensures
        r == hex_rgb(value.spec_bytes()),
{
    let bytes = value.as_bytes();
    if bytes.len() == 7 && bytes[0] == 35 {
        match (hex_pair(bytes[1], bytes[2]), hex_pair(bytes[3], bytes[4]), hex_pair(bytes[5], bytes[6])) {
            (Some(r), Some(g), Some(b)) => Some((r, g, b)),
            _ => None,
        }
    } else {
        None
    }
}

/// The RGB colour of a shape effect: the channels of a `#rrggbb` text, and
/// black for any other text.
pub fn parse_effect_rgb(color: &str) -> (rgb: (u8, u8, u8))
    requires
        hex_cuts_on_char_boundaries(color.spec_bytes()),
    ensures
        rgb == match hex_rgb(color.spec_bytes()) {
            Some(c) => c,
            None => (0u8, 0u8, 0u8),
        },
{
    match hex_color(color) {
        Some(c) => c,
        None => (0, 0, 0),
    }
}

/// Reads a text colour string: a `#rrggbb` colour, or else an
/// `rgba(r, g, b, alpha)` colour whose alpha text is handed back for the
/// caller to read as a number, or else neither.
pub fn parse_text_color_syntax(value: &str) -> (r: TextColorSyntax)
    requires
        hex_cuts_on_char_boundaries(value.spec_bytes()),
    ensures
        match hex_rgb(value.spec_bytes()) {
            Some((red, green, blue)) => r == (TextColorSyntax::Hex { red, green, blue }),
            None => match rgba_parts(value@) {
                Some((red, green, blue, alpha)) => r matches TextColorSyntax::Rgba {
                    red: r_red,
                    green: r_green,
                    blue: r_blue,
                    alpha: r_alpha,
                } && r_red == red && r_green == green && r_blue == blue && r_alpha@ == alpha,
                None => r is Unrecognized,
            },
        },
{
    if let Some((red, green, blue)) = hex_color(value) {
        return TextColorSyntax::Hex { red, green, blue };
    }
    let chars = str_chars(value);
    let n = chars.len();
    if n >= 6 && chars[0] == 'r' && chars[1] == 'g' && chars[2] == 'b' && chars[3] == 'a'
        && chars[4] == '(' && chars[n - 1] == ')' {
        assert(chars@.take(5) =~= rgba_prefix());
        let ranges = split_ranges(&chars, 5, n - 1, ',');
        proof {
            lemma_split_on_nonempty(chars@.subrange(5, n - 1), ',');
        }
        if ranges.len() == 4 {
            let ghost texts = range_texts(chars@, ranges@);
            assert(texts[0] == chars@.subrange(ranges@[0].0 as int, ranges@[0].1 as int));
            assert(texts[1] == chars@.subrange(ranges@[1].0 as int, ranges@[1].1 as int));
            assert(texts[2] == chars@.subrange(ranges@[2].0 as int, ranges@[2].1 as int));
            assert(texts[3] == chars@.subrange(ranges@[3].0 as int, ranges@[3].1 as int));
            let (a0, b0) = trim_range(&chars, ranges[0].0, ranges[0].1);
            let (a1, b1) = trim_range(&chars, ranges[1].0, ranges[1].1);
            let (a2, b2) = trim_range(&chars, ranges[2].0, ranges[2].1);
            let (a3, b3) = trim_range(&chars, ranges[3].0, ranges[3].1);
            let red = parse_u8_range(&chars, a0, b0);
            let green = parse_u8_range(&chars, a1, b1);
            let blue = parse_u8_range(&chars, a2, b2);
            if let (Some(red), Some(green), Some(blue)) = (red, green, blue) {
                let alpha_text = value.substring_char(a3, b3);
                let alpha = alpha_text.to_owned();
                return TextColorSyntax::Rgba { red, green, blue, alpha };
            }
        }
    }
    TextColorSyntax::Unrecognized
}

/// The byte of hexadecimal digit `d` (`0..16`), lower- or upper-case.
pub open spec fn hex_digit_byte(d: u8, upper: bool) -> u8 {
    if d < 10 {
        (48 + d) as u8
    } else if upper {
        (55 + d) as u8
    } else {
        (87 + d) as u8
    }
}

/// The bytes of the colour text `#rrggbb`.
pub open spec fn hex_text(r: u8, g: u8, b: u8, upper: bool) -> Seq<u8> {
    seq![
        35u8,
        hex_digit_byte(r / 16, upper),
        hex_digit_byte(r % 16, upper),
        hex_digit_byte(g / 16, upper),
        hex_digit_byte(g % 16, upper),
        hex_digit_byte(b / 16, upper),
        hex_digit_byte(b % 16, upper),
    ]
}

proof fn lemma_hex_pair_round_trip(v: u8, upper: bool)
    ensures
        hex_pair_value(hex_digit_byte(v / 16, upper), hex_digit_byte(v % 16, upper)) == Some(v),
{
    assert(v / 16 < 16 && v % 16 < 16);
    assert((v / 16) * 16 + v % 16 == v);
}

/// A colour written as `#rrggbb` in lower- or upper-case hexadecimal reads
/// back as the same channels.
pub proof fn lemma_hex_color_round_trip(r: u8, g: u8, b: u8, upper: bool)
    ensures
        hex_rgb(hex_text(r, g, b, upper)) == Some((r, g, b)),
{
    lemma_hex_pair_round_trip(r, upper);
    lemma_hex_pair_round_trip(g, upper);
    lemma_hex_pair_round_trip(b, upper);
}

/// The character of decimal digit `d` (`0..10`).
pub open spec fn digit_char(d: int) -> char {
    seq!['0', '1', '2', '3', '4', '5', '6', '7', '8', '9'][d]
}

/// The decimal text of `v`, without leading zeros.
pub open spec fn decimal_text(v: nat) -> Seq<char>
    decreases v,
{
    if v < 10 {
        seq![digit_char(v as int)]
    } else {
        decimal_text(v / 10).push(digit_char((v % 10) as int))
    }
}

proof fn lemma_digit_char(d: int)
    requires
        0 <= d < 10,
    ensures
        is_digit_char(digit_char(d)),
        digit_char(d) as int == '0' as int + d,
{
    if d == 0 {
        assert(digit_char(d) == '0');
    } else if d == 1 {
        assert(digit_char(d) == '1');
    } else if d == 2 {
        assert(digit_char(d) == '2');
    } else if d == 3 {
        assert(digit_char(d) == '3');
    } else if d == 4 {
        assert(digit_char(d) == '4');
    } else if d == 5 {
        assert(digit_char(d) == '5');
    } else if d == 6 {
        assert(digit_char(d) == '6');
    } else if d == 7 {
        assert(digit_char(d) == '7');
    } else if d == 8 {
        assert(digit_char(d) == '8');
    } else {
        assert(digit_char(d) == '9');
    }
}

proof fn lemma_decimal_text(v: nat)
    ensures
        decimal_text(v).len() > 0,
        all_digits(decimal_text(v)),
        decimal_value(decimal_text(v)) == v,
    decreases v,
{
    if v < 10 {
        lemma_digit_char(v as int);
        let t = decimal_text(v);
        assert(t.drop_last() =~= Seq::<char>::empty());
        assert(decimal_value(t.drop_last()) == 0);
        assert(decimal_value(t) == v);
    } else {
        lemma_decimal_text(v / 10);
        lemma_digit_char((v % 10) as int);
        let t = decimal_text(v);
        assert(t.drop_last() =~= decimal_text(v / 10));
        assert(t.last() == digit_char((v % 10) as int));
        assert(v == (v / 10) * 10 + v % 10);
        assert(decimal_value(t) == decimal_value(decimal_text(v / 10)) * 10 + (v % 10));
        assert forall|i: int| 0 <= i < t.len() implies is_digit_char(#[trigger] t[i]) by {
            if i < t.len() - 1 {
                assert(t[i] == decimal_text(v / 10)[i]);
            }
        }
    }
}

/// A channel written in decimal is read back by `str::parse::<u8>`, also
/// after trimming.
pub proof fn lemma_decimal_channel_round_trip(v: u8)
    ensures
        trim(decimal_text(v as nat)) == decimal_text(v as nat),
        parse_u8_decimal(decimal_text(v as nat)) == Some(v),
        forall|i: int| 0 <= i < decimal_text(v as nat).len() ==> #[trigger] decimal_text(v as nat)[i] != ',',
{
    let t = decimal_text(v as nat);
    lemma_decimal_text(v as nat);
    assert(is_digit_char(t[0]));
    assert(is_digit_char(t.last()));
    assert(trim_start(t) == t);
    assert(trim_end(t) == t);
    assert(unsigned_digits(t) == t);
    assert forall|i: int| 0 <= i < t.len() implies #[trigger] t[i] != ',' by {
        assert(is_digit_char(t[i]));
    }
}

/// The text `rgba(r,g,b,alpha)` with the channels in decimal.
pub open spec fn rgba_text(r: u8, g: u8, b: u8, alpha: Seq<char>) -> Seq<char> {
    rgba_prefix() + decimal_text(r as nat) + seq![','] + decimal_text(g as nat) + seq![',']
        + decimal_text(b as nat) + seq![','] + alpha + seq![')']
}

/// A colour written as `rgba(r,g,b,alpha)` with decimal channels reads back
/// as the same channels and the trimmed alpha text.
pub proof fn lemma_rgba_color_round_trip(r: u8, g: u8, b: u8, alpha: Seq<char>)
    requires
        forall|i: int| 0 <= i < alpha.len() ==> #[trigger] alpha[i] != ',',
    ensures
        rgba_parts(rgba_text(r, g, b, alpha)) == Some((r, g, b, trim(alpha))),
{
    let dr = decimal_text(r as nat);
    let dg = decimal_text(g as nat);
    let db = decimal_text(b as nat);
    lemma_decimal_channel_round_trip(r);
    lemma_decimal_channel_round_trip(g);
    lemma_decimal_channel_round_trip(b);
    let c = rgba_text(r, g, b, alpha);
    let inner3 = db + seq![','] + alpha;
    let inner2 = dg + seq![','] + inner3;
    let inner = dr + seq![','] + inner2;
    assert(c =~= rgba_prefix() + inner + seq![')']);
    assert(c.take(5) =~= rgba_prefix());
    assert(c.last() == ')');
    assert(c.subrange(5, c.len() - 1) =~= inner);
    lemma_split_on_concat(db, alpha, ',');
    lemma_split_on_concat(dg, inner3, ',');
    lemma_split_on_concat(dr, inner2, ',');
    lemma_split_on_single(dr, ',');
    lemma_split_on_single(dg, ',');
    lemma_split_on_single(db, ',');
    lemma_split_on_single(alpha, ',');
    let parts = split_on(inner, ',');
    assert(parts =~= seq![dr, dg, db, alpha]);
}

} // verus!
