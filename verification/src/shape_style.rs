//! The outline and fill decisions of shapes: which preset geometry a shape
//! names, whether it is filled, and the dash patterns of its outline.
use vstd::prelude::*;
use crate::char_seq::str_is;

verus! {

/// The dash pattern a preset dash name gives, as dash and gap lengths in
/// units of the line width; `None` for a solid line or an unknown name.
pub open spec fn dash_units(name: Seq<char>) -> Option<Seq<u32>> {
    if name == seq!['d', 'o', 't'] {
        Some(seq![1u32, 3])
    } else if name == seq!['d', 'a', 's', 'h'] || name == seq!['s', 'y', 's', 'D', 'a', 's', 'h'] {
        Some(seq![6u32, 4])
    } else if name == seq!['l', 'g', 'D', 'a', 's', 'h'] {
        Some(seq![8u32, 4])
    } else if name == seq!['d', 'a', 's', 'h', 'D', 'o', 't'] || name == seq![
        's',
        'y',
        's',
        'D',
        'a',
        's',
        'h',
        'D',
        'o',
        't',
    ] {
        Some(seq![6u32, 4, 1, 4])
    } else if name == seq!['l', 'g', 'D', 'a', 's', 'h', 'D', 'o', 't'] {
        Some(seq![8u32, 4, 1, 4])
    } else if name == seq!['d', 'a', 's', 'h', 'D', 'o', 't', 'D', 'o', 't'] || name == seq![
        's',
        'y',
        's',
        'D',
        'a',
        's',
        'h',
        'D',
        'o',
        't',
        'D',
        'o',
        't',
    ] {
        Some(seq![6u32, 4, 1, 4, 1, 4])
    } else if name == seq!['l', 'g', 'D', 'a', 's', 'h', 'D', 'o', 't', 'D', 'o', 't'] {
        Some(seq![8u32, 4, 1, 4, 1, 4])
    } else {
        None
    }
}

/// The dash pattern of a preset dash name in units of the line width. Every
/// pattern alternates dashes and gaps, so it has an even, positive number of
/// positive entries.
pub fn line_dash_pattern(dash: &str) -> (r: Option<Vec<u32>>)
    ensures
        match r {
            Some(v) => dash_units(dash@) == Some(v@),
            None => dash_units(dash@) is None,
        },
        r matches Some(v) ==> v.len() > 0 && v.len() % 2 == 0 && forall|i: int|
            0 <= i < v.len() ==> #[trigger] v@[i] > 0,
{
    let r = if str_is(dash, &['d', 'o', 't']) {
        Some(vec![1u32, 3])
    } else if str_is(dash, &['d', 'a', 's', 'h']) || str_is(dash, &['s', 'y', 's', 'D', 'a', 's', 'h']) {
        Some(vec![6u32, 4])
    } else if str_is(dash, &['l', 'g', 'D', 'a', 's', 'h']) {
        Some(vec![8u32, 4])
    } else if str_is(dash, &['d', 'a', 's', 'h', 'D', 'o', 't']) || str_is(
        dash,
        &['s', 'y', 's', 'D', 'a', 's', 'h', 'D', 'o', 't'],
    ) {
        Some(vec![6u32, 4, 1, 4])
    } else if str_is(dash, &['l', 'g', 'D', 'a', 's', 'h', 'D', 'o', 't']) {
        Some(vec![8u32, 4, 1, 4])
    } else if str_is(dash, &['d', 'a', 's', 'h', 'D', 'o', 't', 'D', 'o', 't']) || str_is(
        dash,
        &['s', 'y', 's', 'D', 'a', 's', 'h', 'D', 'o', 't', 'D', 'o', 't'],
    ) {
        Some(vec![6u32, 4, 1, 4, 1, 4])
    } else if str_is(dash, &['l', 'g', 'D', 'a', 's', 'h', 'D', 'o', 't', 'D', 'o', 't']) {
        Some(vec![8u32, 4, 1, 4, 1, 4])
    } else {
        None
    };
    r
}

/// Every preset dash of the outline table draws a pattern, never a solid
/// line: `dot` is `[1, 3]`; `dash` and `sysDash` are both `[6, 4]`, and each
/// `sys` preset draws as the preset it is named after (`sysDashDot` as
/// `dashDot`, `sysDashDotDot` as `dashDotDot`); the `lg` presets lengthen the
/// first dash from 6 to 8 and keep the rest; a dot and its gap add `[1, 4]`.
pub proof fn lemma_dash_presets()
    ensures
        dash_units(seq!['d', 'o', 't']) == Some(seq![1u32, 3]),
        dash_units(seq!['d', 'a', 's', 'h']) == Some(seq![6u32, 4]),
        dash_units(seq!['s', 'y', 's', 'D', 'a', 's', 'h']) == dash_units(seq!['d', 'a', 's', 'h']),
        dash_units(seq!['s', 'y', 's', 'D', 'a', 's', 'h', 'D', 'o', 't']) == dash_units(
            seq!['d', 'a', 's', 'h', 'D', 'o', 't'],
        ),
        dash_units(seq!['s', 'y', 's', 'D', 'a', 's', 'h', 'D', 'o', 't', 'D', 'o', 't'])
            == dash_units(seq!['d', 'a', 's', 'h', 'D', 'o', 't', 'D', 'o', 't']),
        dash_units(seq!['d', 'a', 's', 'h', 'D', 'o', 't']) == Some(seq![6u32, 4] + seq![1u32, 4]),
        dash_units(seq!['d', 'a', 's', 'h', 'D', 'o', 't', 'D', 'o', 't']) == Some(
            seq![6u32, 4] + seq![1u32, 4] + seq![1u32, 4],
        ),
        dash_units(seq!['l', 'g', 'D', 'a', 's', 'h']) == Some(
            seq![6u32, 4].update(0, 8u32),
        ),
        dash_units(seq!['l', 'g', 'D', 'a', 's', 'h', 'D', 'o', 't']) == Some(
            dash_units(seq!['d', 'a', 's', 'h', 'D', 'o', 't'])->0.update(0, 8u32),
        ),
        dash_units(seq!['l', 'g', 'D', 'a', 's', 'h', 'D', 'o', 't', 'D', 'o', 't']) == Some(
            dash_units(seq!['d', 'a', 's', 'h', 'D', 'o', 't', 'D', 'o', 't'])->0.update(0, 8u32),
        ),
{
    assert(seq!['d', 'o', 't'].len() == 3);
    assert(seq!['d', 'a', 's', 'h'].len() == 4);
    assert(seq!['s', 'y', 's', 'D', 'a', 's', 'h'].len() == 7);
    assert(seq!['l', 'g', 'D', 'a', 's', 'h'].len() == 6);
    assert(seq!['d', 'a', 's', 'h', 'D', 'o', 't'].len() == 7);
    assert(seq!['s', 'y', 's', 'D', 'a', 's', 'h', 'D', 'o', 't'].len() == 10);
    assert(seq!['l', 'g', 'D', 'a', 's', 'h', 'D', 'o', 't'].len() == 9);
    assert(seq!['d', 'a', 's', 'h', 'D', 'o', 't', 'D', 'o', 't'].len() == 10);
    assert(seq!['s', 'y', 's', 'D', 'a', 's', 'h', 'D', 'o', 't', 'D', 'o', 't'].len() == 13);
    assert(seq!['l', 'g', 'D', 'a', 's', 'h', 'D', 'o', 't', 'D', 'o', 't'].len() == 12);
    assert(seq![6u32, 4].update(0, 8u32) =~= seq![8u32, 4]);
    assert(seq![6u32, 4] + seq![1u32, 4] =~= seq![6u32, 4, 1, 4]);
    assert(seq![6u32, 4] + seq![1u32, 4] + seq![1u32, 4] =~= seq![6u32, 4, 1, 4, 1, 4]);
    assert(seq![6u32, 4, 1, 4].update(0, 8u32) =~= seq![8u32, 4, 1, 4]);
    assert(seq![6u32, 4, 1, 4, 1, 4].update(0, 8u32) =~= seq![8u32, 4, 1, 4, 1, 4]);
}

/// The preset geometries a shape can name.
#[derive(Debug, Clone, Copy, PartialEq, Eq)]
pub enum ShapeKind {
    RoundRect,
    Ellipse,
    Triangle,
    MathPlus,
    UpArrow,
    /// An open line from the top-left to the bottom-right corner.
    Line,
    /// Any other name is drawn as a rectangle.
    Rect,
}

/// The geometry a shape type names.
pub open spec fn shape_kind_of(name: Seq<char>) -> ShapeKind {
    if name == seq!['r', 'o', 'u', 'n', 'd', 'R', 'e', 'c', 't'] {
        ShapeKind::RoundRect
    } else if name == seq!['e', 'l', 'l', 'i', 'p', 's', 'e'] {
        ShapeKind::Ellipse
    } else if name == seq!['t', 'r', 'i', 'a', 'n', 'g', 'l', 'e'] {
        ShapeKind::Triangle
    } else if name == seq!['m', 'a', 't', 'h', 'P', 'l', 'u', 's'] {
        ShapeKind::MathPlus
    } else if name == seq!['u', 'p', 'A', 'r', 'r', 'o', 'w'] {
        ShapeKind::UpArrow
    } else if name == seq!['l', 'i', 'n', 'e'] {
        ShapeKind::Line
    } else {
        ShapeKind::Rect
    }
}

/// The preset geometry of a shape type name.
pub fn shape_kind(shape_type: &str) -> (k: ShapeKind)
    ensures
        k == shape_kind_of(shape_type@),
{
    if str_is(shape_type, &['r', 'o', 'u', 'n', 'd', 'R', 'e', 'c', 't']) {
        ShapeKind::RoundRect
    } else if str_is(shape_type, &['e', 'l', 'l', 'i', 'p', 's', 'e']) {
        ShapeKind::Ellipse
    } else if str_is(shape_type, &['t', 'r', 'i', 'a', 'n', 'g', 'l', 'e']) {
        ShapeKind::Triangle
    } else if str_is(shape_type, &['m', 'a', 't', 'h', 'P', 'l', 'u', 's']) {
        ShapeKind::MathPlus
    } else if str_is(shape_type, &['u', 'p', 'A', 'r', 'r', 'o', 'w']) {
        ShapeKind::UpArrow
    } else if str_is(shape_type, &['l', 'i', 'n', 'e']) {
        ShapeKind::Line
    } else {
        ShapeKind::Rect
    }
}

/// Whether a shape without a computed style is filled with its plain fill
/// colour: every shape but a line, unless the fill is `transparent`.
pub fn fills_plain_shape(shape_type: &str, fill: &str) -> (r: bool)
    ensures
        r == (shape_kind_of(shape_type@) != ShapeKind::Line && fill@ != seq![
            't',
            'r',
            'a',
            'n',
            's',
            'p',
            'a',
            'r',
            'e',
            'n',
            't',
        ]),
{
    let is_line = match shape_kind(shape_type) {
        ShapeKind::Line => true,
        _ => false,
    };
    !is_line && !str_is(fill, &['t', 'r', 'a', 'n', 's', 'p', 'a', 'r', 'e', 'n', 't'])
}

/// The alpha of an effect mask pixel that `covered` of its four samples fall
/// inside the shape: a quarter of full opacity per sample, at most 255.
pub fn coverage_alpha(covered: u8) -> (a: u8)
    requires
        covered <= 4,
    ensures
        a == if covered as int * 64 > 255 { 255 } else { covered as int * 64 },
{
    let wide = (covered as u16) * 64;
    if wide > 255 {
        255
    } else {
        wide as u8
    }
}

} // verus!
