//! How a text box is fitted, anchored and clipped, decided from the keyword
//! properties of its text body (`autoFit`, `vertOverflow`, `anchor`, `vert`).
use vstd::prelude::*;
use crate::char_seq::str_is;

verus! {

/// The keyword properties of a text body.
#[derive(Debug, Clone, PartialEq, Eq)]
pub struct TextBodyFlags {
    /// `top`, `middle` or `bottom`.
    pub vertical_anchor: String,
    /// `none`, `shrink` or `shape`.
    pub auto_fit: String,
    /// `overflow`, `clip` or `ellipsis`.
    pub vertical_overflow: String,
    /// `horz` for horizontal text; anything else sets the text in columns.
    pub text_direction: String,
}

/// Where the lines of a text box sit when they are shorter than the box.
#[derive(Debug, Clone, Copy, PartialEq, Eq)]
pub enum VerticalAnchor {
    Top,
    Middle,
    Bottom,
}

pub open spec fn horz_word() -> Seq<char> {
    seq!['h', 'o', 'r', 'z']
}

pub open spec fn overflow_word() -> Seq<char> {
    seq!['o', 'v', 'e', 'r', 'f', 'l', 'o', 'w']
}

pub open spec fn shrink_word() -> Seq<char> {
    seq!['s', 'h', 'r', 'i', 'n', 'k']
}

pub open spec fn shape_word() -> Seq<char> {
    seq!['s', 'h', 'a', 'p', 'e']
}

pub open spec fn middle_word() -> Seq<char> {
    seq!['m', 'i', 'd', 'd', 'l', 'e']
}

pub open spec fn bottom_word() -> Seq<char> {
    seq!['b', 'o', 't', 't', 'o', 'm']
}

/// The text is set in vertical columns.
pub open spec fn spec_vertical_text(body: Option<TextBodyFlags>) -> bool {
    match body {
        Some(b) => b.text_direction@ != horz_word(),
        None => false,
    }
}

/// Lines may run past the bottom of the box.
pub open spec fn spec_allows_vertical_overflow(body: Option<TextBodyFlags>) -> bool {
    match body {
        Some(b) => b.vertical_overflow@ == overflow_word(),
        None => true,
    }
}

/// The text is drawn at the height its lines need when that exceeds the box.
pub open spec fn spec_renders_layout_height(body: Option<TextBodyFlags>) -> bool {
    match body {
        Some(b) => b.auto_fit@ == shape_word() || b.vertical_overflow@ == overflow_word(),
        None => true,
    }
}

/// The text is clipped to the rectangle of its box.
pub open spec fn spec_clips_to_shape(body: Option<TextBodyFlags>) -> bool {
    match body {
        Some(b) => b.auto_fit@ != shape_word() && b.vertical_overflow@ != overflow_word(),
        None => false,
    }
}

/// Whether the text of the box is set in vertical columns.
pub fn is_vertical_text(body: Option<&TextBodyFlags>) -> (r: bool)
    ensures
        r == spec_vertical_text(
            match body {
                Some(b) => Some(*b),
                None => None,
            },
        ),
{
    match body {
        Some(b) => !str_is(b.text_direction.as_str(), &['h', 'o', 'r', 'z']),
        None => false,
    }
}

/// Whether the lines of the box may run past its bottom edge.
pub fn allows_vertical_overflow(body: Option<&TextBodyFlags>) -> (r: bool)
    ensures
        r == spec_allows_vertical_overflow(
            match body {
                Some(b) => Some(*b),
                None => None,
            },
        ),
{
    match body {
        Some(b) => str_is(b.vertical_overflow.as_str(), &['o', 'v', 'e', 'r', 'f', 'l', 'o', 'w']),
        None => true,
    }
}

/// Whether the font is scaled down until the lines fit the box.
pub fn shrinks_text_to_fit(body: Option<&TextBodyFlags>) -> (r: bool)
    ensures
        r == match body {
            Some(b) => b.auto_fit@ == shrink_word(),
            None => false,
        },
{
    match body {
        Some(b) => str_is(b.auto_fit.as_str(), &['s', 'h', 'r', 'i', 'n', 'k']),
        None => false,
    }
}

/// Whether the text bitmap is as tall as the lines need (the box grows with
/// its text, or lines may overflow), rather than as tall as the box.
pub fn renders_layout_height(body: Option<&TextBodyFlags>) -> (r: bool)
    ensures
        r == spec_renders_layout_height(
            match body {
                Some(b) => Some(*b),
                None => None,
            },
        ),
{
    let grows = match body {
        Some(b) => str_is(b.auto_fit.as_str(), &['s', 'h', 'a', 'p', 'e']),
        None => false,
    };
    grows || allows_vertical_overflow(body)
}

/// Whether drawing the text is clipped to the rectangle of the box.
pub fn clips_to_shape(body: Option<&TextBodyFlags>) -> (r: bool)
    ensures
        r == spec_clips_to_shape(
            match body {
                Some(b) => Some(*b),
                None => None,
            },
        ),
{
    match body {
        Some(b) => !str_is(b.auto_fit.as_str(), &['s', 'h', 'a', 'p', 'e']) && !str_is(
            b.vertical_overflow.as_str(),
            &['o', 'v', 'e', 'r', 'f', 'l', 'o', 'w'],
        ),
        None => false,
    }
}

/// Where the lines sit in the box: `middle` and `bottom` are honoured, and
/// everything else, as well as a missing body, anchors at the top.
pub fn vertical_anchor(body: Option<&TextBodyFlags>) -> (r: VerticalAnchor)
    ensures
        r == match body {
            Some(b) => if b.vertical_anchor@ == middle_word() {
                VerticalAnchor::Middle
            } else if b.vertical_anchor@ == bottom_word() {
                VerticalAnchor::Bottom
            } else {
                VerticalAnchor::Top
            },
            None => VerticalAnchor::Top,
        },
{
    match body {
        Some(b) => {
            if str_is(b.vertical_anchor.as_str(), &['m', 'i', 'd', 'd', 'l', 'e']) {
                VerticalAnchor::Middle
            } else if str_is(b.vertical_anchor.as_str(), &['b', 'o', 't', 't', 'o', 'm']) {
                VerticalAnchor::Bottom
            } else {
                VerticalAnchor::Top
            }
        },
        None => VerticalAnchor::Top,
    }
}

/// A text box is clipped to its rectangle exactly when its text is drawn at
/// the height of the box: clipped text never paints overflowing lines, and
/// text drawn at the height of its lines is never cut off.
pub proof fn lemma_clipping_matches_render_height(body: Option<TextBodyFlags>)
    ensures
        spec_clips_to_shape(body) <==> !spec_renders_layout_height(body),
{
}


/// Every text direction but `horz` sets the text in vertical columns
/// (`vert`, `vert270`, `eaVert`, `wordArtVert`, ...); `horz`, and a box
/// without body properties, lay it out in horizontal lines.
pub proof fn lemma_vertical_unless_horizontal(body: Option<TextBodyFlags>)
    ensures
        body is None ==> !spec_vertical_text(body),
        body matches Some(b) ==> (spec_vertical_text(body) <==> b.text_direction@ != seq![
            'h',
            'o',
            'r',
            'z',
        ]),
        body matches Some(b) ==> (b.text_direction@ == seq!['v', 'e', 'r', 't'] || b.text_direction@
            == seq!['v', 'e', 'r', 't', '2', '7', '0'] || b.text_direction@ == seq![
            'e',
            'a',
            'V',
            'e',
            'r',
            't',
        ] || b.text_direction@ == seq!['w', 'o', 'r', 'd', 'A', 'r', 't', 'V', 'e', 'r', 't'])
            ==> spec_vertical_text(body),
{
    if let Some(b) = body {
        let d = b.text_direction@;
        if d =~= seq!['v', 'e', 'r', 't'] || d =~= seq!['v', 'e', 'r', 't', '2', '7', '0'] || d =~= seq![
            'e',
            'a',
            'V',
            'e',
            'r',
            't',
        ] || d =~= seq!['w', 'o', 'r', 'd', 'A', 'r', 't', 'V', 'e', 'r', 't'] {
            assert(d[0] != 'h' || d[1] != 'o');
            assert(d != horz_word());
        }
    }
}

} // verus!
