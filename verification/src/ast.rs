//! Parts of the slide description that stand without measured sizes: the
//! bullet of a paragraph and the defaults of a text style.
use vstd::prelude::*;

verus! {

/// The bullet that starts a paragraph: its character and colour.
#[derive(Debug, Clone, PartialEq, Eq)]
pub struct Bullet {
    pub char: String,
    pub color: String,
}

/// The alignment of a text style that names none: `left`.
pub fn default_align() -> (r: String)
    ensures
        r@ == seq!['l', 'e', 'f', 't'],
{
    let r = "left".to_owned();
    proof {
        reveal_strlit("left");
    }
    r
}

/// The font family of a text style that names none: `sans-serif`.
pub fn default_font_family() -> (r: String)
    ensures
        r@ == seq!['s', 'a', 'n', 's', '-', 's', 'e', 'r', 'i', 'f'],
{
    let r = "sans-serif".to_owned();
    proof {
        reveal_strlit("sans-serif");
    }
    r
}

} // verus!
