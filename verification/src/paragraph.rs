//! Decisions of the paragraph layout that do not depend on measured sizes:
//! the font family a run asks for, alignment and wrapping modes, how a
//! vertical token advances, the paragraphs of plain text content, and where
//! each run lies inside the paragraph text.
use vstd::prelude::*;
use vstd::string::StrSliceExecFns;
use crate::char_seq::{
    ascii_lower, chars_equal, range_texts, split_on, split_ranges, str_chars, str_is,
    to_ascii_lower,
};
use crate::text_class::{
    is_compact_char, is_east_asian_char, is_east_asian_text, is_fullwidth_char,
    is_vertical_compact_char, is_vertical_fullwidth_char,
};

verus! {

// ---------------------------------------------------------------------------
// Font families
// ---------------------------------------------------------------------------

/// The kind of family a font family name asks for.
#[derive(Debug, Clone, Copy, PartialEq, Eq)]
pub enum FontFamilyKind {
    Serif,
    SansSerif,
    Cursive,
    Fantasy,
    Monospace,
    /// A family given by its own name.
    Named,
}

/// The ASCII lower-case form of a name.
pub open spec fn lower_name(s: Seq<char>) -> Seq<char> {
    s.map_values(|c: char| ascii_lower(c))
}

/// The family kind of a name, compared without regard to ASCII case.
pub open spec fn family_kind_of(name: Seq<char>) -> FontFamilyKind {
    let l = lower_name(name);
    if l == seq!['s', 'e', 'r', 'i', 'f'] {
        FontFamilyKind::Serif
    } else if l == seq!['s', 'a', 'n', 's', '-', 's', 'e', 'r', 'i', 'f'] || l == seq![
        's',
        'a',
        'n',
        's',
        ' ',
        's',
        'e',
        'r',
        'i',
        'f',
    ] {
        FontFamilyKind::SansSerif
    } else if l == seq!['c', 'u', 'r', 's', 'i', 'v', 'e'] {
        FontFamilyKind::Cursive
    } else if l == seq!['f', 'a', 'n', 't', 'a', 's', 'y'] {
        FontFamilyKind::Fantasy
    } else if l == seq!['m', 'o', 'n', 'o', 's', 'p', 'a', 'c', 'e'] {
        FontFamilyKind::Monospace
    } else {
        FontFamilyKind::Named
    }
}

/// Which family kind a font family name selects: the generic CSS names
/// `serif`, `sans-serif` (or `sans serif`), `cursive`, `fantasy` and
/// `monospace` in any ASCII case, and otherwise the named family.
pub fn classify_font_family(name: &str) -> (r: FontFamilyKind)
    ensures
        r == family_kind_of(name@),
{
    let chars = str_chars(name);
    let mut lower: Vec<char> = Vec::new();
    let mut i: usize = 0;
    while i < chars.len()
        invariant
            i <= chars.len(),
            chars@ == name@,
            lower@ == lower_name(name@.take(i as int)),
        decreases chars.len() - i,
    {
        lower.push(to_ascii_lower(chars[i]));
        assert(lower_name(name@.take(i as int + 1)) =~= lower_name(name@.take(i as int)).push(
            ascii_lower(chars@[i as int]),
        ));
        i += 1;
    }
    assert(name@.take(chars.len() as int) =~= name@);
    let l = lower.as_slice();
    if chars_equal(l, &['s', 'e', 'r', 'i', 'f']) {
        FontFamilyKind::Serif
    } else if chars_equal(l, &['s', 'a', 'n', 's', '-', 's', 'e', 'r', 'i', 'f']) || chars_equal(
        l,
        &['s', 'a', 'n', 's', ' ', 's', 'e', 'r', 'i', 'f'],
    ) {
        FontFamilyKind::SansSerif
    } else if chars_equal(l, &['c', 'u', 'r', 's', 'i', 'v', 'e']) {
        FontFamilyKind::Cursive
    } else if chars_equal(l, &['f', 'a', 'n', 't', 'a', 's', 'y']) {
        FontFamilyKind::Fantasy
    } else if chars_equal(l, &['m', 'o', 'n', 'o', 's', 'p', 'a', 'c', 'e']) {
        FontFamilyKind::Monospace
    } else {
        FontFamilyKind::Named
    }
}

/// The family a run asks for: its East Asian family when the run's text is
/// East Asian and that family is given, and its ordinary family otherwise.
pub fn requested_font_family<'a>(font_family: &'a str, east_asian_font_family: &'a str, text: &str) -> (r:
    &'a str)
    ensures
        r@ == if (exists|i: int| 0 <= i < text@.len() && is_east_asian_char(#[trigger] text@[i]))
            && east_asian_font_family@.len() > 0 {
            east_asian_font_family@
        } else {
            font_family@
        },
{
    if is_east_asian_text(text) && !east_asian_font_family.is_empty() {
        east_asian_font_family
    } else {
        font_family
    }
}

// ---------------------------------------------------------------------------
// Alignment and wrapping
// ---------------------------------------------------------------------------

/// The horizontal alignment of a paragraph's lines.
#[derive(Debug, Clone, Copy, PartialEq, Eq)]
pub enum TextAlign {
    Left,
    Center,
    Right,
}

/// The alignment a paragraph names: `center`, `right`, and left for anything
/// else.
pub fn paragraph_align(align: &str) -> (r: TextAlign)
    ensures
        r == if align@ == seq!['c', 'e', 'n', 't', 'e', 'r'] {
            TextAlign::Center
        } else if align@ == seq!['r', 'i', 'g', 'h', 't'] {
            TextAlign::Right
        } else {
            TextAlign::Left
        },
{
    if str_is(align, &['c', 'e', 'n', 't', 'e', 'r']) {
        TextAlign::Center
    } else if str_is(align, &['r', 'i', 'g', 'h', 't']) {
        TextAlign::Right
    } else {
        TextAlign::Left
    }
}

/// Whether a paragraph is a centred (or right-aligned) hanging paragraph:
/// horizontal, without a bullet, with a positive left margin and a negative
/// first-line indent. Its first line then uses the full width of the box.
pub fn is_centered_hanging_paragraph(
    vertical_text: bool,
    has_bullet: bool,
    positive_margin: bool,
    negative_indent: bool,
    align: &str,
) -> (r: bool)
    ensures
        r == (!vertical_text && !has_bullet && positive_margin && negative_indent && (align@
            == seq!['c', 'e', 'n', 't', 'e', 'r'] || align@ == seq!['r', 'i', 'g', 'h', 't'])),
{
    !vertical_text && !has_bullet && positive_margin && negative_indent && (str_is(
        align,
        &['c', 'e', 'n', 't', 'e', 'r'],
    ) || str_is(align, &['r', 'i', 'g', 'h', 't']))
}

/// How a paragraph that is wrapped by the shaper breaks its lines.
#[derive(Debug, Clone, Copy, PartialEq, Eq)]
pub enum WrapMode {
    /// At word boundaries only.
    Word,
    /// At word boundaries, or between any two glyphs where a word is too long.
    WordOrGlyph,
}

/// East Asian text, or a paragraph that asks for East Asian line breaking,
/// may break between glyphs; other text breaks between words.
pub fn paragraph_wrap_mode(east_asian_line_break: bool, text: &str) -> (r: WrapMode)
    ensures
        r == if east_asian_line_break || exists|i: int|
            0 <= i < text@.len() && is_east_asian_char(#[trigger] text@[i]) {
            WrapMode::WordOrGlyph
        } else {
            WrapMode::Word
        },
{
    if east_asian_line_break || is_east_asian_text(text) {
        WrapMode::WordOrGlyph
    } else {
        WrapMode::Word
    }
}

/// Whether a paragraph's lines are broken by hand rather than by the shaper:
/// East Asian text that hangs its punctuation or has an indent, and every
/// paragraph without a bullet whose indent is not zero, since its first line
/// wraps at another width than the lines after it (a hanging indent gives
/// the first line the wider measure).
pub fn uses_explicit_line_breaks(text: &str, hanging_punctuation: bool, has_indent: bool, has_bullet: bool) -> (r:
    bool)
    ensures
        r == (((exists|i: int| 0 <= i < text@.len() && is_east_asian_char(#[trigger] text@[i]))
            && (hanging_punctuation || has_indent)) || (has_indent && !has_bullet)),
{
    (is_east_asian_text(text) && (hanging_punctuation || has_indent)) || (has_indent && !has_bullet)
}

/// Whether a line spacing is given in points (otherwise it is a percentage).
pub fn is_point_spacing(unit: &str) -> (r: bool)
    ensures
        r == (unit@ == seq!['p', 'o', 'i', 'n', 't', 's']),
{
    str_is(unit, &['p', 'o', 'i', 'n', 't', 's'])
}

// ---------------------------------------------------------------------------
// Vertical tokens
// ---------------------------------------------------------------------------

/// How a token advances its vertical column.
#[derive(Debug, Clone, Copy, PartialEq, Eq)]
pub enum VerticalAdvance {
    /// By a full em cell: every character takes a full cell.
    FullCell,
    /// By its shaped width: every character is compact.
    Shaped,
    /// By a full em cell: the token mixes kinds of characters.
    Mixed,
}

/// How a vertical token advances its column: a token of full-cell characters
/// (including an empty token) takes a cell, a token of compact characters
/// takes its shaped width, and any other token takes a cell.
pub fn vertical_token_advance_kind(token: &str) -> (r: VerticalAdvance)
    ensures
        r == if (forall|i: int| 0 <= i < token@.len() ==> is_fullwidth_char(#[trigger] token@[i])) {
            VerticalAdvance::FullCell
        } else if (forall|i: int| 0 <= i < token@.len() ==> is_compact_char(#[trigger] token@[i])) {
            VerticalAdvance::Shaped
        } else {
            VerticalAdvance::Mixed
        },
{
    let mut all_full = true;
    let mut all_compact = true;
    for c in it: token.chars()
        invariant
            it.seq() == token@,
            all_full == forall|i: int| 0 <= i < it.index() ==> is_fullwidth_char(#[trigger] token@[i]),
            all_compact == forall|i: int| 0 <= i < it.index() ==> is_compact_char(#[trigger] token@[i]),
    {
        if !is_vertical_fullwidth_char(c) {
            all_full = false;
        }
        if !is_vertical_compact_char(c) {
            all_compact = false;
        }
    }
    if all_full {
        VerticalAdvance::FullCell
    } else if all_compact {
        VerticalAdvance::Shaped
    } else {
        VerticalAdvance::Mixed
    }
}

// ---------------------------------------------------------------------------
// Plain content
// ---------------------------------------------------------------------------

/// The characters of each string.
pub open spec fn string_views(ts: Seq<String>) -> Seq<Seq<char>> {
    ts.map_values(|t: String| t@)
}

/// The texts of the paragraphs of plain content: the pieces between line
/// breaks, one paragraph per piece.
pub fn split_paragraph_texts(content: &str) -> (texts: Vec<String>)
    ensures
        string_views(texts@) == split_on(content@, '\n'),
{
    let chars = str_chars(content);
    let ranges = split_ranges(&chars, 0, chars.len(), '\n');
    assert(chars@.subrange(0, chars.len() as int) =~= content@);
    let mut texts: Vec<String> = Vec::new();
    let mut k: usize = 0;
    while k < ranges.len()
        invariant
            chars@ == content@,
            k <= ranges.len(),
            forall|j: int|
                0 <= j < ranges.len() ==> 0 <= #[trigger] ranges@[j].0 <= ranges@[j].1
                    <= chars.len(),
            texts.len() == k,
            string_views(texts@) == range_texts(chars@, ranges@).take(k as int),
        decreases ranges.len() - k,
    {
        let (a, b) = ranges[k];
        let piece = content.substring_char(a, b).to_owned();
        let ghost before = texts@;
        assert(piece@ == chars@.subrange(a as int, b as int));
        texts.push(piece);
        assert(string_views(texts@) =~= range_texts(chars@, ranges@).take(
            k as int + 1,
        )) by {
            assert(texts@ == before.push(piece));
            assert forall|j: int| 0 <= j < k + 1 implies #[trigger] string_views(texts@)[j] == range_texts(chars@, ranges@).take(k as int + 1)[j] by {
                if j < k {
                    assert(texts@[j] == before[j]);
                    assert(string_views(before)[j] == range_texts(chars@, ranges@).take(
                        k as int,
                    )[j]);
                }
            }
        }
        k += 1;
    }
    assert(range_texts(chars@, ranges@).take(ranges.len() as int) =~= range_texts(
        chars@,
        ranges@,
    ));
    texts
}

// ---------------------------------------------------------------------------
// Runs inside the paragraph text
// ---------------------------------------------------------------------------

/// The sum of the first `n` lengths.
pub open spec fn prefix_sum(lens: Seq<usize>, n: int) -> int
    decreases n,
{
    if n <= 0 {
        0
    } else {
        prefix_sum(lens, n - 1) + lens[n - 1] as int
    }
}

proof fn lemma_prefix_sum_mono(lens: Seq<usize>, a: int, b: int)
    requires
        0 <= a <= b <= lens.len(),
    ensures
        0 <= prefix_sum(lens, a) <= prefix_sum(lens, b),
    decreases b,
{
    if b > a {
        lemma_prefix_sum_mono(lens, a, b - 1);
    } else if a > 0 {
        lemma_prefix_sum_mono(lens, a - 1, a - 1);
    }
}

/// The byte range of each run in the paragraph text: run `i` of length
/// `lens[i]` covers the bytes after all earlier runs.
pub fn run_byte_ranges(lens: &Vec<usize>) -> (ranges: Vec<(usize, usize)>)
    requires
        prefix_sum(lens@, lens.len() as int) <= usize::MAX,
    ensures
        ranges.len() == lens.len(),
        forall|i: int|
            0 <= i < lens.len() ==> #[trigger] ranges@[i].0 == prefix_sum(lens@, i)
                && ranges@[i].1 == prefix_sum(lens@, i + 1),
{
    let mut ranges: Vec<(usize, usize)> = Vec::new();
    let mut offset: usize = 0;
    let mut i: usize = 0;
    while i < lens.len()
        invariant
            i <= lens.len(),
            prefix_sum(lens@, lens.len() as int) <= usize::MAX,
            offset == prefix_sum(lens@, i as int),
            ranges.len() == i,
            forall|j: int|
                0 <= j < i ==> #[trigger] ranges@[j].0 == prefix_sum(lens@, j) && ranges@[j].1
                    == prefix_sum(lens@, j + 1),
        decreases lens.len() - i,
    {
        proof {
            lemma_prefix_sum_mono(lens@, i as int + 1, lens.len() as int);
        }
        let end = offset + lens[i];
        assert(prefix_sum(lens@, i as int + 1) == prefix_sum(lens@, i as int) + lens@[i as int]);
        let ghost before = ranges@;
        ranges.push((offset, end));
        assert forall|j: int| 0 <= j < i + 1 implies #[trigger] ranges@[j].0 == prefix_sum(lens@, j)
            && ranges@[j].1 == prefix_sum(lens@, j + 1) by {
            if j < i {
                assert(ranges@[j] == before[j]);
            } else {
                assert(ranges@[j] == (offset, end));
            }
        }
        offset = end;
        i += 1;
    }
    ranges
}

/// The part of run `run` that falls inside the text range `a..b`, relative
/// to `a`.
#[derive(Debug, Clone, Copy, PartialEq, Eq)]
pub struct RunSpan {
    pub run: usize,
    pub start: usize,
    pub end: usize,
}

/// The overlap of `r0..r1` with `a..b`, when it is not empty.
pub open spec fn overlap(r0: int, r1: int, a: int, b: int) -> Option<(int, int)> {
    let s = if a > r0 { a } else { r0 };
    let e = if b < r1 { b } else { r1 };
    if s < e {
        Some((s, e))
    } else {
        None
    }
}

/// The spans of the runs that overlap the text range `a..b`, in run order,
/// each as a range relative to `a`; runs that do not overlap it are left out.
pub fn spans_within(runs: &Vec<(usize, usize)>, a: usize, b: usize) -> (spans: Vec<RunSpan>)
    ensures
        forall|k: int|
            0 <= k < spans.len() ==> {
                let sp = #[trigger] spans@[k];
                &&& sp.run < runs.len()
                &&& overlap(runs@[sp.run as int].0 as int, runs@[sp.run as int].1 as int, a as int, b as int)
                    == Some((sp.start + a, sp.end + a))
            },
        forall|k: int, l: int| 0 <= k < l < spans.len() ==> #[trigger] spans@[k].run < #[trigger] spans@[l].run,
        forall|i: int|
            0 <= i < runs.len() && overlap(runs@[i].0 as int, runs@[i].1 as int, a as int, b as int)
                is Some ==> exists|k: int| 0 <= k < spans.len() && #[trigger] spans@[k].run == i,
{
    let mut spans: Vec<RunSpan> = Vec::new();
    let mut i: usize = 0;
    while i < runs.len()
        invariant
            i <= runs.len(),
            forall|k: int|
                0 <= k < spans.len() ==> {
                    let sp = #[trigger] spans@[k];
                    &&& sp.run < i
                    &&& overlap(runs@[sp.run as int].0 as int, runs@[sp.run as int].1 as int, a as int, b as int)
                        == Some((sp.start + a, sp.end + a))
                },
            forall|k: int, l: int| 0 <= k < l < spans.len() ==> #[trigger] spans@[k].run < #[trigger] spans@[l].run,
            forall|j: int|
                0 <= j < i && overlap(runs@[j].0 as int, runs@[j].1 as int, a as int, b as int) is Some
                    ==> exists|k: int| 0 <= k < spans.len() && #[trigger] spans@[k].run == j,
        decreases runs.len() - i,
    {
        let (r0, r1) = runs[i];
        let s = if a > r0 { a } else { r0 };
        let e = if b < r1 { b } else { r1 };
        if s < e {
            let ghost before = spans@;
            spans.push(RunSpan { run: i, start: s - a, end: e - a });
            assert(spans@[spans.len() - 1].run == i);
            assert forall|j: int|
                0 <= j < i + 1 && overlap(runs@[j].0 as int, runs@[j].1 as int, a as int, b as int) is Some
                    implies exists|k: int| 0 <= k < spans.len() && #[trigger] spans@[k].run == j by {
                if j < i {
                    let k = choose|k: int| 0 <= k < before.len() && #[trigger] before[k].run == j;
                    assert(spans@[k] == before[k]);
                }
            }
        }
        i += 1;
    }
    spans
}

} // verus!
