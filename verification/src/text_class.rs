//! Character classes of the text layout: East Asian text, the classes that
//! decide how a character sits in a vertical column, and the punctuation that
//! may hang outside a line.
use vstd::prelude::*;
use crate::char_seq::{is_alnum, is_alnum_char, is_ascii_char, is_control_char};

verus! {

/// A character of the CJK blocks that make a text East Asian.
pub open spec fn is_east_asian_char(c: char) -> bool {
    let u = c as u32;
    ||| (0x2E80 <= u <= 0x2FFF)
    ||| (0x3040 <= u <= 0x30FF)
    ||| (0x3100 <= u <= 0x312F)
    ||| (0x3130 <= u <= 0x318F)
    ||| (0x31A0 <= u <= 0x31BF)
    ||| (0x31F0 <= u <= 0x31FF)
    ||| (0x3400 <= u <= 0x4DBF)
    ||| (0x4E00 <= u <= 0x9FFF)
    ||| (0xAC00 <= u <= 0xD7AF)
    ||| (0xF900 <= u <= 0xFAFF)
}

/// A character that takes a full em cell in a vertical column: the East Asian
/// blocks, CJK symbols and punctuation, and the full-width forms.
pub open spec fn is_fullwidth_char(c: char) -> bool {
    let u = c as u32;
    ||| is_east_asian_char(c)
    ||| (0x3000 <= u <= 0x303F)
    ||| (0xFF01 <= u <= 0xFF65)
}

/// A printable ASCII character, drawn turned a quarter in a vertical column.
pub open spec fn is_rotated_char(c: char) -> bool {
    is_ascii_char(c) && !is_control_char(c)
}

/// A character whose advance in a vertical column is its shaped width.
pub open spec fn is_compact_char(c: char) -> bool {
    let u = c as u32;
    !is_fullwidth_char(c) && (is_rotated_char(c) || (0x2000 <= u <= 0x206F))
}

/// Punctuation that closes a phrase and may hang past the end of a line.
pub open spec fn is_closing_punctuation(c: char) -> bool {
    let u = c as u32;
    ||| c == ','
    ||| c == '.'
    ||| c == ':'
    ||| c == ';'
    ||| c == '!'
    ||| c == '?'
    ||| c == ')'
    ||| c == ']'
    ||| c == '}'
    ||| c == '>'
    ||| u == 0xFF0C
    ||| u == 0x3002
    ||| u == 0x3001
    ||| u == 0xFF1A
    ||| u == 0xFF1B
    ||| u == 0xFF01
    ||| u == 0xFF1F
    ||| u == 0xFF09
    ||| u == 0x3011
    ||| u == 0x300B
    ||| u == 0x300D
    ||| u == 0x300F
    ||| u == 0x3009
    ||| u == 0x3015
    ||| u == 0xFF3D
    ||| u == 0xFF5D
}

/// Punctuation that opens a phrase and may hang before the start of a line.
pub open spec fn is_opening_punctuation(c: char) -> bool {
    let u = c as u32;
    ||| c == '"'
    ||| c == '\''
    ||| c == '('
    ||| c == '['
    ||| c == '{'
    ||| c == '<'
    ||| u == 0x201C
    ||| u == 0x2018
    ||| u == 0xFF08
    ||| u == 0x3010
    ||| u == 0x300A
    ||| u == 0x300C
    ||| u == 0x300E
    ||| u == 0x3008
    ||| u == 0x3014
    ||| u == 0xFF3B
    ||| u == 0xFF5B
}

fn is_east_asian_code(u: u32) -> (r: bool)
    ensures
        r == ((0x2E80 <= u <= 0x2FFF) || (0x3040 <= u <= 0x30FF) || (0x3100 <= u <= 0x312F) || (
        0x3130 <= u <= 0x318F) || (0x31A0 <= u <= 0x31BF) || (0x31F0 <= u <= 0x31FF) || (0x3400
            <= u <= 0x4DBF) || (0x4E00 <= u <= 0x9FFF) || (0xAC00 <= u <= 0xD7AF) || (0xF900 <= u
            <= 0xFAFF)),
{
    (0x2E80 <= u && u <= 0x2FFF) || (0x3040 <= u && u <= 0x30FF) || (0x3100 <= u && u <= 0x312F)
        || (0x3130 <= u && u <= 0x318F) || (0x31A0 <= u && u <= 0x31BF) || (0x31F0 <= u && u
        <= 0x31FF) || (0x3400 <= u && u <= 0x4DBF) || (0x4E00 <= u && u <= 0x9FFF) || (0xAC00
        <= u && u <= 0xD7AF) || (0xF900 <= u && u <= 0xFAFF)
}

/// Whether the text holds a character of the East Asian blocks.
pub fn is_east_asian_text(text: &str) -> (r: bool)
    ensures
        r == exists|i: int| 0 <= i < text@.len() && is_east_asian_char(#[trigger] text@[i]),
{
    let mut found = false;
    for c in it: text.chars()
        invariant
            it.seq() == text@,
            found == exists|i: int| 0 <= i < it.index() && is_east_asian_char(#[trigger] text@[i]),
    {
        if is_east_asian_code(c as u32) {
            found = true;
        }
    }
    found
}

/// Whether a character stays upright and joins its neighbours in a vertical
/// column: an ASCII letter or digit.
pub fn is_vertical_horizontal_char(ch: char) -> (r: bool)
    ensures
        r == is_alnum_char(ch),
{
    is_alnum(ch)
}

/// Whether a character is turned a quarter in a vertical column: printable
/// ASCII.
pub fn is_vertical_rotated_char(ch: char) -> (r: bool)
    ensures
        r == is_rotated_char(ch),
{
    let u = ch as u32;
    u < 0x80 && !(u < 0x20 || u == 0x7F)
}

/// Whether a character advances a vertical column by its shaped width.
pub fn is_vertical_compact_char(ch: char) -> (r: bool)
    ensures
        r == is_compact_char(ch),
{
    let u = ch as u32;
    !is_vertical_fullwidth_char(ch) && (is_vertical_rotated_char(ch) || (0x2000 <= u && u
        <= 0x206F))
}

/// Whether a character takes a full em cell in a vertical column.
pub fn is_vertical_fullwidth_char(ch: char) -> (r: bool)
    ensures
        r == is_fullwidth_char(ch),
{
    let u = ch as u32;
    is_east_asian_code(u) || (0x3000 <= u && u <= 0x303F) || (0xFF01 <= u && u <= 0xFF65)
}

/// Whether a run of a vertical column holds a character that is turned.
pub fn should_rotate_vertical_run(text: &str) -> (r: bool)
    ensures
        r == exists|i: int| 0 <= i < text@.len() && is_rotated_char(#[trigger] text@[i]),
{
    let mut found = false;
    for c in it: text.chars()
        invariant
            it.seq() == text@,
            found == exists|i: int| 0 <= i < it.index() && is_rotated_char(#[trigger] text@[i]),
    {
        if is_vertical_rotated_char(c) {
            found = true;
        }
    }
    found
}

/// Whether a character is closing punctuation that may hang past a line end.
pub fn is_hanging_closing_punctuation(ch: char) -> (r: bool)
    ensures
        r == is_closing_punctuation(ch),
{
    let u = ch as u32;
    ch == ',' || ch == '.' || ch == ':' || ch == ';' || ch == '!' || ch == '?' || ch == ')' || ch
        == ']' || ch == '}' || ch == '>' || u == 0xFF0C || u == 0x3002 || u == 0x3001 || u
        == 0xFF1A || u == 0xFF1B || u == 0xFF01 || u == 0xFF1F || u == 0xFF09 || u == 0x3011 || u
        == 0x300B || u == 0x300D || u == 0x300F || u == 0x3009 || u == 0x3015 || u == 0xFF3D || u
        == 0xFF5D
}

/// Whether a character is opening punctuation that may hang before a line.
pub fn is_hanging_opening_punctuation(ch: char) -> (r: bool)
    ensures
        r == is_opening_punctuation(ch),
{
    let u = ch as u32;
    ch == '"' || ch == '\'' || ch == '(' || ch == '[' || ch == '{' || ch == '<' || u == 0x201C
        || u == 0x2018 || u == 0xFF08 || u == 0x3010 || u == 0x300A || u == 0x300C || u
        == 0x300E || u == 0x3008 || u == 0x3014 || u == 0xFF3B || u == 0xFF5B
}

/// The classes of the vertical layout nest: an upright joining character is
/// turned, a turned character is compact, and no compact character takes a
/// full cell.
pub proof fn lemma_vertical_classes_nest(c: char)
    ensures
        is_alnum_char(c) ==> is_rotated_char(c),
        is_rotated_char(c) ==> is_compact_char(c),
        !(is_compact_char(c) && is_fullwidth_char(c)),
        is_east_asian_char(c) ==> is_fullwidth_char(c),
{
}

/// A text that counts as East Asian holds a character that takes a full cell
/// in a vertical column.
pub proof fn lemma_east_asian_text_has_fullwidth(text: Seq<char>)
    requires
        exists|i: int| 0 <= i < text.len() && is_east_asian_char(#[trigger] text[i]),
    ensures
        exists|i: int| 0 <= i < text.len() && is_fullwidth_char(#[trigger] text[i]),
{
    let i = choose|i: int| 0 <= i < text.len() && is_east_asian_char(#[trigger] text[i]);
    assert(is_fullwidth_char(text[i]));
}

/// Whether a glyph is shifted left by half its width to hang before its
/// line: the paragraph hangs punctuation, the glyph is the first of its line,
/// and its text starts with opening punctuation.
pub fn hangs_opening_glyph(hanging_punctuation: bool, glyph_index: usize, cluster: &str) -> (r:
    bool)
    ensures
        r == (hanging_punctuation && glyph_index == 0 && cluster@.len() > 0
            && is_opening_punctuation(cluster@[0])),
{
    if !hanging_punctuation || glyph_index != 0 {
        return false;
    }
    let mut first: Option<char> = None;
    for c in it: cluster.chars()
        invariant
            it.seq() == cluster@,
            first == if it.index() > 0 {
                Some(cluster@[0])
            } else {
                None::<char>
            },
    {
        if first.is_none() {
            first = Some(c);
        }
    }
    match first {
        Some(c) => is_hanging_opening_punctuation(c),
        None => false,
    }
}


/// The closing punctuation that may hang past the end of a line is exactly
/// the marks `, . : ; ! ? ) ] } >` and `，。、：；！？）】》」』〉〕］｝`; so an
/// overflowing unit ending in one of them, in a paragraph that lets
/// punctuation hang, hangs at the end of its line.
pub proof fn lemma_closing_punctuation_marks(c: char)
    ensures
        is_closing_punctuation(c) <==> seq![
            ',', '.', ':', ';', '!', '?', ')', ']', '}', '>', '，', '。', '、', '：', '；', '！',
            '？', '）', '】', '》', '」', '』', '〉', '〕', '］', '｝',
        ].contains(c),
        seq![
            ',', '.', ':', ';', '!', '?', ')', ']', '}', '>', '，', '。', '、', '：', '；', '！',
            '？', '）', '】', '》', '」', '』', '〉', '〕', '］', '｝',
        ].contains(c) ==> crate::explicit_wrap::placement_of(true, is_closing_punctuation(c), true)
            == crate::explicit_wrap::UnitPlacement::Hang,
{
    let marks = seq![
        ',', '.', ':', ';', '!', '?', ')', ']', '}', '>', '，', '。', '、', '：', '；', '！',
        '？', '）', '】', '》', '」', '』', '〉', '〕', '］', '｝',
    ];
    assert(marks.len() == 26);
    assert(marks[0] == ',' && marks[1] == '.' && marks[2] == ':' && marks[3] == ';');
    assert(marks[4] == '!' && marks[5] == '?' && marks[6] == ')' && marks[7] == ']');
    assert(marks[8] == '}' && marks[9] == '>' && marks[10] == '，' && marks[11] == '。');
    assert(marks[12] == '、' && marks[13] == '：' && marks[14] == '；' && marks[15] == '！');
    assert(marks[16] == '？' && marks[17] == '）' && marks[18] == '】' && marks[19] == '》');
    assert(marks[20] == '」' && marks[21] == '』' && marks[22] == '〉' && marks[23] == '〕');
    assert(marks[24] == '］' && marks[25] == '｝');
    if is_closing_punctuation(c) {
        let u = c as u32;
        if c == ',' { assert(marks[0] == c); }
        else if c == '.' { assert(marks[1] == c); }
        else if c == ':' { assert(marks[2] == c); }
        else if c == ';' { assert(marks[3] == c); }
        else if c == '!' { assert(marks[4] == c); }
        else if c == '?' { assert(marks[5] == c); }
        else if c == ')' { assert(marks[6] == c); }
        else if c == ']' { assert(marks[7] == c); }
        else if c == '}' { assert(marks[8] == c); }
        else if c == '>' { assert(marks[9] == c); }
        else if u == 0xFF0C { assert(marks[10] == c); }
        else if u == 0x3002 { assert(marks[11] == c); }
        else if u == 0x3001 { assert(marks[12] == c); }
        else if u == 0xFF1A { assert(marks[13] == c); }
        else if u == 0xFF1B { assert(marks[14] == c); }
        else if u == 0xFF01 { assert(marks[15] == c); }
        else if u == 0xFF1F { assert(marks[16] == c); }
        else if u == 0xFF09 { assert(marks[17] == c); }
        else if u == 0x3011 { assert(marks[18] == c); }
        else if u == 0x300B { assert(marks[19] == c); }
        else if u == 0x300D { assert(marks[20] == c); }
        else if u == 0x300F { assert(marks[21] == c); }
        else if u == 0x3009 { assert(marks[22] == c); }
        else if u == 0x3015 { assert(marks[23] == c); }
        else if u == 0xFF3D { assert(marks[24] == c); }
        else { assert(marks[25] == c); }
    }
}

} // verus!
