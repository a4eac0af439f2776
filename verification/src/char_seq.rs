//! Character classes and the character-sequence operations that the layout
//! and colour code build on: splitting on a separator, trimming whitespace
//! and reading unsigned decimal numbers.
use vstd::prelude::*;
use vstd::utf8::{char_is_scalar, encode_scalar, encode_utf8};

verus! {

// ---------------------------------------------------------------------------
// Character classes
// ---------------------------------------------------------------------------

/// An ASCII decimal digit.
pub open spec fn is_digit_char(c: char) -> bool {
    '0' <= c <= '9'
}

/// An ASCII letter or digit.
pub open spec fn is_alnum_char(c: char) -> bool {
    ||| ('0' <= c <= '9')
    ||| ('A' <= c <= 'Z')
    ||| ('a' <= c <= 'z')
}

/// A character of the 7-bit ASCII range.
pub open spec fn is_ascii_char(c: char) -> bool {
    (c as u32) < 0x80
}

/// An ASCII control character (U+0000..=U+001F or U+007F).
pub open spec fn is_control_char(c: char) -> bool {
    (c as u32) < 0x20 || (c as u32) == 0x7F
}

/// A character with the Unicode `White_Space` property.
pub open spec fn is_space_char(c: char) -> bool {
    let u = c as u32;
    ||| (0x09 <= u <= 0x0D)
    ||| u == 0x20
    ||| u == 0x85
    ||| u == 0xA0
    ||| u == 0x1680
    ||| (0x2000 <= u <= 0x200A)
    ||| u == 0x2028
    ||| u == 0x2029
    ||| u == 0x202F
    ||| u == 0x205F
    ||| u == 0x3000
}

/// The ASCII lower-case form of a character; other characters are unchanged.
pub open spec fn ascii_lower(c: char) -> char {
    if 'A' <= c <= 'Z' {
        ((c as u32) + 32) as char
    } else {
        c
    }
}

pub fn is_digit(c: char) -> (r: bool)
    ensures
        r == is_digit_char(c),
{
    '0' <= c && c <= '9'
}

pub fn is_alnum(c: char) -> (r: bool)
    ensures
        r == is_alnum_char(c),
{
    ('0' <= c && c <= '9') || ('A' <= c && c <= 'Z') || ('a' <= c && c <= 'z')
}

pub fn is_space(c: char) -> (r: bool)
    ensures
        r == is_space_char(c),
{
    let u = c as u32;
    (0x09 <= u && u <= 0x0D) || u == 0x20 || u == 0x85 || u == 0xA0 || u == 0x1680 || (0x2000
        <= u && u <= 0x200A) || u == 0x2028 || u == 0x2029 || u == 0x202F || u == 0x205F || u
        == 0x3000
}

pub fn to_ascii_lower(c: char) -> (r: char)
    ensures
        r == ascii_lower(c),
{
    if 'A' <= c && c <= 'Z' {
        let b = c as u8;
        (b + 32) as char
    } else {
        c
    }
}

// ---------------------------------------------------------------------------
// Strings as character vectors
// ---------------------------------------------------------------------------

/// The characters of a string slice, in order.
pub fn str_chars(s: &str) -> (v: Vec<char>)
    ensures
        v@ == s@,
{
    let mut v: Vec<char> = Vec::new();
    for c in it: s.chars()
        invariant
            it.seq() == s@,
            v@ == s@.take(it.index() as int),
    {
        v.push(c);
    }
    v
}

/// Whether a string slice holds exactly the characters of `lit`.
pub fn str_is(s: &str, lit: &[char]) -> (r: bool)
    ensures
        r == (s@ == lit@),
{
    let chars = str_chars(s);
    chars_equal(chars.as_slice(), lit)
}

/// Whether two character slices hold the same characters.
pub fn chars_equal(a: &[char], b: &[char]) -> (r: bool)
    ensures
        r == (a@ == b@),
{
    if a.len() != b.len() {
        return false;
    }
    let mut i: usize = 0;
    while i < a.len()
        invariant
            a.len() == b.len(),
            i <= a.len(),
            forall|k: int| 0 <= k < i ==> a@[k] == b@[k],
        decreases a.len() - i,
    {
        if a[i] != b[i] {
            return false;
        }
        i += 1;
    }
    assert(a@ =~= b@);
    true
}

// ---------------------------------------------------------------------------
// Splitting on a separator
// ---------------------------------------------------------------------------

/// The pieces of `s` between occurrences of `sep`, as `str::split` with a
/// `char` pattern yields them: an empty input gives one empty piece, and a
/// separator at either end gives an empty piece there.
pub open spec fn split_on(s: Seq<char>, sep: char) -> Seq<Seq<char>>
    decreases s.len(),
{
    if s.len() == 0 {
        seq![Seq::<char>::empty()]
    } else {
        let parts = split_on(s.drop_last(), sep);
        if s.last() == sep {
            parts.push(Seq::<char>::empty())
        } else {
            parts.update(parts.len() - 1, parts.last().push(s.last()))
        }
    }
}

/// The texts that a list of index ranges selects from `s`.
pub open spec fn range_texts(s: Seq<char>, ranges: Seq<(usize, usize)>) -> Seq<Seq<char>> {
    Seq::new(ranges.len(), |k: int| s.subrange(ranges[k].0 as int, ranges[k].1 as int))
}

/// Splitting never yields an empty list of pieces.
pub proof fn lemma_split_on_nonempty(s: Seq<char>, sep: char)
    ensures
        split_on(s, sep).len() >= 1,
    decreases s.len(),
{
    if s.len() > 0 {
        lemma_split_on_nonempty(s.drop_last(), sep);
    }
}

/// The ranges of the pieces of `s[lo..hi]` separated by `sep`.
pub fn split_ranges(s: &Vec<char>, lo: usize, hi: usize, sep: char) -> (ranges: Vec<(usize, usize)>)
    requires
        lo <= hi <= s.len(),
    ensures
        range_texts(s@, ranges@) == split_on(s@.subrange(lo as int, hi as int), sep),
        forall|k: int|
            0 <= k < ranges.len() ==> lo <= #[trigger] ranges@[k].0 <= ranges@[k].1 <= hi,
{
    let mut ranges: Vec<(usize, usize)> = Vec::new();
    let mut start = lo;
    let mut i = lo;
    assert(s@.subrange(lo as int, lo as int) =~= Seq::<char>::empty());
    assert(range_texts(s@, ranges@).push(s@.subrange(start as int, i as int)) =~= split_on(
        s@.subrange(lo as int, i as int),
        sep,
    ));
    while i < hi
        invariant
            lo <= start <= i <= hi <= s.len(),
            forall|k: int|
                0 <= k < ranges.len() ==> lo <= #[trigger] ranges@[k].0 <= ranges@[k].1 <= start,
            range_texts(s@, ranges@).push(s@.subrange(start as int, i as int)) == split_on(
                s@.subrange(lo as int, i as int),
                sep,
            ),
        decreases hi - i,
    {
        let ghost prev = range_texts(s@, ranges@);
        let ghost whole = s@.subrange(lo as int, i as int + 1);
        assert(whole.drop_last() =~= s@.subrange(lo as int, i as int));
        assert(whole.last() == s@[i as int]);
        proof {
            lemma_split_on_nonempty(whole.drop_last(), sep);
        }
        if s[i] == sep {
            ranges.push((start, i));
            assert(range_texts(s@, ranges@) =~= prev.push(s@.subrange(start as int, i as int)));
            start = i + 1;
            assert(s@.subrange(start as int, i as int + 1) =~= Seq::<char>::empty());
            assert(range_texts(s@, ranges@).push(s@.subrange(start as int, i as int + 1))
                =~= split_on(whole, sep));
        } else {
            assert(s@.subrange(start as int, i as int + 1) =~= s@.subrange(
                start as int,
                i as int,
            ).push(s@[i as int]));
            assert(range_texts(s@, ranges@).push(s@.subrange(start as int, i as int + 1))
                =~= split_on(whole, sep));
        }
        i += 1;
    }
    let ghost prev = range_texts(s@, ranges@);
    ranges.push((start, hi));
    assert(range_texts(s@, ranges@) =~= prev.push(s@.subrange(start as int, hi as int)));
    ranges
}

/// The pieces joined again, with `sep` between each two.
pub open spec fn join_on(parts: Seq<Seq<char>>, sep: char) -> Seq<char>
    decreases parts.len(),
{
    if parts.len() <= 1 {
        if parts.len() == 1 {
            parts[0]
        } else {
            Seq::<char>::empty()
        }
    } else {
        join_on(parts.drop_last(), sep).push(sep) + parts.last()
    }
}

proof fn lemma_join_extend_last(parts: Seq<Seq<char>>, sep: char, c: char)
    requires
        parts.len() >= 1,
    ensures
        join_on(parts.update(parts.len() - 1, parts.last().push(c)), sep) == join_on(parts, sep).push(c),
{
    let q = parts.update(parts.len() - 1, parts.last().push(c));
    if parts.len() == 1 {
        assert(q[0] == parts[0].push(c));
    } else {
        assert(q.drop_last() =~= parts.drop_last());
        assert(join_on(q, sep) =~= join_on(parts, sep).push(c));
    }
}

/// Splitting loses nothing: the pieces joined with the separator give back
/// the text, and no piece holds the separator.
pub proof fn lemma_split_join(s: Seq<char>, sep: char)
    ensures
        join_on(split_on(s, sep), sep) == s,
        forall|k: int, i: int|
            0 <= k < split_on(s, sep).len() && 0 <= i < split_on(s, sep)[k].len()
                ==> #[trigger] split_on(s, sep)[k][i] != sep,
    decreases s.len(),
{
    if s.len() == 0 {
    } else {
        let t = s.drop_last();
        lemma_split_join(t, sep);
        lemma_split_on_nonempty(t, sep);
        let parts = split_on(t, sep);
        if s.last() == sep {
            let q = parts.push(Seq::<char>::empty());
            assert(q.drop_last() =~= parts);
            assert(join_on(q, sep) =~= t.push(sep));
            assert(t.push(sep) =~= s);
            assert forall|k: int, i: int|
                0 <= k < q.len() && 0 <= i < q[k].len() implies #[trigger] q[k][i] != sep by {
                assert(q[k] == parts[k]);
            }
        } else {
            lemma_join_extend_last(parts, sep, s.last());
            assert(t.push(s.last()) =~= s);
            let q = parts.update(parts.len() - 1, parts.last().push(s.last()));
            assert forall|k: int, i: int|
                0 <= k < q.len() && 0 <= i < q[k].len() implies #[trigger] q[k][i] != sep by {
                if k < parts.len() - 1 {
                    assert(q[k] == parts[k]);
                } else if i < parts.last().len() {
                    assert(q[k][i] == parts[k][i]);
                }
            }
        }
    }
}

/// Splitting at a separator that joins two texts gives the pieces of the
/// first followed by the pieces of the second.
pub proof fn lemma_split_on_concat(a: Seq<char>, b: Seq<char>, sep: char)
    ensures
        split_on(a + seq![sep] + b, sep) == split_on(a, sep) + split_on(b, sep),
    decreases b.len(),
{
    let x = a + seq![sep] + b;
    if b.len() == 0 {
        assert(x.drop_last() =~= a);
        assert(split_on(b, sep) =~= seq![Seq::<char>::empty()]);
        assert(split_on(x, sep) =~= split_on(a, sep) + split_on(b, sep));
    } else {
        let b1 = b.drop_last();
        lemma_split_on_concat(a, b1, sep);
        assert(x.drop_last() =~= a + seq![sep] + b1);
        assert(x.last() == b.last());
        lemma_split_on_nonempty(b1, sep);
        lemma_split_on_nonempty(a, sep);
        let pa = split_on(a, sep);
        let pb = split_on(b1, sep);
        if b.last() == sep {
            assert(split_on(x, sep) =~= pa + pb.push(Seq::<char>::empty()));
        } else {
            let p = pa + pb;
            assert(p.last() == pb.last());
            assert(p.update(p.len() - 1, p.last().push(b.last())) =~= pa + pb.update(
                pb.len() - 1,
                pb.last().push(b.last()),
            ));
        }
    }
}

/// A text without the separator is a single piece.
pub proof fn lemma_split_on_single(a: Seq<char>, sep: char)
    requires
        forall|i: int| 0 <= i < a.len() ==> #[trigger] a[i] != sep,
    ensures
        split_on(a, sep) == seq![a],
    decreases a.len(),
{
    if a.len() > 0 {
        let t = a.drop_last();
        assert forall|i: int| 0 <= i < t.len() implies #[trigger] t[i] != sep by {
            assert(t[i] == a[i]);
        }
        lemma_split_on_single(t, sep);
        assert(t.push(a.last()) =~= a);
        assert(split_on(a, sep) =~= seq![a]);
    } else {
        assert(a =~= Seq::<char>::empty());
    }
}

// ---------------------------------------------------------------------------
// Trimming whitespace
// ---------------------------------------------------------------------------

/// `s` without its leading whitespace.
pub open spec fn trim_start(s: Seq<char>) -> Seq<char>
    decreases s.len(),
{
    if s.len() > 0 && is_space_char(s[0]) {
        trim_start(s.drop_first())
    } else {
        s
    }
}

/// `s` without its trailing whitespace.
pub open spec fn trim_end(s: Seq<char>) -> Seq<char>
    decreases s.len(),
{
    if s.len() > 0 && is_space_char(s.last()) {
        trim_end(s.drop_last())
    } else {
        s
    }
}

/// `s` without leading and trailing whitespace, as `str::trim` gives it.
pub open spec fn trim(s: Seq<char>) -> Seq<char> {
    trim_end(trim_start(s))
}

proof fn lemma_trim_start_skip(s: Seq<char>, k: int)
    requires
        0 <= k <= s.len(),
        forall|i: int| 0 <= i < k ==> is_space_char(#[trigger] s[i]),
        k == s.len() || !is_space_char(s[k]),
    ensures
        trim_start(s) == s.skip(k),
    decreases k,
{
    if k == 0 {
        assert(s.skip(0) =~= s);
    } else {
        let t = s.drop_first();
        assert forall|i: int| 0 <= i < k - 1 implies is_space_char(#[trigger] t[i]) by {
            assert(t[i] == s[i + 1]);
        }
        if k - 1 < t.len() {
            assert(t[k - 1] == s[k]);
        }
        lemma_trim_start_skip(t, k - 1);
        assert(t.skip(k - 1) =~= s.skip(k));
    }
}

proof fn lemma_trim_end_take(s: Seq<char>, k: int)
    requires
        0 <= k <= s.len(),
        forall|i: int| k <= i < s.len() ==> is_space_char(#[trigger] s[i]),
        k == 0 || !is_space_char(s[k - 1]),
    ensures
        trim_end(s) == s.take(k),
    decreases s.len() - k,
{
    if k == s.len() {
        assert(s.take(k) =~= s);
    } else {
        let t = s.drop_last();
        assert(is_space_char(s.last()));
        assert forall|i: int| k <= i < t.len() implies is_space_char(#[trigger] t[i]) by {
            assert(t[i] == s[i]);
        }
        if k > 0 {
            assert(t[k - 1] == s[k - 1]);
        }
        lemma_trim_end_take(t, k);
        assert(t.take(k) =~= s.take(k));
    }
}

/// The range of `s[a..b]` that remains once leading and trailing whitespace
/// is removed.
pub fn trim_range(s: &Vec<char>, a: usize, b: usize) -> (r: (usize, usize))
    requires
        a <= b <= s.len(),
    ensures
        a <= r.0 <= r.1 <= b,
        s@.subrange(r.0 as int, r.1 as int) == trim(s@.subrange(a as int, b as int)),
{
    let mut i = a;
    while i < b && is_space(s[i])
        invariant
            a <= i <= b <= s.len(),
            forall|k: int| a <= k < i ==> is_space_char(#[trigger] s@[k]),
        decreases b - i,
    {
        i += 1;
    }
    let mut j = b;
    while j > i && is_space(s[j - 1])
        invariant
            a <= i <= j <= b <= s.len(),
            forall|k: int| j <= k < b ==> is_space_char(#[trigger] s@[k]),
        decreases j - i,
    {
        j -= 1;
    }
    proof {
        let t = s@.subrange(a as int, b as int);
        assert forall|k: int| 0 <= k < i - a implies is_space_char(#[trigger] t[k]) by {
            assert(t[k] == s@[a + k]);
        }
        if i < b {
            assert(t[i - a] == s@[i as int]);
        }
        lemma_trim_start_skip(t, i - a);
        let u = s@.subrange(i as int, b as int);
        assert(t.skip(i - a) =~= u);
        assert forall|k: int| j - i <= k < u.len() implies is_space_char(#[trigger] u[k]) by {
            assert(u[k] == s@[i + k]);
        }
        if j > i {
            assert(u[j - i - 1] == s@[j - 1]);
        }
        lemma_trim_end_take(u, j - i);
        assert(u.take(j - i) =~= s@.subrange(i as int, j as int));
    }
    (i, j)
}

// ---------------------------------------------------------------------------
// Unsigned decimal numbers
// ---------------------------------------------------------------------------

/// Every character of `s` is an ASCII digit.
pub open spec fn all_digits(s: Seq<char>) -> bool {
    forall|i: int| 0 <= i < s.len() ==> is_digit_char(#[trigger] s[i])
}

/// The value of a string of decimal digits.
pub open spec fn decimal_value(s: Seq<char>) -> int
    decreases s.len(),
{
    if s.len() == 0 {
        0
    } else {
        decimal_value(s.drop_last()) * 10 + ((s.last() as int) - ('0' as int))
    }
}

/// The digits of an unsigned number: the text without one leading `+`.
pub open spec fn unsigned_digits(s: Seq<char>) -> Seq<char> {
    if s.len() > 0 && s[0] == '+' {
        s.drop_first()
    } else {
        s
    }
}

/// The `u8` that `str::parse::<u8>` reads from `s`: an optional `+`, then at
/// least one digit, with a value of at most 255.
pub open spec fn parse_u8_decimal(s: Seq<char>) -> Option<u8> {
    let d = unsigned_digits(s);
    if d.len() > 0 && all_digits(d) && decimal_value(d) <= 255 {
        Some(decimal_value(d) as u8)
    } else {
        None
    }
}

proof fn lemma_decimal_value_prefix(s: Seq<char>, m: int)
    requires
        all_digits(s),
        0 <= m <= s.len(),
    ensures
        0 <= decimal_value(s.take(m)) <= decimal_value(s),
    decreases s.len(),
{
    if s.len() == 0 {
        assert(s.take(m) =~= s);
    } else if m == s.len() {
        assert(s.take(m) =~= s);
        lemma_decimal_value_prefix(s.drop_last(), m - 1);
        assert(s.drop_last().take(m - 1) =~= s.drop_last());
        assert(is_digit_char(s.last()));
    } else {
        let t = s.drop_last();
        assert(all_digits(t)) by {
            assert forall|i: int| 0 <= i < t.len() implies is_digit_char(#[trigger] t[i]) by {
                assert(t[i] == s[i]);
            }
        }
        lemma_decimal_value_prefix(t, m);
        lemma_decimal_value_prefix(t, t.len() as int);
        assert(t.take(m) =~= s.take(m));
        assert(t.take(t.len() as int) =~= t);
        assert(is_digit_char(s.last()));
    }
}

/// The `u8` written in decimal in `s[a..b]`, as `str::parse::<u8>` reads it.
pub fn parse_u8_range(s: &Vec<char>, a: usize, b: usize) -> (r: Option<u8>)
    requires
        a <= b <= s.len(),
    ensures
        r == parse_u8_decimal(s@.subrange(a as int, b as int)),
{
    let ghost t = s@.subrange(a as int, b as int);
    let mut k = a;
    if k < b && s[k] == '+' {
        k += 1;
    }
    let ghost d = s@.subrange(k as int, b as int);
    assert(unsigned_digits(t) =~= d);
    if k == b {
        return None;
    }
    let mut value: u32 = 0;
    let mut i = k;
    while i < b
        invariant
            a <= k <= i <= b <= s.len(),
            d == s@.subrange(k as int, b as int),
            t == s@.subrange(a as int, b as int),
            unsigned_digits(t) == d,
            all_digits(s@.subrange(k as int, i as int)),
            value as int == decimal_value(s@.subrange(k as int, i as int)),
            value <= 255,
        decreases b - i,
    {
        let c = s[i];
        let ghost before = s@.subrange(k as int, i as int);
        let ghost after = s@.subrange(k as int, i as int + 1);
        assert(after.drop_last() =~= before);
        if !is_digit(c) {
            assert(!all_digits(d)) by {
                assert(d[i - k] == c);
            }
            return None;
        }
        assert(all_digits(after)) by {
            assert forall|j: int| 0 <= j < after.len() implies is_digit_char(#[trigger] after[j]) by {
                if j < before.len() {
                    assert(after[j] == before[j]);
                }
            }
        }
        let digit = (c as u32) - ('0' as u32);
        value = value * 10 + digit;
        if value > 255 {
            proof {
                if all_digits(d) {
                    lemma_decimal_value_prefix(d, i - k + 1);
                    assert(d.take(i - k + 1) =~= after);
                }
            }
            return None;
        }
        i += 1;
    }
    assert(s@.subrange(k as int, i as int) =~= d);
    Some(value as u8)
}

// ---------------------------------------------------------------------------
// UTF-8 lengths
// ---------------------------------------------------------------------------

/// The number of bytes of the UTF-8 encoding of `c`.
pub open spec fn utf8_width(c: char) -> nat {
    encode_scalar(c as u32).len()
}

/// The number of bytes of the UTF-8 encoding of `s`.
pub open spec fn utf8_len(s: Seq<char>) -> nat
    decreases s.len(),
{
    if s.len() == 0 {
        0
    } else {
        utf8_len(s.drop_last()) + utf8_width(s.last())
    }
}

/// The UTF-8 width of a character, as `char::len_utf8` gives it.
pub fn char_utf8_width(c: char) -> (w: usize)
    ensures
        w == utf8_width(c),
        1 <= w <= 4,
{
    proof {
        char_is_scalar(c);
    }
    let u = c as u32;
    if u < 0x80 {
        1
    } else if u < 0x800 {
        2
    } else if u < 0x10000 {
        3
    } else {
        4
    }
}

/// Each character takes at least one byte, and a prefix takes no more bytes
/// than the whole.
pub proof fn lemma_utf8_len_bounds(s: Seq<char>, m: int)
    requires
        0 <= m <= s.len(),
    ensures
        s.len() <= utf8_len(s),
        utf8_len(s.take(m)) <= utf8_len(s),
    decreases s.len(),
{
    if s.len() > 0 {
        char_is_scalar(s.last());
        if m == s.len() {
            assert(s.take(m) =~= s);
            lemma_utf8_len_bounds(s.drop_last(), 0);
        } else {
            lemma_utf8_len_bounds(s.drop_last(), m);
            assert(s.drop_last().take(m) =~= s.take(m));
        }
    } else {
        assert(s.take(m) =~= s);
    }
}

/// The UTF-8 length of a concatenation is the sum of the lengths.
pub proof fn lemma_utf8_len_concat(a: Seq<char>, b: Seq<char>)
    ensures
        utf8_len(a + b) == utf8_len(a) + utf8_len(b),
    decreases b.len(),
{
    if b.len() == 0 {
        assert(a + b =~= a);
    } else {
        lemma_utf8_len_concat(a, b.drop_last());
        assert((a + b).drop_last() =~= a + b.drop_last());
        assert((a + b).last() == b.last());
    }
}

/// The number of UTF-8 bytes of `s[a..b]`.
pub fn range_utf8_len(s: &Vec<char>, a: usize, b: usize) -> (n: usize)
    requires
        a <= b <= s.len(),
        utf8_len(s@.subrange(a as int, b as int)) <= usize::MAX,
    ensures
        n == utf8_len(s@.subrange(a as int, b as int)),
{
    let mut n: usize = 0;
    let mut i = a;
    assert(s@.subrange(a as int, a as int) =~= Seq::<char>::empty());
    while i < b
        invariant
            a <= i <= b <= s.len(),
            utf8_len(s@.subrange(a as int, b as int)) <= usize::MAX,
            n == utf8_len(s@.subrange(a as int, i as int)),
        decreases b - i,
    {
        proof {
            let whole = s@.subrange(a as int, b as int);
            assert(s@.subrange(a as int, i as int + 1) =~= whole.take(i - a + 1));
            lemma_utf8_len_bounds(whole, i - a + 1);
            assert(s@.subrange(a as int, i as int + 1).drop_last() =~= s@.subrange(
                a as int,
                i as int,
            ));
        }
        n = n + char_utf8_width(s[i]);
        i += 1;
    }
    n
}

/// The UTF-8 length of a text is the length of its UTF-8 encoding, the
/// byte length of a string holding it.
pub proof fn lemma_utf8_len_is_encoding_len(s: Seq<char>)
    ensures
        utf8_len(s) == encode_utf8(s).len(),
    decreases s.len(),
{
    if s.len() > 0 {
        lemma_utf8_len_is_encoding_len(s.drop_first());
        lemma_utf8_len_concat(seq![s[0]], s.drop_first());
        assert(seq![s[0]] + s.drop_first() =~= s);
        let one = seq![s[0]];
        assert(one.drop_last() =~= Seq::<char>::empty());
        assert(utf8_len(one.drop_last()) == 0);
        assert(utf8_len(one) == utf8_width(s[0]));
        assert(encode_utf8(s).len() == encode_scalar(s[0] as u32).len() + encode_utf8(s.drop_first()).len());
    }
}

} // verus!
