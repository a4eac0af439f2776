//! The units in which a paragraph is measured when its lines are broken by
//! hand: every run of ASCII letters and digits stays together, and every
//! other character stands alone.
use vstd::prelude::*;
use vstd::utf8::encode_utf8;
use crate::char_seq::{
    is_alnum, is_alnum_char, lemma_utf8_len_bounds, lemma_utf8_len_concat,
    lemma_utf8_len_is_encoding_len, range_utf8_len, str_chars, utf8_len,
};

verus! {

/// One measuring unit of a paragraph. `start..end` is its byte range in the
/// paragraph text (the contents of all runs, joined), `char_start..char_end`
/// its range of characters there, and `run` the run whose style it takes.
#[derive(Debug, Clone, Copy, PartialEq, Eq)]
pub struct HorizontalWrapUnit {
    pub start: usize,
    pub end: usize,
    pub run: usize,
    pub char_start: usize,
    pub char_end: usize,
}

/// The characters of each run.
pub open spec fn run_texts(runs: Seq<String>) -> Seq<Seq<char>> {
    runs.map_values(|r: String| r@)
}

/// The texts joined in order.
pub open spec fn concat_texts(ts: Seq<Seq<char>>) -> Seq<char>
    decreases ts.len(),
{
    if ts.len() == 0 {
        Seq::<char>::empty()
    } else {
        concat_texts(ts.drop_last()) + ts.last()
    }
}

/// The character index in the joined text at which text `i` starts.
pub open spec fn run_start(ts: Seq<Seq<char>>, i: int) -> int {
    concat_texts(ts.take(i)).len() as int
}

/// `t[ls..le]` is a measuring unit of `t`: a single character that is not an
/// ASCII letter or digit, or a run of ASCII letters and digits that cannot be
/// extended on either side.
pub open spec fn unit_shape(t: Seq<char>, ls: int, le: int) -> bool {
    &&& 0 <= ls < le <= t.len()
    &&& {
        ||| (le == ls + 1 && !is_alnum_char(t[ls]))
        ||| {
            &&& (forall|k: int| ls <= k < le ==> is_alnum_char(#[trigger] t[k]))
            &&& (ls == 0 || !is_alnum_char(t[ls - 1]))
            &&& (le == t.len() || !is_alnum_char(t[le]))
        }
    }
}

/// The unit lies in its run, has a measuring unit's shape there, and its byte
/// range is the UTF-8 image of its character range.
pub open spec fn unit_fits(ts: Seq<Seq<char>>, u: HorizontalWrapUnit) -> bool {
    let text = concat_texts(ts);
    &&& u.run < ts.len()
    &&& unit_shape(
        ts[u.run as int],
        u.char_start - run_start(ts, u.run as int),
        u.char_end - run_start(ts, u.run as int),
    )
    &&& u.start == utf8_len(text.take(u.char_start as int))
    &&& u.end == utf8_len(text.take(u.char_end as int))
}

/// The units cut the joined text into consecutive pieces, in order, each of
/// them a measuring unit of one run.
pub open spec fn wrap_units_valid(ts: Seq<Seq<char>>, units: Seq<HorizontalWrapUnit>) -> bool {
    let text = concat_texts(ts);
    &&& (units.len() == 0 <==> text.len() == 0)
    &&& units.len() > 0 ==> units[0].char_start == 0 && units.last().char_end == text.len()
    &&& forall|k: int|
        0 <= k < units.len() - 1 ==> #[trigger] units[k].char_end == units[k + 1].char_start
    &&& forall|k: int| 0 <= k < units.len() ==> unit_fits(ts, #[trigger] units[k])
}

/// The joined text starts with the join of the first texts, and text `i`
/// follows it.
pub proof fn lemma_concat_prefix(ts: Seq<Seq<char>>, i: int)
    requires
        0 <= i <= ts.len(),
    ensures
        concat_texts(ts).take(run_start(ts, i)) == concat_texts(ts.take(i)),
        run_start(ts, i) <= concat_texts(ts).len(),
        i < ts.len() ==> run_start(ts, i + 1) == run_start(ts, i) + ts[i].len(),
        i < ts.len() ==> concat_texts(ts).subrange(run_start(ts, i), run_start(ts, i + 1))
            == ts[i],
        i == ts.len() ==> run_start(ts, i) == concat_texts(ts).len(),
    decreases ts.len(),
{
    let text = concat_texts(ts);
    if i == ts.len() {
        assert(ts.take(i) =~= ts);
        assert(text.take(text.len() as int) =~= text);
    } else {
        let front = ts.drop_last();
        lemma_concat_prefix(front, i);
        assert(front.take(i) =~= ts.take(i));
        assert(ts.take(i + 1).drop_last() =~= ts.take(i));
        assert(ts.take(i + 1).last() == ts[i]);
        assert(text == concat_texts(front) + ts.last());
        let rs = run_start(ts, i);
        assert(text.take(rs) =~= concat_texts(front).take(rs));
        if i + 1 < ts.len() {
            lemma_concat_prefix(front, i + 1);
            assert(front.take(i + 1) =~= ts.take(i + 1));
            let re = run_start(ts, i + 1);
            assert(text.subrange(rs, re) =~= concat_texts(front).subrange(rs, re));
        } else {
            assert(ts.take(i + 1) =~= ts);
            assert(front.take(i) =~= front);
            assert(text.subrange(rs, run_start(ts, i + 1)) =~= ts.last());
        }
    }
}

/// The end of the measuring unit that starts at `j`.
fn unit_end(chars: &Vec<char>, j: usize) -> (next: usize)
    requires
        j < chars.len(),
    ensures
        j < next <= chars.len(),
        (next == j + 1 && !is_alnum_char(chars@[j as int])) || ((forall|k: int|
            j <= k < next ==> is_alnum_char(#[trigger] chars@[k])) && (next == chars.len()
            || !is_alnum_char(chars@[next as int]))),
{
    let mut next = j + 1;
    if is_alnum(chars[j]) {
        while next < chars.len() && is_alnum(chars[next])
            invariant
                j < next <= chars.len(),
                forall|k: int| j <= k < next ==> is_alnum_char(#[trigger] chars@[k]),
            decreases chars.len() - next,
        {
            next = next + 1;
        }
    }
    next
}

/// Cuts the runs of a paragraph into measuring units: each maximal stretch of
/// ASCII letters and digits inside one run is one unit, and every other
/// character is a unit of its own.
pub fn collect_horizontal_wrap_units(runs: &Vec<String>) -> (units: Vec<HorizontalWrapUnit>)
    requires
        utf8_len(concat_texts(run_texts(runs@))) <= usize::MAX,
    ensures
        wrap_units_valid(run_texts(runs@), units@),
{
    let ghost ts = run_texts(runs@);
    let ghost text = concat_texts(ts);
    let mut units: Vec<HorizontalWrapUnit> = Vec::new();
    let mut char_offset: usize = 0;
    let mut byte_offset: usize = 0;
    let mut r: usize = 0;
    proof {
        lemma_utf8_len_bounds(text, 0);
        assert(ts.take(0) =~= Seq::<Seq<char>>::empty());
        assert(text.take(0) =~= Seq::<char>::empty());
    }
    while r < runs.len()
        invariant
            ts == run_texts(runs@),
            text == concat_texts(ts),
            utf8_len(text) <= usize::MAX,
            text.len() <= utf8_len(text),
            r <= runs.len(),
            char_offset == run_start(ts, r as int),
            byte_offset == utf8_len(text.take(char_offset as int)),
            units.len() == 0 ==> char_offset == 0,
            units.len() > 0 ==> units@[0].char_start == 0 && units@.last().char_end
                == char_offset,
            forall|k: int|
                0 <= k < units.len() - 1 ==> #[trigger] units@[k].char_end == units@[k
                    + 1].char_start,
            forall|k: int| 0 <= k < units.len() ==> unit_fits(ts, #[trigger] units@[k]),
            forall|k: int| 0 <= k < units.len() ==> #[trigger] units@[k].run < r,
        decreases runs.len() - r,
    {
        let chars = str_chars(runs[r].as_str());
        let ghost t = ts[r as int];
        let ghost rs = char_offset as int;
        proof {
            lemma_concat_prefix(ts, r as int);
            lemma_concat_prefix(ts, r as int + 1);
        }
        assert(chars@ == t);
        let mut j: usize = 0;
        while j < chars.len()
            invariant
                ts == run_texts(runs@),
                text == concat_texts(ts),
                utf8_len(text) <= usize::MAX,
                text.len() <= utf8_len(text),
                r < runs.len(),
                t == ts[r as int],
                chars@ == t,
                rs == run_start(ts, r as int),
                rs + t.len() == run_start(ts, r as int + 1),
                0 <= rs,
                rs + t.len() <= text.len(),
                text.subrange(rs, rs + t.len()) == t,
                j <= chars.len(),
                char_offset == rs + j,
                byte_offset == utf8_len(text.take(char_offset as int)),
                0 < j < t.len() && is_alnum_char(t[j as int]) ==> !is_alnum_char(t[j - 1]),
                units.len() == 0 ==> char_offset == 0,
                units.len() > 0 ==> units@[0].char_start == 0 && units@.last().char_end
                    == char_offset,
                forall|k: int|
                    0 <= k < units.len() - 1 ==> #[trigger] units@[k].char_end == units@[k
                        + 1].char_start,
                forall|k: int| 0 <= k < units.len() ==> unit_fits(ts, #[trigger] units@[k]),
                forall|k: int| 0 <= k < units.len() ==> #[trigger] units@[k].run <= r,
            decreases chars.len() - j,
        {
            let start_bytes = byte_offset;
            let start_char = char_offset;
            let next = unit_end(&chars, j);
            proof {
                let sub = t.subrange(j as int, next as int);
                assert(text.take(rs + next) =~= text.take(rs + j) + sub) by {
                    assert forall|k: int| rs + j <= k < rs + next implies #[trigger] text[k]
                        == sub[k - rs - j] by {
                        assert(text.subrange(rs, rs + t.len())[k - rs] == text[k]);
                    }
                }
                lemma_utf8_len_concat(text.take(rs + j), sub);
                lemma_utf8_len_bounds(text, rs + next);
                assert(chars@.subrange(j as int, next as int) == sub);
            }
            let n = range_utf8_len(&chars, j, next);
            byte_offset = byte_offset + n;
            char_offset = char_offset + (next - j);
            let unit = HorizontalWrapUnit {
                start: start_bytes,
                end: byte_offset,
                run: r,
                char_start: start_char,
                char_end: char_offset,
            };
            assert(unit_shape(t, j as int, next as int));
            units.push(unit);
            j = next;
        }
        r += 1;
    }
    proof {
        lemma_concat_prefix(ts, r as int);
    }
    units
}

/// The byte ranges of the units follow one another without gaps, none is
/// empty, and together they cover the UTF-8 bytes of the paragraph text: the
/// first starts at byte 0 and the last ends at the text's byte length.
pub proof fn lemma_wrap_units_cover_bytes(ts: Seq<Seq<char>>, units: Seq<HorizontalWrapUnit>)
    requires
        wrap_units_valid(ts, units),
    ensures
        units.len() > 0 ==> units[0].start == 0 && units.last().end == encode_utf8(
            concat_texts(ts),
        ).len(),
        forall|k: int| 0 <= k < units.len() - 1 ==> #[trigger] units[k].end == units[k + 1].start,
        forall|k: int| 0 <= k < units.len() ==> #[trigger] units[k].start < units[k].end,
{
    let text = concat_texts(ts);
    if units.len() > 0 {
        assert(unit_fits(ts, units[0]));
        assert(text.take(0) =~= Seq::<char>::empty());
        let last = units.last();
        assert(unit_fits(ts, units[units.len() - 1]));
        assert(text.take(text.len() as int) =~= text);
        lemma_utf8_len_is_encoding_len(text);
    }
    assert forall|k: int| 0 <= k < units.len() - 1 implies #[trigger] units[k].end == units[k
        + 1].start by {
        assert(unit_fits(ts, units[k]));
        assert(unit_fits(ts, units[k + 1]));
        assert(units[k].char_end == units[k + 1].char_start);
    }
    assert forall|k: int| 0 <= k < units.len() implies #[trigger] units[k].start < units[k].end by {
        let u = units[k];
        assert(unit_fits(ts, u));
        let rs = run_start(ts, u.run as int);
        lemma_concat_prefix(ts, u.run as int);
        lemma_concat_prefix(ts, u.run as int + 1);
        let a = u.char_start as int;
        let b = u.char_end as int;
        assert(a < b <= text.len());
        assert(text.take(b) =~= text.take(a) + text.subrange(a, b));
        lemma_utf8_len_concat(text.take(a), text.subrange(a, b));
        lemma_utf8_len_bounds(text.subrange(a, b), 0);
    }
}

} // verus!
