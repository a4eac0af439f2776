//! The tokens of a paragraph that is set in vertical columns, and their
//! grouping into the pieces between line breaks.
//!
//! In a vertical column every character is its own token, except that ASCII
//! letters and digits that follow each other in runs of the same style stay
//! together as one upright token. A line break ends the current group of
//! tokens.
use vstd::prelude::*;
use crate::char_seq::{is_alnum, is_alnum_char, str_chars};
use crate::wrap_units::{concat_texts, run_texts};

verus! {

/// A token of a vertical column: the characters `start..end` of the paragraph
/// text (all runs joined), set in the style of run `run`.
#[derive(Debug, Clone, Copy, PartialEq, Eq)]
pub struct VerticalToken {
    pub start: usize,
    pub end: usize,
    pub run: usize,
}

/// For each character of the joined texts, the index of the text it comes from.
pub open spec fn run_ids(ts: Seq<Seq<char>>) -> Seq<int>
    decreases ts.len(),
{
    if ts.len() == 0 {
        Seq::<int>::empty()
    } else {
        run_ids(ts.drop_last()) + Seq::new(ts.last().len(), |k: int| ts.len() - 1)
    }
}

/// For each character of the joined texts, the style key of its text.
pub open spec fn char_keys(ts: Seq<Seq<char>>, keys: Seq<usize>) -> Seq<usize> {
    run_ids(ts).map_values(|r: int| keys[r])
}

/// Characters `i` and `i + 1` belong to one upright token.
pub open spec fn joins(t: Seq<char>, kc: Seq<usize>, i: int) -> bool {
    is_alnum_char(t[i]) && is_alnum_char(t[i + 1]) && kc[i] == kc[i + 1]
}

/// `t[s..e]` is a token: a single character that is neither an ASCII letter
/// or digit nor a line break, or a stretch of ASCII letters and digits of one
/// style that cannot be extended on either side.
pub open spec fn token_shape(t: Seq<char>, kc: Seq<usize>, s: int, e: int) -> bool {
    &&& 0 <= s < e <= t.len()
    &&& {
        ||| (e == s + 1 && !is_alnum_char(t[s]) && t[s] != '\n')
        ||| {
            &&& (forall|k: int| s <= k < e ==> is_alnum_char(#[trigger] t[k]))
            &&& (forall|k: int| s <= k < e - 1 ==> #[trigger] kc[k] == kc[k + 1])
            &&& (s == 0 || !joins(t, kc, s - 1))
            &&& (e == t.len() || !joins(t, kc, e - 1))
        }
    }
}

/// Every character of `t[a..b]` is a line break.
pub open spec fn all_line_breaks(t: Seq<char>, a: int, b: int) -> bool {
    forall|i: int| a <= i < b ==> #[trigger] t[i] == '\n'
}

/// The tokens, in order, are the tokens of `t`; only line breaks lie between
/// and around them.
pub open spec fn vertical_tokens_valid(
    t: Seq<char>,
    kc: Seq<usize>,
    rids: Seq<int>,
    toks: Seq<VerticalToken>,
) -> bool {
    &&& forall|k: int|
        0 <= k < toks.len() ==> token_shape(t, kc, toks[k].start as int, toks[k].end as int)
            && #[trigger] toks[k].run == rids[toks[k].start as int]
    &&& forall|k: int|
        0 <= k < toks.len() - 1 ==> #[trigger] toks[k].end <= toks[k + 1].start
            && all_line_breaks(t, toks[k].end as int, toks[k + 1].start as int)
    &&& toks.len() == 0 ==> all_line_breaks(t, 0, t.len() as int)
    &&& toks.len() > 0 ==> all_line_breaks(t, 0, toks[0].start as int) && all_line_breaks(
        t,
        toks.last().end as int,
        t.len() as int,
    )
}

/// The groups joined in order.
pub open spec fn flatten_groups(gs: Seq<Seq<VerticalToken>>) -> Seq<VerticalToken>
    decreases gs.len(),
{
    if gs.len() == 0 {
        Seq::<VerticalToken>::empty()
    } else {
        flatten_groups(gs.drop_last()) + gs.last()
    }
}

/// The groups are the maximal stretches of tokens that follow each other with
/// no line break between; a text without tokens has one empty group.
pub open spec fn token_groups_valid(toks: Seq<VerticalToken>, gs: Seq<Seq<VerticalToken>>) -> bool {
    &&& toks.len() == 0 ==> gs.len() == 1 && gs[0].len() == 0
    &&& toks.len() > 0 ==> {
        &&& flatten_groups(gs) == toks
        &&& forall|g: int| 0 <= g < gs.len() ==> #[trigger] gs[g].len() > 0
        &&& forall|g: int, k: int|
            0 <= g < gs.len() && 0 <= k < gs[g].len() - 1 ==> #[trigger] gs[g][k].end
                == gs[g][k + 1].start
        &&& forall|g: int|
            0 <= g < gs.len() - 1 ==> #[trigger] gs[g].last().end != gs[g + 1][0].start
    }
}

/// The view of a list of groups.
pub open spec fn group_views(gs: Seq<Vec<VerticalToken>>) -> Seq<Seq<VerticalToken>> {
    gs.map_values(|g: Vec<VerticalToken>| g@)
}

proof fn lemma_run_ids_len(ts: Seq<Seq<char>>)
    ensures
        run_ids(ts).len() == concat_texts(ts).len(),
        forall|i: int| 0 <= i < run_ids(ts).len() ==> 0 <= #[trigger] run_ids(ts)[i] < ts.len(),
    decreases ts.len(),
{
    if ts.len() > 0 {
        lemma_run_ids_len(ts.drop_last());
    }
}

/// The characters of all runs, with the run index and the style key of each.
fn flatten_runs(runs: &Vec<String>, keys: &Vec<usize>) -> (r: (Vec<char>, Vec<usize>, Vec<usize>))
    requires
        keys.len() == runs.len(),
    ensures
        r.0@ == concat_texts(run_texts(runs@)),
        r.1@.len() == r.0@.len(),
        r.2@.len() == r.0@.len(),
        forall|i: int| 0 <= i < r.0@.len() ==> #[trigger] r.1@[i] as int == run_ids(run_texts(runs@))[i],
        r.2@ == char_keys(run_texts(runs@), keys@),
{
    let ghost ts = run_texts(runs@);
    let mut text: Vec<char> = Vec::new();
    let mut ids: Vec<usize> = Vec::new();
    let mut kc: Vec<usize> = Vec::new();
    let mut r: usize = 0;
    assert(ts.take(0) =~= Seq::<Seq<char>>::empty());
    while r < runs.len()
        invariant
            ts == run_texts(runs@),
            keys.len() == runs.len(),
            r <= runs.len(),
            text@ == concat_texts(ts.take(r as int)),
            ids@.len() == text@.len(),
            kc@.len() == text@.len(),
            forall|i: int| 0 <= i < ids@.len() ==> #[trigger] ids@[i] as int == run_ids(ts.take(r as int))[i],
            forall|i: int| 0 <= i < kc@.len() ==> #[trigger] kc@[i] == keys@[ids@[i] as int],
        decreases runs.len() - r,
    {
        let chars = str_chars(runs[r].as_str());
        let ghost t = ts[r as int];
        assert(chars@ == t);
        let ghost base = text@;
        let ghost base_ids = run_ids(ts.take(r as int));
        proof {
            lemma_run_ids_len(ts.take(r as int));
        }
        let mut j: usize = 0;
        while j < chars.len()
            invariant
                ts == run_texts(runs@),
                keys.len() == runs.len(),
                r < runs.len(),
                chars@ == t,
                t == ts[r as int],
                base_ids.len() == base.len(),
                j <= chars.len(),
                text@ == base + t.take(j as int),
                ids@.len() == text@.len(),
                kc@.len() == text@.len(),
                forall|i: int| 0 <= i < base.len() ==> #[trigger] ids@[i] as int == base_ids[i],
                forall|i: int| base.len() <= i < ids@.len() ==> #[trigger] ids@[i] == r,
                forall|i: int| 0 <= i < kc@.len() ==> #[trigger] kc@[i] == keys@[ids@[i] as int],
            decreases chars.len() - j,
        {
            text.push(chars[j]);
            ids.push(r);
            kc.push(keys[r]);
            assert(t.take(j as int + 1) =~= t.take(j as int).push(t[j as int]));
            j += 1;
        }
        proof {
            let next = ts.take(r as int + 1);
            assert(next.drop_last() =~= ts.take(r as int));
            assert(next.last() == t);
            assert(t.take(t.len() as int) =~= t);
            assert forall|i: int| 0 <= i < ids@.len() implies #[trigger] ids@[i] as int == run_ids(
                next,
            )[i] by {
                if i >= base.len() {
                    assert(run_ids(next)[i] == next.len() - 1);
                }
            }
        }
        r += 1;
    }
    assert(ts.take(runs.len() as int) =~= ts);
    proof {
        lemma_run_ids_len(ts);
    }
    assert(kc@ =~= char_keys(ts, keys@));
    (text, ids, kc)
}

/// Scans the paragraph text into vertical tokens.
#[verifier::rlimit(50)]
#[verifier::spinoff_prover]
fn scan_vertical_tokens(t: &Vec<char>, ids: &Vec<usize>, kc: &Vec<usize>) -> (toks: Vec<
    VerticalToken,
>)
    requires
        ids.len() == t.len(),
        kc.len() == t.len(),
    ensures
        vertical_tokens_valid(t@, kc@, ids@.map_values(|x: usize| x as int), toks@),
{
    let ghost rids = ids@.map_values(|x: usize| x as int);
    let mut toks: Vec<VerticalToken> = Vec::new();
    let mut last_upright = false;
    let mut i: usize = 0;
    while i < t.len()
        invariant
            ids.len() == t.len(),
            kc.len() == t.len(),
            rids == ids@.map_values(|x: usize| x as int),
            i <= t.len(),
            forall|k: int|
                0 <= k < toks.len() ==> {
                    let s = #[trigger] toks@[k].start as int;
                    let e = toks@[k].end as int;
                    &&& 0 <= s < e <= i
                    &&& toks@[k].run == rids[s]
                    &&& {
                        ||| (e == s + 1 && !is_alnum_char(t@[s]) && t@[s] != '\n')
                        ||| {
                            &&& (forall|x: int| s <= x < e ==> is_alnum_char(#[trigger] t@[x]))
                            &&& (forall|x: int| s <= x < e - 1 ==> #[trigger] kc@[x] == kc@[x + 1])
                            &&& (s == 0 || !joins(t@, kc@, s - 1))
                            &&& (e == i || !joins(t@, kc@, e - 1))
                        }
                    }
                },
            forall|k: int|
                0 <= k < toks.len() - 1 ==> #[trigger] toks@[k].end <= toks@[k + 1].start
                    && all_line_breaks(t@, toks@[k].end as int, toks@[k + 1].start as int),
            toks.len() == 0 ==> all_line_breaks(t@, 0, i as int),
            toks.len() > 0 ==> all_line_breaks(t@, 0, toks@[0].start as int) && all_line_breaks(
                t@,
                toks@.last().end as int,
                i as int,
            ),
            toks.len() > 0 ==> (last_upright <==> is_alnum_char(t@[toks@.last().start as int])),
        decreases t.len() - i,
    {
        let c = t[i];
        let n = toks.len();
        if c == '\n' {
            assert(!is_alnum_char(c));
        } else if is_alnum(c) && n > 0 && toks[n - 1].end == i && last_upright && kc[i - 1]
            == kc[i] {
            let last = toks.pop().unwrap();
            let ghost popped = toks@;
            toks.push(VerticalToken { start: last.start, end: i + 1, run: last.run });
            assert(toks@ =~= popped.push(toks@.last()));
        } else {
            let ghost before = toks@;
            toks.push(VerticalToken { start: i, end: i + 1, run: ids[i] });
            last_upright = is_alnum(c);
            proof {
                if n > 0 {
                    assert(toks@[n - 1] == before[n - 1]);
                }
            }
        }
        i += 1;
    }
    toks
}

/// Splits the tokens into the groups that line breaks separate.
fn group_tokens(toks: &Vec<VerticalToken>) -> (gs: Vec<Vec<VerticalToken>>)
    requires
        forall|k: int| 0 <= k < toks.len() ==> #[trigger] toks@[k].start < toks@[k].end,
        forall|k: int| 0 <= k < toks.len() - 1 ==> #[trigger] toks@[k].end <= toks@[k + 1].start,
    ensures
        token_groups_valid(toks@, group_views(gs@)),
{
    let mut gs: Vec<Vec<VerticalToken>> = Vec::new();
    let mut cur: Vec<VerticalToken> = Vec::new();
    let mut k: usize = 0;
    assert(toks@.take(0) =~= Seq::<VerticalToken>::empty());
    assert(flatten_groups(group_views(gs@)) + cur@ =~= toks@.take(0));
    while k < toks.len()
        invariant
            k <= toks.len(),
            forall|x: int| 0 <= x < toks.len() ==> #[trigger] toks@[x].start < toks@[x].end,
            forall|x: int| 0 <= x < toks.len() - 1 ==> #[trigger] toks@[x].end <= toks@[x + 1].start,
            flatten_groups(group_views(gs@)) + cur@ == toks@.take(k as int),
            forall|g: int| 0 <= g < gs.len() ==> #[trigger] gs@[g]@.len() > 0,
            forall|g: int, x: int|
                0 <= g < gs.len() && 0 <= x < gs@[g]@.len() - 1 ==> #[trigger] gs@[g]@[x].end
                    == gs@[g]@[x + 1].start,
            forall|x: int| 0 <= x < cur@.len() - 1 ==> #[trigger] cur@[x].end == cur@[x + 1].start,
            forall|g: int|
                0 <= g < gs.len() - 1 ==> #[trigger] gs@[g]@.last().end != gs@[g + 1]@[0].start,
            gs.len() > 0 && cur@.len() > 0 ==> gs@.last()@.last().end != cur@[0].start,
            gs.len() > 0 && k < toks.len() ==> gs@.last()@.last().end != toks@[k as int].start
                || cur@.len() > 0,
            cur@.len() > 0 ==> cur@.last() == toks@[k - 1],
            gs.len() > 0 && cur@.len() == 0 ==> gs@.last()@.last() == toks@[k - 1],
        decreases toks.len() - k,
    {
        let tok = VerticalToken { start: toks[k].start, end: toks[k].end, run: toks[k].run };
        let ghost views_before = group_views(gs@);
        if cur.len() > 0 && cur[cur.len() - 1].end != tok.start {
            let ghost closed = cur@;
            let full = cur;
            gs.push(full);
            cur = Vec::new();
            assert(group_views(gs@) =~= views_before.push(closed));
            assert(group_views(gs@).drop_last() =~= views_before);
        }
        let ghost views_mid = group_views(gs@);
        let ghost cur_before = cur@;
        cur.push(tok);
        proof {
            assert(toks@.take(k as int + 1) =~= toks@.take(k as int).push(toks@[k as int]));
            assert(flatten_groups(views_mid) + cur@ =~= (flatten_groups(views_mid) + cur_before).push(
                tok,
            ));
        }
        k += 1;
    }
    let ghost views_before = group_views(gs@);
    if cur.len() > 0 {
        let ghost closed = cur@;
        gs.push(cur);
        assert(group_views(gs@) =~= views_before.push(closed));
        assert(group_views(gs@).drop_last() =~= views_before);
    }
    assert(toks@.take(toks.len() as int) =~= toks@);
    if gs.len() == 0 {
        gs.push(Vec::new());
    }
    gs
}

/// The tokens of a paragraph set in vertical columns, grouped by line breaks.
/// `style_keys[i]` identifies the style of run `i`: two runs have equal keys
/// exactly when their styles are equal. Each token records the run whose
/// style it takes.
pub fn collect_vertical_token_groups(runs: &Vec<String>, style_keys: &Vec<usize>) -> (gs: Vec<
    Vec<VerticalToken>,
>)
    requires
        style_keys.len() == runs.len(),
    ensures
        exists|toks: Seq<VerticalToken>|
            vertical_tokens_valid(
                concat_texts(run_texts(runs@)),
                char_keys(run_texts(runs@), style_keys@),
                run_ids(run_texts(runs@)),
                toks,
            ) && token_groups_valid(toks, #[trigger] group_views(gs@)),
{
    let (text, ids, kc) = flatten_runs(runs, style_keys);
    let toks = scan_vertical_tokens(&text, &ids, &kc);
    assert forall|k: int| 0 <= k < toks.len() implies #[trigger] toks@[k].start < toks@[k].end by {
        assert(toks@[k].run == ids@.map_values(|x: usize| x as int)[toks@[k].start as int]);
    }
    let gs = group_tokens(&toks);
    proof {
        let ts = run_texts(runs@);
        lemma_run_ids_len(ts);
        assert(ids@.map_values(|x: usize| x as int) =~= run_ids(ts));
    }
    gs
}

} // verus!
