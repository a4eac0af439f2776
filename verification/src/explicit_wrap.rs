//! Breaking an East Asian paragraph into lines by hand, unit by unit.
//!
//! The caller measures each unit and says whether it overflows the current
//! line; this state machine decides where the lines start and end. A line
//! break unit always ends a line; a unit that overflows starts a new line,
//! except that closing punctuation may hang at the end of its line when the
//! paragraph allows hanging punctuation, and then the unit after it starts
//! the next line.
use vstd::prelude::*;
use crate::text_class::{is_closing_punctuation, is_hanging_closing_punctuation};
use crate::wrap_units::HorizontalWrapUnit;

verus! {

/// Where a unit that is not a line break goes.
#[derive(Debug, Clone, Copy, PartialEq, Eq)]
pub enum UnitPlacement {
    /// It is closing punctuation that overflows and hangs at the end of the
    /// current line; its advance is not added to the line.
    Hang,
    /// It overflows and starts a new line.
    BreakBefore,
    /// It fits and joins the current line.
    Append,
}

/// The lines found so far (as byte ranges of the paragraph text), where the
/// current line starts, and whether the current line ends with hanging
/// punctuation.
pub struct ExplicitWrapState {
    ranges: Vec<(usize, usize)>,
    line_start: usize,
    hanging_end: bool,
}

/// The plain-value picture of a wrap state.
pub struct WrapModel {
    pub ranges: Seq<(usize, usize)>,
    pub line_start: usize,
    pub hanging_end: bool,
}

impl View for ExplicitWrapState {
    type V = WrapModel;

    closed spec fn view(&self) -> WrapModel {
        WrapModel { ranges: self.ranges@, line_start: self.line_start, hanging_end: self.hanging_end }
    }
}

/// The lines are in order and do not overlap, and the current line starts
/// after all of them.
pub open spec fn wrap_model_wf(m: WrapModel) -> bool {
    &&& forall|k: int| 0 <= k < m.ranges.len() ==> #[trigger] m.ranges[k].0 <= m.ranges[k].1
    &&& forall|k: int|
        0 <= k < m.ranges.len() - 1 ==> #[trigger] m.ranges[k].1 <= m.ranges[k + 1].0
    &&& m.ranges.len() > 0 ==> m.ranges.last().1 <= m.line_start
}

/// A line break unit `start..end` ends the current line at `start`; the next
/// line starts after the break.
pub open spec fn after_line_break(m: WrapModel, start: usize, end: usize) -> WrapModel {
    WrapModel { ranges: m.ranges.push((m.line_start, start)), line_start: end, hanging_end: false }
}

/// Before a unit at `start`: when the current line ends with hanging
/// punctuation, it ends here and the unit starts a new line.
pub open spec fn after_release(m: WrapModel, start: usize) -> WrapModel {
    if m.hanging_end {
        WrapModel { ranges: m.ranges.push((m.line_start, start)), line_start: start, hanging_end: false }
    } else {
        m
    }
}

/// The placement of a unit at `start` that overflows the current line or
/// not, and whether it is closing punctuation that the paragraph lets hang.
pub open spec fn placement_of(overflows: bool, closes_line: bool, allow_hanging: bool) -> UnitPlacement {
    if overflows {
        if allow_hanging && closes_line {
            UnitPlacement::Hang
        } else {
            UnitPlacement::BreakBefore
        }
    } else {
        UnitPlacement::Append
    }
}

/// The state after placing a unit at `start`.
pub open spec fn after_place(
    m: WrapModel,
    start: usize,
    overflows: bool,
    closes_line: bool,
    allow_hanging: bool,
) -> WrapModel {
    match placement_of(overflows, closes_line, allow_hanging) {
        UnitPlacement::Hang => WrapModel { hanging_end: true, ..m },
        UnitPlacement::BreakBefore => WrapModel {
            ranges: m.ranges.push((m.line_start, start)),
            line_start: start,
            hanging_end: m.hanging_end,
        },
        UnitPlacement::Append => m,
    }
}

impl ExplicitWrapState {
    /// A paragraph whose first line starts at byte `first_start`.
    pub fn new(first_start: usize) -> (s: Self)
        ensures
            s@ == (WrapModel { ranges: Seq::empty(), line_start: first_start, hanging_end: false }),
            wrap_model_wf(s@),
    {
        ExplicitWrapState { ranges: Vec::new(), line_start: first_start, hanging_end: false }
    }

    /// Whether the current line is the first line of the paragraph.
    pub fn on_first_line(&self) -> (r: bool)
        ensures
            r == (self@.ranges.len() == 0),
    {
        self.ranges.len() == 0
    }

    /// A line break unit at `start..end`.
    pub fn line_break(&mut self, start: usize, end: usize)
        requires
            wrap_model_wf(old(self)@),
            old(self)@.line_start <= start <= end,
        ensures
            final(self)@ == after_line_break(old(self)@, start, end),
            wrap_model_wf(final(self)@),
    {
        let ls = self.line_start;
        self.ranges.push((ls, start));
        self.line_start = end;
        self.hanging_end = false;
        assert(self@.ranges =~= after_line_break(old(self)@, start, end).ranges);
    }

    /// Before a unit at `start`: ends a line that closes with hanging
    /// punctuation. Returns whether a new line started, so that the caller
    /// measures the unit on an empty line.
    pub fn release_hanging(&mut self, start: usize) -> (broke: bool)
        requires
            wrap_model_wf(old(self)@),
            old(self)@.line_start <= start,
        ensures
            broke == old(self)@.hanging_end,
            final(self)@ == after_release(old(self)@, start),
            wrap_model_wf(final(self)@),
    {
        if self.hanging_end {
            let ls = self.line_start;
            self.ranges.push((ls, start));
            self.line_start = start;
            self.hanging_end = false;
            assert(self@.ranges =~= after_release(old(self)@, start).ranges);
            true
        } else {
            false
        }
    }

    /// Places a unit at `start` that is not a line break. `overflows` says
    /// whether the current line already holds text and the unit's advance
    /// would take it past the line's width.
    pub fn place(&mut self, start: usize, overflows: bool, closes_line: bool, allow_hanging: bool) -> (p:
        UnitPlacement)
        requires
            wrap_model_wf(old(self)@),
            old(self)@.line_start <= start,
        ensures
            p == placement_of(overflows, closes_line, allow_hanging),
            final(self)@ == after_place(old(self)@, start, overflows, closes_line, allow_hanging),
            wrap_model_wf(final(self)@),
    {
        if overflows {
            if allow_hanging && closes_line {
                self.hanging_end = true;
                return UnitPlacement::Hang;
            }
            let ls = self.line_start;
            self.ranges.push((ls, start));
            self.line_start = start;
            assert(self@.ranges =~= after_place(
                old(self)@,
                start,
                overflows,
                closes_line,
                allow_hanging,
            ).ranges);
            UnitPlacement::BreakBefore
        } else {
            UnitPlacement::Append
        }
    }

    /// The lines of the paragraph, the last one ending at `text_len`.
    pub fn finish(self, text_len: usize) -> (ranges: Vec<(usize, usize)>)
        requires
            wrap_model_wf(self@),
            self@.line_start <= text_len,
        ensures
            ranges@ == self@.ranges.push((self@.line_start, text_len)),
            forall|k: int| 0 <= k < ranges.len() ==> #[trigger] ranges@[k].0 <= ranges@[k].1,
            forall|k: int| 0 <= k < ranges.len() - 1 ==> #[trigger] ranges@[k].1 <= ranges@[k + 1].0,
    {
        let mut ranges = self.ranges;
        let ghost before = ranges@;
        ranges.push((self.line_start, text_len));
        assert forall|k: int| 0 <= k < ranges.len() - 1 implies #[trigger] ranges@[k].1 <= ranges@[k
            + 1].0 by {
            if k + 1 < before.len() {
                assert(ranges@[k] == before[k] && ranges@[k + 1] == before[k + 1]);
            }
        }
        ranges
    }
}

/// Whether a unit is a line break: its text is exactly `\n`.
pub fn unit_is_line_break(chars: &Vec<char>, unit: &HorizontalWrapUnit) -> (r: bool)
    requires
        unit.char_start < unit.char_end <= chars.len(),
    ensures
        r == (chars@.subrange(unit.char_start as int, unit.char_end as int) == seq!['\n']),
{
    let r = unit.char_end == unit.char_start + 1 && chars[unit.char_start] == '\n';
    proof {
        let sub = chars@.subrange(unit.char_start as int, unit.char_end as int);
        if sub == seq!['\n'] {
            assert(sub.len() == 1 && sub[0] == '\n');
        }
        if r {
            assert(sub =~= seq!['\n']);
        }
    }
    r
}

/// Whether a unit ends with closing punctuation.
pub fn unit_closes_line(chars: &Vec<char>, unit: &HorizontalWrapUnit) -> (r: bool)
    requires
        unit.char_start < unit.char_end <= chars.len(),
    ensures
        r == is_closing_punctuation(chars@[unit.char_end - 1]),
{
    is_hanging_closing_punctuation(chars[unit.char_end - 1])
}

/// Hanging punctuation: when closing punctuation overflows a line of a
/// paragraph that lets punctuation hang, no line ends before it; the line
/// ends after it, so that the next unit starts a new line that begins where
/// that unit begins.
pub proof fn lemma_hanging_punctuation_stays_on_line(m: WrapModel, start: usize, next: usize)
    requires
        wrap_model_wf(m),
        !m.hanging_end,
        m.line_start <= start <= next,
    ensures
        ({
            let hung = after_place(m, start, true, true, true);
            let released = after_release(hung, next);
            &&& placement_of(true, true, true) == UnitPlacement::Hang
            &&& hung.ranges == m.ranges
            &&& released.ranges == m.ranges.push((m.line_start, next))
            &&& released.line_start == next
            &&& !released.hanging_end
        }),
{
}

/// Without hanging punctuation, a unit that overflows always starts a new
/// line at its own start, and a unit that fits never ends a line.
pub proof fn lemma_overflow_breaks_line(m: WrapModel, start: usize, closes_line: bool)
    requires
        wrap_model_wf(m),
        m.line_start <= start,
    ensures
        after_place(m, start, true, closes_line, false).ranges == m.ranges.push((m.line_start, start)),
        after_place(m, start, true, closes_line, false).line_start == start,
        after_place(m, start, false, closes_line, true) == m,
        after_place(m, start, false, closes_line, false) == m,
{
}


/// One unit of a paragraph as the line breaker sees it: its byte range,
/// whether it is a line break, and, for other units, whether it overflows
/// the current line and whether it is closing punctuation.
pub struct WrapStep {
    pub start: usize,
    pub end: usize,
    pub line_break: bool,
    pub overflows: bool,
    pub closes_line: bool,
}

/// The state after one unit: a line break ends the line; any other unit
/// first releases hanging punctuation and is then placed.
pub open spec fn after_step(m: WrapModel, e: WrapStep, allow_hanging: bool) -> WrapModel {
    if e.line_break {
        after_line_break(m, e.start, e.end)
    } else {
        after_place(after_release(m, e.start), e.start, e.overflows, e.closes_line, allow_hanging)
    }
}

/// The state after the units `es`, in order.
pub open spec fn after_steps(m: WrapModel, es: Seq<WrapStep>, allow_hanging: bool) -> WrapModel
    decreases es.len(),
{
    if es.len() == 0 {
        m
    } else {
        after_step(after_steps(m, es.drop_last(), allow_hanging), es.last(), allow_hanging)
    }
}

/// The state of a paragraph whose first line starts at `first_start`.
pub open spec fn initial_model(first_start: usize) -> WrapModel {
    WrapModel { ranges: Seq::empty(), line_start: first_start, hanging_end: false }
}

/// The lines of a paragraph whose units are `es`, as `finish` gives them.
pub open spec fn wrapped_lines(es: Seq<WrapStep>, allow_hanging: bool, text_len: usize) -> Seq<(usize, usize)> {
    let m = after_steps(initial_model(es[0].start), es, allow_hanging);
    m.ranges.push((m.line_start, text_len))
}

/// The units follow one another without gaps, none is empty, and the last
/// ends at `text_len`.
pub open spec fn steps_contiguous(es: Seq<WrapStep>, text_len: usize) -> bool {
    &&& es.len() > 0
    &&& forall|k: int| 0 <= k < es.len() ==> #[trigger] es[k].start < es[k].end
    &&& forall|k: int| 0 <= k < es.len() - 1 ==> #[trigger] es[k].end == es[k + 1].start
    &&& es.last().end == text_len
}

/// Byte `a` is byte `b`, or a line break unit lies exactly between them.
pub open spec fn bridged(es: Seq<WrapStep>, a: usize, b: usize) -> bool {
    a == b || exists|j: int| 0 <= j < es.len() && #[trigger] es[j].line_break && es[j].start == a && es[j].end == b
}

/// What holds of the lines after the first `n` units.
spec fn lines_so_far(m: WrapModel, es: Seq<WrapStep>, n: int) -> bool {
    let cur = if n == 0 { es[0].start } else { es[n - 1].end };
    &&& wrap_model_wf(m)
    &&& m.line_start <= cur
    &&& m.ranges.len() == 0 ==> m.line_start == es[0].start
    &&& m.ranges.len() > 0 ==> m.ranges[0].0 == es[0].start
    &&& forall|k: int| 0 <= k < m.ranges.len() - 1 ==> bridged(es, #[trigger] m.ranges[k].1, m.ranges[k + 1].0)
    &&& m.ranges.len() > 0 ==> bridged(es, m.ranges.last().1, m.line_start)
}

proof fn lemma_lines_so_far(es: Seq<WrapStep>, allow_hanging: bool, text_len: usize, n: int)
    requires
        steps_contiguous(es, text_len),
        0 <= n <= es.len(),
    ensures
        lines_so_far(after_steps(initial_model(es[0].start), es.take(n), allow_hanging), es, n),
    decreases n,
{
    let m0 = initial_model(es[0].start);
    if n == 0 {
        assert(es.take(0).len() == 0);
    } else {
        lemma_lines_so_far(es, allow_hanging, text_len, n - 1);
        let p = es.take(n);
        assert(p.drop_last() =~= es.take(n - 1));
        assert(p.last() == es[n - 1]);
        let m = after_steps(m0, es.take(n - 1), allow_hanging);
        let e = es[n - 1];
        let m2 = after_steps(m0, p, allow_hanging);
        assert(m2 == after_step(m, e, allow_hanging));
        let prev = if n - 1 == 0 { es[0].start } else { es[n - 2].end };
        assert(e.start == prev);
        if e.line_break {
            assert(m2.ranges == m.ranges.push((m.line_start, e.start)));
            assert(bridged(es, e.start, e.end)) by {
                assert(es[n - 1].line_break);
            }
            assert forall|k: int| 0 <= k < m2.ranges.len() - 1 implies bridged(
                es,
                #[trigger] m2.ranges[k].1,
                m2.ranges[k + 1].0,
            ) by {
                if k < m.ranges.len() - 1 {
                    assert(m2.ranges[k] == m.ranges[k] && m2.ranges[k + 1] == m.ranges[k + 1]);
                } else {
                    assert(m2.ranges[k] == m.ranges.last());
                }
            }
        } else {
            let r = after_release(m, e.start);
            assert(r.line_start <= e.start);
            assert(forall|k: int| 0 <= k < r.ranges.len() - 1 ==> bridged(
                es,
                #[trigger] r.ranges[k].1,
                r.ranges[k + 1].0,
            )) by {
                if m.hanging_end {
                    assert forall|k: int| 0 <= k < r.ranges.len() - 1 implies bridged(
                        es,
                        #[trigger] r.ranges[k].1,
                        r.ranges[k + 1].0,
                    ) by {
                        if k < m.ranges.len() - 1 {
                            assert(r.ranges[k] == m.ranges[k] && r.ranges[k + 1] == m.ranges[k + 1]);
                        } else {
                            assert(r.ranges[k] == m.ranges.last());
                        }
                    }
                }
            }
            assert(r.ranges.len() > 0 ==> bridged(es, r.ranges.last().1, r.line_start));
            assert(r.ranges.len() > 0 ==> r.ranges[0].0 == es[0].start);
            assert(r.ranges.len() == 0 ==> r.line_start == es[0].start);
            assert(wrap_model_wf(r));
            assert forall|k: int| 0 <= k < m2.ranges.len() - 1 implies bridged(
                es,
                #[trigger] m2.ranges[k].1,
                m2.ranges[k + 1].0,
            ) by {
                if m2.ranges.len() > r.ranges.len() {
                    if k < r.ranges.len() - 1 {
                        assert(m2.ranges[k] == r.ranges[k] && m2.ranges[k + 1] == r.ranges[k + 1]);
                    } else {
                        assert(m2.ranges[k] == r.ranges.last());
                    }
                } else {
                    assert(m2.ranges == r.ranges);
                }
            }
        }
    }
}

/// Feeding a paragraph's units in order through the line breaker, with any
/// overflow decisions, gives lines that cover the text in order: the first
/// starts where the first unit starts, the last ends at the end of the text,
/// no line runs backwards, and each line starts where the one before it
/// ends, unless exactly a line break unit lies between them. Before every
/// unit the state meets what `line_break`, `release_hanging` and `place`
/// require.
pub proof fn lemma_wrapped_lines_cover_text(es: Seq<WrapStep>, allow_hanging: bool, text_len: usize)
    requires
        steps_contiguous(es, text_len),
    ensures
        forall|n: int|
            0 <= n < es.len() ==> {
                let m = #[trigger] after_steps(initial_model(es[0].start), es.take(n), allow_hanging);
                wrap_model_wf(m) && m.line_start <= es[n].start
            },
        ({
            let r = wrapped_lines(es, allow_hanging, text_len);
            &&& r[0].0 == es[0].start
            &&& r.last().1 == text_len
            &&& forall|k: int| 0 <= k < r.len() ==> #[trigger] r[k].0 <= r[k].1
            &&& forall|k: int| 0 <= k < r.len() - 1 ==> bridged(es, #[trigger] r[k].1, r[k + 1].0)
        }),
{
    assert forall|n: int| 0 <= n < es.len() implies {
        let m = #[trigger] after_steps(initial_model(es[0].start), es.take(n), allow_hanging);
        wrap_model_wf(m) && m.line_start <= es[n].start
    } by {
        lemma_lines_so_far(es, allow_hanging, text_len, n);
    }
    lemma_lines_so_far(es, allow_hanging, text_len, es.len() as int);
    assert(es.take(es.len() as int) =~= es);
    let m = after_steps(initial_model(es[0].start), es, allow_hanging);
    let r = m.ranges.push((m.line_start, text_len));
    assert forall|k: int| 0 <= k < r.len() - 1 implies bridged(es, #[trigger] r[k].1, r[k + 1].0) by {
        if k < m.ranges.len() - 1 {
            assert(r[k] == m.ranges[k] && r[k + 1] == m.ranges[k + 1]);
        } else {
            assert(r[k] == m.ranges.last());
        }
    }
    assert forall|k: int| 0 <= k < r.len() implies #[trigger] r[k].0 <= r[k].1 by {
        if k < m.ranges.len() {
            assert(r[k] == m.ranges[k]);
        }
    }
}

} // verus!
