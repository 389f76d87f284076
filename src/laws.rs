//! Properties that hold across the notation, binding and rendering.
use vstd::prelude::*;

use crate::error::ErrorView;
use crate::instrument::{bind_spec, BiInstrument, InstrumentsView, KeyView};
use crate::keyed::key_index;
use crate::render::{bound_indexed, bound_labelled, lemma_mix_err, mix_all, render_spec, BufferView};
use crate::sheet::{
    parse_spec, window, width, SheetView,
};
use crate::text::decimal;
use crate::timeline::{emit, lemma_timeline_len, state_after, step, timeline, RowState};

verus! {

/// Parsing depends on the text alone: equal texts give equal sheets, or
/// equal errors.
pub proof fn lemma_parse_deterministic(a: Seq<char>, b: Seq<char>)
    requires
        a == b,
    ensures
        parse_spec(a) == parse_spec(b),
{
}

/// Every row's timeline is exactly as long as the loop range is wide,
/// whatever the length of its line: `loop_end - loop_start + 1` columns
/// (none when the range is empty).
pub proof fn lemma_row_width(text: Seq<char>)
    ensures
        parse_spec(text) matches Ok(s) ==> forall|k: int|
            0 <= k < s.timelines().len() ==> (#[trigger] s.timelines()[k]).len() == if s.range().0
                <= s.range().1 + 1 {
                s.range().1 - s.range().0 + 1
            } else {
                0
            },
{
    if let Ok(s) = parse_spec(text) {
        let (start, end) = s.range();
        match s {
            SheetView::Labelled { rows, .. } => {
                crate::sheet::lemma_labelled_rows_len(crate::sheet::kept_rows(crate::text::lines_of(text).skip(1)), start as int, end as int);
                assert forall|k: int| 0 <= k < s.timelines().len() implies (#[trigger] s.timelines()[k]).len() == width(start as int, end as int) by {
                    assert(s.timelines()[k] == rows[k].1);
                }
            },
            SheetView::Indexed { rows, .. } => {
                let kept = crate::sheet::kept_rows(crate::text::lines_of(text).skip(1));
                assert forall|k: int| 0 <= k < s.timelines().len() implies (#[trigger] s.timelines()[k]).len() == width(start as int, end as int) by {
                    lemma_timeline_len(window(kept[k], start as int, end as int, ' '));
                }
            },
        }
    }
}

/// Entry `i` of a timeline is what the state machine emits there.
pub proof fn lemma_timeline_index(s: Seq<char>, i: int)
    requires
        0 <= i < s.len(),
    ensures
        timeline(s)[i] == emit(state_after(s.take(i)), s[i]),
    decreases s.len(),
{
    lemma_timeline_len(s.drop_last());
    if i < s.len() - 1 {
        lemma_timeline_index(s.drop_last(), i);
        assert(s.drop_last().take(i) == s.take(i));
    } else {
        assert(s.drop_last() == s.take(i));
    }
}

/// The state after `s.take(i + 1)` is one step from the state after `s.take(i)`.
pub proof fn lemma_state_step(s: Seq<char>, i: int)
    requires
        0 <= i < s.len(),
    ensures
        state_after(s.take(i + 1)) == step(state_after(s.take(i)), s[i]),
{
    assert(s.take(i + 1).drop_last() == s.take(i));
}

/// A one-shot or restart always emits offset 0.
pub proof fn lemma_onset(s: Seq<char>, i: int)
    requires
        0 <= i < s.len(),
        s[i] == 'o' || s[i] == '[',
    ensures
        timeline(s)[i] == Some(0nat),
{
    lemma_timeline_index(s, i);
}

/// A silent row stays as it is through sustains, halts and pauses.
proof fn lemma_silent_run(s: Seq<char>, from: int, to: int)
    requires
        0 <= from <= to <= s.len(),
        !state_after(s.take(from)).on,
        forall|m: int| from <= m < to ==> (#[trigger] s[m] == ' ' || s[m] == ']' || s[m] == ')'),
    ensures
        state_after(s.take(to)) == state_after(s.take(from)),
    decreases to - from,
{
    if from < to {
        lemma_state_step(s, from);
        lemma_silent_run(s, from + 1, to);
    }
}

/// An unpause emits the counter as the row left it: after a sounding pause
/// that emitted `v`, with no onset in between, the unpause emits `v + 1`,
/// never 0. With no pause before it, it emits the counter it finds.
pub proof fn lemma_unpause(s: Seq<char>, j: int, i: int)
    requires
        0 <= j < i < s.len(),
        s[j] == ')',
        timeline(s)[j] is Some,
        s[i] == '(',
        forall|m: int| j < m < i ==> (#[trigger] s[m] == ' ' || s[m] == ']' || s[m] == ')'),
    ensures
        timeline(s)[i] == Some(timeline(s)[j]->0 + 1),
        timeline(s)[i] != Some(0nat),
{
    lemma_timeline_index(s, j);
    lemma_timeline_index(s, i);
    lemma_state_step(s, j);
    lemma_silent_run(s, j + 1, i);
}

/// An unpause emits the counter of the state it finds.
pub proof fn lemma_unpause_counter(s: Seq<char>, i: int)
    requires
        0 <= i < s.len(),
        s[i] == '(',
    ensures
        timeline(s)[i] == Some(state_after(s.take(i)).counter),
{
    lemma_timeline_index(s, i);
}

/// A sounding halt resets the counter to 0 and silences the row; an unpause
/// after it with no onset in between starts again at 0, as an onset does.
pub proof fn lemma_halt(s: Seq<char>, i: int, k: int)
    requires
        0 <= i < k < s.len(),
        s[i] == ']',
        timeline(s)[i] is Some,
        forall|m: int| i < m < k ==> (#[trigger] s[m] == ' ' || s[m] == ']' || s[m] == ')'),
        s[k] == '(' || s[k] == 'o' || s[k] == '[',
    ensures
        state_after(s.take(i + 1)) == (RowState { on: false, counter: 0 }),
        timeline(s)[k] == Some(0nat),
{
    lemma_timeline_index(s, i);
    lemma_timeline_index(s, k);
    lemma_state_step(s, i);
    lemma_silent_run(s, i + 1, k);
}

/// Which arrangement binding settles on once a key has fixed it.
pub open spec fn arrangement_fixed<I>(r: Result<Option<InstrumentsView<I>>, ErrorView>, labelled: bool) -> bool {
    match r {
        Ok(Some(InstrumentsView::Labelled(_))) => labelled,
        Ok(Some(InstrumentsView::Indexed(_))) => !labelled,
        _ => false,
    }
}

proof fn lemma_bind_keeps<I>(pairs: Seq<(KeyView, Option<I>)>, labelled: bool)
    requires
        pairs.len() > 0,
        if labelled { pairs[0].0 is Name } else { pairs[0].0 is Index },
        forall|k: int| 0 <= k < pairs.len() ==> (#[trigger] pairs[k]).1 is Some,
    ensures
        arrangement_fixed(bind_spec(pairs), labelled),
    decreases pairs.len(),
{
    if pairs.len() == 1 {
        assert(pairs.drop_last().len() == 0);
    } else {
        let t = pairs.drop_last();
        assert(t[0] == pairs[0]);
        assert forall|k: int| 0 <= k < t.len() implies (#[trigger] t[k]).1 is Some by {
            assert(t[k] == pairs[k]);
        }
        lemma_bind_keeps(t, labelled);
        assert(pairs.last() == pairs[pairs.len() - 1]);
    }
}

proof fn lemma_bind_none<I>(pairs: Seq<(KeyView, Option<I>)>)
    requires
        forall|k: int| 0 <= k < pairs.len() ==> (#[trigger] pairs[k]).0 is Other,
    ensures
        bind_spec(pairs) == Ok::<Option<InstrumentsView<I>>, ErrorView>(None),
    decreases pairs.len(),
{
    if pairs.len() > 0 {
        let t = pairs.drop_last();
        assert forall|k: int| 0 <= k < t.len() implies (#[trigger] t[k]).0 is Other by {
            assert(t[k] == pairs[k]);
        }
        lemma_bind_none(t);
        assert(pairs.last() == pairs[pairs.len() - 1]);
    }
}

/// The first key decides the arrangement: a name gives a labelled
/// collection, an integer an indexed one (when every value is an
/// instrument); a table with no name or integer key, the empty one among
/// them, gives no instruments.
pub proof fn lemma_bind_arrangement<I>(pairs: Seq<(KeyView, Option<I>)>)
    ensures
        pairs.len() > 0 && pairs[0].0 is Name && (forall|k: int|
            0 <= k < pairs.len() ==> (#[trigger] pairs[k]).1 is Some) ==> bind_spec(
            pairs,
        ) matches Ok(Some(InstrumentsView::Labelled(_))),
        pairs.len() > 0 && pairs[0].0 is Index && (forall|k: int|
            0 <= k < pairs.len() ==> (#[trigger] pairs[k]).1 is Some) ==> bind_spec(
            pairs,
        ) matches Ok(Some(InstrumentsView::Indexed(_))),
        (forall|k: int| 0 <= k < pairs.len() ==> (#[trigger] pairs[k]).0 is Other) ==> bind_spec(
            pairs,
        ) == Ok::<Option<InstrumentsView<I>>, ErrorView>(None),
{
    if pairs.len() > 0 && (forall|k: int| 0 <= k < pairs.len() ==> (#[trigger] pairs[k]).1 is Some) {
        if pairs[0].0 is Name {
            lemma_bind_keeps(pairs, true);
        }
        if pairs[0].0 is Index {
            lemma_bind_keeps(pairs, false);
        }
    }
    if forall|k: int| 0 <= k < pairs.len() ==> (#[trigger] pairs[k]).0 is Other {
        lemma_bind_none(pairs);
    }
}

/// A sheet none of whose rows is bound fails on its first row.
pub proof fn lemma_all_unbound<I: BiInstrument>(
    interval: nat,
    sheet: SheetView,
    instruments: InstrumentsView<I>,
)
    requires
        sheet.timelines().len() > 0,
        match (sheet, instruments) {
            (SheetView::Labelled { rows, .. }, InstrumentsView::Labelled(m)) => forall|k: int|
                0 <= k < rows.len() ==> key_index(m, (#[trigger] rows[k]).0) is None,
            (SheetView::Indexed { .. }, InstrumentsView::Indexed(l)) => l.len() == 0,
            _ => false,
        },
    ensures
        render_spec(interval, sheet, instruments) == match sheet {
            SheetView::Labelled { rows, .. } => Err::<Option<BufferView>, ErrorView>(
                ErrorView::UnboundInstrument(rows[0].0),
            ),
            SheetView::Indexed { .. } => Err(ErrorView::UnboundInstrument(decimal(0))),
        },
{
    match (sheet, instruments) {
        (SheetView::Labelled { rows, .. }, InstrumentsView::Labelled(m)) => {
            let bound = bound_labelled(rows, m);
            assert(rows.len() == sheet.timelines().len());
            assert(key_index(m, rows[0].0) is None);
            assert(bound.take(1).drop_last() =~= seq![]);
            assert(bound.take(1).last() == bound[0]);
            assert(mix_all(interval, bound.take(1).drop_last()) == Ok::<Option<BufferView>, ErrorView>(None));
            assert(mix_all(interval, bound.take(1)) == Err::<Option<BufferView>, ErrorView>(
                ErrorView::UnboundInstrument(bound[0].0),
            ));
            lemma_mix_err(interval, bound, 1);
        },
        (SheetView::Indexed { rows, .. }, InstrumentsView::Indexed(l)) => {
            let bound = bound_indexed(rows, l);
            assert(bound.take(1).drop_last() =~= seq![]);
            assert(bound.take(1).last() == bound[0]);
            assert(mix_all(interval, bound.take(1).drop_last()) == Ok::<Option<BufferView>, ErrorView>(None));
            assert(mix_all(interval, bound.take(1)) == Err::<Option<BufferView>, ErrorView>(
                ErrorView::UnboundInstrument(bound[0].0),
            ));
            lemma_mix_err(interval, bound, 1);
        },
        _ => {},
    }
}

/// Sheet and instruments of different arrangements fail with the mismatch,
/// whatever the instruments would answer.
pub proof fn lemma_mismatch<I: BiInstrument>(
    interval: nat,
    sheet: SheetView,
    instruments: InstrumentsView<I>,
)
    requires
        (sheet is Labelled) != (instruments is Labelled),
    ensures
        render_spec(interval, sheet, instruments) == Err::<Option<BufferView>, ErrorView>(
            ErrorView::ArrangementMismatch(sheet is Indexed),
        ),
{
}

} // verus!
