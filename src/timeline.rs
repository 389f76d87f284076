//! The per-row state machine that turns a pattern string into a playback
//! timeline: one optional offset per tick column.
use vstd::prelude::*;

use crate::text::chars_of;

verus! {

/// One timeline: for each tick, the ticks elapsed since the row's last
/// onset, or `None` where the row is silent.
pub type SourceIndexList = Vec<Option<usize>>;

pub const PAT_ONE_SHOT: char = 'o';

pub const PAT_RESTART: char = '[';

pub const PAT_HALT: char = ']';

pub const PAT_SUSTAIN: char = ' ';

pub const PAT_UNPAUSE: char = '(';

pub const PAT_PAUSE: char = ')';

/// The characters that a pattern may hold.
pub open spec fn is_pattern_char(c: char) -> bool {
    c == 'o' || c == '[' || c == ']' || c == ' ' || c == '(' || c == ')'
}

pub open spec fn is_pattern(s: Seq<char>) -> bool {
    forall|i: int| 0 <= i < s.len() ==> is_pattern_char(#[trigger] s[i])
}

/// The state of a row: whether it is sounding, and the counter of ticks
/// since its last onset.
pub struct RowState {
    pub on: bool,
    pub counter: nat,
}

pub open spec fn initial_state() -> RowState {
    RowState { on: false, counter: 0 }
}

/// The state after reading `c` in state `st`.
pub open spec fn step(st: RowState, c: char) -> RowState {
    if c == 'o' || c == '[' {
        RowState { on: true, counter: 1 }
    } else if c == ' ' {
        if st.on { RowState { on: true, counter: st.counter + 1 } } else { st }
    } else if c == ']' {
        if st.on { RowState { on: false, counter: 0 } } else { st }
    } else if c == '(' {
        RowState { on: true, counter: st.counter + 1 }
    } else if c == ')' {
        if st.on { RowState { on: false, counter: st.counter + 1 } } else { st }
    } else {
        st
    }
}

/// The offset emitted for `c` read in state `st`.
pub open spec fn emit(st: RowState, c: char) -> Option<nat> {
    if c == 'o' || c == '[' {
        Some(0)
    } else if c == '(' {
        Some(st.counter)
    } else if (c == ' ' || c == ']' || c == ')') && st.on {
        Some(st.counter)
    } else {
        None
    }
}

/// The state after reading all of `s` from the initial state.
pub open spec fn state_after(s: Seq<char>) -> RowState
    decreases s.len(),
{
    if s.len() == 0 {
        initial_state()
    } else {
        step(state_after(s.drop_last()), s.last())
    }
}

/// The timeline of the pattern `s`: one emitted offset per character.
pub open spec fn timeline(s: Seq<char>) -> Seq<Option<nat>>
    decreases s.len(),
{
    if s.len() == 0 {
        seq![]
    } else {
        timeline(s.drop_last()).push(emit(state_after(s.drop_last()), s.last()))
    }
}

pub open spec fn widen(o: Option<usize>) -> Option<nat> {
    match o {
        Some(x) => Some(x as nat),
        None => None,
    }
}

/// A timeline as mathematical offsets.
pub open spec fn offsets(v: Seq<Option<usize>>) -> Seq<Option<nat>> {
    v.map_values(|o: Option<usize>| widen(o))
}

pub proof fn lemma_timeline_len(s: Seq<char>)
    ensures
        timeline(s).len() == s.len(),
    decreases s.len(),
{
    if s.len() > 0 {
        lemma_timeline_len(s.drop_last());
    }
}

/// The timeline of the characters `p`.
pub fn timeline_of(p: &Vec<char>) -> (r: SourceIndexList)
    ensures
        offsets(r@) == timeline(p@),
{
    let mut on = false;
    let mut iota: usize = 0;
    let mut r: SourceIndexList = Vec::new();
    let mut i: usize = 0;
    while i < p.len()
        invariant
            i <= p.len(),
            on == state_after(p@.take(i as int)).on,
            iota == state_after(p@.take(i as int)).counter,
            iota <= i,
            offsets(r@) == timeline(p@.take(i as int)),
        decreases p.len() - i,
    {
        let c = p[i];
        let ghost pre = p@.take(i as int);
        assert(p@.take(i + 1).drop_last() == pre);
        assert(p@.take(i + 1).last() == c);
        let out = if c == PAT_ONE_SHOT || c == PAT_RESTART {
            on = true;
            iota = 1;
            Some(0)
        } else if c == PAT_SUSTAIN {
            if on {
                iota = iota + 1;
                Some(iota - 1)
            } else {
                None
            }
        } else if c == PAT_HALT {
            if on {
                on = false;
                let n = iota;
                iota = 0;
                Some(n)
            } else {
                None
            }
        } else if c == PAT_UNPAUSE {
            on = true;
            iota = iota + 1;
            Some(iota - 1)
        } else if c == PAT_PAUSE {
            if on {
                on = false;
                iota = iota + 1;
                Some(iota - 1)
            } else {
                None
            }
        } else {
            None
        };
        let ghost before = r@;
        r.push(out);
        assert(offsets(r@) =~= offsets(before).push(widen(out)));
        i = i + 1;
    }
    assert(p@.take(i as int) == p@);
    r
}

/// The timeline of the pattern `s`, one entry per character.
pub fn pat_to_source_index_list(s: &str) -> (r: SourceIndexList)
    requires
        is_pattern(s@),
    ensures
        offsets(r@) == timeline(s@),
        r@.len() == s@.len(),
{
    let p = chars_of(s);
    let r = timeline_of(&p);
    proof {
        lemma_timeline_len(s@);
        assert(r@.len() == offsets(r@).len());
    }
    r
}

} // verus!
