//! Rendering: each row of a sheet is bound to its instrument and expanded at
//! the tick interval into one shared buffer of frames.
use vstd::prelude::*;

use std::sync::Arc;

use crate::error::{ErrorView, P1Error};
use crate::instrument::{BiInstrument, Instrument, Instruments, InstrumentsView};
use crate::keyed::{entries, find_key, key_index};
use crate::sample::{blend, blend_view, Sample, SampleView};
use crate::sheet::{labelled_view, Sheet, SheetView};
use crate::text::{decimal, index_numeral};

verus! {

/// Render settings: how many frames one tick lasts.
pub struct Config {
    pub interval: usize,
}

impl Default for Config {
    fn default() -> (r: Self)
        ensures
            r.interval == 1000,
    {
        Config { interval: 1000 }
    }
}

/// A rendered buffer of mono or stereo frames.
#[derive(Debug)]
pub enum P1Buffer {
    Mono(Vec<Sample<1>>),
    Stereo(Vec<Sample<2>>),
}

pub enum BufferView {
    Mono(Seq<SampleView>),
    Stereo(Seq<SampleView>),
}

pub open spec fn frames<const N: usize>(v: Seq<Sample<N>>) -> Seq<SampleView> {
    v.map_values(|s: Sample<N>| s@)
}

impl View for P1Buffer {
    type V = BufferView;

    open spec fn view(&self) -> BufferView {
        match self {
            P1Buffer::Mono(v) => BufferView::Mono(frames(v@)),
            P1Buffer::Stereo(v) => BufferView::Stereo(frames(v@)),
        }
    }
}

pub open spec fn buffer_view(b: Option<P1Buffer>) -> Option<BufferView> {
    match b {
        Some(b) => Some(b@),
        None => None,
    }
}

pub open spec fn render_result(r: Result<Option<P1Buffer>, P1Error>) -> Result<
    Option<BufferView>,
    ErrorView,
> {
    match r {
        Ok(b) => Ok(buffer_view(b)),
        Err(e) => Err(e@),
    }
}

/// `buf` with the frame `s` written over its first `size` positions: where
/// `buf` already has a frame the two are blended, past its end `s` is
/// appended.
pub open spec fn write_row(buf: Seq<SampleView>, s: SampleView, size: nat) -> Seq<SampleView> {
    Seq::new(
        if buf.len() >= size {
            buf.len()
        } else {
            size
        },
        |i: int|
            if i < size {
                if i < buf.len() {
                    blend_view(buf[i], s)
                } else {
                    s
                }
            } else {
                buf[i]
            },
    )
}

/// Adding one row, named `name`, `size` frames long, played by `inst`, to
/// the buffer `acc`. The instrument's stereo view is tried first, then its
/// mono view; the first row fixes the buffer's channel count, and a later row
/// that needs the other count fails. The row plays the instrument's first
/// frame at each of its positions.
pub open spec fn mix_row<I: BiInstrument>(
    acc: Option<BufferView>,
    name: Seq<char>,
    size: nat,
    inst: I,
) -> Result<Option<BufferView>, ErrorView> {
    if <I as Instrument<2>>::spec_ready(&inst) {
        match acc {
            Some(BufferView::Mono(_)) => Err(ErrorView::FormatConflict(name)),
            _ => {
                let buf = match acc {
                    Some(BufferView::Stereo(b)) => b,
                    _ => seq![],
                };
                if size == 0 {
                    Ok(Some(BufferView::Stereo(buf)))
                } else {
                    match <I as Instrument<2>>::spec_get(&inst, 0) {
                        None => Err(ErrorView::EmptyInstrument(name)),
                        Some(s) => Ok(Some(BufferView::Stereo(write_row(buf, s@, size)))),
                    }
                }
            },
        }
    } else if <I as Instrument<1>>::spec_ready(&inst) {
        match acc {
            Some(BufferView::Stereo(_)) => Err(ErrorView::FormatConflict(name)),
            _ => {
                let buf = match acc {
                    Some(BufferView::Mono(b)) => b,
                    _ => seq![],
                };
                if size == 0 {
                    Ok(Some(BufferView::Mono(buf)))
                } else {
                    match <I as Instrument<1>>::spec_get(&inst, 0) {
                        None => Err(ErrorView::EmptyInstrument(name)),
                        Some(s) => Ok(Some(BufferView::Mono(write_row(buf, s@, size)))),
                    }
                }
            },
        }
    } else {
        Err(ErrorView::InstrumentUnavailable(name))
    }
}

/// Rendering one row of a sheet, given as its name, its number of ticks and
/// its instrument if one is bound: the instrument is resolved, the row's
/// length in frames must fit in memory, then the row is mixed in.
pub open spec fn row_step<I: BiInstrument>(
    acc: Option<BufferView>,
    interval: nat,
    row: (Seq<char>, nat, Option<I>),
) -> Result<Option<BufferView>, ErrorView> {
    match row.2 {
        None => Err(ErrorView::UnboundInstrument(row.0)),
        Some(inst) => if row.1 * interval > usize::MAX {
            Err(ErrorView::RowTooLong(row.0))
        } else {
            mix_row(acc, row.0, row.1 * interval, inst)
        },
    }
}

/// Rendering the rows `rows` in order, from no buffer; the first failing row
/// ends it.
pub open spec fn mix_all<I: BiInstrument>(interval: nat, rows: Seq<(Seq<char>, nat, Option<I>)>) -> Result<
    Option<BufferView>,
    ErrorView,
>
    decreases rows.len(),
{
    if rows.len() == 0 {
        Ok(None)
    } else {
        match mix_all(interval, rows.drop_last()) {
            Err(e) => Err(e),
            Ok(acc) => row_step(acc, interval, rows.last()),
        }
    }
}

/// The rows of a labelled sheet with the instruments bound to their labels.
pub open spec fn bound_labelled<I>(
    rows: Seq<(Seq<char>, Seq<Option<nat>>)>,
    m: Seq<(Seq<char>, I)>,
) -> Seq<(Seq<char>, nat, Option<I>)> {
    Seq::new(
        rows.len(),
        |k: int|
            (
                rows[k].0,
                rows[k].1.len(),
                match key_index(m, rows[k].0) {
                    Some(j) => Some(m[j as int].1),
                    None => None,
                },
            ),
    )
}

/// The rows of an indexed sheet with the instruments at their positions.
pub open spec fn bound_indexed<I>(rows: Seq<Seq<Option<nat>>>, l: Seq<I>) -> Seq<
    (Seq<char>, nat, Option<I>),
> {
    Seq::new(
        rows.len(),
        |k: int|
            (
                decimal(k),
                rows[k].len(),
                if k < l.len() {
                    Some(l[k])
                } else {
                    None
                },
            ),
    )
}

/// What rendering `sheet` against `instruments` gives. The arrangements must
/// agree, before any instrument is asked anything; then each row in turn is
/// bound to its instrument and mixed in.
pub open spec fn render_spec<I: BiInstrument>(
    interval: nat,
    sheet: SheetView,
    instruments: InstrumentsView<I>,
) -> Result<Option<BufferView>, ErrorView> {
    match sheet {
        SheetView::Labelled { rows, .. } => match instruments {
            InstrumentsView::Indexed(_) => Err(ErrorView::ArrangementMismatch(false)),
            InstrumentsView::Labelled(m) => mix_all(interval, bound_labelled(rows, m)),
        },
        SheetView::Indexed { rows, .. } => match instruments {
            InstrumentsView::Labelled(_) => Err(ErrorView::ArrangementMismatch(true)),
            InstrumentsView::Indexed(l) => mix_all(interval, bound_indexed(rows, l)),
        },
    }
}

/// Writes the frame `s` over the first `size` positions of `buf`.
fn write_frames<const N: usize>(buf: &mut Vec<Sample<N>>, s: Sample<N>, size: usize)
    ensures
        frames(final(buf)@) == write_row(frames(old(buf)@), s@, size as nat),
{
    let ghost ob = frames(buf@);
    let ghost olen = buf@.len();
    let mut i: usize = 0;
    while i < size
        invariant
            i <= size,
            ob == frames(old(buf)@),
            ob.len() == olen,
            buf@.len() == if olen >= i {
                olen
            } else {
                i as nat
            },
            frames(buf@) =~= Seq::new(
                buf@.len(),
                |j: int|
                    if j < i {
                        if j < olen {
                            blend_view(ob[j], s@)
                        } else {
                            s@
                        }
                    } else {
                        ob[j]
                    },
            ),
        decreases size - i,
    {
        let ghost pre = frames(buf@);
        if i < buf.len() {
            assert(frames(buf@)[i as int] == ob[i as int]);
            let b = blend(&buf[i], &s);
            buf.set(i, b);
            assert(frames(buf@) =~= pre.update(i as int, b@));
        } else {
            buf.push(s);
            assert(frames(buf@) =~= pre.push(s@));
        }
        i = i + 1;
    }
    assert(frames(buf@) =~= write_row(ob, s@, size as nat));
}

/// Adds one row to the buffer `acc`: see `mix_row`.
pub fn mix_into<I: BiInstrument>(acc: Option<P1Buffer>, name: String, size: usize, inst: &I) -> (r:
    Result<Option<P1Buffer>, P1Error>)
    ensures
        render_result(r) == mix_row(buffer_view(acc), name@, size as nat, *inst),
{
    let stereo = <I as Instrument<2>>::init(inst);
    let mono = <I as Instrument<1>>::init(inst);
    if stereo.is_ok() {
        let mut buf: Vec<Sample<2>> = match acc {
            Some(P1Buffer::Mono(_)) => {
                return Err(P1Error::FormatConflict(name));
            },
            Some(P1Buffer::Stereo(b)) => b,
            None => {
                let v: Vec<Sample<2>> = Vec::new();
                assert(frames(v@) =~= seq![]);
                v
            },
        };
        if size == 0 {
            return Ok(Some(P1Buffer::Stereo(buf)));
        }
        match <I as Instrument<2>>::get(inst, 0) {
            None => Err(P1Error::EmptyInstrument(name)),
            Some(s) => {
                write_frames(&mut buf, s, size);
                Ok(Some(P1Buffer::Stereo(buf)))
            },
        }
    } else if mono.is_ok() {
        let mut buf: Vec<Sample<1>> = match acc {
            Some(P1Buffer::Stereo(_)) => {
                return Err(P1Error::FormatConflict(name));
            },
            Some(P1Buffer::Mono(b)) => b,
            None => {
                let v: Vec<Sample<1>> = Vec::new();
                assert(frames(v@) =~= seq![]);
                v
            },
        };
        if size == 0 {
            return Ok(Some(P1Buffer::Mono(buf)));
        }
        match <I as Instrument<1>>::get(inst, 0) {
            None => Err(P1Error::EmptyInstrument(name)),
            Some(s) => {
                write_frames(&mut buf, s, size);
                Ok(Some(P1Buffer::Mono(buf)))
            },
        }
    } else {
        Err(P1Error::InstrumentUnavailable(name))
    }
}

/// Once a prefix of the rows fails, rendering all of them fails the same way.
pub proof fn lemma_mix_err<I: BiInstrument>(
    interval: nat,
    rows: Seq<(Seq<char>, nat, Option<I>)>,
    k: int,
)
    requires
        0 <= k <= rows.len(),
        mix_all(interval, rows.take(k)) is Err,
    ensures
        mix_all(interval, rows) == mix_all(interval, rows.take(k)),
    decreases rows.len(),
{
    if rows.len() == k {
        assert(rows.take(k) == rows);
    } else {
        assert(rows.drop_last().take(k) == rows.take(k));
        lemma_mix_err(interval, rows.drop_last(), k);
    }
}

impl P1Buffer {
    /// Renders `sheet` against `instruments` at `config.interval` frames per
    /// tick; `None` when the sheet has no rows.
    pub fn render<I: BiInstrument>(config: Config, sheet: Sheet, instruments: Instruments<I>) -> (r:
        Result<Option<P1Buffer>, P1Error>)
        ensures
            render_result(r) == render_spec(config.interval as nat, sheet@, instruments@),
    {
        P1Buffer::render_from(&config, &sheet, &instruments)
    }

    /// Renders as `render` does, leaving the inputs to the caller.
    pub fn render_from<I: BiInstrument>(
        config: &Config,
        sheet: &Sheet,
        instruments: &Instruments<I>,
    ) -> (r: Result<Option<P1Buffer>, P1Error>)
        ensures
            render_result(r) == render_spec(config.interval as nat, sheet@, instruments@),
    {
        let interval = config.interval;
        let ghost sv = sheet@;
        let ghost iv = instruments@;
        match sheet {
            Sheet::Labelled { sheet: rows, .. } => match instruments {
                Instruments::Indexed(_) => Err(P1Error::ArrangementMismatch(false)),
                Instruments::Labelled(m) => {
                    let ghost bound = bound_labelled(labelled_view(rows@), entries(m@));
                    assert(render_spec(interval as nat, sv, iv) == mix_all(interval as nat, bound));
                    let mut acc: Option<P1Buffer> = None;
                    let mut k: usize = 0;
                    while k < rows.len()
                        invariant
                            k <= rows@.len(),
                            render_spec(interval as nat, sv, iv) == mix_all(interval as nat, bound),
                            sv == sheet@,
                            iv == instruments@,
                            interval == config.interval,
                            bound == bound_labelled(labelled_view(rows@), entries(m@)),
                            Ok::<Option<BufferView>, ErrorView>(buffer_view(acc)) == mix_all(
                                interval as nat,
                                bound.take(k as int),
                            ),
                        decreases rows.len() - k,
                    {
                        assert(bound.take(k + 1).drop_last() =~= bound.take(k as int));
                        let ghost row = bound[k as int];
                        assert(row.0 == rows@[k as int].0@ && row.1 == rows@[k as int].1@.len());
                        let name = rows[k].0.clone();
                        proof {
                            crate::keyed::lemma_key_index(entries(m@), rows@[k as int].0@);
                        }
                        match find_key(m, &rows[k].0) {
                            None => {
                                proof {
                                    lemma_mix_err(interval as nat, bound, k + 1);
                                }
                                return Err(P1Error::UnboundInstrument(name));
                            },
                            Some(j) => {
                                assert(entries(m@)[j as int].1 == m@[j as int].1);
                                let inst = &m[j].1;
                                assert(row.2 == Some(*inst));
                                match rows[k].1.len().checked_mul(interval) {
                                    None => {
                                        proof {
                                            lemma_mix_err(interval as nat, bound, k + 1);
                                        }
                                        return Err(P1Error::RowTooLong(name));
                                    },
                                    Some(size) => {
                                        let ghost acc_v = buffer_view(acc);
                                        assert(mix_all(interval as nat, bound.take(k + 1)) == mix_row(
                                            acc_v,
                                            name@,
                                            size as nat,
                                            *inst,
                                        ));
                                        match mix_into(acc, name, size, inst) {
                                            Ok(a) => {
                                                acc = a;
                                            },
                                            Err(e) => {
                                                proof {
                                                    lemma_mix_err(interval as nat, bound, k + 1);
                                                }
                                                return Err(e);
                                            },
                                        }
                                    },
                                }
                            },
                        }
                        k = k + 1;
                    }
                    assert(bound.take(k as int) == bound);
                    Ok(acc)
                },
            },
            Sheet::Indexed { sheet: rows, .. } => match instruments {
                Instruments::Labelled(_) => Err(P1Error::ArrangementMismatch(true)),
                Instruments::Indexed(l) => {
                    let ghost bound = bound_indexed(crate::sheet::indexed_view(rows@), l@);
                    assert(render_spec(interval as nat, sv, iv) == mix_all(interval as nat, bound));
                    let mut acc: Option<P1Buffer> = None;
                    let mut k: usize = 0;
                    while k < rows.len()
                        invariant
                            k <= rows@.len(),
                            render_spec(interval as nat, sv, iv) == mix_all(interval as nat, bound),
                            sv == sheet@,
                            iv == instruments@,
                            interval == config.interval,
                            bound == bound_indexed(crate::sheet::indexed_view(rows@), l@),
                            Ok::<Option<BufferView>, ErrorView>(buffer_view(acc)) == mix_all(
                                interval as nat,
                                bound.take(k as int),
                            ),
                        decreases rows.len() - k,
                    {
                        assert(bound.take(k + 1).drop_last() =~= bound.take(k as int));
                        let ghost row = bound[k as int];
                        assert(row.1 == rows@[k as int]@.len());
                        let name = index_numeral(k);
                        if k >= l.len() {
                            proof {
                                lemma_mix_err(interval as nat, bound, k + 1);
                            }
                            return Err(P1Error::UnboundInstrument(name));
                        }
                        match rows[k].len().checked_mul(interval) {
                            None => {
                                proof {
                                    lemma_mix_err(interval as nat, bound, k + 1);
                                }
                                return Err(P1Error::RowTooLong(name));
                            },
                            Some(size) => {
                                let ghost acc_v = buffer_view(acc);
                                assert(mix_all(interval as nat, bound.take(k + 1)) == mix_row(
                                    acc_v,
                                    name@,
                                    size as nat,
                                    l@[k as int],
                                ));
                                match mix_into(acc, name, size, &l[k]) {
                                    Ok(a) => {
                                        acc = a;
                                    },
                                    Err(e) => {
                                        proof {
                                            lemma_mix_err(interval as nat, bound, k + 1);
                                        }
                                        return Err(e);
                                    },
                                }
                            },
                        }
                        k = k + 1;
                    }
                    assert(bound.take(k as int) == bound);
                    Ok(acc)
                },
            },
        }
    }
}

/// The frame at `id` of `v`, if there is one.
pub open spec fn frame_at<const N: usize>(v: Seq<Sample<N>>, id: nat) -> Option<Sample<N>> {
    if id < v.len() {
        Some(v[id as int])
    } else {
        None
    }
}

pub fn get_frame<const N: usize>(v: &Vec<Sample<N>>, id: u32) -> (r: Option<Sample<N>>)
    ensures
        r == frame_at(v@, id as nat),
{
    let i = id as usize;
    if i < v.len() {
        Some(v[i])
    } else {
        None
    }
}

/// A rendered buffer, shared, usable as an instrument in a later render.
#[derive(Clone)]
pub struct P1(pub Arc<P1Buffer>);

impl P1 {
    /// Renders as `P1Buffer::render` does, and shares the result.
    pub fn render<I: BiInstrument>(config: Config, sheet: Sheet, instruments: Instruments<I>) -> (r:
        Result<Option<P1>, P1Error>)
        ensures
            render_spec(config.interval as nat, sheet@, instruments@) == match r {
                Ok(Some(p)) => Ok(Some((*p.0)@)),
                Ok(None) => Ok(None),
                Err(e) => Err(e@),
            },
    {
        match P1Buffer::render(config, sheet, instruments) {
            Ok(Some(b)) => Ok(Some(P1(Arc::new(b)))),
            Ok(None) => Ok(None),
            Err(e) => Err(e),
        }
    }
}

// A rendered buffer is ready only in the channel count it was rendered in;
// its other view reports that converting between channel counts is not
// supported. The mixer asks for stereo readiness first, so a buffer that
// reported both would always be read as stereo and a mono render could not
// be played again.
impl Instrument<1> for P1 {
    open spec fn spec_ready(&self) -> bool {
        *self.0 is Mono
    }

    open spec fn spec_get(&self, id: nat) -> Option<Sample<1>> {
        match *self.0 {
            P1Buffer::Mono(v) => frame_at(v@, id),
            P1Buffer::Stereo(_) => None,
        }
    }

    fn init(&self) -> (r: Result<(), String>) {
        match &*self.0 {
            P1Buffer::Mono(_) => Ok(()),
            P1Buffer::Stereo(_) => Err("a stereo buffer is not interpolated to mono".to_string()),
        }
    }

    fn get(&self, id: u32) -> (r: Option<Sample<1>>) {
        match &*self.0 {
            P1Buffer::Mono(v) => get_frame(v, id),
            P1Buffer::Stereo(_) => None,
        }
    }
}

impl Instrument<2> for P1 {
    open spec fn spec_ready(&self) -> bool {
        *self.0 is Stereo
    }

    open spec fn spec_get(&self, id: nat) -> Option<Sample<2>> {
        match *self.0 {
            P1Buffer::Stereo(v) => frame_at(v@, id),
            P1Buffer::Mono(_) => None,
        }
    }

    fn init(&self) -> (r: Result<(), String>) {
        match &*self.0 {
            P1Buffer::Stereo(_) => Ok(()),
            P1Buffer::Mono(_) => Err("a mono buffer is not interpolated to stereo".to_string()),
        }
    }

    fn get(&self, id: u32) -> (r: Option<Sample<2>>) {
        match &*self.0 {
            P1Buffer::Stereo(v) => get_frame(v, id),
            P1Buffer::Mono(_) => None,
        }
    }
}

impl BiInstrument for P1 {

}

} // verus!
