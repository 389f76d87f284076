//! A long-lived sequencer that is given a sheet and instruments in separate
//! calls, and renders only once it holds both.
use vstd::prelude::*;

use crate::error::P1Error;
use crate::instrument::{BiInstrument, Instruments, InstrumentsView};
use crate::render::{render_result, render_spec, Config, P1Buffer};
use crate::sheet::{Sheet, SheetView};

verus! {

/// What a sequencer holds.
pub enum Sequencer<I> {
    Empty,
    SheetOnly(Sheet),
    InstrumentsOnly(Instruments<I>),
    Ready(Sheet, Instruments<I>),
}

impl<I: BiInstrument> Sequencer<I> {
    pub open spec fn sheet_view(&self) -> Option<SheetView> {
        match self {
            Sequencer::SheetOnly(s) => Some(s@),
            Sequencer::Ready(s, _) => Some(s@),
            _ => None,
        }
    }

    pub open spec fn instruments_view(&self) -> Option<InstrumentsView<I>> {
        match self {
            Sequencer::InstrumentsOnly(i) => Some(i@),
            Sequencer::Ready(_, i) => Some(i@),
            _ => None,
        }
    }

    /// A sequencer that holds nothing yet.
    pub fn new() -> (r: Self)
        ensures
            r is Empty,
    {
        Sequencer::Empty
    }

    /// The sequencer with `sheet` in place of any earlier sheet.
    pub fn with_sheet(self, sheet: Sheet) -> (r: Self)
        ensures
            r.sheet_view() == Some(sheet@),
            r.instruments_view() == self.instruments_view(),
            r is Ready <==> self.instruments_view() is Some,
    {
        match self {
            Sequencer::Empty | Sequencer::SheetOnly(_) => Sequencer::SheetOnly(sheet),
            Sequencer::InstrumentsOnly(i) | Sequencer::Ready(_, i) => Sequencer::Ready(sheet, i),
        }
    }

    /// The sequencer with `instruments` in place of any earlier ones.
    pub fn with_instruments(self, instruments: Instruments<I>) -> (r: Self)
        ensures
            r.instruments_view() == Some(instruments@),
            r.sheet_view() == self.sheet_view(),
            r is Ready <==> self.sheet_view() is Some,
    {
        match self {
            Sequencer::Empty | Sequencer::InstrumentsOnly(_) => Sequencer::InstrumentsOnly(
                instruments,
            ),
            Sequencer::SheetOnly(s) | Sequencer::Ready(s, _) => Sequencer::Ready(s, instruments),
        }
    }

    /// Renders what the sequencer holds; `None` until it holds both a sheet
    /// and instruments.
    pub fn advance(&self, config: &Config) -> (r: Option<Result<Option<P1Buffer>, P1Error>>)
        ensures
            match self {
                Sequencer::Ready(s, i) => r matches Some(x) && render_result(x) == render_spec(
                    config.interval as nat,
                    s@,
                    i@,
                ),
                _ => r is None,
            },
    {
        match self {
            Sequencer::Ready(s, i) => Some(P1Buffer::render_from(config, s, i)),
            _ => None,
        }
    }
}

/// Makes new, empty sequencers.
pub struct P1Factory;

impl P1Factory {
    /// A new sequencer that holds nothing yet.
    pub fn create<I: BiInstrument>(&self) -> (r: Sequencer<I>)
        ensures
            r is Empty,
    {
        Sequencer::new()
    }
}

} // verus!
