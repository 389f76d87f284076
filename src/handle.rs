//! One handle type for every instrument a table may hold: a decoded file or
//! an earlier render.
use vstd::prelude::*;

use crate::instrument::{BiInstrument, Instrument};
use crate::of_wav::OfWav;
use crate::render::P1;
use crate::sample::Sample;

verus! {

/// An instrument of either kind.
#[derive(Clone)]
pub enum DynInstrument {
    Wav(OfWav),
    Rendered(P1),
}

impl Instrument<1> for DynInstrument {
    open spec fn spec_ready(&self) -> bool {
        match self {
            DynInstrument::Wav(w) => <OfWav as Instrument<1>>::spec_ready(w),
            DynInstrument::Rendered(p) => <P1 as Instrument<1>>::spec_ready(p),
        }
    }

    open spec fn spec_get(&self, id: nat) -> Option<Sample<1>> {
        match self {
            DynInstrument::Wav(w) => <OfWav as Instrument<1>>::spec_get(w, id),
            DynInstrument::Rendered(p) => <P1 as Instrument<1>>::spec_get(p, id),
        }
    }

    fn init(&self) -> (r: Result<(), String>) {
        match self {
            DynInstrument::Wav(w) => <OfWav as Instrument<1>>::init(w),
            DynInstrument::Rendered(p) => <P1 as Instrument<1>>::init(p),
        }
    }

    fn get(&self, id: u32) -> (r: Option<Sample<1>>) {
        match self {
            DynInstrument::Wav(w) => <OfWav as Instrument<1>>::get(w, id),
            DynInstrument::Rendered(p) => <P1 as Instrument<1>>::get(p, id),
        }
    }
}

impl Instrument<2> for DynInstrument {
    open spec fn spec_ready(&self) -> bool {
        match self {
            DynInstrument::Wav(w) => <OfWav as Instrument<2>>::spec_ready(w),
            DynInstrument::Rendered(p) => <P1 as Instrument<2>>::spec_ready(p),
        }
    }

    open spec fn spec_get(&self, id: nat) -> Option<Sample<2>> {
        match self {
            DynInstrument::Wav(w) => <OfWav as Instrument<2>>::spec_get(w, id),
            DynInstrument::Rendered(p) => <P1 as Instrument<2>>::spec_get(p, id),
        }
    }

    fn init(&self) -> (r: Result<(), String>) {
        match self {
            DynInstrument::Wav(w) => <OfWav as Instrument<2>>::init(w),
            DynInstrument::Rendered(p) => <P1 as Instrument<2>>::init(p),
        }
    }

    fn get(&self, id: u32) -> (r: Option<Sample<2>>) {
        match self {
            DynInstrument::Wav(w) => <OfWav as Instrument<2>>::get(w, id),
            DynInstrument::Rendered(p) => <P1 as Instrument<2>>::get(p, id),
        }
    }
}

impl BiInstrument for DynInstrument {

}

} // verus!
