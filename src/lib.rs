//! A tracker-style sequencing engine. Sheet text is parsed into per-row
//! playback timelines (`sheet`, `timeline`), a table of instruments is bound
//! to the rows (`instrument`, `handle`), and the rows are rendered into one
//! buffer of mono or stereo frames (`render`, `sample`). A rendered buffer is
//! itself an instrument, as are the decoded samples of a WAV file
//! (`of_wav`). `sequencer` holds a sheet and instruments given apart, and
//! `laws` states what holds across all of these.
use vstd::prelude::*;

pub mod error;
pub mod handle;
pub mod instrument;
pub mod keyed;
pub mod laws;
pub mod of_wav;
pub mod render;
pub mod sample;
pub mod sequencer;
pub mod sheet;
pub mod text;
pub mod timeline;

verus! {

} // verus!
