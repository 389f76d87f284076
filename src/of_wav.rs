//! Instruments made of the decoded samples of a WAV file.
use vstd::prelude::*;

use std::sync::Arc;

use crate::instrument::{BiInstrument, Instrument};
use crate::render::{frame_at, frames, get_frame, BufferView};
use crate::sample::{i24_from_i32, Sample, SampleView};

verus! {

/// Why a decoded file cannot become an instrument.
#[derive(Debug, Clone, Copy, PartialEq, Eq)]
pub enum WavError {
    UnsupportedBitDepth(u16),
    UnsupportedNumChannels(u16),
}

/// The value of the low bits of `v` modulo `m` (a power of two up to
/// 2^32), read as a signed number.
pub open spec fn wrap(v: int, m: int) -> int {
    let u = (v + 0x8000_0000) % m;
    if u >= m / 2 {
        u - m
    } else {
        u
    }
}

/// The frame of the channel values `vs` in a file of bit depth `depth`.
pub open spec fn frame_of(depth: u16, vs: Seq<int>) -> SampleView {
    if depth == 16 {
        SampleView::I16(vs.map_values(|v: int| wrap(v, 0x1_0000)))
    } else if depth == 24 {
        SampleView::I24(vs.map_values(|v: int| wrap(v, 0x100_0000)))
    } else {
        SampleView::I32(vs)
    }
}

/// What the interleaved samples `samples` of a file with `channels` channels
/// at `depth` bits give: mono or stereo frames, one per sample or pair; a
/// trailing half frame is dropped.
pub open spec fn wav_spec(channels: u16, depth: u16, samples: Seq<i32>) -> Result<
    BufferView,
    WavError,
> {
    if channels != 1 && channels != 2 {
        Err(WavError::UnsupportedNumChannels(channels))
    } else if depth != 16 && depth != 24 && depth != 32 {
        Err(WavError::UnsupportedBitDepth(depth))
    } else if channels == 1 {
        Ok(
            BufferView::Mono(
                Seq::new(samples.len(), |k: int| frame_of(depth, seq![samples[k] as int])),
            ),
        )
    } else {
        Ok(
            BufferView::Stereo(
                Seq::new(
                    samples.len() / 2,
                    |k: int| frame_of(depth, seq![samples[2 * k] as int, samples[2 * k + 1] as int]),
                ),
            ),
        )
    }
}

/// The decoded frames of a file.
#[derive(Debug)]
pub enum Inner {
    Mono(Vec<Sample<1>>),
    Stereo(Vec<Sample<2>>),
}

impl View for Inner {
    type V = BufferView;

    open spec fn view(&self) -> BufferView {
        match self {
            Inner::Mono(v) => BufferView::Mono(frames(v@)),
            Inner::Stereo(v) => BufferView::Stereo(frames(v@)),
        }
    }
}

pub open spec fn wav_result(r: Result<Inner, WavError>) -> Result<BufferView, WavError> {
    match r {
        Ok(i) => Ok(i@),
        Err(e) => Err(e),
    }
}

/// The low 16 bits of `v`, signed.
fn low16(v: i32) -> (r: i16)
    ensures
        r as int == wrap(v as int, 0x1_0000),
{
    let u: u64 = ((v as i64 + 0x8000_0000) as u64) % 0x1_0000;
    if u >= 0x8000 {
        (u as i64 - 0x1_0000) as i16
    } else {
        u as i16
    }
}

/// The low 24 bits of `v`, signed.
fn low24(v: i32) -> (r: i32)
    ensures
        r as int == wrap(v as int, 0x100_0000),
        -0x80_0000 <= r < 0x80_0000,
{
    let u: u64 = ((v as i64 + 0x8000_0000) as u64) % 0x100_0000;
    if u >= 0x80_0000 {
        (u as i64 - 0x100_0000) as i32
    } else {
        u as i32
    }
}

fn mono_frame(depth: u16, a: i32) -> (r: Sample<1>)
    requires
        depth == 16 || depth == 24 || depth == 32,
    ensures
        r@ == frame_of(depth, seq![a as int]),
{
    if depth == 16 {
        let r = Sample::I16([low16(a)]);
        assert(r@->I16_0 =~= seq![a as int].map_values(|v: int| wrap(v, 0x1_0000)));
        r
    } else if depth == 24 {
        let r = Sample::I24([i24_from_i32(low24(a))]);
        assert(r@->I24_0 =~= seq![a as int].map_values(|v: int| wrap(v, 0x100_0000)));
        r
    } else {
        let r = Sample::I32([a]);
        assert(r@->I32_0 =~= seq![a as int]);
        r
    }
}

fn stereo_frame(depth: u16, a: i32, b: i32) -> (r: Sample<2>)
    requires
        depth == 16 || depth == 24 || depth == 32,
    ensures
        r@ == frame_of(depth, seq![a as int, b as int]),
{
    if depth == 16 {
        let r = Sample::I16([low16(a), low16(b)]);
        assert(r@->I16_0 =~= seq![a as int, b as int].map_values(|v: int| wrap(v, 0x1_0000)));
        r
    } else if depth == 24 {
        let r = Sample::I24([i24_from_i32(low24(a)), i24_from_i32(low24(b))]);
        assert(r@->I24_0 =~= seq![a as int, b as int].map_values(|v: int| wrap(v, 0x100_0000)));
        r
    } else {
        let r = Sample::I32([a, b]);
        assert(r@->I32_0 =~= seq![a as int, b as int]);
        r
    }
}

/// Whether a file of `channels` channels at `depth` bits can be decoded;
/// checked before any sample is read.
pub fn check_format(channels: u16, depth: u16) -> (r: Result<(), WavError>)
    ensures
        r is Ok <==> wav_spec(channels, depth, seq![]) is Ok,
        r matches Err(e) ==> wav_spec(channels, depth, seq![]) == Err::<BufferView, WavError>(e),
{
    if channels != 1 && channels != 2 {
        Err(WavError::UnsupportedNumChannels(channels))
    } else if depth != 16 && depth != 24 && depth != 32 {
        Err(WavError::UnsupportedBitDepth(depth))
    } else {
        Ok(())
    }
}

impl Inner {
    /// Frames from the interleaved samples of a file with `channels`
    /// channels at `depth` bits per sample. Files of one or two channels at
    /// 16, 24 or 32 bits are supported.
    pub fn from_samples(channels: u16, depth: u16, samples: &Vec<i32>) -> (r: Result<Inner, WavError>)
        ensures
            wav_result(r) == wav_spec(channels, depth, samples@),
    {
        if let Err(e) = check_format(channels, depth) {
            return Err(e);
        }
        if channels == 1 {
            let mut out: Vec<Sample<1>> = Vec::new();
            let mut k: usize = 0;
            while k < samples.len()
                invariant
                    k <= samples@.len(),
                    depth == 16 || depth == 24 || depth == 32,
                    frames(out@) =~= Seq::new(k as nat, |j: int| frame_of(depth, seq![samples@[j] as int])),
                decreases samples.len() - k,
            {
                let f = mono_frame(depth, samples[k]);
                let ghost before = frames(out@);
                out.push(f);
                assert(frames(out@) =~= before.push(f@));
                k = k + 1;
            }
            Ok(Inner::Mono(out))
        } else {
            let mut out: Vec<Sample<2>> = Vec::new();
            let n = samples.len() / 2;
            let mut k: usize = 0;
            while k < n
                invariant
                    k <= n,
                    n == samples@.len() / 2,
                    samples@.len() <= usize::MAX,
                    depth == 16 || depth == 24 || depth == 32,
                    frames(out@) =~= Seq::new(
                        k as nat,
                        |j: int| frame_of(depth, seq![samples@[2 * j] as int, samples@[2 * j + 1] as int]),
                    ),
                decreases n - k,
            {
                proof {
                    vstd::arithmetic::div_mod::lemma_fundamental_div_mod(samples@.len() as int, 2);
                }
                assert(2 * k + 1 < samples@.len());
                let f = stereo_frame(depth, samples[2 * k], samples[2 * k + 1]);
                let ghost before = frames(out@);
                out.push(f);
                assert(frames(out@) =~= before.push(f@));
                k = k + 1;
            }
            Ok(Inner::Stereo(out))
        }
    }
}

/// A decoded file, shared, usable as an instrument. It plays with the
/// channel count of the file; the other count is not interpolated.
#[derive(Clone)]
pub struct OfWav(pub Arc<Inner>);

impl OfWav {
    /// See `Inner::from_samples`.
    pub fn from_samples(channels: u16, depth: u16, samples: &Vec<i32>) -> (r: Result<OfWav, WavError>)
        ensures
            wav_spec(channels, depth, samples@) == match r {
                Ok(w) => Ok((*w.0)@),
                Err(e) => Err(e),
            },
    {
        match Inner::from_samples(channels, depth, samples) {
            Ok(inner) => Ok(OfWav(Arc::new(inner))),
            Err(e) => Err(e),
        }
    }
}

impl Instrument<1> for OfWav {
    open spec fn spec_ready(&self) -> bool {
        *self.0 is Mono
    }

    open spec fn spec_get(&self, id: nat) -> Option<Sample<1>> {
        match *self.0 {
            Inner::Mono(v) => frame_at(v@, id),
            Inner::Stereo(_) => None,
        }
    }

    fn init(&self) -> (r: Result<(), String>) {
        match &*self.0 {
            Inner::Mono(_) => Ok(()),
            Inner::Stereo(_) => Err("stereo audio is not interpolated to mono".to_string()),
        }
    }

    fn get(&self, id: u32) -> (r: Option<Sample<1>>) {
        match &*self.0 {
            Inner::Mono(v) => get_frame(v, id),
            Inner::Stereo(_) => None,
        }
    }
}

impl Instrument<2> for OfWav {
    open spec fn spec_ready(&self) -> bool {
        *self.0 is Stereo
    }

    open spec fn spec_get(&self, id: nat) -> Option<Sample<2>> {
        match *self.0 {
            Inner::Stereo(v) => frame_at(v@, id),
            Inner::Mono(_) => None,
        }
    }

    fn init(&self) -> (r: Result<(), String>) {
        match &*self.0 {
            Inner::Stereo(_) => Ok(()),
            Inner::Mono(_) => Err("mono audio is not interpolated to stereo".to_string()),
        }
    }

    fn get(&self, id: u32) -> (r: Option<Sample<2>>) {
        match &*self.0 {
            Inner::Stereo(v) => get_frame(v, id),
            Inner::Mono(_) => None,
        }
    }
}

impl BiInstrument for OfWav {

}

} // verus!
