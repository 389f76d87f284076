//! Audio frames: one value per channel in one of several encodings, and how
//! two overlapping frames are blended.
use vstd::prelude::*;

verus! {

/// One frame of `CHANNELS` channels, all in the same encoding. A 24-bit
/// value is held as its three low bytes, most significant first; a float is
/// held as its IEEE-754 bit pattern.
#[derive(Debug, Clone, Copy, PartialEq, Eq)]
pub enum Sample<const CHANNELS: usize> {
    I16([i16; CHANNELS]),
    I24([[u8; 3]; CHANNELS]),
    I32([i32; CHANNELS]),
    F32([u32; CHANNELS]),
    F64([u64; CHANNELS]),
}

/// The model of a frame: its encoding and the value of each channel.
pub enum SampleView {
    I16(Seq<int>),
    I24(Seq<int>),
    I32(Seq<int>),
    F32(Seq<int>),
    F64(Seq<int>),
}

/// The signed value of a 24-bit sample held as three bytes, most
/// significant first.
pub open spec fn i24_value(b: [u8; 3]) -> int {
    let u = b[0] as int * 65536 + b[1] as int * 256 + b[2] as int;
    if u >= 0x80_0000 {
        u - 0x100_0000
    } else {
        u
    }
}

pub open spec fn bit_depth_of(s: SampleView) -> nat {
    match s {
        SampleView::I16(_) => 16,
        SampleView::I24(_) => 24,
        SampleView::I32(_) => 32,
        SampleView::F32(_) => 32,
        SampleView::F64(_) => 64,
    }
}

impl<const CHANNELS: usize> View for Sample<CHANNELS> {
    type V = SampleView;

    open spec fn view(&self) -> SampleView {
        match self {
            Sample::I16(x) => SampleView::I16(x@.map_values(|v: i16| v as int)),
            Sample::I24(x) => SampleView::I24(x@.map_values(|v: [u8; 3]| i24_value(v))),
            Sample::I32(x) => SampleView::I32(x@.map_values(|v: i32| v as int)),
            Sample::F32(x) => SampleView::F32(x@.map_values(|v: u32| v as int)),
            Sample::F64(x) => SampleView::F64(x@.map_values(|v: u64| v as int)),
        }
    }
}

impl<const CHANNELS: usize> Sample<CHANNELS> {
    /// The number of bits of one channel value.
    pub fn bit_depth(&self) -> (r: u16)
        ensures
            r == bit_depth_of(self@),
    {
        match self {
            Sample::I16(_) => 16,
            Sample::I24(_) => 24,
            Sample::I32(_) => 32,
            Sample::F32(_) => 32,
            Sample::F64(_) => 64,
        }
    }
}

pub open spec fn clamp(x: int, lo: int, hi: int) -> int {
    if x < lo {
        lo
    } else if x > hi {
        hi
    } else {
        x
    }
}

/// The channel-wise sum of `x` and `y`, saturated to `lo..=hi`.
pub open spec fn saturated_sum(x: Seq<int>, y: Seq<int>, lo: int, hi: int) -> Seq<int> {
    Seq::new(x.len(), |c: int| clamp(x[c] + y[c], lo, hi))
}

/// How two frames at the same position are blended: frames of the same
/// integer encoding are summed channel by channel, saturating at the limits
/// of the encoding. For float frames, and for frames of two different
/// encodings, the later frame `b` wins.
pub open spec fn blend_view(a: SampleView, b: SampleView) -> SampleView {
    match (a, b) {
        (SampleView::I16(x), SampleView::I16(y)) => SampleView::I16(
            saturated_sum(x, y, -0x8000, 0x7fff),
        ),
        (SampleView::I24(x), SampleView::I24(y)) => SampleView::I24(
            saturated_sum(x, y, -0x80_0000, 0x7f_ffff),
        ),
        (SampleView::I32(x), SampleView::I32(y)) => SampleView::I32(
            saturated_sum(x, y, -0x8000_0000, 0x7fff_ffff),
        ),
        _ => b,
    }
}

/// The signed value of three bytes, most significant first.
pub fn i24_to_i32(b: [u8; 3]) -> (r: i32)
    ensures
        r == i24_value(b),
        -0x80_0000 <= r < 0x80_0000,
{
    let u: i32 = b[0] as i32 * 65536 + b[1] as i32 * 256 + b[2] as i32;
    if u >= 0x80_0000 {
        u - 0x100_0000
    } else {
        u
    }
}

/// The three low bytes of `v`, most significant first.
pub fn i24_from_i32(v: i32) -> (r: [u8; 3])
    requires
        -0x80_0000 <= v < 0x80_0000,
    ensures
        i24_value(r) == v,
{
    let u: u32 = if v < 0 {
        (v as i64 + 0x100_0000) as u32
    } else {
        v as u32
    };
    let hi: u32 = u / 65536;
    let mid: u32 = (u / 256) % 256;
    let lo: u32 = u % 256;
    proof {
        vstd::arithmetic::div_mod::lemma_fundamental_div_mod(u as int, 256);
        vstd::arithmetic::div_mod::lemma_fundamental_div_mod(u as int / 256, 256);
        vstd::arithmetic::div_mod::lemma_div_denominator(u as int, 256, 256);
    }
    let r: [u8; 3] = [hi as u8, mid as u8, lo as u8];
    assert(r[0] == hi && r[1] == mid && r[2] == lo);
    r
}

/// Blends the frame `b` into the frame `a`.
pub fn blend<const CHANNELS: usize>(a: &Sample<CHANNELS>, b: &Sample<CHANNELS>) -> (r: Sample<
    CHANNELS,
>)
    ensures
        r@ == blend_view(a@, b@),
{
    match (a, b) {
        (Sample::I16(x), Sample::I16(y)) => {
            let mut z = *x;
            let mut c: usize = 0;
            while c < CHANNELS
                invariant
                    c <= CHANNELS,
                    z@.len() == CHANNELS,
                    x@.len() == CHANNELS,
                    y@.len() == CHANNELS,
                    forall|j: int|
                        0 <= j < c ==> z@[j] as int == clamp(
                            x@[j] as int + y@[j] as int,
                            -0x8000,
                            0x7fff,
                        ),
                decreases CHANNELS - c,
            {
                let s: i32 = x[c] as i32 + y[c] as i32;
                let v: i16 = if s < -0x8000 {
                    -0x8000
                } else if s > 0x7fff {
                    0x7fff
                } else {
                    s as i16
                };
                z[c] = v;
                c = c + 1;
            }
            assert(z@.map_values(|v: i16| v as int) =~= saturated_sum(
                x@.map_values(|v: i16| v as int),
                y@.map_values(|v: i16| v as int),
                -0x8000,
                0x7fff,
            ));
            Sample::I16(z)
        },
        (Sample::I24(x), Sample::I24(y)) => {
            let mut z = *x;
            let mut c: usize = 0;
            while c < CHANNELS
                invariant
                    c <= CHANNELS,
                    z@.len() == CHANNELS,
                    x@.len() == CHANNELS,
                    y@.len() == CHANNELS,
                    forall|j: int|
                        0 <= j < c ==> i24_value(z@[j]) == clamp(
                            i24_value(x@[j]) + i24_value(y@[j]),
                            -0x80_0000,
                            0x7f_ffff,
                        ),
                decreases CHANNELS - c,
            {
                let s: i32 = i24_to_i32(x[c]) + i24_to_i32(y[c]);
                let v: i32 = if s < -0x80_0000 {
                    -0x80_0000
                } else if s > 0x7f_ffff {
                    0x7f_ffff
                } else {
                    s
                };
                z[c] = i24_from_i32(v);
                c = c + 1;
            }
            assert(z@.map_values(|v: [u8; 3]| i24_value(v)) =~= saturated_sum(
                x@.map_values(|v: [u8; 3]| i24_value(v)),
                y@.map_values(|v: [u8; 3]| i24_value(v)),
                -0x80_0000,
                0x7f_ffff,
            ));
            Sample::I24(z)
        },
        (Sample::I32(x), Sample::I32(y)) => {
            let mut z = *x;
            let mut c: usize = 0;
            while c < CHANNELS
                invariant
                    c <= CHANNELS,
                    z@.len() == CHANNELS,
                    x@.len() == CHANNELS,
                    y@.len() == CHANNELS,
                    forall|j: int|
                        0 <= j < c ==> z@[j] as int == clamp(
                            x@[j] as int + y@[j] as int,
                            -0x8000_0000,
                            0x7fff_ffff,
                        ),
                decreases CHANNELS - c,
            {
                let s: i64 = x[c] as i64 + y[c] as i64;
                let v: i32 = if s < -0x8000_0000 {
                    -0x8000_0000
                } else if s > 0x7fff_ffff {
                    0x7fff_ffff
                } else {
                    s as i32
                };
                z[c] = v;
                c = c + 1;
            }
            assert(z@.map_values(|v: i32| v as int) =~= saturated_sum(
                x@.map_values(|v: i32| v as int),
                y@.map_values(|v: i32| v as int),
                -0x8000_0000,
                0x7fff_ffff,
            ));
            Sample::I32(z)
        },
        _ => *b,
    }
}

} // verus!
