use plunder::instrument::Instrument;
use plunder::of_wav::{check_format, Inner, OfWav, WavError};
use plunder::sample::{blend, i24_from_i32, i24_to_i32, Sample};
use plunder::text::{decimal_of, index_numeral, string_of, trimmed};

#[test]
fn bit_depth_follows_the_encoding() {
    assert_eq!(Sample::<1>::I16([0]).bit_depth(), 16);
    assert_eq!(Sample::<1>::I24([[0, 0, 0]]).bit_depth(), 24);
    assert_eq!(Sample::<2>::I32([0, 0]).bit_depth(), 32);
    assert_eq!(Sample::<1>::F32([0]).bit_depth(), 32);
    assert_eq!(Sample::<1>::F64([0]).bit_depth(), 64);
}

#[test]
fn blend_saturates_each_channel() {
    assert_eq!(
        blend(&Sample::I16([-30000, 5]), &Sample::I16([-30000, 6])),
        Sample::I16([-32768, 11])
    );
    assert_eq!(
        blend(&Sample::I32([i32::MAX, -1]), &Sample::I32([1, -1])),
        Sample::I32([i32::MAX, -2])
    );
}

#[test]
fn blend_without_a_sum_takes_the_later_frame() {
    assert_eq!(blend(&Sample::<1>::F32([7]), &Sample::F32([8])), Sample::F32([8]));
    assert_eq!(blend(&Sample::<1>::I16([3]), &Sample::I32([4])), Sample::I32([4]));
}

#[test]
fn i24_bytes_round_trip() {
    assert_eq!(i24_from_i32(-1), [0xff, 0xff, 0xff]);
    assert_eq!(i24_from_i32(0x123456), [0x12, 0x34, 0x56]);
    assert_eq!(i24_to_i32([0x80, 0, 0]), -0x80_0000);
    assert_eq!(i24_to_i32(i24_from_i32(-4242)), -4242);
}

#[test]
fn wav_samples_become_frames() {
    match Inner::from_samples(1, 16, &vec![1, -2, 70000]).unwrap() {
        Inner::Mono(v) => assert_eq!(v, vec![Sample::I16([1]), Sample::I16([-2]), Sample::I16([4464])]),
        Inner::Stereo(_) => panic!("expected mono frames"),
    }
    match Inner::from_samples(2, 24, &vec![-1, 0x123456, 3, 4]).unwrap() {
        Inner::Stereo(v) => assert_eq!(
            v,
            vec![
                Sample::I24([[0xff, 0xff, 0xff], [0x12, 0x34, 0x56]]),
                Sample::I24([[0, 0, 3], [0, 0, 4]])
            ]
        ),
        Inner::Mono(_) => panic!("expected stereo frames"),
    }
    match Inner::from_samples(2, 32, &vec![i32::MIN, i32::MAX]).unwrap() {
        Inner::Stereo(v) => assert_eq!(v, vec![Sample::I32([i32::MIN, i32::MAX])]),
        Inner::Mono(_) => panic!("expected stereo frames"),
    }
}

#[test]
fn trailing_half_frame_is_dropped() {
    match Inner::from_samples(2, 16, &vec![1, 2, 3]).unwrap() {
        Inner::Stereo(v) => assert_eq!(v, vec![Sample::I16([1, 2])]),
        Inner::Mono(_) => panic!("expected stereo frames"),
    }
    assert_eq!(Inner::from_samples(2, 12, &vec![1, 2, 3]).err(), Some(WavError::UnsupportedBitDepth(12)));
}

#[test]
fn formats_are_checked_alone() {
    assert_eq!(check_format(2, 24), Ok(()));
    assert_eq!(check_format(4, 24), Err(WavError::UnsupportedNumChannels(4)));
    assert_eq!(check_format(1, 64), Err(WavError::UnsupportedBitDepth(64)));
}

#[test]
fn unsupported_wav_formats() {
    assert_eq!(Inner::from_samples(3, 16, &vec![]).err(), Some(WavError::UnsupportedNumChannels(3)));
    assert_eq!(Inner::from_samples(3, 8, &vec![]).err(), Some(WavError::UnsupportedNumChannels(3)));
    assert_eq!(Inner::from_samples(1, 8, &vec![1]).err(), Some(WavError::UnsupportedBitDepth(8)));
}

#[test]
fn wav_instrument_plays_its_own_channel_count() {
    let w = OfWav::from_samples(1, 16, &vec![9, 8]).unwrap();
    assert!(Instrument::<1>::init(&w).is_ok());
    assert!(Instrument::<2>::init(&w).is_err());
    assert_eq!(Instrument::<1>::get(&w, 1), Some(Sample::I16([8])));
    assert_eq!(Instrument::<1>::get(&w, 2), None);
    assert_eq!(Instrument::<2>::get(&w, 0), None);
}

#[test]
fn numerals_and_strings() {
    assert_eq!(decimal_of(-45), "-45");
    assert_eq!(decimal_of(0), "0");
    assert_eq!(decimal_of(i64::MIN), "-9223372036854775808");
    assert_eq!(index_numeral(1207), "1207");
    let chars: Vec<char> = " ab c\t".chars().collect();
    assert_eq!(string_of(&chars, 1, 4), "ab ");
    assert_eq!(trimmed(&chars, 0, chars.len()), "ab c");
}
