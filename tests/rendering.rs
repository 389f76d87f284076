use plunder::error::P1Error;
use plunder::handle::DynInstrument;
use plunder::instrument::{BiInstrument, Instrument, Instruments};
use plunder::of_wav::OfWav;
use plunder::render::{Config, P1Buffer, P1};
use plunder::sample::Sample;
use plunder::sequencer::{P1Factory, Sequencer};
use plunder::sheet::parse_sheet;

fn mono(samples: Vec<i32>) -> DynInstrument {
    DynInstrument::Wav(OfWav::from_samples(1, 16, &samples).unwrap())
}

fn stereo(depth: u16, samples: Vec<i32>) -> DynInstrument {
    DynInstrument::Wav(OfWav::from_samples(2, depth, &samples).unwrap())
}

fn labelled(pairs: Vec<(&str, DynInstrument)>) -> Instruments<DynInstrument> {
    Instruments::Labelled(pairs.into_iter().map(|(k, v)| (k.to_string(), v)).collect())
}

struct Silent;

impl Instrument<1> for Silent {
    fn init(&self) -> Result<(), String> {
        Err("not ready".to_string())
    }

    fn get(&self, _id: u32) -> Option<Sample<1>> {
        None
    }
}

impl Instrument<2> for Silent {
    fn init(&self) -> Result<(), String> {
        Err("not ready".to_string())
    }

    fn get(&self, _id: u32) -> Option<Sample<2>> {
        None
    }
}

impl BiInstrument for Silent {}

#[test]
fn one_row_repeats_the_first_frame() {
    let sheet = parse_sheet("\no   o   o   o   ").unwrap();
    let instruments = Instruments::Indexed(vec![mono(vec![7, 8, 9])]);
    let out = P1Buffer::render(Config { interval: 1 }, sheet, instruments).unwrap().unwrap();
    match out {
        P1Buffer::Mono(v) => {
            assert_eq!(v.len(), 16);
            assert!(v.iter().all(|s| *s == Sample::I16([7])));
        }
        P1Buffer::Stereo(_) => panic!("expected mono output"),
    }
}

#[test]
fn row_length_is_ticks_times_interval() {
    let sheet = parse_sheet("|\na|o  \n").unwrap();
    let instruments = labelled(vec![("a", stereo(32, vec![5, -5]))]);
    let out = P1Buffer::render(Config { interval: 4 }, sheet, instruments).unwrap().unwrap();
    match out {
        P1Buffer::Stereo(v) => {
            assert_eq!(v.len(), 12);
            assert!(v.iter().all(|s| *s == Sample::I32([5, -5])));
        }
        P1Buffer::Mono(_) => panic!("expected stereo output"),
    }
}

#[test]
fn overlapping_rows_are_summed_and_saturate() {
    let sheet = parse_sheet("|\na|o  \nb|o\n").unwrap();
    let instruments = labelled(vec![
        ("b", stereo(16, vec![30000, -100])),
        ("a", stereo(16, vec![10000, 100])),
    ]);
    let out = P1Buffer::render(Config { interval: 2 }, sheet, instruments).unwrap().unwrap();
    match out {
        P1Buffer::Stereo(v) => {
            assert_eq!(v.len(), 6);
            assert!(v.iter().all(|s| *s == Sample::I16([32767, 0])));
        }
        P1Buffer::Mono(_) => panic!("expected stereo output"),
    }
}

#[test]
fn overlapping_24_bit_rows_are_summed() {
    let sheet = parse_sheet("|\na|o\nb|o\n").unwrap();
    let instruments = labelled(vec![
        ("a", stereo(24, vec![-8_000_000, 1])),
        ("b", stereo(24, vec![-1_000_000, 2])),
    ]);
    let out = P1Buffer::render(Config { interval: 1 }, sheet, instruments).unwrap().unwrap();
    match out {
        P1Buffer::Stereo(v) => {
            assert_eq!(v.len(), 1);
            assert_eq!(v[0], Sample::I24([[0x80, 0x00, 0x00], [0x00, 0x00, 0x03]]));
        }
        P1Buffer::Mono(_) => panic!("expected stereo output"),
    }
}

#[test]
fn different_encodings_take_the_later_frame() {
    let sheet = parse_sheet("|\na|o\nb|o\n").unwrap();
    let instruments = labelled(vec![("a", mono(vec![1])), ("b", DynInstrument::Wav(OfWav::from_samples(1, 32, &vec![9]).unwrap()))]);
    match P1Buffer::render(Config { interval: 2 }, sheet, instruments).unwrap().unwrap() {
        P1Buffer::Mono(v) => assert_eq!(v, vec![Sample::I32([9]); 2]),
        P1Buffer::Stereo(_) => panic!("expected mono output"),
    }
}

#[test]
fn rows_are_taken_in_turn() {
    let sheet = parse_sheet("|\na|o\nb|o\n").unwrap();
    let instruments: Instruments<Silent> = Instruments::Labelled(vec![("a".to_string(), Silent)]);
    assert_eq!(
        P1Buffer::render(Config { interval: 1 }, sheet, instruments).err(),
        Some(P1Error::InstrumentUnavailable("a".to_string()))
    );
}

#[test]
fn all_rows_unbound_names_the_first() {
    let sheet = parse_sheet("|\nfirst|o\nsecond|o\n").unwrap();
    let instruments = labelled(vec![("other", mono(vec![1]))]);
    assert_eq!(
        P1Buffer::render(Config { interval: 1 }, sheet, instruments).err(),
        Some(P1Error::UnboundInstrument("first".to_string()))
    );
    let sheet = parse_sheet("\no\no").unwrap();
    let instruments: Instruments<DynInstrument> = Instruments::Indexed(vec![mono(vec![1])]);
    assert_eq!(
        P1Buffer::render(Config { interval: 1 }, sheet, instruments).err(),
        Some(P1Error::UnboundInstrument("1".to_string()))
    );
}

#[test]
fn unbound_row_after_ready_rows() {
    let sheet = parse_sheet("|\na|o\nb|o\n").unwrap();
    let instruments = labelled(vec![("a", mono(vec![1]))]);
    assert_eq!(
        P1Buffer::render(Config { interval: 1 }, sheet, instruments).err(),
        Some(P1Error::UnboundInstrument("b".to_string()))
    );
}

#[test]
fn arrangement_mismatch_either_way() {
    let sheet = parse_sheet("|\na|o\n").unwrap();
    let instruments: Instruments<Silent> = Instruments::Indexed(vec![Silent]);
    assert_eq!(
        P1Buffer::render(Config { interval: 1 }, sheet, instruments).err(),
        Some(P1Error::ArrangementMismatch(false))
    );
    let sheet = parse_sheet("\no\n").unwrap();
    let instruments: Instruments<Silent> = Instruments::Labelled(vec![("a".to_string(), Silent)]);
    assert_eq!(
        P1Buffer::render(Config { interval: 1 }, sheet, instruments).err(),
        Some(P1Error::ArrangementMismatch(true))
    );
}

#[test]
fn unready_instrument_is_unavailable() {
    let sheet = parse_sheet("|\na|o\n").unwrap();
    let instruments: Instruments<Silent> = Instruments::Labelled(vec![("a".to_string(), Silent)]);
    assert_eq!(
        P1Buffer::render(Config { interval: 1 }, sheet, instruments).err(),
        Some(P1Error::InstrumentUnavailable("a".to_string()))
    );
}

#[test]
fn instrument_without_frames_is_empty() {
    let sheet = parse_sheet("\no\n").unwrap();
    let instruments = Instruments::Indexed(vec![mono(vec![])]);
    assert_eq!(
        P1Buffer::render(Config { interval: 1 }, sheet, instruments).err(),
        Some(P1Error::EmptyInstrument("0".to_string()))
    );
}

#[test]
fn mono_after_stereo_is_a_format_conflict() {
    let sheet = parse_sheet("|\na|o\nb|o\n").unwrap();
    let instruments = labelled(vec![("a", stereo(16, vec![1, 1])), ("b", mono(vec![1]))]);
    assert_eq!(
        P1Buffer::render(Config { interval: 1 }, sheet, instruments).err(),
        Some(P1Error::FormatConflict("b".to_string()))
    );
}

#[test]
fn sheet_without_rows_renders_nothing() {
    let sheet = parse_sheet("[ ]").unwrap();
    let instruments: Instruments<DynInstrument> = Instruments::Indexed(Vec::new());
    assert!(P1Buffer::render(Config { interval: 1 }, sheet, instruments).unwrap().is_none());
}

#[test]
fn default_interval_is_a_thousand() {
    assert_eq!(Config::default().interval, 1000);
}

#[test]
fn a_render_is_an_instrument() {
    let sheet = parse_sheet("\no\n").unwrap();
    let first = P1::render(Config { interval: 3 }, sheet, Instruments::Indexed(vec![stereo(16, vec![4, 5])]))
        .unwrap()
        .unwrap();
    assert!(Instrument::<2>::init(&first).is_ok());
    assert!(Instrument::<1>::init(&first).is_err());
    assert_eq!(Instrument::<2>::get(&first, 2), Some(Sample::I16([4, 5])));
    assert_eq!(Instrument::<2>::get(&first, 3), None);
    let sheet = parse_sheet("\no \n").unwrap();
    let second = P1Buffer::render(
        Config { interval: 1 },
        sheet,
        Instruments::Indexed(vec![DynInstrument::Rendered(first)]),
    )
    .unwrap()
    .unwrap();
    match second {
        P1Buffer::Stereo(v) => assert_eq!(v, vec![Sample::I16([4, 5]), Sample::I16([4, 5])]),
        P1Buffer::Mono(_) => panic!("expected stereo output"),
    }
}

#[test]
fn sequencer_renders_once_it_holds_both() {
    let config = Config { interval: 2 };
    let s: Sequencer<DynInstrument> = P1Factory.create();
    assert!(s.advance(&config).is_none());
    let s = s.with_instruments(Instruments::Indexed(vec![mono(vec![3])]));
    assert!(s.advance(&config).is_none());
    let s = s.with_sheet(parse_sheet("\no ").unwrap());
    match s.advance(&config) {
        Some(Ok(Some(P1Buffer::Mono(v)))) => assert_eq!(v, vec![Sample::I16([3]); 4]),
        _ => panic!("expected a mono render"),
    }
    let s = s.with_sheet(parse_sheet("\no").unwrap());
    match s.advance(&config) {
        Some(Ok(Some(P1Buffer::Mono(v)))) => assert_eq!(v.len(), 2),
        _ => panic!("expected a mono render"),
    }
}

#[test]
fn rows_too_long_for_memory_fail() {
    let sheet = parse_sheet("\no  ").unwrap();
    let instruments = Instruments::Indexed(vec![mono(vec![1])]);
    assert_eq!(
        P1Buffer::render(Config { interval: usize::MAX / 3 + 1 }, sheet, instruments).err(),
        Some(P1Error::RowTooLong("0".to_string()))
    );
}

#[test]
fn error_messages() {
    assert_eq!(P1Error::Sheet.message(), "Sheet error");
    assert_eq!(
        P1Error::UnboundInstrument("kick".to_string()).message(),
        "Sheet mentions instrument \"kick\" which is not provided in instruments"
    );
    assert_eq!(
        P1Error::ArrangementMismatch(true).message(),
        "Sheet provided is indexed but the instruments table is labelled"
    );
    assert_eq!(
        P1Error::RowTooLong("3".to_string()).message(),
        "Row \"3\" is too long at this tick interval"
    );
}
