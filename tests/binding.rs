use plunder::error::P1Error;
use plunder::handle::DynInstrument;
use plunder::instrument::{Instruments, TableKey};
use plunder::of_wav::OfWav;

fn wav(first: i32) -> DynInstrument {
    DynInstrument::Wav(OfWav::from_samples(1, 16, &vec![first]).unwrap())
}

fn name(s: &str) -> TableKey {
    TableKey::Name(s.to_string())
}

fn names_of(c: &Instruments<DynInstrument>) -> Vec<String> {
    match c {
        Instruments::Labelled(m) => m.iter().map(|(k, _)| k.clone()).collect(),
        Instruments::Indexed(_) => panic!("expected a labelled collection"),
    }
}

#[test]
fn first_name_key_gives_labelled() {
    let pairs = vec![
        (TableKey::Other, None),
        (name("kick"), Some(wav(1))),
        (TableKey::Index(1), None),
        (name("snare"), Some(wav(2))),
    ];
    let c = Instruments::from_lua_pairs(pairs).unwrap().unwrap();
    assert_eq!(names_of(&c), vec!["kick".to_string(), "snare".to_string()]);
}

#[test]
fn first_integer_key_gives_indexed() {
    let pairs = vec![
        (TableKey::Index(1), Some(wav(1))),
        (name("comment"), None),
        (TableKey::Index(7), Some(wav(2))),
    ];
    match Instruments::from_lua_pairs(pairs).unwrap().unwrap() {
        Instruments::Indexed(l) => assert_eq!(l.len(), 2),
        Instruments::Labelled(_) => panic!("expected an indexed collection"),
    }
}

#[test]
fn no_keys_give_no_instruments() {
    let empty: Vec<(TableKey, Option<DynInstrument>)> = Vec::new();
    assert!(Instruments::from_lua_pairs(empty).unwrap().is_none());
    let others = vec![(TableKey::Other, Some(wav(1))), (TableKey::Other, None)];
    assert!(Instruments::from_lua_pairs(others).unwrap().is_none());
}

#[test]
fn a_value_that_is_no_instrument_names_its_key() {
    let pairs = vec![(name("kick"), Some(wav(1))), (name("bad"), None)];
    assert_eq!(
        Instruments::from_lua_pairs(pairs).err(),
        Some(P1Error::InstrumentUnknown("bad".to_string()))
    );
    let pairs = vec![(TableKey::Index(-12), None::<DynInstrument>)];
    assert_eq!(
        Instruments::from_lua_pairs(pairs).err(),
        Some(P1Error::InstrumentUnknown("-12".to_string()))
    );
}

#[test]
fn ignored_pairs_are_not_checked() {
    let pairs = vec![(name("kick"), Some(wav(1))), (TableKey::Index(2), None)];
    assert!(Instruments::from_lua_pairs(pairs).is_ok());
}

#[test]
fn a_repeated_name_keeps_its_place() {
    let pairs = vec![
        (name("a"), Some(wav(1))),
        (name("b"), Some(wav(2))),
        (name("a"), Some(wav(3))),
    ];
    let c = Instruments::from_lua_pairs(pairs).unwrap().unwrap();
    assert_eq!(names_of(&c), vec!["a".to_string(), "b".to_string()]);
}
