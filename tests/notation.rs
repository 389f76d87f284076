use std::str::FromStr;

use plunder::error::P1Error;
use plunder::sheet::{parse_sheet, split_pad_inclusive, Sheet};
use plunder::timeline::SourceIndexList;

fn as_offsets(list: SourceIndexList) -> Vec<isize> {
    list.into_iter()
        .map(|s| s.map(|u| u as isize).unwrap_or(-1))
        .collect()
}

fn offsets_of(s: &str) -> Vec<isize> {
    as_offsets(plunder::timeline::pat_to_source_index_list(s))
}

fn indexed_rows(sheet: Sheet) -> ((usize, usize), Vec<Vec<isize>>) {
    match sheet {
        Sheet::Indexed { range, sheet } => (range, sheet.into_iter().map(as_offsets).collect()),
        Sheet::Labelled { .. } => panic!("expected an indexed sheet"),
    }
}

fn labelled_rows(sheet: Sheet) -> ((usize, usize), Vec<(String, Vec<isize>)>) {
    match sheet {
        Sheet::Labelled { range, sheet } => (
            range,
            sheet.into_iter().map(|(k, v)| (k, as_offsets(v))).collect(),
        ),
        Sheet::Indexed { .. } => panic!("expected a labelled sheet"),
    }
}

#[test]
fn pat_to_source_index_list() {
    assert_eq!(
        offsets_of(r#"o   o   o   o   "#).as_slice(),
        &[0, 1, 2, 3, 0, 1, 2, 3, 0, 1, 2, 3, 0, 1, 2, 3],
    );
    assert_eq!(
        offsets_of(r#"  o   o   o   o "#).as_slice(),
        &[-1, -1, 0, 1, 2, 3, 0, 1, 2, 3, 0, 1, 2, 3, 0, 1],
    );
    assert_eq!(
        offsets_of(r#"oooooooooooooooo"#).as_slice(),
        &[0, 0, 0, 0, 0, 0, 0, 0, 0, 0, 0, 0, 0, 0, 0, 0],
    );
    assert_eq!(
        offsets_of(r#"[      ] [     ]"#).as_slice(),
        &[0, 1, 2, 3, 4, 5, 6, 7, -1, 0, 1, 2, 3, 4, 5, 6],
    );
    assert_eq!(
        offsets_of(r#"[      ) (     ]"#).as_slice(),
        &[0, 1, 2, 3, 4, 5, 6, 7, -1, 8, 9, 10, 11, 12, 13, 14],
    );
    assert_eq!(
        offsets_of(r#"[    ) )       ]"#).as_slice(),
        &[0, 1, 2, 3, 4, 5, -1, -1, -1, -1, -1, -1, -1, -1, -1, -1],
    );
}

#[test]
fn single_row_of_one_shots() {
    let (range, rows) = indexed_rows(parse_sheet("\no   o   o   o   ").unwrap());
    assert_eq!(range, (0, 15));
    assert_eq!(rows, vec![vec![0, 1, 2, 3, 0, 1, 2, 3, 0, 1, 2, 3, 0, 1, 2, 3]]);
}

#[test]
fn halt_then_restart_resets_the_counter() {
    let (_, rows) = indexed_rows(parse_sheet("\n[      ] [     ]").unwrap());
    assert_eq!(rows, vec![vec![0, 1, 2, 3, 4, 5, 6, 7, -1, 0, 1, 2, 3, 4, 5, 6]]);
}

#[test]
fn pause_then_unpause_keeps_the_counter() {
    let (_, rows) = indexed_rows(parse_sheet("\n[      ) (     ]").unwrap());
    assert_eq!(rows, vec![vec![0, 1, 2, 3, 4, 5, 6, 7, -1, 8, 9, 10, 11, 12, 13, 14]]);
}

#[test]
fn onsets_emit_zero_and_unpause_resumes() {
    assert_eq!(offsets_of("o  [ "), vec![0, 1, 2, 0, 1]);
    assert_eq!(offsets_of("(  "), vec![0, 1, 2]);
    assert_eq!(offsets_of("o ) ("), vec![0, 1, 2, -1, 3]);
    assert_eq!(offsets_of("o ] ("), vec![0, 1, 2, -1, 0]);
    assert_eq!(offsets_of("o ) ] ("), vec![0, 1, 2, -1, -1, -1, 3]);
    assert_eq!(offsets_of(" ]) "), vec![-1, -1, -1, -1]);
}

#[test]
fn parsing_twice_gives_the_same_sheet() {
    let text = "  |[  ]\nkick|o o \nsnare| o o\n";
    let a = parse_sheet(text).unwrap();
    let b = parse_sheet(text).unwrap();
    assert_eq!(format!("{:?}", a), format!("{:?}", b));
}

#[test]
fn rows_are_padded_and_truncated_to_the_loop() {
    let (range, rows) = indexed_rows(parse_sheet("  [  ]\no\n  o  o  \n   o").unwrap());
    assert_eq!(range, (2, 5));
    assert_eq!(rows, vec![vec![-1, -1, -1, -1], vec![0, 1, 2, 0], vec![-1, 0, 1, 2]]);
    for row in &rows {
        assert_eq!(row.len(), range.1 - range.0 + 1);
    }
}

#[test]
fn loop_defaults_to_the_longest_row() {
    let (range, rows) = indexed_rows(parse_sheet("\no\no  o\n\no ").unwrap());
    assert_eq!(range, (0, 3));
    assert_eq!(rows, vec![vec![0, 1, 2, 3], vec![0, 1, 2, 0], vec![0, 1, 2, 3]]);
}

#[test]
fn labelled_sheet_splits_each_row_at_its_separator() {
    let (range, rows) =
        labelled_rows(parse_sheet("     |[   ]\n kick |o   o\nhat|  o \nnote: no pattern|\n").unwrap());
    assert_eq!(range, (0, 4));
    assert_eq!(
        rows,
        vec![
            ("kick".to_string(), vec![0, 1, 2, 3, 0]),
            ("hat".to_string(), vec![-1, -1, 0, 1, 2]),
        ]
    );
}

#[test]
fn labelled_loop_defaults_after_the_separator() {
    let (range, rows) = labelled_rows(parse_sheet("|\na|o\nb|o  o\n").unwrap());
    assert_eq!(range, (0, 3));
    assert_eq!(
        rows,
        vec![
            ("a".to_string(), vec![0, 1, 2, 3]),
            ("b".to_string(), vec![0, 1, 2, 0]),
        ]
    );
}

#[test]
fn repeated_label_keeps_its_place_and_takes_the_later_row() {
    let (_, rows) = labelled_rows(parse_sheet("|\na|o\nb| o\na|  o\n").unwrap());
    assert_eq!(
        rows,
        vec![
            ("a".to_string(), vec![-1, -1, 0]),
            ("b".to_string(), vec![-1, 0, 1]),
        ]
    );
}

#[test]
fn crlf_line_endings_are_accepted() {
    let (_, rows) = indexed_rows(parse_sheet("[ ]\r\no  \r\n").unwrap());
    assert_eq!(rows, vec![vec![0, 1, 2]]);
}

#[test]
fn unicode_white_space_is_trimmed_from_labels() {
    let (_, rows) = labelled_rows(parse_sheet("|\n\u{3000}bass\u{a0}|o\n").unwrap());
    assert_eq!(rows, vec![("bass".to_string(), vec![0])]);
}

#[test]
fn empty_text_is_rejected() {
    assert_eq!(parse_sheet("").unwrap_err(), P1Error::Sheet);
}

#[test]
fn unknown_character_is_rejected() {
    assert_eq!(parse_sheet("\no x").unwrap_err(), P1Error::Sheet);
}

#[test]
fn characters_outside_the_loop_are_not_read() {
    let (_, rows) = indexed_rows(parse_sheet("[ ]\no  xyz").unwrap());
    assert_eq!(rows, vec![vec![0, 1, 2]]);
}

#[test]
fn sheet_without_rows_needs_a_loop_end() {
    assert_eq!(parse_sheet("header\n\n").unwrap_err(), P1Error::Sheet);
    let (range, rows) = indexed_rows(parse_sheet("[  ]").unwrap());
    assert_eq!(range, (0, 3));
    assert!(rows.is_empty());
}

#[test]
fn reversed_markers_give_empty_rows() {
    let (range, rows) = indexed_rows(parse_sheet("  ]  [\no o o o").unwrap());
    assert_eq!(range, (5, 2));
    assert_eq!(rows, vec![Vec::<isize>::new()]);
}

#[test]
fn sheet_len_and_loop_range() {
    let sheet = parse_sheet("|[ ]\na|o\nb| o\n").unwrap();
    assert_eq!(sheet.len(), 2);
    assert_eq!(*sheet.loop_range(), (0, 2));
}

#[test]
fn sheet_from_str() {
    let sheet = Sheet::from_str("\no o").unwrap();
    assert_eq!(sheet.len(), 1);
    assert!(Sheet::from_str("\n?").is_err());
}

#[test]
fn split_pad_inclusive_pads_and_truncates() {
    assert_eq!(split_pad_inclusive("abc", 1, 4, &'-'), "bc--");
    assert_eq!(split_pad_inclusive("abcdef", 2, 3, &' '), "cd");
    assert_eq!(split_pad_inclusive("abc", 3, 1, &' '), "");
}

#[test]
fn blank_rows_are_dropped() {
    let (_, rows) = indexed_rows(parse_sheet("\n \no\n\t  \n").unwrap());
    assert_eq!(rows, vec![vec![0]]);
    let (_, rows) = labelled_rows(parse_sheet("|\na| \nb|o\n").unwrap());
    assert_eq!(rows, vec![("b".to_string(), vec![0])]);
}
