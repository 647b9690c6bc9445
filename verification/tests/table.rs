use radical_search::table::{find_radical, has_glyphs, load, LoadError, RadicalMembership};

const ENTRY: &[u8] = &[
    0x24, 0x20, 0xCB, 0xAE, 0x20, 0x33, 0x20, 0x6B, 0x6F, 0x7A, 0x61, 0x74, 0x6F, 0x52, 0x0A, 0xB0,
    0xEA, 0xB3, 0xC7, 0xB3, 0xD4, 0x0A,
];

const SECOND_ENTRY: &[u8] = &[0x24, 0x20, 0xB0, 0xEC, 0x20, 0x31, 0x0A, 0xB0, 0xEA, 0x0A];

fn entry(glyph: &str, strokes: u8, kanji: &[&str]) -> RadicalMembership {
    RadicalMembership {
        glyph: glyph.to_string(),
        strokes,
        kanji: kanji.iter().map(|k| k.to_string()).collect(),
    }
}

#[test]
fn missing_table_is_unavailable() {
    assert_eq!(load(None), Err(LoadError::TableUnavailable));
}

#[test]
fn malformed_table_is_reported() {
    assert_eq!(load(Some(b"no radical table".as_slice())), Err(LoadError::TableMalformed));
    assert_eq!(load(Some(&ENTRY[..4])), Err(LoadError::TableMalformed));
}

#[test]
fn empty_file_is_an_empty_table() {
    assert_eq!(load(Some(b"".as_slice())), Ok(Vec::new()));
}

#[test]
fn table_is_parsed_in_file_order() {
    let table = load(Some(ENTRY)).expect("a table of one entry");
    assert_eq!(table, vec![entry("⻏", 3, &["郁", "廓", "郭"])]);
    let mut bytes = b"# a comment\n".to_vec();
    bytes.extend_from_slice(ENTRY);
    bytes.extend_from_slice(SECOND_ENTRY);
    let table = load(Some(&bytes)).expect("a table of two entries");
    assert_eq!(table, vec![entry("⻏", 3, &["郁", "廓", "郭"]), entry("一", 1, &["郁"])]);
}

#[test]
fn first_entry_with_the_radical_is_found() {
    let table = vec![
        entry("一", 1, &[]),
        entry("人亻", 2, &[]),
        entry("口", 3, &[]),
        entry("亻", 2, &[]),
    ];
    assert_eq!(find_radical(&table, '一'), Some(0));
    assert_eq!(find_radical(&table, '人'), Some(1));
    assert_eq!(find_radical(&table, '亻'), Some(1));
    assert_eq!(find_radical(&table, '口'), Some(2));
    assert_eq!(find_radical(&table, '木'), None);
    assert_eq!(find_radical(&[], '一'), None);
}

#[test]
fn entries_without_glyph_are_noticed() {
    assert!(has_glyphs(&[]));
    assert!(has_glyphs(&[entry("一", 1, &[]), entry("口", 3, &[])]));
    assert!(!has_glyphs(&[entry("一", 1, &[]), entry("", 3, &["右"])]));
}
