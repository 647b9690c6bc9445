use radical_search::mode::{
    asks_in_english, is_blank, needs_pager, search_kind, without_marker, SearchKind,
};
use radical_search::strokes::StrokeSearch;

#[test]
fn first_character_tells_the_kind_of_search() {
    assert_eq!(search_kind(":口*"), SearchKind::Kanji);
    assert_eq!(search_kind("：口"), SearchKind::Kanji);
    assert_eq!(search_kind("_cat"), SearchKind::Sentence);
    assert_eq!(search_kind("＿猫"), SearchKind::Sentence);
    assert_eq!(search_kind("猫"), SearchKind::Word);
    assert_eq!(search_kind("a:_"), SearchKind::Word);
    assert_eq!(search_kind(""), SearchKind::Word);
}

#[test]
fn lone_markers_are_blank() {
    for query in ["", ":", "：", "_", "＿"] {
        assert!(is_blank(query), "{query:?}");
    }
    for query in [" ", "a", "猫", ":口", "::", "_ ", ":\n"] {
        assert!(!is_blank(query), "{query:?}");
    }
}

#[test]
fn sentence_terms_are_told_apart_by_their_first_byte() {
    assert!(asks_in_english("_cat"));
    assert!(asks_in_english("＿cat"));
    assert!(asks_in_english("_\u{7f}"));
    assert!(!asks_in_english("_猫"));
    assert!(!asks_in_english("_\u{80}"));
    assert_eq!(without_marker("_cat"), "cat");
    assert_eq!(without_marker("＿猫 犬"), "猫 犬");
    assert_eq!(without_marker("_"), "");
}

#[test]
fn pager_is_used_for_output_that_fills_the_terminal() {
    assert!(!needs_pager(0, 0));
    assert!(!needs_pager(usize::MAX, 0));
    assert!(needs_pager(0, 1));
    assert!(!needs_pager(22, 24));
    assert!(needs_pager(23, 24));
    assert!(needs_pager(24, 24));
}

#[test]
fn each_state_has_its_question() {
    assert_eq!(StrokeSearch::AwaitingStrokeCount.prompt(), "How many strokes does your radical have? ");
    assert_eq!(
        StrokeSearch::AwaitingSelection { choices: vec![] }.prompt(),
        "Choose the radical to use for your search: "
    );
    assert_eq!(StrokeSearch::Resolved { glyph: '口' }.prompt(), "");
}
