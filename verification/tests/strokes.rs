use radical_search::strokes::{list_by_strokes, search_by_strokes, Action, StrokeSearch};
use radical_search::table::RadicalMembership;

fn radical(glyph: &str, strokes: u8) -> RadicalMembership {
    RadicalMembership { glyph: glyph.to_string(), strokes, kanji: vec![glyph.to_string()] }
}

fn by_strokes() -> Vec<RadicalMembership> {
    vec![
        radical("一", 1),
        radical("｜", 1),
        radical("二", 2),
        radical("人亻", 2),
        radical("口", 3),
        radical("木", 4),
    ]
}

fn lines(items: &[&str]) -> Vec<String> {
    items.iter().map(|k| k.to_string()).collect()
}

#[test]
fn stroke_filter_gives_the_run_in_order() {
    let table = by_strokes();
    assert_eq!(list_by_strokes(&table, 1), (lines(&["一", "｜"]), true));
    assert_eq!(list_by_strokes(&table, 2), (lines(&["二", "人亻"]), true));
    assert_eq!(list_by_strokes(&table, 3), (lines(&["口"]), true));
    assert_eq!(list_by_strokes(&table, 4), (lines(&["木"]), false));
    assert_eq!(list_by_strokes(&table, 0), (Vec::<String>::new(), true));
    assert_eq!(list_by_strokes(&table, 5), (Vec::<String>::new(), false));
}

#[test]
fn stroke_filter_stops_at_a_greater_count() {
    let table = vec![radical("一", 1), radical("口", 3), radical("｜", 1)];
    assert_eq!(list_by_strokes(&table, 1), (lines(&["一"]), true));
    assert_eq!(list_by_strokes(&table, 3), (lines(&["口"]), false));
}

#[test]
fn stroke_count_lists_numbered_choices() {
    let table = by_strokes();
    let mut query = String::from(":*");
    let (state, action) = StrokeSearch::AwaitingStrokeCount.advance(&mut query, &table, 1, Some(" 2 \n"));
    assert!(matches!(action, Action::Listing(ref text) if text == "1二 2人亻 \n"));
    assert!(matches!(state, StrokeSearch::AwaitingSelection { ref choices } if choices == &['二', '人']));
    assert_eq!(query, ":*");
}

#[test]
fn listing_of_the_last_stroke_count_is_left_open() {
    let table = by_strokes();
    let mut query = String::from(":*");
    let (_, action) = StrokeSearch::AwaitingStrokeCount.advance(&mut query, &table, 1, Some("4"));
    assert!(matches!(action, Action::Listing(ref text) if text == "1木 "));
}

#[test]
fn stroke_count_without_radicals_lists_nothing() {
    let table = by_strokes();
    let mut query = String::from(":*");
    let (state, action) = StrokeSearch::AwaitingStrokeCount.advance(&mut query, &table, 1, Some("9"));
    assert!(matches!(action, Action::Listing(ref text) if text.is_empty()));
    assert!(matches!(state, StrokeSearch::AwaitingSelection { ref choices } if choices.is_empty()));
    let (state, action) = state.advance(&mut query, &table, 1, Some("1"));
    assert!(matches!(action, Action::SelectionOutOfRange));
    assert!(matches!(state, StrokeSearch::AwaitingSelection { ref choices } if choices.is_empty()));
}

#[test]
fn choices_are_numbered_past_nine() {
    let table: Vec<RadicalMembership> = "abcdefghijkl".chars().map(|c| radical(&c.to_string(), 7)).collect();
    let mut query = String::from(":*");
    let (state, action) = StrokeSearch::AwaitingStrokeCount.advance(&mut query, &table, 1, Some("7"));
    assert!(matches!(action, Action::Listing(ref text) if text == "1a 2b 3c 4d 5e 6f 7g 8h 9i 10j 11k 12l "));
    let (state, action) = state.advance(&mut query, &table, 1, Some("12"));
    assert!(matches!(action, Action::Resolved('l')));
    assert!(matches!(state, StrokeSearch::Resolved { glyph: 'l' }));
    assert_eq!(query, ":l");
}

#[test]
fn invalid_stroke_count_is_asked_again() {
    let table = by_strokes();
    let mut query = String::from(":*");
    for reply in ["", "\n", "two", "-1", "256", "1.5", "1 2", "+", "３"] {
        let (state, action) = StrokeSearch::AwaitingStrokeCount.advance(&mut query, &table, 1, Some(reply));
        assert!(matches!(action, Action::InvalidStrokeInput(ref message) if !message.is_empty()), "{reply:?}");
        assert!(matches!(state, StrokeSearch::AwaitingStrokeCount), "{reply:?}");
        assert_eq!(query, ":*");
    }
}

#[test]
fn stroke_count_may_carry_a_plus_sign_and_zeros() {
    let table = by_strokes();
    let mut query = String::from(":*");
    for reply in ["+3", "003", "\u{3000}3\t\r\n", "+003"] {
        let (_, action) = StrokeSearch::AwaitingStrokeCount.advance(&mut query, &table, 1, Some(reply));
        assert!(matches!(action, Action::Listing(ref text) if text == "1口 \n"), "{reply:?}");
    }
    let (_, action) = StrokeSearch::AwaitingStrokeCount.advance(&mut query, &table, 1, Some("255"));
    assert!(matches!(action, Action::Listing(ref text) if text.is_empty()));
}

#[test]
fn selection_out_of_range_is_rejected() {
    let table = by_strokes();
    let mut query = String::from(":*");
    for reply in ["0", "3", "4", "18446744073709551615"] {
        let state = StrokeSearch::AwaitingSelection { choices: vec!['二', '人'] };
        let (state, action) = state.advance(&mut query, &table, 1, Some(reply));
        assert!(matches!(action, Action::SelectionOutOfRange), "{reply:?}");
        assert!(matches!(state, StrokeSearch::AwaitingSelection { ref choices } if choices == &['二', '人']));
        assert_eq!(query, ":*");
    }
}

#[test]
fn invalid_selection_is_asked_again() {
    let table = by_strokes();
    let mut query = String::from(":*");
    for reply in ["", "one", "-1", "1,", "99999999999999999999999999"] {
        let state = StrokeSearch::AwaitingSelection { choices: vec!['二', '人'] };
        let (state, action) = state.advance(&mut query, &table, 1, Some(reply));
        assert!(matches!(action, Action::InvalidSelectionInput(ref message) if !message.is_empty()), "{reply:?}");
        assert!(matches!(state, StrokeSearch::AwaitingSelection { ref choices } if choices == &['二', '人']));
        assert_eq!(query, ":*");
    }
}

#[test]
fn selection_picks_the_numbered_choice() {
    let table = by_strokes();
    let mut query = String::from(":口*木");
    let state = StrokeSearch::AwaitingSelection { choices: vec!['二', '人'] };
    let (state, action) = state.advance(&mut query, &table, 2, Some("1\n"));
    assert!(matches!(action, Action::Resolved('二')));
    assert!(matches!(state, StrokeSearch::Resolved { glyph: '二' }));
    assert_eq!(query, ":口二木");
    let (state, action) = state.advance(&mut query, &table, 2, Some("2\n"));
    assert!(matches!(action, Action::Resolved('二')));
    assert!(matches!(state, StrokeSearch::Resolved { glyph: '二' }));
    assert_eq!(query, ":口二木");
}

#[test]
fn replacing_a_wildcard_keeps_its_neighbours() {
    let table = by_strokes();
    let untouched = String::from("：口＊木*");
    let mut query = untouched.clone();
    let chosen = search_by_strokes(&mut query, &table, 2, &lines(&["2\n", "2\n"]));
    assert_eq!(chosen, Some('人'));
    assert_eq!(query, "：口人木*");
    let before: Vec<char> = untouched.chars().collect();
    let after: Vec<char> = query.chars().collect();
    assert_eq!(before.len(), after.len());
    for i in 0..before.len() {
        if i != 2 {
            assert_eq!(before[i], after[i]);
            assert_eq!(before[i].to_string().as_bytes(), after[i].to_string().as_bytes());
        }
    }
    let mut narrow = String::from(":口*木");
    assert_eq!(search_by_strokes(&mut narrow, &table, 2, &lines(&["4", "1"])), Some('木'));
    assert_eq!(narrow, ":口木木");
}

#[test]
fn end_of_input_resolves_nothing() {
    let table = by_strokes();
    let mut query = String::from(":*");
    assert_eq!(search_by_strokes(&mut query, &table, 1, &Vec::new()), None);
    assert_eq!(search_by_strokes(&mut query, &table, 1, &lines(&["2", "7", "x"])), None);
    assert_eq!(query, ":*");
    let (state, action) = StrokeSearch::AwaitingSelection { choices: vec!['二'] }.advance(&mut query, &table, 1, None);
    assert!(matches!(action, Action::EndOfInput));
    assert!(matches!(state, StrokeSearch::AwaitingSelection { ref choices } if choices == &['二']));
}

#[test]
fn replies_after_the_choice_are_not_read() {
    let table = by_strokes();
    let mut query = String::from(":*");
    assert_eq!(search_by_strokes(&mut query, &table, 1, &lines(&["1", "2", "1", "1"])), Some('｜'));
    assert_eq!(query, ":｜");
}
