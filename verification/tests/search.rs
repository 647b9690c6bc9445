use radical_search::kanji_search::{
    absorb, contains_text, distinct, is_wildcard, keep_common, search_by_radical, RadicalSearch,
};
use radical_search::strokes::{Action, StrokeSearch};
use radical_search::table::RadicalMembership;

fn entry(glyph: &str, strokes: u8, kanji: &[&str]) -> RadicalMembership {
    RadicalMembership {
        glyph: glyph.to_string(),
        strokes,
        kanji: kanji.iter().map(|k| k.to_string()).collect(),
    }
}

fn strings(items: &[&str]) -> Vec<String> {
    items.iter().map(|k| k.to_string()).collect()
}

fn sample() -> Vec<RadicalMembership> {
    vec![
        entry("一", 1, &["二", "三", "天"]),
        entry("口", 3, &["右", "名", "古"]),
        entry("夕", 3, &["名", "多", "外"]),
        entry("木", 4, &["林", "森", "本"]),
    ]
}

fn letters() -> Vec<RadicalMembership> {
    vec![
        entry("A", 1, &["k1", "k2", "k3"]),
        entry("B", 2, &["k2", "k3", "k4"]),
        entry("C", 2, &["k5"]),
    ]
}

fn sorted(mut found: Vec<String>) -> Vec<String> {
    found.sort();
    found
}

fn search(query: &str, table: &[RadicalMembership]) -> Vec<String> {
    let mut query = query.to_string();
    sorted(search_by_radical(&mut query, table, &Vec::new()).expect("no wildcard in the query"))
}

#[test]
fn intersection_of_two_radicals() {
    let table = letters();
    let search = RadicalSearch::start(":AB", &table);
    assert_eq!(search.cursor, 3);
    assert!(matches!(search.dialogue, StrokeSearch::AwaitingStrokeCount));
    assert_eq!(sorted(search.found), strings(&["k2", "k3"]));
}

#[test]
fn single_radical_gives_all_its_kanji() {
    assert_eq!(search(":A", &letters()), strings(&["k1", "k2", "k3"]));
    assert_eq!(search(":木", &sample()), sorted(strings(&["林", "森", "本"])));
}

#[test]
fn order_of_radicals_makes_no_difference() {
    assert_eq!(search(":AB", &letters()), search(":BA", &letters()));
    assert_eq!(search(":口夕", &sample()), strings(&["名"]));
    assert_eq!(search(":夕口", &sample()), strings(&["名"]));
}

#[test]
fn disjoint_radicals_find_nothing() {
    assert_eq!(search(":AC", &letters()), Vec::<String>::new());
    assert_eq!(search(":一木", &sample()), Vec::<String>::new());
}

#[test]
fn three_radicals_are_intersected() {
    let table = vec![
        entry("A", 1, &["k1", "k2", "k3"]),
        entry("B", 2, &["k2", "k3", "k4"]),
        entry("C", 2, &["k3", "k4", "k1"]),
    ];
    assert_eq!(search(":ABC", &table), strings(&["k3"]));
}

#[test]
fn unlisted_radical_behind_a_listed_one_is_passed_over() {
    assert_eq!(search(":AZ", &letters()), strings(&["k1", "k2", "k3"]));
    assert_eq!(search(":AZB", &letters()), strings(&["k2", "k3"]));
}

#[test]
fn unlisted_first_radical_finds_nothing() {
    assert_eq!(search(":Z", &letters()), Vec::<String>::new());
    assert_eq!(search(":ZA", &letters()), Vec::<String>::new());
}

#[test]
fn only_the_first_entry_of_a_radical_counts() {
    let table = vec![entry("A", 1, &["k1"]), entry("A", 1, &["k2"])];
    assert_eq!(search(":A", &table), strings(&["k1"]));
}

#[test]
fn any_form_of_a_glyph_matches() {
    let table = vec![entry("人亻", 2, &["休", "体"]), entry("木", 4, &["休", "林"])];
    assert_eq!(search(":亻木", &table), strings(&["休"]));
    assert_eq!(search(":人木", &table), strings(&["休"]));
}

#[test]
fn repeated_kanji_are_found_once() {
    let table = vec![entry("A", 1, &["k1", "k2", "k1"])];
    assert_eq!(search(":A", &table), strings(&["k1", "k2"]));
}

#[test]
fn mode_marker_is_not_a_radical() {
    let table = vec![entry(":", 1, &["k9"]), entry("A", 1, &["k1"])];
    assert_eq!(search(":A", &table), strings(&["k1"]));
    assert_eq!(search("：A", &table), strings(&["k1"]));
}

#[test]
fn wildcard_is_recognised_in_both_widths() {
    assert!(is_wildcard('*'));
    assert!(is_wildcard('＊'));
    assert!(!is_wildcard('口'));
    assert!(!is_wildcard(':'));
}

#[test]
fn wildcard_is_resolved_by_strokes() {
    let table = sample();
    let mut query = String::from(":口*");
    let search = RadicalSearch::start(&query, &table);
    assert_eq!(search.cursor, 2);
    assert!(!search.is_finished(&query));
    let (search, action) = search.step(&mut query, &table, Some("3\n"));
    assert!(matches!(action, Action::Listing(ref text) if text == "1口 2夕 \n"));
    assert!(matches!(search.dialogue, StrokeSearch::AwaitingSelection { ref choices } if choices == &['口', '夕']));
    let (search, action) = search.step(&mut query, &table, Some("2\n"));
    assert!(matches!(action, Action::Resolved('夕')));
    assert_eq!(query, ":口夕");
    assert_eq!(search.cursor, 3);
    assert!(search.is_finished(&query));
    assert_eq!(search.found, strings(&["名"]));
}

#[test]
fn search_waits_at_each_wildcard_in_turn() {
    let table = sample();
    let mut query = String::from(":＊口*木");
    let search = RadicalSearch::start(&query, &table);
    assert_eq!(search.cursor, 1);
    let (search, _) = search.step(&mut query, &table, Some("3"));
    let (search, _) = search.step(&mut query, &table, Some("2"));
    assert_eq!(query, ":夕口*木");
    assert_eq!(search.cursor, 3);
    assert_eq!(search.found, strings(&["名"]));
    let (search, _) = search.step(&mut query, &table, Some("1"));
    let (search, action) = search.step(&mut query, &table, Some("1"));
    assert!(matches!(action, Action::Resolved('一')));
    assert_eq!(query, ":夕口一木");
    assert!(search.is_finished(&query));
    assert_eq!(search.found, Vec::<String>::new());
}

#[test]
fn end_of_input_leaves_the_search_where_it_is() {
    let table = sample();
    let mut query = String::from(":*");
    let search = RadicalSearch::start(&query, &table);
    let (search, action) = search.step(&mut query, &table, None);
    assert!(matches!(action, Action::EndOfInput));
    assert_eq!(search.cursor, 1);
    assert_eq!(query, ":*");
    assert!(matches!(search.dialogue, StrokeSearch::AwaitingStrokeCount));
}

#[test]
fn canned_replies_resolve_wildcards() {
    let table = sample();
    let mut query = String::from(":口*");
    let replies = strings(&["three\n", "3\n", "0\n", "2\n"]);
    let found = search_by_radical(&mut query, &table, &replies);
    assert_eq!(found, Some(strings(&["名"])));
    assert_eq!(query, ":口夕");
}

#[test]
fn replies_that_run_out_end_the_search() {
    let table = sample();
    let mut query = String::from(":口*");
    let found = search_by_radical(&mut query, &table, &strings(&["3\n"]));
    assert_eq!(found, None);
    assert_eq!(query, ":口*");
}

#[test]
fn absorb_seeds_then_refines() {
    let table = letters();
    let found = absorb(Vec::new(), &table, true, 'A');
    assert_eq!(found, strings(&["k1", "k2", "k3"]));
    let found = absorb(found, &table, false, 'B');
    assert_eq!(found, strings(&["k2", "k3"]));
    let found = absorb(found, &table, false, 'Z');
    assert_eq!(found, strings(&["k2", "k3"]));
}

#[test]
fn list_helpers() {
    let list = strings(&["右", "名", "右"]);
    assert!(contains_text(&list, &"名".to_string()));
    assert!(!contains_text(&list, &"古".to_string()));
    assert_eq!(distinct(&list), strings(&["右", "名"]));
    assert_eq!(keep_common(&strings(&["右", "名", "古"]), &strings(&["古", "右"])), strings(&["右", "古"]));
}
