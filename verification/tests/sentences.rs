use radical_search::sentence_search::{check_pair, check_results, sentence_search};
use radical_search::styled::{Span, Style};
use radical_search::util::{Options, Value};

fn text(s: &str) -> Value {
    Value::String(s.to_string())
}

fn object(members: Vec<(&str, Value)>) -> Value {
    Value::Object(members.into_iter().map(|(k, v)| (k.to_string(), v)).collect())
}

fn sentence(s: &str) -> Value {
    object(vec![("text", text(s))])
}

fn render(output: &[Span]) -> String {
    output.iter().map(|span| span.text.as_str()).collect()
}

fn options(limit: usize) -> Options {
    Options { limit, query: String::new(), interactive: false }
}

fn reply() -> Value {
    object(vec![(
        "results",
        Value::Array(vec![
            object(vec![
                ("lang", text("jpn")),
                ("text", text("猫が好きです。")),
                (
                    "translations",
                    Value::Array(vec![
                        Value::Array(vec![sentence("I like cats."), sentence("I love cats.")]),
                        Value::Array(vec![sentence("not shown")]),
                    ]),
                ),
            ]),
            object(vec![
                ("lang", text("eng")),
                ("text", text("Hello.")),
                ("translations", Value::Array(vec![Value::Array(vec![sentence("こんにちは。")])])),
            ]),
        ]),
    )])
}

#[test]
fn sentences_are_numbered_with_japanese_first() {
    let mut output = Vec::new();
    assert_eq!(sentence_search(&options(0), reply(), &mut output), Some(9));
    assert_eq!(
        render(&output),
        "1. 猫が好きです。\n   I like cats.\n\n2. 猫が好きです。\n   I love cats.\n\n3. こんにちは。\n   Hello.\n\n"
    );
    assert_eq!(output.len(), 6);
    assert_eq!(output[0].style, Style::BrightBlack);
    assert_eq!(output[0].text, "1.");
    assert_eq!(output[1].style, Style::Plain);
    assert_eq!(output[4].style, Style::BrightBlack);
    assert_eq!(output[4].text, "3.");
}

#[test]
fn limit_ends_the_sentences_between_entries() {
    let mut output = Vec::new();
    assert_eq!(sentence_search(&options(2), reply(), &mut output), Some(6));
    assert_eq!(render(&output), "1. 猫が好きです。\n   I like cats.\n\n2. 猫が好きです。\n   I love cats.\n\n");
    let mut output = Vec::new();
    assert_eq!(sentence_search(&options(1), reply(), &mut output), Some(0));
    assert!(output.is_empty());
    let mut output = Vec::new();
    assert_eq!(sentence_search(&options(4), reply(), &mut output), Some(9));
    let mut output = Vec::new();
    assert_eq!(sentence_search(&options(3), reply(), &mut output), Some(6));
}

#[test]
fn language_that_is_no_string_counts_as_not_english() {
    let body = object(vec![(
        "results",
        Value::Array(vec![object(vec![
            ("lang", Value::Null),
            ("text", text("own")),
            ("translations", Value::Array(vec![Value::Array(vec![sentence("other")])])),
        ])]),
    )]);
    let mut output = Vec::new();
    assert_eq!(sentence_search(&options(0), body, &mut output), Some(3));
    assert_eq!(render(&output), "1. own\n   other\n\n");
}

#[test]
fn incomplete_sentences_end_the_search() {
    let mut output = Vec::new();
    assert_eq!(sentence_search(&options(0), object(vec![]), &mut output), None);
    assert!(output.is_empty());
    let entry = |members: Vec<(&str, Value)>| object(vec![("results", Value::Array(vec![
        object(vec![
            ("lang", text("jpn")),
            ("text", text("一")),
            ("translations", Value::Array(vec![Value::Array(vec![sentence("one")])])),
        ]),
        object(members),
    ]))]);
    let first = "1. 一\n   one\n\n";
    let cases = vec![
        entry(vec![("lang", text("jpn")), ("text", text("二"))]),
        entry(vec![("lang", text("jpn")), ("text", text("二")), ("translations", Value::Array(vec![]))]),
        entry(vec![("text", text("二")), ("translations", Value::Array(vec![Value::Array(vec![sentence("two")])]))]),
        entry(vec![("lang", text("jpn")), ("translations", Value::Array(vec![Value::Array(vec![sentence("two")])]))]),
        entry(vec![("lang", text("eng")), ("text", text("two")), ("translations", Value::Array(vec![Value::Array(vec![object(vec![])])]))]),
    ];
    for body in cases {
        let mut output = Vec::new();
        assert_eq!(sentence_search(&options(0), body, &mut output), None);
        assert_eq!(render(&output), first);
    }
    let no_translations = entry(vec![("translations", Value::Array(vec![Value::Array(vec![])]))]);
    let mut output = Vec::new();
    assert_eq!(sentence_search(&options(0), no_translations, &mut output), Some(3));
    assert_eq!(render(&output), first);
}

#[test]
fn sentence_replies_are_checked_before_they_are_read() {
    assert!(check_results(&reply(), 0));
    assert!(check_results(&object(vec![]), 0));
    assert!(check_results(&Value::Null, 0));
    assert!(!check_results(&object(vec![("results", Value::Null)]), 0));
    let entry = |members: Vec<(&str, Value)>| object(vec![("results", Value::Array(vec![object(members)]))]);
    assert!(check_results(&entry(vec![("text", Value::Null)]), 0));
    assert!(!check_results(&entry(vec![("translations", Value::Null)]), 0));
    assert!(check_results(&entry(vec![("translations", Value::Array(vec![]))]), 0));
    assert!(!check_results(&entry(vec![("translations", Value::Array(vec![Value::Null]))]), 0));
    assert!(check_results(&entry(vec![("translations", Value::Array(vec![Value::Array(vec![]), Value::Null]))]), 0));
    let pairs = |lang: &str, own: Value, other: Value| {
        entry(vec![
            ("lang", text(lang)),
            ("text", own),
            ("translations", Value::Array(vec![Value::Array(vec![object(vec![("text", other)])])])),
        ])
    };
    assert!(check_results(&pairs("jpn", text("一"), text("one")), 0));
    assert!(!check_results(&pairs("jpn", Value::Null, text("one")), 0));
    assert!(!check_results(&pairs("jpn", text("一"), Value::Null), 0));
    assert!(!check_results(&pairs("eng", text("one"), Value::Null), 0));
    assert!(!check_results(&pairs("eng", Value::Null, text("一")), 0));
}

#[test]
fn only_sentences_that_are_read_are_checked() {
    let unread = object(vec![("lang", text("jpn")), ("text", Value::Null)]);
    assert!(check_pair(&object(vec![("text", Value::Null)]), &unread));
    let japanese = object(vec![("lang", text("jpn"))]);
    assert!(check_pair(&japanese, &object(vec![("text", Value::Null)])));
    let english = object(vec![("lang", text("eng")), ("text", Value::Null)]);
    assert!(check_pair(&english, &object(vec![])));
    assert!(!check_pair(&english, &object(vec![("text", text("一"))])));
    let broken = || object(vec![("translations", Value::Null)]);
    let Value::Object(members) = reply() else { unreachable!() };
    let Some((_, Value::Array(mut entries))) = members.into_iter().next() else { unreachable!() };
    entries.push(broken());
    let body = || {
        let Value::Object(members) = reply() else { unreachable!() };
        let Some((_, Value::Array(mut entries))) = members.into_iter().next() else { unreachable!() };
        entries.push(broken());
        object(vec![("results", Value::Array(entries))])
    };
    assert_eq!(entries.len(), 3);
    assert!(!check_results(&body(), 0));
    assert!(!check_results(&body(), 5));
    assert!(check_results(&body(), 4));
    assert!(check_results(&body(), 1));
    let mut output = Vec::new();
    assert_eq!(sentence_search(&options(4), body(), &mut output), Some(9));
    let stopped = object(vec![(
        "results",
        Value::Array(vec![object(vec![("lang", text("jpn")), ("text", text("一"))]), broken()]),
    )]);
    assert!(check_results(&stopped, 0));
    let mut output = Vec::new();
    assert_eq!(sentence_search(&options(0), stopped, &mut output), None);
    assert!(output.is_empty());
}
