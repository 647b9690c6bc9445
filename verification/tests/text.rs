use radical_search::text::{contains_char, decimal, replace_char, same_text, trim};

#[test]
fn contains_char_looks_at_every_character() {
    assert!(contains_char("人亻", '人'));
    assert!(contains_char("人亻", '亻'));
    assert!(!contains_char("人亻", '口'));
    assert!(!contains_char("", '口'));
}

#[test]
fn replace_char_counts_characters_not_bytes() {
    let mut text = String::from("a口*木b");
    replace_char(&mut text, 2, '夕');
    assert_eq!(text, "a口夕木b");
    replace_char(&mut text, 0, '木');
    assert_eq!(text, "木口夕木b");
    replace_char(&mut text, 4, '*');
    assert_eq!(text, "木口夕木*");
    let mut single = String::from("＊");
    replace_char(&mut single, 0, 'x');
    assert_eq!(single, "x");
}

#[test]
fn trim_takes_white_space_from_both_ends() {
    assert_eq!(trim("  12 \n"), "12");
    assert_eq!(trim("\u{3000}1 2\t\r\n"), "1 2");
    assert_eq!(trim("12"), "12");
    assert_eq!(trim(" \n\t"), "");
    assert_eq!(trim(""), "");
    assert_eq!(trim(" 口 "), "口");
}

#[test]
fn decimal_writes_base_ten() {
    assert_eq!(decimal(0), "0");
    assert_eq!(decimal(7), "7");
    assert_eq!(decimal(10), "10");
    assert_eq!(decimal(255), "255");
    assert_eq!(decimal(1234567890), "1234567890");
    assert_eq!(decimal(usize::MAX), usize::MAX.to_string());
}

#[test]
fn same_text_compares_characters() {
    assert!(same_text("", ""));
    assert!(same_text("猫ab", "猫ab"));
    assert!(!same_text("猫ab", "猫ac"));
    assert!(!same_text("猫ab", "猫a"));
    assert!(!same_text("", "a"));
}
