use collada::text::{chars_of, parse_unsigned, parse_unsigned_list, strip_hashes, words_of};

fn strings(list: &[&str]) -> Vec<String> {
    list.iter().map(|s| s.to_string()).collect()
}

#[test]
fn characters_come_one_by_one() {
    assert_eq!(chars_of("a\u{e9} \u{1f600}"), vec!['a', '\u{e9}', ' ', '\u{1f600}']);
    assert!(chars_of("").is_empty());
}

#[test]
fn words_are_split_at_white_space() {
    assert_eq!(words_of(" 1.5\t-2 \r\n\n 3e4 "), strings(&["1.5", "-2", "3e4"]));
    assert_eq!(words_of("one"), strings(&["one"]));
    assert_eq!(words_of(""), strings(&[]));
    assert_eq!(words_of(" \t\r\n"), strings(&[]));
}

#[test]
fn only_white_space_of_xml_splits_words() {
    assert_eq!(words_of("a\u{a0}b c\u{b}d"), strings(&["a\u{a0}b", "c\u{b}d"]));
}

#[test]
fn words_together_are_the_text_without_its_space() {
    let text = "\n Root  Upper\tArm \r\n Lower_Arm";
    let all: String = words_of(text).concat();
    assert_eq!(all, text.replace(&[' ', '\t', '\r', '\n'][..], ""));
}

#[test]
fn words_that_are_joined_by_spaces_are_read_back() {
    let list = strings(&["0", "#a", "Root", "-1.25"]);
    assert_eq!(words_of(&list.join(" ")), list);
    assert_eq!(words_of(&format!("{} ", list.join(" "))), list);
}

#[test]
fn unsigned_numbers_are_decimal() {
    assert_eq!(parse_unsigned("0"), Some(0));
    assert_eq!(parse_unsigned("1234567890"), Some(1234567890));
    assert_eq!(parse_unsigned("007"), Some(7));
    assert_eq!(parse_unsigned("+42"), Some(42));
}

#[test]
fn unsigned_numbers_read_back_what_is_written() {
    for n in [0usize, 9, 10, 99, 65536, usize::MAX - 1, usize::MAX] {
        assert_eq!(parse_unsigned(&format!("{n}")), Some(n));
        assert_eq!(parse_unsigned(&format!("+{n}")), Some(n));
    }
}

#[test]
fn other_texts_are_no_unsigned_numbers() {
    for text in ["", "+", "-1", "++1", "1.0", "12a", " 1", "1 ", "\u{0664}"] {
        assert_eq!(parse_unsigned(text), None);
        assert!(text.parse::<usize>().is_err());
    }
    let too_large = format!("{}0", usize::MAX);
    assert_eq!(parse_unsigned(&too_large), None);
    let one_too_large = format!("{}", usize::MAX as u128 + 1);
    assert_eq!(parse_unsigned(&one_too_large), None);
}

#[test]
fn lists_of_unsigned_numbers_are_read_as_a_whole() {
    assert_eq!(parse_unsigned_list(&strings(&["3", "0", "12"])), Some(vec![3, 0, 12]));
    assert_eq!(parse_unsigned_list(&strings(&[])), Some(vec![]));
    assert_eq!(parse_unsigned_list(&strings(&["3", "x", "12"])), None);
}

#[test]
fn leading_hashes_are_stripped() {
    assert_eq!(strip_hashes("#mesh"), "mesh");
    assert_eq!(strip_hashes("##a#b#"), "a#b#");
    assert_eq!(strip_hashes("mesh"), "mesh");
    assert_eq!(strip_hashes("###"), "");
    assert_eq!(strip_hashes(""), "");
}
