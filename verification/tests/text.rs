use registry_util::admin::verification_report;
use registry_util::comma_sep::{separator_before, CommaSep, Render};
use registry_util::text::{chars_of, contains_text, decimal_text, parse_number, same_text};
use registry_util::text_map::TextMap;

#[test]
fn comma_sep_joins_with_comma_and_space() {
    let items = vec!["a".to_string(), "b".to_string(), "c".to_string()];
    assert_eq!(CommaSep(&items).to_text(), "a, b, c");
}

#[test]
fn comma_sep_of_one_and_of_none() {
    let one = vec!["only".to_string()];
    assert_eq!(CommaSep(&one).to_text(), "only");
    let none: Vec<String> = Vec::new();
    assert_eq!(CommaSep(&none).to_text(), "");
    let blanks = vec!["", ""];
    assert_eq!(CommaSep(&blanks).to_text(), ", ");
}

#[test]
fn comma_sep_writes_numbers_and_appends() {
    let numbers: Vec<usize> = vec![1, 20, 0, 300];
    let mut out = "ids: ".to_string();
    CommaSep(&numbers).render(&mut out);
    assert_eq!(out, "ids: 1, 20, 0, 300");
}

#[test]
fn comma_sep_nests() {
    let a: Vec<usize> = vec![1, 2];
    let b: Vec<usize> = vec![3];
    let both = vec![CommaSep(&a), CommaSep(&b)];
    assert_eq!(CommaSep(&both).to_text(), "1, 2, 3");
}

#[test]
fn decimal_text_writes_as_std_does() {
    for n in [0usize, 1, 9, 10, 11, 50, 99, 100, 101, 12345, usize::MAX / 10, usize::MAX] {
        assert_eq!(decimal_text(n), n.to_string());
    }
    assert_eq!(decimal_text(50), "50");
}

#[test]
fn parse_number_reads_as_std_does() {
    let max = usize::MAX.to_string();
    let over = format!("{}0", usize::MAX);
    let just_over = "18446744073709551616";
    for text in [
        "", "+", "-", "0", "7", "+7", "-7", "007", "12a", "a12", " 12", "12 ", "1_000", "++1", "+-1",
        "1.5", "0x10", "\u{663}", "9223372036854775807", max.as_str(), over.as_str(), just_over,
    ] {
        assert_eq!(parse_number(text), text.parse::<usize>().ok(), "on {:?}", text);
    }
    assert_eq!(parse_number("20"), Some(20));
    assert_eq!(parse_number("+3"), Some(3));
    assert_eq!(parse_number("three"), None);
}

#[test]
fn contains_text_finds_what_std_finds() {
    let cases = [
        ("application/json", "json"),
        ("text/html", "json"),
        ("json", "json"),
        ("jso", "json"),
        ("", "json"),
        ("", ""),
        ("abc", ""),
        ("jsjsonon", "json"),
        ("jjson", "json"),
        ("application/JSON", "json"),
        ("caf\u{e9} json", "json"),
        ("na\u{ef}ve", "\u{ef}v"),
    ];
    for (whole, part) in cases {
        assert_eq!(contains_text(whole, part), whole.contains(part), "{:?} in {:?}", part, whole);
    }
}

#[test]
fn same_text_and_chars_of() {
    assert!(same_text("krate", "krate"));
    assert!(!same_text("krate", "crate"));
    assert!(!same_text("krate", "krat"));
    assert!(same_text("", ""));
    assert_eq!(chars_of("a\u{e9}\u{1f980}"), vec!['a', '\u{e9}', '\u{1f980}']);
}

#[test]
fn text_map_replaces_and_keeps() {
    let mut map: TextMap<String> = TextMap::new();
    assert!(!map.contains_key("a"));
    assert_eq!(map.get("a"), None);
    map.insert("a".to_string(), "1".to_string());
    map.insert("b".to_string(), "2".to_string());
    map.insert("a".to_string(), "3".to_string());
    assert!(map.contains_key("a"));
    assert_eq!(map.get("a"), Some(&"3".to_string()));
    assert_eq!(map.get("b"), Some(&"2".to_string()));
    assert_eq!(map.get("A"), None);
    let entries = map.entries();
    assert_eq!(entries.len(), 2);
    assert_eq!(entries[0], ("a".to_string(), "3".to_string()));
    assert_eq!(entries[1], ("b".to_string(), "2".to_string()));
}

#[test]
fn verification_report_says_what_happened() {
    assert_eq!(verification_report("a@b.c", 1), "Email a@b.c is now verified");
    assert_eq!(verification_report("a@b.c", 3), "Email a@b.c is now verified");
    assert_eq!(verification_report("a@b.c", 0), "Email a@b.c was not found");
}

#[test]
fn the_separator_stands_before_all_but_the_first() {
    assert_eq!(separator_before(0), "");
    assert_eq!(separator_before(1), ", ");
    assert_eq!(separator_before(usize::MAX), ", ");
}
