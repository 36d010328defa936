use std::sync::Arc;

use talkback::table::Table;
use talkback::text::{
    find, from_chars, join, matches_at, push_all, replace, same_text, split, to_chars,
    trim_matches,
};

fn chars(text: &str) -> Vec<char> {
    text.chars().collect()
}

fn strings(parts: Vec<&[char]>) -> Vec<String> {
    parts.iter().map(|part| part.iter().collect()).collect()
}

#[test]
fn characters_of_a_string_and_back() {
    assert_eq!(to_chars("a\u{e9}\u{4e16}\u{1f600}"), vec!['a', '\u{e9}', '\u{4e16}', '\u{1f600}']);
    assert_eq!(to_chars(""), Vec::<char>::new());
    assert_eq!(from_chars(&['a', '\u{e9}', '\u{4e16}', '\u{1f600}']), "a\u{e9}\u{4e16}\u{1f600}");
    assert_eq!(from_chars(&[]), "");
}

#[test]
fn same_text_compares_characters() {
    assert!(same_text("", ""));
    assert!(same_text("caf\u{e9}", "caf\u{e9}"));
    assert!(!same_text("cafe", "caf\u{e9}"));
    assert!(!same_text("a", "ab"));
    assert!(!same_text("ab", "a"));
    assert!(!same_text("abc", "abd"));
}

#[test]
fn finds_the_leftmost_occurrence() {
    let text = chars("abcabc");
    assert_eq!(find(&text, &chars("bc")), Some(1));
    assert_eq!(find(&text, &chars("c")), Some(2));
    assert_eq!(find(&text, &chars("abcabc")), Some(0));
    assert_eq!(find(&text, &chars("abcabcd")), None);
    assert_eq!(find(&text, &chars("cb")), None);
    assert_eq!(find(&text, &chars("")), Some(0));
    assert_eq!(find(&chars(""), &chars("a")), None);
    assert_eq!(find(&chars(""), &chars("")), Some(0));
    assert_eq!(find(&chars("aab"), &chars("ab")), Some(1));

    assert!(matches_at(&text, &chars("cab"), 2));
    assert!(!matches_at(&text, &chars("cab"), 3));
    assert!(matches_at(&text, &chars(""), 6));
}

#[test]
fn splits_at_every_occurrence() {
    assert_eq!(strings(split(&chars("a,b,c"), &[','])), vec!["a", "b", "c"]);
    assert_eq!(strings(split(&chars(""), &[','])), vec![""]);
    assert_eq!(strings(split(&chars(","), &[','])), vec!["", ""]);
    assert_eq!(strings(split(&chars(",a,,b,"), &[','])), vec!["", "a", "", "b", ""]);
    assert_eq!(strings(split(&chars("abc"), &[','])), vec!["abc"]);
    assert_eq!(strings(split(&chars("a\n\n\nb"), &['\n', '\n'])), vec!["a", "\nb"]);
    assert_eq!(strings(split(&chars("aaaa"), &['a', 'a'])), vec!["", "", ""]);
}

#[test]
fn replaces_every_occurrence() {
    assert_eq!(replace(&chars("a\r\nb\r\n"), &['\r', '\n'], &['\n']), chars("a\nb\n"));
    assert_eq!(replace(&chars("\r\r\n\n"), &['\r', '\n'], &['\n']), chars("\r\n\n"));
    assert_eq!(replace(&chars("abc"), &['x'], &['y']), chars("abc"));
    assert_eq!(replace(&chars("aaa"), &['a', 'a'], &['b']), chars("ba"));
    assert_eq!(replace(&chars("aXbX"), &['X'], &[]), chars("ab"));
    assert_eq!(replace(&chars(""), &['X'], &['Y']), chars(""));
    assert_eq!(replace(&chars("ab"), &['a'], &['a', 'a']), chars("aab"));
}

#[test]
fn trims_a_character_at_both_ends() {
    assert_eq!(trim_matches(&chars("\0\0a\0b\0"), '\0'), chars("a\0b"));
    assert_eq!(trim_matches(&chars("\0\0\0"), '\0'), chars(""));
    assert_eq!(trim_matches(&chars(""), '\0'), chars(""));
    assert_eq!(trim_matches(&chars("ab"), '\0'), chars("ab"));
    assert_eq!(trim_matches(&chars("xxaxx"), 'x'), chars("a"));
    assert_eq!(trim_matches(&chars("x"), 'x'), chars(""));
}

#[test]
fn joins_lines_with_a_separator() {
    let lines = vec![String::from("a"), String::from(""), String::from("c")];
    assert_eq!(join(&lines, ", "), "a, , c");
    assert_eq!(join(&vec![String::from("only")], ", "), "only");
    assert_eq!(join(&Vec::new(), ", "), "");
    assert_eq!(join(&vec![String::new(), String::new()], "-"), "-");

    let mut out = chars("ab");
    push_all(&mut out, &chars("cd"));
    push_all(&mut out, &[]);
    assert_eq!(out, chars("abcd"));
}

#[test]
fn table_keeps_one_value_for_each_name() {
    let mut table: Table<u32> = Table::new();
    assert_eq!(table.len(), 0);
    assert_eq!(table.get("a"), None);

    table.insert(String::from("a"), 1);
    table.insert(String::from("b"), 2);
    table.insert(String::from("a"), 3);

    assert_eq!(table.len(), 2);
    assert_eq!(table.get("a"), Some(&3));
    assert_eq!(table.get("b"), Some(&2));
    assert_eq!(table.get("c"), None);
    assert_eq!(table.get(""), None);
    assert_eq!(table.position("a"), Some(0));
    assert_eq!(table.position("b"), Some(1));
    assert_eq!(table.position("c"), None);
    assert_eq!(table.name_at(0), "a");
    assert_eq!(table.name_at(1), "b");
    assert_eq!(*table.value_at(0), 3);
    assert_eq!(*table.value_at(1), 2);
}

#[test]
fn duplicate_table_shares_values() {
    let mut table: Table<Arc<String>> = Table::new();
    table.insert(String::from("a"), Arc::new(String::from("one")));
    table.insert(String::from("b"), Arc::new(String::from("two")));

    let mut copy = table.duplicate();
    assert_eq!(copy.len(), 2);
    assert_eq!(copy.name_at(0), "a");
    assert_eq!(copy.name_at(1), "b");
    assert!(Arc::ptr_eq(copy.get("a").unwrap(), table.get("a").unwrap()));
    assert!(Arc::ptr_eq(copy.get("b").unwrap(), table.get("b").unwrap()));

    copy.insert(String::from("c"), Arc::new(String::from("three")));
    assert_eq!(copy.len(), 3);
    assert_eq!(table.len(), 2);
    assert!(table.get("c").is_none());
}
