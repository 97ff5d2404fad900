//! Characters, texts and their order.

use local_private_notes::order::{compare, stable_order, Order};
use local_private_notes::text::{
    append_decimal, contains_chars, ends_with, from_chars, is_control_char, is_whitespace_char,
    replace_all, same_text, split_lines, split_words, starts_with, to_chars, trim_chars,
};

fn chars(s: &str) -> Vec<char> {
    s.chars().collect()
}

fn text(v: &[char]) -> String {
    v.iter().collect()
}

#[test]
fn white_space_is_what_the_standard_library_calls_white_space() {
    for n in 0u32..=0x10ffff {
        if let Some(c) = char::from_u32(n) {
            assert_eq!(is_whitespace_char(c), c.is_whitespace(), "U+{:04X}", n);
        }
    }
}

#[test]
fn control_characters_are_what_the_standard_library_calls_control() {
    for n in 0u32..=0x10ffff {
        if let Some(c) = char::from_u32(n) {
            assert_eq!(is_control_char(c), c.is_control(), "U+{:04X}", n);
        }
    }
}

#[test]
fn texts_to_characters_and_back() {
    assert_eq!(to_chars("héllo"), vec!['h', 'é', 'l', 'l', 'o']);
    assert_eq!(from_chars(&vec!['h', 'é', 'l', 'l', 'o']), "héllo");
    assert_eq!(from_chars(&to_chars("")), "");
    assert_eq!(from_chars(&Vec::new()), "");
}

#[test]
fn same_text_compares_character_by_character() {
    assert!(same_text("", ""));
    assert!(same_text("abc", "abc"));
    assert!(!same_text("abc", "abd"));
    assert!(!same_text("abc", "ab"));
    assert!(!same_text("ab", "abc"));
}

#[test]
fn trimming() {
    assert_eq!(text(&trim_chars(&chars("  a b \t\n"))), "a b");
    assert_eq!(text(&trim_chars(&chars("\u{a0}x\u{3000}"))), "x");
    assert_eq!(text(&trim_chars(&chars("   "))), "");
    assert_eq!(text(&trim_chars(&chars(""))), "");
    assert_eq!(text(&trim_chars(&chars("x"))), "x");
}

#[test]
fn words_and_lines() {
    let words: Vec<String> = split_words(&chars("  one two\t\nthree  ")).iter().map(|w| text(w)).collect();
    assert_eq!(words, vec!["one", "two", "three"]);
    assert!(split_words(&chars("   ")).is_empty());
    let lines: Vec<String> = split_lines(&chars("a\n\nb\n")).iter().map(|w| text(w)).collect();
    assert_eq!(lines, vec!["a", "", "b"]);
    let lines: Vec<String> = split_lines(&chars("a\r\nb")).iter().map(|w| text(w)).collect();
    assert_eq!(lines, vec!["a\r", "b"]);
    assert!(split_lines(&chars("")).is_empty());
    let lines: Vec<String> = split_lines(&chars("\n")).iter().map(|w| text(w)).collect();
    assert_eq!(lines, vec![""]);
}

#[test]
fn prefixes_suffixes_and_substrings() {
    assert!(starts_with(&chars("tag:x"), &chars("tag:")));
    assert!(!starts_with(&chars("ta"), &chars("tag:")));
    assert!(starts_with(&chars("x"), &chars("")));
    assert!(ends_with(&chars("a.json"), &chars(".json")));
    assert!(!ends_with(&chars("a.json.tmp"), &chars(".json")));
    assert!(!ends_with(&chars("on"), &chars(".json")));
    assert!(contains_chars(&chars("hello world"), &chars("o w")));
    assert!(contains_chars(&chars("hello"), &chars("")));
    assert!(contains_chars(&chars(""), &chars("")));
    assert!(contains_chars(&chars("abc"), &chars("abc")));
    assert!(contains_chars(&chars("aab"), &chars("ab")));
    assert!(!contains_chars(&chars("abc"), &chars("abcd")));
    assert!(!contains_chars(&chars("abc"), &chars("ac")));
}

#[test]
fn replacing() {
    let r = replace_all(&chars("a {{date}} b {{date}}"), &chars("{{date}}"), &chars("2024-01-02"));
    assert_eq!(text(&r), "a 2024-01-02 b 2024-01-02");
    assert_eq!(text(&replace_all(&chars("aaa"), &chars("aa"), &chars("b"))), "ba");
    assert_eq!(text(&replace_all(&chars("abc"), &chars(""), &chars("x"))), "abc");
    assert_eq!(text(&replace_all(&chars("ab"), &chars("abc"), &chars("x"))), "ab");
    assert_eq!(text(&replace_all(&chars("xabc"), &chars("abc"), &chars(""))), "x");
    for (s, p, w) in [("{{title}} and {{title}}", "{{title}}", "T"), ("abcabc", "bc", "--"), ("", "a", "b")] {
        assert_eq!(text(&replace_all(&chars(s), &chars(p), &chars(w))), s.replace(p, w));
    }
}

#[test]
fn numbers_in_decimal() {
    for n in [0i64, 7, 10, 42, -1, -10, 1234567890123, i64::MAX, i64::MIN] {
        let mut v = chars("n=");
        append_decimal(&mut v, n);
        assert_eq!(text(&v), format!("n={}", n));
    }
}

#[test]
fn the_order_of_texts_is_that_of_strings() {
    let samples = ["", "a", "A", "ab", "b", "é", "z", "2024-01-02", "2024-01-10", "日本", "a\u{10000}", "a\u{ffff}"];
    for a in samples {
        for b in samples {
            let expected = match a.cmp(b) {
                std::cmp::Ordering::Less => Order::Less,
                std::cmp::Ordering::Equal => Order::Equal,
                std::cmp::Ordering::Greater => Order::Greater,
            };
            assert_eq!(compare(a, b), expected, "{:?} {:?}", a, b);
        }
    }
}

#[test]
fn stable_orderings() {
    let keys: Vec<String> = ["b", "a", "b", "a", "c"].iter().map(|s| s.to_string()).collect();
    assert_eq!(stable_order(&keys, false), vec![1, 3, 0, 2, 4]);
    assert_eq!(stable_order(&keys, true), vec![4, 0, 2, 1, 3]);
    assert_eq!(stable_order(&Vec::new(), true), Vec::<usize>::new());
}
