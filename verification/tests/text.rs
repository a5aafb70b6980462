use robots_client::robots::lines::split_lines;
use robots_client::robots::text::{
    blank, chars_of, find_at, slice_of, string_of, to_lower, whitespace,
};

fn chars(s: &str) -> Vec<char> {
    s.chars().collect()
}

fn lines(s: &str) -> Vec<String> {
    split_lines(&chars(s))
        .iter()
        .map(|l| l.iter().collect())
        .collect()
}

#[test]
fn to_lower_folds_ascii_capitals_only() {
    let mut n: u32 = 0;
    while n <= 0x10FFFF {
        if let Some(c) = char::from_u32(n) {
            assert_eq!(to_lower(c), c.to_ascii_lowercase());
        }
        n += 1;
    }
    assert_eq!(to_lower('A'), 'a');
    assert_eq!(to_lower('Z'), 'z');
    assert_eq!(to_lower('@'), '@');
    assert_eq!(to_lower('['), '[');
    assert_eq!(to_lower('\u{212a}'), '\u{212a}');
}

#[test]
fn whitespace_is_the_unicode_property() {
    let mut n: u32 = 0;
    while n <= 0x10FFFF {
        if let Some(c) = char::from_u32(n) {
            assert_eq!(whitespace(c), c.is_whitespace(), "{:x}", n);
        }
        n += 1;
    }
}

#[test]
fn blank_lines() {
    assert!(blank(&chars("")));
    assert!(blank(&chars("   ")));
    assert!(blank(&chars(" \t\r")));
    assert!(blank(&chars("\u{a0}\u{3000}")));
    assert!(!blank(&chars("  x ")));
    assert!(!blank(&chars("#")));
    for s in ["", " ", "\t \u{2003}", " a", "\u{feff}", "a", " \u{200b}"] {
        assert_eq!(blank(&chars(s)), s.trim() == "", "{:?}", s);
    }
}

#[test]
fn chars_and_strings() {
    assert_eq!(chars_of(""), Vec::<char>::new());
    assert_eq!(chars_of("a\u{e9}\u{1f600}b"), vec!['a', '\u{e9}', '\u{1f600}', 'b']);
    let v = chars("hello world");
    assert_eq!(string_of(&v, 0, 5), "hello");
    assert_eq!(string_of(&v, 6, 11), "world");
    assert_eq!(string_of(&v, 3, 3), "");
    assert_eq!(slice_of(&v, 4, 7), vec!['o', ' ', 'w']);
    assert_eq!(slice_of(&v, 11, 11), Vec::<char>::new());
}

#[test]
fn find_at_with_and_without_folding() {
    let v = chars("xxAllow: /");
    assert_eq!(find_at("allow", &v, 2, true), Some(5));
    assert_eq!(find_at("allow", &v, 2, false), None);
    assert_eq!(find_at("Allow", &v, 2, false), Some(5));
    assert_eq!(find_at("allow", &v, 0, true), None);
    assert_eq!(find_at("allow", &v, 6, true), None);
    assert_eq!(find_at("", &v, 10, true), Some(0));
    assert_eq!(find_at(": /", &v, 7, false), Some(3));
    assert_eq!(find_at(": /x", &v, 7, false), None);
    let v = chars("\u{e9}t\u{e9}");
    assert_eq!(find_at("\u{e9}T", &v, 0, true), Some(2));
    assert_eq!(find_at("\u{c9}t", &v, 0, true), None);
}

#[test]
fn lines_end_at_line_feeds() {
    assert_eq!(lines(""), Vec::<String>::new());
    assert_eq!(lines("a"), vec!["a"]);
    assert_eq!(lines("a\n"), vec!["a"]);
    assert_eq!(lines("a\nb"), vec!["a", "b"]);
    assert_eq!(lines("a\n\nb\n"), vec!["a", "", "b"]);
    assert_eq!(lines("\n"), vec![""]);
    assert_eq!(lines("\n\n"), vec!["", ""]);
}

#[test]
fn lines_drop_the_carriage_return_before_a_line_feed() {
    assert_eq!(lines("a\r\nb\r\n"), vec!["a", "b"]);
    assert_eq!(lines("a\r\r\nb"), vec!["a\r", "b"]);
    assert_eq!(lines("a\rb\n"), vec!["a\rb"]);
    assert_eq!(lines("a\r"), vec!["a\r"]);
    assert_eq!(lines("\r\n"), vec![""]);
    assert_eq!(lines("\r"), vec!["\r"]);
}

#[test]
fn lines_are_those_of_std() {
    let alphabet = ['a', 'b', ' ', '\n', '\n', '\r', '\r', ':', '\u{e9}'];
    let mut seed: u64 = 0x2545F4914F6CDD1D;
    for _ in 0..20000 {
        let mut text = String::new();
        seed = seed.wrapping_mul(6364136223846793005).wrapping_add(1442695040888963407);
        let len = (seed >> 33) % 12;
        for _ in 0..len {
            seed = seed.wrapping_mul(6364136223846793005).wrapping_add(1442695040888963407);
            text.push(alphabet[((seed >> 33) % alphabet.len() as u64) as usize]);
        }
        let expected: Vec<String> = text.lines().map(|l| l.to_string()).collect();
        assert_eq!(lines(&text), expected, "{:?}", text);
    }
}
