use optdiff::text::{
    blank, from_chars, has_prefix, has_suffix, join_strings, matches_at, search, search_char,
    search_char_from, search_from, split_lines, to_chars, trimmed, whitespace,
};

fn chars(s: &str) -> Vec<char> {
    s.chars().collect()
}

fn strings(lines: Vec<Vec<char>>) -> Vec<String> {
    lines.into_iter().map(|l| l.into_iter().collect()).collect()
}

#[test]
fn chars_and_strings_convert_both_ways() {
    assert_eq!(to_chars("a\u{e9}\u{1F600}z"), vec!['a', '\u{e9}', '\u{1F600}', 'z']);
    assert_eq!(to_chars(""), Vec::<char>::new());
    assert_eq!(from_chars(&['a', '\u{e9}', '\u{1F600}', 'z']), "a\u{e9}\u{1F600}z");
    assert_eq!(from_chars(&[]), "");
}

#[test]
fn whitespace_is_what_std_calls_whitespace() {
    for n in 0..=0x10FFFFu32 {
        if let Some(c) = char::from_u32(n) {
            assert_eq!(whitespace(c), c.is_whitespace(), "at {:x}", n);
        }
    }
}

#[test]
fn blank_lines_hold_white_space_only() {
    assert!(blank(&chars("")));
    assert!(blank(&chars(" \t\u{a0}")));
    assert!(!blank(&chars("  x ")));
}

#[test]
fn trimmed_drops_white_space_at_both_ends() {
    assert_eq!(trimmed(&chars("  } \t")), &chars("}")[..]);
    assert_eq!(trimmed(&chars("a b")), &chars("a b")[..]);
    assert_eq!(trimmed(&chars(" \u{2003} ")), &chars("")[..]);
    assert_eq!(trimmed(&chars("")), &chars("")[..]);
    for s in ["", " ", "x", " x", "x ", "\t a  b \r\n", "\u{3000}q\u{85}"] {
        assert_eq!(from_chars(trimmed(&chars(s))), s.trim());
    }
}

#[test]
fn prefix_suffix_and_occurrence() {
    let s = chars("*** IR Dump ***");
    assert!(has_prefix(&s, "*** "));
    assert!(has_prefix(&s, ""));
    assert!(!has_prefix(&s, "; *** "));
    assert!(!has_prefix(&chars("**"), "*** "));
    assert!(has_suffix(&s, " ***"));
    assert!(!has_suffix(&s, "***:"));
    assert!(!has_suffix(&chars("*"), " ***"));
    assert!(matches_at(&s, "IR", 4));
    assert!(!matches_at(&s, "IR", 5));
    assert!(!matches_at(&s, "***x", 12));
    assert!(!matches_at(&s, "a", 99));
    assert!(matches_at(&s, "", 15));
}

#[test]
fn search_finds_the_first_occurrence() {
    let s = chars("ab ***cd *** ***");
    assert_eq!(search(&s, " ***"), Some(2));
    assert_eq!(search_from(&s, " ***", 3), Some(8));
    assert_eq!(search_from(&s, " ***", 13), None);
    assert_eq!(search(&s, "xyz"), None);
    assert_eq!(search(&s, ""), Some(0));
    assert_eq!(search_from(&s, "", 16), Some(16));
    assert_eq!(search_from(&s, "", 17), None);
    assert_eq!(search_char(&s, '*'), Some(3));
    assert_eq!(search_char(&s, 'q'), None);
    assert_eq!(search_char_from(&s, 'c', 5), Some(6));
    assert_eq!(search_char_from(&s, 'c', 7), None);
    for (hay, needle) in [("hello world", "o w"), ("aaa", "aa"), ("", "a"), ("abc", "c")] {
        assert_eq!(search(&chars(hay), needle), hay.find(needle));
    }
}

#[test]
fn lines_are_split_at_line_feeds() {
    assert_eq!(strings(split_lines(&chars("a\nb\n"))), vec!["a", "b"]);
    assert_eq!(strings(split_lines(&chars("a\nb"))), vec!["a", "b"]);
    assert_eq!(strings(split_lines(&chars("a\r\nb\r"))), vec!["a", "b\r"]);
    assert_eq!(strings(split_lines(&chars("\n\nx\n\n"))), vec!["", "", "x", ""]);
    assert_eq!(strings(split_lines(&chars(""))), Vec::<String>::new());
    assert_eq!(strings(split_lines(&chars("\r\n"))), vec![""]);
    for s in ["", "\n", "a", "a\n", "a\r\n\r\nb", "x\ry\n", "\r", "l1\nl2\n\nl4"] {
        let expected: Vec<String> = s.lines().map(|l| l.to_string()).collect();
        assert_eq!(strings(split_lines(&chars(s))), expected, "for {:?}", s);
    }
}

#[test]
fn strings_are_joined_with_a_separator() {
    let parts = vec!["a".to_string(), "".to_string(), "bc".to_string()];
    assert_eq!(join_strings(&parts, "\n"), "a\n\nbc");
    assert_eq!(join_strings(&vec!["only".to_string()], ", "), "only");
    assert_eq!(join_strings(&vec![], ", "), "");
}

#[test]
fn joined_lines_split_into_the_same_lines() {
    let lists: [&[&str]; 5] = [
        &["define void @f() {", "  ret void", "}"],
        &["one"],
        &["", "", "x"],
        &["a b", "", "last\r"],
        &["\r", "x"],
    ];
    for list in lists {
        let parts: Vec<String> = list.iter().map(|l| l.to_string()).collect();
        let text = join_strings(&parts, "\n");
        let again = strings(split_lines(&chars(&text)));
        if list.len() == 2 && list[0] == "\r" {
            // A line that ends in a carriage return loses it.
            assert_eq!(again, vec!["", "x"]);
        } else {
            assert_eq!(again, parts);
        }
    }
}
