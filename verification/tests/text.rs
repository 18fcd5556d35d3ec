use repoutil::text::{
    chars_of, decimal_string, decode, find_char, find_text, is_whitespace, join, lines, pad,
    replace, same_text, skip_whitespace, slice_of, sort_texts, starts_with_at, string_of,
    text_before, trim_bounds,
};

fn text(cs: &Vec<char>) -> String {
    cs.iter().collect()
}

fn line_texts(s: &str) -> Vec<String> {
    lines(&chars_of(s)).iter().map(text).collect()
}

fn std_lines(s: &str) -> Vec<String> {
    s.lines().map(String::from).collect()
}

#[test]
fn chars_of_keeps_every_character() {
    assert_eq!(chars_of("a·b"), vec!['a', '·', 'b']);
    assert_eq!(chars_of(""), Vec::<char>::new());
}

#[test]
fn string_of_and_slice_of_cut_by_index() {
    let cs = chars_of("↑2, ↓1");
    assert_eq!(string_of(&cs, 0, 2), "↑2");
    assert_eq!(string_of(&cs, 4, 6), "↓1");
    assert_eq!(string_of(&cs, 3, 3), "");
    assert_eq!(slice_of(&cs, 2, 4), vec![',', ' ']);
}

#[test]
fn is_whitespace_agrees_with_the_standard_library_on_every_character() {
    let mut code: u32 = 0;
    while code <= 0x10FFFF {
        if let Some(c) = char::from_u32(code) {
            assert_eq!(is_whitespace(c), c.is_whitespace(), "U+{:04X}", code);
        }
        code += 1;
    }
}

#[test]
fn trim_bounds_match_trim() {
    for s in ["", "   ", "abc", "  abc", "abc \t", " \u{a0}a b\u{3000}\n", "\n\n", " M foo.txt "] {
        let cs = chars_of(s);
        let (from, to) = trim_bounds(&cs);
        assert_eq!(string_of(&cs, from, to), s.trim());
        let at = skip_whitespace(&cs, 0);
        assert_eq!(string_of(&cs, at, cs.len()), s.trim_start());
    }
}

#[test]
fn skip_whitespace_starts_where_it_is_told() {
    let cs = chars_of("a   b");
    assert_eq!(skip_whitespace(&cs, 1), 4);
    assert_eq!(skip_whitespace(&cs, 4), 4);
    assert_eq!(skip_whitespace(&cs, 5), 5);
}

#[test]
fn find_char_gives_the_first_index_or_the_length() {
    let cs = chars_of("## main [ahead 1] [x]");
    assert_eq!(find_char(&cs, '[', 0), 8);
    assert_eq!(find_char(&cs, '[', 9), 18);
    assert_eq!(find_char(&cs, ']', 9), 16);
    assert_eq!(find_char(&cs, '!', 0), cs.len());
    assert_eq!(find_char(&cs, '#', cs.len()), cs.len());
}

#[test]
fn starts_with_at_compares_in_place() {
    let cs = chars_of("## main...origin/main");
    assert!(starts_with_at(&cs, 0, &chars_of("## ")));
    assert!(starts_with_at(&cs, 7, &chars_of("...")));
    assert!(!starts_with_at(&cs, 8, &chars_of("...")));
    assert!(starts_with_at(&cs, cs.len(), &chars_of("")));
    assert!(!starts_with_at(&cs, cs.len() - 1, &chars_of("nn")));
}

#[test]
fn find_text_gives_the_first_match_or_the_length() {
    let cs = chars_of("main...origin/main");
    assert_eq!(find_text(&cs, &chars_of("..."), 0), 4);
    assert_eq!(find_text(&cs, &chars_of("main"), 1), 14);
    assert_eq!(find_text(&cs, &chars_of("...."), 0), cs.len());
    let dots = chars_of("a..b...");
    assert_eq!(find_text(&dots, &chars_of("..."), 0), 4);
}

#[test]
fn replace_matches_str_replace() {
    let cases = [
        ("ahead 2, behind 1", "ahead ", "↑"),
        ("ahead 2, behind 1", "behind ", "↓"),
        ("aaaa", "aa", "b"),
        ("aaa", "aa", "b"),
        ("abcabc", "bc", ""),
        ("", "x", "y"),
        ("nothing here", "xyz", "!"),
        ("ahead ahead ", "ahead ", "ahead ahead "),
    ];
    for (s, from, to) in cases {
        let out = replace(&chars_of(s), &chars_of(from), &chars_of(to));
        assert_eq!(text(&out), s.replace(from, to));
    }
}

#[test]
fn replace_of_nothing_changes_nothing() {
    let out = replace(&chars_of("abc"), &chars_of(""), &chars_of("x"));
    assert_eq!(text(&out), "abc");
}

#[test]
fn lines_match_str_lines() {
    let cases = [
        "",
        "\n",
        "a",
        "a\n",
        "a\nb",
        "a\r\nb\r\n",
        "a\r",
        "a\rb\n",
        "\n\n",
        "a\n\nb\n",
        "\r\n",
        "## main\nM  foo.txt\n?? bar.txt\n",
        "x\r\r\ny",
    ];
    for s in cases {
        assert_eq!(line_texts(s), std_lines(s), "{:?}", s);
    }
}

#[test]
fn join_puts_the_separator_between_neighbours() {
    let parts = vec![String::from("↑2, ↓1"), String::from("1±"), String::from("1?")];
    assert_eq!(join(&parts, ", "), "↑2, ↓1, 1±, 1?");
    assert_eq!(join(&vec![String::from("x")], ", "), "x");
    assert_eq!(join(&Vec::new(), ", "), "");
    assert_eq!(join(&vec![String::new(), String::from("a")], "\n"), "\na");
}

#[test]
fn decimal_string_matches_to_string() {
    for n in [0usize, 1, 9, 10, 11, 99, 100, 101, 12345, 1000000, usize::MAX] {
        assert_eq!(decimal_string(n), n.to_string());
    }
}

#[test]
fn pad_matches_the_width_of_format() {
    for s in ["", "code", "a·b", "exactly-forty-characters-long-name-here!", "x".repeat(50).as_str()] {
        assert_eq!(pad(s, 40), format!("{:40}", s));
        assert_eq!(pad(s, 30), format!("{:30}", s));
        assert_eq!(pad(s, 0), s);
    }
}

#[test]
fn decode_accepts_utf8_only() {
    assert_eq!(decode("a·░↑".as_bytes()), Some(vec!['a', '·', '░', '↑']));
    assert_eq!(decode(b""), Some(Vec::new()));
    assert_eq!(decode(&[0x61, 0xff, 0x62]), None);
    assert_eq!(decode(&[0xe2, 0x86]), None);
}

#[test]
fn same_text_compares_characters() {
    assert!(same_text(&chars_of("abc"), &chars_of("abc")));
    assert!(!same_text(&chars_of("abc"), &chars_of("abd")));
    assert!(!same_text(&chars_of("abc"), &chars_of("ab")));
    assert!(same_text(&chars_of(""), &chars_of("")));
}

#[test]
fn text_before_is_the_order_of_str() {
    let words = ["", "a", "ab", "abc", "b", "B", "* main", "  dev", "é", "z", "\u{10000}", "ａ"];
    for a in words {
        for b in words {
            assert_eq!(text_before(&chars_of(a), &chars_of(b)), a < b, "{:?} {:?}", a, b);
        }
    }
}

#[test]
fn sort_texts_matches_sort() {
    let words = ["* main", "  dev", "  feature/x", "", "  dev", "zeta", "Alpha"];
    let items: Vec<Vec<char>> = words.iter().map(|w| chars_of(w)).collect();
    let sorted: Vec<String> = sort_texts(&items).iter().map(text).collect();
    let mut expected: Vec<String> = words.iter().map(|w| String::from(*w)).collect();
    expected.sort();
    assert_eq!(sorted, expected);
    assert_eq!(sort_texts(&Vec::new()), Vec::<Vec<char>>::new());
}
