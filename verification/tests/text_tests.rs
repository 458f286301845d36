use teleport_helper::text::{
    char_is_white_space, chars_of, contains, find_char, join_each_ended, join_with, same_str,
    split_at_char, split_lines, starts_with, string_of, stripped_both_from, trimmed,
    trimmed_start, word_at,
};

fn samples() -> Vec<&'static str> {
    vec![
        "",
        "\n",
        "\r",
        "\r\n",
        "a",
        "a\n",
        "a\r\n",
        "a\r",
        "a\r\r\n",
        "foo\nbar\n\r\nbaz\r",
        "\n\n",
        "one\ntwo",
        "one\n\ntwo\n",
        "  export A=1\nnoise\n\texport B=\"2\"\n",
        " \u{a0}x y\u{3000}z\u{2003} ",
        "héllo wörld\nüber\n",
    ]
}

fn lines_by_library(s: &str) -> Vec<String> {
    split_lines(&chars_of(s)).iter().map(string_of).collect()
}

#[test]
fn chars_round_trip() {
    for s in samples() {
        assert_eq!(string_of(&chars_of(s)), s);
        assert_eq!(chars_of(s), s.chars().collect::<Vec<char>>());
    }
}

#[test]
fn string_of_builds_each_character() {
    assert_eq!(string_of(&vec!['a', 'ß', '\n', '漢']), "aß\n漢");
    assert_eq!(string_of(&Vec::new()), "");
}

#[test]
fn lines_agree_with_std() {
    for s in samples() {
        let expected: Vec<String> = s.lines().map(|l| l.to_string()).collect();
        assert_eq!(lines_by_library(s), expected, "lines of {:?}", s);
    }
}

#[test]
fn lines_keep_a_bare_carriage_return_at_the_end() {
    assert_eq!(lines_by_library("foo\nbar\n\r\nbaz\r"), vec!["foo", "bar", "", "baz\r"]);
}

#[test]
fn lines_of_empty_text_are_none() {
    assert!(lines_by_library("").is_empty());
    assert_eq!(lines_by_library("\n"), vec![""]);
}

#[test]
fn split_agrees_with_std() {
    for s in samples() {
        for c in ['\n', ':', 'a', ' '] {
            let expected: Vec<String> = s.split(c).map(|l| l.to_string()).collect();
            let got: Vec<String> = split_at_char(&chars_of(s), c).iter().map(string_of).collect();
            assert_eq!(got, expected, "split of {:?} at {:?}", s, c);
        }
    }
}

#[test]
fn trim_agrees_with_std() {
    for s in samples() {
        assert_eq!(string_of(&trimmed(&chars_of(s))), s.trim(), "trim of {:?}", s);
        assert_eq!(string_of(&trimmed_start(&chars_of(s))), s.trim_start());
    }
    assert_eq!(string_of(&trimmed(&chars_of(" \t x \u{2028}"))), "x");
    assert_eq!(string_of(&trimmed(&chars_of("   "))), "");
}

#[test]
fn white_space_agrees_with_std_on_every_character() {
    let mut code: u32 = 0;
    while code <= 0x10FFFF {
        if let Some(c) = char::from_u32(code) {
            assert_eq!(char_is_white_space(c), c.is_whitespace(), "U+{:04X}", code);
        }
        code += 1;
    }
}

#[test]
fn words_agree_with_std() {
    for s in samples() {
        for n in 0..4usize {
            let expected = s.split_whitespace().nth(n).map(|w| w.to_string());
            let got = word_at(&chars_of(s), n).map(|w| string_of(&w));
            assert_eq!(got, expected, "word {} of {:?}", n, s);
        }
    }
    let line = "root      1234  0.0  0.1 tsh proxy aws --app yl-dev";
    assert_eq!(word_at(&chars_of(line), 1).map(|w| string_of(&w)), Some("1234".to_string()));
    assert_eq!(word_at(&chars_of("single"), 1), None);
}

#[test]
fn contains_and_prefix_agree_with_std() {
    let needles = ["", "a", "export ", "\n", "oo", "baz\r", "xyz", "wörld"];
    for s in samples() {
        for p in needles {
            assert_eq!(contains(&chars_of(s), &chars_of(p)), s.contains(p), "{:?} in {:?}", p, s);
            assert_eq!(starts_with(&chars_of(s), &chars_of(p)), s.starts_with(p));
        }
    }
}

#[test]
fn find_char_gives_position_or_length() {
    assert_eq!(find_char(&chars_of("KEY=VALUE=X"), '='), 3);
    assert_eq!(find_char(&chars_of("KEY"), '='), 3);
    assert_eq!(find_char(&chars_of(""), '='), 0);
    assert_eq!(find_char(&chars_of("é=1"), '='), 1);
}

#[test]
fn quotes_are_stripped_at_both_ends_only() {
    for v in ["\"abc\"", "abc", "\"\"\"", "\"a\"b\"", "", "\"", "a\"\""] {
        let got = string_of(&stripped_both_from(&chars_of(v), 0, '"'));
        assert_eq!(got, v.trim_matches('"'), "value {:?}", v);
    }
    assert_eq!(string_of(&stripped_both_from(&chars_of("K=\"v\""), 2, '"')), "v");
}

#[test]
fn join_puts_the_separator_between_parts() {
    let parts = vec![chars_of("a"), chars_of(""), chars_of("c")];
    assert_eq!(string_of(&join_with(&parts, &chars_of("\n"))), "a\n\nc");
    assert_eq!(string_of(&join_with(&Vec::new(), &chars_of("\n"))), "");
    assert_eq!(string_of(&join_with(&vec![chars_of("x")], &chars_of(", "))), "x");
    assert_eq!(string_of(&join_each_ended(&parts, &chars_of("\n"))), "a\n\nc\n");
    assert_eq!(string_of(&join_each_ended(&Vec::new(), &chars_of("\n"))), "");
}

#[test]
fn same_str_compares_characters() {
    assert!(same_str("colors", "colors"));
    assert!(!same_str("colors", "color"));
    assert!(!same_str("a", "b"));
    assert!(same_str("", ""));
}
