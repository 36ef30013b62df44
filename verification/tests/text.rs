use voice_core::text::{
    chars_of, concat2, lines_of, push_decimal, push_signed_decimal, same_text, strip_all, trim,
    trim_chars,
};

fn chars(s: &str) -> Vec<char> {
    s.chars().collect()
}

#[test]
fn lines_follow_the_standard_splitting() {
    for s in [
        "",
        "\n",
        "a",
        "a\n",
        "a\nb",
        "a\r\nb\r\n",
        "a\r",
        "a\r\n\r\nb",
        "\r\n",
        "\n\n",
        "x\ry\n",
        "\r\r\n",
        "one\ntwo\nthree",
        "é\u{2028}ü\n☃",
    ] {
        let expected: Vec<String> = s.lines().map(|l| l.to_string()).collect();
        assert_eq!(lines_of(s), expected, "lines of {:?}", s);
    }
}

#[test]
fn lines_exact_values() {
    assert_eq!(lines_of("a\r\nb\r"), vec!["a", "b\r"]);
    assert_eq!(lines_of("a\n\nb\n"), vec!["a", "", "b"]);
    assert_eq!(lines_of(""), Vec::<String>::new());
}

#[test]
fn trim_follows_the_standard_trimming() {
    for s in ["", " ", "a", " a ", "\t\n a b \r\n", "\u{a0}x\u{2003}", "\u{feff}x", "x\u{200b}", "  \u{3000} "] {
        assert_eq!(trim(s), s.trim(), "trim of {:?}", s);
    }
    assert_eq!(trim_chars(&chars("  ab ")), chars("ab"));
    assert_eq!(trim_chars(&chars("   ")), chars(""));
    assert_eq!(trim_chars(&chars("")), chars(""));
}

#[test]
fn removal_follows_the_standard_replacing() {
    for (s, p) in [
        ("aaa", "aa"),
        ("abcabc", "bc"),
        ("ababa", "aba"),
        ("xyz", "q"),
        ("", "a"),
        ("abc", ""),
        ("aXbXc", "X"),
        ("[[MUSIC]", "[MUSIC]"),
        ("short", "much longer than the text"),
    ] {
        let got: String = strip_all(&chars(s), &chars(p)).into_iter().collect();
        assert_eq!(got, s.replace(p, ""), "{:?} without {:?}", s, p);
    }
}

#[test]
fn strings_and_characters_convert_both_ways() {
    assert_eq!(chars_of("héllo☃"), chars("héllo☃"));
    assert_eq!(concat2("ab", "cd"), "abcd");
    assert!(same_text("abc", "abc"));
    assert!(!same_text("abc", "abd"));
    assert!(!same_text("abc", "ab"));
    assert!(same_text("", ""));
}

#[test]
fn numbers_are_written_in_decimal() {
    for n in [0u64, 7, 10, 99, 100, 16000, 4294967295, u64::MAX] {
        let mut s = String::from("n=");
        push_decimal(&mut s, n);
        assert_eq!(s, format!("n={}", n));
    }
    for n in [0i64, -1, 1, -10, 42, i32::MIN as i64, i64::MIN, i64::MAX] {
        let mut s = String::new();
        push_signed_decimal(&mut s, n);
        assert_eq!(s, format!("{}", n));
    }
}
