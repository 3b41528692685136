use ultrascip::text::{
    chars_of, comes_before, contains, find, is_empty_text, is_text, is_white_space, lines,
    replace, split, split_nonempty, str_eq, string_of, strip_prefix, tail_after, tail_after_any,
    trim, trim_end, trim_of, trim_start,
};

fn texts(parts: Vec<&[char]>) -> Vec<String> {
    parts.into_iter().map(string_of).collect()
}

#[test]
fn white_space_is_that_of_char() {
    for code in 0..=0x10ffff {
        if let Some(c) = char::from_u32(code) {
            assert_eq!(is_white_space(c), c.is_whitespace(), "U+{:04X}", code);
        }
    }
}

#[test]
fn strings_and_characters() {
    assert_eq!(string_of(&chars_of("gr\u{fc}n \u{1f600}")), "gr\u{fc}n \u{1f600}");
    assert!(str_eq("a", "a"));
    assert!(!str_eq("a", "ab"));
    assert!(!str_eq("\u{e9}", "e"));
    assert!(is_text(&chars_of("x"), "x"));
    assert!(is_empty_text(""));
    assert!(!is_empty_text(" "));
    assert_eq!(ultrascip::text::concat("a", "b"), "ab");
}

#[test]
fn lines_are_those_of_str() {
    for s in [
        "", "a", "a\n", "a\r\nb", "\n\n", "a\rb\n", "a\n\nb\n", "\r\n", "x\r",
    ] {
        let chars = chars_of(s);
        let got = texts(lines(&chars));
        let want: Vec<String> = s.lines().map(|l| l.to_string()).collect();
        assert_eq!(got, want, "{:?}", s);
    }
}

#[test]
fn trims_are_those_of_str() {
    for s in ["", "  ", " a ", "\u{2003}a b\n", "a\u{a0}"] {
        let chars = chars_of(s);
        assert_eq!(string_of(trim(&chars)), s.trim());
        assert_eq!(string_of(trim_start(&chars)), s.trim_start());
        assert_eq!(string_of(trim_end(&chars)), s.trim_end());
    }
    assert_eq!(string_of(trim_of(&chars_of("'\"x'\""), "\"'")), "x");
}

#[test]
fn searches_are_those_of_str() {
    for (s, p) in [("abcabc", "ca"), ("aaa", "aa"), ("", "a"), ("abc", "d"), ("ab", "")] {
        let chars = chars_of(s);
        assert_eq!(find(&chars, p), s.find(p));
        assert_eq!(contains(&chars, p), s.contains(p));
    }
    let chars = chars_of("a::b::c");
    assert_eq!(texts(split(&chars, "::")), vec!["a", "b", "c"]);
    assert_eq!(string_of(&replace(&chars, "::", "#")), "a#b#c");
    assert_eq!(string_of(tail_after(&chars, "::")), "c");
    assert_eq!(string_of(tail_after(&chars, "/")), "a::b::c");
    assert_eq!(string_of(tail_after_any(&chars, "#/:")), "c");
    assert_eq!(strip_prefix(&chars, "a::").map(string_of), Some("b::c".to_string()));
    assert_eq!(strip_prefix(&chars, "b"), None);
    assert_eq!(split_nonempty(".a..b.", "."), vec!["a", "b"]);
}

#[test]
fn order_is_that_of_str() {
    let all = ["", "a", "ab", "b", "A", "\u{e9}", "\u{1f600}", "z\u{e9}"];
    for a in all {
        for b in all {
            assert_eq!(comes_before(a, b), a < b, "{:?} {:?}", a, b);
        }
    }
}
