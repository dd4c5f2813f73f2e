use reachpy_config::text::{
    chars_of, decimal_string, is_whitespace, join_strings, replace_str, split_char, split_lines,
    str_contains, str_ends_with, str_starts_with, trim_char_str, trim_str,
};

const SAMPLES: [&str; 16] = [
    "",
    " ",
    "abc",
    "  abc  ",
    "\t# hot-reload-off\r",
    "\u{a0}\u{2003}wide\u{3000}",
    "\u{85}next line\u{2028}",
    "a\nb\r\nc",
    "a\n\nb\n",
    "\n",
    "\r\n",
    "x\r",
    "/opt/ros/humble:/opt/other",
    "::a:",
    "Python 3.11.4",
    "héllo wörld ✓",
];

#[test]
fn whitespace_is_unicode_white_space() {
    for c in ['\u{0}', 'a', ' ', '\t', '\n', '\u{b}', '\u{c}', '\r', '\u{1c}', '\u{85}', '\u{a0}',
        '\u{1680}', '\u{2000}', '\u{200a}', '\u{200b}', '\u{2028}', '\u{2029}', '\u{202f}',
        '\u{205f}', '\u{3000}', '\u{feff}', 'é']
    {
        assert_eq!(is_whitespace(c), c.is_whitespace(), "char {:?}", c);
    }
}

#[test]
fn trim_agrees_with_str_trim() {
    for s in SAMPLES {
        assert_eq!(trim_str(s), s.trim(), "text {:?}", s);
    }
}

#[test]
fn lines_agree_with_str_lines() {
    for s in SAMPLES {
        let ours = split_lines(&chars_of(s));
        let std_lines: Vec<String> = s.lines().map(|l| l.to_string()).collect();
        assert_eq!(ours, std_lines, "text {:?}", s);
    }
}

#[test]
fn split_agrees_with_str_split() {
    for s in SAMPLES {
        let ours = split_char(&chars_of(s), ':');
        let std_parts: Vec<String> = s.split(':').map(|l| l.to_string()).collect();
        assert_eq!(ours, std_parts, "text {:?}", s);
    }
}

#[test]
fn replace_agrees_with_str_replace() {
    let cases = [
        ("Python 3.11.4", "Python ", ""),
        ("my-robot-pkg", "-", "_"),
        ("aaaa", "aa", "b"),
        ("abc", "x", "y"),
        ("", "a", "b"),
        ("ababab", "ab", "ba"),
    ];
    for (s, p, q) in cases {
        assert_eq!(replace_str(s, p, q), s.replace(p, q), "{:?} {:?} {:?}", s, p, q);
    }
}

#[test]
fn trim_matches_agree_with_std() {
    for s in ["config/", "/models/", "//x//", "", "/", "a/b"] {
        assert_eq!(trim_char_str(s, '/'), s.trim_matches('/'), "text {:?}", s);
    }
}

#[test]
fn searches_agree_with_std() {
    let pats = ["", "a", "ab", "/", "humble", "wörld"];
    for s in SAMPLES {
        for p in pats {
            assert_eq!(str_contains(s, p), s.contains(p));
            assert_eq!(str_starts_with(s, p), s.starts_with(p));
            assert_eq!(str_ends_with(s, p), s.ends_with(p));
        }
    }
}

#[test]
fn decimals_and_joins() {
    for n in [0u64, 7, 10, 42, 1234567890, u64::MAX] {
        assert_eq!(decimal_string(n), n.to_string());
    }
    let v = vec!["a".to_string(), "b".to_string(), "c".to_string()];
    assert_eq!(join_strings(&v, ", "), "a, b, c");
    assert_eq!(join_strings(&Vec::new(), ", "), "");
    assert_eq!(join_strings(&vec!["x".to_string()], "\n"), "x");
}
