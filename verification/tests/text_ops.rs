use socket_programming::text::{
    append_str, chars_of, is_white_space, matches_at, same_text, split, string_of_range, trim,
    trim_end_matches, to_ascii_uppercase, upper_char,
};

const SAMPLES: &[&str] = &[
    "",
    " ",
    "abc",
    "  hello world  ",
    "\t\n tabbed\r\n",
    "\u{3000}ideographic\u{2003}",
    "\u{85}next line\u{a0}",
    "\u{200b}zero width\u{200b}",
    "caf\u{e9} ",
    "a  b",
    "user pass",
    "x\r\n\r\n",
    "\r\n\r\n\r\n",
    "msg\r\n\r\n\r\n\r\n",
    "ab\r\ncd\r\n",
    "aaa",
];

#[test]
fn white_space_agrees_with_std() {
    for n in 0u32..0x3100 {
        if let Some(c) = char::from_u32(n) {
            assert_eq!(is_white_space(c), c.is_whitespace(), "code point {:x}", n);
        }
    }
    assert!(!is_white_space('\u{feff}'));
    assert!(!is_white_space('\u{10ffff}'));
}

#[test]
fn trim_agrees_with_std() {
    for s in SAMPLES {
        assert_eq!(trim(s), s.trim(), "input {:?}", s);
    }
}

#[test]
fn trim_examples() {
    assert_eq!(trim("  alice \n"), "alice");
    assert_eq!(trim(" \t "), "");
    assert_eq!(trim("a b"), "a b");
    assert_eq!(trim("\u{200b}x"), "\u{200b}x");
}

#[test]
fn trim_twice_is_trim_once() {
    for s in SAMPLES {
        let once = trim(s);
        assert_eq!(trim(&once), once);
    }
}

#[test]
fn trim_end_matches_agrees_with_std() {
    for s in SAMPLES {
        for pat in ["\r\n\r\n", "\r\n", "aa", "a", "x"] {
            assert_eq!(trim_end_matches(s, pat), s.trim_end_matches(pat), "{:?} {:?}", s, pat);
        }
    }
}

#[test]
fn trim_end_matches_examples() {
    assert_eq!(trim_end_matches("hi\r\n\r\n\r\n\r\n", "\r\n\r\n"), "hi");
    assert_eq!(trim_end_matches("hi\r\n\r\n\r\n", "\r\n\r\n"), "hi\r\n");
    assert_eq!(trim_end_matches("aaa", "aa"), "a");
    assert_eq!(trim_end_matches("abc", ""), "abc");
}

#[test]
fn uppercase_agrees_with_std() {
    for s in SAMPLES {
        assert_eq!(to_ascii_uppercase(s), s.to_ascii_uppercase());
    }
    assert_eq!(to_ascii_uppercase("Hello, w\u{f6}rld z"), "HELLO, W\u{f6}RLD Z");
    assert_eq!(upper_char('a'), 'A');
    assert_eq!(upper_char('z'), 'Z');
    assert_eq!(upper_char('{'), '{');
    assert_eq!(upper_char('\u{e9}'), '\u{e9}');
}

#[test]
fn split_agrees_with_std() {
    for s in SAMPLES {
        for sep in [" ", "\r\n", "aa", "a", "\r\n\r\n"] {
            let ours = split(s, sep);
            let theirs: Vec<String> = s.split(sep).map(|f| f.to_string()).collect();
            assert_eq!(ours, theirs, "{:?} split at {:?}", s, sep);
        }
    }
}

#[test]
fn split_examples() {
    assert_eq!(split("user pass", " "), vec!["user", "pass"]);
    assert_eq!(split("", " "), vec![""]);
    assert_eq!(split("a  b", " "), vec!["a", "", "b"]);
    assert_eq!(split("aaa", "aa"), vec!["", "a"]);
    assert_eq!(split("ok\r\n1.2.3.4:5", "\r\n"), vec!["ok", "1.2.3.4:5"]);
}

#[test]
fn split_then_join_gives_back_the_text() {
    for s in SAMPLES {
        for sep in [" ", "\r\n", "aa"] {
            assert_eq!(split(s, sep).join(sep), *s);
        }
    }
}

#[test]
fn small_helpers() {
    assert_eq!(chars_of("h\u{e9}!"), vec!['h', '\u{e9}', '!']);
    let v = vec!['a', 'b', 'c', 'd'];
    assert_eq!(string_of_range(&v, 1, 3), "bc");
    assert_eq!(string_of_range(&v, 2, 2), "");
    let mut s = String::from("ab");
    append_str(&mut s, "c\u{e9}");
    assert_eq!(s, "abc\u{e9}");
    assert!(same_text("stop", "stop"));
    assert!(!same_text("stop", "Stop"));
    let p = vec!['b', 'c'];
    assert!(matches_at(&v, &p, 1));
    assert!(!matches_at(&v, &p, 2));
    assert!(!matches_at(&v, &p, 3));
    assert!(!matches_at(&v, &p, 9));
}

#[test]
fn stripped_text_no_longer_ends_with_the_pattern() {
    for s in SAMPLES {
        for pat in ["\r\n\r\n", "\r\n", "aa", "a"] {
            assert!(!trim_end_matches(s, pat).ends_with(pat));
        }
    }
}
