use keep_a_changelog::text::{
    chars_of, contains, find_sub, is_blank_str, is_whitespace, join, remove_chars, skip, split,
    starts_with, trim, trim_end,
};

#[test]
fn whitespace_agrees_with_std() {
    let mut n: u32 = 0;
    while n <= 0x10ffff {
        if let Some(c) = char::from_u32(n) {
            assert_eq!(is_whitespace(c), c.is_whitespace(), "code point {n:#x}");
        }
        n += 1;
    }
}

#[test]
fn trim_removes_both_ends() {
    assert_eq!(trim("  a b \t\n"), "a b");
    assert_eq!(trim(""), "");
    assert_eq!(trim(" \u{3000} "), "");
    assert_eq!(trim_end("  a b \t\n"), "  a b");
}

#[test]
fn split_and_join_are_inverse() {
    let parts = split("a\n\nb\n", '\n');
    assert_eq!(parts, vec!["a".to_string(), "".to_string(), "b".to_string(), "".to_string()]);
    assert_eq!(join(&parts, "\n"), "a\n\nb\n");
    assert_eq!(split("", '\n'), vec!["".to_string()]);
}

#[test]
fn helpers_agree_with_std() {
    let samples = [
        "",
        " ",
        "a",
        "  a b  ",
        "\t\u{a0}x\u{2003}\n",
        "line one\nline two\n\nline four",
        "\n\n",
        "- item\n  more",
        "[a]: b: c",
        "éçà — ü\u{85}",
        "a\r\nb\r\n",
    ];
    let patterns = ["", " ", "a", ": ", "\n", "line", "##", "é", "  "];
    for s in samples {
        assert_eq!(trim(s), s.trim(), "trim {s:?}");
        assert_eq!(trim_end(s), s.trim_end(), "trim_end {s:?}");
        assert_eq!(is_blank_str(s), s.trim().is_empty(), "blank {s:?}");
        let lines: Vec<String> = s.split('\n').map(|l| l.to_string()).collect();
        assert_eq!(split(s, '\n'), lines, "split {s:?}");
        assert_eq!(join(&lines, "\n"), s, "join {s:?}");
        assert_eq!(chars_of(s), s.chars().collect::<Vec<char>>(), "chars {s:?}");
        assert_eq!(remove_chars(s, '[', ']'), s.replace(['[', ']'], ""), "remove {s:?}");
        for n in 0..4 {
            assert_eq!(skip(s, n), s.chars().skip(n).collect::<String>(), "skip {s:?} {n}");
        }
        for p in patterns {
            assert_eq!(starts_with(s, p), s.starts_with(p), "starts_with {s:?} {p:?}");
            assert_eq!(contains(s, p), s.contains(p), "contains {s:?} {p:?}");
            let at = s.find(p).map(|byte| s[..byte].chars().count());
            assert_eq!(find_sub(s, p), at, "find {s:?} {p:?}");
        }
    }
}
