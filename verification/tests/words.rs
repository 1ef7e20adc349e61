use review_agent::letters::{lower_char, same_ignoring_ascii_case, text_precedes};
use review_agent::numeral::{decimal_of, hex_of, parse_u64, NumberError};
use review_agent::paths::{extension, file_name};
use review_agent::text::{
    text_contains, text_ends_with, text_join, text_lines, text_replace, text_split,
    text_starts_with, text_trim,
};

#[test]
fn numbers_read_back() {
    for n in [0, 1, 9, 10, 42, 1_000_000, u64::MAX] {
        assert_eq!(decimal_of(n), n.to_string());
        assert!(matches!(parse_u64(&decimal_of(n)), Ok(m) if m == n));
    }
    assert!(matches!(parse_u64("+007"), Ok(7)));
    assert!(matches!(parse_u64(""), Err(NumberError::Empty)));
    for s in ["+", "-", "-1", "1 ", "x", "٣"] {
        assert!(matches!(parse_u64(s), Err(NumberError::InvalidDigit)), "{s}");
    }
    assert!(matches!(
        parse_u64("18446744073709551616"),
        Err(NumberError::TooLarge)
    ));
    for s in ["", "x", "99999999999999999999"] {
        match parse_u64(s) {
            Err(e) => assert_eq!(e.message(), s.parse::<u64>().unwrap_err().to_string()),
            Ok(_) => panic!("{s} is no number"),
        }
    }
    assert_eq!(hex_of(&vec![0, 15, 16, 255]), "000f10ff");
}

#[test]
fn texts_are_taken_apart_as_usual() {
    let samples = ["", "a", "a\n", "\n\n", "a\r\nb\n", "a\rb", " x ", "\u{a0}é\u{2003}", "a,b,,c,"];
    for s in samples {
        let lines: Vec<&str> = s.lines().collect();
        assert_eq!(text_lines(s), lines, "{s:?}");
        let parts: Vec<&str> = s.split(',').collect();
        assert_eq!(text_split(s, ','), parts, "{s:?}");
        assert_eq!(text_trim(s), s.trim(), "{s:?}");
        for p in ["a", "\n", "b\n"] {
            assert_eq!(text_contains(s, p), s.contains(p));
            assert_eq!(text_starts_with(s, p), s.starts_with(p));
            assert_eq!(text_ends_with(s, p), s.ends_with(p));
            assert_eq!(text_replace(s, p, "xy"), s.replace(p, "xy"));
        }
        assert!(text_contains(s, ""));
    }
    assert_eq!(text_replace("aaaa", "aa", "a"), "aa");
    let parts: Vec<String> = vec!["a".into(), "".into(), "b".into()];
    assert_eq!(text_join(&parts, "--"), "a----b");
}

#[test]
fn every_space_is_trimmed() {
    for code in 0..=0x3100u32 {
        if let Some(c) = char::from_u32(code) {
            let s = format!("{c}x{c}");
            assert_eq!(text_trim(&s), s.trim(), "U+{code:04X}");
        }
    }
}

#[test]
fn paths_are_taken_apart_as_usual() {
    for p in ["a/b.rs", "a/", "/", "", "..", "a/..", "./x", "a/.", "b.tar.gz", ".hidden", "x."] {
        let path = std::path::Path::new(p);
        let name = path.file_name().map(|n| n.to_string_lossy().to_string());
        assert_eq!(file_name(p), name, "{p}");
        if let Some(n) = name {
            let ext = path.extension().map(|e| e.to_string_lossy().to_string());
            assert_eq!(extension(&n), ext, "{p}");
        }
    }
}

#[test]
fn letters_fold_and_sort() {
    assert!(same_ignoring_ascii_case("PuLl", "pull"));
    assert!(!same_ignoring_ascii_case("pull", "pulls"));
    assert!(!same_ignoring_ascii_case("É", "é"));
    assert_eq!(lower_char('Q'), 'q');
    let words = ["", "a", "ab", "b", "z", "é", "世", "😀"];
    for a in words {
        for b in words {
            assert_eq!(text_precedes(a, b), a < b, "{a} {b}");
        }
    }
}
