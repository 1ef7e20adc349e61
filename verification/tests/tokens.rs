use review_agent::budget::fit;
use review_agent::diff::{DiffFile, DiffLine, DiffLineKind, DiffStatus, Hunk};
use review_agent::language::detect_language;
use review_agent::tokens::{estimate_from_count, estimate_tokens, truncate_to_budget};

fn make_file(name: &str, additions: u64, content_size: usize) -> DiffFile {
    let content = "x".repeat(content_size);
    DiffFile {
        filename: name.to_string(),
        old_filename: None,
        status: DiffStatus::Modified,
        hunks: vec![Hunk {
            header: "@@ -1 +1 @@".to_string(),
            lines: vec![DiffLine {
                kind: DiffLineKind::Added,
                content,
                old_lineno: None,
                new_lineno: Some(1),
            }],
        }],
        additions,
        deletions: 0,
        mode_change: None,
    }
}

#[test]
fn estimate_empty() {
    assert_eq!(estimate_tokens(""), 0);
}

#[test]
fn estimate_short_string() {
    let tokens = estimate_tokens("hello world");
    assert!(tokens >= 1, "Expected at least 1 token, got {tokens}");
    assert_eq!(tokens, 2);
}

#[test]
fn truncate_single_over_budget_keeps_one() {
    let mut files = vec![make_file("big.rs", 100, 10_000)];
    let dropped = truncate_to_budget(&mut files, 100);
    assert_eq!(dropped, 0);
    assert_eq!(files.len(), 1);
}

#[test]
fn truncate_keeps_one_when_all_over_budget() {
    let mut files = vec![
        make_file("a.rs", 100, 10_000),
        make_file("b.rs", 100, 10_000),
        make_file("c.rs", 100, 10_000),
    ];
    let dropped = truncate_to_budget(&mut files, 100);
    assert_eq!(dropped, 2);
    assert_eq!(files.len(), 1);
}

#[test]
fn truncate_largest_first() {
    let mut files = vec![
        make_file("small.rs", 10, 100),
        make_file("huge.rs", 500, 50_000),
        make_file("medium.rs", 50, 5_000),
    ];
    let dropped = truncate_to_budget(&mut files, 2_000);
    assert_eq!(dropped, 1);
    assert_eq!(files.len(), 2);
    assert!(!files.iter().any(|f| f.filename == "huge.rs"));
}

#[test]
fn truncate_none_when_budget_fits() {
    let mut files = vec![make_file("a.rs", 10, 100), make_file("b.rs", 10, 100)];
    let dropped = truncate_to_budget(&mut files, 1_000_000);
    assert_eq!(dropped, 0);
    assert_eq!(files.len(), 2);
}

#[test]
fn truncate_removes_correct_indices() {
    let mut files = vec![
        make_file("drop_first.rs", 100, 20_000),
        make_file("keep.rs", 10, 100),
        make_file("drop_third.rs", 100, 20_000),
    ];
    let dropped = truncate_to_budget(&mut files, 500);
    assert_eq!(dropped, 2);
    assert_eq!(files.len(), 1);
    assert_eq!(files[0].filename, "keep.rs");
}

#[test]
fn estimate_multibyte() {
    let tokens = estimate_tokens("你好世界");
    assert!(tokens >= 1, "Expected at least 1 token for CJK, got {tokens}");
}

#[test]
fn token_estimator_empty_string() {
    assert_eq!(0, estimate_tokens(""));
}

#[test]
fn token_estimator_whitespace() {
    assert!(estimate_tokens("   \n  \t  ") > 0);
}

#[test]
fn token_estimator_multibyte() {
    let chinese = "你好世界，这是一段中文代码审查";
    assert!(estimate_tokens(chinese) > 0);
}

#[test]
fn token_estimator_long_string() {
    let long = "a".repeat(100_000);
    let tokens = estimate_tokens(&long);
    assert!(tokens > 10_000, "long string should produce many tokens");
    assert!(tokens < 100_000);
}

#[test]
fn estimate_without_an_encoding() {
    assert_eq!(estimate_from_count("", Some(5)), 0);
    assert_eq!(estimate_from_count("abcdefg", None), 2);
    assert_eq!(estimate_from_count("ééé", None), 1);
    assert_eq!(estimate_from_count("abc", Some(9)), 9);
}

#[test]
fn equal_files_go_in_their_order() {
    // The heaviest goes first; of the equal ones the earlier.
    assert_eq!(fit(&vec![5, 9, 5, 1], 6), vec![false, false, true, true]);
    assert_eq!(fit(&vec![5, 5], 5), vec![false, true]);
    assert_eq!(fit(&vec![5, 5], 10), vec![true, true]);
    assert_eq!(fit(&vec![7], 0), vec![true]);
    assert_eq!(fit(&vec![], 0), Vec::<bool>::new());
}

#[test]
fn truncation_of_nothing() {
    let mut files: Vec<DiffFile> = vec![];
    assert_eq!(truncate_to_budget(&mut files, 0), 0);
    assert!(files.is_empty());
}

#[test]
fn language_unknown_extension() {
    assert_eq!("Unknown", detect_language("file.xyz"));
}

#[test]
fn language_known_extensions() {
    assert_eq!("Rust", detect_language("main.rs"));
    assert_eq!("Python", detect_language("app.py"));
    assert_eq!("C++", detect_language("lib.hpp"));
}

#[test]
fn languages_by_name_and_path() {
    assert_eq!("Docker", detect_language("deploy/Dockerfile"));
    assert_eq!("TypeScript", detect_language("src/app.spec.ts"));
    assert_eq!("Unknown", detect_language(".rs"));
    assert_eq!("Unknown", detect_language("src/.."));
    assert_eq!("Rust", detect_language("src/main.rs/"));
}
