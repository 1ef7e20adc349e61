use review_agent::services::file_reader::{
    check_file, copy_files, file_content, is_binary, sort_by_path, truncate_file_content_budget,
    validate_path, FileContent, FileFacts, FileProblem,
};

fn regular(len: u64) -> FileFacts {
    FileFacts {
        is_symlink: false,
        target: Ok((true, len)),
    }
}

#[test]
fn test_read_single_valid_file() {
    assert!(check_file("/tmp/.tmpAbc123", &regular(13)).is_ok());
    let fc = file_content("/tmp/.tmpAbc123", "fn main() {}\n".into(), None).unwrap_or_else(|_| {
        panic!("a text file");
    });
    assert_eq!(fc.content, "fn main() {}\n");
    assert_eq!(fc.line_count, 1);
    assert_eq!(fc.language, "Unknown");
}

#[test]
fn test_read_single_with_language_override() {
    let fc = file_content("/tmp/.tmpAbc123", "hello".into(), Some("Rust"))
        .unwrap_or_else(|_| panic!("a text file"));
    assert_eq!(fc.language, "Rust");
    let fc = file_content("main.py", "hello".into(), Some(""))
        .unwrap_or_else(|_| panic!("a text file"));
    assert_eq!(fc.language, "Python");
}

#[test]
fn test_read_single_nonexistent() {
    let facts = FileFacts {
        is_symlink: false,
        target: Err("No such file or directory (os error 2)".into()),
    };
    let problem = check_file("/nonexistent-file-12345", &facts).unwrap_err();
    assert!(matches!(problem, FileProblem::Missing(_, _)));
    assert_eq!(
        problem.message(),
        "/nonexistent-file-12345: No such file or directory (os error 2)"
    );
}

#[test]
fn test_read_single_path_traversal_rejected() {
    assert!(check_file("../../etc/passwd", &regular(10)).is_err());
}

#[test]
fn test_read_single_binary_rejected() {
    let content = String::from_utf8(vec![0, 1, 2, 3]).unwrap();
    match file_content("x.bin", content, None) {
        Err(problem) => assert_eq!(problem.message(), "x.bin: binary file not supported"),
        Ok(_) => panic!("a binary file was read"),
    }
}

#[test]
fn test_truncate_file_content_budget_keeps_one() {
    let mut files = vec![
        FileContent {
            path: "a.rs".into(),
            content: "x".repeat(100_000),
            language: "Rust".into(),
            line_count: 5000,
        },
        FileContent {
            path: "b.rs".into(),
            content: "x".repeat(100_000),
            language: "Rust".into(),
            line_count: 5000,
        },
    ];
    let dropped = truncate_file_content_budget(&mut files, 100);
    assert_eq!(dropped, 1);
    assert_eq!(files.len(), 1);
}

#[test]
fn test_truncate_file_content_budget_fits_all() {
    let mut files = vec![FileContent {
        path: "a.rs".into(),
        content: "small".into(),
        language: "Rust".into(),
        line_count: 1,
    }];
    let dropped = truncate_file_content_budget(&mut files, 1_000_000);
    assert_eq!(dropped, 0);
    assert_eq!(files.len(), 1);
}

#[test]
fn test_is_binary_detects_null_bytes() {
    assert!(is_binary(&[0, 1, 2]));
    assert!(!is_binary(&[1, 2, 3]));
}

#[test]
fn test_validate_path_rejects_dotdot() {
    assert!(validate_path("../../foo", false).is_err());
    assert!(validate_path("foo/../bar", false).is_err());
}

#[test]
fn test_validate_path_accepts_normal() {
    assert!(validate_path("src/main.rs", false).is_ok());
    assert!(validate_path("/absolute/path.rs", false).is_ok());
}

#[test]
fn every_problem_has_its_words() {
    assert_eq!(
        validate_path("a..b", false).unwrap_err().message(),
        "path traversal rejected: 'a..b' contains '..'"
    );
    assert_eq!(
        validate_path("link", true).unwrap_err().message(),
        "symlink rejected: 'link'"
    );
    let directory = FileFacts {
        is_symlink: false,
        target: Ok((false, 0)),
    };
    assert_eq!(
        check_file("src", &directory).unwrap_err().message(),
        "src: not a regular file"
    );
    assert!(check_file("big.rs", &regular(1_048_576)).is_ok());
    assert_eq!(
        check_file("big.rs", &regular(1_048_577)).unwrap_err().message(),
        "big.rs: file exceeds 1 MB limit (1048577 bytes)"
    );
    assert_eq!(
        FileProblem::Unreadable("x".into(), "denied".into()).message(),
        "x: denied"
    );
}

#[test]
fn only_the_first_bytes_are_probed() {
    let mut bytes = vec![1u8; 8192];
    bytes.push(0);
    assert!(!is_binary(&bytes));
    bytes[8191] = 0;
    assert!(is_binary(&bytes));
    assert!(!is_binary(&[]));
}

#[test]
fn files_are_sorted_by_path() {
    let named = |p: &str| FileContent {
        path: p.into(),
        content: String::new(),
        language: "Rust".into(),
        line_count: 0,
    };
    let files = vec![named("b"), named("a/z"), named("a"), named("B"), named("é"), named("z")];
    let copy = copy_files(&files);
    assert_eq!(copy.len(), 6);
    let sorted: Vec<String> = sort_by_path(files).into_iter().map(|f| f.path).collect();
    assert_eq!(sorted, vec!["B", "a", "a/z", "b", "z", "é"]);
}
