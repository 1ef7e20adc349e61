use review_agent::diff::{format_diff_file, DiffFile, DiffLine, DiffLineKind, DiffStatus, Hunk};
use review_agent::engine::ReviewFinding;
use review_agent::error::AgentError;
use review_agent::services::relocation::{
    apply_answer, apply_line, match_from_hunks, parse_hunk_new_start, relocate_step, relocated_line,
    resolve_line_numbers, RelocateStep,
};
use review_agent::services::review_filter::{
    filter_findings, filter_prompt, parse_indices, remove_findings,
};

fn make_hunk(old_start: u64, new_start: u64, lines: Vec<DiffLine>) -> Hunk {
    Hunk {
        header: format!(
            "@@ -{},{} +{},{} @@",
            old_start,
            lines.len(),
            new_start,
            lines.len()
        ),
        lines,
    }
}

fn make_diff_file(name: &str, hunks: Vec<Hunk>) -> DiffFile {
    DiffFile {
        filename: name.to_string(),
        old_filename: None,
        status: DiffStatus::Modified,
        hunks,
        additions: 0,
        deletions: 0,
        mode_change: None,
    }
}

fn finding(file: Option<&str>, line: Option<u64>, suggestion: Option<&str>) -> ReviewFinding {
    ReviewFinding {
        severity: "low".into(),
        file: file.map(|f| f.to_string()),
        line,
        category: "other".into(),
        message: "m".into(),
        suggestion: suggestion.map(|s| s.to_string()),
    }
}

#[test]
fn test_parse_hunk_new_start() {
    assert_eq!(parse_hunk_new_start("@@ -10,7 +42,8 @@ fn main()"), 42);
    assert_eq!(parse_hunk_new_start("@@ -1 +1 @@"), 1);
}

#[test]
fn test_format_diff_file() {
    let lines = vec![
        DiffLine {
            kind: DiffLineKind::Context,
            content: "fn main() {".into(),
            old_lineno: Some(1),
            new_lineno: Some(1),
        },
        DiffLine {
            kind: DiffLineKind::Added,
            content: "    println!(\"hello\");".into(),
            old_lineno: None,
            new_lineno: Some(2),
        },
    ];
    let file = make_diff_file("main.rs", vec![make_hunk(1, 1, lines)]);
    let formatted = format_diff_file(&file);
    assert!(formatted.contains("--- a/main.rs"));
    assert!(formatted.contains("+++ b/main.rs"));
    assert!(formatted.contains("+    println!"));
    assert_eq!(
        formatted,
        "--- a/main.rs\n+++ b/main.rs\n@@ -1,2 +1,2 @@\n fn main() {\n+    println!(\"hello\");\n"
    );
}

#[test]
fn test_match_from_hunks_finds_first_line() {
    let lines = vec![
        DiffLine {
            kind: DiffLineKind::Context,
            content: "fn main() {".into(),
            old_lineno: Some(1),
            new_lineno: Some(1),
        },
        DiffLine {
            kind: DiffLineKind::Added,
            content: "    let x = 1;".into(),
            old_lineno: None,
            new_lineno: Some(2),
        },
    ];
    let file = make_diff_file("main.rs", vec![make_hunk(1, 1, lines)]);
    let result = match_from_hunks(&file, "test", &Some("fix".into()));
    assert!(result.is_some());
    assert_eq!(result.unwrap(), 1);
}

#[test]
fn test_match_from_hunks_empty_returns_none() {
    let file = make_diff_file("empty.rs", vec![]);
    let result = match_from_hunks(&file, "test", &Some("fix".into()));
    assert!(result.is_none());
}

#[test]
fn odd_hunk_headers_start_at_one() {
    assert_eq!(parse_hunk_new_start(""), 1);
    assert_eq!(parse_hunk_new_start("@@ -1"), 1);
    assert_eq!(parse_hunk_new_start("@@ -1 x @@"), 1);
    assert_eq!(parse_hunk_new_start("@@ @@ -1 +7 @@"), 7);
}

fn removed(content: &str) -> DiffLine {
    DiffLine {
        kind: DiffLineKind::Removed,
        content: content.into(),
        old_lineno: Some(1),
        new_lineno: None,
    }
}

#[test]
fn findings_are_placed_or_asked_about() {
    let files = vec![
        make_diff_file("gone.rs", vec![make_hunk(1, 0, vec![removed("x")])]),
        make_diff_file(
            "new.rs",
            vec![make_hunk(
                3,
                30,
                vec![
                    removed("a"),
                    DiffLine {
                        kind: DiffLineKind::Added,
                        content: "b".into(),
                        old_lineno: None,
                        new_lineno: Some(30),
                    },
                ],
            )],
        ),
    ];
    let leave = [
        finding(Some("new.rs"), Some(3), Some("s")),
        finding(Some("new.rs"), None, None),
        finding(Some("other.rs"), None, Some("s")),
        finding(None, None, Some("s")),
    ];
    for f in &leave {
        assert!(matches!(relocate_step(f, &files), RelocateStep::Leave));
    }
    let put = finding(Some("new.rs"), None, Some("s"));
    assert!(matches!(relocate_step(&put, &files), RelocateStep::PutAt(30)));
    let ask = finding(Some("gone.rs"), None, Some("s"));
    match relocate_step(&ask, &files) {
        RelocateStep::Ask(prompt) => assert_eq!(
            prompt,
            "Diff:\n```\n--- a/gone.rs\n+++ b/gone.rs\n@@ -1,1 +0,1 @@\n-x\n\n```\n\nFinding: m\n\nSuggestion: s\n\nReturn the line number where this finding applies as JSON: {\"line\": N}"
        ),
        _ => panic!("there was no line to put it at"),
    }
}

#[test]
fn lines_are_resolved_up_to_the_next_question() {
    let new_line = DiffLine {
        kind: DiffLineKind::Context,
        content: "c".into(),
        old_lineno: Some(5),
        new_lineno: Some(5),
    };
    let files = vec![
        make_diff_file("a.rs", vec![make_hunk(5, 5, vec![new_line])]),
        make_diff_file("gone.rs", vec![]),
    ];
    let mut findings = vec![
        finding(Some("a.rs"), None, Some("s")),
        finding(Some("gone.rs"), None, Some("s")),
        finding(Some("a.rs"), Some(1), Some("s")),
        finding(Some("a.rs"), None, Some("s")),
    ];
    let lines = |f: &Vec<ReviewFinding>| f.iter().map(|x| x.line).collect::<Vec<_>>();
    let (i, prompt) = resolve_line_numbers(&mut findings, &files, 0).unwrap();
    assert_eq!(i, 1);
    assert!(prompt.contains("+++ b/gone.rs"));
    assert_eq!(lines(&findings), vec![Some(5), None, Some(1), None]);
    apply_line(&mut findings[i], relocated_line("{\"line\": 9}"));
    assert!(resolve_line_numbers(&mut findings, &files, i + 1).is_none());
    assert_eq!(lines(&findings), vec![Some(5), Some(9), Some(1), Some(5)]);
}

#[test]
fn answers_name_a_line() {
    assert_eq!(relocated_line("{\"line\": 12}"), Some(12));
    assert_eq!(relocated_line("```json\n{\"line\":\n 7}\n```\nmore"), Some(7));
    assert_eq!(relocated_line("line 7"), None);
    assert_eq!(relocated_line("{\"line\": -7}"), None);
    let mut f = finding(None, None, None);
    apply_line(&mut f, None);
    assert_eq!(f.line, None);
    apply_answer(&mut f, None);
    apply_answer(&mut f, Some("no line"));
    assert_eq!(f.line, None);
    apply_answer(&mut f, Some("{\"line\": 3}"));
    assert_eq!(f.line, Some(3));
    apply_line(&mut f, Some(4));
    assert_eq!(f.line, Some(4));
}

#[test]
fn parse_indices_empty_array() {
    assert_eq!(parse_indices("[]"), Vec::<usize>::new());
}

#[test]
fn parse_indices_single() {
    assert_eq!(parse_indices("[0]"), vec![0]);
}

#[test]
fn parse_indices_multiple() {
    assert_eq!(parse_indices("[0, 2, 5]"), vec![0, 2, 5]);
}

#[test]
fn parse_indices_with_markdown_fences() {
    assert_eq!(parse_indices("```json\n[1, 3]\n```"), vec![1, 3]);
}

#[test]
fn parse_indices_with_extra_text() {
    assert_eq!(
        parse_indices("The incorrect findings are:\n[0]\nPlease fix them."),
        vec![0]
    );
}

#[test]
fn parse_indices_empty_review_returns_empty() {
    assert!(remove_findings(vec![], &vec![0]).is_empty());
    assert!(matches!(filter_prompt(&vec![], "diff"), Ok(None)));
}

#[test]
fn named_findings_are_removed() {
    let findings = vec![
        finding(Some("a"), None, None),
        finding(Some("b"), None, None),
        finding(Some("c"), None, None),
    ];
    let prompt = filter_prompt(&findings, "the diff")
        .unwrap_or(None)
        .unwrap_or_default();
    assert!(prompt.starts_with("Diff:\n```\nthe diff\n```\n\nFindings:\n[\n  {\n"));
    assert!(prompt.contains("\"category\": \"other\""));
    assert!(prompt.ends_with(
        "\n]\n\nReturn a JSON array of indices to remove (e.g. [0, 3]) or [] if all are correct."
    ));
    let kept = remove_findings(findings, &vec![2, 0, 9]);
    assert_eq!(kept.len(), 1);
    assert_eq!(kept[0].file.as_deref(), Some("b"));
    assert_eq!(parse_indices("[0, 1.5, -2]"), vec![0]);
    assert_eq!(parse_indices("I removed 2 findings: [0, 1]"), vec![0, 1]);
    assert_eq!(parse_indices("[0] and [3], of 7"), vec![0, 3]);
    assert_eq!(parse_indices("[0, 3"), vec![0, 3]);
    assert_eq!(parse_indices("All 5 but [2] and [4, 1"), vec![2, 4, 1]);
    assert_eq!(parse_indices("None of the 4 are wrong."), Vec::<usize>::new());
    let two = || vec![finding(Some("a"), None, None), finding(Some("b"), None, None)];
    let left = filter_findings(two(), Ok(None)).unwrap_or_default();
    assert_eq!(left.len(), 2);
    let left = filter_findings(two(), Ok(Some("[0]".into()))).unwrap_or_default();
    assert_eq!(left.len(), 1);
    assert_eq!(left[0].file.as_deref(), Some("b"));
    match filter_findings(two(), Err(AgentError::Timeout(9))) {
        Err(e) => assert_eq!(e.message(), "Operation timed out after 9s"),
        Ok(_) => panic!("there was no answer"),
    }
}
