use review_agent::services::json_extractor::{extract_json_block, JsonExtractor};

#[test]
fn test_empty_text() {
    let result = JsonExtractor::extract("");
    assert!(result.findings.is_empty());
    assert_eq!(result.review_text, "");
}

#[test]
fn test_no_json() {
    let result = JsonExtractor::extract("## Review\n\nLooks good.");
    assert!(result.findings.is_empty());
    assert_eq!(result.review_text, "## Review\n\nLooks good.");
}

#[test]
fn test_json_code_fence() {
    let input = r#"```json
[
  {"severity": "high", "category": "logic_error", "message": "Off by one"}
]
```
## Review
Stuff
"#;
    let result = JsonExtractor::extract(input);
    assert_eq!(result.findings.len(), 1);
    assert_eq!(result.findings[0].severity, "high");
    assert_eq!(result.findings[0].category, "logic_error");
    assert!(result.review_text.contains("## Review"));
    assert!(result.review_text.contains("Stuff"));
}

#[test]
fn test_fence_without_lang() {
    let input = r#"```
[{"severity":"medium","category":"performance","message":"N+1 query"}]
```
"#;
    let result = JsonExtractor::extract(input);
    assert_eq!(result.findings.len(), 1);
    assert_eq!(result.findings[0].severity, "medium");
}

#[test]
fn test_bare_json_array() {
    let input = r#"## Review
[{"severity":"low","category":"best_practice","message":"Use const"}]
Looking good.
"#;
    let result = JsonExtractor::extract(input);
    assert_eq!(result.findings.len(), 1);
    assert_eq!(result.findings[0].severity, "low");
}

#[test]
fn test_multiple_findings() {
    let input = r#"```json
[
  {"severity":"high","category":"security","message":"SQL injection"},
  {"severity":"medium","category":"performance","message":"N+1"},
  {"severity":"low","category":"best_practice","message":"Use .env"}
]
```"#;
    let result = JsonExtractor::extract(input);
    assert_eq!(result.findings.len(), 3);
}

#[test]
fn test_invalid_severity_dropped() {
    let input = r#"```json
[
  {"severity":"critical","category":"security","message":"Bad"},
  {"severity":"high","category":"logic_error","message":"Good"}
]
```"#;
    let result = JsonExtractor::extract(input);
    assert_eq!(result.findings.len(), 1);
    assert_eq!(result.findings[0].severity, "high");
    assert_eq!(result.dropped_count, 1);
}

#[test]
fn test_invalid_category_dropped() {
    let input = r#"```json
[
  {"severity":"high","category":"unknown_cat","message":"Bad"},
  {"severity":"info","category":"documentation","message":"Good"}
]
```"#;
    let result = JsonExtractor::extract(input);
    assert_eq!(result.findings.len(), 1);
    assert_eq!(result.findings[0].category, "documentation");
}

#[test]
fn test_empty_message_dropped() {
    let input = r#"```json
[
  {"severity":"high","category":"security","message":""},
  {"severity":"high","category":"security","message":"  "},
  {"severity":"high","category":"security","message":"Valid"}
]
```"#;
    let result = JsonExtractor::extract(input);
    assert_eq!(result.findings.len(), 1);
    assert_eq!(result.findings[0].message, "Valid");
}

#[test]
fn test_missing_fields_dropped() {
    let input = r#"```json
[
  {"severity":"high","message":"No category"},
  {"message":"No severity"},
  {"severity":"high","category":"security","message":"Valid"}
]
```"#;
    let result = JsonExtractor::extract(input);
    assert_eq!(result.findings.len(), 1);
    assert_eq!(result.dropped_count, 2);
}

#[test]
fn test_finding_with_optional_fields() {
    let input = r#"```json
[
  {"severity":"high","category":"security","message":"XSS","file":"src/app.ts","line":42,"suggestion":"Use escape"}
]
```"#;
    let result = JsonExtractor::extract(input);
    assert_eq!(result.findings.len(), 1);
    let f = &result.findings[0];
    assert_eq!(f.file.as_deref(), Some("src/app.ts"));
    assert_eq!(f.line, Some(42));
    assert_eq!(f.suggestion.as_deref(), Some("Use escape"));
}

#[test]
fn test_truncated_json_handled() {
    let input = r#"[{"severity":"high","category":"security","message":"XSS"}"#;
    let result = JsonExtractor::extract(input);
    assert!(result.findings.is_empty());
}

#[test]
fn test_not_json_at_start() {
    let input = r#"## Summary
Some text.
```json
[{"severity":"low","category":"other","message":"Note"}]
```"#;
    let result = JsonExtractor::extract(input);
    assert_eq!(result.findings.len(), 1);
    assert!(result.review_text.contains("## Summary"));
    assert!(result.review_text.contains("Some text."));
}

#[test]
fn test_valid_severity_set() {
    for sev in ["high", "medium", "low", "info"] {
        let input = format!(
            r#"```json
[{{"severity":"{}","category":"security","message":"Test"}}]
```"#,
            sev
        );
        let result = JsonExtractor::extract(&input);
        assert_eq!(result.findings.len(), 1, "Severity '{}' should be valid", sev);
        assert_eq!(result.findings[0].severity, *sev);
    }
}

#[test]
fn test_valid_category_set() {
    for cat in [
        "logic_error",
        "security",
        "api_misuse",
        "performance",
        "missing_edge_case",
        "best_practice",
        "style",
        "documentation",
        "other",
    ] {
        let input = format!(
            r#"```json
[{{"severity":"low","category":"{}","message":"Test"}}]
```"#,
            cat
        );
        let result = JsonExtractor::extract(&input);
        assert_eq!(result.findings.len(), 1, "Category '{}' should be valid", cat);
        assert_eq!(result.findings[0].category, *cat);
    }
}

#[test]
fn line_numbers_must_be_whole() {
    let input = r#"[{"severity":"low","category":"other","message":"a","line":-1},
        {"severity":"low","category":"other","message":"b","line":1.5},
        {"severity":"low","category":"other","message":"c","line":7}]"#;
    let result = JsonExtractor::extract(input);
    assert_eq!(result.findings.len(), 3);
    assert_eq!(result.findings[0].line, None);
    assert_eq!(result.findings[1].line, None);
    assert_eq!(result.findings[2].line, Some(7));
    assert_eq!(result.dropped_count, 0);
}

#[test]
fn wide_characters_do_no_harm() {
    let input = "世界 [1, 世] text ] more";
    let result = JsonExtractor::extract(input);
    assert!(result.findings.is_empty());
    let input = "é [{\"severity\":\"low\",\"category\":\"other\",\"message\":\"世界\"}] ü";
    let result = JsonExtractor::extract(input);
    assert_eq!(result.findings.len(), 1);
    assert_eq!(result.findings[0].message, "世界");
}

#[test]
fn code_that_is_not_json_stays() {
    let text = "## Review\n```rust\nlet x;\n```\nDone";
    let (block, rest) = extract_json_block(text);
    assert!(block.is_none());
    assert_eq!(rest, text);
    let unmarked = "```\n[{\n```\nDone";
    let result = JsonExtractor::extract(unmarked);
    assert!(result.findings.is_empty());
    assert_eq!(result.review_text, unmarked);
    // What is marked as JSON goes, whether or not it can be read.
    let result = JsonExtractor::extract("```json\n[{\n```\nDone");
    assert!(result.findings.is_empty());
    assert_eq!(result.review_text, "Done");
    assert_eq!(result.dropped_count, 0);
    let (block, rest) = extract_json_block("a\n```\n[1]\n```\nb");
    assert!(block.is_some());
    assert_eq!(rest, "a\nb");
}
