use review_agent::diff::{DiffFile, DiffStatus, Hunk};
use review_agent::glob::{glob_match_basic, try_glob_match};
use review_agent::services::file_reader::FileContent;
use review_agent::services::prompt_builder::{
    format_file_context, may_load_prompt, PromptBuilder, PromptContext, PromptFiles, RuleEntry,
    RuleFiles, RuleIndex,
};

fn prompts() -> PromptFiles {
    PromptFiles {
        domain_system: None,
        code_system: None,
        default_system: "Review code.\n{system_rule}".into(),
        domain_user: None,
        code_user: None,
        default_user: "{pr_metadata}\n\n{total_files} file(s):\n{file_list}\n{extra_instructions}{content_format}".into(),
    }
}

fn no_rules() -> RuleFiles {
    RuleFiles {
        index: None,
        texts: vec![],
    }
}

fn new_builder(domain: &str) -> PromptBuilder {
    PromptBuilder::new(domain, prompts(), no_rules(), no_rules())
}

fn make_file(name: &str, status: DiffStatus) -> DiffFile {
    DiffFile {
        filename: name.to_string(),
        old_filename: None,
        status,
        hunks: vec![Hunk {
            header: "@@ -1 +1 @@".into(),
            lines: vec![],
        }],
        additions: 5,
        deletions: 3,
        mode_change: None,
    }
}

fn context<'a>(owner: &'a str, hint: Option<&'a str>) -> PromptContext<'a> {
    PromptContext {
        title: "T",
        description: "D",
        owner,
        repo: "r",
        author: "me",
        branch: "feat",
        base: "main",
        language_hint: hint,
    }
}

#[test]
fn detect_primary_language_finds_most_common() {
    let builder = new_builder("code");
    let files = vec![
        make_file("a.rs", DiffStatus::Modified),
        make_file("b.py", DiffStatus::Added),
        make_file("c.rs", DiffStatus::Modified),
        make_file("d.js", DiffStatus::Added),
    ];
    let result = builder.detect_primary_language(&files);
    assert_eq!(result, "Rust");
}

#[test]
fn detect_primary_language_empty_returns_unknown() {
    let builder = new_builder("code");
    assert_eq!(builder.detect_primary_language(&vec![]), "Unknown");
}

#[test]
fn detect_primary_language_tie_returns_first_max() {
    let builder = new_builder("code");
    let files = vec![
        make_file("a.rs", DiffStatus::Modified),
        make_file("b.py", DiffStatus::Modified),
    ];
    let result = builder.detect_primary_language(&files);
    assert!(result == "Rust" || result == "Python", "got {result}");
}

#[test]
fn format_file_list_basic() {
    let builder = new_builder("code");
    let files = vec![
        make_file("src/main.rs", DiffStatus::Modified),
        make_file("src/lib.rs", DiffStatus::Added),
    ];
    let result = builder.format_file_list(&files);
    assert!(result.contains("src/main.rs"));
    assert!(result.contains("src/lib.rs"));
    assert!(result.contains("+5"));
    assert!(result.contains("−3"));
    assert!(result.contains("modified"));
    assert!(result.contains("added"));
}

#[test]
fn format_file_list_empty() {
    let builder = new_builder("code");
    assert_eq!(builder.format_file_list(&vec![]), "- (no reviewable files)");
}

#[test]
fn glob_match_extension() {
    assert!(glob_match_basic("**/*.rs", "src/main.rs"));
    assert!(glob_match_basic("**/*.rs", "main.rs"));
    assert!(!glob_match_basic("**/*.rs", "main.py"));
    assert!(!glob_match_basic("**/*.rs", "rs"));
}

#[test]
fn glob_match_basename() {
    assert!(glob_match_basic("**/Dockerfile", "Dockerfile"));
    assert!(glob_match_basic("**/Dockerfile", "path/to/Dockerfile"));
    assert!(!glob_match_basic("**/Dockerfile", "Dockerfile.prod"));
}

#[test]
fn glob_match_brace_expansion() {
    assert!(glob_match_basic("**/*.{ts,tsx,js,jsx}", "app.ts"));
    assert!(glob_match_basic("**/*.{ts,tsx,js,jsx}", "app.tsx"));
    assert!(glob_match_basic("**/*.{ts,tsx,js,jsx}", "app.js"));
    assert!(glob_match_basic("**/*.{ts,tsx,js,jsx}", "app.jsx"));
    assert!(!glob_match_basic("**/*.{ts,tsx,js,jsx}", "app.py"));
    assert!(glob_match_basic("**/*.{c,h}", "file.c"));
    assert!(glob_match_basic("**/*.{c,h}", "file.h"));
}

#[test]
fn glob_match_case_insensitive() {
    assert!(glob_match_basic("**/*.rs", "Main.Rs"));
    assert!(glob_match_basic("**/*.Rs", "main.rs"));
}

#[test]
fn is_safe_rule_path_accepts_md() {
    assert!(PromptBuilder::is_safe_rule_path("rust.md"));
    assert!(PromptBuilder::is_safe_rule_path("security.txt"));
    assert!(PromptBuilder::is_safe_rule_path("rules.markdown"));
}

#[test]
fn is_safe_rule_path_rejects_traversal() {
    assert!(!PromptBuilder::is_safe_rule_path("../etc/passwd"));
    assert!(!PromptBuilder::is_safe_rule_path("subdir/../file.md"));
    assert!(!PromptBuilder::is_safe_rule_path("/absolute/path.md"));
}

#[test]
fn is_safe_rule_path_rejects_bad_ext() {
    assert!(!PromptBuilder::is_safe_rule_path("rules.json"));
    assert!(!PromptBuilder::is_safe_rule_path("script.sh"));
    assert!(!PromptBuilder::is_safe_rule_path("rust.md.exe"));
}

#[test]
fn rule_index_deserializes_from_array() {
    let json = r#"[
        {"pattern": "**/*.rs", "files": ["rust.md"]},
        {"pattern": "**/*.py", "files": ["python.md"]}
    ]"#;
    let index = PromptBuilder::load_rule_index(json)
        .unwrap_or_else(|| panic!("RuleIndex deserialization failed"));
    assert_eq!(index.rules.len(), 2);
    assert_eq!(index.rules[0].pattern, "**/*.rs");
    assert_eq!(index.rules[1].files[0], "python.md");
}

#[test]
fn rule_index_empty_array_is_valid() {
    let json = r#"[]"#;
    let index = PromptBuilder::load_rule_index(json)
        .unwrap_or_else(|| panic!("Empty RuleIndex should deserialize"));
    assert!(index.rules.is_empty());
}

#[test]
fn broken_rule_indexes_are_refused() {
    assert!(PromptBuilder::load_rule_index("{").is_none());
    assert!(PromptBuilder::load_rule_index("{}").is_none());
    assert!(PromptBuilder::load_rule_index(r#"[{"pattern": "x"}]"#).is_none());
    assert!(PromptBuilder::load_rule_index(r#"[{"pattern": 1, "files": []}]"#).is_none());
    // A member of an entry that stands there twice.
    for twice in [
        r#"[{"pattern": "a", "pattern": "b", "files": []}]"#,
        r#"[{"pattern": "a", "files": ["x"]}, {"files": [], "pattern": "a", "fil\u0065s": []}]"#,
    ] {
        assert!(PromptBuilder::load_rule_index(twice).is_none());
    }
    // One that is not read, and one within another, may.
    for once in [
        r#"[{"note": "pattern", "note": {"files": 1, "files": 2}, "pattern": "a", "files": []}]"#,
        r#"[{"pattern": "\": \"pattern\":", "files": ["files", "files"]}]"#,
        r#"[{"pattern": "a", "files": []}, {"pattern": "a", "files": []}]"#,
    ] {
        assert!(PromptBuilder::load_rule_index(once).is_some());
    }
}

#[test]
fn more_patterns() {
    assert_eq!(try_glob_match("**/*.{Rs, Py}", "A.PY"), Some(true));
    assert_eq!(try_glob_match("Makefile", "x/MAKEFILE"), Some(true));
    assert_eq!(try_glob_match("src/*.rs", "src/a.rs"), Some(false));
    assert!(glob_match_basic("src/**/*.rs", "src/engine/mod.rs"));
    assert!(glob_match_basic("src/**/*.rs", "src/main.rs"));
    assert!(!glob_match_basic("src/**/*.rs", "tests/main.rs"));
    assert!(!glob_match_basic("src/**/*.rs", "src/main.py"));
    assert!(glob_match_basic("{src,lib}/**/*.{rs,py}", "lib/a/b.py"));
    assert!(glob_match_basic(".github/**/Makefile", ".github/x/makefile"));
    assert!(!glob_match_basic(".github/**/*.yml", "a.yml"));
    // A dot at the front makes an ending of the rest, stars and all.
    assert_eq!(try_glob_match(".git*", "src/main.rs"), Some(false));
    assert_eq!(try_glob_match(".*rc", "src/main.rs"), Some(false));
    // Alternatives beyond ASCII.
    assert!(glob_match_basic("**/*.{ÄÖ,é}", "a.äö"));
    assert!(glob_match_basic("**/*.{ÄÖ,é}", "a.É"));
    assert!(!glob_match_basic("**/*.{ÄÖ,é}", "a.ä"));
    // Each group of alternatives is tried in turn.
    assert_eq!(try_glob_match("*.{a,b}.{c,d}", "x.b.c"), Some(true));
    // A group that closes before it opens has no meaning.
    assert_eq!(try_glob_match("}{", "x"), None);
    // Case matters nowhere.
    assert_eq!(
        try_glob_match("**/DOCKERFILE", "A/b/./dockerfile/"),
        try_glob_match("**/dockerfile", "a/B/./DockerFile/")
    );
    // Letters beyond ASCII.
    assert_eq!(try_glob_match("*.É", "x.é"), Some(true));
}

#[test]
fn rule_paths_must_be_plain_names() {
    assert!(PromptBuilder::is_safe_rule_path("A.MD"));
    assert!(!PromptBuilder::is_safe_rule_path("a/b.md"));
    assert!(!PromptBuilder::is_safe_rule_path(""));
    assert!(!PromptBuilder::is_safe_rule_path(".md"));
    assert!(!PromptBuilder::is_safe_rule_path("md"));
    assert!(!PromptBuilder::is_safe_rule_path("a..md"));
}

#[test]
fn domains_name_directories() {
    assert!(may_load_prompt("code"));
    assert!(may_load_prompt("my-domain_2"));
    assert!(may_load_prompt("é"));
    assert!(!may_load_prompt(""));
    assert!(!may_load_prompt("a/b"));
    assert!(!may_load_prompt(".."));
    assert!(!may_load_prompt("a\\b"));
}

#[test]
fn prompts_fall_back() {
    let mut p = prompts();
    p.code_system = Some("code system".into());
    p.domain_user = Some("domain user".into());
    let b = PromptBuilder::new("policy", p, no_rules(), no_rules());
    assert_eq!(b.domain, "policy");
    assert_eq!(b.system_prompt, "code system");
    assert_eq!(b.user_template, "domain user");
    let b = new_builder("policy");
    assert_eq!(b.system_prompt, "Review code.\n{system_rule}");
    // A domain that names no directory has no files of its own.
    let mut p = prompts();
    p.domain_system = Some("from elsewhere".into());
    let b = PromptBuilder::new("../x", p, no_rules(), no_rules());
    assert_eq!(b.system_prompt, "Review code.\n{system_rule}");
}

fn entry(pattern: &str, files: &[&str]) -> RuleEntry {
    RuleEntry {
        pattern: pattern.into(),
        files: files.iter().map(|f| f.to_string()).collect(),
    }
}

fn rules(entries: Vec<RuleEntry>, texts: &[(&str, &str)]) -> RuleFiles {
    RuleFiles {
        index: Some(RuleIndex { rules: entries }),
        texts: texts
            .iter()
            .map(|(n, t)| (n.to_string(), t.to_string()))
            .collect(),
    }
}

#[test]
fn project_rules_come_after_the_built_in_ones() {
    let builtin = rules(vec![entry("**/*.rs", &["rust.md"])], &[("rust.md", "No unwrap.")]);
    let project = rules(
        vec![entry("**/*.rs", &["rust.md", "team.txt", "../x.md"])],
        &[("rust.md", "Other."), ("team.txt", "Be kind."), ("../x.md", "Bad.")],
    );
    let b = PromptBuilder::new("code", prompts(), builtin, project);
    let files = vec![make_file("a.rs", DiffStatus::Modified)];
    let resolved = b.try_resolve_rules(&files).unwrap_or_else(|| panic!("patterns are sound"));
    assert_eq!(
        resolved.text,
        "### rust\n\nNo unwrap.\n### team.txt\n\nBe kind.\n"
    );
    assert_eq!(resolved.count, 3);
    assert_eq!(
        b.system_prompt(&resolved.text),
        format!("Review code.\n{}", resolved.text)
    );
    assert!(b.system_prompt_tokens(&resolved.text) > b.system_prompt_tokens(""));
    let none = b
        .try_resolve_rules(&vec![make_file("a.py", DiffStatus::Added)])
        .unwrap_or_else(|| panic!("patterns are sound"));
    assert_eq!((none.text.as_str(), none.count), ("", 0));
}

#[test]
fn rules_stop_at_their_budget() {
    let long = "word ".repeat(3000);
    let builtin = rules(
        vec![entry("**/*.rs", &["a.md", "long.md", "b.md"])],
        &[("a.md", "A."), ("long.md", &long), ("b.md", "B.")],
    );
    let b = PromptBuilder::new("code", prompts(), builtin, no_rules());
    let resolved = b.resolve_rules(&vec![make_file("x.rs", DiffStatus::Added)]);
    assert_eq!(resolved.text, "### a\n\nA.\n");
    assert_eq!(resolved.count, 3);
}

#[test]
fn user_prompts_are_filled_in() {
    let b = new_builder("code");
    let files = vec![make_file("src/main.rs", DiffStatus::Renamed)];
    let prompt = b.user_prompt(&context("o", None), &files, "Be strict.");
    assert!(prompt.starts_with(
        "## PR: T\n\n**Repository:** o/r\n**Author:** me\n**Branch:** feat → main\n**Language:** Rust\n**Description:** D\n\n1 file(s):\n- `src/main.rs` (renamed — +5 −3)\n"
    ));
    assert!(prompt.contains("### Additional Instructions\n\nBe strict.\n### Diff\n\n```\n"));
    assert!(prompt.ends_with("```"));
}

#[test]
fn files_are_shown_with_their_fences_escaped() {
    let files = vec![FileContent {
        path: "a.md".into(),
        content: "x ``` y".into(),
        language: "Markdown".into(),
        line_count: 1,
    }];
    assert_eq!(
        format_file_context(&files),
        "### File: a.md (Markdown)\n\n```markdown\nx \\`\\`\\` y\n```\n\n"
    );
    let b = new_builder("code");
    assert_eq!(
        b.format_file_list_from_files(&files),
        "- `a.md` (Markdown — 1 lines)\n"
    );
    assert_eq!(b.format_file_list_from_files(&vec![]), "- (no files)");
    let prompt = b.user_prompt_for_files(&context("", None), &files, "");
    // Without an owner there is no pull request to tell of.
    assert_eq!(b.pr_metadata_section(&context("", None), "Markdown"), "");
    assert!(prompt.starts_with("\n\n1 file(s):\n"));
    assert!(prompt.contains("### File Contents\n\n### File: a.md"));
}

#[test]
fn language_hints_are_a_last_resort() {
    let b = new_builder("code");
    let unknown = vec![make_file("x.zzz", DiffStatus::Added)];
    assert_eq!(b.detect_language(&context("", Some("Zig")), &unknown), "Zig");
    assert_eq!(b.detect_language(&context("", None), &unknown), "Unknown");
    let known = vec![make_file("x.rs", DiffStatus::Added)];
    assert_eq!(b.detect_language(&context("", Some("Zig")), &known), "Rust");
    let mut by_language = new_builder("code");
    by_language.user_template = "{language}".into();
    let content = |language: &str| {
        vec![FileContent {
            path: "a".into(),
            content: "".into(),
            language: language.into(),
            line_count: 0,
        }]
    };
    let ctx = context("", Some("Go"));
    assert_eq!(by_language.user_prompt_for_files(&ctx, &content("Rust"), ""), "Rust");
    assert_eq!(by_language.user_prompt_for_files(&ctx, &content("Unknown"), ""), "Go");
    let policy = new_builder("policy");
    assert_eq!(policy.detect_language(&context("", Some("Zig")), &known), "");
}
