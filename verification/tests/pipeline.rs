use review_agent::ai::{self, ChatOutput, Usage};
use review_agent::config::Settings;
use review_agent::diff::DiffStatus;
use review_agent::diff_parser::parse_diff;
use review_agent::engine::{
    build_file_prompt, merge_instructions, resolve, AnswerStep, Fetch, Fetched, PostStep,
    ResolvedSource, ReviewEngine, ReviewOptions, ReviewRequest, ReviewSource, REPAIR_TOKENS,
};
use review_agent::error::AgentError;
use review_agent::github::{self, PullRequest};
use review_agent::retry::{retry_step, RetryStep, Service};
use review_agent::review::{Action, Event, Stage};
use review_agent::sensitive::Sensitive;
use review_agent::services::diff_service::is_skippable;
use review_agent::services::file_reader::{read_glob, FileContent, FileProblem, GlobEntry, GlobProblem};
use review_agent::services::prompt_builder::{
    PromptBuilder, PromptFiles, RuleEntry, RuleFiles, RuleIndex,
};
use review_agent::services::sanitize::sanitize_output;
use review_agent::tools::review::{
    is_safe_summary_path, md_escape, review_output, review_request, step_summary, ReviewOutput,
};

fn test_settings() -> Settings {
    let mut s = Settings::default();
    s.github.token = Sensitive::new("ghp_test_token".into());
    s.github.base_url = "http://127.0.0.1:1".into();
    s.github.request_timeout_secs = 5;
    s.ai.api_key = Sensitive::new("sk-test-key".into());
    s.ai.api_base = "http://127.0.0.1:2".into();
    s.ai.request_timeout_secs = 5;
    s.review.max_input_tokens = 16_000;
    s.review.max_diff_files = 50;
    s
}

fn builder() -> PromptBuilder {
    let prompts = PromptFiles {
        domain_system: None,
        code_system: None,
        default_system: "You review code.\n{system_rule}".into(),
        domain_user: None,
        code_user: None,
        default_user: "{pr_metadata}\n{file_list}\n{extra_instructions}{content_format}".into(),
    };
    let none = || RuleFiles {
        index: None,
        texts: vec![],
    };
    PromptBuilder::new("code", prompts, none(), none())
}

fn sample_pr() -> PullRequest {
    PullRequest {
        number: 42,
        title: "Add user authentication".into(),
        body: Some("Implements JWT-based login flow".into()),
        author: Some("contributor".into()),
        head_ref: "feat-auth".into(),
        base_ref: "main".into(),
    }
}

fn answer(content: &str, tokens: u32) -> ChatOutput {
    ChatOutput {
        content: content.into(),
        usage: Some(Usage {
            prompt_tokens: Some(150),
            completion_tokens: Some(tokens),
            total_tokens: Some(150 + tokens),
        }),
        finish_reason: Some("stop".into()),
        tool_calls: vec![],
    }
}

fn sample_diff() -> String {
    [
        "diff --git a/src/auth.rs b/src/auth.rs\n",
        "--- a/src/auth.rs\n",
        "+++ b/src/auth.rs\n",
        "@@ -1,3 +1,4 @@\n",
        " pub fn old_func() {\n",
        "-    let x = 1;\n",
        "+    let x = 2;\n",
        "+    println!(\"{}\", x);\n",
        " }\n",
        "\n",
        "diff --git a/src/lib.rs b/src/lib.rs\n",
        "--- a/src/lib.rs\n",
        "+++ b/src/lib.rs\n",
        "@@ -1,1 +1,2 @@\n",
        "-pub fn old_helper() {}\n",
        "+pub mod auth;\n",
        "+pub fn new_helper() {}\n",
    ]
    .concat()
}

/// Goes on with a review.
fn step(engine: &ReviewEngine, stage: Stage, event: Event) -> (Stage, Action) {
    assert!(stage.may_take(&event), "the event is awaited");
    engine.advance(stage, event, 7)
}

/// Brings the review of a pull request to where the model was asked.
fn ask(engine: &ReviewEngine, request: ReviewRequest, diff: &str) -> (Stage, Action) {
    let (stage, action) = engine.begin(request);
    assert!(matches!(action, Action::Fetch(Fetch::PullRequest { .. })));
    let fetched = Fetched::PullRequest {
        pr: sample_pr(),
        diff: diff.to_string(),
    };
    let (stage, action) = step(engine, stage, Event::Fetched(Ok(fetched)));
    match action {
        Action::Load(domain) => assert_eq!(domain, "code"),
        _ => panic!("the prompts are loaded"),
    }
    step(engine, stage, Event::Loaded(builder(), 4))
}

/// Runs the review of a pull request on the given diff and answer.
fn run(settings: &Settings, number: u64, diff: &str, out: ChatOutput) -> ReviewOutput {
    let engine = ReviewEngine::new(settings).unwrap_or_else(|_| panic!("valid settings"));
    let (stage, action) = ask(&engine, review_request("owner", "repo", number), diff);
    assert!(matches!(action, Action::Ask(_)));
    let (stage, action) = step(&engine, stage, Event::Answered(Ok(out)));
    let posted = match action {
        Action::Post { owner, repo, number: n, body, update } => {
            assert_eq!((owner.as_str(), repo.as_str(), n), ("owner", "repo", number));
            assert!(!update);
            body
        }
        _ => panic!("the review is posted"),
    };
    let (stage, action) = step(&engine, stage, Event::Posted(Ok(())));
    assert!(matches!(stage, Stage::Over));
    let result = match action {
        Action::Finish(result) => result,
        _ => panic!("the review is made"),
    };
    assert_eq!(result.review_text, posted);
    let s = &result.stats;
    assert_eq!(
        s.files_changed,
        s.files_reviewed + s.files_skipped + s.files_path_filtered + s.files_budget_dropped
    );
    review_output(&result, number, 7)
}

#[test]
fn full_pipeline_happy_path() {
    let output = run(
        &test_settings(),
        42,
        &sample_diff(),
        answer(
            "## 🔍 Review Summary\n\nFound a hardcoded credential in `src/auth.rs`.",
            25,
        ),
    );
    assert_eq!(output.pr_number, 42);
    assert_eq!(output.pr_title, "Add user authentication");
    assert_eq!(output.files_changed, 2);
    assert!(output.files_reviewed > 0);
    assert_eq!(output.files_skipped, 0);
    assert!(output.input_tokens_estimated > 0);
    assert_eq!(output.output_tokens_reported, Some(25));
    assert!(output.latency_ms > 0);
    assert_eq!(
        output.total_tokens_used,
        Some(output.input_tokens_estimated + 25)
    );
}

#[test]
fn empty_diff_returns_gracefully() {
    let output = run(&test_settings(), 1, "", answer("No changes to review.", 5));
    assert_eq!(output.pr_number, 1);
    assert_eq!(output.files_changed, 0);
    assert_eq!(output.files_reviewed, 0);
}

#[test]
fn file_skip_list_filters_lockfiles() {
    let mixed_diff = [
        "diff --git a/Cargo.lock b/Cargo.lock\n",
        "--- a/Cargo.lock\n",
        "+++ b/Cargo.lock\n",
        "@@ -1,1 +1,1 @@\n",
        "-package = \"old\"\n",
        "+package = \"new\"\n",
        "diff --git a/dist/bundle.min.js b/dist/bundle.min.js\n",
        "--- a/dist/bundle.min.js\n",
        "+++ b/dist/bundle.min.js\n",
        "@@ -1,1 +1,1 @@\n",
        "-var a=1;\n",
        "+var a=2;\n",
        "diff --git a/src/main.rs b/src/main.rs\n",
        "--- a/src/main.rs\n",
        "+++ b/src/main.rs\n",
        "@@ -1,1 +1,2 @@\n",
        " fn main() {\n",
        "+    println!(\"hello\");\n",
    ]
    .concat();
    let output = run(&test_settings(), 3, &mixed_diff, answer("## Review\n\nLGTM", 10));
    assert_eq!(output.files_changed, 3);
    assert_eq!(
        output.files_reviewed, 1,
        "Lockfile + minified file should be skipped"
    );
    assert_eq!(output.files_skipped, 2);
}

#[test]
fn binary_file_handling_keeps_metadata() {
    let binary_diff = [
        "diff --git a/image.png b/image.png\n",
        "new file mode 100644\n",
        "Binary files /dev/null and b/image.png differ",
    ]
    .concat();
    let output = run(
        &test_settings(),
        4,
        &binary_diff,
        answer("## Review\n\nBinary added.", 8),
    );
    // Binary files are kept (not dropped) — the file is visible but has no hunks
    assert_eq!(output.files_changed, 1);
    assert_eq!(
        output.files_reviewed, 1,
        "Binary file should be kept for context"
    );
    assert_eq!(output.files_skipped, 0);
}

#[test]
fn max_files_cap_trims_large_diffs() {
    let mut settings = test_settings();
    settings.review.max_diff_files = 3; // tiny cap for testing
    let mut diff = String::new();
    for i in 0..5 {
        diff.push_str(&format!("diff --git a/src/file{i}.rs b/src/file{i}.rs\n"));
        diff.push_str(&format!("--- a/src/file{i}.rs\n"));
        diff.push_str(&format!("+++ b/src/file{i}.rs\n"));
        diff.push_str("@@ -1,1 +1,2 @@\n");
        diff.push_str(" fn existing() {\n");
        diff.push_str(&format!("+    // change {i}\n"));
    }
    let output = run(
        &settings,
        5,
        &diff,
        answer("## Review\n\n5 files, reviewed 3.", 12),
    );
    assert_eq!(output.files_changed, 5);
    assert_eq!(output.files_reviewed, 3);
    assert_eq!(output.files_skipped, 2);
}

#[test]
fn token_budget_truncation_drops_largest_file() {
    let mut settings = test_settings();
    // Very tight budget — only one small file fits
    settings.review.max_input_tokens = 50;
    let mut diff = String::new();
    diff.push_str("diff --git a/small.rs b/small.rs\n");
    diff.push_str("--- a/small.rs\n");
    diff.push_str("+++ b/small.rs\n");
    diff.push_str("@@ -1,1 +1,2 @@\n");
    diff.push_str(" fn a() {\n");
    diff.push_str("+    let x = 1;\n");
    diff.push_str("diff --git a/huge.rs b/huge.rs\n");
    diff.push_str("--- a/huge.rs\n");
    diff.push_str("+++ b/huge.rs\n");
    diff.push_str("@@ -1,1 +1,101 @@\n");
    diff.push_str(" fn main() {\n");
    for i in 0..100 {
        diff.push_str(&format!("+    // line {i}\n"));
    }
    let output = run(&settings, 6, &diff, answer("## Review\n\nSmall review.", 8));
    assert_eq!(output.files_changed, 2);
    assert_eq!(
        output.files_reviewed, 1,
        "Only small.rs should fit within the 50-token budget"
    );
}

#[test]
fn ai_transient_retry_succeeds() {
    let error = ai::classify_error(503, "");
    assert!(matches!(
        retry_step(Service::Ai, error, &mut 0, Some(1000)),
        RetryStep::Wait(1000)
    ));
    let output = run(&test_settings(), 42, &sample_diff(), answer("## Review", 25));
    assert_eq!(output.pr_number, 42);
    assert!(output.output_tokens_reported.is_some());
}

#[test]
fn github_transient_retry_succeeds() {
    let error = github::classify_error(503, "", None);
    assert!(matches!(
        retry_step(Service::GitHub, error, &mut 0, Some(1000)),
        RetryStep::Wait(1000)
    ));
    let output = run(&test_settings(), 42, &sample_diff(), answer("## Review", 25));
    assert_eq!(output.pr_number, 42);
    assert!(output.input_tokens_estimated > 0);
}

#[test]
fn whatever_fails_ends_the_review() {
    let engine = ReviewEngine::new(&test_settings()).unwrap_or_else(|_| panic!("valid"));
    let error = || AgentError::Timeout(1);
    let failed = |step: (Stage, Action)| {
        assert!(matches!(step.0, Stage::Over));
        assert!(matches!(step.1, Action::Fail(AgentError::Timeout(1))));
    };
    let request = || review_request("o", "r", 1);
    let (stage, _) = engine.begin(request());
    assert!(!stage.may_take(&Event::Posted(Ok(()))));
    assert!(!stage.may_take(&Event::Fetched(Ok(Fetched::Nothing))));
    failed(step(&engine, stage, Event::Fetched(Err(error()))));
    let (stage, _) = ask(&engine, request(), &sample_diff());
    failed(step(&engine, stage, Event::Answered(Err(error()))));
    let (stage, _) = ask(&engine, request(), &sample_diff());
    let (stage, _) = step(&engine, stage, Event::Answered(Ok(answer("text", 1))));
    failed(step(&engine, stage, Event::Posted(Err(error()))));
}

#[test]
fn a_review_asks_three_times_at_most() {
    let engine = ReviewEngine::new(&test_settings()).unwrap_or_else(|_| panic!("valid"));
    let (stage, _) = ask(&engine, review_request("o", "r", 1), &sample_diff());
    let mut cut = answer("half", 4096);
    cut.finish_reason = Some("length".into());
    let (stage, action) = step(&engine, stage, Event::Answered(Ok(cut)));
    match action {
        Action::Ask(request) => assert_eq!(request.max_tokens, Some(2048)),
        _ => panic!("it is asked again"),
    }
    let mut malformed = answer(
        "[{\"severity\":\"low\",\"category\":\"other\",\"message\":\"a\"},{}] rest",
        60,
    );
    malformed.finish_reason = Some("length".into());
    let (stage, action) = step(&engine, stage, Event::Answered(Ok(malformed)));
    match action {
        Action::Ask(request) => {
            assert_eq!(request.max_tokens, Some(2000));
            assert!(request.messages[1]
                .content
                .as_deref()
                .unwrap_or("")
                .starts_with("Your previous JSON had 1 malformed finding(s)."));
        }
        _ => panic!("the findings are to be mended"),
    }
    // An attempt that fails changes nothing.
    let (_, action) = step(&engine, stage, Event::Answered(Err(AgentError::Timeout(1))));
    match action {
        Action::Post { body, .. } => assert_eq!(body, " rest"),
        _ => panic!("the review is posted"),
    }
}

#[test]
fn several_files_are_asked_about_one_by_one() {
    let engine = ReviewEngine::new(&test_settings()).unwrap_or_else(|_| panic!("valid"));
    let request = || ReviewRequest {
        source: ReviewSource::Glob {
            pattern: "*.rs".into(),
            domain: "code".into(),
        },
        options: ReviewOptions::default(),
    };
    let load = || {
        let (stage, action) = engine.begin(request());
        assert!(matches!(action, Action::Fetch(Fetch::Glob { .. })));
        let files = vec![file("a.rs", "a"), file("b.rs", "b")];
        step(&engine, stage, Event::Fetched(Ok(Fetched::Glob(Ok(files))))).0
    };
    let (stage, action) = step(&engine, load(), Event::Loaded(builder(), 1));
    match action {
        Action::AskAll(requests) => assert_eq!(requests.len(), 2),
        _ => panic!("each file is asked about"),
    }
    assert!(!stage.may_take(&Event::AnsweredAll(vec![None])));
    let event = Event::AnsweredAll(vec![None, Some(answer("b", 3))]);
    let (_, action) = step(&engine, stage, event);
    match action {
        Action::Finish(result) => {
            assert_eq!(result.review_text, "b");
            assert_eq!(result.pr_title.as_deref(), Some("glob: *.rs"));
        }
        _ => panic!("the review is made"),
    }
    // Without a permit all files are asked about together.
    let (_, action) = step(&engine, load(), Event::Loaded(builder(), 0));
    assert!(matches!(action, Action::Ask(_)));
}

#[test]
fn patterns_out_of_order_are_reported() {
    let engine = ReviewEngine::new(&test_settings()).unwrap_or_else(|_| panic!("valid"));
    let (stage, _) = engine.begin(review_request("o", "r", 1));
    let fetched = Fetched::PullRequest {
        pr: sample_pr(),
        diff: sample_diff(),
    };
    let (stage, _) = step(&engine, stage, Event::Fetched(Ok(fetched)));
    let mut pb = builder();
    pb.rule_index = Some(RuleIndex {
        rules: vec![RuleEntry {
            pattern: "}{".into(),
            files: vec![],
        }],
    });
    let (stage, action) = step(&engine, stage, Event::Loaded(pb, 4));
    assert!(matches!(stage, Stage::Over));
    assert!(matches!(action, Action::BadPattern));
}

#[test]
fn diffs_are_read_line_by_line() {
    let text = "diff --git a/old.rs b/new.rs\nsimilarity index 90%\nrename from old.rs\nrename to new.rs\n--- a/old.rs\n+++ b/new.rs\n@@ -10,2 +20,3 @@ fn f()\n a\n-b\n+c\n+d\n\\ No newline at end of file\ndiff --git a/gone b/gone\ndeleted file mode 100644\n--- a/gone\n+++ /dev/null\n@@ -1 +0,0 @@\n-x\n";
    let files = parse_diff(text);
    assert_eq!(files.len(), 2);
    assert_eq!(files[0].filename, "new.rs");
    assert_eq!(files[0].old_filename.as_deref(), Some("old.rs"));
    assert_eq!(files[0].status, DiffStatus::Renamed);
    assert_eq!((files[0].additions, files[0].deletions), (2, 1));
    let lines = &files[0].hunks[0].lines;
    assert_eq!(lines.len(), 4);
    assert_eq!((lines[0].old_lineno, lines[0].new_lineno), (Some(10), Some(20)));
    assert_eq!((lines[1].old_lineno, lines[1].new_lineno), (Some(11), None));
    assert_eq!((lines[3].old_lineno, lines[3].new_lineno), (None, Some(22)));
    assert_eq!(lines[3].content, "d");
    assert_eq!(files[1].filename, "gone");
    assert_eq!(files[1].status, DiffStatus::Deleted);
    assert!(parse_diff("no diff at all\n").is_empty());
}

#[test]
fn skipped_files() {
    for path in [
        "Cargo.lock",
        "web/yarn.lock",
        "package-lock.json",
        "a/CHANGELOG.md",
        "x.min.css",
        "api.pb.go",
        "vendor/a.rs",
        "a/node_modules/b.js",
    ] {
        assert!(is_skippable(path), "{path}");
    }
    for path in ["src/main.rs", "Cargo.toml", "min.js", "myvendor/a.rs"] {
        assert!(!is_skippable(path), "{path}");
    }
}

#[test]
fn answers_cut_off_are_asked_again_once() {
    let engine = ReviewEngine::new(&test_settings()).unwrap_or_else(|_| panic!("valid"));
    let mut out = answer("text", 4096);
    out.finish_reason = Some("length".into());
    assert!(matches!(engine.on_answer(&out, false), AnswerStep::AskAgain(2048)));
    assert!(matches!(engine.on_answer(&out, true), AnswerStep::Ready(_)));
    let mut short = answer("text", 49);
    short.finish_reason = Some("length".into());
    assert!(matches!(engine.on_answer(&short, false), AnswerStep::Ready(_)));
    short.usage = None;
    assert!(matches!(engine.on_answer(&short, false), AnswerStep::AskAgain(2048)));
    let mut settings = test_settings();
    settings.ai.max_completion_tokens = 600;
    let engine = ReviewEngine::new(&settings).unwrap_or_else(|_| panic!("valid"));
    assert!(matches!(engine.on_answer(&out, false), AnswerStep::AskAgain(512)));
}

#[test]
fn malformed_findings_are_repaired_once() {
    let engine = ReviewEngine::new(&test_settings()).unwrap_or_else(|_| panic!("valid"));
    let out = answer(
        "[{\"severity\":\"low\",\"category\":\"other\",\"message\":\"a\"},{\"severity\":\"x\"}] rest",
        60,
    );
    let broken = || match engine.on_answer(&out, false) {
        AnswerStep::Repair(draft, prompt) => (draft, prompt),
        _ => panic!("one finding is malformed"),
    };
    let (draft, prompt) = broken();
    assert_eq!(
        prompt,
        "Your previous JSON had 1 malformed finding(s). Fix and output ONLY the corrected JSON array. Errors were: invalid severity, invalid category, missing required fields ('severity', 'category', 'message'), or empty 'message'."
    );
    assert_eq!(REPAIR_TOKENS, 2000);
    let fixed = answer(
        "[{\"severity\":\"low\",\"category\":\"other\",\"message\":\"a\"},{\"severity\":\"high\",\"category\":\"style\",\"message\":\"b\"}]",
        30,
    );
    let after = ReviewEngine::on_repair(draft, Some(&fixed));
    assert_eq!(after.findings.len(), 2);
    assert_eq!(after.dropped_count, 0);
    assert_eq!(after.output_tokens, Some(60));
    let (draft, _) = broken();
    let after = ReviewEngine::on_repair(draft, Some(&answer("sorry", 1)));
    assert_eq!((after.findings.len(), after.dropped_count), (1, 1));
    assert_eq!(after.review_text, " rest");
    let (draft, _) = broken();
    assert_eq!(ReviewEngine::on_repair(draft, None).findings.len(), 1);
}

fn plain_source() -> ResolvedSource {
    ResolvedSource {
        pr_number: None,
        pr_title: Some("t".into()),
        description: None,
        raw_diff: String::new(),
        file_contents: None,
        owner: None,
        repo: None,
        author: None,
        branch: None,
        base: None,
        domain: "code".into(),
        language_hint: None,
    }
}

#[test]
fn reviews_are_posted_to_pull_requests_only() {
    let engine = ReviewEngine::new(&test_settings()).unwrap_or_else(|_| panic!("valid"));
    let mut options = ReviewOptions::default();
    let mut source = plain_source();
    assert_eq!(engine.post_step(&options, &source), PostStep::NotAPullRequest);
    source.owner = Some("o".into());
    source.repo = Some("r".into());
    assert_eq!(engine.post_step(&options, &source), PostStep::NoNumber);
    source.pr_number = Some(1);
    assert_eq!(engine.post_step(&options, &source), PostStep::Publish);
    options.sticky = true;
    assert_eq!(engine.post_step(&options, &source), PostStep::Update);
    options.post_to_github = false;
    assert_eq!(engine.post_step(&options, &source), PostStep::NotAsked);
    let mut settings = test_settings();
    settings.github.token = Sensitive::new(String::new());
    let engine = ReviewEngine::new(&settings).unwrap_or_else(|_| panic!("valid"));
    options.post_to_github = true;
    assert_eq!(engine.post_step(&options, &source), PostStep::NoToken);
    let pull = ReviewSource::PrUrl {
        owner: "o".into(),
        repo: "r".into(),
        number: 1,
    };
    match engine.fetch_step(&pull) {
        Err(AgentError::Config(m)) => assert_eq!(
            m,
            "GITHUB_TOKEN is required to review PRs — set via env var or config file"
        ),
        _ => panic!("there is no token"),
    }
}

#[test]
fn sources_are_resolved() {
    let file = || ReviewSource::File {
        path: "src/a.rs".into(),
        domain: "code".into(),
        language: None,
        description: Some("d".into()),
    };
    match resolve(file(), Fetched::File(Err(FileProblem::Binary("src/a.rs".into())))) {
        Err(e) => assert_eq!(
            e.message(),
            "Config error: Failed to read file 'src/a.rs': I/O error: src/a.rs: binary file not supported"
        ),
        Ok(_) => panic!("the file could not be read"),
    }
    let content = FileContent {
        path: "src/a.rs".into(),
        content: "x".into(),
        language: "Rust".into(),
        line_count: 1,
    };
    let r = resolve(file(), Fetched::File(Ok(content))).unwrap_or_else(|_| panic!("it was read"));
    assert_eq!(r.pr_title.as_deref(), Some("a.rs"));
    assert_eq!(r.file_contents.map(|f| f.len()), Some(1));
    let branch = ReviewSource::LocalBranch {
        repo_path: ".".into(),
        base_ref: "main".into(),
        head_ref: "HEAD".into(),
    };
    let r = resolve(branch, Fetched::Branches("diff".into())).unwrap_or_else(|_| panic!("ok"));
    assert_eq!(r.pr_title.as_deref(), Some("main..HEAD in ."));
    assert_eq!(r.raw_diff, "diff");
    let glob = ReviewSource::Glob {
        pattern: "*.rs".into(),
        domain: "code".into(),
    };
    let read = read_glob("*.rs", Err("x".into()));
    match resolve(glob, Fetched::Glob(read)) {
        Err(AgentError::Config(m)) => assert_eq!(
            m,
            "Failed to read glob '*.rs': I/O error: invalid glob pattern '*.rs': x"
        ),
        _ => panic!("the pattern is invalid"),
    }
}

#[test]
fn globs_leave_unreadable_files_out() {
    let entries = || {
        vec![
            GlobEntry::Read(file("b.rs", "b")),
            GlobEntry::Skipped(FileProblem::Binary("x.bin".into())),
            GlobEntry::Read(file("a.rs", "a")),
        ]
    };
    let files = read_glob("*", Ok(entries())).unwrap_or_else(|_| panic!("all were reached"));
    let paths: Vec<&str> = files.iter().map(|f| f.path.as_str()).collect();
    assert_eq!(paths, vec!["a.rs", "b.rs"]);
    let mut broken = entries();
    broken.push(GlobEntry::Failed("denied".into()));
    broken.push(GlobEntry::Failed("later".into()));
    match read_glob("*", Ok(broken)) {
        Err(problem) => {
            assert!(matches!(problem, GlobProblem::Entry(_)));
            assert_eq!(problem.message(), "glob error: denied");
        }
        Ok(_) => panic!("one path was not reached"),
    }
}

#[test]
fn instructions_are_joined() {
    assert_eq!(merge_instructions("", " a "), "a");
    assert_eq!(merge_instructions(" b ", ""), "b");
    assert_eq!(merge_instructions(" b ", " a "), "b\n\na");
    assert_eq!(merge_instructions("", ""), "");
}

fn file(path: &str, content: &str) -> FileContent {
    FileContent {
        path: path.into(),
        content: content.into(),
        language: "Rust".into(),
        line_count: 1,
    }
}

#[test]
fn paths_are_prefixes() {
    let pb = builder();
    let source = plain_source();
    let files = || vec![file("src/a.rs", "a"), file("doc/b.rs", "b"), file("src/c.rs", "c")];
    let paths = vec!["".to_string(), "src/".to_string()];
    let built = build_file_prompt(files(), &pb, &source.context(), "", &paths, 16_000, 10);
    assert_eq!((built.files_changed, built.files_reviewed), (3, 2));
    assert_eq!((built.files_path_filtered, built.files_budget_dropped), (1, 0));
    assert!(!built.user.contains("doc/b.rs"));
    let built = build_file_prompt(files(), &pb, &source.context(), "", &vec![], 0, 10);
    assert_eq!((built.files_reviewed, built.files_budget_dropped), (1, 2));
}

#[test]
fn many_files_are_reviewed_one_by_one() {
    let engine = ReviewEngine::new(&test_settings()).unwrap_or_else(|_| panic!("valid"));
    let mut source = plain_source();
    let files = vec![file("a.rs", "a"), file("b.rs", "b"), file("c.rs", "c")];
    source.file_contents = Some(vec![file("a.rs", "a"), file("b.rs", "b"), file("c.rs", "c")]);
    assert!(source.reviews_concurrently(1));
    assert!(!source.reviews_concurrently(0));
    let plan = ReviewEngine::plan_concurrent(&source, &files, &builder(), "", &vec![]);
    assert_eq!(plan.users.len(), 3);
    assert!(plan.users[1].contains("b.rs") && !plan.users[1].contains("a.rs"));
    let total = plan.input_total().unwrap();
    let answers = vec![
        Some(answer("first", 3)),
        None,
        Some(answer(
            "[{\"severity\":\"low\",\"category\":\"other\",\"message\":\"m\"}]third",
            4,
        )),
    ];
    let result = engine.merge_concurrent(&source, &plan, &answers, 9);
    assert_eq!(result.review_text, "first\n\n---\n\nthird");
    assert_eq!(result.findings.len(), 1);
    assert_eq!((result.stats.files_changed, result.stats.files_reviewed), (3, 2));
    assert_eq!(result.stats.files_skipped, 1);
    assert_eq!(result.stats.output_tokens_reported, Some(7));
    assert_eq!(
        result.stats.total_tokens_used,
        Some(plan.system_tokens + total + 7)
    );
    assert_eq!(result.stats.prompt_version, "code/1");
    // An answer that reports nothing adds nothing.
    let mut silent = answer("second", 0);
    silent.usage = None;
    let answers = vec![Some(answer("first", 10)), Some(silent), Some(answer("third", 20))];
    let result = engine.merge_concurrent(&source, &plan, &answers, 9);
    assert_eq!(result.stats.output_tokens_reported, Some(30));
    let result = engine.merge_concurrent(&source, &plan, &vec![None, None, None], 9);
    assert_eq!(result.stats.output_tokens_reported, None);
    assert_eq!(result.stats.total_tokens_used, None);
}

#[test]
fn files_outside_the_filter_are_not_asked_about() {
    let engine = ReviewEngine::new(&test_settings()).unwrap_or_else(|_| panic!("valid"));
    let source = plain_source();
    let files = vec![file("src/a.rs", "a"), file("docs/b.md", "b")];
    let paths = vec!["src/".to_string()];
    let plan = ReviewEngine::plan_concurrent(&source, &files, &builder(), "", &paths);
    assert_eq!(plan.users.len(), 1);
    assert!(plan.users[0].contains("src/a.rs") && !plan.users[0].contains("docs/b.md"));
    let result = engine.merge_concurrent(&source, &plan, &vec![Some(answer("a", 1))], 9);
    assert_eq!(result.stats.files_changed, 2);
    assert_eq!(result.stats.files_path_filtered, 1);
    assert_eq!(result.stats.files_reviewed, 1);
    assert_eq!(result.stats.files_skipped, 0);
}

#[test]
fn commands_and_escapes_are_taken_out() {
    assert_eq!(sanitize_output("plain text\n"), "plain text\n");
    assert_eq!(sanitize_output("a ::set-output name=x::b"), "a b");
    assert_eq!(sanitize_output("\u{1b}[31mred\u{1b}[0m"), "red");
    let fenced = "```\n::warning::x\n\u{1b}[1m\n```\n";
    assert_eq!(sanitize_output(fenced), fenced);
    assert_eq!(sanitize_output("std::vec::Vec"), "stdVec");
    // Nothing that is left makes a command of its own.
    assert_eq!(sanitize_output(":::a:::b::"), "");
    assert_eq!(sanitize_output("x \u{1b}"), "x ");
    assert_eq!(sanitize_output("::\u{1b}[0madd-mask::s"), "s");
    assert_eq!(sanitize_output("a::b"), "a::b");
}

#[test]
fn no_command_is_put_together_by_what_is_taken_out() {
    // The parts of a command around a block of findings.
    let text = "Fine.\n::er```json\n[]\n```ror::x\n";
    let engine = ReviewEngine::new(&test_settings()).unwrap_or_else(|_| panic!("valid"));
    let (stage, action) = ask(&engine, review_request("owner", "repo", 1), &sample_diff());
    assert!(matches!(action, Action::Ask(_)));
    let (_, action) = step(&engine, stage, Event::Answered(Ok(answer(text, 5))));
    match action {
        Action::Post { body, .. } => {
            assert!(body.contains("Fine."));
            assert!(!body.contains("::error::"));
        }
        _ => panic!("the review is posted"),
    }
    // The parts of a code fence around a command: what is left opens a block.
    let out = sanitize_output("``::a::`\n::b::c\n```\n::d::e\n");
    assert_eq!(out, "```\n::b::c\n```\ne\n");
    assert_eq!(sanitize_output(&out), out);
}

#[test]
fn open_code_blocks_end_by_themselves() {
    let line = "::debug::x\n";
    let text = format!("```\n{}", line.repeat(502));
    let out = sanitize_output(&text);
    let lines: Vec<&str> = out.lines().collect();
    assert_eq!(lines[500], "::debug::x");
    assert_eq!(lines[501], "x");
    assert_eq!(lines[502], "x");
}

#[test]
fn summaries_stay_in_their_table() {
    assert_eq!(md_escape("a|b<c>&\r\nd"), "a&#124;b&lt;c&gt;&amp;  d");
    let rows = step_summary(&ReviewOutput {
        pr_number: 7,
        pr_title: "x | y".into(),
        files_changed: 3,
        files_reviewed: 2,
        files_skipped: 1,
        total_tokens_used: None,
        input_tokens_estimated: 10,
        output_tokens_reported: Some(5),
        latency_ms: 12,
    });
    assert_eq!(
        rows,
        vec![
            "",
            "## 🔍 Review Complete",
            "",
            "| Metric | Value |",
            "|---|---|",
            "| PR | #7 x &#124; y |",
            "| Files changed | 3 |",
            "| Files reviewed | 2 |",
            "| Files skipped | 1 |",
            "| Est. input tokens | 10 |",
            "| Output tokens | 5 |",
            "| Total tokens | N/A |",
            "| Latency | 12 ms |",
        ]
    );
}

#[test]
fn summaries_go_to_expected_places() {
    assert!(is_safe_summary_path("/tmp/x", "", ""));
    assert!(is_safe_summary_path("/home/runner/x", "", ""));
    assert!(is_safe_summary_path("/github/x", "", ""));
    assert!(is_safe_summary_path("/rt/x", "/rt", ""));
    assert!(is_safe_summary_path("/ws/x", "", "/ws"));
    assert!(!is_safe_summary_path("/etc/passwd", "", ""));
}
