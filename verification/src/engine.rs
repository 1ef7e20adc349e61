//! Reviews: what is asked, what comes back, and the steps between.
use vstd::prelude::*;

use crate::ai::{AiClient, ChatOutput};
use crate::budget::{
    all_set, kept, kept_length, lemma_all_set, lemma_kept_is_filter, retain, within_budget,
    within_budget_narrows,
};
use crate::config::Settings;
use crate::diff::{file_text, DiffFile};
use crate::error::AgentError;
use crate::github::{api_base, api_base_of, PullRequest};
use crate::numeral::{decimal, decimal_of};
use crate::paths::{file_name, file_name_of};
use crate::services::diff_service::DiffService;
use crate::services::file_reader::{
    content_together, content_within_budget, copy_files, source_files_are_dropped_for_want_of_room,
    truncate_file_content_budget, FileContent, FileProblem, GlobProblem,
};
use crate::services::json_extractor::{
    extracted, extraction_is_exhaustive, valid_finding, ExtractedFindings, ExtractedView,
    JsonExtractor, MIN_TOKENS_FOR_RETRY,
};
use crate::services::prompt_builder::{
    file_block, prompts_show_every_diff, prompts_show_every_file, rules_text, ContextView,
    PromptBuilder, PromptContext,
};
use crate::services::sanitize::{sanitize_output, sanitized};
use crate::text::{
    contains, ends_with, opt_view, parts_are_contained, replace, same, starts_with,
    text_starts_with, text_trim, trim, views,
};
use crate::tokens::{
    diff_within_budget, estimate_tokens, files_are_dropped_for_want_of_room, tokens_of,
    tokens_together,
};

verus! {

/// A single structured finding of a review.
pub struct ReviewFinding {
    /// Severity level: "high", "medium", "low" or "info".
    pub severity: String,
    /// File path relative to the repository root; absent for project-wide findings.
    pub file: Option<String>,
    /// Line number in the file, from one on.
    pub line: Option<u64>,
    /// Category such as "logic_error", "security", "performance".
    pub category: String,
    /// Description of the finding.
    pub message: String,
    /// Code suggestion.
    pub suggestion: Option<String>,
}

/// What a finding says.
#[verifier::ext_equal]
pub struct FindingView {
    pub severity: Seq<char>,
    pub file: Option<Seq<char>>,
    pub line: Option<u64>,
    pub category: Seq<char>,
    pub message: Seq<char>,
    pub suggestion: Option<Seq<char>>,
}

impl View for ReviewFinding {
    type V = FindingView;

    open spec fn view(&self) -> FindingView {
        FindingView {
            severity: self.severity@,
            file: opt_view(self.file),
            line: self.line,
            category: self.category@,
            message: self.message@,
            suggestion: opt_view(self.suggestion),
        }
    }
}

/// What the findings of a list say.
pub open spec fn finding_views(findings: Seq<ReviewFinding>) -> Seq<FindingView> {
    findings.map_values(|f: ReviewFinding| f@)
}

/// Statistics of a review run.
///
/// `files_changed` is the sum of `files_skipped`, `files_path_filtered`,
/// `files_budget_dropped` and `files_reviewed`.
pub struct ReviewStats {
    pub files_changed: usize,
    pub files_reviewed: usize,
    /// Files removed by the skip list or by the cap on the number of files.
    pub files_skipped: usize,
    /// Files removed by the path filter of the request.
    pub files_path_filtered: usize,
    /// Files dropped to fit the token budget.
    pub files_budget_dropped: usize,
    pub input_tokens_estimated: usize,
    pub system_tokens_estimated: usize,
    pub output_tokens_reported: Option<u32>,
    /// System, input and output tokens together, where the output was reported.
    pub total_tokens_used: Option<usize>,
    pub latency_ms: u64,
    pub model: String,
    pub prompt_version: String,
    pub domain: String,
}

/// The result of a review.
pub struct ReviewResult {
    pub review_text: String,
    pub findings: Vec<ReviewFinding>,
    pub pr_number: Option<u64>,
    pub pr_title: Option<String>,
    pub session_id: Option<String>,
    pub stats: ReviewStats,
}

/// What is reviewed and where it comes from.
pub enum ReviewSource {
    /// A pull request, fetched from GitHub and posted back to.
    PrUrl { owner: String, repo: String, number: u64 },
    /// A diff at hand.
    DiffText {
        diff: String,
        title: String,
        domain: String,
        language_hint: String,
        description: Option<String>,
    },
    /// A diff on standard input.
    Stdin { title: String, domain: String, language_hint: String },
    /// A file.
    File {
        path: String,
        domain: String,
        language: Option<String>,
        description: Option<String>,
    },
    /// The files that a pattern matches.
    Glob { pattern: String, domain: String },
    /// The difference of two branches of a local repository.
    LocalBranch { repo_path: String, base_ref: String, head_ref: String },
}

/// How a review is made.
pub struct ReviewOptions {
    /// Whether the review is posted; only for pull requests.
    pub post_to_github: bool,
    /// Only files whose path begins with one of these are reviewed; none for all.
    pub paths: Vec<String>,
    /// Further instructions for the prompt.
    pub extra_instructions: String,
    /// Whether an earlier comment is updated in place of a new one.
    pub sticky: bool,
    /// Whether the model may call tools.
    pub use_tools: bool,
    /// The session to carry on.
    pub resume_session: Option<String>,
}

impl Default for ReviewOptions {
    fn default() -> (r: Self)
        ensures
            r.post_to_github,
            r.paths@.len() == 0,
            r.extra_instructions@ == ""@,
            !r.sticky,
            !r.use_tools,
            r.resume_session is None,
    {
        ReviewOptions {
            post_to_github: true,
            paths: Vec::new(),
            extra_instructions: "".to_owned(),
            sticky: false,
            use_tools: false,
            resume_session: None,
        }
    }
}

/// A review that is asked for.
pub struct ReviewRequest {
    pub source: ReviewSource,
    pub options: ReviewOptions,
}

// ---------------------------------------------------------------------------
// Sources

/// What a source comes to.
pub struct ResolvedSource {
    pub pr_number: Option<u64>,
    pub pr_title: Option<String>,
    pub description: Option<String>,
    pub raw_diff: String,
    pub file_contents: Option<Vec<FileContent>>,
    pub owner: Option<String>,
    pub repo: Option<String>,
    pub author: Option<String>,
    pub branch: Option<String>,
    pub base: Option<String>,
    pub domain: String,
    pub language_hint: Option<String>,
}

/// What has to be fetched before a source can be reviewed.
pub enum Fetch {
    /// Metadata and diff of a pull request.
    PullRequest { owner: String, repo: String, number: u64 },
    /// Nothing.
    Nothing,
    /// All of standard input.
    Stdin,
    /// A file, with the language that the caller names.
    File { path: String, language: Option<String> },
    /// The files that a pattern matches.
    Glob { pattern: String },
    /// The difference of two branches.
    Branches { repo_path: String, base_ref: String, head_ref: String },
}

/// What was fetched.
pub enum Fetched {
    PullRequest { pr: PullRequest, diff: String },
    Nothing,
    Stdin(String),
    File(Result<FileContent, FileProblem>),
    Glob(Result<Vec<FileContent>, GlobProblem>),
    Branches(String),
}

/// The reply fits what had to be fetched for the source.
pub open spec fn answers(source: ReviewSource, fetched: Fetched) -> bool {
    match (source, fetched) {
        (ReviewSource::PrUrl { .. }, Fetched::PullRequest { .. }) => true,
        (ReviewSource::DiffText { .. }, Fetched::Nothing) => true,
        (ReviewSource::Stdin { .. }, Fetched::Stdin(_)) => true,
        (ReviewSource::File { .. }, Fetched::File(_)) => true,
        (ReviewSource::Glob { .. }, Fetched::Glob(_)) => true,
        (ReviewSource::LocalBranch { .. }, Fetched::Branches(_)) => true,
        _ => false,
    }
}

/// Whether the reply fits what had to be fetched for the source.
pub fn is_answer(source: &ReviewSource, fetched: &Fetched) -> (r: bool)
    ensures
        r == answers(*source, *fetched),
{
    match (source, fetched) {
        (ReviewSource::PrUrl { .. }, Fetched::PullRequest { .. }) => true,
        (ReviewSource::DiffText { .. }, Fetched::Nothing) => true,
        (ReviewSource::Stdin { .. }, Fetched::Stdin(_)) => true,
        (ReviewSource::File { .. }, Fetched::File(_)) => true,
        (ReviewSource::Glob { .. }, Fetched::Glob(_)) => true,
        (ReviewSource::LocalBranch { .. }, Fetched::Branches(_)) => true,
        _ => false,
    }
}

/// A source that is not on GitHub.
pub open spec fn is_local(r: ResolvedSource) -> bool {
    r.pr_number is None && r.owner is None && r.repo is None && r.author is None
}

/// The title of a file: its base name, or the path where it has none.
pub open spec fn file_title(path: Seq<char>) -> Seq<char> {
    match file_name_of(path) {
        Some(n) => n,
        None => path,
    }
}

/// What a source comes to, given what was fetched for it.
pub open spec fn resolves_to(
    source: ReviewSource,
    fetched: Fetched,
    r: Result<ResolvedSource, AgentError>,
) -> bool {
    match (source, fetched) {
        (
            ReviewSource::PrUrl { owner, repo, number },
            Fetched::PullRequest { pr, diff },
        ) => r matches Ok(s) && {
            &&& s.pr_number == Some(number)
            &&& s.pr_title == Some(pr.title)
            &&& s.description == pr.body
            &&& s.raw_diff == diff
            &&& s.file_contents is None
            &&& s.owner == Some(owner)
            &&& s.repo == Some(repo)
            &&& s.author == pr.author
            &&& s.branch == Some(pr.head_ref)
            &&& s.base == Some(pr.base_ref)
            &&& s.domain@ == "code"@
            &&& s.language_hint is None
        },
        (
            ReviewSource::DiffText { diff, title, domain, language_hint, description },
            Fetched::Nothing,
        ) => r matches Ok(s) && {
            &&& is_local(s)
            &&& s.pr_title == Some(title)
            &&& s.description == description
            &&& s.raw_diff == diff
            &&& s.file_contents is None
            &&& s.branch is None
            &&& s.base is None
            &&& s.domain == domain
            &&& s.language_hint == Some(language_hint)
        },
        (
            ReviewSource::Stdin { title, domain, language_hint },
            Fetched::Stdin(diff),
        ) => r matches Ok(s) && {
            &&& is_local(s)
            &&& s.pr_title == Some(title)
            &&& s.description is None
            &&& s.raw_diff == diff
            &&& s.file_contents is None
            &&& s.branch is None
            &&& s.base is None
            &&& s.domain == domain
            &&& s.language_hint == Some(language_hint)
        },
        (ReviewSource::File { path, domain, language, description }, Fetched::File(read)) => {
            match read {
                Ok(file) => r matches Ok(s) && {
                    &&& is_local(s)
                    &&& opt_view(s.pr_title) == Some(file_title(path@))
                    &&& s.description == description
                    &&& s.raw_diff@ == ""@
                    &&& s.file_contents matches Some(f) && f@ == seq![file]
                    &&& s.branch is None
                    &&& s.base is None
                    &&& s.domain == domain
                    &&& s.language_hint is None
                },
                Err(problem) => r matches Err(AgentError::Config(m)) && m@
                    == "Failed to read file '"@ + path@ + "': I/O error: "@ + problem.words(),
            }
        },
        (ReviewSource::Glob { pattern, domain }, Fetched::Glob(read)) => match read {
            Ok(files) => r matches Ok(s) && {
                &&& is_local(s)
                &&& opt_view(s.pr_title) == Some("glob: "@ + pattern@)
                &&& s.description is None
                &&& s.raw_diff@ == ""@
                &&& s.file_contents == Some(files)
                &&& s.branch is None
                &&& s.base is None
                &&& s.domain == domain
                &&& s.language_hint is None
            },
            Err(problem) => r matches Err(AgentError::Config(m)) && m@ == "Failed to read glob '"@
                + pattern@ + "': I/O error: "@ + problem.words(),
        },
        (
            ReviewSource::LocalBranch { repo_path, base_ref, head_ref },
            Fetched::Branches(diff),
        ) => r matches Ok(s) && {
            &&& is_local(s)
            &&& opt_view(s.pr_title) == Some(
                base_ref@ + ".."@ + head_ref@ + " in "@ + repo_path@,
            )
            &&& s.description is None
            &&& s.raw_diff == diff
            &&& s.file_contents is None
            &&& s.branch == Some(head_ref)
            &&& s.base == Some(base_ref)
            &&& s.domain@ == "code"@
            &&& s.language_hint is None
        },
        _ => true,
    }
}

fn local_source(title: String, raw_diff: String, domain: String) -> (s: ResolvedSource)
    ensures
        is_local(s),
        s.pr_title == Some(title),
        s.description is None,
        s.raw_diff == raw_diff,
        s.file_contents is None,
        s.branch is None,
        s.base is None,
        s.domain == domain,
        s.language_hint is None,
{
    ResolvedSource {
        pr_number: None,
        pr_title: Some(title),
        description: None,
        raw_diff,
        file_contents: None,
        owner: None,
        repo: None,
        author: None,
        branch: None,
        base: None,
        domain,
        language_hint: None,
    }
}

/// What a source comes to, given what was fetched for it.
pub fn resolve(source: ReviewSource, fetched: Fetched) -> (r: Result<ResolvedSource, AgentError>)
    requires
        answers(source, fetched),
    ensures
        resolves_to(source, fetched, r),
{
    match (source, fetched) {
        (ReviewSource::PrUrl { owner, repo, number }, Fetched::PullRequest { pr, diff }) => Ok(
            ResolvedSource {
                pr_number: Some(number),
                pr_title: Some(pr.title),
                description: pr.body,
                raw_diff: diff,
                file_contents: None,
                owner: Some(owner),
                repo: Some(repo),
                author: pr.author,
                branch: Some(pr.head_ref),
                base: Some(pr.base_ref),
                domain: "code".to_owned(),
                language_hint: None,
            },
        ),
        (
            ReviewSource::DiffText { diff, title, domain, language_hint, description },
            Fetched::Nothing,
        ) => {
            let mut s = local_source(title, diff, domain);
            s.description = description;
            s.language_hint = Some(language_hint);
            Ok(s)
        },
        (ReviewSource::Stdin { title, domain, language_hint }, Fetched::Stdin(diff)) => {
            let mut s = local_source(title, diff, domain);
            s.language_hint = Some(language_hint);
            Ok(s)
        },
        (ReviewSource::File { path, domain, language: _, description }, Fetched::File(read)) => {
            match read {
                Ok(file) => {
                    let title = match file_name(path.as_str()) {
                        Some(n) => n,
                        None => path,
                    };
                    let mut files: Vec<FileContent> = Vec::new();
                    files.push(file);
                    assert(files@ =~= seq![file]);
                    let mut s = local_source(title, "".to_owned(), domain);
                    s.description = description;
                    s.file_contents = Some(files);
                    Ok(s)
                },
                Err(problem) => {
                    let mut m = "Failed to read file '".to_owned();
                    m.push_str(path.as_str());
                    m.push_str("': I/O error: ");
                    m.push_str(problem.message().as_str());
                    Err(AgentError::Config(m))
                },
            }
        },
        (ReviewSource::Glob { pattern, domain }, Fetched::Glob(read)) => match read {
            Ok(files) => {
                let mut title = "glob: ".to_owned();
                title.push_str(pattern.as_str());
                let mut s = local_source(title, "".to_owned(), domain);
                s.file_contents = Some(files);
                Ok(s)
            },
            Err(problem) => {
                let mut m = "Failed to read glob '".to_owned();
                m.push_str(pattern.as_str());
                m.push_str("': I/O error: ");
                m.push_str(problem.message().as_str());
                Err(AgentError::Config(m))
            },
        },
        (
            ReviewSource::LocalBranch { repo_path, base_ref, head_ref },
            Fetched::Branches(diff),
        ) => {
            let mut title = base_ref.clone();
            title.push_str("..");
            title.push_str(head_ref.as_str());
            title.push_str(" in ");
            title.push_str(repo_path.as_str());
            let mut s = local_source(title, diff, "code".to_owned());
            s.branch = Some(head_ref);
            s.base = Some(base_ref);
            Ok(s)
        },
        _ => Err(AgentError::Config("".to_owned())),
    }
}

/// The instructions of the settings and those of the request.
pub open spec fn merged_instructions(config: Seq<char>, request: Seq<char>) -> Seq<char> {
    if config.len() == 0 {
        trim(request)
    } else if request.len() == 0 {
        trim(config)
    } else {
        trim(config) + "\n\n"@ + trim(request)
    }
}

/// Merges the instructions of the settings with those of the request.
pub fn merge_instructions(config: &str, request: &str) -> (r: String)
    ensures
        r@ == merged_instructions(config@, request@),
{
    if config.is_empty() {
        text_trim(request)
    } else if request.is_empty() {
        text_trim(config)
    } else {
        let mut out = text_trim(config);
        out.push_str("\n\n");
        out.push_str(text_trim(request).as_str());
        out
    }
}

// ---------------------------------------------------------------------------
// Prompts

/// Tokens that the frame of a prompt takes.
pub const PROMPT_OVERHEAD_BASELINE: u128 = 100;

/// Tokens that the entry of a file in the list of files takes.
pub const PROMPT_OVERHEAD_PER_FILE: u128 = 20;

/// The budget for each file that is reviewed on its own.
pub const SINGLE_FILE_BUDGET: usize = 16000;

/// A path begins with one of the prefixes that are not empty.
pub open spec fn has_prefix(path: Seq<char>, prefixes: Seq<Seq<char>>) -> bool {
    exists|i: int|
        0 <= i < prefixes.len() && (#[trigger] prefixes[i]).len() > 0 && starts_with(
            path,
            prefixes[i],
        )
}

fn begins_with_any(path: &str, prefixes: &Vec<String>) -> (r: bool)
    ensures
        r == has_prefix(path@, views(prefixes@)),
{
    let ghost all = views(prefixes@);
    let mut i: usize = 0;
    while i < prefixes.len()
        invariant
            i <= prefixes@.len(),
            all == views(prefixes@),
            forall|j: int|
                0 <= j < i ==> !((#[trigger] all[j]).len() > 0 && starts_with(path@, all[j])),
        decreases prefixes@.len() - i,
    {
        assert(all[i as int] == prefixes@[i as int]@);
        if !prefixes[i].as_str().is_empty() && text_starts_with(path, prefixes[i].as_str()) {
            return true;
        }
        i += 1;
    }
    false
}

/// Which changed files pass the path filter.
pub open spec fn diff_flags(files: Seq<DiffFile>, paths: Seq<Seq<char>>) -> Seq<bool> {
    Seq::new(
        files.len(),
        |i: int| paths.len() == 0 || has_prefix(files[i].filename@, paths),
    )
}

/// The changed files that pass the path filter.
pub open spec fn diff_selected(files: Seq<DiffFile>, paths: Seq<Seq<char>>) -> Seq<DiffFile> {
    kept(files, diff_flags(files, paths))
}

/// Which source files pass the path filter.
pub open spec fn content_flags(files: Seq<FileContent>, paths: Seq<Seq<char>>) -> Seq<bool> {
    Seq::new(files.len(), |i: int| paths.len() == 0 || has_prefix(files[i].path@, paths))
}

/// The source files that pass the path filter.
pub open spec fn content_selected(files: Seq<FileContent>, paths: Seq<Seq<char>>) -> Seq<
    FileContent,
> {
    kept(files, content_flags(files, paths))
}

/// What is left of the token limit for the files themselves.
pub open spec fn effective_budget(
    max_tokens: nat,
    files: nat,
    system_tokens: nat,
    extra: Seq<char>,
) -> nat {
    let overhead = PROMPT_OVERHEAD_BASELINE + PROMPT_OVERHEAD_PER_FILE * files + system_tokens
        + if extra.len() == 0 {
        0
    } else {
        tokens_of(extra) + 10
    };
    if overhead >= max_tokens {
        0
    } else {
        (max_tokens - overhead) as nat
    }
}

fn budget_for(max_tokens: usize, files: usize, system_tokens: usize, extra: &str) -> (r: usize)
    ensures
        r == effective_budget(max_tokens as nat, files as nat, system_tokens as nat, extra@),
{
    let mut overhead: u128 = PROMPT_OVERHEAD_BASELINE + PROMPT_OVERHEAD_PER_FILE * (files as u128)
        + system_tokens as u128;
    if !extra.is_empty() {
        overhead = overhead + estimate_tokens(extra) as u128 + 10;
    }
    if overhead >= max_tokens as u128 {
        0
    } else {
        (max_tokens as u128 - overhead) as usize
    }
}

/// A user prompt, and what became of the files on the way to it.
pub struct BuiltPrompt {
    pub files_changed: usize,
    pub files_reviewed: usize,
    pub files_skipped: usize,
    pub files_path_filtered: usize,
    pub files_budget_dropped: usize,
    pub user: String,
    pub input_tokens_estimated: usize,
}

impl BuiltPrompt {
    /// Every changed file is accounted for.
    pub open spec fn adds_up(self) -> bool {
        self.files_changed == self.files_skipped + self.files_path_filtered
            + self.files_budget_dropped + self.files_reviewed
    }

    /// The prompt is the one for a diff of so many files, of which `filtered`
    /// are worth a review.
    pub open spec fn is_for_diff(
        self,
        files_changed: nat,
        filtered: Seq<DiffFile>,
        pb: PromptBuilder,
        ctx: ContextView,
        extra: Seq<char>,
        paths: Seq<Seq<char>>,
        max_tokens: nat,
        system_tokens: nat,
    ) -> bool {
        let selected = diff_selected(filtered, paths);
        let reviewed = diff_within_budget(
            selected,
            effective_budget(max_tokens, selected.len(), system_tokens, extra),
        );
        &&& self.files_changed == files_changed
        &&& self.files_skipped == if files_changed >= filtered.len() {
            files_changed - filtered.len()
        } else {
            0
        }
        &&& self.files_path_filtered == filtered.len() - selected.len()
        &&& self.files_budget_dropped == selected.len() - reviewed.len()
        &&& self.files_reviewed == reviewed.len()
        &&& self.user@ == pb.diff_prompt(ctx, reviewed, extra)
        &&& self.input_tokens_estimated == tokens_of(self.user@)
    }

    /// The prompt is the one for source files.
    pub open spec fn is_for_files(
        self,
        files: Seq<FileContent>,
        pb: PromptBuilder,
        ctx: ContextView,
        extra: Seq<char>,
        paths: Seq<Seq<char>>,
        max_tokens: nat,
        system_tokens: nat,
    ) -> bool {
        let selected = content_selected(files, paths);
        let reviewed = content_within_budget(
            selected,
            effective_budget(max_tokens, selected.len(), system_tokens, extra),
        );
        &&& self.files_changed == files.len()
        &&& self.files_skipped == 0
        &&& self.files_path_filtered == files.len() - selected.len()
        &&& self.files_budget_dropped == selected.len() - reviewed.len()
        &&& self.files_reviewed == reviewed.len()
        &&& self.user@ == pb.content_prompt(ctx, reviewed, extra)
        &&& self.input_tokens_estimated == tokens_of(self.user@)
    }
}

/// The user prompt for a diff of which `filtered` are worth a review.
pub fn build_diff_prompt_from_parsed(
    files_changed: usize,
    filtered: Vec<DiffFile>,
    pb: &PromptBuilder,
    ctx: &PromptContext<'_>,
    extra: &str,
    path_filter: &Vec<String>,
    diff_svc: &DiffService,
    system_tokens: usize,
) -> (r: BuiltPrompt)
    ensures
        r.is_for_diff(
            files_changed as nat,
            filtered@,
            *pb,
            ctx@,
            extra@,
            views(path_filter@),
            diff_svc.max_input_tokens as nat,
            system_tokens as nat,
        ),
        files_changed >= filtered@.len() ==> r.adds_up(),
{
    let before: usize = filtered.len();
    let files_skipped: usize = if files_changed >= before {
        files_changed - before
    } else {
        0
    };
    let ghost paths = views(path_filter@);
    let mut flags: Vec<bool> = Vec::new();
    let mut i: usize = 0;
    while i < filtered.len()
        invariant
            i <= filtered@.len(),
            paths == views(path_filter@),
            flags@ == diff_flags(filtered@, paths).take(i as int),
        decreases filtered@.len() - i,
    {
        assert(paths.len() == path_filter@.len());
        flags.push(
            path_filter.len() == 0 || begins_with_any(filtered[i].filename.as_str(), path_filter),
        );
        i += 1;
    }
    assert(flags@ =~= diff_flags(filtered@, paths));
    proof {
        kept_length(filtered@, flags@);
    }
    let mut files = retain(filtered, &flags);
    let files_path_filtered: usize = before - files.len();
    let budget: usize = budget_for(diff_svc.max_tokens(), files.len(), system_tokens, extra);
    let files_budget_dropped: usize = diff_svc.truncate_to_budget(&mut files, budget);
    let user = pb.user_prompt(ctx, &files, extra);
    let input_tokens_estimated: usize = estimate_tokens(user.as_str());
    BuiltPrompt {
        files_changed,
        files_reviewed: files.len(),
        files_skipped,
        files_path_filtered,
        files_budget_dropped,
        user,
        input_tokens_estimated,
    }
}

fn flag_contents(files: &Vec<FileContent>, path_filter: &Vec<String>) -> (r: Vec<bool>)
    ensures
        r@ == content_flags(files@, views(path_filter@)),
{
    let ghost paths = views(path_filter@);
    let mut flags: Vec<bool> = Vec::new();
    let mut i: usize = 0;
    while i < files.len()
        invariant
            i <= files@.len(),
            paths == views(path_filter@),
            flags@ == content_flags(files@, paths).take(i as int),
        decreases files@.len() - i,
    {
        assert(paths.len() == path_filter@.len());
        flags.push(
            path_filter.len() == 0 || begins_with_any(files[i].path.as_str(), path_filter),
        );
        i += 1;
    }
    assert(flags@ =~= content_flags(files@, paths));
    flags
}

/// The user prompt for source files.
pub fn build_file_prompt(
    file_contents: Vec<FileContent>,
    pb: &PromptBuilder,
    ctx: &PromptContext<'_>,
    extra: &str,
    path_filter: &Vec<String>,
    max_tokens: usize,
    system_tokens: usize,
) -> (r: BuiltPrompt)
    ensures
        r.is_for_files(
            file_contents@,
            *pb,
            ctx@,
            extra@,
            views(path_filter@),
            max_tokens as nat,
            system_tokens as nat,
        ),
        r.adds_up(),
{
    let files_changed: usize = file_contents.len();
    let flags = flag_contents(&file_contents, path_filter);
    proof {
        kept_length(file_contents@, flags@);
    }
    let mut files = retain(file_contents, &flags);
    let files_path_filtered: usize = files_changed - files.len();
    let budget: usize = budget_for(max_tokens, files.len(), system_tokens, extra);
    let files_budget_dropped: usize = truncate_file_content_budget(&mut files, budget);
    let user = pb.user_prompt_for_files(ctx, &files, extra);
    let input_tokens_estimated: usize = estimate_tokens(user.as_str());
    BuiltPrompt {
        files_changed,
        files_reviewed: files.len(),
        files_skipped: 0,
        files_path_filtered,
        files_budget_dropped,
        user,
        input_tokens_estimated,
    }
}

/// The text, or a default where there is none.
pub open spec fn text_or(text: Option<String>, default: Seq<char>) -> Seq<char> {
    match text {
        Some(t) => t@,
        None => default,
    }
}

fn str_or<'a>(text: &'a Option<String>, default: &'a str) -> (r: &'a str)
    ensures
        r@ == text_or(*text, default@),
{
    match text {
        Some(t) => t.as_str(),
        None => default,
    }
}

impl ResolvedSource {
    /// What the prompt says of the source.
    pub open spec fn context_view(self) -> ContextView {
        ContextView {
            title: text_or(self.pr_title, "(untitled)"@),
            description: text_or(self.description, ""@),
            owner: text_or(self.owner, ""@),
            repo: text_or(self.repo, ""@),
            author: text_or(self.author, ""@),
            branch: text_or(self.branch, ""@),
            base: text_or(self.base, ""@),
            language_hint: opt_view(self.language_hint),
        }
    }

    /// What the prompt says of the source.
    pub fn context(&self) -> (r: PromptContext<'_>)
        ensures
            r@ == self.context_view(),
    {
        PromptContext {
            title: str_or(&self.pr_title, "(untitled)"),
            description: str_or(&self.description, ""),
            owner: str_or(&self.owner, ""),
            repo: str_or(&self.repo, ""),
            author: str_or(&self.author, ""),
            branch: str_or(&self.branch, ""),
            base: str_or(&self.base, ""),
            language_hint: match &self.language_hint {
                Some(h) => Some(h.as_str()),
                None => None,
            },
        }
    }

    /// What the prompt says of the source for a file that is reviewed on its own.
    pub open spec fn single_context_view(self) -> ContextView {
        ContextView {
            title: text_or(self.pr_title, "(untitled)"@),
            description: text_or(self.description, ""@),
            owner: ""@,
            repo: ""@,
            author: ""@,
            branch: ""@,
            base: ""@,
            language_hint: None,
        }
    }

    fn single_context(&self) -> (r: PromptContext<'_>)
        ensures
            r@ == self.single_context_view(),
    {
        PromptContext {
            title: str_or(&self.pr_title, "(untitled)"),
            description: str_or(&self.description, ""),
            owner: "",
            repo: "",
            author: "",
            branch: "",
            base: "",
            language_hint: None,
        }
    }

    /// Whether there is a diff to parse: not for source files, nor where it is empty.
    pub fn has_diff(&self) -> (r: bool)
        ensures
            r == (self.file_contents is None && self.raw_diff@.len() > 0),
    {
        self.file_contents.is_none() && !self.raw_diff.as_str().is_empty()
    }

    /// Whether the files are reviewed each on its own: more than one file, and a
    /// permit for it.
    pub fn reviews_concurrently(&self, permits: usize) -> (r: bool)
        ensures
            r == (self.file_contents matches Some(f) && f@.len() > 1 && permits > 0),
    {
        match &self.file_contents {
            Some(f) => f.len() > 1 && permits > 0,
            None => false,
        }
    }
}

// ---------------------------------------------------------------------------
// The engine

/// The least number of tokens that an answer is asked for again with.
pub const MIN_RETRY_TOKENS: u32 = 512;

/// The most tokens that a repaired answer may take.
pub const REPAIR_TOKENS: u32 = 2000;

/// Makes reviews: decides what is fetched, what is asked, what is made of the
/// answers and what is posted.
pub struct ReviewEngine {
    /// The address of the GitHub API, where there is a token for it.
    pub github: Option<String>,
    pub diff_svc: DiffService,
    pub ai: AiClient,
    /// The instructions of the settings.
    pub config_extra: String,
}

/// The prompts of a review.
pub struct Prepared {
    pub system: String,
    pub system_tokens: usize,
    pub built: BuiltPrompt,
}

/// What was made of an answer.
pub struct Draft {
    pub review_text: String,
    pub findings: Vec<ReviewFinding>,
    pub dropped_count: usize,
    pub output_tokens: Option<u32>,
}

impl Draft {
    /// What was extracted.
    pub open spec fn extract(self) -> ExtractedView {
        ExtractedView {
            findings: finding_views(self.findings@),
            review_text: self.review_text@,
            dropped_count: self.dropped_count as nat,
        }
    }
}

/// What follows an answer.
pub enum AnswerStep {
    /// Ask again, with so many tokens at most.
    AskAgain(u32),
    /// Ask for the malformed findings to be mended, with this prompt.
    Repair(Draft, String),
    /// Go on.
    Ready(Draft),
}

/// The tokens that an answer is reported to have taken.
pub open spec fn reported_tokens(out: ChatOutput) -> Option<u32> {
    match out.usage {
        Some(u) => u.completion_tokens,
        None => None,
    }
}

/// An answer that was cut off, and was long enough to be worth a second attempt.
pub open spec fn cut_off(out: ChatOutput) -> bool {
    &&& opt_view(out.finish_reason) == Some("length"@)
    &&& match reported_tokens(out) {
        Some(n) => n >= MIN_TOKENS_FOR_RETRY,
        None => true,
    }
}

/// The limit for the second attempt: half of the first, but not too little.
pub open spec fn retry_limit(max_tokens: u32) -> u32 {
    if max_tokens / 2 >= MIN_RETRY_TOKENS {
        max_tokens / 2
    } else {
        MIN_RETRY_TOKENS
    }
}

/// What an answer comes to, once what must not be published is out of it. Taking
/// the JSON block out may bring together what was apart, so the text that is left
/// is sanitized too.
pub open spec fn answer_extract(content: Seq<char>) -> ExtractedView {
    let e = extracted(sanitized(content));
    ExtractedView {
        findings: e.findings,
        review_text: sanitized(e.review_text),
        dropped_count: e.dropped_count,
    }
}

fn extract_answer(content: &str) -> (r: ExtractedFindings)
    ensures
        r@ == answer_extract(content@),
{
    let e = JsonExtractor::extract(sanitize_output(content).as_str());
    ExtractedFindings {
        findings: e.findings,
        review_text: sanitize_output(e.review_text.as_str()),
        dropped_count: e.dropped_count,
    }
}

/// Some findings are usable and some are not.
pub open spec fn needs_repair(e: ExtractedView) -> bool {
    e.dropped_count > 0 && e.findings.len() > 0
}

/// The prompt that asks for malformed findings to be mended.
pub open spec fn repair_prompt(dropped: nat) -> Seq<char> {
    "Your previous JSON had "@ + decimal(dropped)
        + " malformed finding(s). Fix and output ONLY the corrected JSON array. Errors were: invalid severity, invalid category, missing required fields ('severity', 'category', 'message'), or empty 'message'."@
}

/// What is done about posting a review.
#[derive(Clone, Copy, PartialEq, Eq, Structural, Debug)]
pub enum PostStep {
    /// Nobody asked for it.
    NotAsked,
    /// The source is no pull request.
    NotAPullRequest,
    /// The source has no number.
    NoNumber,
    /// There is no token to post with.
    NoToken,
    /// Post a new comment.
    Publish,
    /// Update the earlier comment, or post one that can be updated.
    Update,
}

/// What is done about posting a review.
pub open spec fn posting(github: bool, options: ReviewOptions, source: ResolvedSource) -> PostStep {
    if !options.post_to_github {
        PostStep::NotAsked
    } else if source.owner is None || source.repo is None {
        PostStep::NotAPullRequest
    } else if source.pr_number is None {
        PostStep::NoNumber
    } else if !github {
        PostStep::NoToken
    } else if options.sticky {
        PostStep::Update
    } else {
        PostStep::Publish
    }
}

/// The tokens of a review together, where those of the answer were reported.
pub open spec fn total_tokens(system: nat, input: nat, output: Option<u32>) -> Option<nat> {
    match output {
        Some(n) => Some(system + input + n as nat),
        None => None,
    }
}

impl ReviewStats {
    /// Every changed file is accounted for.
    pub open spec fn adds_up(self) -> bool {
        self.files_changed == self.files_skipped + self.files_path_filtered
            + self.files_budget_dropped + self.files_reviewed
    }
}

fn sum_tokens(system: usize, input: usize, output: Option<u32>) -> (r: Option<usize>)
    requires
        output matches Some(n) ==> system + input + n <= usize::MAX,
    ensures
        match r {
            Some(n) => total_tokens(system as nat, input as nat, output) == Some(n as nat),
            None => total_tokens(system as nat, input as nat, output) is None,
        },
{
    match output {
        Some(n) => Some(system + input + n as usize),
        None => None,
    }
}

/// The tokens that an answer is reported to have taken.
pub fn output_tokens(out: &ChatOutput) -> (r: Option<u32>)
    ensures
        r == reported_tokens(*out),
{
    match &out.usage {
        Some(u) => u.completion_tokens,
        None => None,
    }
}

/// Whether an answer was cut off, and was long enough to be worth a second
/// attempt.
pub fn was_cut_off(out: &ChatOutput) -> (r: bool)
    ensures
        r == cut_off(*out),
{
    let stopped_short = match &out.finish_reason {
        Some(f) => same(f.as_str(), "length"),
        None => false,
    };
    let long_enough = match output_tokens(out) {
        Some(n) => n >= MIN_TOKENS_FOR_RETRY,
        None => true,
    };
    stopped_short && long_enough
}

impl ReviewEngine {
    /// An engine with the given settings. A token for GitHub asks for an
    /// address that is a URL.
    pub fn new(settings: &Settings) -> (r: Result<Self, AgentError>)
        ensures
            r matches Ok(e) ==> works_with(e, *settings),
            match r {
                Ok(e) => {
                    &&& e.config_extra == settings.review.extra_instructions
                    &&& e.diff_svc.max_input_tokens == settings.review.max_input_tokens
                    &&& e.diff_svc.max_diff_files == settings.review.max_diff_files
                    &&& e.ai.model == settings.ai.model
                    &&& e.ai.api_base == settings.ai.api_base
                    &&& e.ai.api_key.secret() == settings.ai.api_key.secret()
                    &&& e.ai.temperature.bits == settings.ai.temperature.bits
                    &&& e.ai.temperature.text == settings.ai.temperature.text
                    &&& e.ai.max_completion_tokens == settings.ai.max_completion_tokens
                    &&& if settings.github.token.secret()@.len() == 0 {
                        e.github is None
                    } else {
                        e.github matches Some(b) && api_base_of(settings.github.base_url@) == Ok::<
                            Seq<char>,
                            Seq<char>,
                        >(b@)
                    }
                },
                Err(e) => {
                    &&& settings.github.token.secret()@.len() > 0
                    &&& e matches AgentError::Config(m) && api_base_of(settings.github.base_url@)
                        == Err::<Seq<char>, Seq<char>>(m@)
                },
            },
    {
        let github = if settings.github.token.inner().as_str().is_empty() {
            None
        } else {
            match api_base(settings.github.base_url.as_str()) {
                Ok(base) => Some(base),
                Err(e) => {
                    return Err(e);
                },
            }
        };
        Ok(
            ReviewEngine {
                github,
                diff_svc: DiffService::new(settings),
                ai: AiClient::new(settings),
                config_extra: settings.review.extra_instructions.clone(),
            },
        )
    }

    /// What has to be fetched for a source. A pull request takes a token.
    pub open spec fn fetches(self, source: ReviewSource, r: Result<Fetch, AgentError>) -> bool {
        match source {
            ReviewSource::PrUrl { owner, repo, number } => if self.github is None {
                r matches Err(AgentError::Config(m)) && m@
                    == "GITHUB_TOKEN is required to review PRs — set via env var or config file"@
            } else {
                r matches Ok(Fetch::PullRequest { owner: o, repo: p, number: n }) && o == owner && p
                    == repo && n == number
            },
            ReviewSource::DiffText { .. } => r matches Ok(Fetch::Nothing),
            ReviewSource::Stdin { .. } => r matches Ok(Fetch::Stdin),
            ReviewSource::File { path, language, .. } => r matches Ok(
                Fetch::File { path: p, language: l },
            ) && p == path && opt_view(l) == opt_view(language),
            ReviewSource::Glob { pattern, .. } => r matches Ok(Fetch::Glob { pattern: p }) && p
                == pattern,
            ReviewSource::LocalBranch { repo_path, base_ref, head_ref } => r matches Ok(
                Fetch::Branches { repo_path: p, base_ref: b, head_ref: h },
            ) && p == repo_path && b == base_ref && h == head_ref,
        }
    }

    /// What has to be fetched for a source.
    pub fn fetch_step(&self, source: &ReviewSource) -> (r: Result<Fetch, AgentError>)
        ensures
            self.fetches(*source, r),
    {
        match source {
            ReviewSource::PrUrl { owner, repo, number } => {
                if self.github.is_none() {
                    Err(
                        AgentError::Config(
                            "GITHUB_TOKEN is required to review PRs — set via env var or config file".to_owned(),
                        ),
                    )
                } else {
                    Ok(
                        Fetch::PullRequest {
                            owner: owner.clone(),
                            repo: repo.clone(),
                            number: *number,
                        },
                    )
                }
            },
            ReviewSource::DiffText { .. } => Ok(Fetch::Nothing),
            ReviewSource::Stdin { .. } => Ok(Fetch::Stdin),
            ReviewSource::File { path, language, .. } => {
                let language = match language {
                    Some(l) => Some(l.clone()),
                    None => None,
                };
                Ok(Fetch::File { path: path.clone(), language })
            },
            ReviewSource::Glob { pattern, .. } => Ok(Fetch::Glob { pattern: pattern.clone() }),
            ReviewSource::LocalBranch { repo_path, base_ref, head_ref } => Ok(
                Fetch::Branches {
                    repo_path: repo_path.clone(),
                    base_ref: base_ref.clone(),
                    head_ref: head_ref.clone(),
                },
            ),
        }
    }

    /// The instructions for the prompt.
    pub fn instructions(&self, options: &ReviewOptions) -> (r: String)
        ensures
            r@ == merged_instructions(self.config_extra@, options.extra_instructions@),
    {
        merge_instructions(self.config_extra.as_str(), options.extra_instructions.as_str())
    }

    /// The prompts are those for the source.
    pub open spec fn is_prepared(
        self,
        p: Prepared,
        source: ResolvedSource,
        files_changed: nat,
        parsed: Seq<DiffFile>,
        pb: PromptBuilder,
        extra: Seq<char>,
        paths: Seq<Seq<char>>,
    ) -> bool {
        let rules = rules_text(pb.applicable(parsed).unwrap(), pb.rule_contents@, 0, ""@);
        &&& p.system@ == replace(pb.system_prompt@, "{system_rule}"@, rules)
        &&& p.system_tokens == tokens_of(p.system@)
        &&& match source.file_contents {
            Some(files) => p.built.is_for_files(
                files@,
                pb,
                source.context_view(),
                extra,
                paths,
                self.diff_svc.max_input_tokens as nat,
                p.system_tokens as nat,
            ),
            None => p.built.is_for_diff(
                files_changed,
                parsed,
                pb,
                source.context_view(),
                extra,
                paths,
                self.diff_svc.max_input_tokens as nat,
                p.system_tokens as nat,
            ),
        }
    }

    /// The prompts for a source, of whose diff `parsed` are worth a review out
    /// of `files_changed`; nothing where the pattern of a rule is out of order.
    pub fn prepare(
        &self,
        source: &ResolvedSource,
        files_changed: usize,
        parsed: Vec<DiffFile>,
        pb: &PromptBuilder,
        extra: &str,
        paths: &Vec<String>,
    ) -> (r: Option<Prepared>)
        ensures
            match r {
                None => pb.applicable(parsed@) is None,
                Some(p) => {
                    &&& pb.applicable(parsed@) is Some
                    &&& self.is_prepared(
                        p,
                        *source,
                        files_changed as nat,
                        parsed@,
                        *pb,
                        extra@,
                        views(paths@),
                    )
                    &&& (source.file_contents is Some || files_changed >= parsed@.len())
                        ==> p.built.adds_up()
                },
            },
    {
        let rules = match pb.try_resolve_rules(&parsed) {
            Some(r) => r,
            None => {
                return None;
            },
        };
        let system = pb.system_prompt(rules.text.as_str());
        let system_tokens: usize = pb.system_prompt_tokens(rules.text.as_str());
        let ctx = source.context();
        let built = match &source.file_contents {
            Some(files) => build_file_prompt(
                copy_files(files),
                pb,
                &ctx,
                extra,
                paths,
                self.diff_svc.max_tokens(),
                system_tokens,
            ),
            None => build_diff_prompt_from_parsed(
                files_changed,
                parsed,
                pb,
                &ctx,
                extra,
                paths,
                &self.diff_svc,
                system_tokens,
            ),
        };
        Some(Prepared { system, system_tokens, built })
    }

    /// What follows an answer. One that was cut off is asked for once more;
    /// of any other the findings are extracted, and where some of them are
    /// malformed, they are asked to be mended.
    pub fn on_answer(&self, out: &ChatOutput, retried: bool) -> (r: AnswerStep)
        ensures
            if !retried && cut_off(*out) {
                r == AnswerStep::AskAgain(retry_limit(self.ai.max_completion_tokens))
            } else if needs_repair(answer_extract(out.content@)) {
                r matches AnswerStep::Repair(d, m) && d.extract() == answer_extract(out.content@)
                    && d.output_tokens == reported_tokens(*out) && m@ == repair_prompt(
                    answer_extract(out.content@).dropped_count,
                )
            } else {
                r matches AnswerStep::Ready(d) && d.extract() == answer_extract(out.content@)
                    && d.output_tokens == reported_tokens(*out)
            },
    {
        let tokens = output_tokens(out);
        if !retried && was_cut_off(out) {
            let half: u32 = self.ai.max_completion_tokens() / 2;
            return AnswerStep::AskAgain(
                if half >= MIN_RETRY_TOKENS {
                    half
                } else {
                    MIN_RETRY_TOKENS
                },
            );
        }
        let e = extract_answer(out.content.as_str());
        assert(e@.findings.len() == e.findings@.len());
        let repair = e.dropped_count > 0 && e.findings.len() > 0;
        let draft = Draft {
            review_text: e.review_text,
            findings: e.findings,
            dropped_count: e.dropped_count,
            output_tokens: tokens,
        };
        if repair {
            let mut m = "Your previous JSON had ".to_owned();
            m.push_str(decimal_of(draft.dropped_count as u64).as_str());
            m.push_str(
                " malformed finding(s). Fix and output ONLY the corrected JSON array. Errors were: invalid severity, invalid category, missing required fields ('severity', 'category', 'message'), or empty 'message'.",
            );
            AnswerStep::Repair(draft, m)
        } else {
            AnswerStep::Ready(draft)
        }
    }

    /// What follows the attempt to mend malformed findings: where it gave
    /// usable findings, they count; else the first answer does.
    pub fn on_repair(draft: Draft, repaired: Option<&ChatOutput>) -> (r: Draft)
        ensures
            r.output_tokens == draft.output_tokens,
            match repaired {
                Some(out) => if answer_extract(out.content@).findings.len() > 0 {
                    r.extract() == answer_extract(out.content@)
                } else {
                    r == draft
                },
                None => r == draft,
            },
    {
        match repaired {
            Some(out) => {
                let e = extract_answer(out.content.as_str());
                assert(e@.findings.len() == e.findings@.len());
                if e.findings.len() > 0 {
                    Draft {
                        review_text: e.review_text,
                        findings: e.findings,
                        dropped_count: e.dropped_count,
                        output_tokens: draft.output_tokens,
                    }
                } else {
                    draft
                }
            },
            None => draft,
        }
    }

    /// What is done about posting a review.
    pub fn post_step(&self, options: &ReviewOptions, source: &ResolvedSource) -> (r: PostStep)
        ensures
            r == posting(self.github is Some, *options, *source),
    {
        if !options.post_to_github {
            PostStep::NotAsked
        } else if source.owner.is_none() || source.repo.is_none() {
            PostStep::NotAPullRequest
        } else if source.pr_number.is_none() {
            PostStep::NoNumber
        } else if self.github.is_none() {
            PostStep::NoToken
        } else if options.sticky {
            PostStep::Update
        } else {
            PostStep::Publish
        }
    }

    /// The tokens of a review can be added up.
    pub open spec fn adds_tokens(prepared: Prepared, output: Option<u32>) -> bool {
        output matches Some(n) ==> prepared.system_tokens + prepared.built.input_tokens_estimated
            + n <= usize::MAX
    }

    /// The result is that of the draft.
    pub open spec fn is_finished(
        self,
        r: ReviewResult,
        source: ResolvedSource,
        prepared: Prepared,
        draft: Draft,
        latency_ms: u64,
    ) -> bool {
        &&& r.review_text == draft.review_text
        &&& r.findings == draft.findings
        &&& r.pr_number == source.pr_number
        &&& opt_view(r.pr_title) == opt_view(source.pr_title)
        &&& r.session_id is None
        &&& self.stats_of(r.stats, source, latency_ms)
        &&& r.stats.files_changed == prepared.built.files_changed
        &&& r.stats.files_reviewed == prepared.built.files_reviewed
        &&& r.stats.files_skipped == prepared.built.files_skipped
        &&& r.stats.files_path_filtered == prepared.built.files_path_filtered
        &&& r.stats.files_budget_dropped == prepared.built.files_budget_dropped
        &&& r.stats.input_tokens_estimated == prepared.built.input_tokens_estimated
        &&& r.stats.system_tokens_estimated == prepared.system_tokens
        &&& r.stats.output_tokens_reported == draft.output_tokens
        &&& match r.stats.total_tokens_used {
            Some(n) => total_tokens(
                prepared.system_tokens as nat,
                prepared.built.input_tokens_estimated as nat,
                draft.output_tokens,
            ) == Some(n as nat),
            None => draft.output_tokens is None,
        }
    }

    /// The result of a review.
    pub fn finish(
        &self,
        source: &ResolvedSource,
        prepared: &Prepared,
        draft: Draft,
        latency_ms: u64,
    ) -> (r: ReviewResult)
        requires
            ReviewEngine::adds_tokens(*prepared, draft.output_tokens),
        ensures
            self.is_finished(r, *source, *prepared, draft, latency_ms),
            prepared.built.adds_up() ==> r.stats.adds_up(),
    {
        let total_tokens_used = sum_tokens(
            prepared.system_tokens,
            prepared.built.input_tokens_estimated,
            draft.output_tokens,
        );
        let mut prompt_version = source.domain.clone();
        prompt_version.push_str("/1");
        let pr_title = match &source.pr_title {
            Some(t) => Some(t.clone()),
            None => None,
        };
        ReviewResult {
            review_text: draft.review_text,
            findings: draft.findings,
            pr_number: source.pr_number,
            pr_title,
            session_id: None,
            stats: ReviewStats {
                files_changed: prepared.built.files_changed,
                files_reviewed: prepared.built.files_reviewed,
                files_skipped: prepared.built.files_skipped,
                files_path_filtered: prepared.built.files_path_filtered,
                files_budget_dropped: prepared.built.files_budget_dropped,
                input_tokens_estimated: prepared.built.input_tokens_estimated,
                system_tokens_estimated: prepared.system_tokens,
                output_tokens_reported: draft.output_tokens,
                total_tokens_used,
                latency_ms,
                model: self.ai.model.clone(),
                prompt_version,
                domain: source.domain.clone(),
            },
        }
    }

    /// What the statistics say of how the review was made.
    pub open spec fn stats_of(
        self,
        stats: ReviewStats,
        source: ResolvedSource,
        latency_ms: u64,
    ) -> bool {
        &&& stats.latency_ms == latency_ms
        &&& stats.model == self.ai.model
        &&& stats.prompt_version@ == source.domain@ + "/1"@
        &&& stats.domain == source.domain
    }
}

// ---------------------------------------------------------------------------
// Files reviewed each on its own

/// The prompts of files that are reviewed each on its own.
pub struct ConcurrentPlan {
    /// How many files there are, with those that the path filter leaves out.
    pub files_changed: usize,
    pub system: String,
    pub system_tokens: usize,
    /// One user prompt for each file that passes the path filter.
    pub users: Vec<String>,
    /// The estimated tokens of each user prompt.
    pub input_tokens: Vec<usize>,
}

/// The sum of the first `n` numbers.
pub open spec fn sum_of(numbers: Seq<usize>, n: int) -> nat
    decreases n,
{
    if n <= 0 {
        0
    } else {
        sum_of(numbers, n - 1) + numbers[n - 1] as nat
    }
}

proof fn lemma_sum_grows(numbers: Seq<usize>, i: int, n: int)
    requires
        0 <= i <= n,
    ensures
        sum_of(numbers, i) <= sum_of(numbers, n),
    decreases n,
{
    if i < n {
        lemma_sum_grows(numbers, i, n - 1);
    }
}

impl ConcurrentPlan {
    /// The tokens of all user prompts together.
    pub open spec fn total_input(self) -> nat {
        sum_of(self.input_tokens@, self.input_tokens@.len() as int)
    }

    /// The tokens of all user prompts together; nothing where the number is too
    /// large to hold.
    pub fn input_total(&self) -> (r: Option<usize>)
        ensures
            match r {
                Some(n) => n == self.total_input(),
                None => self.total_input() > usize::MAX,
            },
    {
        let mut total: usize = 0;
        let mut i: usize = 0;
        while i < self.input_tokens.len()
            invariant
                i <= self.input_tokens@.len(),
                total == sum_of(self.input_tokens@, i as int),
            decreases self.input_tokens@.len() - i,
        {
            if self.input_tokens[i] > usize::MAX - total {
                proof {
                    lemma_sum_grows(self.input_tokens@, i + 1, self.input_tokens@.len() as int);
                }
                return None;
            }
            total = total + self.input_tokens[i];
            i += 1;
        }
        Some(total)
    }
}

/// What the answers to several prompts come to.
#[verifier::ext_equal]
pub struct MergedView {
    pub review_text: Seq<char>,
    pub findings: Seq<FindingView>,
    pub succeeded: nat,
}

/// What the answers come to: the texts with a rule between them, all findings,
/// and how many there are. A prompt without an answer is passed over.
pub open spec fn merged(answers: Seq<Option<ChatOutput>>) -> MergedView
    decreases answers.len(),
{
    if answers.len() == 0 {
        MergedView {
            review_text: Seq::empty(),
            findings: Seq::empty(),
            succeeded: 0,
        }
    } else {
        let front = merged(answers.drop_last());
        match answers.last() {
            None => front,
            Some(out) => {
                let e = answer_extract(out.content@);
                MergedView {
                    review_text: if front.review_text.len() == 0 {
                        e.review_text
                    } else {
                        front.review_text + "\n\n---\n\n"@ + e.review_text
                    },
                    findings: front.findings + e.findings,
                    succeeded: front.succeeded + 1,
                }
            },
        }
    }
}

/// The tokens that the answers are reported to have taken together; nothing
/// where none of them reports any.
pub open spec fn reported_total(answers: Seq<Option<ChatOutput>>) -> Option<nat>
    decreases answers.len(),
{
    if answers.len() == 0 {
        None
    } else {
        let front = reported_total(answers.drop_last());
        match answers.last() {
            Some(out) => match (front, reported_tokens(out)) {
                (Some(m), Some(n)) => Some(m + n as nat),
                (None, Some(n)) => Some(n as nat),
                (_, None) => front,
            },
            None => front,
        }
    }
}

/// The tokens of the first answers are no more than those of all.
proof fn lemma_total_grows(answers: Seq<Option<ChatOutput>>, i: int)
    requires
        0 <= i <= answers.len(),
    ensures
        reported_total(answers.take(i)) matches Some(m) ==> reported_total(answers) matches Some(n)
            && m <= n,
    decreases answers.len() - i,
{
    if i < answers.len() {
        assert(answers.take(i + 1).drop_last() =~= answers.take(i));
        lemma_total_grows(answers, i + 1);
    } else {
        assert(answers.take(i) =~= answers);
    }
}

/// The number of tokens as one that can be reported.
pub open spec fn is_reported(total: Option<nat>, tokens: Option<u32>) -> bool {
    match tokens {
        Some(n) => total == Some(n as nat),
        None => total is None,
    }
}

/// The tokens that the answers are reported to have taken together, where that
/// many can be reported.
pub fn total_reported(answers: &Vec<Option<ChatOutput>>) -> (r: Result<Option<u32>, ()>)
    ensures
        match r {
            Ok(tokens) => is_reported(reported_total(answers@), tokens),
            Err(()) => reported_total(answers@) matches Some(n) && n > u32::MAX,
        },
{
    let mut total: Option<u32> = None;
    let mut i: usize = 0;
    while i < answers.len()
        invariant
            i <= answers@.len(),
            is_reported(reported_total(answers@.take(i as int)), total),
        decreases answers@.len() - i,
    {
        assert(answers@.take(i + 1).drop_last() =~= answers@.take(i as int));
        match &answers[i] {
            Some(out) => match (total, output_tokens(out)) {
                (Some(m), Some(n)) => {
                    if n > u32::MAX - m {
                        proof {
                            lemma_total_grows(answers@, i + 1);
                        }
                        return Err(());
                    }
                    total = Some(m + n);
                },
                (None, Some(n)) => {
                    total = Some(n);
                },
                (_, None) => {},
            },
            None => {},
        }
        i += 1;
    }
    assert(answers@.take(i as int) =~= answers@);
    Ok(total)
}

/// There are no more answers than prompts.
pub proof fn merged_counts(answers: Seq<Option<ChatOutput>>)
    ensures
        merged(answers).succeeded <= answers.len(),
    decreases answers.len(),
{
    if answers.len() > 0 {
        merged_counts(answers.drop_last());
    }
}

/// The tokens of the answers are the sum of those that are reported: one more
/// answer adds its tokens, and one that reports none, or no answer, adds none.
pub proof fn reported_tokens_add_up(answers: Seq<Option<ChatOutput>>, more: Option<ChatOutput>)
    ensures
        ({
            let before = match reported_total(answers) {
                Some(n) => n,
                None => 0,
            };
            let added = match more {
                Some(out) => reported_tokens(out),
                None => None,
            };
            match added {
                Some(n) => reported_total(answers.push(more)) == Some(before + n as nat),
                None => reported_total(answers.push(more)) == reported_total(answers),
            }
        }),
{
    assert(answers.push(more).drop_last() =~= answers);
}

proof fn lemma_single_kept(file: FileContent, budget: nat)
    ensures
        content_selected(seq![file], Seq::empty()) == seq![file],
        content_within_budget(seq![file], budget) == seq![file],
{
    let files = seq![file];
    let none = Seq::<Seq<char>>::empty();
    reveal_with_fuel(kept, 2);
    reveal_with_fuel(crate::budget::count_set, 2);
    assert(files.drop_last() =~= Seq::<FileContent>::empty());
    let flags = content_flags(files, none);
    assert(flags.last());
    assert(kept(files, flags) =~= files);
    let weights = crate::services::file_reader::content_weights(files);
    let all = all_set(1);
    lemma_all_set(1);
    within_budget_narrows(weights, all, budget);
    let left = within_budget(weights, all, budget);
    assert(left.drop_last() =~= Seq::<bool>::empty());
    assert(left.last());
    assert(kept(files, left) =~= files);
}

impl ReviewEngine {
    /// The plan holds one prompt for each file that passes the path filter, with
    /// that file alone, and a system prompt without rules.
    pub open spec fn is_plan(
        plan: ConcurrentPlan,
        source: ResolvedSource,
        files: Seq<FileContent>,
        pb: PromptBuilder,
        extra: Seq<char>,
        paths: Seq<Seq<char>>,
    ) -> bool {
        let selected = content_selected(files, paths);
        &&& plan.files_changed == files.len()
        &&& plan.system@ == replace(pb.system_prompt@, "{system_rule}"@, ""@)
        &&& plan.system_tokens == tokens_of(plan.system@)
        &&& plan.users@.len() == selected.len()
        &&& plan.input_tokens@.len() == selected.len()
        &&& forall|i: int|
            0 <= i < selected.len() ==> (#[trigger] plan.users@[i])@ == pb.content_prompt(
                source.single_context_view(),
                seq![selected[i]],
                extra,
            ) && plan.input_tokens@[i] == tokens_of(plan.users@[i]@)
    }

    /// The prompts for files that are reviewed each on its own, without rules.
    /// No prompt is made for a file that the path filter leaves out.
    pub fn plan_concurrent(
        source: &ResolvedSource,
        files: &Vec<FileContent>,
        pb: &PromptBuilder,
        extra: &str,
        paths: &Vec<String>,
    ) -> (r: ConcurrentPlan)
        ensures
            ReviewEngine::is_plan(r, *source, files@, *pb, extra@, views(paths@)),
            r.users@.len() <= r.files_changed,
    {
        let system = pb.system_prompt("");
        let system_tokens: usize = pb.system_prompt_tokens("");
        let flags = flag_contents(files, paths);
        proof {
            kept_length(files@, flags@);
        }
        let selected = retain(copy_files(files), &flags);
        let no_filter: Vec<String> = Vec::new();
        assert(views(no_filter@) =~= Seq::<Seq<char>>::empty());
        let mut users: Vec<String> = Vec::new();
        let mut input_tokens: Vec<usize> = Vec::new();
        let mut i: usize = 0;
        while i < selected.len()
            invariant
                i <= selected@.len(),
                users@.len() == i,
                input_tokens@.len() == i,
                views(no_filter@) == Seq::<Seq<char>>::empty(),
                forall|j: int|
                    0 <= j < i ==> (#[trigger] users@[j])@ == pb.content_prompt(
                        source.single_context_view(),
                        seq![selected@[j]],
                        extra@,
                    ) && input_tokens@[j] == tokens_of(users@[j]@),
            decreases selected@.len() - i,
        {
            let mut single: Vec<FileContent> = Vec::new();
            single.push(selected[i].clone());
            assert(single@ =~= seq![selected@[i as int]]);
            proof {
                lemma_single_kept(
                    selected@[i as int],
                    effective_budget(SINGLE_FILE_BUDGET as nat, 1, system_tokens as nat, extra@),
                );
            }
            let ctx = source.single_context();
            let built = build_file_prompt(
                single,
                pb,
                &ctx,
                extra,
                &no_filter,
                SINGLE_FILE_BUDGET,
                system_tokens,
            );
            users.push(built.user);
            input_tokens.push(built.input_tokens_estimated);
            i += 1;
        }
        ConcurrentPlan { files_changed: files.len(), system, system_tokens, users, input_tokens }
    }

    /// There is one answer, or none, to each prompt of a plan, no more prompts
    /// than files, and the tokens can be added up.
    pub open spec fn merges(plan: ConcurrentPlan, answers: Seq<Option<ChatOutput>>) -> bool {
        &&& answers.len() == plan.users@.len()
        &&& plan.users@.len() <= plan.files_changed
        &&& plan.total_input() <= usize::MAX
        &&& reported_total(answers) matches Some(n) ==> n <= u32::MAX && plan.system_tokens
            + plan.total_input() + n <= usize::MAX
    }

    /// The result is that of the answers to a plan.
    pub open spec fn is_merged(
        self,
        r: ReviewResult,
        source: ResolvedSource,
        plan: ConcurrentPlan,
        answers: Seq<Option<ChatOutput>>,
        latency_ms: u64,
    ) -> bool {
        let m = merged(answers);
        &&& r.review_text@ == sanitized(m.review_text)
        &&& finding_views(r.findings@) == m.findings
        &&& r.pr_number == source.pr_number
        &&& opt_view(r.pr_title) == opt_view(source.pr_title)
        &&& r.session_id is None
        &&& self.stats_of(r.stats, source, latency_ms)
        &&& r.stats.files_changed == plan.files_changed
        &&& r.stats.files_reviewed == m.succeeded
        &&& r.stats.files_skipped == answers.len() - m.succeeded
        &&& r.stats.files_path_filtered == plan.files_changed - answers.len()
        &&& r.stats.files_budget_dropped == 0
        &&& r.stats.input_tokens_estimated == plan.total_input()
        &&& r.stats.system_tokens_estimated == plan.system_tokens
        &&& is_reported(reported_total(answers), r.stats.output_tokens_reported)
        &&& match r.stats.total_tokens_used {
            Some(n) => reported_total(answers) matches Some(out) && n == plan.system_tokens
                + plan.total_input() + out,
            None => reported_total(answers) is None,
        }
    }

    /// The result of a review of files each on its own, given the answer to
    /// each prompt, where there was one.
    pub fn merge_concurrent(
        &self,
        source: &ResolvedSource,
        plan: &ConcurrentPlan,
        answers: &Vec<Option<ChatOutput>>,
        latency_ms: u64,
    ) -> (r: ReviewResult)
        requires
            ReviewEngine::merges(*plan, answers@),
        ensures
            self.is_merged(r, *source, *plan, answers@, latency_ms),
            r.stats.adds_up(),
    {
        let mut review_text = String::new();
        let mut findings: Vec<ReviewFinding> = Vec::new();
        let mut succeeded: usize = 0;
        let mut i: usize = 0;
        assert(finding_views(findings@) =~= merged(answers@.take(0)).findings);
        while i < answers.len()
            invariant
                i <= answers@.len(),
                succeeded <= i,
                (MergedView {
                    review_text: review_text@,
                    findings: finding_views(findings@),
                    succeeded: succeeded as nat,
                }) == merged(answers@.take(i as int)),
            decreases answers@.len() - i,
        {
            assert(answers@.take(i + 1).drop_last() =~= answers@.take(i as int));
            match &answers[i] {
                Some(out) => {
                    let e = extract_answer(out.content.as_str());
                    if review_text.as_str().is_empty() {
                        review_text = e.review_text;
                    } else {
                        review_text.push_str("\n\n---\n\n");
                        review_text.push_str(e.review_text.as_str());
                    }
                    let mut more = e.findings;
                    proof {
                        assert(finding_views(findings@ + more@) =~= finding_views(findings@)
                            + finding_views(more@));
                    }
                    findings.append(&mut more);
                    succeeded += 1;
                },
                None => {},
            }
            i += 1;
        }
        proof {
            assert(answers@.take(i as int) =~= answers@);
            merged_counts(answers@);
        }
        let input: usize = match plan.input_total() {
            Some(n) => n,
            None => 0,
        };
        let mut prompt_version = source.domain.clone();
        prompt_version.push_str("/1");
        let pr_title = match &source.pr_title {
            Some(t) => Some(t.clone()),
            None => None,
        };
        let tokens = match total_reported(answers) {
            Ok(t) => t,
            Err(()) => None,
        };
        let total_tokens_used = sum_tokens(plan.system_tokens, input, tokens);
        ReviewResult {
            review_text: sanitize_output(review_text.as_str()),
            findings,
            pr_number: source.pr_number,
            pr_title,
            session_id: None,
            stats: ReviewStats {
                files_changed: plan.files_changed,
                files_reviewed: succeeded,
                files_skipped: answers.len() - succeeded,
                files_path_filtered: plan.files_changed - answers.len(),
                files_budget_dropped: 0,
                input_tokens_estimated: input,
                system_tokens_estimated: plan.system_tokens,
                output_tokens_reported: tokens,
                total_tokens_used,
                latency_ms,
                model: self.ai.model.clone(),
                prompt_version,
                domain: source.domain.clone(),
            },
        }
    }
}

// ---------------------------------------------------------------------------
// What holds of reviews

/// A review is only ever posted where it was asked for, about a pull request,
/// and with a token; and only then.
pub proof fn posts_only_when_asked(github: bool, options: ReviewOptions, source: ResolvedSource)
    ensures
        (posting(github, options, source) == PostStep::Publish || posting(github, options, source)
            == PostStep::Update) <==> (options.post_to_github && source.owner is Some
            && source.repo is Some && source.pr_number is Some && github),
        posting(github, options, source) == PostStep::Update ==> options.sticky,
{
}

/// A source that is no pull request is never posted.
pub proof fn local_sources_are_not_posted(github: bool, options: ReviewOptions, source: ResolvedSource)
    requires
        is_local(source),
    ensures
        posting(github, options, source) == PostStep::NotAsked || posting(github, options, source)
            == PostStep::NotAPullRequest,
{
}

/// Of the files that pass the path filter at least one is reviewed, however
/// small the budget is.
pub proof fn one_file_is_always_reviewed(files: Seq<DiffFile>, budget: nat)
    requires
        files.len() > 0,
    ensures
        diff_within_budget(files, budget).len() > 0,
{
    let weights = crate::tokens::diff_weights(files);
    let flags = all_set(files.len());
    lemma_all_set(files.len());
    within_budget_narrows(weights, flags, budget);
    kept_length(files, within_budget(weights, flags, budget));
}

/// Without a path filter no file is filtered out.
pub proof fn no_filter_keeps_all(files: Seq<DiffFile>)
    ensures
        diff_selected(files, Seq::empty()) == files,
    decreases files.len(),
{
    let none = Seq::<Seq<char>>::empty();
    if files.len() > 0 {
        let front = files.drop_last();
        no_filter_keeps_all(front);
        assert(diff_flags(files, none).drop_last() =~= diff_flags(front, none));
        assert(front.push(files.last()) =~= files);
    } else {
        assert(diff_selected(files, none) =~= files);
    }
}

/// Of files that are reviewed each on its own, those that the path filter leaves
/// out are counted as such, and the rest as reviewed or skipped.
pub proof fn files_outside_the_filter_are_counted(
    engine: ReviewEngine,
    source: ResolvedSource,
    files: Seq<FileContent>,
    pb: PromptBuilder,
    extra: Seq<char>,
    paths: Seq<Seq<char>>,
    plan: ConcurrentPlan,
    answers: Seq<Option<ChatOutput>>,
    latency_ms: u64,
    r: ReviewResult,
)
    requires
        ReviewEngine::is_plan(plan, source, files, pb, extra, paths),
        ReviewEngine::merges(plan, answers),
        engine.is_merged(r, source, plan, answers, latency_ms),
    ensures
        r.stats.files_changed == files.len(),
        r.stats.files_path_filtered == files.len() - content_selected(files, paths).len(),
        r.stats.files_reviewed + r.stats.files_skipped == content_selected(files, paths).len(),
{
    merged_counts(answers);
}

/// Every finding of a merged review is valid.
pub proof fn merged_findings_are_valid(answers: Seq<Option<ChatOutput>>)
    ensures
        forall|i: int|
            0 <= i < merged(answers).findings.len() ==> valid_finding(
                #[trigger] merged(answers).findings[i],
            ),
    decreases answers.len(),
{
    if answers.len() > 0 {
        merged_findings_are_valid(answers.drop_last());
        match answers.last() {
            None => {},
            Some(out) => {
                extraction_is_exhaustive(sanitized(out.content@));
                let front = merged(answers.drop_last()).findings;
                let more = answer_extract(out.content@).findings;
                assert(merged(answers).findings == front + more);
                assert forall|i: int| 0 <= i < (front + more).len() implies valid_finding(
                    #[trigger] (front + more)[i],
                ) by {
                    if i < front.len() {
                        assert((front + more)[i] == front[i]);
                    } else {
                        assert((front + more)[i] == more[i - front.len()]);
                    }
                }
            },
        }
    }
}

/// The findings of a merged review are those of the answers, one after the other: what
/// an answer brings neither adds to nor takes from what another brings. An answer
/// brings what is extracted from it, and a prompt without an answer brings nothing.
pub proof fn answers_are_merged_one_after_the_other(
    a: Seq<Option<ChatOutput>>,
    b: Seq<Option<ChatOutput>>,
    out: ChatOutput,
)
    ensures
        merged(a + b).findings == merged(a).findings + merged(b).findings,
        merged(a + b).succeeded == merged(a).succeeded + merged(b).succeeded,
        merged(seq![Some(out)]).findings == extracted(sanitized(out.content@)).findings,
        merged(seq![Some(out)]).succeeded == 1,
        merged(seq![None::<ChatOutput>]).findings.len() == 0,
        merged(seq![None::<ChatOutput>]).succeeded == 0,
        merged(Seq::empty()).findings.len() == 0,
        merged(Seq::empty()).succeeded == 0,
    decreases b.len(),
{
    reveal_with_fuel(merged, 2);
    let none = Seq::<Option<ChatOutput>>::empty();
    assert(seq![Some(out)].drop_last() =~= none);
    assert(seq![None::<ChatOutput>].drop_last() =~= none);
    assert(merged(seq![Some(out)]).findings =~= extracted(sanitized(out.content@)).findings);
    if b.len() == 0 {
        assert(a + b =~= a);
        assert(merged(a).findings + merged(b).findings =~= merged(a).findings);
    } else {
        answers_are_merged_one_after_the_other(a, b.drop_last(), out);
        assert((a + b).drop_last() =~= a + b.drop_last());
        assert(merged(a + b).findings =~= merged(a).findings + merged(b).findings);
    }
}

/// The text of a merged review grows by what each answer says, behind a rule where
/// there is text before it, and never loses what an earlier answer said.
pub proof fn merged_texts_are_kept(answers: Seq<Option<ChatOutput>>, out: ChatOutput)
    ensures
        ({
            let before = merged(answers).review_text;
            let said = sanitized(extracted(sanitized(out.content@)).review_text);
            &&& merged(answers.push(None)).review_text == before
            &&& before.len() == 0 ==> merged(answers.push(Some(out))).review_text == said
            &&& before.len() > 0 ==> merged(answers.push(Some(out))).review_text == before
                + "\n\n---\n\n"@ + said
        }),
{
    assert(answers.push(None).drop_last() =~= answers);
    assert(answers.push(Some(out)).drop_last() =~= answers);
}

/// The findings of every answer are among those of the result, in one piece and in the
/// order of the answers.
pub proof fn every_answer_is_in_the_result(
    engine: ReviewEngine,
    source: ResolvedSource,
    plan: ConcurrentPlan,
    answers: Seq<Option<ChatOutput>>,
    latency_ms: u64,
    r: ReviewResult,
    i: int,
    out: ChatOutput,
)
    requires
        engine.is_merged(r, source, plan, answers, latency_ms),
        0 <= i < answers.len(),
        answers[i] == Some(out),
    ensures
        finding_views(r.findings@) == merged(answers.take(i)).findings + extracted(
            sanitized(out.content@),
        ).findings + merged(answers.skip(i + 1)).findings,
{
    let front = answers.take(i);
    let one = seq![Some(out)];
    let rest = answers.skip(i + 1);
    assert(answers =~= front + one + rest);
    answers_are_merged_one_after_the_other(front + one, rest, out);
    answers_are_merged_one_after_the_other(front, one, out);
}

/// What is said of findings is all that they hold.
pub proof fn views_of_findings_tell_all(findings: Seq<ReviewFinding>, i: int)
    requires
        0 <= i < findings.len(),
    ensures
        ({
            let f = findings[i];
            let v = finding_views(findings)[i];
            &&& finding_views(findings).len() == findings.len()
            &&& v.severity == f.severity@
            &&& v.category == f.category@
            &&& v.message == f.message@
            &&& v.line == f.line
            &&& (f.file is None ==> v.file is None)
            &&& (f.file matches Some(n) ==> v.file == Some(n@))
            &&& (f.suggestion is None ==> v.suggestion is None)
            &&& (f.suggestion matches Some(n) ==> v.suggestion == Some(n@))
        }),
{
}

/// With a path filter, the files that are reviewed are those whose path begins with one
/// of the prefixes, in their order.
pub proof fn the_filter_keeps_what_begins_alike(
    files: Seq<DiffFile>,
    contents: Seq<FileContent>,
    paths: Seq<Seq<char>>,
)
    requires
        paths.len() > 0,
    ensures
        diff_selected(files, paths) == files.filter(
            |f: DiffFile|
                exists|i: int|
                    0 <= i < paths.len() && (#[trigger] paths[i]).len() > 0 && starts_with(
                        f.filename@,
                        paths[i],
                    ),
        ),
        content_selected(contents, paths) == contents.filter(
            |f: FileContent|
                exists|i: int|
                    0 <= i < paths.len() && (#[trigger] paths[i]).len() > 0 && starts_with(
                        f.path@,
                        paths[i],
                    ),
        ),
{
    let p = |f: DiffFile|
        exists|i: int|
            0 <= i < paths.len() && (#[trigger] paths[i]).len() > 0 && starts_with(
                f.filename@,
                paths[i],
            );
    assert forall|k: int| 0 <= k < files.len() implies diff_flags(files, paths)[k] == #[trigger] p(
        files[k],
    ) by {}
    lemma_kept_is_filter(files, diff_flags(files, paths), p);
    let q = |f: FileContent|
        exists|i: int|
            0 <= i < paths.len() && (#[trigger] paths[i]).len() > 0 && starts_with(
                f.path@,
                paths[i],
            );
    assert forall|k: int|
        0 <= k < contents.len() implies content_flags(contents, paths)[k] == #[trigger] q(
        contents[k],
    ) by {}
    lemma_kept_is_filter(contents, content_flags(contents, paths), q);
}

/// Without a path filter no source file is filtered out.
pub proof fn no_filter_keeps_all_contents(files: Seq<FileContent>)
    ensures
        content_selected(files, Seq::empty()) == files,
    decreases files.len(),
{
    let none = Seq::<Seq<char>>::empty();
    if files.len() > 0 {
        let front = files.drop_last();
        no_filter_keeps_all_contents(front);
        assert(content_flags(files, none).drop_last() =~= content_flags(front, none));
        assert(front.push(files.last()) =~= files);
    } else {
        assert(content_selected(files, none) =~= files);
    }
}

/// The instructions of the settings and of the request are both handed on, the first
/// before the second; without the one, the other alone.
pub proof fn instructions_are_both_handed_on(config: Seq<char>, request: Seq<char>)
    ensures
        merged_instructions(Seq::empty(), request) == trim(request),
        merged_instructions(config, Seq::empty()) == trim(config),
        config.len() > 0 && request.len() > 0 ==> {
            let both = merged_instructions(config, request);
            &&& starts_with(both, trim(config))
            &&& ends_with(both, trim(request))
            &&& both.len() == trim(config).len() + 2 + trim(request).len()
        },
{
    reveal_strlit("\n\n");
    if config.len() == 0 {
        assert(config =~= Seq::<char>::empty());
    }
    let both = trim(config) + "\n\n"@ + trim(request);
    assert(both.subrange(0, trim(config).len() as int) =~= trim(config));
    assert(both.subrange(both.len() - trim(request).len(), both.len() as int) =~= trim(request));
}

/// The budget for the files is what is left of the limit: with the frame of the prompt,
/// the entry of each file, the system prompt and the instructions it makes up the limit,
/// and where these alone take all of it there is none.
pub proof fn budgets_are_what_is_left(
    max_tokens: nat,
    files: nat,
    system_tokens: nat,
    extra: Seq<char>,
)
    ensures
        ({
            let left = effective_budget(max_tokens, files, system_tokens, extra);
            let asked = if extra.len() == 0 {
                0
            } else {
                tokens_of(extra) as nat + 10
            };
            &&& left > 0 ==> left + 100 + 20 * files + system_tokens + asked == max_tokens
            &&& left == 0 <==> 100 + 20 * files + system_tokens + asked >= max_tokens
        }),
{
}

/// The prompt for a diff shows every file that passes the filter and fits, and the
/// counts tell what became of the others.
pub proof fn prompts_show_what_is_reviewed(
    built: BuiltPrompt,
    files_changed: nat,
    filtered: Seq<DiffFile>,
    pb: PromptBuilder,
    ctx: ContextView,
    extra: Seq<char>,
    paths: Seq<Seq<char>>,
    max_tokens: nat,
    system_tokens: nat,
    i: int,
)
    requires
        built.is_for_diff(
            files_changed,
            filtered,
            pb,
            ctx,
            extra,
            paths,
            max_tokens,
            system_tokens,
        ),
        contains(pb.user_template@, "{content_format}"@),
    ensures
        ({
            let selected = diff_selected(filtered, paths);
            let budget = effective_budget(max_tokens, selected.len(), system_tokens, extra);
            let reviewed = diff_within_budget(selected, budget);
            &&& built.files_changed == files_changed
            &&& files_changed >= filtered.len() ==> built.files_skipped + filtered.len()
                == files_changed
            &&& files_changed < filtered.len() ==> built.files_skipped == 0
            &&& built.input_tokens_estimated == tokens_of(built.user@)
            &&& built.files_reviewed == reviewed.len()
            &&& built.files_reviewed + built.files_budget_dropped == selected.len()
            &&& built.files_path_filtered + selected.len() == filtered.len()
            &&& 0 <= i < reviewed.len() ==> contains(built.user@, file_text(reviewed[i]))
            &&& tokens_together(selected) <= budget ==> reviewed == selected
                && built.files_budget_dropped == 0
            &&& 0 <= i < selected.len() && tokens_together(selected) <= budget ==> contains(
                built.user@,
                file_text(selected[i]),
            )
        }),
{
    let selected = diff_selected(filtered, paths);
    let budget = effective_budget(max_tokens, selected.len(), system_tokens, extra);
    let reviewed = diff_within_budget(selected, budget);
    files_are_dropped_for_want_of_room(selected, budget);
    if 0 <= i < reviewed.len() {
        prompts_show_every_diff(pb, ctx, reviewed, extra, i);
    }
}

/// The prompt for source files shows every file that passes the filter and fits.
pub proof fn prompts_show_what_is_read(
    built: BuiltPrompt,
    files: Seq<FileContent>,
    pb: PromptBuilder,
    ctx: ContextView,
    extra: Seq<char>,
    paths: Seq<Seq<char>>,
    max_tokens: nat,
    system_tokens: nat,
    i: int,
)
    requires
        built.is_for_files(files, pb, ctx, extra, paths, max_tokens, system_tokens),
        contains(pb.user_template@, "{content_format}"@),
    ensures
        ({
            let selected = content_selected(files, paths);
            let budget = effective_budget(max_tokens, selected.len(), system_tokens, extra);
            let reviewed = content_within_budget(selected, budget);
            &&& built.files_changed == files.len()
            &&& built.files_skipped == 0
            &&& built.input_tokens_estimated == tokens_of(built.user@)
            &&& built.files_reviewed == reviewed.len()
            &&& built.files_reviewed + built.files_budget_dropped == selected.len()
            &&& built.files_path_filtered + selected.len() == files.len()
            &&& 0 <= i < reviewed.len() ==> contains(built.user@, file_block(reviewed[i]))
            &&& content_together(selected) <= budget ==> reviewed == selected
                && built.files_budget_dropped == 0
        }),
{
    let selected = content_selected(files, paths);
    let budget = effective_budget(max_tokens, selected.len(), system_tokens, extra);
    let reviewed = content_within_budget(selected, budget);
    source_files_are_dropped_for_want_of_room(selected, budget);
    if 0 <= i < reviewed.len() {
        prompts_show_every_file(pb, ctx, reviewed, extra, i);
    }
}

/// Of files that are reviewed each on its own, every one that passes the filter has a
/// prompt of its own, which shows it.
pub proof fn every_file_has_its_own_prompt(
    plan: ConcurrentPlan,
    source: ResolvedSource,
    files: Seq<FileContent>,
    pb: PromptBuilder,
    extra: Seq<char>,
    paths: Seq<Seq<char>>,
    i: int,
)
    requires
        ReviewEngine::is_plan(plan, source, files, pb, extra, paths),
        contains(pb.user_template@, "{content_format}"@),
        0 <= i < content_selected(files, paths).len(),
    ensures
        plan.files_changed == files.len(),
        plan.system_tokens == tokens_of(plan.system@),
        plan.input_tokens@[i] == tokens_of(plan.users@[i]@),
        plan.users@.len() == content_selected(files, paths).len(),
        contains(plan.users@[i]@, file_block(content_selected(files, paths)[i])),
{
    let selected = content_selected(files, paths);
    let one = seq![selected[i]];
    assert(plan.users@[i]@ == pb.content_prompt(source.single_context_view(), one, extra));
    prompts_show_every_file(pb, source.single_context_view(), one, extra, 0);
}

/// What the prompt tells of a source is what the source says; what it does not say is
/// empty, and only a title is made up.
pub proof fn contexts_tell_what_the_source_says(source: ResolvedSource)
    ensures
        ({
            let c = source.context_view();
            &&& source.pr_title matches Some(t) ==> c.title == t@ && source.single_context_view().title
                == t@
            &&& source.pr_title is None ==> c.title == "(untitled)"@
            &&& source.description matches Some(t) ==> c.description == t@
                && source.single_context_view().description == t@
            &&& source.description is None ==> c.description.len() == 0
            &&& source.owner matches Some(t) ==> c.owner == t@
            &&& source.owner is None ==> c.owner.len() == 0
            &&& source.repo matches Some(t) ==> c.repo == t@
            &&& source.repo is None ==> c.repo.len() == 0
            &&& source.author matches Some(t) ==> c.author == t@
            &&& source.author is None ==> c.author.len() == 0
            &&& source.branch matches Some(t) ==> c.branch == t@
            &&& source.branch is None ==> c.branch.len() == 0
            &&& source.base matches Some(t) ==> c.base == t@
            &&& source.base is None ==> c.base.len() == 0
            &&& c.language_hint == opt_view(source.language_hint)
            &&& source.single_context_view().owner.len() == 0
        }),
{
    reveal_strlit("");
}

/// What was fetched is what is reviewed: a diff as it is, a file or several as they
/// were read, under the title and in the domain that the source gives.
pub proof fn sources_come_to_what_was_fetched(
    source: ReviewSource,
    fetched: Fetched,
    s: ResolvedSource,
)
    requires
        answers(source, fetched),
        resolves_to(source, fetched, Ok(s)),
    ensures
        match (source, fetched) {
            (ReviewSource::PrUrl { owner, repo, number }, Fetched::PullRequest { pr, diff }) => {
                &&& s.raw_diff == diff && s.file_contents is None
                &&& s.owner == Some(owner) && s.repo == Some(repo) && s.pr_number == Some(number)
                &&& s.pr_title == Some(pr.title) && s.description == pr.body && s.author
                    == pr.author
                &&& s.branch == Some(pr.head_ref) && s.base == Some(pr.base_ref)
                &&& s.domain@ == "code"@
            },
            (ReviewSource::DiffText { diff, title, domain, description, language_hint }, _) => {
                &&& s.raw_diff == diff && s.file_contents is None
                &&& s.pr_title == Some(title) && s.description == description
                &&& s.domain == domain && s.language_hint == Some(language_hint)
                &&& s.owner is None && s.pr_number is None
            },
            (ReviewSource::Stdin { title, domain, language_hint }, Fetched::Stdin(diff)) => {
                &&& s.raw_diff == diff && s.file_contents is None
                &&& s.pr_title == Some(title) && s.domain == domain && s.language_hint == Some(
                    language_hint,
                )
                &&& s.owner is None && s.pr_number is None
            },
            (ReviewSource::File { path, domain, description, .. }, Fetched::File(read)) => {
                &&& opt_view(s.pr_title) == Some(
                    match file_name_of(path@) {
                        Some(n) => n,
                        None => path@,
                    },
                )
                &&& read matches Ok(file) && s.file_contents matches Some(files) && files@.len()
                    == 1 && files@[0] == file
                &&& s.raw_diff@.len() == 0 && s.domain == domain && s.description == description
                &&& s.owner is None && s.pr_number is None
            },
            (ReviewSource::Glob { pattern, domain }, Fetched::Glob(read)) => {
                &&& opt_view(s.pr_title) == Some("glob: "@ + pattern@)
                &&& read matches Ok(files) && s.file_contents == Some(files)
                &&& s.raw_diff@.len() == 0 && s.domain == domain
                &&& s.owner is None && s.pr_number is None
            },
            (ReviewSource::LocalBranch { repo_path, base_ref, head_ref }, Fetched::Branches(diff)) => {
                &&& opt_view(s.pr_title) == Some(
                    base_ref@ + ".."@ + head_ref@ + " in "@ + repo_path@,
                )
                &&& s.domain@ == "code"@
                &&& s.raw_diff == diff && s.file_contents is None
                &&& s.branch == Some(head_ref) && s.base == Some(base_ref)
                &&& s.owner is None && s.pr_number is None
            },
            _ => false,
        },
{
    reveal_strlit("");
}

/// A file that could not be read, or a pattern that could not be followed, fails the
/// review; nothing else does at this point.
pub proof fn only_what_cannot_be_read_fails(
    source: ReviewSource,
    fetched: Fetched,
    e: AgentError,
)
    requires
        answers(source, fetched),
        resolves_to(source, fetched, Err(e)),
    ensures
        e is Config,
        (fetched matches Fetched::File(Err(problem)) && e matches AgentError::Config(m)
            && ends_with(m@, problem.words())) || (fetched matches Fetched::Glob(Err(problem))
            && e matches AgentError::Config(m) && ends_with(m@, problem.words())),
{
    match (source, fetched) {
        (ReviewSource::File { path, .. }, Fetched::File(Err(problem))) => {
            let w = problem.words();
            let m = "Failed to read file '"@ + path@ + "': I/O error: "@ + w;
            assert(m.subrange(m.len() - w.len(), m.len() as int) =~= w);
        },
        (ReviewSource::Glob { pattern, .. }, Fetched::Glob(Err(problem))) => {
            let w = problem.words();
            let m = "Failed to read glob '"@ + pattern@ + "': I/O error: "@ + w;
            assert(m.subrange(m.len() - w.len(), m.len() as int) =~= w);
        },
        _ => {},
    }
}

/// The second attempt at an answer that was cut off may take half of the tokens of the
/// first, and never fewer than so many.
pub proof fn second_attempts_are_shorter(max_tokens: u32)
    ensures
        retry_limit(max_tokens) >= 512,
        max_tokens >= 1024 ==> 2 * retry_limit(max_tokens) <= max_tokens < 2 * retry_limit(
            max_tokens,
        ) + 2,
        max_tokens < 1024 ==> retry_limit(max_tokens) == 512,
{
}

/// Only an answer that ran into the limit is asked for again, and not one that is known
/// to be too short to be worth it.
pub proof fn answers_are_asked_again_where_cut_off(out: ChatOutput)
    ensures
        cut_off(out) ==> (out.finish_reason matches Some(f) && f@ == "length"@),
        out.finish_reason is None ==> !cut_off(out),
        (out.finish_reason matches Some(f) && f@ == "length"@) && out.usage is None ==> cut_off(
            out,
        ),
        (out.finish_reason matches Some(f) && f@ == "length"@) && (out.usage matches Some(u)
            && u.completion_tokens matches Some(n) && n >= 50) ==> cut_off(out),
        (out.usage matches Some(u) && u.completion_tokens matches Some(n) && n < 50) ==> !cut_off(
            out,
        ),
{
}

/// Findings are asked to be mended where some came through and some did not, and the
/// model is told how many did not.
pub proof fn malformed_findings_are_asked_about(e: ExtractedView)
    ensures
        needs_repair(e) <==> e.dropped_count > 0 && e.findings.len() > 0,
        contains(
            repair_prompt(e.dropped_count),
            decimal(e.dropped_count) + " malformed finding(s)"@,
        ),
{
    reveal_strlit(
        " malformed finding(s). Fix and output ONLY the corrected JSON array. Errors were: invalid severity, invalid category, missing required fields ('severity', 'category', 'message'), or empty 'message'.",
    );
    reveal_strlit(" malformed finding(s)");
    let end =
        " malformed finding(s). Fix and output ONLY the corrected JSON array. Errors were: invalid severity, invalid category, missing required fields ('severity', 'category', 'message'), or empty 'message'."@;
    let n = " malformed finding(s)"@.len() as int;
    let rest = end.subrange(n, end.len() as int);
    let told = decimal(e.dropped_count) + " malformed finding(s)"@;
    assert(end =~= " malformed finding(s)"@ + rest);
    parts_are_contained("Your previous JSON had "@, told, rest);
    assert("Your previous JSON had "@ + told + rest =~= repair_prompt(e.dropped_count));
}

/// A result holds the text and the findings of the draft that it is made of, tells what
/// it is about, and adds up the tokens.
pub proof fn results_hold_the_draft(
    engine: ReviewEngine,
    r: ReviewResult,
    source: ResolvedSource,
    prepared: Prepared,
    draft: Draft,
    latency_ms: u64,
)
    requires
        engine.is_finished(r, source, prepared, draft, latency_ms),
    ensures
        r.review_text == draft.review_text,
        r.findings == draft.findings,
        r.pr_number == source.pr_number,
        opt_view(r.pr_title) == opt_view(source.pr_title),
        r.stats.files_changed == prepared.built.files_changed,
        r.stats.files_reviewed == prepared.built.files_reviewed,
        r.stats.files_skipped == prepared.built.files_skipped,
        r.stats.files_path_filtered == prepared.built.files_path_filtered,
        r.stats.files_budget_dropped == prepared.built.files_budget_dropped,
        r.stats.input_tokens_estimated == prepared.built.input_tokens_estimated,
        r.stats.system_tokens_estimated == prepared.system_tokens,
        r.stats.output_tokens_reported == draft.output_tokens,
        r.stats.latency_ms == latency_ms,
        r.stats.model == engine.ai.model,
        r.stats.domain == source.domain,
        r.stats.prompt_version@ == source.domain@ + "/1"@,
        r.session_id is None,
        draft.output_tokens matches Some(n) ==> (r.stats.total_tokens_used matches Some(t) && t
            == r.stats.system_tokens_estimated + r.stats.input_tokens_estimated + n),
        draft.output_tokens is None ==> r.stats.total_tokens_used is None,
{
}

/// The tokens of several prompts together are the sum of those of each.
pub proof fn sums_are_made_one_by_one(a: Seq<usize>, x: usize)
    ensures
        sum_of(a.push(x), (a.len() + 1) as int) == sum_of(a, a.len() as int) + x,
        sum_of(a, 0) == 0,
{
    lemma_same_sum(a.push(x), a, a.len() as int);
}

proof fn lemma_same_sum(a: Seq<usize>, b: Seq<usize>, n: int)
    requires
        0 <= n <= a.len(),
        n <= b.len(),
        forall|i: int| 0 <= i < n ==> a[i] == b[i],
    ensures
        sum_of(a, n) == sum_of(b, n),
    decreases n,
{
    if n > 0 {
        lemma_same_sum(a, b, n - 1);
    }
}

/// What is fetched is what the source names; without a token a pull request cannot be
/// fetched, and anything else can.
pub proof fn sources_are_fetched_by_what_they_name(
    engine: ReviewEngine,
    source: ReviewSource,
    r: Result<Fetch, AgentError>,
)
    requires
        engine.fetches(source, r),
    ensures
        r is Err <==> source is PrUrl && engine.github is None,
        r is Ok ==> match source {
            ReviewSource::PrUrl { owner, repo, number } => r->Ok_0 == (Fetch::PullRequest {
                owner,
                repo,
                number,
            }),
            ReviewSource::DiffText { .. } => r->Ok_0 is Nothing,
            ReviewSource::Stdin { .. } => r->Ok_0 is Stdin,
            ReviewSource::File { path, language, .. } => r->Ok_0 is File && r->Ok_0->File_path
                == path && opt_view(r->Ok_0->File_language) == opt_view(language),
            ReviewSource::Glob { pattern, .. } => r->Ok_0 == (Fetch::Glob { pattern }),
            ReviewSource::LocalBranch { repo_path, base_ref, head_ref } => r->Ok_0 == (
            Fetch::Branches { repo_path, base_ref, head_ref }),
        },
{
}

/// The result of files that were reviewed each on its own holds the text of all answers,
/// counts the files that were answered and those that were not, and adds up the tokens.
pub proof fn merged_results_add_up(
    engine: ReviewEngine,
    source: ResolvedSource,
    plan: ConcurrentPlan,
    answers: Seq<Option<ChatOutput>>,
    latency_ms: u64,
    r: ReviewResult,
)
    requires
        ReviewEngine::merges(plan, answers),
        engine.is_merged(r, source, plan, answers, latency_ms),
    ensures
        r.review_text@ == sanitized(merged(answers).review_text),
        r.pr_number == source.pr_number,
        opt_view(r.pr_title) == opt_view(source.pr_title),
        r.stats.files_reviewed == answers.filter(|a: Option<ChatOutput>| a is Some).len(),
        r.stats.files_reviewed + r.stats.files_skipped == answers.len(),
        r.stats.files_changed == plan.files_changed,
        r.stats.files_budget_dropped == 0,
        r.stats.input_tokens_estimated == plan.total_input(),
        r.stats.system_tokens_estimated == plan.system_tokens,
        reported_total(answers) matches Some(n) ==> r.stats.output_tokens_reported == Some(
            n as u32,
        ) && r.stats.total_tokens_used == Some(
            (plan.system_tokens + plan.total_input() + n) as usize,
        ),
        reported_total(answers) is None ==> r.stats.output_tokens_reported is None
            && r.stats.total_tokens_used is None,
        r.stats.latency_ms == latency_ms,
        r.stats.model == engine.ai.model,
        r.stats.domain == source.domain,
{
    lemma_succeeded(answers);
    merged_counts(answers);
}

proof fn lemma_succeeded(answers: Seq<Option<ChatOutput>>)
    ensures
        merged(answers).succeeded == answers.filter(|a: Option<ChatOutput>| a is Some).len(),
    decreases answers.len(),
{
    reveal(Seq::filter);
    if answers.len() > 0 {
        lemma_succeeded(answers.drop_last());
    }
}

/// The engine works with the settings that it is made with.
pub open spec fn works_with(e: ReviewEngine, settings: Settings) -> bool {
    &&& e.config_extra == settings.review.extra_instructions
    &&& e.diff_svc.max_input_tokens == settings.review.max_input_tokens
    &&& e.diff_svc.max_diff_files == settings.review.max_diff_files
    &&& e.ai.model == settings.ai.model
    &&& e.ai.api_base == settings.ai.api_base
    &&& e.ai.api_key.secret() == settings.ai.api_key.secret()
    &&& e.ai.max_completion_tokens == settings.ai.max_completion_tokens
    &&& e.github is Some <==> settings.github.token.secret()@.len() > 0
}

/// An engine keeps to the settings: the limits on what is reviewed, the model and how it
/// is reached, the instructions; and it can reach GitHub just where there is a token.
pub proof fn engines_keep_to_the_settings(e: ReviewEngine, settings: Settings)
    requires
        works_with(e, settings),
    ensures
        e.config_extra == settings.review.extra_instructions,
        e.diff_svc.max_input_tokens == settings.review.max_input_tokens,
        e.diff_svc.max_diff_files == settings.review.max_diff_files,
        e.ai.model == settings.ai.model,
        e.ai.api_base == settings.ai.api_base,
        e.ai.api_key.secret() == settings.ai.api_key.secret(),
        e.ai.max_completion_tokens == settings.ai.max_completion_tokens,
        settings.github.token.secret()@.len() == 0 ==> e.github is None,
        settings.github.token.secret()@.len() > 0 ==> e.github is Some,
{
}

} // verus!
