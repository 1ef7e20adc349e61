//! The tools that the server offers, and the reviews that calls of them ask for.
use vstd::prelude::*;

use crate::engine::{ReviewOptions, ReviewRequest, ReviewSource};
use crate::github::{parse_pr_url, pull_of_url};
use crate::json::{no_items, no_members, number_view, Json, JsonView};
use crate::numeral::{decimal, decimal_of};
use crate::tools::schema::{
    argument, argument_json, list_argument, list_argument_json, object_schema, object_schema_json,
};

verus! {

// ---------------------------------------------------------------------------
// Arguments

/// The arguments of `review_pr`.
pub struct ReviewPrArgs {
    pub pr_url: String,
    pub post: bool,
    pub paths: Vec<String>,
    pub extra_instructions: String,
    pub sticky: bool,
    pub use_tools: bool,
    pub timeout_secs: Option<u64>,
}

/// The arguments of `review_diff`.
pub struct ReviewDiffArgs {
    pub diff: String,
    pub title: String,
    pub domain: String,
    pub language: Option<String>,
    pub description: Option<String>,
    pub extra_instructions: String,
    pub format: String,
    pub timeout_secs: Option<u64>,
}

/// The arguments of `review_files`.
pub struct ReviewFilesArgs {
    pub pr_url: String,
    pub paths: Vec<String>,
    pub post: bool,
    pub extra_instructions: String,
    pub timeout_secs: Option<u64>,
}

/// The arguments of `review_file`.
pub struct ReviewFileArgs {
    pub path: String,
    pub domain: String,
    pub language: Option<String>,
    pub description: Option<String>,
    pub extra_instructions: String,
    pub timeout_secs: Option<u64>,
}

/// The arguments of `review_glob`.
pub struct ReviewGlobArgs {
    pub pattern: String,
    pub domain: String,
    pub extra_instructions: String,
    pub timeout_secs: Option<u64>,
}

pub fn default_post() -> (r: bool)
    ensures
        r,
{
    true
}

/// The format of the program itself has its name.
pub fn default_format(program: &str) -> (r: String)
    ensures
        r@ == program@,
{
    program.to_owned()
}

pub fn default_domain() -> (r: String)
    ensures
        r@ == "code"@,
{
    "code".to_owned()
}

/// How long a review may take: a limit of zero is none.
pub fn effective_timeout(timeout_secs: Option<u64>) -> (r: Option<u64>)
    ensures
        r == match timeout_secs {
            Some(n) => if n > 0 {
                Some(n)
            } else {
                None
            },
            None => None,
        },
{
    match timeout_secs {
        Some(n) => if n > 0 {
            Some(n)
        } else {
            None
        },
        None => None,
    }
}

/// What is said of a review that took too long.
pub fn timeout_message(secs: u64) -> (r: String)
    ensures
        r@ == "Review timed out after "@ + decimal(secs as nat) + " seconds"@,
{
    let mut m = "Review timed out after ".to_owned();
    m.push_str(decimal_of(secs).as_str());
    m.push_str(" seconds");
    m
}

/// What is said of a review that failed.
pub fn failure_message(error: &str) -> (r: String)
    ensures
        r@ == "Review failed: "@ + error@,
{
    let mut m = "Review failed: ".to_owned();
    m.push_str(error);
    m
}

// ---------------------------------------------------------------------------
// Requests

/// Options of a review that is not posted.
pub open spec fn is_unposted(o: ReviewOptions, extra: String) -> bool {
    &&& !o.post_to_github
    &&& o.paths@.len() == 0
    &&& o.extra_instructions == extra
    &&& !o.sticky
    &&& !o.use_tools
    &&& o.resume_session is None
}

fn unposted(extra_instructions: String) -> (r: ReviewOptions)
    ensures
        is_unposted(r, extra_instructions),
{
    ReviewOptions {
        post_to_github: false,
        paths: Vec::new(),
        extra_instructions,
        sticky: false,
        use_tools: false,
        resume_session: None,
    }
}

/// The source is the pull request that the address names.
pub open spec fn is_pull(source: ReviewSource, url: Seq<char>) -> bool {
    source matches ReviewSource::PrUrl { owner, repo, number } && pull_of_url(url) == Ok::<
        (Seq<char>, Seq<char>, u64),
        Seq<char>,
    >((owner@, repo@, number))
}

/// The request is for a pull request at the address, with these options.
pub open spec fn asks_for_pull(
    q: ReviewRequest,
    url: Seq<char>,
    post: bool,
    paths: Vec<String>,
    extra: String,
    sticky: bool,
    use_tools: bool,
) -> bool {
    &&& is_pull(q.source, url)
    &&& q.options.post_to_github == post
    &&& q.options.paths == paths
    &&& q.options.extra_instructions == extra
    &&& q.options.sticky == sticky
    &&& q.options.use_tools == use_tools
    &&& q.options.resume_session is None
}

/// A call about a pull request asks for a review of just that pull request, of the paths
/// and with the instructions that it names, and for posting it where it says so.
pub proof fn calls_ask_for_their_pull_request(
    q: ReviewRequest,
    url: Seq<char>,
    post: bool,
    paths: Vec<String>,
    extra: String,
    sticky: bool,
    use_tools: bool,
)
    requires
        asks_for_pull(q, url, post, paths, extra, sticky, use_tools),
    ensures
        q.source matches ReviewSource::PrUrl { owner, repo, number } && pull_of_url(url) == Ok::<
            (Seq<char>, Seq<char>, u64),
            Seq<char>,
        >((owner@, repo@, number)),
        q.options.post_to_github <==> post,
        q.options.sticky <==> sticky,
        q.options.use_tools <==> use_tools,
        q.options.paths == paths,
        q.options.extra_instructions == extra,
{
}

/// The request is for something at hand, with these instructions, and is not posted.
pub open spec fn asks_for(q: ReviewRequest, source: ReviewSource, extra: String) -> bool {
    q.source == source && is_unposted(q.options, extra)
}

/// A call about a diff, a file or a pattern asks for a review of just that, with all that
/// it tells of it; nothing is posted, and no file is filtered out.
pub proof fn calls_ask_for_what_they_name(
    q: ReviewRequest,
    source: ReviewSource,
    extra: String,
)
    requires
        asks_for(q, source, extra),
    ensures
        q.source == source,
        !q.options.post_to_github,
        q.options.paths@.len() == 0,
        q.options.extra_instructions == extra,
{
}

/// The review that a call of `review_pr` asks for.
pub fn pr_request(args: ReviewPrArgs) -> (r: Result<ReviewRequest, String>)
    ensures
        r matches Ok(q) ==> asks_for_pull(
            q,
            args.pr_url@,
            args.post,
            args.paths,
            args.extra_instructions,
            args.sticky,
            args.use_tools,
        ),
        match r {
            Ok(q) => {
                &&& is_pull(q.source, args.pr_url@)
                &&& q.options.post_to_github == args.post
                &&& q.options.paths == args.paths
                &&& q.options.extra_instructions == args.extra_instructions
                &&& q.options.sticky == args.sticky
                &&& q.options.use_tools == args.use_tools
                &&& q.options.resume_session is None
            },
            Err(e) => pull_of_url(args.pr_url@) == Err::<(Seq<char>, Seq<char>, u64), Seq<char>>(
                e@,
            ),
        },
{
    match parse_pr_url(args.pr_url.as_str()) {
        Ok((owner, repo, number)) => Ok(
            ReviewRequest {
                source: ReviewSource::PrUrl { owner, repo, number },
                options: ReviewOptions {
                    post_to_github: args.post,
                    paths: args.paths,
                    extra_instructions: args.extra_instructions,
                    sticky: args.sticky,
                    use_tools: args.use_tools,
                    resume_session: None,
                },
            },
        ),
        Err(e) => Err(e),
    }
}

/// The review that a call of `review_files` asks for. Without paths there is
/// nothing to review.
pub fn files_request(args: ReviewFilesArgs) -> (r: Result<ReviewRequest, String>)
    ensures
        r matches Ok(q) ==> args.paths@.len() > 0 && asks_for_pull(
            q,
            args.pr_url@,
            args.post,
            args.paths,
            args.extra_instructions,
            false,
            false,
        ),
        args.paths@.len() == 0 ==> (r matches Err(e) && e@
            == "'paths' must be a non-empty array of path prefixes"@),
        args.paths@.len() > 0 ==> match r {
            Ok(q) => {
                &&& is_pull(q.source, args.pr_url@)
                &&& q.options.post_to_github == args.post
                &&& q.options.paths == args.paths
                &&& q.options.extra_instructions == args.extra_instructions
                &&& !q.options.sticky
                &&& !q.options.use_tools
                &&& q.options.resume_session is None
            },
            Err(e) => pull_of_url(args.pr_url@) == Err::<(Seq<char>, Seq<char>, u64), Seq<char>>(
                e@,
            ),
        },
{
    if args.paths.len() == 0 {
        return Err("'paths' must be a non-empty array of path prefixes".to_owned());
    }
    match parse_pr_url(args.pr_url.as_str()) {
        Ok((owner, repo, number)) => Ok(
            ReviewRequest {
                source: ReviewSource::PrUrl { owner, repo, number },
                options: ReviewOptions {
                    post_to_github: args.post,
                    paths: args.paths,
                    extra_instructions: args.extra_instructions,
                    sticky: false,
                    use_tools: false,
                    resume_session: None,
                },
            },
        ),
        Err(e) => Err(e),
    }
}

/// The review that a call of `review_diff` asks for.
pub fn diff_request(args: ReviewDiffArgs) -> (r: ReviewRequest)
    ensures
        r.source matches ReviewSource::DiffText { language_hint, .. } && asks_for(
            r,
            (ReviewSource::DiffText {
                diff: args.diff,
                title: args.title,
                domain: args.domain,
                language_hint,
                description: args.description,
            }),
            args.extra_instructions,
        ),
        r.source matches ReviewSource::DiffText {
            diff,
            title,
            domain,
            language_hint,
            description,
        } && diff == args.diff && title == args.title && domain == args.domain && description
            == args.description && language_hint@ == match args.language {
            Some(l) => l@,
            None => ""@,
        },
        is_unposted(r.options, args.extra_instructions),
{
    let language_hint = match args.language {
        Some(l) => l,
        None => "".to_owned(),
    };
    ReviewRequest {
        source: ReviewSource::DiffText {
            diff: args.diff,
            title: args.title,
            domain: args.domain,
            language_hint,
            description: args.description,
        },
        options: unposted(args.extra_instructions),
    }
}

/// The review that a call of `review_file` asks for.
pub fn file_request(args: ReviewFileArgs) -> (r: ReviewRequest)
    ensures
        asks_for(
            r,
            (ReviewSource::File {
                path: args.path,
                domain: args.domain,
                language: args.language,
                description: args.description,
            }),
            args.extra_instructions,
        ),
        r.source == (ReviewSource::File {
            path: args.path,
            domain: args.domain,
            language: args.language,
            description: args.description,
        }),
        is_unposted(r.options, args.extra_instructions),
{
    ReviewRequest {
        source: ReviewSource::File {
            path: args.path,
            domain: args.domain,
            language: args.language,
            description: args.description,
        },
        options: unposted(args.extra_instructions),
    }
}

/// The review that a call of `review_glob` asks for.
pub fn glob_request(args: ReviewGlobArgs) -> (r: ReviewRequest)
    ensures
        asks_for(
            r,
            (ReviewSource::Glob { pattern: args.pattern, domain: args.domain }),
            args.extra_instructions,
        ),
        r.source == (ReviewSource::Glob { pattern: args.pattern, domain: args.domain }),
        is_unposted(r.options, args.extra_instructions),
{
    ReviewRequest {
        source: ReviewSource::Glob { pattern: args.pattern, domain: args.domain },
        options: unposted(args.extra_instructions),
    }
}

// ---------------------------------------------------------------------------
// Tool definitions

/// The arguments that `review_pr` takes.
pub open spec fn review_pr_schema() -> JsonView {
    object_schema(
        no_members()
            .with("pr_url"@, argument("string"@, "Full PR URL — e.g. https://github.com/owner/repo/pull/42, https://gitlab.com/o/r/-/merge_requests/7, or https://bitbucket.org/o/r/pull-requests/99"@))
            .with("post"@, argument("boolean"@, "Whether to post the review to GitHub as a PR comment"@).with("default"@, JsonView::Bool(true)))
            .with("paths"@, list_argument("Only review files matching these path prefixes"@).with("default"@, no_items()))
            .with("extra_instructions"@, argument("string"@, "Extra context injected into the review prompt"@).with("default"@, JsonView::Text(""@)))
            .with("timeout_secs"@, argument("number"@, "Maximum seconds to wait for AI review"@).with("default"@, number_view(0))),
        no_items().and(JsonView::Text("pr_url"@)),
    )
}

fn review_pr_schema_json() -> (r: Json)
    ensures
        r@ == review_pr_schema(),
{
    object_schema_json(
        Json::object()
            .with("pr_url", argument_json("string", "Full PR URL — e.g. https://github.com/owner/repo/pull/42, https://gitlab.com/o/r/-/merge_requests/7, or https://bitbucket.org/o/r/pull-requests/99"))
            .with("post", argument_json("boolean", "Whether to post the review to GitHub as a PR comment").with("default", Json::Bool(true)))
            .with("paths", list_argument_json("Only review files matching these path prefixes").with("default", Json::array()))
            .with("extra_instructions", argument_json("string", "Extra context injected into the review prompt").with("default", Json::text("")))
            .with("timeout_secs", argument_json("number", "Maximum seconds to wait for AI review").with("default", Json::number(0))),
        Json::array().and(Json::text("pr_url")),
    )
}

/// The arguments that `review_diff` takes.
pub open spec fn review_diff_schema(program: Seq<char>) -> JsonView {
    object_schema(
        no_members()
            .with("diff"@, argument("string"@, "Raw unified diff text (git diff output)"@))
            .with("title"@, argument("string"@, "A short title describing the change"@))
            .with("domain"@, argument("string"@, "Review domain: 'code', 'config', 'policy', 'design', 'data'"@).with("default"@, JsonView::Text("code"@)))
            .with("language"@, argument("string"@, "Primary programming language hint (e.g. 'Rust', 'Python'). Only used in 'code' domain."@).with("default"@, JsonView::Text("Unknown"@)))
            .with("description"@, argument("string"@, "Optional longer description of the change"@))
            .with("extra_instructions"@, argument("string"@, "Extra context injected into the review prompt"@).with("default"@, JsonView::Text(""@)))
            .with("format"@, argument("string"@, "Output format: '"@ + program + "' (default) or 'sarif'"@).with("default"@, JsonView::Text(program)))
            .with("timeout_secs"@, argument("number"@, "Maximum seconds to wait for AI review"@).with("default"@, number_view(0))),
        no_items().and(JsonView::Text("diff"@)).and(JsonView::Text("title"@)),
    )
}

fn review_diff_schema_json(program: &str) -> (r: Json)
    ensures
        r@ == review_diff_schema(program@),
{
    let mut formats = "Output format: '".to_owned();
    formats.push_str(program);
    formats.push_str("' (default) or 'sarif'");
    object_schema_json(
        Json::object()
            .with("diff", argument_json("string", "Raw unified diff text (git diff output)"))
            .with("title", argument_json("string", "A short title describing the change"))
            .with("domain", argument_json("string", "Review domain: 'code', 'config', 'policy', 'design', 'data'").with("default", Json::text("code")))
            .with("language", argument_json("string", "Primary programming language hint (e.g. 'Rust', 'Python'). Only used in 'code' domain.").with("default", Json::text("Unknown")))
            .with("description", argument_json("string", "Optional longer description of the change"))
            .with("extra_instructions", argument_json("string", "Extra context injected into the review prompt").with("default", Json::text("")))
            .with("format", argument_json("string", formats.as_str()).with("default", Json::text(program)))
            .with("timeout_secs", argument_json("number", "Maximum seconds to wait for AI review").with("default", Json::number(0))),
        Json::array().and(Json::text("diff")).and(Json::text("title")),
    )
}

/// The arguments that `review_files` takes.
pub open spec fn review_files_schema() -> JsonView {
    object_schema(
        no_members()
            .with("pr_url"@, argument("string"@, "Full PR URL — e.g. https://github.com/owner/repo/pull/42, https://gitlab.com/o/r/-/merge_requests/7, or https://bitbucket.org/o/r/pull-requests/99"@))
            .with("paths"@, list_argument("Only review files matching these path prefixes"@))
            .with("post"@, argument("boolean"@, "Whether to post the review to GitHub"@).with("default"@, JsonView::Bool(false)))
            .with("extra_instructions"@, argument("string"@, "Extra context injected into the review prompt"@).with("default"@, JsonView::Text(""@)))
            .with("timeout_secs"@, argument("number"@, "Maximum seconds to wait for AI review"@).with("default"@, number_view(0))),
        no_items().and(JsonView::Text("pr_url"@)).and(JsonView::Text("paths"@)),
    )
}

fn review_files_schema_json() -> (r: Json)
    ensures
        r@ == review_files_schema(),
{
    object_schema_json(
        Json::object()
            .with("pr_url", argument_json("string", "Full PR URL — e.g. https://github.com/owner/repo/pull/42, https://gitlab.com/o/r/-/merge_requests/7, or https://bitbucket.org/o/r/pull-requests/99"))
            .with("paths", list_argument_json("Only review files matching these path prefixes"))
            .with("post", argument_json("boolean", "Whether to post the review to GitHub").with("default", Json::Bool(false)))
            .with("extra_instructions", argument_json("string", "Extra context injected into the review prompt").with("default", Json::text("")))
            .with("timeout_secs", argument_json("number", "Maximum seconds to wait for AI review").with("default", Json::number(0))),
        Json::array().and(Json::text("pr_url")).and(Json::text("paths")),
    )
}

/// The arguments that `review_file` takes.
pub open spec fn review_file_schema() -> JsonView {
    object_schema(
        no_members()
            .with("path"@, argument("string"@, "Path to the file to review (relative to CWD)"@))
            .with("domain"@, argument("string"@, "Review domain"@).with("default"@, JsonView::Text("code"@)))
            .with("language"@, argument("string"@, "Optional language override"@))
            .with("description"@, argument("string"@, "Optional context for the review"@))
            .with("extra_instructions"@, argument("string"@, "Extra context injected into the review prompt"@).with("default"@, JsonView::Text(""@)))
            .with("timeout_secs"@, argument("number"@, "Maximum seconds to wait for AI review"@).with("default"@, number_view(0))),
        no_items().and(JsonView::Text("path"@)),
    )
}

fn review_file_schema_json() -> (r: Json)
    ensures
        r@ == review_file_schema(),
{
    object_schema_json(
        Json::object()
            .with("path", argument_json("string", "Path to the file to review (relative to CWD)"))
            .with("domain", argument_json("string", "Review domain").with("default", Json::text("code")))
            .with("language", argument_json("string", "Optional language override"))
            .with("description", argument_json("string", "Optional context for the review"))
            .with("extra_instructions", argument_json("string", "Extra context injected into the review prompt").with("default", Json::text("")))
            .with("timeout_secs", argument_json("number", "Maximum seconds to wait for AI review").with("default", Json::number(0))),
        Json::array().and(Json::text("path")),
    )
}

/// The arguments that `review_glob` takes.
pub open spec fn review_glob_schema() -> JsonView {
    object_schema(
        no_members()
            .with("pattern"@, argument("string"@, "Glob pattern, e.g. 'src/**/*.rs'"@))
            .with("domain"@, argument("string"@, "Review domain"@).with("default"@, JsonView::Text("code"@)))
            .with("extra_instructions"@, argument("string"@, "Extra context injected into the review prompt"@).with("default"@, JsonView::Text(""@)))
            .with("timeout_secs"@, argument("number"@, "Maximum seconds to wait for AI review"@).with("default"@, number_view(0))),
        no_items().and(JsonView::Text("pattern"@)),
    )
}

fn review_glob_schema_json() -> (r: Json)
    ensures
        r@ == review_glob_schema(),
{
    object_schema_json(
        Json::object()
            .with("pattern", argument_json("string", "Glob pattern, e.g. 'src/**/*.rs'"))
            .with("domain", argument_json("string", "Review domain").with("default", Json::text("code")))
            .with("extra_instructions", argument_json("string", "Extra context injected into the review prompt").with("default", Json::text("")))
            .with("timeout_secs", argument_json("number", "Maximum seconds to wait for AI review").with("default", Json::number(0))),
        Json::array().and(Json::text("pattern")),
    )
}

/// A tool by name, description and the schema of its arguments.
pub open spec fn is_tool(
    tool: (String, String, Json),
    name: Seq<char>,
    description: Seq<char>,
    schema: JsonView,
) -> bool {
    tool.0@ == name && tool.1@ == description && tool.2@ == schema
}

/// All tools that the server offers: name, description and the schema of the
/// arguments.
pub fn tool_definitions(program: &str) -> (r: Vec<(String, String, Json)>)
    ensures
        r@.len() == 5,
        is_tool(
            r@[0],
            "review_pr"@,
            "Review a GitHub pull request. Fetches the diff, analyzes it with the AI, and optionally posts the review as a comment on the PR. Supports GitHub, GitLab, and Bitbucket URLs."@,
            review_pr_schema(),
        ),
        is_tool(
            r@[1],
            "review_diff"@,
            "Review a raw unified diff string without fetching from GitHub. Use for ad-hoc code review, pre-fetched diffs, or working-tree changes."@,
            review_diff_schema(program@),
        ),
        is_tool(
            r@[2],
            "review_files"@,
            "Review only specific files from a pull request (GitHub, GitLab, Bitbucket). Useful when the AI wants to focus on relevant changes after inspecting the PR's file list."@,
            review_files_schema(),
        ),
        is_tool(
            r@[3],
            "review_file"@,
            "Review a single file from the filesystem. Path must be relative and must not contain '..'."@,
            review_file_schema(),
        ),
        is_tool(
            r@[4],
            "review_glob"@,
            "Review all files matching a glob pattern. Patterns are relative to CWD."@,
            review_glob_schema(),
        ),
{
    let mut out: Vec<(String, String, Json)> = Vec::new();
    out.push(
        (
            "review_pr".to_owned(),
            "Review a GitHub pull request. Fetches the diff, analyzes it with the AI, and optionally posts the review as a comment on the PR. Supports GitHub, GitLab, and Bitbucket URLs.".to_owned(),
            review_pr_schema_json(),
        ),
    );
    out.push(
        (
            "review_diff".to_owned(),
            "Review a raw unified diff string without fetching from GitHub. Use for ad-hoc code review, pre-fetched diffs, or working-tree changes.".to_owned(),
            review_diff_schema_json(program),
        ),
    );
    out.push(
        (
            "review_files".to_owned(),
            "Review only specific files from a pull request (GitHub, GitLab, Bitbucket). Useful when the AI wants to focus on relevant changes after inspecting the PR's file list.".to_owned(),
            review_files_schema_json(),
        ),
    );
    out.push(
        (
            "review_file".to_owned(),
            "Review a single file from the filesystem. Path must be relative and must not contain '..'.".to_owned(),
            review_file_schema_json(),
        ),
    );
    out.push(
        (
            "review_glob".to_owned(),
            "Review all files matching a glob pattern. Patterns are relative to CWD.".to_owned(),
            review_glob_schema_json(),
        ),
    );
    out
}

} // verus!
