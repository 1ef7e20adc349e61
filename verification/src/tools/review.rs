//! A review of a pull request in one go, and its summary.
use vstd::prelude::*;

use crate::engine::{ReviewOptions, ReviewRequest, ReviewResult, ReviewSource};
use crate::numeral::{decimal, decimal_of};
use crate::text::{chars_of, starts_with, text_starts_with};

verus! {

/// The summary of a review of a pull request.
pub struct ReviewOutput {
    pub pr_number: u64,
    pub pr_title: String,
    pub files_changed: usize,
    pub files_reviewed: usize,
    pub files_skipped: usize,
    /// Input and output tokens together, without those of the system prompt.
    pub total_tokens_used: Option<usize>,
    pub input_tokens_estimated: usize,
    pub output_tokens_reported: Option<u32>,
    pub latency_ms: u64,
}

/// The request for a review of a pull request that is posted. The instructions
/// of the settings are added by the engine.
pub fn review_request(owner: &str, repo: &str, pr_number: u64) -> (r: ReviewRequest)
    ensures
        r.source matches ReviewSource::PrUrl { owner: o, repo: p, number: n } && o@ == owner@ && p@
            == repo@ && n == pr_number,
        r.options.post_to_github,
        r.options.paths@.len() == 0,
        r.options.extra_instructions@ == ""@,
        !r.options.sticky,
        !r.options.use_tools,
        r.options.resume_session is None,
{
    let defaults = ReviewOptions::default();
    ReviewRequest {
        source: ReviewSource::PrUrl {
            owner: owner.to_owned(),
            repo: repo.to_owned(),
            number: pr_number,
        },
        options: ReviewOptions {
            post_to_github: true,
            paths: defaults.paths,
            extra_instructions: "".to_owned(),
            sticky: defaults.sticky,
            use_tools: defaults.use_tools,
            resume_session: defaults.resume_session,
        },
    }
}

/// The summary is that of the result.
pub open spec fn sums_up(o: ReviewOutput, result: ReviewResult) -> bool {
    &&& o.files_changed == result.stats.files_changed
    &&& o.files_reviewed == result.stats.files_reviewed
    &&& o.files_skipped == result.stats.files_skipped
    &&& o.input_tokens_estimated == result.stats.input_tokens_estimated
    &&& o.output_tokens_reported == result.stats.output_tokens_reported
    &&& o.pr_title@ == match result.pr_title {
        Some(t) => t@,
        None => Seq::empty(),
    }
    &&& match (o.total_tokens_used, o.output_tokens_reported) {
        (Some(t), Some(n)) => t == o.input_tokens_estimated + n,
        (None, None) => true,
        _ => false,
    }
}

/// A summary tells the numbers of the review that it sums up, and adds up the tokens of
/// input and output where both are known.
pub proof fn summaries_tell_of_the_review(o: ReviewOutput, result: ReviewResult)
    requires
        sums_up(o, result),
    ensures
        o.files_changed == result.stats.files_changed,
        o.files_reviewed == result.stats.files_reviewed,
        o.files_skipped == result.stats.files_skipped,
        o.input_tokens_estimated == result.stats.input_tokens_estimated,
        o.output_tokens_reported == result.stats.output_tokens_reported,
        result.stats.output_tokens_reported matches Some(n) ==> o.total_tokens_used == Some(
            (result.stats.input_tokens_estimated + n) as usize,
        ),
        result.stats.output_tokens_reported is None ==> o.total_tokens_used is None,
        result.pr_title matches Some(t) ==> o.pr_title@ == t@,
        result.pr_title is None ==> o.pr_title@.len() == 0,
{
}

/// The summary of a review.
pub fn review_output(result: &ReviewResult, pr_number: u64, latency_ms: u64) -> (r: ReviewOutput)
    requires
        result.stats.output_tokens_reported matches Some(n) ==> result.stats.input_tokens_estimated
            + n <= usize::MAX,
    ensures
        sums_up(r, *result),
        r.pr_number == pr_number,
        r.pr_title@ == match result.pr_title {
            Some(t) => t@,
            None => ""@,
        },
        r.files_changed == result.stats.files_changed,
        r.files_reviewed == result.stats.files_reviewed,
        r.files_skipped == result.stats.files_skipped,
        r.input_tokens_estimated == result.stats.input_tokens_estimated,
        r.output_tokens_reported == result.stats.output_tokens_reported,
        r.latency_ms == latency_ms,
        match result.stats.output_tokens_reported {
            Some(n) => r.total_tokens_used matches Some(t) && t
                == result.stats.input_tokens_estimated + n,
            None => r.total_tokens_used is None,
        },
{
    proof {
        reveal_strlit("");
        assert(""@ =~= Seq::<char>::empty());
    }
    let pr_title = match &result.pr_title {
        Some(t) => t.clone(),
        None => "".to_owned(),
    };
    let total_tokens_used: Option<usize> = match result.stats.output_tokens_reported {
        Some(n) => Some(result.stats.input_tokens_estimated + n as usize),
        None => None,
    };
    ReviewOutput {
        pr_number,
        pr_title,
        files_changed: result.stats.files_changed,
        files_reviewed: result.stats.files_reviewed,
        files_skipped: result.stats.files_skipped,
        total_tokens_used,
        input_tokens_estimated: result.stats.input_tokens_estimated,
        output_tokens_reported: result.stats.output_tokens_reported,
        latency_ms,
    }
}

// ---------------------------------------------------------------------------
// The summary of a workflow step

/// A character in the cell of a Markdown table.
pub open spec fn escaped_char(c: char) -> Seq<char> {
    if c == '&' {
        "&amp;"@
    } else if c == '<' {
        "&lt;"@
    } else if c == '>' {
        "&gt;"@
    } else if c == '|' {
        "&#124;"@
    } else if c == '\n' || c == '\r' {
        seq![' ']
    } else {
        seq![c]
    }
}

/// A text in the cell of a Markdown table.
pub open spec fn escaped(s: Seq<char>) -> Seq<char>
    decreases s.len(),
{
    if s.len() == 0 {
        Seq::empty()
    } else {
        escaped(s.drop_last()) + escaped_char(s.last())
    }
}

/// Escapes a text for the cell of a Markdown table.
pub fn md_escape(s: &str) -> (r: String)
    ensures
        r@ == escaped(s@),
{
    let v = chars_of(s);
    let mut out = String::new();
    let mut i: usize = 0;
    while i < v.len()
        invariant
            i <= v@.len(),
            out@ == escaped(v@.take(i as int)),
        decreases v@.len() - i,
    {
        assert(v@.take(i + 1).drop_last() =~= v@.take(i as int));
        let ghost before = out@;
        let c: char = v[i];
        if c == '&' {
            out.push_str("&amp;");
        } else if c == '<' {
            out.push_str("&lt;");
        } else if c == '>' {
            out.push_str("&gt;");
        } else if c == '|' {
            out.push_str("&#124;");
        } else {
            let shown: char = if c == '\n' || c == '\r' {
                ' '
            } else {
                c
            };
            out.push(shown);
            assert(out@ =~= before + seq![shown]);
        }
        i += 1;
    }
    assert(v@.take(i as int) =~= v@);
    out
}

/// No escaped text breaks out of its cell: it holds no bar, no angle bracket and
/// no line break.
pub proof fn escaped_text_stays_in_its_cell(s: Seq<char>)
    ensures
        !escaped(s).contains('|'),
        !escaped(s).contains('<'),
        !escaped(s).contains('>'),
        !escaped(s).contains('\n'),
        !escaped(s).contains('\r'),
    decreases s.len(),
{
    reveal_strlit("&amp;");
    reveal_strlit("&lt;");
    reveal_strlit("&gt;");
    reveal_strlit("&#124;");
    if s.len() > 0 {
        escaped_text_stays_in_its_cell(s.drop_last());
        let front = escaped(s.drop_last());
        let last = escaped_char(s.last());
        assert forall|c: char|
            (c == '|' || c == '<' || c == '>' || c == '\n' || c == '\r') implies !(front
            + last).contains(c) by {
            if (front + last).contains(c) {
                let i = choose|i: int| 0 <= i < (front + last).len() && (front + last)[i] == c;
                if i < front.len() {
                    assert(front[i] == c);
                    assert(front.contains(c));
                } else {
                    assert(last[i - front.len()] == c);
                }
            }
        }
    }
}

pub open spec fn row(name: Seq<char>, value: Seq<char>) -> Seq<char> {
    "| "@ + name + " | "@ + value + " |"@
}

pub open spec fn number_or_na(n: Option<nat>) -> Seq<char> {
    match n {
        Some(k) => decimal(k),
        None => "N/A"@,
    }
}

/// The lines of the summary.
pub open spec fn summary_rows(o: ReviewOutput) -> Seq<Seq<char>> {
    seq![
        ""@,
        "## 🔍 Review Complete"@,
        ""@,
        "| Metric | Value |"@,
        "|---|---|"@,
        row("PR"@, "#"@ + decimal(o.pr_number as nat) + " "@ + escaped(o.pr_title@)),
        row("Files changed"@, decimal(o.files_changed as nat)),
        row("Files reviewed"@, decimal(o.files_reviewed as nat)),
        row("Files skipped"@, decimal(o.files_skipped as nat)),
        row("Est. input tokens"@, decimal(o.input_tokens_estimated as nat)),
        row(
            "Output tokens"@,
            number_or_na(
                match o.output_tokens_reported {
                    Some(n) => Some(n as nat),
                    None => None,
                },
            ),
        ),
        row(
            "Total tokens"@,
            number_or_na(
                match o.total_tokens_used {
                    Some(n) => Some(n as nat),
                    None => None,
                },
            ),
        ),
        row("Latency"@, decimal(o.latency_ms as nat) + " ms"@),
    ]
}

fn write_row(name: &str, value: &str) -> (r: String)
    ensures
        r@ == row(name@, value@),
{
    let mut out = "| ".to_owned();
    out.push_str(name);
    out.push_str(" | ");
    out.push_str(value);
    out.push_str(" |");
    out
}

fn write_number(n: Option<u64>) -> (r: String)
    ensures
        r@ == number_or_na(
            match n {
                Some(k) => Some(k as nat),
                None => None,
            },
        ),
{
    match n {
        Some(k) => decimal_of(k),
        None => "N/A".to_owned(),
    }
}

/// The lines of the summary of a workflow step.
pub fn step_summary(output: &ReviewOutput) -> (r: Vec<String>)
    ensures
        crate::text::views(r@) == summary_rows(*output),
{
    let mut title = "#".to_owned();
    title.push_str(decimal_of(output.pr_number).as_str());
    title.push_str(" ");
    title.push_str(md_escape(output.pr_title.as_str()).as_str());
    let out_tokens: Option<u64> = match output.output_tokens_reported {
        Some(n) => Some(n as u64),
        None => None,
    };
    let all_tokens: Option<u64> = match output.total_tokens_used {
        Some(n) => Some(n as u64),
        None => None,
    };
    let mut latency = decimal_of(output.latency_ms);
    latency.push_str(" ms");
    let mut rows: Vec<String> = Vec::new();
    rows.push("".to_owned());
    rows.push("## 🔍 Review Complete".to_owned());
    rows.push("".to_owned());
    rows.push("| Metric | Value |".to_owned());
    rows.push("|---|---|".to_owned());
    rows.push(write_row("PR", title.as_str()));
    rows.push(write_row("Files changed", decimal_of(output.files_changed as u64).as_str()));
    rows.push(write_row("Files reviewed", decimal_of(output.files_reviewed as u64).as_str()));
    rows.push(write_row("Files skipped", decimal_of(output.files_skipped as u64).as_str()));
    rows.push(
        write_row("Est. input tokens", decimal_of(output.input_tokens_estimated as u64).as_str()),
    );
    rows.push(write_row("Output tokens", write_number(out_tokens).as_str()));
    rows.push(write_row("Total tokens", write_number(all_tokens).as_str()));
    rows.push(write_row("Latency", latency.as_str()));
    assert(crate::text::views(rows@) =~= summary_rows(*output));
    rows
}

/// A resolved path at which the summary of a workflow step may be written: below
/// the directories of a runner, or below its temporary directory or workspace
/// where they are set.
pub open spec fn safe_summary_path(
    path: Seq<char>,
    runner_temp: Seq<char>,
    workspace: Seq<char>,
) -> bool {
    ||| starts_with(path, "/tmp/"@)
    ||| starts_with(path, "/home/runner/"@)
    ||| starts_with(path, "/github/"@)
    ||| (runner_temp.len() > 0 && starts_with(path, runner_temp))
    ||| (workspace.len() > 0 && starts_with(path, workspace))
}

/// Whether the summary of a workflow step may be written at a resolved path.
pub fn is_safe_summary_path(path: &str, runner_temp: &str, workspace: &str) -> (r: bool)
    ensures
        r == safe_summary_path(path@, runner_temp@, workspace@),
{
    text_starts_with(path, "/tmp/") || text_starts_with(path, "/home/runner/") || text_starts_with(
        path,
        "/github/",
    ) || (!runner_temp.is_empty() && text_starts_with(path, runner_temp)) || (!workspace.is_empty()
        && text_starts_with(path, workspace))
}

/// A text is escaped character by character: what would break out of its cell becomes a
/// name that stands for it, a line break becomes a space, and anything else stays.
pub proof fn text_is_escaped_character_by_character(a: Seq<char>, b: Seq<char>, c: char)
    ensures
        escaped(a + b) == escaped(a) + escaped(b),
        escaped(seq!['&']) == "&amp;"@,
        escaped(seq!['<']) == "&lt;"@,
        escaped(seq!['>']) == "&gt;"@,
        escaped(seq!['|']) == "&#124;"@,
        escaped(seq!['\n']) == seq![' '],
        escaped(seq!['\r']) == seq![' '],
        c != '&' && c != '<' && c != '>' && c != '|' && c != '\n' && c != '\r' ==> escaped(seq![c])
            == seq![c],
        escaped(Seq::empty()) == Seq::<char>::empty(),
    decreases b.len(),
{
    lemma_escaped_one('&');
    lemma_escaped_one('<');
    lemma_escaped_one('>');
    lemma_escaped_one('|');
    lemma_escaped_one('\n');
    lemma_escaped_one('\r');
    lemma_escaped_one(c);
    if b.len() == 0 {
        assert(a + b =~= a);
        assert(escaped(a) + escaped(b) =~= escaped(a));
    } else {
        text_is_escaped_character_by_character(a, b.drop_last(), c);
        assert((a + b).drop_last() =~= a + b.drop_last());
        assert(escaped(a + b) =~= escaped(a) + escaped(b));
    }
}

proof fn lemma_escaped_one(c: char)
    ensures
        escaped(seq![c]) == escaped_char(c),
{
    reveal_with_fuel(escaped, 2);
    assert(seq![c].drop_last() =~= Seq::<char>::empty());
    assert(escaped(seq![c]) =~= escaped_char(c));
}

/// The summary has a row for the pull request and one for every number, under its name;
/// what was not reported is not available.
pub proof fn summaries_tell_every_number(o: ReviewOutput)
    ensures
        ({
            let rows = summary_rows(o);
            &&& rows.contains(
                "| "@ + "PR"@ + " | "@ + ("#"@ + decimal(o.pr_number as nat) + " "@ + escaped(
                    o.pr_title@,
                )) + " |"@,
            )
            &&& rows.contains("| "@ + "Files changed"@ + " | "@ + decimal(o.files_changed as nat) + " |"@)
            &&& rows.contains(
                "| "@ + "Files reviewed"@ + " | "@ + decimal(o.files_reviewed as nat) + " |"@,
            )
            &&& rows.contains("| "@ + "Files skipped"@ + " | "@ + decimal(o.files_skipped as nat) + " |"@)
            &&& rows.contains(
                "| "@ + "Est. input tokens"@ + " | "@ + decimal(o.input_tokens_estimated as nat)
                    + " |"@,
            )
            &&& rows.contains(
                "| "@ + "Output tokens"@ + " | "@ + (match o.output_tokens_reported {
                    Some(n) => decimal(n as nat),
                    None => "N/A"@,
                }) + " |"@,
            )
            &&& rows.contains(
                "| "@ + "Total tokens"@ + " | "@ + (match o.total_tokens_used {
                    Some(n) => decimal(n as nat),
                    None => "N/A"@,
                }) + " |"@,
            )
            &&& rows.contains("| "@ + "Latency"@ + " | "@ + (decimal(o.latency_ms as nat) + " ms"@) + " |"@)
        }),
{
    let rows = summary_rows(o);
    assert(rows[5] == row(
        "PR"@,
        "#"@ + decimal(o.pr_number as nat) + " "@ + escaped(o.pr_title@),
    ));
    assert(rows[6] == row("Files changed"@, decimal(o.files_changed as nat)));
    assert(rows[7] == row("Files reviewed"@, decimal(o.files_reviewed as nat)));
    assert(rows[8] == row("Files skipped"@, decimal(o.files_skipped as nat)));
    assert(rows[9] == row("Est. input tokens"@, decimal(o.input_tokens_estimated as nat)));
    assert(rows.contains(rows[5]) && rows.contains(rows[6]) && rows.contains(rows[7])
        && rows.contains(rows[8]) && rows.contains(rows[9]) && rows.contains(rows[10])
        && rows.contains(rows[11]) && rows.contains(rows[12]));
}

/// A summary is only written below a directory of the runner or below one that is named.
pub proof fn summaries_stay_in_their_directories(
    path: Seq<char>,
    runner_temp: Seq<char>,
    workspace: Seq<char>,
    rest: Seq<char>,
)
    ensures
        safe_summary_path("/tmp/"@ + rest, runner_temp, workspace),
        safe_summary_path("/home/runner/"@ + rest, runner_temp, workspace),
        safe_summary_path("/github/"@ + rest, runner_temp, workspace),
        runner_temp.len() > 0 ==> safe_summary_path(runner_temp + rest, runner_temp, workspace),
        workspace.len() > 0 ==> safe_summary_path(workspace + rest, runner_temp, workspace),
        safe_summary_path(path, Seq::empty(), Seq::empty()) ==> starts_with(path, "/tmp/"@)
            || starts_with(path, "/home/runner/"@) || starts_with(path, "/github/"@),
        safe_summary_path(path, runner_temp, workspace) && !safe_summary_path(
            path,
            Seq::empty(),
            Seq::empty(),
        ) ==> starts_with(path, runner_temp) || starts_with(path, workspace),
{
    assert(("/tmp/"@ + rest).subrange(0, "/tmp/"@.len() as int) =~= "/tmp/"@);
    assert(("/home/runner/"@ + rest).subrange(0, "/home/runner/"@.len() as int)
        =~= "/home/runner/"@);
    assert(("/github/"@ + rest).subrange(0, "/github/"@.len() as int) =~= "/github/"@);
    assert((runner_temp + rest).subrange(0, runner_temp.len() as int) =~= runner_temp);
    assert((workspace + rest).subrange(0, workspace.len() as int) =~= workspace);
}

} // verus!
