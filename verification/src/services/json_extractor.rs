//! Structured findings in the text of an answer.
use vstd::prelude::*;

use crate::engine::{finding_views, FindingView, ReviewFinding};
use crate::json::{
    item_views, json_parsed, lemma_array_view, parse_json, set_members_are_found, Json, JsonView,
};
use crate::text::{
    chars_of, contains, find, lemma_find_contains, lemma_find_from, occurs_at, position, same, text_between, text_of,
    text_trim, trim,
};

verus! {

/// The least number of answered tokens at which a truncated answer is asked for again.
pub const MIN_TOKENS_FOR_RETRY: u32 = 50;

/// The severities that a finding may have.
pub open spec fn valid_severity(s: Seq<char>) -> bool {
    s == "high"@ || s == "medium"@ || s == "low"@ || s == "info"@
}

/// The categories that a finding may have.
pub open spec fn valid_category(s: Seq<char>) -> bool {
    ||| s == "logic_error"@
    ||| s == "security"@
    ||| s == "api_misuse"@
    ||| s == "performance"@
    ||| s == "missing_edge_case"@
    ||| s == "best_practice"@
    ||| s == "style"@
    ||| s == "documentation"@
    ||| s == "other"@
}

/// Whether a finding may have this severity.
pub fn is_valid_severity(s: &str) -> (r: bool)
    ensures
        r == valid_severity(s@),
{
    same(s, "high") || same(s, "medium") || same(s, "low") || same(s, "info")
}

/// Whether a finding may have this category.
pub fn is_valid_category(s: &str) -> (r: bool)
    ensures
        r == valid_category(s@),
{
    same(s, "logic_error") || same(s, "security") || same(s, "api_misuse") || same(s, "performance")
        || same(s, "missing_edge_case") || same(s, "best_practice") || same(s, "style") || same(
        s,
        "documentation",
    ) || same(s, "other")
}

/// A text that is more than white space.
pub open spec fn not_blank(s: Option<Seq<char>>) -> Option<Seq<char>> {
    match s {
        Some(t) => if trim(t).len() > 0 {
            Some(t)
        } else {
            None
        },
        None => None,
    }
}

/// The finding that a JSON value stands for: an object with a valid severity, a
/// valid category and a message that is more than white space.
pub open spec fn finding_of(v: JsonView) -> Option<FindingView> {
    match (v.text_at("severity"@), v.text_at("category"@), v.text_at("message"@)) {
        (Some(severity), Some(category), Some(message)) => if valid_severity(severity)
            && valid_category(category) && trim(message).len() > 0 {
            Some(
                FindingView {
                    severity,
                    file: v.text_at("file"@),
                    line: v.number_at("line"@),
                    category,
                    message,
                    suggestion: not_blank(v.text_at("suggestion"@)),
                },
            )
        } else {
            None
        },
        _ => None,
    }
}

/// The findings among JSON values, in their order.
pub open spec fn findings_of(items: Seq<JsonView>) -> Seq<FindingView>
    decreases items.len(),
{
    if items.len() == 0 {
        Seq::empty()
    } else {
        let rest = findings_of(items.drop_last());
        match finding_of(items.last()) {
            Some(f) => rest.push(f),
            None => rest,
        }
    }
}

/// A finding that has passed validation.
pub open spec fn valid_finding(f: FindingView) -> bool {
    valid_severity(f.severity) && valid_category(f.category) && trim(f.message).len() > 0 && (
    f.suggestion matches Some(s) ==> trim(s).len() > 0)
}

/// Validation lets only valid findings through, and at most one for each value.
pub proof fn extracted_findings_are_valid(items: Seq<JsonView>)
    ensures
        findings_of(items).len() <= items.len(),
        forall|i: int|
            0 <= i < findings_of(items).len() ==> valid_finding(#[trigger] findings_of(items)[i]),
    decreases items.len(),
{
    if items.len() > 0 {
        extracted_findings_are_valid(items.drop_last());
    }
}

fn owned(s: Option<&String>) -> (r: Option<String>)
    ensures
        match s {
            Some(t) => r matches Some(u) && u@ == t@,
            None => r is None,
        },
{
    match s {
        Some(t) => Some(t.clone()),
        None => None,
    }
}

/// The finding that a JSON value stands for.
pub fn parse_single_finding(value: &Json) -> (r: Option<ReviewFinding>)
    ensures
        match r {
            Some(f) => finding_of(value@) == Some(f@),
            None => finding_of(value@) is None,
        },
{
    let severity = match value.text_at("severity") {
        Some(s) => s,
        None => {
            return None;
        },
    };
    if !is_valid_severity(severity.as_str()) {
        return None;
    }
    let category = match value.text_at("category") {
        Some(s) => s,
        None => {
            return None;
        },
    };
    if !is_valid_category(category.as_str()) {
        return None;
    }
    let message = match value.text_at("message") {
        Some(s) => s,
        None => {
            return None;
        },
    };
    if text_trim(message.as_str()).as_str().is_empty() {
        return None;
    }
    let suggestion = match value.text_at("suggestion") {
        Some(s) => if text_trim(s.as_str()).as_str().is_empty() {
            None
        } else {
            Some(s.clone())
        },
        None => None,
    };
    Some(
        ReviewFinding {
            severity: severity.clone(),
            file: owned(value.text_at("file")),
            line: value.number_at("line"),
            category: category.clone(),
            message: message.clone(),
            suggestion,
        },
    )
}

// ---------------------------------------------------------------------------
// Finding the JSON block

/// `s` without a line feed in front.
pub open spec fn without_lf(s: Seq<char>) -> Seq<char> {
    if s.len() > 0 && s[0] == '\n' {
        s.subrange(1, s.len() as int)
    } else {
        s
    }
}

/// The first fenced block that `opener` begins: what it holds as JSON, the text
/// before it and the text behind it. Nothing where there is no such block.
pub open spec fn fenced(text: Seq<char>, opener: Seq<char>) -> Option<
    (Option<JsonView>, Seq<char>, Seq<char>),
> {
    match find(text, opener) {
        Some(p) => {
            let content = without_lf(text.subrange(p + opener.len(), text.len() as int));
            match find(content, "\n```"@) {
                Some(c) => Some(
                    (
                        json_parsed(trim(content.subrange(0, c))),
                        text.subrange(0, p),
                        without_lf(content.subrange(c + 4, content.len() as int)),
                    ),
                ),
                None => None,
            }
        },
        None => None,
    }
}

/// What the text is as a JSON array.
pub open spec fn array_parsed(text: Seq<char>) -> Option<JsonView> {
    match json_parsed(text) {
        Some(JsonView::Array(items)) => Some(JsonView::Array(items)),
        _ => None,
    }
}

/// The JSON array that `s` is up to some `]` at `from` or behind it, the first
/// such, and where it ends.
pub open spec fn cut_array(s: Seq<char>, from: int) -> Option<(JsonView, int)>
    decreases s.len() - from,
{
    if from < 0 || from >= s.len() {
        None
    } else if s[from] == ']' && array_parsed(s.subrange(0, from + 1)) is Some {
        Some((array_parsed(s.subrange(0, from + 1)).unwrap(), from + 1))
    } else {
        cut_array(s, from + 1)
    }
}

/// The JSON array that begins at the first `[`, and where it stands: up to the
/// end of the text where that parses, else up to the first `]` where it does.
pub open spec fn bare_array(text: Seq<char>) -> Option<(JsonView, int, int)> {
    match find(text, "["@) {
        Some(start) => {
            let candidate = text.subrange(start, text.len() as int);
            if array_parsed(candidate) is Some {
                Some((array_parsed(candidate).unwrap(), start, text.len() as int))
            } else {
                match cut_array(candidate, 0) {
                    Some((v, end)) => Some((v, start, start + end)),
                    None => None,
                }
            }
        },
        None => None,
    }
}

/// A fenced block that is not marked, and the text around it; where the block is
/// not JSON, the text as it is.
pub open spec fn taken_out(
    text: Seq<char>,
    block: (Option<JsonView>, Seq<char>, Seq<char>),
) -> (Option<JsonView>, Seq<char>) {
    match block.0 {
        Some(v) => (Some(v), block.1 + block.2),
        None => (None, text),
    }
}

/// The JSON block of an answer and the answer without it: a fenced block marked
/// as JSON, else the first fenced block, else a bare array. A block that is marked
/// as JSON is taken out even where it is none; any other that is no JSON stays
/// where it is.
pub open spec fn json_block(text: Seq<char>) -> (Option<JsonView>, Seq<char>) {
    match fenced(text, "```json"@) {
        Some((v, before, after)) => (v, before + after),
        None => match fenced(text, "```"@) {
            Some(block) => taken_out(text, block),
            None => match bare_array(text) {
                Some((v, start, end)) => (
                    Some(v),
                    text.subrange(0, start) + text.subrange(end, text.len() as int),
                ),
                None => (None, text),
            },
        },
    }
}

fn tail_without_lf(v: &Vec<char>, from: usize) -> (r: Vec<char>)
    requires
        from <= v@.len(),
    ensures
        r@ == without_lf(v@.subrange(from as int, v@.len() as int)),
{
    let start: usize = if from < v.len() && v[from] == '\n' {
        from + 1
    } else {
        from
    };
    let r = chars_of(text_between(v, start, v.len()).as_str());
    assert(r@ =~= without_lf(v@.subrange(from as int, v@.len() as int)));
    r
}

/// The first fenced block that `opener` begins.
pub fn extract_fenced_json(text: &str, opener: &str) -> (r: Option<(Option<Json>, String, String)>)
    ensures
        match r {
            Some((j, before, after)) => {
                let json = match j {
                    Some(x) => Some(x@),
                    None => None,
                };
                fenced(text@, opener@) == Some((json, before@, after@))
            },
            None => fenced(text@, opener@) is None,
        },
{
    let v = chars_of(text);
    let o = chars_of(opener);
    let p: usize = match position(&v, &o) {
        Some(p) => p,
        None => {
            return None;
        },
    };
    let content = tail_without_lf(&v, p + o.len());
    let closer = chars_of("\n```");
    proof {
        reveal_strlit("\n```");
    }
    let c: usize = match position(&content, &closer) {
        Some(c) => c,
        None => {
            return None;
        },
    };
    let body = text_between(&content, 0, c);
    let after = text_of(&tail_without_lf(&content, c + 4));
    let before = text_between(&v, 0, p);
    Some((parse_json(text_trim(body.as_str()).as_str()), before, after))
}

fn parse_array(text: &str) -> (r: Option<Json>)
    ensures
        match r {
            Some(j) => array_parsed(text@) == Some(j@),
            None => array_parsed(text@) is None,
        },
{
    match parse_json(text) {
        Some(Json::Array(items)) => {
            proof {
                lemma_array_view(items);
            }
            Some(Json::Array(items))
        },
        _ => None,
    }
}

/// The JSON array that a text is up to some `]`, and where it ends.
pub fn try_truncated_parse(candidate: &Vec<char>) -> (r: Option<(Json, usize)>)
    ensures
        match r {
            Some((j, end)) => cut_array(candidate@, 0) == Some((j@, end as int)) && end
                <= candidate@.len(),
            None => cut_array(candidate@, 0) is None,
        },
{
    let mut i: usize = 0;
    while i < candidate.len()
        invariant
            i <= candidate@.len(),
            cut_array(candidate@, 0) == cut_array(candidate@, i as int),
        decreases candidate@.len() - i,
    {
        if candidate[i] == ']' {
            match parse_array(text_between(candidate, 0, i + 1).as_str()) {
                Some(j) => {
                    return Some((j, i + 1));
                },
                None => {},
            }
        }
        i += 1;
    }
    None
}

/// The JSON array that begins at the first `[`, and where it stands.
pub fn try_parse_bare_array(v: &Vec<char>) -> (r: Option<(Json, usize, usize)>)
    ensures
        match r {
            Some((j, start, end)) => bare_array(v@) == Some((j@, start as int, end as int)) && start
                <= end <= v@.len(),
            None => bare_array(v@) is None,
        },
{
    let bracket = chars_of("[");
    proof {
        reveal_strlit("[");
    }
    let start: usize = match position(v, &bracket) {
        Some(p) => p,
        None => {
            return None;
        },
    };
    let candidate = text_between(v, start, v.len());
    match parse_array(candidate.as_str()) {
        Some(j) => Some((j, start, v.len())),
        None => match try_truncated_parse(&chars_of(candidate.as_str())) {
            Some((j, end)) => Some((j, start, start + end)),
            None => None,
        },
    }
}

fn take_out(text: &str, block: (Option<Json>, String, String)) -> (r: (Option<Json>, String))
    ensures
        ({
            let held = match block.0 {
                Some(j) => Some(j@),
                None => None,
            };
            let left = match r.0 {
                Some(j) => Some(j@),
                None => None,
            };
            (left, r.1@) == taken_out(text@, (held, block.1@, block.2@))
        }),
{
    match block {
        (Some(j), before, after) => {
            let mut rest = before;
            rest.push_str(after.as_str());
            (Some(j), rest)
        },
        (None, _, _) => (None, text.to_owned()),
    }
}

/// The JSON block of an answer, and the answer without it. An answer without a
/// block that is JSON, or is marked as such, comes back as it is.
pub fn extract_json_block(text: &str) -> (r: (Option<Json>, String))
    ensures
        r.0 is None && fenced(text@, "```json"@) is None ==> r.1@ == text@,
        match r.0 {
            Some(j) => json_block(text@) == (Some(j@), r.1@),
            None => json_block(text@) == (None::<JsonView>, r.1@),
        },
{
    match extract_fenced_json(text, "```json") {
        Some((j, before, after)) => {
            let mut rest = before;
            rest.push_str(after.as_str());
            return (j, rest);
        },
        None => {},
    }
    match extract_fenced_json(text, "```") {
        Some(block) => {
            return take_out(text, block);
        },
        None => {},
    }
    let v = chars_of(text);
    match try_parse_bare_array(&v) {
        Some((j, start, end)) => {
            let mut rest = text_between(&v, 0, start);
            rest.push_str(text_between(&v, end, v.len()).as_str());
            (Some(j), rest)
        },
        None => (None, text.to_owned()),
    }
}

// ---------------------------------------------------------------------------
// The extractor

/// The valid findings of an answer, its text without them, and how many entries
/// were dropped as malformed.
pub struct ExtractedFindings {
    pub findings: Vec<ReviewFinding>,
    pub review_text: String,
    pub dropped_count: usize,
}

/// What was extracted.
#[verifier::ext_equal]
pub struct ExtractedView {
    pub findings: Seq<FindingView>,
    pub review_text: Seq<char>,
    pub dropped_count: nat,
}

impl View for ExtractedFindings {
    type V = ExtractedView;

    open spec fn view(&self) -> ExtractedView {
        ExtractedView {
            findings: finding_views(self.findings@),
            review_text: self.review_text@,
            dropped_count: self.dropped_count as nat,
        }
    }
}

/// What a JSON block and the text around it come to.
pub open spec fn collected(block: Option<JsonView>, review_text: Seq<char>) -> ExtractedView {
    match block {
        Some(JsonView::Array(items)) => ExtractedView {
            findings: findings_of(items),
            review_text,
            dropped_count: (items.len() - findings_of(items).len()) as nat,
        },
        _ => ExtractedView { findings: Seq::empty(), review_text, dropped_count: 0 },
    }
}

/// What is extracted from an answer.
pub open spec fn extracted(text: Seq<char>) -> ExtractedView {
    let (block, review_text) = json_block(text);
    collected(block, review_text)
}

/// The findings that a JSON block holds, beside the text around it.
pub fn collect_findings(block: Option<Json>, review_text: String) -> (r: ExtractedFindings)
    ensures
        r@ == collected(
            match block {
                Some(j) => Some(j@),
                None => None,
            },
            review_text@,
        ),
{
    match block {
        Some(Json::Array(items)) => {
            proof {
                lemma_array_view(items);
                extracted_findings_are_valid(item_views(items@));
            }
            let ghost held = item_views(items@);
            let mut findings: Vec<ReviewFinding> = Vec::new();
            let mut i: usize = 0;
            assert(finding_views(findings@) =~= findings_of(held.take(0)));
            while i < items.len()
                invariant
                    i <= items@.len(),
                    held == item_views(items@),
                    finding_views(findings@) == findings_of(held.take(i as int)),
                decreases items@.len() - i,
            {
                assert(held.take(i + 1).drop_last() =~= held.take(i as int));
                assert(held.take(i + 1).last() == items@[i as int]@);
                let ghost before = findings@;
                match parse_single_finding(&items[i]) {
                    Some(f) => {
                        assert(finding_views(before.push(f)) =~= finding_views(before).push(f@));
                        findings.push(f);
                    },
                    None => {},
                }
                i += 1;
            }
            assert(held.take(i as int) =~= held);
            assert(finding_views(findings@).len() == findings@.len());
            let dropped_count: usize = items.len() - findings.len();
            ExtractedFindings { findings, review_text, dropped_count }
        },
        _ => {
            let findings: Vec<ReviewFinding> = Vec::new();
            assert(finding_views(findings@) =~= Seq::<FindingView>::empty());
            ExtractedFindings { findings, review_text, dropped_count: 0 }
        },
    }
}

/// Extracts structured findings from the text of an answer.
pub struct JsonExtractor;

impl JsonExtractor {
    /// Takes the JSON block out of an answer, keeps its valid findings and
    /// counts the malformed ones.
    pub fn extract(text: &str) -> (r: ExtractedFindings)
        ensures
            r@ == extracted(text@),
    {
        let (block, review_text) = extract_json_block(text);
        collect_findings(block, review_text)
    }
}

/// Every extracted finding is valid, and each entry of the block is either
/// kept or counted as dropped.
pub proof fn extraction_is_exhaustive(text: Seq<char>)
    ensures
        forall|i: int|
            0 <= i < extracted(text).findings.len() ==> valid_finding(
                #[trigger] extracted(text).findings[i],
            ),
        json_block(text).0 matches Some(JsonView::Array(items)) ==> extracted(text).findings.len()
            + extracted(text).dropped_count == items.len(),
{
    match json_block(text).0 {
        Some(JsonView::Array(items)) => {
            extracted_findings_are_valid(items);
        },
        _ => {},
    }
}

/// Only a block that is JSON, or is marked as such, is ever taken out of an answer:
/// where there is none, the text comes back unchanged and without findings.
pub proof fn only_json_is_taken_out(text: Seq<char>)
    ensures
        json_block(text).0 is None && fenced(text, "```json"@) is None ==> extracted(text) == (ExtractedView {
            findings: Seq::empty(),
            review_text: text,
            dropped_count: 0,
        }),
{
}

/// An answer without a fence and without a bracket comes back as it is, with
/// no findings.
pub proof fn plain_text_is_kept(text: Seq<char>)
    requires
        !contains(text, "```"@),
        !contains(text, "["@),
    ensures
        extracted(text) == (ExtractedView {
            findings: Seq::empty(),
            review_text: text,
            dropped_count: 0,
        }),
{
    reveal_strlit("```");
    reveal_strlit("```json");
    lemma_find_contains(text, "```"@);
    lemma_find_contains(text, "["@);
    lemma_find_contains(text, "```json"@);
    if contains(text, "```json"@) {
        let i = choose|i: int| occurs_at(text, "```json"@, i);
        assert(text.subrange(i, i + 3) =~= "```"@) by {
            let long = text.subrange(i, i + 7);
            assert(long == "```json"@);
            assert(long[0] == '`' && long[1] == '`' && long[2] == '`');
        }
        assert(occurs_at(text, "```"@, i));
    }
}

// ---------------------------------------------------------------------------
// What findings are made of

/// The names of the members that a finding is made of.
pub open spec fn is_finding_key(key: Seq<char>) -> bool {
    ||| key == "severity"@
    ||| key == "category"@
    ||| key == "message"@
    ||| key == "file"@
    ||| key == "line"@
    ||| key == "suggestion"@
}

proof fn lemma_finding_keys()
    ensures
        "severity"@ != "category"@,
        "severity"@ != "message"@,
        "severity"@ != "file"@,
        "severity"@ != "line"@,
        "severity"@ != "suggestion"@,
        "category"@ != "message"@,
        "category"@ != "file"@,
        "category"@ != "line"@,
        "category"@ != "suggestion"@,
        "message"@ != "file"@,
        "message"@ != "line"@,
        "message"@ != "suggestion"@,
        "file"@ != "line"@,
        "file"@ != "suggestion"@,
        "line"@ != "suggestion"@,
{
    reveal_strlit("severity");
    reveal_strlit("category");
    reveal_strlit("message");
    reveal_strlit("file");
    reveal_strlit("line");
    reveal_strlit("suggestion");
    assert("severity"@[0] == 's' && "category"@[0] == 'c' && "file"@[0] == 'f' && "line"@[0]
        == 'l');
    assert("severity"@.len() == 8 && "category"@.len() == 8 && "message"@.len() == 7);
    assert("suggestion"@.len() == 10 && "file"@.len() == 4 && "line"@.len() == 4);
}

/// An object with a severity, a category and a message that are let in is a finding of
/// just these. Its file, line and suggestion are each what the member of that name
/// says, whatever the others are: a file that is a text, a line that is a whole number,
/// a suggestion that is more than white space.
pub proof fn findings_hold_what_the_members_say(
    o: JsonView,
    severity: Seq<char>,
    category: Seq<char>,
    message: Seq<char>,
)
    requires
        o.get("severity"@) == Some(JsonView::Text(severity)),
        o.get("category"@) == Some(JsonView::Text(category)),
        o.get("message"@) == Some(JsonView::Text(message)),
        valid_severity(severity),
        valid_category(category),
        trim(message).len() > 0,
    ensures
        finding_of(o) matches Some(f) && {
            &&& f.severity == severity
            &&& f.category == category
            &&& f.message == message
            &&& match o.get("file"@) {
                Some(JsonView::Text(t)) => f.file == Some(t),
                _ => f.file is None,
            }
            &&& match o.get("line"@) {
                Some(JsonView::Number(n, _)) => f.line == n,
                _ => f.line is None,
            }
            &&& match o.get("suggestion"@) {
                Some(JsonView::Text(t)) => if trim(t).len() > 0 {
                    f.suggestion == Some(t)
                } else {
                    f.suggestion is None
                },
                _ => f.suggestion is None,
            }
        },
{
}

/// A value that lacks one of the three members, or holds something in it that is not
/// let in, is no finding.
pub proof fn findings_need_their_members(o: JsonView)
    requires
        ({
            ||| !(o is Object)
            ||| !(o.get("severity"@) matches Some(JsonView::Text(s)) && valid_severity(s))
            ||| !(o.get("category"@) matches Some(JsonView::Text(s)) && valid_category(s))
            ||| !(o.get("message"@) matches Some(JsonView::Text(s)) && trim(s).len() > 0)
        }),
    ensures
        finding_of(o) is None,
{
}

/// A member that is set changes what it stands for and nothing else: the file, the
/// line, the suggestion or the message of a finding. A member of another name changes
/// nothing.
pub proof fn members_are_read_apart(
    o: JsonView,
    key: Seq<char>,
    value: JsonView,
    text: Seq<char>,
    number: u64,
    written: Seq<char>,
)
    requires
        o is Object,
        !is_finding_key(key),
    ensures
        finding_of(o.with(key, value)) == finding_of(o),
        finding_of(o) matches Some(f) ==> {
            &&& finding_of(o.with("file"@, JsonView::Text(text))) == Some(
                FindingView { file: Some(text), ..f },
            )
            &&& finding_of(o.with("line"@, JsonView::Number(Some(number), written))) == Some(
                FindingView { line: Some(number), ..f },
            )
            &&& trim(text).len() > 0 ==> finding_of(
                o.with("suggestion"@, JsonView::Text(text)),
            ) == Some(FindingView { suggestion: Some(text), ..f })
            &&& trim(text).len() > 0 ==> finding_of(o.with("message"@, JsonView::Text(text)))
                == Some(FindingView { message: text, ..f })
            &&& valid_severity(text) ==> finding_of(o.with("severity"@, JsonView::Text(text)))
                == Some(FindingView { severity: text, ..f })
            &&& valid_category(text) ==> finding_of(o.with("category"@, JsonView::Text(text)))
                == Some(FindingView { category: text, ..f })
        },
{
    lemma_finding_keys();
    assert forall|k: Seq<char>, v: JsonView, other: Seq<char>|
        #![trigger o.with(k, v).get(other)]
        o.with(k, v).get(other) == if other == k {
            Some(v)
        } else {
            o.get(other)
        } by {
        set_members_are_found(o, k, v, other);
    }
}

/// The values of a list are read one by one: what one comes to does not depend on the
/// others, and the findings come in the order of the values.
pub proof fn values_are_read_apart(a: Seq<JsonView>, b: Seq<JsonView>, v: JsonView)
    ensures
        findings_of(a + b) == findings_of(a) + findings_of(b),
        finding_of(v) matches Some(f) ==> findings_of(seq![v]) == seq![f],
        finding_of(v) is None ==> findings_of(seq![v]).len() == 0,
    decreases b.len(),
{
    reveal_with_fuel(findings_of, 2);
    assert(seq![v].drop_last() =~= Seq::<JsonView>::empty());
    match finding_of(v) {
        Some(f) => {
            assert(findings_of(seq![v]) =~= seq![f]);
        },
        None => {},
    }
    if b.len() == 0 {
        assert(a + b =~= a);
        assert(findings_of(a) + findings_of(b) =~= findings_of(a));
    } else {
        values_are_read_apart(a, b.drop_last(), v);
        assert((a + b).drop_last() =~= a + b.drop_last());
        assert(findings_of(a + b) =~= findings_of(a) + findings_of(b));
    }
}

/// The block of an answer that is marked as JSON is what stands between its fences, and
/// the text is what stands around them: each finding of the block comes out, and the
/// text before and behind the block is kept.
pub proof fn marked_blocks_are_taken_out(before: Seq<char>, body: Seq<char>, after: Seq<char>)
    requires
        !contains(before, "```json"@),
        !contains(body, "\n```"@),
    ensures
        ({
            let text = before + "```json\n"@ + body + "\n```"@ + after;
            let rest = if after.len() > 0 && after[0] == '\n' {
                before + after.subrange(1, after.len() as int)
            } else {
                before + after
            };
            &&& json_block(text) == (json_parsed(trim(body)), rest)
            &&& extracted(text).review_text == rest
            &&& json_parsed(trim(body)) matches Some(JsonView::Array(items))
                ==> extracted(text).findings == findings_of(items)
                && extracted(text).dropped_count + findings_of(items).len() == items.len()
            &&& !(json_parsed(trim(body)) matches Some(JsonView::Array(items)))
                ==> extracted(text).findings.len() == 0
        }),
{
    reveal_strlit("```json");
    reveal_strlit("```json\n");
    reveal_strlit("\n```");
    let text = before + "```json\n"@ + body + "\n```"@ + after;
    let rest = seq!['\n'] + body + "\n```"@ + after;
    let p = before.len() as int;
    assert(text =~= before + "```json"@ + rest);
    lemma_find_opener(before, rest);
    assert(text.subrange(p + 7, text.len() as int) =~= rest);
    let content = without_lf(rest);
    assert(content =~= body + "\n```"@ + after);
    lemma_find_closer(body, after);
    let c = body.len() as int;
    assert(content.subrange(0, c) =~= body);
    assert(content.subrange(c + 4, content.len() as int) =~= after);
    assert(text.subrange(0, p) =~= before);
    match json_parsed(trim(body)) {
        Some(JsonView::Array(items)) => {
            extracted_findings_are_valid(items);
        },
        _ => {},
    }
}

proof fn lemma_no_earlier_opener(before: Seq<char>, rest: Seq<char>, j: int)
    requires
        0 <= j < before.len(),
        occurs_at(before + "```json"@ + rest, "```json"@, j),
    ensures
        occurs_at(before, "```json"@, j),
{
    reveal_strlit("```json");
    let text = before + "```json"@ + rest;
    let p = before.len() as int;
    let part = text.subrange(j, j + 7);
    assert(part[3] == 'j' && part[4] == 's' && part[5] == 'o' && part[6] == 'n');
    if j + 7 <= p {
        assert(before.subrange(j, j + 7) =~= part);
    } else {
        // The fence stands where a letter would have to.
        assert(text[p] == "```json"@[0]);
        assert(text[p + 1] == "```json"@[1]);
        assert(text[p + 2] == "```json"@[2]);
        assert(part[3] == text[j + 3]);
        assert(part[4] == text[j + 4]);
        assert(part[5] == text[j + 5]);
        assert(part[6] == text[j + 6]);
        assert(j + 3 == p || j + 3 == p + 1 || j + 3 == p + 2 || j + 4 == p || j + 5 == p || j + 6
            == p);
    }
}

proof fn lemma_find_opener(before: Seq<char>, rest: Seq<char>)
    requires
        !contains(before, "```json"@),
    ensures
        find(before + "```json"@ + rest, "```json"@) == Some(before.len() as int),
{
    reveal_strlit("```json");
    let text = before + "```json"@ + rest;
    let p = before.len() as int;
    assert(text.subrange(p, p + 7) =~= "```json"@);
    lemma_find_from(text, "```json"@, 0);
    match find(text, "```json"@) {
        Some(j) => {
            if j < p {
                lemma_no_earlier_opener(before, rest, j);
            }
            if p < j {
                assert(!occurs_at(text, "```json"@, p));
            }
        },
        None => {
            assert(!occurs_at(text, "```json"@, p));
        },
    }
}

proof fn lemma_no_earlier_closer(body: Seq<char>, after: Seq<char>, j: int)
    requires
        0 <= j < body.len(),
        occurs_at(body + "\n```"@ + after, "\n```"@, j),
    ensures
        occurs_at(body, "\n```"@, j),
{
    reveal_strlit("\n```");
    let text = body + "\n```"@ + after;
    let p = body.len() as int;
    let part = text.subrange(j, j + 4);
    assert(part[1] == '`' && part[2] == '`' && part[3] == '`');
    if j + 4 <= p {
        assert(body.subrange(j, j + 4) =~= part);
    } else {
        assert(text[p] == "\n```"@[0]);
        assert(part[1] == text[j + 1]);
        assert(part[2] == text[j + 2]);
        assert(part[3] == text[j + 3]);
        assert(j + 1 == p || j + 2 == p || j + 3 == p);
    }
}

proof fn lemma_find_closer(body: Seq<char>, after: Seq<char>)
    requires
        !contains(body, "\n```"@),
    ensures
        find(body + "\n```"@ + after, "\n```"@) == Some(body.len() as int),
{
    reveal_strlit("\n```");
    let text = body + "\n```"@ + after;
    let p = body.len() as int;
    assert(text.subrange(p, p + 4) =~= "\n```"@);
    lemma_find_from(text, "\n```"@, 0);
    match find(text, "\n```"@) {
        Some(j) => {
            if j < p {
                lemma_no_earlier_closer(body, after, j);
            }
            if p < j {
                assert(!occurs_at(text, "\n```"@, p));
            }
        },
        None => {
            assert(!occurs_at(text, "\n```"@, p));
        },
    }
}

/// A list that stands in an answer without a fence is taken out from its first bracket
/// to its last, and the text around it is kept.
pub proof fn bare_lists_are_taken_out(text: Seq<char>)
    requires
        !contains(text, "```"@),
        json_block(text).0 is Some,
    ensures
        exists|start: int, end: int|
            {
                &&& 0 <= start < end <= text.len()
                &&& text[start] == '['
                &&& !contains(text.subrange(0, start), "["@)
                &&& json_block(text).0 == json_parsed(#[trigger] text.subrange(start, end))
                &&& json_block(text).0 matches Some(JsonView::Array(items))
                    && extracted(text).findings == findings_of(items)
                &&& extracted(text).review_text == text.subrange(0, start) + text.subrange(
                    end,
                    text.len() as int,
                )
            },
{
    reveal_strlit("```");
    reveal_strlit("```json");
    reveal_strlit("[");
    lemma_find_contains(text, "```"@);
    lemma_find_contains(text, "```json"@);
    if contains(text, "```json"@) {
        let i = choose|i: int| occurs_at(text, "```json"@, i);
        assert(text.subrange(i, i + 3) =~= "```"@) by {
            let long = text.subrange(i, i + 7);
            assert(long[0] == '`' && long[1] == '`' && long[2] == '`');
        }
        assert(occurs_at(text, "```"@, i));
    }
    lemma_find_from(text, "["@, 0);
    let (v, start, end) = bare_array(text).unwrap();
    let candidate = text.subrange(start, text.len() as int);
    assert(text.subrange(start, start + 1)[0] == text[start]);
    assert(!contains(text.subrange(0, start), "["@)) by {
        let front = text.subrange(0, start);
        if contains(front, "["@) {
            let i = choose|i: int| occurs_at(front, "["@, i);
            assert(text.subrange(i, i + 1) =~= front.subrange(i, i + 1));
            assert(occurs_at(text, "["@, i));
        }
    }
    if array_parsed(candidate) is None {
        lemma_cut_array(candidate, 0);
        assert(candidate.subrange(0, end - start) =~= text.subrange(start, end));
    }
    assert(json_block(text).0 == json_parsed(text.subrange(start, end)));
}

proof fn lemma_cut_array(s: Seq<char>, from: int)
    requires
        0 <= from,
    ensures
        cut_array(s, from) matches Some((v, end)) ==> from < end <= s.len() && s[end - 1] == ']'
            && v is Array && json_parsed(s.subrange(0, end)) == Some(v),
    decreases s.len() - from,
{
    if from < s.len() {
        lemma_cut_array(s, from + 1);
    }
}

/// A block that is not marked is what stands between its fences too: where it is JSON it
/// is taken out, and where it is not the answer stays as it is.
pub proof fn unmarked_blocks_are_taken_out(before: Seq<char>, body: Seq<char>, after: Seq<char>)
    requires
        !contains(before, "```"@),
        before.len() == 0 || before.last() != '`',
        !contains(body, "\n```"@),
        ({
            let text = before + "```\n"@ + body + "\n```"@ + after;
            fenced(text, "```json"@) is None
        }),
    ensures
        ({
            let text = before + "```\n"@ + body + "\n```"@ + after;
            let rest = if after.len() > 0 && after[0] == '\n' {
                before + after.subrange(1, after.len() as int)
            } else {
                before + after
            };
            &&& json_parsed(trim(body)) is Some ==> json_block(text) == (
                json_parsed(trim(body)),
                rest,
            )
            &&& json_parsed(trim(body)) is None ==> json_block(text) == (None::<JsonView>, text)
        }),
{
    reveal_strlit("```");
    reveal_strlit("```\n");
    reveal_strlit("\n```");
    let text = before + "```\n"@ + body + "\n```"@ + after;
    let p = before.len() as int;
    lemma_find_plain_opener(before, seq!['\n'] + body + "\n```"@ + after);
    assert(text =~= before + "```"@ + (seq!['\n'] + body + "\n```"@ + after));
    let rest = text.subrange(p + 3, text.len() as int);
    assert(rest =~= seq!['\n'] + body + "\n```"@ + after);
    let content = without_lf(rest);
    assert(content =~= body + "\n```"@ + after);
    lemma_find_closer(body, after);
    let c = body.len() as int;
    assert(content.subrange(0, c) =~= body);
    assert(content.subrange(c + 4, content.len() as int) =~= after);
    assert(text.subrange(0, p) =~= before);
}

proof fn lemma_find_plain_opener(before: Seq<char>, rest: Seq<char>)
    requires
        !contains(before, "```"@),
        before.len() == 0 || before.last() != '`',
    ensures
        find(before + "```"@ + rest, "```"@) == Some(before.len() as int),
{
    reveal_strlit("```");
    let text = before + "```"@ + rest;
    let p = before.len() as int;
    assert(text.subrange(p, p + 3) =~= "```"@);
    lemma_find_from(text, "```"@, 0);
    match find(text, "```"@) {
        Some(j) => {
            if j < p {
                let part = text.subrange(j, j + 3);
                assert(part[0] == '`' && part[1] == '`' && part[2] == '`');
                if j + 3 <= p {
                    assert(before.subrange(j, j + 3) =~= part);
                    assert(occurs_at(before, "```"@, j));
                } else {
                    assert(part[p - 1 - j] == text[p - 1]);
                    assert(text[p - 1] == before[p - 1]);
                }
            }
            if p < j {
                assert(!occurs_at(text, "```"@, p));
            }
        },
        None => {
            assert(!occurs_at(text, "```"@, p));
        },
    }
}

} // verus!
