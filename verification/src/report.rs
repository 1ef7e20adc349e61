//! Reviews as JSON.
use vstd::prelude::*;

use crate::engine::{finding_views, FindingView, ReviewFinding, ReviewResult};
use crate::json::{
    no_items, no_members, opt_number_view, opt_text_view, set_members_are_found, Json, JsonView,
};
use crate::sarif::{stats_json, stats_view};
use crate::services::json_extractor::{finding_of, findings_of, valid_finding};
use crate::text::opt_view;

verus! {

/// A finding as a JSON object; what it lacks is null.
pub open spec fn finding_object(f: FindingView) -> JsonView {
    no_members().with("severity"@, JsonView::Text(f.severity)).with(
        "file"@,
        opt_text_view(f.file),
    ).with(
        "line"@,
        opt_number_view(
            match f.line {
                Some(n) => Some(n as nat),
                None => None,
            },
        ),
    ).with("category"@, JsonView::Text(f.category)).with("message"@, JsonView::Text(f.message)).with(
        "suggestion"@,
        opt_text_view(f.suggestion),
    )
}

/// Findings as a JSON array.
pub open spec fn findings_array(findings: Seq<FindingView>) -> JsonView
    decreases findings.len(),
{
    if findings.len() == 0 {
        no_items()
    } else {
        findings_array(findings.drop_last()).and(finding_object(findings.last()))
    }
}

/// A review as a JSON object.
pub open spec fn result_object(r: ReviewResult) -> JsonView {
    no_members().with("review_text"@, JsonView::Text(r.review_text@)).with(
        "findings"@,
        findings_array(finding_views(r.findings@)),
    ).with(
        "pr_number"@,
        opt_number_view(
            match r.pr_number {
                Some(n) => Some(n as nat),
                None => None,
            },
        ),
    ).with("pr_title"@, opt_text_view(opt_view(r.pr_title))).with(
        "session_id"@,
        opt_text_view(opt_view(r.session_id)),
    ).with("stats"@, stats_view(r.stats))
}

fn finding_json(f: &ReviewFinding) -> (r: Json)
    ensures
        r@ == finding_object(f@),
{
    Json::object().with("severity", Json::text(f.severity.as_str())).with(
        "file",
        Json::opt_text(&f.file),
    ).with("line", Json::opt_number(f.line)).with("category", Json::text(f.category.as_str())).with(
        "message",
        Json::text(f.message.as_str()),
    ).with("suggestion", Json::opt_text(&f.suggestion))
}

/// Findings as a JSON array.
pub fn findings_json(findings: &Vec<ReviewFinding>) -> (r: Json)
    ensures
        r@ == findings_array(finding_views(findings@)),
{
    let ghost all = finding_views(findings@);
    let mut out = Json::array();
    let mut i: usize = 0;
    while i < findings.len()
        invariant
            i <= findings@.len(),
            all == finding_views(findings@),
            out@ == findings_array(all.take(i as int)),
        decreases findings@.len() - i,
    {
        assert(all.take(i + 1).drop_last() =~= all.take(i as int));
        assert(all.take(i + 1).last() == findings@[i as int]@);
        out = out.and(finding_json(&findings[i]));
        i += 1;
    }
    assert(all.take(i as int) =~= all);
    out
}

/// A review as a JSON object.
pub fn result_json(result: &ReviewResult) -> (r: Json)
    ensures
        r@ == result_object(*result),
{
    Json::object().with("review_text", Json::text(result.review_text.as_str())).with(
        "findings",
        findings_json(&result.findings),
    ).with("pr_number", Json::opt_number(result.pr_number)).with(
        "pr_title",
        Json::opt_text(&result.pr_title),
    ).with("session_id", Json::opt_text(&result.session_id)).with(
        "stats",
        stats_json(&result.stats),
    )
}

proof fn lemma_finding_items(findings: Seq<FindingView>)
    ensures
        findings_array(findings) matches JsonView::Array(items) && items.len() == findings.len()
            && forall|i: int|
            0 <= i < findings.len() ==> #[trigger] items[i] == finding_object(findings[i]),
    decreases findings.len(),
{
    if findings.len() > 0 {
        lemma_finding_items(findings.drop_last());
    }
}

proof fn lemma_finding_object(f: FindingView)
    ensures
        ({
            let v = finding_object(f);
            &&& v is Object
            &&& v.get("severity"@) == Some(JsonView::Text(f.severity))
            &&& v.get("category"@) == Some(JsonView::Text(f.category))
            &&& v.get("message"@) == Some(JsonView::Text(f.message))
            &&& v.text_at("file"@) == f.file
            &&& v.number_at("line"@) == f.line
            &&& v.text_at("suggestion"@) == f.suggestion
            &&& v.get("file"@) is Some && v.get("line"@) is Some && v.get("suggestion"@) is Some
        }),
{
    assert forall|v: JsonView, key: Seq<char>, value: JsonView, other: Seq<char>|
        v is Object implies #[trigger] v.with(key, value).get(other) == if other == key {
        Some(value)
    } else {
        v.get(other)
    } by {
        set_members_are_found(v, key, value, other);
    }
    reveal_strlit("severity");
    reveal_strlit("category");
    reveal_strlit("message");
    reveal_strlit("file");
    reveal_strlit("line");
    reveal_strlit("suggestion");
    assert("severity"@[0] == 's' && "category"@[0] == 'c' && "file"@[0] == 'f' && "line"@[0]
        == 'l');
    assert("severity"@.len() == 8 && "category"@.len() == 8 && "message"@.len() == 7);
    assert("suggestion"@.len() == 10 && "file"@.len() == 4 && "line"@.len() == 4);
}

/// What is written of findings is what they say: each finding that is valid is read
/// back as it was, and all of them in their order.
pub proof fn written_findings_are_read_back(findings: Seq<FindingView>)
    requires
        forall|i: int| 0 <= i < findings.len() ==> valid_finding(#[trigger] findings[i]),
    ensures
        findings_array(findings) matches JsonView::Array(items) && findings_of(items) == findings,
    decreases findings.len(),
{
    lemma_finding_items(findings);
    if findings.len() > 0 {
        let front = findings.drop_last();
        assert forall|i: int| 0 <= i < front.len() implies valid_finding(#[trigger] front[i]) by {
            assert(front[i] == findings[i]);
        }
        written_findings_are_read_back(front);
        lemma_finding_items(front);
        let f = findings[findings.len() - 1];
        lemma_finding_object(f);
        assert(valid_finding(f));
        assert(finding_of(finding_object(f)) =~= Some(f));
        let items = findings_array(findings)->Array_0;
        assert(items.drop_last() =~= findings_array(front)->Array_0);
        assert(front.push(f) =~= findings);
    } else {
        assert(findings_of(findings_array(findings)->Array_0) =~= findings);
    }
}

/// A report holds the text of the review, every finding in its place, the number and
/// the title of the pull request, the session and the statistics; what there is not is
/// null.
pub proof fn reports_tell_of_the_review(r: ReviewResult, i: int)
    ensures
        ({
            let v = result_object(r);
            &&& v.text_at("review_text"@) == Some(r.review_text@)
            &&& r.pr_number matches Some(n) ==> v.number_at("pr_number"@) == Some(n)
            &&& r.pr_number is None ==> v.get("pr_number"@) == Some(JsonView::Null)
            &&& v.text_at("pr_title"@) == opt_view(r.pr_title)
            &&& v.text_at("session_id"@) == opt_view(r.session_id)
            &&& v.get("stats"@) == Some(stats_view(r.stats))
            &&& v.get("findings"@) matches Some(JsonView::Array(items)) && {
                &&& items.len() == r.findings@.len()
                &&& 0 <= i < items.len() ==> {
                    let f = r.findings@[i];
                    &&& items[i].text_at("severity"@) == Some(f.severity@)
                    &&& items[i].text_at("category"@) == Some(f.category@)
                    &&& items[i].text_at("message"@) == Some(f.message@)
                    &&& items[i].text_at("file"@) == opt_view(f.file)
                    &&& items[i].number_at("line"@) == f.line
                    &&& items[i].text_at("suggestion"@) == opt_view(f.suggestion)
                }
            }
        }),
{
    assert forall|v: JsonView, key: Seq<char>, value: JsonView, other: Seq<char>|
        v is Object implies #[trigger] v.with(key, value).get(other) == if other == key {
        Some(value)
    } else {
        v.get(other)
    } by {
        set_members_are_found(v, key, value, other);
    }
    reveal_strlit("review_text");
    reveal_strlit("findings");
    reveal_strlit("pr_number");
    reveal_strlit("pr_title");
    reveal_strlit("session_id");
    reveal_strlit("stats");
    assert("review_text"@.len() == 11 && "findings"@.len() == 8 && "pr_number"@.len() == 9);
    assert("pr_title"@.len() == 8 && "session_id"@.len() == 10 && "stats"@.len() == 5);
    assert("findings"@[0] == 'f' && "pr_title"@[0] == 'p');
    lemma_finding_items(finding_views(r.findings@));
    assert(result_object(r).get("findings"@) == Some(findings_array(finding_views(r.findings@))));
    if 0 <= i < r.findings@.len() {
        lemma_finding_object(finding_views(r.findings@)[i]);
    }
}

} // verus!
