//! Reviews as SARIF 2.1.0 documents.
use vstd::prelude::*;

use crate::engine::{finding_views, FindingView, ReviewFinding, ReviewResult, ReviewStats};
use crate::json::{
    inserted_member_is_found, no_items, no_members, number_view, opt_number_view,
    set_members_are_found, Json, JsonView,
};
use crate::letters::{precedes, precedes_total, precedes_transitive, text_precedes};
use crate::numeral::decimal;
use crate::text::{same, views};

verus! {

/// The version of this library, as the documents name it.
pub const VERSION: &'static str = "0.1.0";

/// The categories of findings.
pub open spec fn categories(findings: Seq<FindingView>) -> Seq<Seq<char>> {
    findings.map_values(|f: FindingView| f.category)
}

/// The place of a rule among rules.
pub open spec fn rule_number(rules: Seq<Seq<char>>, id: Seq<char>) -> nat
    decreases rules.len(),
{
    if rules.len() == 0 || rules[0] == id {
        0
    } else {
        1 + rule_number(rules.subrange(1, rules.len() as int), id)
    }
}

/// A sorted list of rules with one more in its place, unless it is there.
pub open spec fn insert_rule(rules: Seq<Seq<char>>, id: Seq<char>) -> Seq<Seq<char>>
    decreases rules.len(),
{
    if rules.len() == 0 || precedes(id, rules[0]) {
        seq![id] + rules
    } else if rules[0] == id {
        rules
    } else {
        seq![rules[0]] + insert_rule(rules.subrange(1, rules.len() as int), id)
    }
}

/// The different texts of a list, in alphabetical order.
pub open spec fn sorted_rules(all: Seq<Seq<char>>) -> Seq<Seq<char>>
    decreases all.len(),
{
    if all.len() == 0 {
        Seq::empty()
    } else {
        insert_rule(sorted_rules(all.drop_last()), all.last())
    }
}

// ---------------------------------------------------------------------------
// The document

/// The SARIF level of a severity.
pub open spec fn level(severity: Seq<char>) -> Seq<char> {
    if severity == "high"@ {
        "error"@
    } else if severity == "medium"@ {
        "warning"@
    } else if severity == "low"@ {
        "note"@
    } else {
        "none"@
    }
}

pub open spec fn description_view(text: Seq<char>) -> JsonView {
    no_members().with("text"@, JsonView::Text(text))
}

pub open spec fn locations_view(f: FindingView) -> JsonView {
    match f.file {
        Some(file) => {
            let artifact = no_members().with(
                "artifactLocation"@,
                no_members().with("uri"@, JsonView::Text(file)),
            );
            let physical = match f.line {
                Some(line) => artifact.with(
                    "region"@,
                    no_members().with("startLine"@, number_view(line as nat)),
                ),
                None => artifact,
            };
            no_items().and(no_members().with("physicalLocation"@, physical))
        },
        None => no_items(),
    }
}

pub open spec fn fixes_view(f: FindingView) -> JsonView {
    match f.suggestion {
        Some(s) => no_items().and(no_members().with("description"@, description_view(s))),
        None => no_items(),
    }
}

pub open spec fn result_view(f: FindingView, rule: nat) -> JsonView {
    no_members().with("ruleId"@, JsonView::Text(f.category)).with("ruleIndex"@, number_view(rule)).with(
        "level"@,
        JsonView::Text(level(f.severity)),
    ).with("message"@, description_view(f.message)).with("locations"@, locations_view(f)).with(
        "fixes"@,
        fixes_view(f),
    )
}

/// One result for each finding, in their order.
pub open spec fn results_view(findings: Seq<FindingView>, rules: Seq<Seq<char>>) -> JsonView
    decreases findings.len(),
{
    if findings.len() == 0 {
        no_items()
    } else {
        results_view(findings.drop_last(), rules).and(
            result_view(findings.last(), rule_number(rules, findings.last().category)),
        )
    }
}

/// A rule with its place among the rules.
pub open spec fn rule_view(id: Seq<char>, number: nat) -> JsonView {
    no_members().with("id"@, JsonView::Text(id)).with("index"@, number_view(number)).with(
        "shortDescription"@,
        description_view(""@),
    )
}

pub open spec fn rules_view(rules: Seq<Seq<char>>) -> JsonView
    decreases rules.len(),
{
    if rules.len() == 0 {
        no_items()
    } else {
        rules_view(rules.drop_last()).and(rule_view(rules.last(), (rules.len() - 1) as nat))
    }
}

/// The statistics as a JSON object.
pub open spec fn stats_view(s: ReviewStats) -> JsonView {
    no_members().with("files_changed"@, number_view(s.files_changed as nat)).with(
        "files_reviewed"@,
        number_view(s.files_reviewed as nat),
    ).with("files_skipped"@, number_view(s.files_skipped as nat)).with(
        "files_path_filtered"@,
        number_view(s.files_path_filtered as nat),
    ).with("files_budget_dropped"@, number_view(s.files_budget_dropped as nat)).with(
        "input_tokens_estimated"@,
        number_view(s.input_tokens_estimated as nat),
    ).with("system_tokens_estimated"@, number_view(s.system_tokens_estimated as nat)).with(
        "output_tokens_reported"@,
        opt_number_view(
            match s.output_tokens_reported {
                Some(n) => Some(n as nat),
                None => None,
            },
        ),
    ).with(
        "total_tokens_used"@,
        opt_number_view(
            match s.total_tokens_used {
                Some(n) => Some(n as nat),
                None => None,
            },
        ),
    ).with("latency_ms"@, number_view(s.latency_ms as nat)).with("model"@, JsonView::Text(s.model@)).with(
        "prompt_version"@,
        JsonView::Text(s.prompt_version@),
    ).with("domain"@, JsonView::Text(s.domain@))
}

pub open spec fn driver_view(program: Seq<char>, rules: Seq<Seq<char>>) -> JsonView {
    no_members().with("name"@, JsonView::Text(program)).with(
        "version"@,
        JsonView::Text(VERSION@),
    ).with("informationUri"@, JsonView::Text("https://github.com/devstroop/"@ + program)).with(
        "rules"@,
        rules_view(rules),
    )
}

pub open spec fn run_view(program: Seq<char>, result: ReviewResult) -> JsonView {
    let findings = finding_views(result.findings@);
    let rules = sorted_rules(categories(findings));
    no_members().with("tool"@, no_members().with("driver"@, driver_view(program, rules))).with(
        "results"@,
        results_view(findings, rules),
    ).with(
        "invocations"@,
        no_items().and(no_members().with("executionSuccessful"@, JsonView::Bool(true))),
    ).with(
        "properties"@,
        no_members().with("reviewText"@, JsonView::Text(result.review_text@)).with(
            "stats"@,
            stats_view(result.stats),
        ),
    )
}

/// The SARIF document of a review by the program of that name.
pub open spec fn sarif_view(program: Seq<char>, result: ReviewResult) -> JsonView {
    no_members().with(
        "$schema"@,
        JsonView::Text(
            "https://raw.githubusercontent.com/oasis-tcs/sarif-spec/master/Schemata/sarif-schema-2.1.0.json"@,
        ),
    ).with("version"@, JsonView::Text("2.1.0"@)).with("runs"@, no_items().and(run_view(program, result)))
}

fn level_of(severity: &str) -> (r: &'static str)
    ensures
        r@ == level(severity@),
{
    if same(severity, "high") {
        "error"
    } else if same(severity, "medium") {
        "warning"
    } else if same(severity, "low") {
        "note"
    } else {
        "none"
    }
}

fn description(text: &str) -> (r: Json)
    ensures
        r@ == description_view(text@),
{
    Json::object().with("text", Json::text(text))
}

fn locations(f: &ReviewFinding) -> (r: Json)
    ensures
        r@ == locations_view(f@),
{
    match &f.file {
        Some(file) => {
            let artifact = Json::object().with(
                "artifactLocation",
                Json::object().with("uri", Json::text(file.as_str())),
            );
            let physical = match f.line {
                Some(line) => artifact.with(
                    "region",
                    Json::object().with("startLine", Json::number(line)),
                ),
                None => artifact,
            };
            Json::array().and(Json::object().with("physicalLocation", physical))
        },
        None => Json::array(),
    }
}

fn fixes(f: &ReviewFinding) -> (r: Json)
    ensures
        r@ == fixes_view(f@),
{
    match &f.suggestion {
        Some(s) => Json::array().and(Json::object().with("description", description(s.as_str()))),
        None => Json::array(),
    }
}

fn result_json(f: &ReviewFinding, rule: usize) -> (r: Json)
    ensures
        r@ == result_view(f@, rule as nat),
{
    Json::object().with("ruleId", Json::text(f.category.as_str())).with(
        "ruleIndex",
        Json::number(rule as u64),
    ).with("level", Json::text(level_of(f.severity.as_str()))).with(
        "message",
        description(f.message.as_str()),
    ).with("locations", locations(f)).with("fixes", fixes(f))
}

/// The statistics as a JSON object.
pub fn stats_json(s: &ReviewStats) -> (r: Json)
    ensures
        r@ == stats_view(*s),
{
    let output: Option<u64> = match s.output_tokens_reported {
        Some(n) => Some(n as u64),
        None => None,
    };
    let total: Option<u64> = match s.total_tokens_used {
        Some(n) => Some(n as u64),
        None => None,
    };
    Json::object().with("files_changed", Json::number(s.files_changed as u64)).with(
        "files_reviewed",
        Json::number(s.files_reviewed as u64),
    ).with("files_skipped", Json::number(s.files_skipped as u64)).with(
        "files_path_filtered",
        Json::number(s.files_path_filtered as u64),
    ).with("files_budget_dropped", Json::number(s.files_budget_dropped as u64)).with(
        "input_tokens_estimated",
        Json::number(s.input_tokens_estimated as u64),
    ).with("system_tokens_estimated", Json::number(s.system_tokens_estimated as u64)).with(
        "output_tokens_reported",
        Json::opt_number(output),
    ).with("total_tokens_used", Json::opt_number(total)).with(
        "latency_ms",
        Json::number(s.latency_ms),
    ).with("model", Json::text(s.model.as_str())).with(
        "prompt_version",
        Json::text(s.prompt_version.as_str()),
    ).with("domain", Json::text(s.domain.as_str()))
}

// ---------------------------------------------------------------------------
// Rules

/// The place of a rule among rules.
fn index_of_rule(rules: &Vec<String>, id: &str) -> (r: usize)
    ensures
        r == rule_number(views(rules@), id@),
{
    let ghost all = views(rules@);
    let mut i: usize = 0;
    assert(all.subrange(0, all.len() as int) =~= all);
    while i < rules.len()
        invariant
            i <= rules@.len(),
            all == views(rules@),
            rule_number(all, id@) == i + rule_number(all.subrange(i as int, all.len() as int), id@),
        decreases rules@.len() - i,
    {
        let ghost tail = all.subrange(i as int, all.len() as int);
        assert(tail[0] == all[i as int]);
        if same(rules[i].as_str(), id) {
            return i;
        }
        assert(tail.subrange(1, tail.len() as int) =~= all.subrange(i + 1, all.len() as int));
        i += 1;
    }
    i
}

fn insert_sorted(rules: &mut Vec<String>, id: &String)
    ensures
        views(final(rules)@) == insert_rule(views(old(rules)@), id@),
{
    let ghost all = views(rules@);
    let mut i: usize = 0;
    assert(all.subrange(0, all.len() as int) =~= all);
    assert(all.take(0) + insert_rule(all, id@) =~= insert_rule(all, id@));
    while i < rules.len() && !text_precedes(id.as_str(), rules[i].as_str()) && !same(
        rules[i].as_str(),
        id.as_str(),
    )
        invariant
            i <= rules@.len(),
            rules@ == old(rules)@,
            all == views(rules@),
            insert_rule(all, id@) == all.take(i as int) + insert_rule(
                all.subrange(i as int, all.len() as int),
                id@,
            ),
        decreases rules@.len() - i,
    {
        proof {
            let tail = all.subrange(i as int, all.len() as int);
            assert(tail[0] == all[i as int]);
            assert(tail.subrange(1, tail.len() as int) =~= all.subrange(i + 1, all.len() as int));
            let rest = insert_rule(all.subrange(i + 1, all.len() as int), id@);
            assert(all.take(i as int) + (seq![all[i as int]] + rest) =~= all.take(i + 1) + rest);
        }
        i += 1;
    }
    let ghost tail = all.subrange(i as int, all.len() as int);
    proof {
        if i < all.len() {
            assert(tail[0] == all[i as int]);
        }
    }
    if i < rules.len() && !text_precedes(id.as_str(), rules[i].as_str()) {
        assert(all.take(i as int) + tail =~= all);
        return ;
    }
    let new = id.clone();
    proof {
        assert(all.take(i as int) + (seq![id@] + tail) =~= all.insert(i as int, id@));
        assert(views(rules@.insert(i as int, new)) =~= all.insert(i as int, id@));
    }
    rules.insert(i, new);
}

/// The different categories of findings, in alphabetical order.
fn collect_rules(findings: &Vec<ReviewFinding>) -> (r: Vec<String>)
    ensures
        views(r@) == sorted_rules(categories(finding_views(findings@))),
{
    let ghost all = categories(finding_views(findings@));
    let mut rules: Vec<String> = Vec::new();
    let mut i: usize = 0;
    assert(views(rules@) =~= sorted_rules(all.take(0)));
    while i < findings.len()
        invariant
            i <= findings@.len(),
            all == categories(finding_views(findings@)),
            views(rules@) == sorted_rules(all.take(i as int)),
        decreases findings@.len() - i,
    {
        assert(all.take(i + 1).drop_last() =~= all.take(i as int));
        assert(all.take(i + 1).last() == findings@[i as int].category@);
        insert_sorted(&mut rules, &findings[i].category);
        i += 1;
    }
    assert(all.take(i as int) =~= all);
    rules
}

fn rules_json(rules: &Vec<String>) -> (r: Json)
    ensures
        r@ == rules_view(views(rules@)),
{
    let ghost all = views(rules@);
    let mut out = Json::array();
    let mut i: usize = 0;
    while i < rules.len()
        invariant
            i <= rules@.len(),
            all == views(rules@),
            out@ == rules_view(all.take(i as int)),
        decreases rules@.len() - i,
    {
        assert(all.take(i + 1).drop_last() =~= all.take(i as int));
        assert(all.take(i + 1).last() == rules@[i as int]@);
        let rule = Json::object().with("id", Json::text(rules[i].as_str())).with(
            "index",
            Json::number(i as u64),
        ).with("shortDescription", description(""));
        out = out.and(rule);
        i += 1;
    }
    assert(all.take(i as int) =~= all);
    out
}

fn results_json(findings: &Vec<ReviewFinding>, rules: &Vec<String>) -> (r: Json)
    ensures
        r@ == results_view(finding_views(findings@), views(rules@)),
{
    let ghost all = finding_views(findings@);
    let mut out = Json::array();
    let mut i: usize = 0;
    while i < findings.len()
        invariant
            i <= findings@.len(),
            all == finding_views(findings@),
            out@ == results_view(all.take(i as int), views(rules@)),
        decreases findings@.len() - i,
    {
        assert(all.take(i + 1).drop_last() =~= all.take(i as int));
        assert(all.take(i + 1).last() == findings@[i as int]@);
        let number: usize = index_of_rule(rules, findings[i].category.as_str());
        out = out.and(result_json(&findings[i], number));
        i += 1;
    }
    assert(all.take(i as int) =~= all);
    out
}

/// Converts a review to a SARIF 2.1.0 document, in which the program of that name
/// is the driver.
pub fn to_sarif_value(program: &str, result: &ReviewResult) -> (r: Json)
    ensures
        r@ == sarif_view(program@, *result),
{
    let mut home = "https://github.com/devstroop/".to_owned();
    home.push_str(program);
    let rules = collect_rules(&result.findings);
    let driver = Json::object().with("name", Json::text(program)).with(
        "version",
        Json::text(VERSION),
    ).with("informationUri", Json::text(home.as_str())).with(
        "rules",
        rules_json(&rules),
    );
    let invocation = Json::object().with("executionSuccessful", Json::Bool(true));
    let properties = Json::object().with("reviewText", Json::text(result.review_text.as_str())).with(
        "stats",
        stats_json(&result.stats),
    );
    let run = Json::object().with("tool", Json::object().with("driver", driver)).with(
        "results",
        results_json(&result.findings, &rules),
    ).with("invocations", Json::array().and(invocation)).with("properties", properties);
    Json::object().with(
        "$schema",
        Json::text(
            "https://raw.githubusercontent.com/oasis-tcs/sarif-spec/master/Schemata/sarif-schema-2.1.0.json",
        ),
    ).with("version", Json::text("2.1.0")).with("runs", Json::array().and(run))
}

// ---------------------------------------------------------------------------
// What holds of the rules

/// The rules stand in strictly ascending order.
pub open spec fn ascending(rules: Seq<Seq<char>>) -> bool {
    forall|i: int, j: int|
        0 <= i < j < rules.len() ==> precedes(#[trigger] rules[i], #[trigger] rules[j])
}

proof fn lemma_insert_rule(rules: Seq<Seq<char>>, id: Seq<char>)
    requires
        ascending(rules),
    ensures
        ascending(insert_rule(rules, id)),
        insert_rule(rules, id).contains(id),
        forall|i: int|
            0 <= i < rules.len() ==> insert_rule(rules, id).contains(#[trigger] rules[i]),
        forall|i: int|
            0 <= i < insert_rule(rules, id).len() ==> (#[trigger] insert_rule(rules, id)[i]) == id
                || rules.contains(insert_rule(rules, id)[i]),
    decreases rules.len(),
{
    let out = insert_rule(rules, id);
    if rules.len() == 0 || precedes(id, rules[0]) {
        assert(out[0] == id);
        assert forall|i: int| 0 <= i < rules.len() implies out.contains(#[trigger] rules[i]) by {
            assert(out[i + 1] == rules[i]);
        }
        assert forall|i: int, j: int| 0 <= i < j < out.len() implies precedes(
            #[trigger] out[i],
            #[trigger] out[j],
        ) by {
            assert(out[j] == rules[j - 1]);
            if i == 0 {
                if j > 1 {
                    precedes_transitive(id, rules[0], rules[j - 1]);
                }
            } else {
                assert(out[i] == rules[i - 1]);
            }
        }
        assert forall|i: int| 0 <= i < out.len() implies (#[trigger] out[i]) == id
            || rules.contains(out[i]) by {
            if i > 0 {
                assert(out[i] == rules[i - 1]);
            }
        }
    } else if rules[0] == id {
        assert(out[0] == id);
    } else {
        let first = rules[0];
        let tail = rules.subrange(1, rules.len() as int);
        assert(ascending(tail)) by {
            assert forall|i: int, j: int| 0 <= i < j < tail.len() implies precedes(
                #[trigger] tail[i],
                #[trigger] tail[j],
            ) by {
                assert(tail[i] == rules[i + 1] && tail[j] == rules[j + 1]);
            }
        }
        lemma_insert_rule(tail, id);
        let rest = insert_rule(tail, id);
        precedes_total(first, id);
        assert forall|i: int| 0 <= i < rest.len() implies precedes(first, #[trigger] rest[i]) by {
            if rest[i] != id {
                let k = choose|k: int| 0 <= k < tail.len() && tail[k] == rest[i];
                assert(tail[k] == rules[k + 1]);
            }
        }
        assert forall|i: int, j: int| 0 <= i < j < out.len() implies precedes(
            #[trigger] out[i],
            #[trigger] out[j],
        ) by {
            assert(out[j] == rest[j - 1]);
            if i > 0 {
                assert(out[i] == rest[i - 1]);
            }
        }
        let at = choose|k: int| 0 <= k < rest.len() && rest[k] == id;
        assert(out[at + 1] == id);
        assert forall|i: int| 0 <= i < rules.len() implies out.contains(#[trigger] rules[i]) by {
            if i == 0 {
                assert(out[0] == rules[0]);
            } else {
                assert(tail[i - 1] == rules[i]);
                let k = choose|k: int| 0 <= k < rest.len() && rest[k] == rules[i];
                assert(out[k + 1] == rules[i]);
            }
        }
        assert forall|i: int| 0 <= i < out.len() implies (#[trigger] out[i]) == id
            || rules.contains(out[i]) by {
            if i == 0 {
                assert(out[0] == rules[0]);
            } else {
                assert(out[i] == rest[i - 1]);
                if rest[i - 1] != id {
                    let k = choose|k: int| 0 <= k < tail.len() && tail[k] == rest[i - 1];
                    assert(rules[k + 1] == out[i]);
                }
            }
        }
    }
}

/// The rules of a document stand in alphabetical order, each once, and are
/// exactly the categories of the findings.
pub proof fn rules_are_sorted_and_complete(all: Seq<Seq<char>>)
    ensures
        ascending(sorted_rules(all)),
        forall|i: int, j: int|
            0 <= i < j < sorted_rules(all).len() ==> #[trigger] sorted_rules(all)[i]
                != #[trigger] sorted_rules(all)[j],
        forall|i: int| 0 <= i < all.len() ==> sorted_rules(all).contains(#[trigger] all[i]),
        forall|i: int|
            0 <= i < sorted_rules(all).len() ==> all.contains(#[trigger] sorted_rules(all)[i]),
    decreases all.len(),
{
    let out = sorted_rules(all);
    if all.len() > 0 {
        let shorter = all.drop_last();
        let rest = sorted_rules(shorter);
        rules_are_sorted_and_complete(shorter);
        lemma_insert_rule(rest, all.last());
        assert forall|i: int| 0 <= i < all.len() implies out.contains(#[trigger] all[i]) by {
            if i < shorter.len() {
                assert(rest.contains(shorter[i]));
                let k = choose|k: int| 0 <= k < rest.len() && rest[k] == shorter[i];
                assert(out.contains(rest[k]));
            }
        }
        assert forall|i: int| 0 <= i < out.len() implies all.contains(#[trigger] out[i]) by {
            if out[i] == all.last() {
                assert(all[all.len() - 1] == out[i]);
            } else {
                let k = choose|k: int| 0 <= k < rest.len() && rest[k] == out[i];
                assert(shorter.contains(rest[k]));
                let m = choose|m: int| 0 <= m < shorter.len() && shorter[m] == rest[k];
                assert(all[m] == out[i]);
            }
        }
    }
    assert forall|i: int, j: int| 0 <= i < j < out.len() implies #[trigger] out[i]
        != #[trigger] out[j] by {
        precedes_total(out[i], out[j]);
    }
}

proof fn lemma_rule_number(rules: Seq<Seq<char>>, id: Seq<char>)
    requires
        rules.contains(id),
    ensures
        rule_number(rules, id) < rules.len(),
        rules[rule_number(rules, id) as int] == id,
    decreases rules.len(),
{
    if rules[0] != id {
        let tail = rules.subrange(1, rules.len() as int);
        let k = choose|k: int| 0 <= k < rules.len() && rules[k] == id;
        assert(tail[k - 1] == id);
        lemma_rule_number(tail, id);
    }
}

proof fn lemma_rules_view(rules: Seq<Seq<char>>)
    ensures
        rules_view(rules) matches JsonView::Array(items) && items.len() == rules.len() && forall|
            k: int,
        |
            0 <= k < rules.len() ==> #[trigger] items[k] == rule_view(rules[k], k as nat),
    decreases rules.len(),
{
    if rules.len() > 0 {
        lemma_rules_view(rules.drop_last());
    }
}

proof fn lemma_results_view(findings: Seq<FindingView>, rules: Seq<Seq<char>>)
    ensures
        results_view(findings, rules) matches JsonView::Array(items) && items.len()
            == findings.len() && forall|i: int|
            0 <= i < findings.len() ==> #[trigger] items[i] == result_view(
                findings[i],
                rule_number(rules, findings[i].category),
            ),
    decreases findings.len(),
{
    if findings.len() > 0 {
        lemma_results_view(findings.drop_last(), rules);
    }
}

/// The only run of a document, its results, and the rules of its driver.
proof fn lemma_parts(program: Seq<char>, result: ReviewResult)
    ensures
        ({
            let findings = finding_views(result.findings@);
            let rules = sorted_rules(categories(findings));
            let run = run_view(program, result);
            &&& sarif_view(program, result).get("runs"@) == Some(no_items().and(run))
            &&& run.get("results"@) == Some(results_view(findings, rules))
            &&& run.get("tool"@) matches Some(tool) && tool.get("driver"@) matches Some(driver)
                && driver.get("rules"@) == Some(rules_view(rules))
        }),
{
    reveal_strlit("tool");
    reveal_strlit("results");
    reveal_strlit("invocations");
    reveal_strlit("properties");
    assert forall|v: JsonView, key: Seq<char>, value: JsonView, other: Seq<char>|
        v is Object implies #[trigger] v.with(key, value).get(other) == if other == key {
        Some(value)
    } else {
        v.get(other)
    } by {
        inserted_member_is_found(v->Object_0, key, value, other);
    }
}

/// Each result names the category of its finding as its rule, and its number
/// among the rules is that of the rule of this name.
pub proof fn results_point_at_their_rules(
    program: Seq<char>,
    result: ReviewResult,
    i: int,
)
    requires
        0 <= i < result.findings@.len(),
    ensures
        sarif_view(program, result).get("runs"@) == Some(no_items().and(run_view(program, result))),
        run_view(program, result).get("results"@) matches Some(JsonView::Array(results)) && results.len()
            == result.findings@.len() && results[i].text_at("ruleId"@) == Some(
            result.findings@[i].category@,
        ) && (run_view(program, result).get("tool"@) matches Some(tool) && tool.get("driver"@) matches Some(
            driver,
        ) && driver.get("rules"@) matches Some(JsonView::Array(rules)) && exists|k: nat|
            k < rules.len() && results[i].get("ruleIndex"@) == Some(#[trigger] number_view(k))
                && rules[k as int].text_at("id"@) == results[i].text_at("ruleId"@)),
{
    let findings = finding_views(result.findings@);
    let all = categories(findings);
    let rules = sorted_rules(all);
    let f = findings[i];
    lemma_parts(program, result);
    lemma_rules_view(rules);
    lemma_results_view(findings, rules);
    rules_are_sorted_and_complete(all);
    assert(all[i] == f.category);
    lemma_rule_number(rules, f.category);
    let k = rule_number(rules, f.category);
    reveal_strlit("ruleId");
    reveal_strlit("ruleIndex");
    reveal_strlit("level");
    reveal_strlit("message");
    reveal_strlit("locations");
    reveal_strlit("fixes");
    reveal_strlit("id");
    reveal_strlit("index");
    reveal_strlit("shortDescription");
    assert("ruleIndex"@[0] != "locations"@[0]);
    assert forall|v: JsonView, key: Seq<char>, value: JsonView, other: Seq<char>|
        v is Object implies #[trigger] v.with(key, value).get(other) == if other == key {
        Some(value)
    } else {
        v.get(other)
    } by {
        inserted_member_is_found(v->Object_0, key, value, other);
    }
    assert(result_view(f, k).get("ruleId"@) == Some(JsonView::Text(f.category)));
    assert(result_view(f, k).get("ruleIndex"@) == Some(number_view(k)));
    assert(rule_view(rules[k as int], k).get("id"@) == Some(JsonView::Text(f.category)));
}

/// The value of a member of a member.
pub open spec fn at(v: JsonView, key: Seq<char>, inner: Seq<char>) -> Option<JsonView> {
    match v.get(key) {
        Some(m) => m.get(inner),
        None => None,
    }
}

proof fn lemma_members()
    ensures
        forall|v: JsonView, key: Seq<char>, value: JsonView, other: Seq<char>|
            v is Object ==> #[trigger] v.with(key, value).get(other) == if other == key {
                Some(value)
            } else {
                v.get(other)
            },
        forall|v: JsonView, key: Seq<char>, value: JsonView|
            v is Object ==> #[trigger] v.with(key, value) is Object,
{
    assert forall|v: JsonView, key: Seq<char>, value: JsonView, other: Seq<char>|
        v is Object implies #[trigger] v.with(key, value).get(other) == if other == key {
        Some(value)
    } else {
        v.get(other)
    } by {
        set_members_are_found(v, key, value, other);
    }
}

proof fn lemma_result_keys()
    ensures
        "ruleId"@ != "level"@ && "ruleId"@ != "message"@ && "ruleId"@ != "locations"@ && "ruleId"@
            != "fixes"@ && "ruleId"@ != "ruleIndex"@,
        "ruleIndex"@ != "level"@ && "ruleIndex"@ != "message"@ && "ruleIndex"@ != "locations"@
            && "ruleIndex"@ != "fixes"@,
        "level"@ != "message"@ && "level"@ != "locations"@ && "level"@ != "fixes"@,
        "message"@ != "locations"@ && "message"@ != "fixes"@,
        "locations"@ != "fixes"@,
        "artifactLocation"@ != "region"@,
{
    reveal_strlit("ruleId");
    reveal_strlit("ruleIndex");
    reveal_strlit("level");
    reveal_strlit("message");
    reveal_strlit("locations");
    reveal_strlit("fixes");
    reveal_strlit("artifactLocation");
    reveal_strlit("region");
    assert("ruleId"@[0] == 'r' && "ruleIndex"@[0] == 'r' && "level"@[0] == 'l' && "message"@[0]
        == 'm' && "locations"@[0] == 'l' && "fixes"@[0] == 'f');
    assert("ruleId"@.len() == 6 && "ruleIndex"@.len() == 9 && "level"@.len() == 5);
    assert("locations"@.len() == 9 && "artifactLocation"@.len() == 16 && "region"@.len() == 6);
}

/// The items of an array; none where the value is no array.
pub open spec fn items_of(v: Option<JsonView>) -> Seq<JsonView> {
    match v {
        Some(JsonView::Array(items)) => items,
        _ => Seq::empty(),
    }
}

/// Each result of a document tells of the finding in the same place: its message, how
/// grave it is, where it is, and what is suggested. A finding without a file is in no
/// place, one without a line is in a file as a whole, and one without a suggestion has
/// no fix.
pub proof fn results_tell_of_their_findings(program: Seq<char>, result: ReviewResult, i: int)
    requires
        0 <= i < result.findings@.len(),
    ensures
        ({
            let runs = items_of(sarif_view(program, result).get("runs"@));
            let results = items_of(runs[0].get("results"@));
            let f = result.findings@[i];
            let r = results[i];
            let places = items_of(r.get("locations"@));
            let fixes = items_of(r.get("fixes"@));
            &&& runs.len() == 1
            &&& results.len() == result.findings@.len()
            &&& at(r, "message"@, "text"@) == Some(JsonView::Text(f.message@))
            &&& f.severity@ == "high"@ ==> r.text_at("level"@) == Some("error"@)
            &&& f.severity@ == "medium"@ ==> r.text_at("level"@) == Some("warning"@)
            &&& f.severity@ == "low"@ ==> r.text_at("level"@) == Some("note"@)
            &&& f.severity@ == "info"@ ==> r.text_at("level"@) == Some("none"@)
            &&& f.file is None ==> places.len() == 0
            &&& f.file matches Some(file) ==> {
                &&& places.len() == 1
                &&& places[0].get("physicalLocation"@) matches Some(place) && {
                    &&& at(place, "artifactLocation"@, "uri"@) == Some(JsonView::Text(file@))
                    &&& f.line is None ==> place.get("region"@) is None
                    &&& f.line matches Some(line) ==> at(place, "region"@, "startLine"@) == Some(
                        JsonView::Number(Some(line), decimal(line as nat)),
                    )
                }
            }
            &&& f.suggestion is None ==> fixes.len() == 0
            &&& f.suggestion matches Some(s) ==> fixes.len() == 1 && at(
                fixes[0],
                "description"@,
                "text"@,
            ) == Some(JsonView::Text(s@))
        }),
{
    let findings = finding_views(result.findings@);
    let rules = sorted_rules(categories(findings));
    lemma_parts(program, result);
    lemma_results_view(findings, rules);
    lemma_members();
    lemma_result_keys();
    let f = findings[i];
    let r = result_view(f, rule_number(rules, f.category));
    assert(no_items().and(run_view(program, result)) matches JsonView::Array(runs) && runs.len()
        == 1);
    assert(r.get("message"@) == Some(description_view(f.message)));
    assert(description_view(f.message).get("text"@) == Some(JsonView::Text(f.message)));
    assert(r.get("level"@) == Some(JsonView::Text(level(f.severity))));
    assert(r.get("locations"@) == Some(locations_view(f)));
    assert(r.get("fixes"@) == Some(fixes_view(f)));
    reveal_strlit("high");
    reveal_strlit("medium");
    reveal_strlit("low");
    reveal_strlit("info");
    assert("high"@[0] == 'h' && "medium"@[0] == 'm' && "low"@[0] == 'l' && "info"@[0] == 'i');
    match f.suggestion {
        Some(s) => {
            assert(description_view(s).get("text"@) == Some(JsonView::Text(s)));
        },
        None => {},
    }
    match f.file {
        Some(file) => {
            let uri = no_members().with("uri"@, JsonView::Text(file));
            assert(uri.get("uri"@) == Some(JsonView::Text(file)));
        },
        None => {},
    }
}

/// The statistics tell every number under its own name, and null where there is none.
pub proof fn statistics_are_told_one_by_one(s: ReviewStats)
    ensures
        ({
            let v = stats_view(s);
            &&& v.number_at("files_changed"@) == Some(s.files_changed as u64)
            &&& v.number_at("files_reviewed"@) == Some(s.files_reviewed as u64)
            &&& v.number_at("files_skipped"@) == Some(s.files_skipped as u64)
            &&& v.number_at("files_path_filtered"@) == Some(s.files_path_filtered as u64)
            &&& v.number_at("files_budget_dropped"@) == Some(s.files_budget_dropped as u64)
            &&& v.number_at("input_tokens_estimated"@) == Some(s.input_tokens_estimated as u64)
            &&& v.number_at("system_tokens_estimated"@) == Some(s.system_tokens_estimated as u64)
            &&& s.output_tokens_reported matches Some(n) ==> v.number_at("output_tokens_reported"@) == Some(n as u64)
            &&& s.output_tokens_reported is None ==> v.get("output_tokens_reported"@) == Some(JsonView::Null)
            &&& s.total_tokens_used matches Some(n) ==> v.number_at("total_tokens_used"@) == Some(n as u64)
            &&& s.total_tokens_used is None ==> v.get("total_tokens_used"@) == Some(JsonView::Null)
            &&& v.number_at("latency_ms"@) == Some(s.latency_ms as u64)
            &&& v.text_at("model"@) == Some(s.model@)
            &&& v.text_at("prompt_version"@) == Some(s.prompt_version@)
            &&& v.text_at("domain"@) == Some(s.domain@)
        }),
{
    lemma_members();
    reveal_strlit("files_changed");
    reveal_strlit("files_reviewed");
    reveal_strlit("files_skipped");
    reveal_strlit("files_path_filtered");
    reveal_strlit("files_budget_dropped");
    reveal_strlit("input_tokens_estimated");
    reveal_strlit("system_tokens_estimated");
    reveal_strlit("output_tokens_reported");
    reveal_strlit("total_tokens_used");
    reveal_strlit("latency_ms");
    reveal_strlit("model");
    reveal_strlit("prompt_version");
    reveal_strlit("domain");
    assert("files_changed"@.len() == 13 && "files_changed"@[0] == 'f');
    assert("files_reviewed"@.len() == 14 && "files_reviewed"@[0] == 'f');
    assert("files_skipped"@.len() == 13 && "files_skipped"@[0] == 'f');
    assert("files_path_filtered"@.len() == 19 && "files_path_filtered"@[0] == 'f');
    assert("files_budget_dropped"@.len() == 20 && "files_budget_dropped"@[0] == 'f');
    assert("input_tokens_estimated"@.len() == 22 && "input_tokens_estimated"@[0] == 'i');
    assert("system_tokens_estimated"@.len() == 23 && "system_tokens_estimated"@[0] == 's');
    assert("output_tokens_reported"@.len() == 22 && "output_tokens_reported"@[0] == 'o');
    assert("total_tokens_used"@.len() == 17 && "total_tokens_used"@[0] == 't');
    assert("latency_ms"@.len() == 10 && "latency_ms"@[0] == 'l');
    assert("model"@.len() == 5 && "model"@[0] == 'm');
    assert("prompt_version"@.len() == 14 && "prompt_version"@[0] == 'p');
    assert("domain"@.len() == 6 && "domain"@[0] == 'd');
    assert("files_changed"@[6] == 'c' && "files_skipped"@[6] == 's');
}

/// A document names the standard and its version, the program and the version of it
/// that made the review, and holds the text of the review and its statistics.
pub proof fn documents_tell_of_the_review(program: Seq<char>, result: ReviewResult)
    ensures
        ({
            let doc = sarif_view(program, result);
            let run = items_of(doc.get("runs"@))[0];
            let driver = at(run, "tool"@, "driver"@);
            let invocations = items_of(run.get("invocations"@));
            &&& doc.text_at("version"@) == Some("2.1.0"@)
            &&& driver matches Some(d) && {
                &&& d.text_at("name"@) == Some(program)
                &&& d.text_at("version"@) == Some(VERSION@)
            }
            &&& at(run, "properties"@, "reviewText"@) == Some(JsonView::Text(result.review_text@))
            &&& at(run, "properties"@, "stats"@) == Some(stats_view(result.stats))
            &&& invocations.len() == 1
            &&& invocations[0].get("executionSuccessful"@) == Some(JsonView::Bool(true))
        }),
{
    lemma_members();
    lemma_parts(program, result);
    reveal_strlit("$schema");
    reveal_strlit("version");
    reveal_strlit("runs");
    reveal_strlit("name");
    reveal_strlit("informationUri");
    reveal_strlit("rules");
    reveal_strlit("reviewText");
    reveal_strlit("stats");
    reveal_strlit("tool");
    reveal_strlit("results");
    reveal_strlit("invocations");
    reveal_strlit("properties");
    assert("version"@.len() == 7 && "version"@[0] == 'v' && "runs"@.len() == 4);
    assert("name"@.len() == 4 && "informationUri"@.len() == 14 && "rules"@.len() == 5);
    assert("reviewText"@.len() == 10 && "stats"@.len() == 5);
    assert("tool"@.len() == 4 && "results"@.len() == 7 && "invocations"@.len() == 11);
    assert("properties"@.len() == 10);
    let run = run_view(program, result);
    let rules = sorted_rules(categories(finding_views(result.findings@)));
    let tool = no_members().with("driver"@, driver_view(program, rules));
    assert(tool.get("driver"@) == Some(driver_view(program, rules)));
    assert(run.get("tool"@) == Some(tool));
    assert(driver_view(program, rules).get("name"@) == Some(JsonView::Text(program)));
    let held = no_members().with("reviewText"@, JsonView::Text(result.review_text@)).with(
        "stats"@,
        stats_view(result.stats),
    );
    assert(run.get("properties"@) == Some(held));
    let done = no_members().with("executionSuccessful"@, JsonView::Bool(true));
    assert(run.get("invocations"@) == Some(no_items().and(done)));
    assert(done.get("executionSuccessful"@) == Some(JsonView::Bool(true)));
}

} // verus!
