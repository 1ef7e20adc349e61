//! The tool that submits a finding.
use vstd::prelude::*;

use crate::json::{no_items, no_members, Json, JsonView};
use crate::services::json_extractor::{is_valid_severity, valid_category, valid_severity};
use crate::text::{contains, ends_with, parts_are_contained};
use crate::tools::schema::{argument, argument_json, object_schema, object_schema_json};

verus! {

/// What the model is told of the tool.
pub const SUBMIT_FINDING_DESCRIPTION: &'static str =
    "Submit a review finding for a specific issue found in the code. Use this when you identify a bug, security concern, or other issue. You will still need to call task_done when finished.";

/// Submits a finding in the course of a review.
pub struct SubmitFinding;

/// What the model is told where an argument is missing.
pub open spec fn missing_argument(key: Seq<char>) -> Seq<char> {
    "'"@ + key + "' is required for submit_finding"@
}

/// What the model is told of a finding, or what is wrong with it: a message that
/// is more than nothing, a valid severity and a category are required.
pub open spec fn submission(args: JsonView) -> Result<Seq<char>, Seq<char>> {
    match args.text_at("message"@) {
        Some(message) => if message.len() == 0 {
            Err(missing_argument("message"@))
        } else {
            match args.text_at("severity"@) {
                Some(severity) => if !valid_severity(severity) {
                    Err(
                        "Invalid severity '"@ + severity
                            + "'. Must be one of: high, medium, low, info"@,
                    )
                } else {
                    match args.text_at("category"@) {
                        Some(category) => Ok(
                            "✅ Finding submitted: ["@ + severity + "] "@ + category + " — "@
                                + message,
                        ),
                        None => Err(missing_argument("category"@)),
                    }
                },
                None => Err(missing_argument("severity"@)),
            }
        },
        None => Err(missing_argument("message"@)),
    }
}

fn missing(key: &str) -> (r: String)
    ensures
        r@ == missing_argument(key@),
{
    let mut e = "'".to_owned();
    e.push_str(key);
    e.push_str("' is required for submit_finding");
    e
}

pub open spec fn severities() -> JsonView {
    no_items().and(JsonView::Text("high"@)).and(JsonView::Text("medium"@)).and(
        JsonView::Text("low"@),
    ).and(JsonView::Text("info"@))
}

pub open spec fn category_names() -> JsonView {
    no_items().and(JsonView::Text("logic_error"@)).and(JsonView::Text("security"@)).and(
        JsonView::Text("api_misuse"@),
    ).and(JsonView::Text("performance"@)).and(JsonView::Text("missing_edge_case"@)).and(
        JsonView::Text("best_practice"@),
    ).and(JsonView::Text("style"@)).and(JsonView::Text("documentation"@)).and(
        JsonView::Text("other"@),
    )
}

pub open spec fn submit_finding_schema() -> JsonView {
    object_schema(
        no_members().with(
            "severity"@,
            argument("string"@, "Severity level of the finding"@).with("enum"@, severities()),
        ).with(
            "category"@,
            argument("string"@, "Category of the finding"@).with("enum"@, category_names()),
        ).with("message"@, argument("string"@, "Description of the issue"@)).with(
            "file"@,
            argument("string"@, "File path relative to repo root (optional)"@),
        ).with("line"@, argument("integer"@, "Line number (1-based, optional)"@)).with(
            "suggestion"@,
            argument("string"@, "Suggested fix or improvement (optional)"@),
        ),
        no_items().and(JsonView::Text("severity"@)).and(JsonView::Text("category"@)).and(
            JsonView::Text("message"@),
        ),
    )
}

impl SubmitFinding {
    pub fn name(&self) -> (r: &'static str)
        ensures
            r@ == "submit_finding"@,
    {
        "submit_finding"
    }

    pub fn description(&self) -> (r: &'static str)
        ensures
            r@ == SUBMIT_FINDING_DESCRIPTION@,
    {
        SUBMIT_FINDING_DESCRIPTION
    }

    pub fn schema(&self) -> (r: Json)
        ensures
            r@ == submit_finding_schema(),
    {
        let severity_names = Json::array().and(Json::text("high")).and(Json::text("medium")).and(
            Json::text("low"),
        ).and(Json::text("info"));
        let names = Json::array().and(Json::text("logic_error")).and(Json::text("security")).and(
            Json::text("api_misuse"),
        ).and(Json::text("performance")).and(Json::text("missing_edge_case")).and(
            Json::text("best_practice"),
        ).and(Json::text("style")).and(Json::text("documentation")).and(Json::text("other"));
        object_schema_json(
            Json::object().with(
                "severity",
                argument_json("string", "Severity level of the finding").with("enum", severity_names),
            ).with(
                "category",
                argument_json("string", "Category of the finding").with("enum", names),
            ).with("message", argument_json("string", "Description of the issue")).with(
                "file",
                argument_json("string", "File path relative to repo root (optional)"),
            ).with("line", argument_json("integer", "Line number (1-based, optional)")).with(
                "suggestion",
                argument_json("string", "Suggested fix or improvement (optional)"),
            ),
            Json::array().and(Json::text("severity")).and(Json::text("category")).and(
                Json::text("message"),
            ),
        )
    }

    /// What the model is told of a finding, or what is wrong with it.
    pub fn execute(&self, args: &Json) -> (r: Result<String, String>)
        ensures
            match r {
                Ok(s) => submission(args@) == Ok::<Seq<char>, Seq<char>>(s@),
                Err(e) => submission(args@) == Err::<Seq<char>, Seq<char>>(e@),
            },
    {
        let message = match args.text_at("message") {
            Some(t) => t.as_str(),
            None => {
                return Err(missing("message"));
            },
        };
        if message.is_empty() {
            return Err(missing("message"));
        }
        let severity = match args.text_at("severity") {
            Some(t) => t.as_str(),
            None => {
                return Err(missing("severity"));
            },
        };
        if !is_valid_severity(severity) {
            let mut e = "Invalid severity '".to_owned();
            e.push_str(severity);
            e.push_str("'. Must be one of: high, medium, low, info");
            return Err(e);
        }
        let category = match args.text_at("category") {
            Some(t) => t.as_str(),
            None => {
                return Err(missing("category"));
            },
        };
        let mut s = "✅ Finding submitted: [".to_owned();
        s.push_str(severity);
        s.push_str("] ");
        s.push_str(category);
        s.push_str(" — ");
        s.push_str(message);
        Ok(s)
    }
}

/// A finding is taken just where it has a message that is not empty, a severity that
/// there is and a category; and what the model is told names all three.
pub proof fn findings_are_taken_with_all_three(
    args: JsonView,
    message: Seq<char>,
    severity: Seq<char>,
    category: Seq<char>,
)
    ensures
        args.text_at("message"@) == Some(message) && message.len() > 0 && args.text_at("severity"@)
            == Some(severity) && valid_severity(severity) && args.text_at("category"@) == Some(
            category,
        ) ==> (submission(args) matches Ok(told) && ends_with(told, message) && contains(
            told,
            "["@ + severity + "] "@ + category,
        )),
        submission(args) is Ok ==> {
            &&& args.text_at("message"@) is Some && args.text_at("message"@).unwrap().len() > 0
            &&& args.text_at("severity"@) is Some && valid_severity(
                args.text_at("severity"@).unwrap(),
            )
            &&& args.text_at("category"@) is Some
        },
{
    reveal_strlit("✅ Finding submitted: [");
    reveal_strlit("[");
    let told = "✅ Finding submitted: ["@ + severity + "] "@ + category + " — "@ + message;
    let n = "✅ Finding submitted: ["@.len() - 1;
    let front = "✅ Finding submitted: ["@.subrange(0, n);
    assert("✅ Finding submitted: ["@ =~= front + "["@);
    let middle = "["@ + severity + "] "@ + category;
    parts_are_contained(front, middle, " — "@ + message);
    assert(front + middle + (" — "@ + message) =~= told);
    assert(told.subrange(told.len() - message.len(), told.len() as int) =~= message);
}

/// The model is offered just the severities and the categories that are let in.
pub proof fn what_is_offered_is_let_in(s: Seq<char>)
    ensures
        valid_severity(s) <==> (severities() matches JsonView::Array(items) && items.contains(
            JsonView::Text(s),
        )),
        valid_category(s) <==> (category_names() matches JsonView::Array(items) && items.contains(
            JsonView::Text(s),
        )),
{
    let grave = severities()->Array_0;
    assert(grave =~= seq![
        JsonView::Text("high"@),
        JsonView::Text("medium"@),
        JsonView::Text("low"@),
        JsonView::Text("info"@),
    ]);
    assert(grave.contains(grave[0]) && grave.contains(grave[1]) && grave.contains(grave[2])
        && grave.contains(grave[3]));
    let kinds = category_names()->Array_0;
    assert(kinds =~= seq![
        JsonView::Text("logic_error"@),
        JsonView::Text("security"@),
        JsonView::Text("api_misuse"@),
        JsonView::Text("performance"@),
        JsonView::Text("missing_edge_case"@),
        JsonView::Text("best_practice"@),
        JsonView::Text("style"@),
        JsonView::Text("documentation"@),
        JsonView::Text("other"@),
    ]);
    assert(kinds.contains(kinds[0]) && kinds.contains(kinds[1]) && kinds.contains(kinds[2])
        && kinds.contains(kinds[3]) && kinds.contains(kinds[4]) && kinds.contains(kinds[5])
        && kinds.contains(kinds[6]) && kinds.contains(kinds[7]) && kinds.contains(kinds[8]));
}

} // verus!
