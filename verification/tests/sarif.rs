use review_agent::engine::{ReviewFinding, ReviewResult, ReviewStats};
use review_agent::json::{into_value, write_json_pretty};
use review_agent::report::result_json;
use review_agent::sarif::{to_sarif_value, VERSION};

fn sample_result() -> ReviewResult {
    ReviewResult {
        review_text: "## Review\n\nLooks OK.".into(),
        findings: vec![
            ReviewFinding {
                severity: "high".into(),
                file: Some("src/main.rs".into()),
                line: Some(42),
                category: "security".into(),
                message: "Hardcoded password".into(),
                suggestion: Some("Use env var".into()),
            },
            ReviewFinding {
                severity: "low".into(),
                file: None,
                line: None,
                category: "best_practice".into(),
                message: "Use const".into(),
                suggestion: None,
            },
        ],
        pr_number: Some(1),
        pr_title: Some("Test".into()),
        session_id: None,
        stats: ReviewStats {
            files_changed: 2,
            files_reviewed: 1,
            files_skipped: 0,
            files_path_filtered: 0,
            files_budget_dropped: 0,
            input_tokens_estimated: 100,
            system_tokens_estimated: 200,
            output_tokens_reported: Some(50),
            total_tokens_used: Some(350),
            latency_ms: 500,
            model: "test-model".into(),
            prompt_version: "code/1".into(),
            domain: "code".into(),
        },
    }
}

#[test]
fn test_sarif_has_schema() {
    let result = sample_result();
    let sarif = into_value(to_sarif_value("review-agent", &result));
    assert_eq!(
        sarif["$schema"].as_str().unwrap(),
        "https://raw.githubusercontent.com/oasis-tcs/sarif-spec/master/Schemata/sarif-schema-2.1.0.json"
    );
    assert_eq!(sarif["version"], "2.1.0");
}

#[test]
fn test_sarif_has_two_results() {
    let result = sample_result();
    let sarif = into_value(to_sarif_value("review-agent", &result));
    let results = sarif["runs"][0]["results"].as_array().unwrap();
    assert_eq!(results.len(), 2);
}

#[test]
fn test_sarif_severity_mapping() {
    let result = sample_result();
    let sarif = into_value(to_sarif_value("review-agent", &result));
    let results = sarif["runs"][0]["results"].as_array().unwrap();
    // high → error
    assert_eq!(results[0]["level"], "error");
    // low → note
    assert_eq!(results[1]["level"], "note");
}

#[test]
fn test_sarif_rule_index() {
    let result = sample_result();
    let sarif = into_value(to_sarif_value("review-agent", &result));
    let rules = sarif["runs"][0]["tool"]["driver"]["rules"]
        .as_array()
        .unwrap();
    // The rules are sorted: best_practice before security
    assert_eq!(rules[0]["id"], "best_practice");
    assert_eq!(rules[1]["id"], "security");
}

#[test]
fn test_sarif_location() {
    let result = sample_result();
    let sarif = into_value(to_sarif_value("review-agent", &result));
    let results = sarif["runs"][0]["results"].as_array().unwrap();
    let locs = results[0]["locations"].as_array().unwrap();
    assert_eq!(
        locs[0]["physicalLocation"]["artifactLocation"]["uri"],
        "src/main.rs"
    );
    assert_eq!(locs[0]["physicalLocation"]["region"]["startLine"], 42);
}

#[test]
fn test_sarif_fix() {
    let result = sample_result();
    let sarif = into_value(to_sarif_value("review-agent", &result));
    let results = sarif["runs"][0]["results"].as_array().unwrap();
    let fixes = results[0]["fixes"].as_array().unwrap();
    assert_eq!(fixes[0]["description"]["text"], "Use env var");
}

#[test]
fn test_sarif_no_location_for_project_wide() {
    let result = sample_result();
    let sarif = into_value(to_sarif_value("review-agent", &result));
    let results = sarif["runs"][0]["results"].as_array().unwrap();
    // Second finding has no file/line — locations should be empty
    assert!(results[1]["locations"].as_array().unwrap().is_empty());
}

#[test]
fn test_sarif_invocation_successful() {
    let result = sample_result();
    let sarif = into_value(to_sarif_value("review-agent", &result));
    assert!(sarif["runs"][0]["invocations"][0]["executionSuccessful"]
        .as_bool()
        .unwrap());
}

#[test]
fn test_sarif_properties_include_stats() {
    let result = sample_result();
    let sarif = into_value(to_sarif_value("review-agent", &result));
    let props = &sarif["runs"][0]["properties"];
    assert!(props["stats"]["model"].is_string());
    assert_eq!(props["reviewText"], "## Review\n\nLooks OK.");
}

#[test]
fn rules_point_back_from_their_results() {
    let mut result = sample_result();
    result.findings.push(ReviewFinding {
        severity: "medium".into(),
        file: Some("a.rs".into()),
        line: None,
        category: "security".into(),
        message: "again".into(),
        suggestion: None,
    });
    let sarif = into_value(to_sarif_value("review-agent", &result));
    let run = &sarif["runs"][0];
    assert_eq!(run["tool"]["driver"]["version"], VERSION);
    assert_eq!(run["tool"]["driver"]["name"], "review-agent");
    assert_eq!(
        run["tool"]["driver"]["informationUri"],
        "https://github.com/devstroop/review-agent"
    );
    let rules = run["tool"]["driver"]["rules"].as_array().unwrap();
    assert_eq!(rules.len(), 2);
    for (i, rule) in rules.iter().enumerate() {
        assert_eq!(rule["index"], i);
    }
    // The number of a rule is its place among the rules.
    for r in run["results"].as_array().unwrap() {
        let at = r["ruleIndex"].as_u64().unwrap() as usize;
        assert_eq!(rules[at]["id"], r["ruleId"]);
    }
    assert_eq!(run["results"][0]["ruleIndex"], 1);
    assert_eq!(run["results"][1]["ruleIndex"], 0);
    assert_eq!(run["results"][2]["ruleIndex"], 1);
    assert_eq!(run["results"][2]["level"], "warning");
}

#[test]
fn results_are_reported_in_full() {
    let result = sample_result();
    let value = into_value(result_json(&result));
    assert_eq!(value["review_text"], "## Review\n\nLooks OK.");
    assert_eq!(value["findings"][0]["line"], 42);
    assert!(value["findings"][1]["file"].is_null());
    assert_eq!(value["pr_number"], 1);
    assert_eq!(value["stats"]["total_tokens_used"], 350);
    let text = write_json_pretty(result_json(&result)).unwrap();
    assert!(text.starts_with("{\n  \"findings\": [\n"));
    assert_eq!(
        serde_json::from_str::<serde_json::Value>(&text).unwrap(),
        value
    );
}
