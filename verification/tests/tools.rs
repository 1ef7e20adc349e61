use review_agent::git::append_patch_line;
use review_agent::json::{into_value, parse_json, Json};
use review_agent::tools::code_search::CodeSearch;
use review_agent::tools::file_find::FileFind;
use review_agent::tools::file_read::FileRead;
use review_agent::tools::registry::{ToolEntry, ToolRegistry};
use review_agent::tools::submit_finding::SubmitFinding;
use review_agent::tools::task_done::TaskDone;

fn args(text: &str) -> Json {
    parse_json(text).unwrap_or(Json::Null)
}

#[test]
fn registered_tools_are_found() {
    let mut registry = ToolRegistry::code_domain();
    let names: Vec<String> = registry
        .tool_defs()
        .into_iter()
        .map(|d| d.function.name)
        .collect();
    assert_eq!(
        names,
        vec!["file_read", "code_search", "file_find", "submit_finding", "task_done"]
    );
    assert!(registry.has_tool("task_done"));
    assert!(!registry.has_tool("extra"));
    assert_eq!(registry.find("extra").unwrap_err(), "Unknown tool: extra");
    registry.register(ToolEntry {
        name: "extra".into(),
        description: "d".into(),
        schema: Json::object(),
    });
    assert_eq!(registry.find("extra"), Ok(5));
    assert_eq!(registry.tool_defs()[5].tool_type, "function");
    assert!(ToolRegistry::default().tools.is_empty());
}

#[test]
fn schemas_list_their_arguments() {
    let s = into_value(SubmitFinding.schema());
    assert_eq!(s["type"], "object");
    assert_eq!(s["properties"]["severity"]["enum"][0], "high");
    assert_eq!(s["properties"]["category"]["enum"].as_array().unwrap().len(), 9);
    assert_eq!(s["required"].as_array().unwrap().len(), 3);
    let s = into_value(CodeSearch.schema());
    assert_eq!(s["properties"]["file_patterns"]["items"]["type"], "string");
    assert_eq!(s["properties"]["case_sensitive"]["default"], false);
    let s = into_value(FileRead.schema());
    assert_eq!(s["properties"]["start_line"]["type"], "integer");
    let s = into_value(FileFind.schema());
    assert_eq!(s["required"][0], "name");
    let s = into_value(TaskDone.schema());
    assert!(s["required"].as_array().unwrap().is_empty());
}

#[test]
fn searches_run_git_grep() {
    assert_eq!(
        CodeSearch.arguments(&args("{}")).unwrap_err(),
        "Missing 'pattern' argument"
    );
    assert_eq!(
        CodeSearch.arguments(&args("{\"pattern\":\"-x\"}")).unwrap(),
        vec!["grep", "--line-number", "--max-count", "50", "-I", "-i", "--", "-x"]
    );
    assert_eq!(
        CodeSearch
            .arguments(&args(
                "{\"pattern\":\"p\",\"case_sensitive\":true,\"file_patterns\":[\"*.rs\",1,\"*.py\"]}"
            ))
            .unwrap(),
        vec![
            "grep", "--line-number", "--max-count", "50", "-I", "--include", "*.rs", "--include",
            "*.py", "--", "p"
        ]
    );
    assert_eq!(CodeSearch.outcome(true, Some(0), "a:1:x\n".into(), "").unwrap(), "a:1:x\n");
    let found: String = (1..=60).map(|n| format!("a:{n}:x\n")).collect();
    let shown = CodeSearch.outcome(true, Some(0), found, "").unwrap();
    assert_eq!(shown.lines().count(), 50);
    assert!(shown.starts_with("a:1:x\n") && shown.ends_with("\na:50:x"));
    assert_eq!(
        CodeSearch.outcome(true, Some(0), "".into(), "").unwrap(),
        "No matches found."
    );
    assert_eq!(
        CodeSearch.outcome(false, Some(1), "".into(), "").unwrap(),
        "No matches found."
    );
    assert_eq!(
        CodeSearch
            .outcome(false, Some(1), "".into(), "fatal: not a git repository (x)")
            .unwrap_err(),
        "Not a git repository — code_search requires a git repo"
    );
    assert_eq!(
        CodeSearch.outcome(false, Some(128), "".into(), "boom").unwrap_err(),
        "git grep failed: boom"
    );
    assert_eq!(
        CodeSearch.outcome(false, None, "".into(), "killed").unwrap_err(),
        "git grep failed: killed"
    );
}

#[test]
fn files_are_found_by_git_ls_files() {
    assert_eq!(
        FileFind.arguments(&args("{}")).unwrap_err(),
        "Missing 'name' argument"
    );
    assert_eq!(
        FileFind.arguments(&args("{\"name\":\"a.rs\"}")).unwrap(),
        vec!["ls-files", "--cached", "--others", "--exclude-standard", "--", "a.rs"]
    );
    assert_eq!(
        FileFind.arguments(&args("{\"name\":\"*.rs\"}")).unwrap()[4],
        "--glob"
    );
    let many: String = (0..60).map(|i| format!("f{i}\n")).collect();
    let found = FileFind.outcome(true, &many, "").unwrap();
    assert_eq!(found.lines().count(), 50);
    assert!(found.ends_with("f49"));
    assert_eq!(FileFind.outcome(true, "", "").unwrap(), "No matching files found.");
    assert_eq!(
        FileFind.outcome(false, "", "boom").unwrap_err(),
        "git ls-files failed: boom"
    );
}

#[test]
fn files_are_read_in_part() {
    assert_eq!(FileRead.path(&args("{}")).unwrap_err(), "Missing 'path' argument");
    assert_eq!(FileRead.path(&args("{\"path\":\"p\"}")).unwrap(), "p");
    let content = "one\ntwo\r\nthree\n";
    assert_eq!(
        FileRead.read("f", content, &args("{}")).unwrap(),
        "```\nf:\none\ntwo\nthree\n```\n(Lines 1-3 of 3)"
    );
    assert_eq!(
        FileRead
            .read("f", content, &args("{\"start_line\":2,\"end_line\":9}"))
            .unwrap(),
        "```\nf:\ntwo\nthree\n```\n(Lines 2-3 of 3)"
    );
    assert_eq!(
        FileRead
            .read("f", content, &args("{\"start_line\":3,\"end_line\":2}"))
            .unwrap_err(),
        "Invalid line range 3..2 (file has 3 lines)"
    );
    assert_eq!(
        FileRead.read("f", "", &args("{}")).unwrap_err(),
        "Invalid line range 1..0 (file has 0 lines)"
    );
    assert_eq!(
        FileRead.read("f", "x", &args("{\"start_line\":0}")).unwrap(),
        "```\nf:\nx\n```\n(Lines 1-1 of 1)"
    );
}

#[test]
fn files_outside_the_working_directory_are_refused() {
    assert!(FileRead.check_inside("a", "/w/a", "/w").is_ok());
    assert!(FileRead.check_inside(".", "/w", "/w").is_ok());
    assert!(FileRead.check_inside("etc", "/etc", "/").is_ok());
    assert_eq!(
        FileRead.check_inside("../x", "/wx", "/w").unwrap_err(),
        "Path '../x' is outside the working directory"
    );
}

#[test]
fn findings_are_submitted() {
    assert_eq!(
        SubmitFinding
            .execute(&args("{\"category\":\"security\",\"message\":\"m\"}"))
            .unwrap_err(),
        "'severity' is required for submit_finding"
    );
    assert_eq!(
        SubmitFinding
            .execute(&args("{\"severity\":\"high\",\"message\":\"m\"}"))
            .unwrap_err(),
        "'category' is required for submit_finding"
    );
    assert_eq!(
        SubmitFinding
            .execute(&args("{\"severity\":\"high\",\"category\":\"style\",\"message\":\"m\"}"))
            .unwrap(),
        "✅ Finding submitted: [high] style — m"
    );
    assert_eq!(
        SubmitFinding.execute(&args("{}")).unwrap_err(),
        "'message' is required for submit_finding"
    );
    assert_eq!(
        SubmitFinding
            .execute(&args("{\"severity\":\"x\",\"message\":\"m\"}"))
            .unwrap_err(),
        "Invalid severity 'x'. Must be one of: high, medium, low, info"
    );
    assert_eq!(TaskDone.execute().unwrap(), "Task completed.");
}

#[test]
fn patches_are_put_together() {
    let mut out = String::new();
    append_patch_line(&mut out, 'F', b"diff --git a/x b/x\n".to_vec());
    append_patch_line(&mut out, 'H', b"@@ -1 +1 @@\n".to_vec());
    append_patch_line(&mut out, '-', b"a\n".to_vec());
    append_patch_line(&mut out, '+', vec![0xff]);
    append_patch_line(&mut out, ' ', "é\n".as_bytes().to_vec());
    append_patch_line(&mut out, '\n', b"ignored".to_vec());
    assert_eq!(out, "diff --git a/x b/x\n@@ -1 +1 @@\n-a\n+<binary> é\n");
}
