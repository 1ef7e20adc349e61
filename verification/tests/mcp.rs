use review_agent::json::{into_value, parse_json, plain, Json};
use review_agent::mcp::lines::{LineBuffer, LineStep, MAX_LINE_LENGTH};
use review_agent::mcp::server::{
    parse_error_reply, reply, respond, tool_result, JsonRpcRequest, McpServer, Outcome, Served,
    ToolKind, INVALID_PARAMS, INVALID_REQUEST, METHOD_NOT_FOUND,
};
use review_agent::mcp::tools::{
    default_domain, default_format, default_post, diff_request, effective_timeout, failure_message,
    file_request, files_request, glob_request, pr_request, timeout_message, tool_definitions,
    ReviewDiffArgs, ReviewFileArgs, ReviewFilesArgs, ReviewGlobArgs, ReviewPrArgs,
};
use review_agent::engine::ReviewSource;

fn request(method: &str, params: Option<&str>) -> JsonRpcRequest {
    JsonRpcRequest {
        id: Some(Json::number(1)),
        method: method.into(),
        params: params.and_then(parse_json),
    }
}

fn failure(outcome: Outcome) -> (i32, String) {
    match outcome {
        Outcome::Answer(Err(e)) => e,
        _ => panic!("expected a failure"),
    }
}

fn value(outcome: Outcome) -> serde_json::Value {
    match outcome {
        Outcome::Answer(Ok(json)) => into_value(json),
        _ => panic!("expected an answer"),
    }
}

#[test]
fn tools_wait_for_the_client() {
    let tools = tool_definitions("review-agent");
    let mut server = McpServer::new("review-agent");
    for method in ["tools/list", "tools/call"] {
        assert_eq!(
            failure(server.dispatch(&request(method, None), &tools)),
            (
                INVALID_REQUEST,
                "Server not yet initialized -- send initialize + notifications/initialized first"
                    .into()
            )
        );
    }
    let info = value(server.dispatch(&request("initialize", None), &tools));
    assert_eq!(info["protocolVersion"], "2024-11-05");
    assert_eq!(info["serverInfo"]["name"], "review-agent");
    assert!(info["capabilities"]["tools"].is_object());
    assert!(!server.initialized);
    assert!(value(server.dispatch(&request("notifications/initialized", None), &tools)).is_null());
    assert!(server.initialized);
    let list = value(server.dispatch(&request("tools/list", None), &tools));
    let names: Vec<&str> = list["tools"]
        .as_array()
        .unwrap()
        .iter()
        .map(|t| t["name"].as_str().unwrap())
        .collect();
    assert_eq!(
        names,
        vec!["review_pr", "review_diff", "review_files", "review_file", "review_glob"]
    );
    assert_eq!(list["tools"][0]["inputSchema"]["required"][0], "pr_url");
    assert_eq!(
        list["tools"][0]["inputSchema"]["properties"]["post"]["default"],
        true
    );
    assert!(value(server.dispatch(&request("ping", None), &tools)).is_null());
    assert_eq!(
        failure(server.dispatch(&request("nope", None), &tools)),
        (METHOD_NOT_FOUND, "unknown method: nope".into())
    );
}

#[test]
fn protocol_versions_begin_with_a_year() {
    let tools = tool_definitions("review-agent");
    let mut server = McpServer::new("review-agent");
    for v in ["2024-11-05", "2025-01-01", "9999"] {
        let params = format!("{{\"protocolVersion\":\"{v}\"}}");
        value(server.dispatch(&request("initialize", Some(&params)), &tools));
    }
    for v in ["2023-12-31", "v1", "", "世界世界"] {
        let params = format!("{{\"protocolVersion\":\"{v}\"}}");
        assert_eq!(
            failure(server.dispatch(&request("initialize", Some(&params)), &tools)),
            (
                INVALID_REQUEST,
                format!("Unsupported protocol version '{v}': review-agent supports 2024-xx-xx")
            )
        );
    }
    // A version that is no text is passed over.
    value(server.dispatch(&request("initialize", Some("{\"protocolVersion\":1}")), &tools));
}

#[test]
fn calls_name_a_tool() {
    let tools = tool_definitions("review-agent");
    let mut server = McpServer::new("review-agent");
    server.dispatch(&request("notifications/initialized", None), &tools);
    assert_eq!(
        failure(server.dispatch(&request("tools/call", None), &tools)).0,
        INVALID_PARAMS
    );
    assert_eq!(
        failure(server.dispatch(&request("tools/call", Some("{}")), &tools)),
        (INVALID_PARAMS, "missing 'name' in params".into())
    );
    assert_eq!(
        failure(server.dispatch(&request("tools/call", Some("{\"name\":\"x\"}")), &tools)),
        (METHOD_NOT_FOUND, "unknown tool: x".into())
    );
    let named = [
        ("review_pr", ToolKind::ReviewPr),
        ("review_diff", ToolKind::ReviewDiff),
        ("review_files", ToolKind::ReviewFiles),
        ("review_file", ToolKind::ReviewFile),
        ("review_glob", ToolKind::ReviewGlob),
    ];
    for (name, kind) in named {
        let params = format!("{{\"name\":\"{name}\",\"arguments\":{{\"a\":1}}}}");
        match server.dispatch(&request("tools/call", Some(&params)), &tools) {
            Outcome::Call(k, args) => {
                assert_eq!(k, kind);
                assert_eq!(args.number_at("a"), Some(1));
            }
            Outcome::Answer(_) => panic!("{name} is a tool"),
        }
    }
}

#[test]
fn replies_follow_the_protocol() {
    let ok = into_value(reply(Some(Json::number(3)), Ok(Json::Null)).unwrap());
    assert_eq!(ok["jsonrpc"], "2.0");
    assert_eq!(ok["id"], 3);
    assert!(ok["result"].is_null() && ok.get("error").is_none());
    let failed = reply(Some(Json::text("a")), Err((METHOD_NOT_FOUND, "m".into()))).unwrap();
    let failed = into_value(failed);
    assert_eq!(failed["id"], "a");
    assert_eq!(failed["error"]["code"], -32601);
    assert_eq!(failed["error"]["message"], "m");
    // Notifications are not answered.
    assert!(reply(None, Ok(Json::Null)).is_none());
    let broken = into_value(parse_error_reply("why"));
    assert_eq!(broken["error"]["code"], -32700);
    assert!(broken["id"].is_null());
}

#[test]
fn requests_are_answered_under_their_ids() {
    let asked = |id: Option<Json>| JsonRpcRequest {
        id,
        method: "tools/call".into(),
        params: None,
    };
    let called = || Served::Called(Ok(Json::number(7)));
    let r = into_value(respond(asked(Some(Json::text("x"))), called()).unwrap());
    assert_eq!(r["id"], "x");
    assert_eq!(r["result"]["content"][0]["text"], "7");
    assert_eq!(r["result"]["isError"], false);
    let failed = Served::Called(Err("no".into()));
    let r = into_value(respond(asked(Some(Json::number(4))), failed).unwrap());
    assert_eq!(r["id"], 4);
    assert_eq!(r["result"]["isError"], true);
    let refused = Served::Answered(Err((INVALID_PARAMS, "why".into())));
    let r = into_value(respond(asked(Some(Json::number(5))), refused).unwrap());
    assert_eq!(r["id"], 5);
    assert_eq!(r["error"]["message"], "why");
    assert!(respond(asked(None), called()).is_none());
}

#[test]
fn tool_results_are_texts() {
    let r = into_value(tool_result(Ok(Json::object().with("b", Json::number(1)).with("a", Json::Null))));
    assert_eq!(r["content"][0]["type"], "text");
    assert_eq!(r["content"][0]["text"], "{\"a\":null,\"b\":1}");
    assert_eq!(r["isError"], false);
    let r = into_value(tool_result(Err("no".into())));
    assert_eq!(r["content"][0]["text"], "no");
    assert_eq!(r["isError"], true);
}

#[test]
fn lines_are_gathered_byte_by_byte() {
    let mut buffer = LineBuffer::new();
    for b in " {\"é\":1}\r".bytes() {
        assert!(matches!(buffer.push(b), LineStep::More));
    }
    match buffer.push(b'\n') {
        LineStep::Complete(line) => assert_eq!(line, "{\"é\":1}"),
        _ => panic!("the line is complete"),
    }
    match buffer.push(b'\n') {
        LineStep::Blank => {}
        _ => panic!("the line is empty"),
    }
    assert!(matches!(buffer.push(0xff), LineStep::More));
    assert!(matches!(buffer.push(b'\n'), LineStep::NotText));
}

#[test]
fn long_lines_are_refused() {
    let mut buffer = LineBuffer::new();
    for _ in 0..MAX_LINE_LENGTH {
        assert!(matches!(buffer.push(b'x'), LineStep::More));
    }
    assert!(matches!(buffer.push(b'x'), LineStep::TooLong));
}

fn pr_args(url: &str) -> ReviewPrArgs {
    ReviewPrArgs {
        pr_url: url.into(),
        post: default_post(),
        paths: vec!["src/".into()],
        extra_instructions: "e".into(),
        sticky: true,
        use_tools: true,
        timeout_secs: None,
    }
}

#[test]
fn arguments_become_requests() {
    let r = pr_request(pr_args("https://gitlab.com/o/r/-/merge_requests/7"))
        .unwrap_or_else(|e| panic!("{e}"));
    assert!(matches!(r.source, ReviewSource::PrUrl { number: 7, .. }));
    assert!(r.options.post_to_github && r.options.sticky && r.options.use_tools);
    assert_eq!(r.options.paths, vec!["src/"]);
    assert!(pr_request(pr_args("x")).is_err());

    let args = |paths: Vec<String>| ReviewFilesArgs {
        pr_url: "https://github.com/o/r/pull/1".into(),
        paths,
        post: false,
        extra_instructions: String::new(),
        timeout_secs: None,
    };
    assert_eq!(
        files_request(args(vec![])).err().unwrap_or_default(),
        "'paths' must be a non-empty array of path prefixes"
    );
    let r = files_request(args(vec!["a".into()])).unwrap_or_else(|e| panic!("{e}"));
    assert!(!r.options.post_to_github && !r.options.sticky);

    let r = diff_request(ReviewDiffArgs {
        diff: "d".into(),
        title: "t".into(),
        domain: default_domain(),
        language: None,
        description: None,
        extra_instructions: String::new(),
        format: default_format("review-agent"),
        timeout_secs: None,
    });
    assert!(!r.options.post_to_github);
    match r.source {
        ReviewSource::DiffText { domain, language_hint, .. } => {
            assert_eq!((domain.as_str(), language_hint.as_str()), ("code", ""));
        }
        _ => panic!("a diff is reviewed"),
    }
    let r = file_request(ReviewFileArgs {
        path: "p".into(),
        domain: "code".into(),
        language: Some("Rust".into()),
        description: None,
        extra_instructions: String::new(),
        timeout_secs: None,
    });
    assert!(matches!(r.source, ReviewSource::File { .. }));
    let r = glob_request(ReviewGlobArgs {
        pattern: "*.rs".into(),
        domain: "code".into(),
        extra_instructions: String::new(),
        timeout_secs: None,
    });
    assert!(matches!(r.source, ReviewSource::Glob { .. }));
}

#[test]
fn timeouts_are_optional() {
    assert_eq!(effective_timeout(None), None);
    assert_eq!(effective_timeout(Some(0)), None);
    assert_eq!(effective_timeout(Some(9)), Some(9));
    assert_eq!(timeout_message(9), "Review timed out after 9 seconds");
    assert_eq!(failure_message("x"), "Review failed: x");
}

#[test]
fn values_pass_through_unchanged() {
    let text = "{\"a\":[1,-2,2.5,\"x\\n\",true,null],\"b\":{\"c\":18446744073709551615}}";
    let value: serde_json::Value = serde_json::from_str(text).unwrap();
    assert_eq!(into_value(plain(value.clone())), value);
    let json = parse_json(text).unwrap_or(Json::Null);
    assert_eq!(into_value(json.copy()), value);
    assert!(parse_json("{").is_none());
    let inner = json.get("b").and_then(|b| b.number_at("c"));
    assert_eq!(inner, Some(u64::MAX));
}
