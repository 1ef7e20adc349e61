use review_agent::ai::{
    body_snippet, chat_output, classify_error, send_request, AiClient, ChatRequest, ChatResponse,
    Choice, ChoiceMessage, Message, Reply, ToolCall, ToolCallFunction, ToolDef, ToolFunction, Usage,
};
use review_agent::web::is_success;
use review_agent::config::{Settings, Temperature};
use review_agent::error::AgentError;
use review_agent::json::Json;
use review_agent::sensitive::Sensitive;

fn test_settings() -> Settings {
    let mut s = Settings::default();
    s.ai.api_key = Sensitive::new("sk-test-key".into());
    s.ai.api_base = "https://ai.cloudmagic.io/v1".into();
    s.ai.model = "glm-4.6".into();
    s.github.token = Sensitive::new("ghp_test".into());
    s
}

fn item(json: &Json, index: usize) -> &Json {
    match json {
        Json::Array(items) => &items[index],
        _ => panic!("expected an array"),
    }
}

fn text(json: Option<&Json>) -> String {
    match json {
        Some(Json::Text(s)) => s.clone(),
        _ => panic!("expected a text"),
    }
}

#[test]
fn test_chat_request_serialization() {
    let request = ChatRequest {
        model: "glm-4.6".to_string(),
        messages: vec![
            Message {
                role: "system".to_string(),
                content: Some("You are a review-agent".to_string()),
                tool_calls: None,
                tool_call_id: None,
            },
            Message {
                role: "user".to_string(),
                content: Some("Review this diff".to_string()),
                tool_calls: None,
                tool_call_id: None,
            },
        ],
        temperature: Some(Temperature {
            bits: 0.2f64.to_bits(),
            text: 0.2f64.to_string(),
        }),
        max_tokens: Some(4096),
        tools: None,
    };

    let json = request.into_json();
    assert_eq!(text(json.get("model")), "glm-4.6");
    let messages = json.get("messages").unwrap();
    assert_eq!(text(item(messages, 0).get("role")), "system");
    assert_eq!(text(item(messages, 1).get("content")), "Review this diff");
    match json.get("temperature") {
        Some(Json::Number(n)) => assert_eq!(n.text, "0.2"),
        _ => panic!("expected a number"),
    }
    assert_eq!(json.number_at("max_tokens"), Some(4096));
    assert!(json.get("tools").is_none());

    let value = review_agent::json::into_value(json);
    assert_eq!(value["temperature"], 0.2);
    assert_eq!(value["max_tokens"], 4096);
    assert_eq!(value["messages"][1]["content"], "Review this diff");
    assert!(value["messages"][0].get("tool_calls").is_none());
}

fn response(content: Option<&str>) -> ChatResponse {
    ChatResponse {
        id: None,
        choices: vec![Choice {
            message: ChoiceMessage {
                content: content.map(|c| c.to_string()),
                tool_calls: None,
            },
            finish_reason: Some("stop".to_string()),
        }],
        usage: Some(Usage {
            prompt_tokens: Some(100),
            completion_tokens: Some(50),
            total_tokens: Some(150),
        }),
    }
}

#[test]
fn test_empty_content_response() {
    let output = chat_output(response(None));
    assert_eq!(output.content, "");
    assert_eq!(output.finish_reason.as_deref(), Some("stop"));
}

#[test]
fn first_choice_counts() {
    let mut r = response(Some("## Review\n\nLooks good."));
    r.choices.push(Choice {
        message: ChoiceMessage {
            content: Some("second".into()),
            tool_calls: None,
        },
        finish_reason: Some("length".into()),
    });
    let output = chat_output(r);
    assert_eq!(output.content, "## Review\n\nLooks good.");
    assert_eq!(output.usage.unwrap().total_tokens, Some(150));
    assert!(output.tool_calls.is_empty());
    let empty = chat_output(ChatResponse {
        id: None,
        choices: vec![],
        usage: None,
    });
    assert_eq!(empty.content, "");
    assert!(empty.finish_reason.is_none());
}

#[test]
fn test_classify_errors() {
    let err = classify_error(401, "invalid api key");
    assert!(err.message().contains("authentication failed"));

    let err = classify_error(429, "rate limited");
    assert!(err.message().contains("rate limit"));

    let err = classify_error(500, "server error");
    assert!(err.message().contains("server error"));
}

#[test]
fn test_classify_error_truncates_long_body() {
    let long_body = "x".repeat(500);
    let err = classify_error(400, &long_body);
    let msg = err.message();
    assert!(msg.contains("[truncated]"));
    // The error message should be much shorter than 500 chars.
    assert!(msg.len() < 300);
}

#[test]
fn test_transient_detection() {
    let rate = AgentError::Ai("AI API rate limit exceeded (429): ".into());
    assert!(rate.is_transient());

    let server = AgentError::Ai("AI API server error (503): ".into());
    assert!(server.is_transient());

    let auth = AgentError::Ai("AI API authentication failed (401): ".into());
    assert!(!auth.is_transient());

    let not_found = AgentError::Ai("AI API endpoint not found (404): ".into());
    assert!(!not_found.is_transient());
}

#[test]
fn test_client_construction() {
    let client = AiClient::new(&test_settings());
    assert_eq!(client.model, "glm-4.6");
    assert_eq!(client.api_base, "https://ai.cloudmagic.io/v1");
    assert_eq!(client.api_key.inner(), "sk-test-key");
    assert_eq!(client.model_name(), "glm-4.6");
    assert_eq!(client.max_completion_tokens(), 4096);
    assert_eq!(
        client.completions_url(),
        "https://ai.cloudmagic.io/v1/chat/completions"
    );
}

#[test]
fn every_status_is_classified() {
    for status in 100u16..1000 {
        let err = classify_error(status, "");
        assert_eq!(
            err.is_transient(),
            status == 429 || (500..600).contains(&status),
            "status {status}"
        );
    }
    match classify_error(418, " tea \n") {
        AgentError::Ai(m) => assert_eq!(m, "AI API error (418 I'm a teapot): tea"),
        _ => panic!("expected an AI error"),
    }
}

#[test]
fn snippets_end_at_a_character() {
    assert_eq!(body_snippet("  short\n"), "short");
    assert_eq!(body_snippet(&"x".repeat(200)), "x".repeat(200));
    // Two bytes each: one hundred fit, the rest is cut.
    let long = "é".repeat(101);
    assert_eq!(body_snippet(&long), format!("{}…[truncated]", "é".repeat(100)));
    // Three bytes each: sixty-six take 198 bytes, the next does not fit.
    let wide = "世".repeat(70);
    assert_eq!(body_snippet(&wide), format!("{}…[truncated]", "世".repeat(66)));
}

#[test]
fn replies_become_outputs_or_errors() {
    for (status, success) in [(199, false), (200, true), (299, true), (300, false), (500, false)] {
        assert_eq!(is_success(status), success);
    }
    let ok = send_request(200, Reply::Parsed(response(Some("fine"))));
    assert_eq!(ok.map(|o| o.content).unwrap_or_default(), "fine");
    match send_request(200, Reply::Unreadable("EOF".into())) {
        Err(AgentError::Ai(m)) => {
            assert_eq!(m, "AI API non-parseable response (200 OK): EOF")
        }
        _ => panic!("expected an AI error"),
    }
    match send_request(404, Reply::Refused("gone".into())) {
        Err(AgentError::Ai(m)) => assert_eq!(m, "AI API endpoint not found (404): gone"),
        _ => panic!("expected an AI error"),
    }
}

#[test]
fn requests_carry_prompts_and_limits() {
    let client = AiClient::new(&test_settings());
    let request = client.chat("be brief", "hello");
    assert_eq!(request.max_tokens, Some(4096));
    assert_eq!(request.messages.len(), 2);
    assert_eq!(request.messages[0].role, "system");
    assert_eq!(request.messages[1].content.as_deref(), Some("hello"));
    let request = client.chat_with_max_tokens("s", "u", 512);
    assert_eq!(request.max_tokens, Some(512));
    let call = ToolCall {
        id: "c1".into(),
        call_type: "function".into(),
        function: ToolCallFunction {
            name: "file_read".into(),
            arguments: "{}".into(),
        },
    };
    let request = client.chat_with_tools(
        vec![Message {
            role: "assistant".into(),
            content: None,
            tool_calls: Some(vec![call]),
            tool_call_id: Some("c0".into()),
        }],
        vec![ToolDef {
            tool_type: "function".into(),
            function: ToolFunction {
                name: "file_read".into(),
                description: None,
                parameters: Json::object(),
            },
        }],
    );
    let value = review_agent::json::into_value(request.into_json());
    assert_eq!(value["messages"][0]["tool_calls"][0]["function"]["name"], "file_read");
    assert_eq!(value["messages"][0]["tool_call_id"], "c0");
    assert!(value["messages"][0].get("content").is_none());
    assert_eq!(value["tools"][0]["type"], "function");
    assert!(value["tools"][0]["function"].get("description").is_none());
}
