use devforge::json::JsonValue;
use devforge::mcp::{
    content_length_header, find_double_underscore, header_line, mcp_tool_definition, parse_mcp_tool_name,
    reply_outcome, rpc_message, sanitize_name, tool_result_text, HeaderLine, ReplyOutcome,
};
use devforge::provider::{
    chat_completions_url, message_to_json, parse_provider_response, raw_tool_call_json, resolve_config_key,
    ChatMessage, PendingCall,
};

fn s(v: &str) -> JsonValue {
    JsonValue::String(v.to_string())
}

fn n(v: u64) -> JsonValue {
    JsonValue::Number(Some(v))
}

fn obj(entries: Vec<(&str, JsonValue)>) -> JsonValue {
    JsonValue::Object(entries.into_iter().map(|(k, v)| (k.to_string(), v)).collect())
}

fn arr(items: Vec<JsonValue>) -> JsonValue {
    JsonValue::Array(items)
}

fn str_at<'a>(v: &'a JsonValue, key: &str) -> Option<&'a str> {
    v.get(key).and_then(|x| x.as_str()).map(|x| x.as_str())
}

fn keys(v: &JsonValue) -> Vec<String> {
    v.as_object().map(|es| es.iter().map(|(k, _)| k.clone()).collect()).unwrap_or_default()
}

#[test]
fn mcp_tool_names_split_at_the_first_separator() {
    assert_eq!(parse_mcp_tool_name("mcp__fs__read_file"), Some(("fs".to_string(), "read_file".to_string())));
    assert_eq!(parse_mcp_tool_name("mcp__a__b__c"), Some(("a".to_string(), "b__c".to_string())));
    assert_eq!(parse_mcp_tool_name("mcp__fs"), None);
    assert_eq!(parse_mcp_tool_name("read_file"), None);
    assert_eq!(find_double_underscore(&"ab__c".chars().collect()), Some(2));
    assert_eq!(find_double_underscore(&"a_b_c".chars().collect()), None);
}

#[test]
fn server_names_are_sanitized() {
    assert_eq!(sanitize_name("my server!"), "my_server_");
    assert_eq!(sanitize_name("fs-2_ok"), "fs-2_ok");
    assert_eq!(sanitize_name("é"), "_");
}

#[test]
fn mcp_tool_definitions_are_qualified_and_tagged() {
    let tool = obj(vec![
        ("name", s("read")),
        ("description", s("Reads a file")),
        ("inputSchema", obj(vec![("type", s("object")), ("required", arr(vec![s("path")]))])),
    ]);
    let def = mcp_tool_definition("fs", &tool);
    assert_eq!(str_at(&def, "type"), Some("function"));
    let f = def.get("function").unwrap();
    assert_eq!(str_at(f, "name"), Some("mcp__fs__read"));
    assert_eq!(str_at(f, "description"), Some("[MCP:fs] Reads a file"));
    assert_eq!(keys(f.get("parameters").unwrap()), vec!["type".to_string(), "required".to_string()]);

    let bare = mcp_tool_definition("git", &obj(vec![]));
    let f = bare.get("function").unwrap();
    assert_eq!(str_at(f, "name"), Some("mcp__git__tool"));
    assert_eq!(str_at(f, "description"), Some("[MCP:git] "));
    assert_eq!(str_at(f.get("parameters").unwrap(), "type"), Some("object"));
}

#[test]
fn frames_carry_a_content_length_header() {
    assert_eq!(content_length_header(42), "Content-Length: 42\r\n\r\n");
    assert_eq!(header_line("Content-Length: 17\r\n"), HeaderLine::Length(Some(17)));
    assert_eq!(header_line("Content-Length: abc"), HeaderLine::Length(None));
    assert_eq!(header_line("\r\n"), HeaderLine::End);
    assert_eq!(header_line("Content-Type: application/json"), HeaderLine::Other);
}

#[test]
fn tool_results_join_their_text_parts() {
    let result = obj(vec![(
        "content",
        arr(vec![
            obj(vec![("type", s("text")), ("text", s("first"))]),
            obj(vec![("type", s("image"))]),
            obj(vec![("text", s("second"))]),
        ]),
    )]);
    assert_eq!(tool_result_text(&result), Some("first\nsecond".to_string()));
    assert_eq!(tool_result_text(&obj(vec![("content", arr(vec![]))])), None);
    assert_eq!(tool_result_text(&obj(vec![("isError", JsonValue::Bool(true))])), None);
}

#[test]
fn rpc_messages_are_json_rpc_two() {
    let req = rpc_message(Some(3), "tools/list", obj(vec![]));
    assert_eq!(keys(&req), vec!["jsonrpc", "id", "method", "params"]);
    assert_eq!(str_at(&req, "jsonrpc"), Some("2.0"));
    assert_eq!(req.get("id").and_then(|v| v.as_u64()), Some(3));
    assert_eq!(str_at(&req, "method"), Some("tools/list"));
    let note = rpc_message(None, "notifications/initialized", obj(vec![]));
    assert_eq!(keys(&note), vec!["jsonrpc", "method", "params"]);
}

#[test]
fn replies_are_matched_by_id() {
    let ok = obj(vec![("id", n(3)), ("result", obj(vec![("tools", arr(vec![]))]))]);
    assert!(matches!(reply_outcome(&ok, 3), ReplyOutcome::Result(JsonValue::Object(_))));
    assert!(matches!(reply_outcome(&ok, 4), ReplyOutcome::NotMine));
    let err = obj(vec![("id", n(3)), ("error", obj(vec![("message", s("boom"))]))]);
    match reply_outcome(&err, 3) {
        ReplyOutcome::Error(e) => assert_eq!(str_at(&e, "message"), Some("boom")),
        other => panic!("unexpected {other:?}"),
    }
    assert!(matches!(reply_outcome(&obj(vec![("id", n(3))]), 3), ReplyOutcome::Result(JsonValue::Null)));
    assert!(matches!(reply_outcome(&obj(vec![("method", s("ping"))]), 3), ReplyOutcome::NotMine));
}

#[test]
fn endpoint_follows_the_base_url() {
    assert_eq!(chat_completions_url("https://api.openai.com/v1/"), "https://api.openai.com/v1/chat/completions");
    assert_eq!(chat_completions_url("http://localhost:11434"), "http://localhost:11434/v1/chat/completions");
    assert_eq!(
        chat_completions_url("https://generativelanguage.googleapis.com/v1beta/openai"),
        "https://generativelanguage.googleapis.com/v1beta/openai/chat/completions"
    );
    assert_eq!(
        chat_completions_url("https://x.example/openai/chat/completions"),
        "https://x.example/openai/chat/completions"
    );
}

#[test]
fn api_key_falls_back_through_the_environment() {
    let env = vec![
        ("EMPTY_KEY".to_string(), String::new()),
        ("MY_KEY".to_string(), "mine".to_string()),
        ("DEVFORGE_AI_API_KEY".to_string(), "devforge".to_string()),
        ("OPENAI_API_KEY".to_string(), "openai".to_string()),
    ];
    let extra = vec!["EMPTY_KEY".to_string(), "MY_KEY".to_string()];
    assert_eq!(resolve_config_key("configured", &extra, &env), "configured");
    assert_eq!(resolve_config_key("", &extra, &env), "mine");
    assert_eq!(resolve_config_key("", &vec![], &env), "devforge");
    assert_eq!(resolve_config_key("", &vec![], &env[3..].to_vec()), "openai");
    assert_eq!(resolve_config_key("", &vec![], &vec![]), "");
}

#[test]
fn provider_responses_yield_text_and_calls() {
    let body = obj(vec![(
        "choices",
        arr(vec![obj(vec![(
            "message",
            obj(vec![
                ("content", s("Let me look.")),
                (
                    "tool_calls",
                    arr(vec![
                        obj(vec![
                            ("id", s("c1")),
                            ("type", s("function")),
                            ("function", obj(vec![("name", s("read_file")), ("arguments", s("{\"path\":\"a\"}"))])),
                        ]),
                        obj(vec![("id", s("c2")), ("function", obj(vec![("name", s("list_directory"))]))]),
                    ]),
                ),
            ]),
        )])]),
    )]);
    let (content, calls, raw) = parse_provider_response(&body).unwrap();
    assert_eq!(content, "Let me look.");
    assert_eq!(calls.len(), 2);
    assert_eq!(calls[0].id, "c1");
    assert_eq!(calls[0].name, "read_file");
    assert_eq!(calls[0].arguments, "{\"path\":\"a\"}");
    assert_eq!(calls[1].arguments, "{}");
    assert_eq!(raw.len(), 2);
    assert_eq!(str_at(&raw[1], "id"), Some("c2"));

    let (content, calls, raw) =
        parse_provider_response(&obj(vec![("choices", arr(vec![obj(vec![("message", obj(vec![]))])]))])).unwrap();
    assert_eq!(content, "");
    assert!(calls.is_empty() && raw.is_empty());
    assert_eq!(parse_provider_response(&obj(vec![("choices", arr(vec![]))])).unwrap_err(), "missing choices[0].message");
}

#[test]
fn messages_serialize_to_the_wire_form() {
    let tool = message_to_json(&ChatMessage::tool("c1".to_string(), "output".to_string()));
    assert_eq!(keys(&tool), vec!["role", "content", "tool_call_id"]);
    assert_eq!(str_at(&tool, "role"), Some("tool"));
    assert_eq!(str_at(&tool, "tool_call_id"), Some("c1"));
    assert_eq!(str_at(&tool, "content"), Some("output"));

    let user = message_to_json(&ChatMessage::user_with_images(
        "look".to_string(),
        vec!["data:image/png;base64,AAAA".to_string()],
    ));
    assert_eq!(str_at(&user, "role"), Some("user"));
    let parts = user.get("content").and_then(|c| c.as_array()).unwrap();
    assert_eq!(parts.len(), 2);
    assert_eq!(str_at(&parts[0], "text"), Some("look"));

    let plain = message_to_json(&ChatMessage::user_with_images("hi".to_string(), vec![]));
    assert_eq!(str_at(&plain, "content"), Some("hi"));

    let assistant = message_to_json(&ChatMessage::assistant_tools("".to_string(), vec![s("raw")]));
    assert_eq!(keys(&assistant), vec!["role", "content", "tool_calls"]);
    assert_eq!(str_at(&message_to_json(&ChatMessage::assistant_text("ok".to_string())), "role"), Some("assistant"));

    let raw = raw_tool_call_json(&PendingCall {
        id: "c9".to_string(),
        name: "search_code".to_string(),
        arguments: "{}".to_string(),
    });
    assert_eq!(keys(&raw), vec!["id", "type", "function"]);
    assert_eq!(str_at(raw.get("function").unwrap(), "name"), Some("search_code"));
}
