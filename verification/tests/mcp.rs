use ai_agent::json::{Json, Member};
use ai_agent::tool_routing::mcp_transport::{
    invalid_config, read_response, unreadable_config, McpContainerConfig, McpDiscoveredTool,
    McpTool, McpToolProvider, RpcError, RpcMessage,
};
use ai_agent::tool_routing::{AsyncTool, ToolKind, ToolRouter};

fn tool() -> McpTool {
    McpTool::new(
        "search".into(),
        "box".into(),
        "Looks things up".into(),
        Json::empty(),
        vec!["docker".into(), "exec".into()],
    )
}

fn methods(session: &[RpcMessage]) -> Vec<String> {
    session
        .iter()
        .map(|m| match m {
            RpcMessage::Request { id, method, .. } => format!("{id} {method}"),
            RpcMessage::Notification { method } => method.clone(),
        })
        .collect()
}

#[test]
fn a_session_begins_with_the_handshake() {
    let s = McpToolProvider::discovery_session();
    assert_eq!(
        methods(&s),
        vec!["1 initialize", "notifications/initialized", "2 tools/list"]
    );
    match &s[0] {
        RpcMessage::Request { params: Some(p), .. } => {
            assert_eq!(p.get_text("protocolVersion").unwrap(), "2024-11-05");
            assert_eq!(p.get("clientInfo").unwrap().get_text("name").unwrap(), "ai-agent");
            assert_eq!(p.get("clientInfo").unwrap().get_text("version").unwrap(), "0.1.0");
            assert_eq!(p.get("capabilities"), Some(&Json::empty()));
        }
        other => panic!("{other:?}"),
    }
}

#[test]
fn messages_are_framed() {
    let s = McpToolProvider::discovery_session();
    assert_eq!(
        s[2].frame(),
        Json::empty()
            .with("jsonrpc", Json::text("2.0"))
            .with("id", Json::Number("2".into()))
            .with("method", Json::text("tools/list"))
    );
    assert_eq!(
        s[1].frame(),
        Json::empty()
            .with("jsonrpc", Json::text("2.0"))
            .with("method", Json::text("notifications/initialized"))
    );
    assert!(s[0].frame().get("params").is_some());
}

fn params_of(session: &[RpcMessage]) -> &Json {
    match session.last().unwrap() {
        RpcMessage::Request { id: 3, method, params: Some(p) } => {
            assert_eq!(method, "tools/call");
            p
        }
        other => panic!("{other:?}"),
    }
}

#[test]
fn arguments_are_parsed() {
    let s = tool().session(r#"{"q": [1.50, "a\n", null, true], "n": {"b": 2, "a": -1}}"#).unwrap();
    let p = params_of(&s);
    assert_eq!(p.get_text("name").unwrap(), "search");
    let args = p.get("arguments").unwrap();
    assert_eq!(
        args.get("q").unwrap().items().unwrap(),
        &vec![
            Json::Number("1.5".into()),
            Json::Text("a\n".into()),
            Json::Null,
            Json::Bool(true)
        ]
    );
    assert_eq!(
        args.get("n").unwrap(),
        &Json::Object(vec![
            Member { key: "a".into(), value: Json::Number("-1".into()) },
            Member { key: "b".into(), value: Json::Number("2".into()) },
        ])
    );
}

#[test]
fn numbers_take_the_form_of_the_parser() {
    let s = tool().session(r#"{"n": [1e3, 7, 0.10]}"#).unwrap();
    let args = params_of(&s).get("arguments").unwrap();
    assert_eq!(
        args.get("n").unwrap().items().unwrap(),
        &vec![
            Json::Number("1000.0".into()),
            Json::Number("7".into()),
            Json::Number("0.1".into())
        ]
    );
}

#[test]
fn blank_arguments_are_the_empty_object() {
    let s = tool().session("  \n").unwrap();
    assert_eq!(params_of(&s).get("arguments"), Some(&Json::empty()));
    let s = tool().session_for("", Err("ignored".into())).unwrap();
    assert_eq!(params_of(&s).get("arguments"), Some(&Json::empty()));
}

#[test]
fn bad_arguments_are_reported() {
    let expected = serde_json::from_str::<serde_json::Value>("{oops").unwrap_err().to_string();
    assert_eq!(
        tool().session("{oops"),
        Err(format!("Failed to parse arguments as JSON: {expected}"))
    );
    assert_eq!(
        tool().session_for("x", Err("e".into())),
        Err("Failed to parse arguments as JSON: e".to_string())
    );
}

#[test]
fn responses() {
    assert_eq!(read_response(None, Some(Json::Bool(true))), Ok(Json::Bool(true)));
    assert_eq!(
        read_response(None, None),
        Err("Missing result in JSON-RPC response".to_string())
    );
    assert_eq!(
        read_response(
            Some(RpcError { code: -32601, message: "no such method".into() }),
            Some(Json::Null)
        ),
        Err("JSON-RPC error -32601: no such method".to_string())
    );
}

#[test]
fn tools_are_discovered() {
    let schema = Json::empty().with("type", Json::text("object"));
    let result = Json::empty().with(
        "tools",
        Json::list(vec![
            Json::empty()
                .with("name", Json::text("a"))
                .with("description", Json::text("d"))
                .with("inputSchema", schema.clone()),
            Json::empty().with("name", Json::text("b")),
        ]),
    );
    let found = McpToolProvider::discover(&result);
    assert_eq!(
        found,
        Ok(vec![
            McpDiscoveredTool { name: "a".into(), description: "d".into(), parameters: schema },
            McpDiscoveredTool {
                name: "b".into(),
                description: String::new(),
                parameters: Json::empty()
            },
        ])
    );
    let config = McpContainerConfig { container_id: "box".into(), command: vec!["run".into()] };
    let tools = McpTool::from_discovery(&config, &found);
    assert_eq!(tools.len(), 2);
    assert_eq!(tools[1].command, vec!["run".to_string()]);
    assert_eq!(tools[0].kind(), ToolKind::Mcp { container_id: "box".into() });
    let mut router = ToolRouter::new();
    router.register_all(tools);
    assert_eq!(router.get("a").unwrap().definition().description, "d");
    assert!(McpTool::from_discovery(&config, &Err("down".into())).is_empty());
}

#[test]
fn discovery_can_fail() {
    assert_eq!(
        McpToolProvider::discover(&Json::empty()),
        Err("Missing 'tools' field in response".to_string())
    );
    assert_eq!(
        McpToolProvider::discover(&Json::empty().with("tools", Json::Null)),
        Err("'tools' field is not an array".to_string())
    );
    let nameless = Json::list(vec![
        Json::empty().with("name", Json::text("a")),
        Json::empty().with("name", Json::Null),
    ]);
    assert_eq!(
        McpToolProvider::discover(&Json::empty().with("tools", nameless)),
        Err("Tool missing 'name' string".to_string())
    );
}

fn item(kind: &str, text: &str) -> Json {
    Json::empty().with("type", Json::text(kind)).with("text", Json::text(text))
}

#[test]
fn the_text_items_are_the_output() {
    let content = Json::list(vec![
        item("text", "one"),
        item("image", "no"),
        Json::Null,
        Json::empty().with("type", Json::text("text")),
        item("text", "two"),
    ]);
    assert_eq!(
        McpTool::output(&Json::empty().with("content", content)),
        Ok("one\ntwo".to_string())
    );
    assert_eq!(
        McpTool::output(&Json::Null),
        Err("Missing 'content' field in response".to_string())
    );
    assert_eq!(
        McpTool::output(&Json::empty().with("content", Json::text("x"))),
        Err("'content' field is not an array".to_string())
    );
}

#[test]
fn complaints_about_the_configuration() {
    assert_eq!(unreadable_config("p", "e"), "Cannot read MCP config 'p': e");
    assert_eq!(invalid_config("p", "e"), "Invalid MCP config 'p': e");
}

#[test]
fn members_are_found_by_their_first_key() {
    let j = Json::empty().with("k", Json::Bool(true)).with("k", Json::Null);
    assert_eq!(j.get("k"), Some(&Json::Bool(true)));
    assert_eq!(j.get("other"), None);
    assert_eq!(Json::Null.get("k"), None);
    assert_eq!(Json::Null.with("k", Json::Null), Json::Null);
    assert_eq!(j.get_text("k"), None);
    assert_eq!(j.items(), None);
    assert_eq!(j.clone(), j);
}

#[test]
fn an_added_member_is_found() {
    let j = Json::empty().with("a", Json::Null).with("b", Json::Bool(false));
    assert_eq!(j.get("a"), Some(&Json::Null));
    assert_eq!(j.get("b"), Some(&Json::Bool(false)));
}
