use ai_agent::json::Json;
use ai_agent::tool_routing::platform::{DummyPlatformTool, DummyTool, PlatformToolRegistry};
use ai_agent::tool_routing::{AsyncTool, ToolKind, ToolKindView, ToolRouter};
use ai_agent::types::{FunctionCall, Role, ToolCall, ToolDefinition, ToolDefinitionView};

struct EchoTool;

impl AsyncTool for EchoTool {
    fn described(&self) -> ToolDefinitionView {
        unreachable!()
    }

    fn category(&self) -> ToolKindView {
        unreachable!()
    }

    fn definition(&self) -> ToolDefinition {
        ToolDefinition {
            name: "echo".into(),
            description: "Echoes the input back".into(),
            parameters: Json::empty(),
        }
    }

    fn kind(&self) -> ToolKind {
        ToolKind::Platform
    }
}

impl EchoTool {
    fn execute(&self, arguments: &str) -> Result<String, String> {
        Ok(arguments.to_string())
    }
}

fn call(id: &str, name: &str, args: &str) -> ToolCall {
    ToolCall {
        id: id.into(),
        kind: "function".into(),
        function: FunctionCall { name: name.into(), arguments: args.into() },
    }
}

#[test]
fn test_register_and_route() {
    let mut router = ToolRouter::new();
    router.register(EchoTool);

    assert_eq!(router.len(), 1);
    assert_eq!(router.tool_names(), vec!["echo"]);

    let call = call("call_1", "echo", r#"{"message":"hello"}"#);
    let outcome = router.get("echo").unwrap().execute(&call.function.arguments);
    let msg = router.route(&call, outcome).unwrap();
    assert_eq!(msg.role, Role::Tool);
    assert_eq!(msg.tool_call_id.as_deref(), Some("call_1"));
    assert!(msg.content.as_deref().unwrap().contains("hello"));
}

#[test]
fn test_route_unknown_tool() {
    let router: ToolRouter<EchoTool> = ToolRouter::new();
    let call = call("call_x", "nonexistent", "{}");
    let err = router.route(&call, Ok(String::new())).unwrap_err();
    assert!(err.contains("unknown tool"));
}

#[test]
fn test_definitions() {
    let mut router = ToolRouter::new();
    router.register(EchoTool);

    let defs = router.definitions();
    assert_eq!(defs.len(), 1);
    assert_eq!(defs[0].name, "echo");
}

#[test]
fn an_error_of_the_tool_is_passed_on() {
    let mut router = ToolRouter::new();
    router.register(EchoTool);
    let c = call("1", "echo", "");
    assert_eq!(router.route(&c, Err("broken".to_string())), Err("broken".to_string()));
    let unknown = call("2", "other", "");
    assert_eq!(
        router.route(&unknown, Err("broken".to_string())),
        Err("unknown tool: 'other'".to_string())
    );
}

#[test]
fn several_calls_are_routed_in_order() {
    let mut router = ToolRouter::new();
    router.register(DummyTool::new("a"));
    let calls = vec![call("1", "a", "x"), call("2", "b", "y")];
    let outcomes = vec![Ok("one".to_string()), Ok("two".to_string())];
    let r = router.route_all(&calls, &outcomes);
    assert_eq!(r.len(), 2);
    assert_eq!(r[0].as_ref().unwrap().content.as_deref(), Some("one"));
    assert_eq!(r[1], Err("unknown tool: 'b'".to_string()));
}

#[test]
fn a_tool_of_the_same_name_is_replaced() {
    let mut router = ToolRouter::new();
    assert!(router.is_empty());
    router.register_all(vec![DummyTool::new("a"), DummyTool::new("b"), DummyTool::new("a")]);
    assert_eq!(router.len(), 2);
    assert!(router.get("a").is_some());
    assert!(router.get("c").is_none());
}

#[test]
fn the_dummy_tool_reports_its_call() {
    let t = DummyTool::new("dummy");
    assert_eq!(
        t.execute(r#"{"input":"test"}"#),
        Ok(r#"{"status":"ok","tool":"dummy","args":{"input":"test"}}"#.to_string())
    );
    assert!(t.kind().is_platform());
    let d = t.definition();
    assert_eq!(d.description, "A dummy tool for testing the agent pipeline");
    assert_eq!(d.parameters.get_text("type").map(|s| s.as_str()), Some("object"));
    let input = d.parameters.get("properties").unwrap().get("input").unwrap();
    assert_eq!(input.get_text("description").map(|s| s.as_str()), Some("Any input string"));
    assert_eq!(d.parameters.get("required").unwrap().items().unwrap().len(), 1);
}

#[test]
fn there_are_no_builtin_tools_yet() {
    assert!(PlatformToolRegistry::builtins().is_empty());
    let t = DummyPlatformTool;
    assert_eq!(t.definition().name, "_dummy_platform");
    assert_eq!(
        t.execute("{}"),
        Ok(r#"{"status":"ok","message":"dummy platform tool executed"}"#.to_string())
    );
}

#[test]
fn kinds_tell_themselves_apart() {
    let mcp = ToolKind::Mcp { container_id: "c".to_string() };
    assert!(mcp.is_mcp() && !mcp.is_platform() && !mcp.is_frontend());
    assert!(ToolKind::Frontend.is_frontend() && !ToolKind::Frontend.is_mcp());
    assert!(ToolKind::Platform.is_platform() && !ToolKind::Platform.is_frontend());
    assert_eq!(mcp.clone(), mcp);
}
