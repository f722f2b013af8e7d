use std::sync::atomic::{AtomicBool, Ordering};
use std::sync::Arc;

use ai_agent::hooks::{run_pre_hooks, PostToolHook, PreToolHook};
use ai_agent::types::{FunctionCall, Message, Role, ToolCall};

struct AppendArgHook {
    suffix: String,
}

impl PreToolHook for AppendArgHook {
    fn may_pass(&self, _before: ToolCall, _context: &[Message], _after: ToolCall) -> bool {
        true
    }

    fn may_reject(
        &self,
        _before: ToolCall,
        _context: &[Message],
        _after: ToolCall,
        _reason: String,
    ) -> bool {
        false
    }

    fn on_pre_use(&self, call: &mut ToolCall, _context: &[Message]) -> Result<(), String> {
        let mut args: serde_json::Value = serde_json::from_str(&call.function.arguments)
            .unwrap_or(serde_json::Value::Object(serde_json::Map::new()));
        if let Some(obj) = args.as_object_mut() {
            obj.insert("hook_applied".into(), serde_json::Value::Bool(true));
            obj.insert("suffix".into(), serde_json::Value::String(self.suffix.clone()));
        }
        call.function.arguments = args.to_string();
        Ok(())
    }
}

struct DenyHook;

impl PreToolHook for DenyHook {
    fn may_pass(&self, _before: ToolCall, _context: &[Message], _after: ToolCall) -> bool {
        false
    }

    fn may_reject(
        &self,
        _before: ToolCall,
        _context: &[Message],
        _after: ToolCall,
        _reason: String,
    ) -> bool {
        true
    }

    fn on_pre_use(&self, _call: &mut ToolCall, _context: &[Message]) -> Result<(), String> {
        Err("not allowed".to_string())
    }
}

enum AnyHook {
    Append(AppendArgHook),
    Deny(DenyHook),
}

impl PreToolHook for AnyHook {
    fn may_pass(&self, _before: ToolCall, _context: &[Message], _after: ToolCall) -> bool {
        true
    }

    fn may_reject(
        &self,
        _before: ToolCall,
        _context: &[Message],
        _after: ToolCall,
        _reason: String,
    ) -> bool {
        true
    }

    fn on_pre_use(&self, call: &mut ToolCall, context: &[Message]) -> Result<(), String> {
        match self {
            AnyHook::Append(h) => h.on_pre_use(call, context),
            AnyHook::Deny(h) => h.on_pre_use(call, context),
        }
    }
}

fn call(id: &str, args: &str) -> ToolCall {
    ToolCall {
        id: id.into(),
        kind: "function".into(),
        function: FunctionCall { name: "dummy".into(), arguments: args.into() },
    }
}

#[test]
fn test_pre_hook_modifies_arguments() {
    let hook = AppendArgHook { suffix: "_via_hook".into() };
    let mut call = call("c1", r#"{"input":"test"}"#);
    let ctx = vec![Message::new(Role::User, "do something")];

    let result = hook.on_pre_use(&mut call, &ctx);
    assert!(result.is_ok());

    let parsed: serde_json::Value = serde_json::from_str(&call.function.arguments).unwrap();
    assert_eq!(parsed["hook_applied"], serde_json::Value::Bool(true));
    assert_eq!(parsed["suffix"], serde_json::Value::String("_via_hook".into()));
    assert_eq!(parsed["input"], serde_json::Value::String("test".into()));
}

struct LoggingHook {
    called: Arc<AtomicBool>,
}

impl PostToolHook for LoggingHook {
    fn on_post_use(
        &self,
        _call: &ToolCall,
        result: &Result<String, String>,
        _context: &[Message],
    ) {
        if result.is_ok() {
            self.called.store(true, Ordering::SeqCst);
        }
    }
}

#[test]
fn test_post_hook_fires_in_background() {
    let flag = Arc::new(AtomicBool::new(false));
    let hook = LoggingHook { called: flag.clone() };

    let call = call("c2", r#"{}"#);
    let result: Result<String, String> = Ok("success".into());
    let ctx = vec![Message::new(Role::User, "test")];

    let runtime = tokio::runtime::Runtime::new().unwrap();
    let handle = runtime.spawn(async move {
        hook.on_post_use(&call, &result, &ctx);
    });
    runtime.block_on(handle).unwrap();

    assert!(flag.load(Ordering::SeqCst));
}

#[test]
fn no_hooks_leave_a_call_alone() {
    let hooks: Vec<DenyHook> = vec![];
    let mut c = call("1", "{}");
    assert_eq!(run_pre_hooks(&hooks, &mut c, &[]), Ok(()));
    assert_eq!(c, call("1", "{}"));
}

#[test]
fn hooks_run_in_order_and_hand_the_call_on() {
    let hooks = vec![
        AppendArgHook { suffix: "a".into() },
        AppendArgHook { suffix: "b".into() },
    ];
    let mut c = call("1", "{}");
    assert_eq!(run_pre_hooks(&hooks, &mut c, &[]), Ok(()));
    assert_eq!(c.function.arguments, r#"{"hook_applied":true,"suffix":"b"}"#);
}

#[test]
fn the_first_rejection_ends_the_row() {
    let hooks = vec![
        AnyHook::Append(AppendArgHook { suffix: "a".into() }),
        AnyHook::Deny(DenyHook),
        AnyHook::Append(AppendArgHook { suffix: "b".into() }),
    ];
    let mut c = call("1", "{}");
    assert_eq!(run_pre_hooks(&hooks, &mut c, &[]), Err("not allowed".to_string()));
    assert_eq!(c.function.arguments, r#"{"hook_applied":true,"suffix":"a"}"#);
}
