use ai_agent::safety::{
    count_consecutive_identical_calls, default_pipeline, said_before, AdversaryStage, EgressStage,
    PermissionStage, RepetitionStage, SafetyDecision, SafetyPipeline, SafetyStage, SecurityStage,
    Stage,
};
use ai_agent::types::{FunctionCall, Message, Role, ToolCall};

fn call(id: &str, name: &str, args: &str) -> ToolCall {
    ToolCall {
        id: id.into(),
        kind: "function".into(),
        function: FunctionCall { name: name.into(), arguments: args.into() },
    }
}

fn tool_call_msg(tool_name: &str, args: &str) -> Message {
    Message {
        role: Role::Assistant,
        content: None,
        tool_calls: Some(vec![call("ignored", tool_name, args)]),
        tool_call_id: None,
    }
}

#[test]
fn test_security_allows_safe_shell() {
    let stage = SecurityStage;
    let call = call("c1", "execute_bash", r#"{"cmd":"ls -la"}"#);
    assert_eq!(stage.inspect(&call, &[]), SafetyDecision::Allow);
}

#[test]
fn test_security_blocks_injection_semicolon() {
    let stage = SecurityStage;
    let call = call("c2", "execute_bash", r#"{"cmd":"ls; rm -rf /"}"#);
    let decision = stage.inspect(&call, &[]);
    assert!(matches!(decision, SafetyDecision::Deny(_)));
}

#[test]
fn test_security_blocks_injection_dollar_paren() {
    let stage = SecurityStage;
    let call = call("c3", "shell", r#"{"cmd":"cat $(ls)"}"#);
    let decision = stage.inspect(&call, &[]);
    assert!(matches!(decision, SafetyDecision::Deny(_)));
}

#[test]
fn test_security_allows_non_dangerous_tool() {
    let stage = SecurityStage;
    let call = call("c4", "read_file", r#"{"path":"/tmp/x; rm -rf"}"#);
    assert_eq!(stage.inspect(&call, &[]), SafetyDecision::Allow);
}

#[test]
fn test_permission_blocks_execute_bash() {
    let stage = PermissionStage;
    let call = call("c5", "execute_bash", "{}");
    let decision = stage.inspect(&call, &[]);
    assert!(matches!(decision, SafetyDecision::RequiresApproval(_)));
}

#[test]
fn test_permission_allows_other() {
    let stage = PermissionStage;
    let call = call("c6", "read_file", "{}");
    assert_eq!(stage.inspect(&call, &[]), SafetyDecision::Allow);
}

#[test]
fn test_repetition_allows_first_call() {
    let stage = RepetitionStage::default();
    let call = call("c7", "search", r#"{"q":"hello"}"#);
    let ctx = vec![Message::new(Role::User, "search hello")];
    assert_eq!(stage.inspect(&call, &ctx), SafetyDecision::Allow);
}

#[test]
fn test_repetition_blocks_after_3_identical() {
    let stage = RepetitionStage::default();
    let call = call("c10", "search", r#"{"q":"stuck"}"#);
    let ctx = vec![
        tool_call_msg("search", r#"{"q":"stuck"}"#),
        tool_call_msg("search", r#"{"q":"stuck"}"#),
        tool_call_msg("search", r#"{"q":"stuck"}"#),
    ];
    let decision = stage.inspect(&call, &ctx);
    assert!(matches!(decision, SafetyDecision::Deny(_)));
}

#[test]
fn test_repetition_allows_after_name_change() {
    let stage = RepetitionStage::default();
    let call = call("c11", "search", r#"{"q":"stuck"}"#);
    let ctx = vec![
        tool_call_msg("search", r#"{"q":"stuck"}"#),
        tool_call_msg("other", r#"{}"#),
        tool_call_msg("search", r#"{"q":"stuck"}"#),
    ];
    assert_eq!(stage.inspect(&call, &ctx), SafetyDecision::Allow);
}

#[test]
fn test_repetition_ignores_user_messages() {
    let stage = RepetitionStage::default();
    let call = call("c12", "search", r#"{"q":"stuck"}"#);
    let ctx = vec![
        tool_call_msg("search", r#"{"q":"stuck"}"#),
        Message::new(Role::User, "continue"),
        tool_call_msg("search", r#"{"q":"stuck"}"#),
        tool_call_msg("search", r#"{"q":"stuck"}"#),
    ];
    let decision = stage.inspect(&call, &ctx);
    assert!(matches!(decision, SafetyDecision::Deny(_)));
}

#[test]
fn test_pipeline_allow() {
    let pipeline = default_pipeline();
    let call = call("c20", "read_file", r#"{"path":"/tmp/test"}"#);
    assert_eq!(pipeline.verify(&call, &[]), SafetyDecision::Allow);
}

#[test]
fn test_pipeline_security_stops_first() {
    let pipeline = default_pipeline();
    let call = call("c21", "execute_bash", r#"{"cmd":"ls; rm -rf /"}"#);
    let decision = pipeline.verify(&call, &[]);
    assert!(matches!(decision, SafetyDecision::Deny(reason) if reason.contains("injection")));
}

#[test]
fn test_pipeline_empty_allows() {
    let pipeline: SafetyPipeline<Stage> = SafetyPipeline::new();
    let call = call("c22", "any", "{}");
    assert_eq!(pipeline.verify(&call, &[]), SafetyDecision::Allow);
}

#[test]
fn test_pipeline_repetition_blocks_after_dangerous_cycle() {
    let pipeline = default_pipeline();
    let call = call("c23", "search", r#"{"q":"loop"}"#);
    let ctx = vec![
        tool_call_msg("search", r#"{"q":"loop"}"#),
        tool_call_msg("search", r#"{"q":"loop"}"#),
        tool_call_msg("search", r#"{"q":"loop"}"#),
    ];
    let decision = pipeline.verify(&call, &ctx);
    assert!(matches!(decision, SafetyDecision::Deny(reason) if reason.contains("identical arguments")));
}

#[test]
fn the_first_marker_is_named() {
    let c = call("x", "bash", "a && b; c");
    assert_eq!(
        SecurityStage.inspect(&c, &[]),
        SafetyDecision::Deny(
            "command injection marker ';' detected in args of 'bash'".to_string()
        )
    );
    let c = call("x", "cmd", "echo ${HOME} $VAR");
    assert_eq!(
        SecurityStage.inspect(&c, &[]),
        SafetyDecision::Deny(
            "command injection marker '$VAR' detected in args of 'cmd'".to_string()
        )
    );
}

#[test]
fn every_marker_is_found_for_every_shell_tool() {
    for tool in ["execute_bash", "shell", "exec", "run_sh", "cmd", "bash"] {
        for mark in [";", "&&", "||", "|", "`", "$(", "$VAR", "${"] {
            let c = call("x", tool, &format!("left {mark} right"));
            assert!(matches!(SecurityStage.inspect(&c, &[]), SafetyDecision::Deny(_)));
        }
    }
}

#[test]
fn approval_quotes_the_first_120_bytes() {
    let c = call("x", "execute_bash", &"a".repeat(200));
    assert_eq!(
        PermissionStage.inspect(&c, &[]),
        SafetyDecision::RequiresApproval(format!(
            "execute_bash requires user approval (args: {})",
            "a".repeat(120)
        ))
    );
    let short = call("x", "execute_bash", "ls");
    assert_eq!(
        PermissionStage.inspect(&short, &[]),
        SafetyDecision::RequiresApproval(
            "execute_bash requires user approval (args: ls)".to_string()
        )
    );
}

#[test]
fn approval_never_quotes_half_a_character() {
    let odd = format!("a{}", "ж".repeat(100));
    let asked = SafetyDecision::RequiresApproval(format!(
        "execute_bash requires user approval (args: a{})",
        "ж".repeat(59)
    ));
    let c = call("x", "execute_bash", &odd);
    assert_eq!(PermissionStage.inspect(&c, &[]), asked);
    assert_eq!(default_pipeline().verify(&c, &[]), asked);
    let denied = call("x", "execute_bash", &format!("{odd};"));
    assert!(matches!(default_pipeline().verify(&denied, &[]), SafetyDecision::Deny(_)));
    let other = call("x", "read_file", &odd);
    assert_eq!(PermissionStage.inspect(&other, &[]), SafetyDecision::Allow);
}

#[test]
fn what_was_said_before_a_call_leaves_out_results_and_its_own_message() {
    let ctx = vec![
        Message::new(Role::User, "go"),
        tool_call_msg("t", "{}"),
        Message::tool_result("c1", "ok"),
        tool_call_msg("t", "{}"),
        Message::tool_result("c2", "ok"),
    ];
    let own = call("ignored", "t", "{}");
    let past = said_before(&own, &ctx);
    assert_eq!(past.len(), 2);
    assert_eq!(past[0].role, Role::User);
    assert_eq!(past[1].role, Role::Assistant);
    assert_eq!(count_consecutive_identical_calls("t", "{}", &past), 1);
    let next = call("another", "t", "{}");
    assert_eq!(said_before(&next, &ctx).len(), 3);
    assert_eq!(said_before(&next, &[]).len(), 0);
}

#[test]
fn results_between_the_calls_do_not_hide_a_loop() {
    let ctx = vec![
        tool_call_msg("t", "{}"),
        Message::tool_result("c1", "failed"),
        tool_call_msg("t", "{}"),
        Message::tool_result("c2", "failed"),
    ];
    let stage = RepetitionStage::default();
    assert_eq!(
        stage.inspect(&call("c3", "t", "{}"), &ctx),
        SafetyDecision::Deny(
            "tool 't' called with identical arguments 3 times in a row (max: 3)".to_string()
        )
    );
    assert_eq!(stage.inspect(&call("c3", "t", "{}"), &ctx[2..]), SafetyDecision::Allow);
    assert_eq!(stage.inspect(&call("c3", "t", "{\"x\":1}"), &ctx), SafetyDecision::Allow);
}

#[test]
fn the_third_call_in_a_row_is_denied() {
    let c = call("x", "t", "{}");
    let ctx = vec![tool_call_msg("t", "{}"), tool_call_msg("t", "{}")];
    assert_eq!(count_consecutive_identical_calls("t", "{}", &ctx), 2);
    assert_eq!(
        RepetitionStage::default().inspect(&c, &ctx),
        SafetyDecision::Deny(
            "tool 't' called with identical arguments 3 times in a row (max: 3)".to_string()
        )
    );
    assert_eq!(RepetitionStage::new(4).inspect(&c, &ctx), SafetyDecision::Allow);
}

#[test]
fn one_of_several_calls_counts_and_a_tool_result_ends_the_row() {
    let several = Message {
        role: Role::Assistant,
        content: None,
        tool_calls: Some(vec![call("a", "u", "{}"), call("b", "t", "{}")]),
        tool_call_id: None,
    };
    assert_eq!(
        count_consecutive_identical_calls("t", "{}", &[several.clone(), several.clone()]),
        2
    );
    let ctx = vec![several.clone(), Message::tool_result("b", "ok"), several];
    assert_eq!(count_consecutive_identical_calls("t", "{}", &ctx), 1);
    assert_eq!(
        count_consecutive_identical_calls("t", "{}", &[Message::assistant(None, None)]),
        0
    );
}

#[test]
fn the_default_pipeline_has_five_stages() {
    let p = default_pipeline();
    assert_eq!(p.len(), 5);
    assert!(!p.is_empty());
}

#[test]
fn stages_have_names() {
    assert_eq!(SecurityStage.name(), "security");
    assert_eq!(EgressStage.name(), "egress");
    assert_eq!(AdversaryStage.name(), "adversary_llm");
    assert_eq!(PermissionStage.name(), "permission");
    assert_eq!(RepetitionStage::default().name(), "repetition");
    assert_eq!(Stage::Egress(EgressStage).name(), "egress");
}

#[test]
fn a_later_stage_does_not_override_an_earlier_one() {
    let mut p: SafetyPipeline<Stage> = SafetyPipeline::new();
    p.add_stage(Stage::Permission(PermissionStage));
    p.add_stage(Stage::Security(SecurityStage));
    let c = call("x", "execute_bash", "a;b");
    assert!(matches!(p.verify(&c, &[]), SafetyDecision::RequiresApproval(_)));
}
