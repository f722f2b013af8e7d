use ai_agent::agent::{input_approves, Action, Agent, AgentError, Event, RunDecision, Step};
use ai_agent::provider::ProviderError;
use ai_agent::safety::Stage;
use ai_agent::tool_routing::platform::{DummyTool, PlatformTool, Tool};
use ai_agent::tool_routing::ToolRouter;
use ai_agent::types::{ChatChunk, FunctionCall, FunctionCallChunk, Message, Role, ToolCall, ToolCallChunk};

type TestAgent = Agent<DummyTool, Stage>;

fn make_tool_call_chunk(index: usize, id: &str, name: &str, args: &str) -> ChatChunk {
    ChatChunk {
        delta_content: None,
        delta_tool_calls: Some(vec![ToolCallChunk {
            index: Some(index),
            id: Some(id.into()),
            kind: Some("function".into()),
            function: Some(FunctionCallChunk {
                name: Some(name.into()),
                arguments: Some(args.into()),
            }),
        }]),
    }
}

fn text_chunk(s: &str) -> ChatChunk {
    ChatChunk { delta_content: Some(s.into()), delta_tool_calls: None }
}

fn user(agent: &mut TestAgent, s: &str) {
    agent.context.push(Message::new(Role::User, s));
}

/// Drive one step with a scripted model and the dummy tool.
fn run_step(agent: &mut TestAgent, answer: Vec<ChatChunk>) -> Result<Option<String>, AgentError> {
    let mut answer = Some(answer);
    let (mut step, mut action) = agent.begin_step_at(0, false);
    loop {
        let event = match action {
            Action::Summarize { .. } => Event::Summary(None),
            Action::Recall { .. } => Event::Facts(vec![]),
            Action::Ask { .. } => Event::Answer(answer.take().unwrap_or_default()),
            Action::Judge { .. } => Event::Judge,
            Action::Approve { .. } => Event::Approval(true),
            Action::RunHooks { call } => Event::Hooked(call),
            Action::Execute { call } => {
                let outcome = match agent.router.get(&call.function.name) {
                    Some(Tool::Other(tool)) => tool.execute(&call.function.arguments),
                    Some(Tool::Platform(_)) => Err("no file system here".to_string()),
                    None => Err("no such tool".to_string()),
                };
                Event::Executed(outcome)
            }
            Action::Finish { answer } => return Ok(answer),
            Action::Fail { error } => return Err(error),
        };
        let next = agent.advance(step, event);
        step = next.0;
        action = next.1;
    }
}

#[test]
fn test_agent_full_cycle() {
    let tool_chunks = vec![make_tool_call_chunk(0, "call_d1", "dummy", r#"{"input":"test"}"#)];
    let response_chunks = vec![text_chunk("Result: dummy executed successfully")];

    let mut agent = TestAgent::new();
    agent.router.register(Tool::Other(DummyTool::new("dummy")));

    let result = run_step(&mut agent, tool_chunks).unwrap();
    assert!(result.is_none(), "expected None (tool calls pending)");

    let msgs = agent.context.current_messages();
    assert_eq!(msgs.len(), 2, "expected 2 messages (assistant + tool_result)");

    assert_eq!(msgs[0].role, Role::Assistant);
    assert!(msgs[0].tool_calls.is_some());
    let calls = msgs[0].tool_calls.as_ref().unwrap();
    assert_eq!(calls.len(), 1);
    assert_eq!(calls[0].function.name, "dummy");
    assert_eq!(calls[0].function.arguments, r#"{"input":"test"}"#);

    assert_eq!(msgs[1].role, Role::Tool);
    let content = msgs[1].content.as_deref().unwrap();
    assert!(content.contains("dummy"));
    assert!(content.contains(r#"{"input":"test"}"#));

    let result = run_step(&mut agent, response_chunks).unwrap();
    assert!(result.is_some(), "expected Some (final answer)");
    assert_eq!(result.unwrap(), "Result: dummy executed successfully");
}

#[test]
fn test_agent_empty_context() {
    let mut agent = TestAgent::new();
    let result = run_step(&mut agent, vec![text_chunk("Hello!")]).unwrap();
    assert_eq!(result.as_deref(), Some("Hello!"));
}

fn after_answer(agent: &mut TestAgent, chunks: Vec<ChatChunk>) -> (Step, Action) {
    let (step, action) = agent.begin_step_at(0, false);
    assert!(matches!(action, Action::Ask { .. }));
    agent.advance(step, Event::Answer(chunks))
}

#[test]
fn a_denied_call_ends_the_step_before_execution() {
    let mut agent = TestAgent::new();
    agent.router.register(Tool::Other(DummyTool::new("bash")));
    let (step, action) =
        after_answer(&mut agent, vec![make_tool_call_chunk(0, "1", "bash", "ls; rm")]);
    assert!(matches!(action, Action::Judge { .. }));
    let (_, action) = agent.advance(step, Event::Judge);
    match action {
        Action::Fail { error: AgentError::SafetyViolation(reason) } => {
            assert!(reason.contains("injection"))
        }
        other => panic!("{other:?}"),
    }
    assert_eq!(agent.context.current_messages().len(), 1);
}

#[test]
fn consent_is_asked_for_and_can_be_refused() {
    let mut agent = TestAgent::new();
    agent.router.register(Tool::Other(DummyTool::new("execute_bash")));
    let chunks = vec![make_tool_call_chunk(0, "1", "execute_bash", "ls")];
    let (step, _) = after_answer(&mut agent, chunks);
    let (step, action) = agent.advance(step, Event::Judge);
    assert_eq!(
        action,
        Action::Approve {
            tool_name: "execute_bash".to_string(),
            reason: "execute_bash requires user approval (args: ls)".to_string(),
        }
    );
    let (_, action) = agent.advance(step, Event::Approval(false));
    assert_eq!(action, Action::Fail { error: AgentError::UserAbort });
}

#[test]
fn consent_leads_to_the_hooks_and_then_to_the_tool() {
    let mut agent = TestAgent::new();
    agent.router.register(Tool::Other(DummyTool::new("execute_bash")));
    let chunks = vec![make_tool_call_chunk(0, "1", "execute_bash", "ls")];
    let (step, _) = after_answer(&mut agent, chunks);
    let (step, _) = agent.advance(step, Event::Judge);
    let (step, action) = agent.advance(step, Event::Approval(true));
    let mut call = match action {
        Action::RunHooks { call } => call,
        other => panic!("{other:?}"),
    };
    call.function.arguments = "ls -l".to_string();
    let (step, action) = agent.advance(step, Event::Hooked(call.clone()));
    assert_eq!(action, Action::Execute { call });
    let (_, action) = agent.advance(step, Event::Executed(Ok("out".to_string())));
    assert_eq!(action, Action::Finish { answer: None });
    let last = agent.context.current_messages().last().unwrap();
    assert_eq!(last.tool_call_id.as_deref(), Some("1"));
    assert_eq!(last.content.as_deref(), Some("out"));
}

#[test]
fn a_failed_prompt_is_an_io_error() {
    let mut agent = TestAgent::new();
    let chunks = vec![make_tool_call_chunk(0, "1", "execute_bash", "ls")];
    let (step, _) = after_answer(&mut agent, chunks);
    let (step, _) = agent.advance(step, Event::Judge);
    let (_, action) = agent.advance(step, Event::InputFailed("closed".to_string()));
    assert_eq!(action, Action::Fail { error: AgentError::Io("closed".to_string()) });
}

#[test]
fn auto_approval_goes_round_the_stages() {
    let mut agent = TestAgent::new();
    agent.safety_auto_approve = true;
    let chunks = vec![make_tool_call_chunk(0, "1", "bash", "a; b")];
    let (step, _) = after_answer(&mut agent, chunks);
    let (_, action) = agent.advance(step, Event::Judge);
    assert!(matches!(action, Action::RunHooks { .. }));
}

#[test]
fn a_hook_can_reject_a_call() {
    let mut agent = TestAgent::new();
    let chunks = vec![make_tool_call_chunk(0, "1", "t", "{}")];
    let (step, _) = after_answer(&mut agent, chunks);
    let (step, action) = agent.advance(step, Event::Judge);
    let call = match action {
        Action::RunHooks { call } => call,
        other => panic!("{other:?}"),
    };
    let (_, action) =
        agent.advance(step, Event::Rejected { call, reason: "no".to_string() });
    assert_eq!(
        action,
        Action::Fail {
            error: AgentError::ToolExecution("PreToolHook rejected call 't': no".to_string())
        }
    );
}

#[test]
fn a_tool_error_goes_into_the_context_and_the_loop_goes_on() {
    let mut agent = TestAgent::new();
    agent.router.register(Tool::Other(DummyTool::new("t")));
    let chunks = vec![
        make_tool_call_chunk(0, "1", "t", "{}"),
        make_tool_call_chunk(1, "2", "missing", "{}"),
    ];
    let (step, _) = after_answer(&mut agent, chunks);
    let (step, action) = agent.advance(step, Event::Judge);
    let call = match action {
        Action::RunHooks { call } => call,
        other => panic!("{other:?}"),
    };
    let (step, _) = agent.advance(step, Event::Hooked(call));
    let (step, action) = agent.advance(step, Event::Executed(Err("disk full".to_string())));
    assert_eq!(agent.context.current_messages()[1].content.as_deref(), Some("disk full"));
    let call = match action {
        Action::Judge { call } => call,
        other => panic!("{other:?}"),
    };
    assert_eq!(call.id, "2");
    let (step, _) = agent.advance(step, Event::Judge);
    let (step, _) = agent.advance(step, Event::Hooked(call));
    let (_, action) = agent.advance(step, Event::Executed(Ok(String::new())));
    assert_eq!(action, Action::Finish { answer: None });
    let last = agent.context.current_messages().last().unwrap();
    assert_eq!(last.content.as_deref(), Some("unknown tool: 'missing'"));
    assert_eq!(last.tool_call_id.as_deref(), Some("2"));
}

fn too_large() -> ProviderError {
    ProviderError::ApiError { status: 413, body: "too large".to_string() }
}

#[test]
fn a_context_that_is_too_large_is_trimmed_once() {
    let mut agent = TestAgent::new();
    agent.router.register(Tool::Other(DummyTool::new("t")));
    user(&mut agent, "q");
    let call = ToolCall {
        id: "1".to_string(),
        kind: "function".to_string(),
        function: FunctionCall { name: "t".to_string(), arguments: "{}".to_string() },
    };
    agent.context.push(Message::assistant(None, Some(vec![call])));
    agent.context.push(Message::tool_result("1", "r"));
    user(&mut agent, "again");
    let (step, _) = agent.begin_step_at(0, false);
    let (step, action) = agent.advance(step, Event::Refused(too_large()));
    match action {
        Action::Ask { messages, with_tools } => {
            assert_eq!(messages.len(), 2);
            assert!(with_tools);
        }
        other => panic!("{other:?}"),
    }
    assert_eq!(agent.context.current_messages().len(), 2);
    let (_, action) = agent.advance(step, Event::Refused(too_large()));
    assert_eq!(action, Action::Fail { error: AgentError::Provider(too_large()) });
}

#[test]
fn a_tool_result_without_its_call_is_trimmed_alone() {
    let mut agent = TestAgent::new();
    user(&mut agent, "a");
    agent.context.push(Message::tool_result("1", "r"));
    agent.context.push(Message::tool_result("2", "s"));
    agent.trim_context_for_retry();
    assert_eq!(agent.context.current_messages().len(), 2);
    agent.trim_context_for_retry();
    agent.trim_context_for_retry();
    assert_eq!(agent.context.current_messages().len(), 1);
}

#[test]
fn other_refusals_and_broken_streams_fail() {
    let mut agent = TestAgent::new();
    let e = ProviderError::ApiError { status: 500, body: "b".to_string() };
    let (step, _) = agent.begin_step_at(0, false);
    let (_, action) = agent.advance(step, Event::Refused(e.clone()));
    assert_eq!(action, Action::Fail { error: AgentError::Provider(e) });
    let (step, _) = agent.begin_step_at(0, false);
    let (_, action) = agent.advance(step, Event::Broken(too_large()));
    assert_eq!(action, Action::Fail { error: AgentError::Provider(too_large()) });
}

#[test]
fn the_memory_is_asked_with_the_latest_question() {
    let mut agent = TestAgent::new();
    user(&mut agent, "first");
    user(&mut agent, "second");
    agent.context.push(Message::assistant(Some("answer".to_string()), None));
    let (step, action) = agent.begin_step_at(0, true);
    assert_eq!(action, Action::Recall { text: "second".to_string() });
    let facts = vec!["f1".to_string(), "f2".to_string()];
    let (_, action) = agent.advance(step, Event::Facts(facts));
    match action {
        Action::Ask { messages, with_tools } => {
            assert_eq!(messages.len(), 4);
            assert_eq!(messages[0].role, Role::System);
            assert_eq!(
                messages[0].content.as_deref(),
                Some("[LONG-TERM MEMORY BACKGROUND]: Relevant historical facts:\n\nf1\n\n---\n\nf2")
            );
            assert!(!with_tools);
        }
        other => panic!("{other:?}"),
    }
    assert_eq!(agent.context.current_messages().len(), 3);
}

#[test]
fn without_facts_or_a_question_the_model_is_asked_directly() {
    let mut agent = TestAgent::new();
    user(&mut agent, "q");
    user(&mut agent, "");
    let (_, action) = agent.begin_step_at(0, true);
    assert!(matches!(action, Action::Ask { .. }));
    let mut agent = TestAgent::new();
    user(&mut agent, "q");
    let (step, _) = agent.begin_step_at(0, true);
    let (_, action) = agent.advance(step, Event::Facts(vec![]));
    match action {
        Action::Ask { messages, .. } => assert_eq!(messages.len(), 1),
        other => panic!("{other:?}"),
    }
}

#[test]
fn an_agent_has_the_tools_of_the_platform() {
    let agent = TestAgent::new();
    assert_eq!(agent.router.len(), 4);
    for (name, tool) in [
        ("read_file", PlatformTool::ReadFile),
        ("write_file", PlatformTool::WriteFile),
        ("glob", PlatformTool::Glob),
        ("grep", PlatformTool::Grep),
    ] {
        assert!(matches!(agent.router.get(name), Some(Tool::Platform(t)) if *t == tool));
    }
    let mut names: Vec<String> = agent.router.definitions().into_iter().map(|d| d.name).collect();
    names.sort();
    assert_eq!(names, ["glob", "grep", "read_file", "write_file"]);
}

#[test]
fn an_agent_without_tools_offers_none() {
    let mut agent = TestAgent::new();
    agent.router = ToolRouter::new();
    match agent.begin_step(false).1 {
        Action::Ask { with_tools, .. } => assert!(!with_tools),
        other => panic!("{other:?}"),
    }
}

#[test]
fn the_size_of_the_context_is_estimated() {
    let mut agent = TestAgent::new();
    assert_eq!(agent.context.estimate_tokens(), 0);
    user(&mut agent, "жжж");
    agent.context.push(Message::assistant(
        None,
        Some(vec![ToolCall {
            id: "ignored".into(),
            kind: "function".into(),
            function: FunctionCall { name: "grep".into(), arguments: "{}".into() },
        }]),
    ));
    assert_eq!(agent.context.estimate_tokens(), 3);
    user(&mut agent, &"x".repeat(24_000 - 12));
    assert_eq!(agent.context.estimate_tokens(), 6000);
    for _ in 0..16 {
        user(&mut agent, "");
    }
    assert!(matches!(agent.begin_step(false).1, Action::Ask { .. }));
    user(&mut agent, "more");
    assert_eq!(agent.context.estimate_tokens(), 6001);
    assert!(matches!(agent.begin_step(false).1, Action::Summarize { .. }));
}

#[test]
fn tools_are_not_offered_behind_a_plain_answer() {
    let mut agent = TestAgent::new();
    let offered = |agent: &TestAgent| match agent.begin_step_at(0, false).1 {
        Action::Ask { with_tools, .. } => with_tools,
        other => panic!("{other:?}"),
    };
    assert!(offered(&agent));
    user(&mut agent, "q");
    assert!(offered(&agent));
    agent.context.push(Message::assistant(Some("a".to_string()), None));
    assert!(!offered(&agent));
}

#[test]
fn a_large_context_is_compacted_beforehand() {
    let mut agent = TestAgent::new();
    agent.context.push(Message::new(Role::System, "rules"));
    for i in 0..16 {
        user(&mut agent, &format!("{i}"));
    }
    let (_, action) = agent.begin_step_at(6000, false);
    assert!(matches!(action, Action::Ask { .. }));
    let (step, action) = agent.begin_step_at(6001, false);
    match action {
        Action::Summarize { messages } => {
            assert_eq!(messages.len(), 13);
            assert!(messages[0].content.as_deref().unwrap().starts_with("You are a conversation summarizer."));
            assert_eq!(messages[1].content.as_deref(), Some("0"));
            assert_eq!(messages[12].content.as_deref(), Some("11"));
        }
        other => panic!("{other:?}"),
    }
    let (_, action) = agent.advance(step, Event::Summary(Some("sum".to_string())));
    match action {
        Action::Ask { messages, .. } => assert_eq!(messages.len(), 6),
        other => panic!("{other:?}"),
    }
    assert_eq!(agent.context.current_messages()[1].content.as_deref(), Some("sum"));
}

#[test]
fn no_summary_means_no_compaction() {
    for summary in [None, Some(String::new())] {
        let mut agent = TestAgent::new();
        for i in 0..17 {
            user(&mut agent, &format!("{i}"));
        }
        let (step, _) = agent.begin_step_at(7000, false);
        let (_, action) = agent.advance(step, Event::Summary(summary));
        assert!(matches!(action, Action::Ask { .. }));
        assert_eq!(agent.context.current_messages().len(), 17);
    }
}

#[test]
fn a_reply_without_text_is_an_empty_answer() {
    let mut agent = TestAgent::new();
    user(&mut agent, "hi");
    for chunks in [vec![], vec![text_chunk("")]] {
        let before = agent.context.current_messages().len();
        let (_, action) = after_answer(&mut agent, chunks);
        assert_eq!(action, Action::Finish { answer: Some(String::new()) });
        assert_eq!(
            agent.after_step(1, Ok(Some(String::new()))),
            RunDecision::Answer(String::new())
        );
        let msgs = agent.context.current_messages();
        assert_eq!(msgs.len(), before + 1);
        assert_eq!(msgs[before].role, Role::Assistant);
        assert_eq!(msgs[before].content, None);
        assert!(msgs[before].tool_calls.is_none());
    }
}

#[test]
fn a_reply_without_calls_is_all_its_text() {
    let mut agent = TestAgent::new();
    let (_, action) = after_answer(&mut agent, vec![text_chunk("Hel"), text_chunk("lo")]);
    assert_eq!(action, Action::Finish { answer: Some("Hello".to_string()) });
    assert_eq!(agent.context.current_messages().len(), 1);
}

#[test]
fn a_loop_is_stopped_at_the_third_call() {
    let mut agent = TestAgent::new();
    agent.router.register(Tool::Other(DummyTool::new("search")));
    user(&mut agent, "find it");
    for id in ["c1", "c2"] {
        let chunks = vec![make_tool_call_chunk(0, id, "search", "{}")];
        assert_eq!(run_step(&mut agent, chunks), Ok(None));
    }
    let roles: Vec<Role> =
        agent.context.current_messages().iter().map(|m| m.role.clone()).collect();
    assert_eq!(
        roles,
        [Role::User, Role::Assistant, Role::Tool, Role::Assistant, Role::Tool]
    );
    let outcome = run_step(&mut agent, vec![make_tool_call_chunk(0, "c3", "search", "{}")]);
    assert_eq!(
        outcome,
        Err(AgentError::SafetyViolation(
            "tool 'search' called with identical arguments 3 times in a row (max: 3)".to_string()
        ))
    );
    assert_eq!(agent.context.current_messages().len(), 6);
}

#[test]
fn a_loop_among_other_calls_is_stopped() {
    let mut agent = TestAgent::new();
    agent.router.register(Tool::Other(DummyTool::new("look")));
    agent.router.register(Tool::Other(DummyTool::new("search")));
    for i in 0..3 {
        let chunks = vec![
            make_tool_call_chunk(0, "a", "look", &format!("{i}")),
            make_tool_call_chunk(1, "b", "search", "{}"),
        ];
        let outcome = run_step(&mut agent, chunks);
        if i < 2 {
            assert_eq!(outcome, Ok(None));
        } else {
            assert!(matches!(outcome, Err(AgentError::SafetyViolation(_))));
        }
    }
    let last = agent.context.current_messages().last().unwrap();
    assert_eq!(last.tool_call_id.as_deref(), Some("a"));
}

#[test]
fn a_tool_that_is_not_there_does_not_hide_a_loop() {
    let mut agent = TestAgent::new();
    for _ in 0..2 {
        let chunks = vec![make_tool_call_chunk(0, "c", "missing", "{}")];
        assert_eq!(run_step(&mut agent, chunks), Ok(None));
    }
    let outcome = run_step(&mut agent, vec![make_tool_call_chunk(0, "c", "missing", "{}")]);
    assert!(matches!(outcome, Err(AgentError::SafetyViolation(_))));
}

#[test]
fn other_arguments_or_another_message_begin_a_new_row() {
    let mut agent = TestAgent::new();
    agent.router.register(Tool::Other(DummyTool::new("search")));
    for args in ["1", "1", "2", "1", "1"] {
        let chunks = vec![make_tool_call_chunk(0, "c", "search", args)];
        assert_eq!(run_step(&mut agent, chunks), Ok(None));
    }
    user(&mut agent, "once more");
    for _ in 0..2 {
        let chunks = vec![make_tool_call_chunk(0, "c", "search", "1")];
        assert_eq!(run_step(&mut agent, chunks), Ok(None));
    }
    let outcome = run_step(&mut agent, vec![make_tool_call_chunk(0, "c", "search", "1")]);
    assert!(matches!(outcome, Err(AgentError::SafetyViolation(_))));
}

#[test]
fn a_loop_is_stopped_across_a_compaction() {
    let mut agent = TestAgent::new();
    agent.router.register(Tool::Other(DummyTool::new("search")));
    for i in 0..14 {
        user(&mut agent, &format!("{i}"));
    }
    let search = || vec![make_tool_call_chunk(0, "c", "search", "{}")];
    for _ in 0..2 {
        let (step, _) = after_answer(&mut agent, search());
        let (step, _) = agent.advance(step, Event::Judge);
        let call = ToolCall {
            id: "c".into(),
            kind: "function".into(),
            function: FunctionCall { name: "search".into(), arguments: "{}".into() },
        };
        let (step, _) = agent.advance(step, Event::Hooked(call));
        let (step, action) = agent.advance(step, Event::Executed(Ok("ok".to_string())));
        if matches!(action, Action::Summarize { .. }) {
            agent.advance(step, Event::Summary(Some("so far".to_string())));
        }
    }
    assert!(agent.context.current_messages().len() < 14);
    let (step, _) = after_answer(&mut agent, search());
    let (_, action) = agent.advance(step, Event::Judge);
    assert!(matches!(action, Action::Fail { error: AgentError::SafetyViolation(_) }));
}

#[test]
fn a_run_stops_at_its_limit() {
    let mut agent = TestAgent::new();
    assert_eq!(agent.after_step(1000, Ok(None)), RunDecision::Again);
    agent.max_steps = 3;
    assert_eq!(agent.after_step(2, Ok(None)), RunDecision::Again);
    assert_eq!(agent.after_step(3, Ok(None)), RunDecision::StepLimit);
    assert_eq!(
        agent.after_step(3, Ok(Some("x".to_string()))),
        RunDecision::Answer("x".to_string())
    );
    assert_eq!(
        agent.after_step(3, Err(AgentError::UserAbort)),
        RunDecision::Failed(AgentError::UserAbort)
    );
}

#[test]
fn only_n_and_no_decline() {
    for no in ["n", "N", " no\n", "No", "nO", "NO"] {
        assert!(!input_approves(no));
    }
    for yes in ["", "y", "yes", "non", "nope", "o"] {
        assert!(input_approves(yes));
    }
}

#[test]
fn errors_speak() {
    assert_eq!(
        AgentError::Provider(ProviderError::Execution("x".to_string())).text(),
        "Provider error: Execution error: x"
    );
    assert_eq!(AgentError::SafetyViolation("x".to_string()).text(), "Safety violation: x");
    assert_eq!(AgentError::ToolExecution("x".to_string()).text(), "Tool execution failed: x");
    assert_eq!(AgentError::Io("x".to_string()).text(), "I/O error: x");
    assert_eq!(AgentError::UserAbort.text(), "User aborted execution");
}
