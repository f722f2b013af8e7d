use ai_agent::agent::AgentError;
use ai_agent::cli::{
    after_error, help, list_branches, list_tools, read_client, read_command, snapshot_line,
    swarm_tasks, Command,
};
use ai_agent::context::ContextManager;
use ai_agent::provider::ProviderError;
use ai_agent::tool_routing::frontend::ClientCommand;
use ai_agent::types::{Message, Role};

#[test]
fn commands_are_read() {
    assert_eq!(read_command(""), Command::Nothing);
    assert_eq!(read_command("/exit"), Command::Exit);
    assert_eq!(read_command("/quit"), Command::Exit);
    assert_eq!(read_command("/help"), Command::Help);
    assert_eq!(read_command("/branch"), Command::Branches);
    assert_eq!(read_command("/tools"), Command::Tools);
    assert_eq!(read_command("/snapshot"), Command::Snapshot);
    assert_eq!(read_command("/swarm"), Command::Swarm);
    assert_eq!(read_command("/switch a b"), Command::Switch("a b".into()));
    assert_eq!(read_command("/switch"), Command::SwitchUsage);
    assert_eq!(read_command("/switch "), Command::SwitchUsage);
    assert_eq!(read_command("//rename x"), Command::Rename("x".into()));
    assert_eq!(read_command("/rename"), Command::RenameUsage);
    assert_eq!(read_command("/exit now"), Command::Unknown("exit".into()));
    assert_eq!(read_command("/"), Command::Unknown(String::new()));
}

#[test]
fn everything_else_reaches_the_model() {
    assert_eq!(read_command("hello /exit"), Command::Text("hello /exit".into()));
    assert_eq!(read_command(" /exit"), Command::Text(" /exit".into()));
}

#[test]
fn commands_of_the_user_interface() {
    assert_eq!(
        read_client(&ClientCommand::StartTask { prompt: "do".into() }),
        Command::Text("do".into())
    );
    assert_eq!(
        read_client(&ClientCommand::StartTask { prompt: "/tools".into() }),
        Command::Tools
    );
    assert_eq!(
        read_client(&ClientCommand::SwitchBranch { name: "b".into() }),
        Command::Switch("b".into())
    );
    assert_eq!(
        read_client(&ClientCommand::StartPlan { path: "p".into() }),
        Command::Plan("p".into())
    );
    assert_eq!(read_client(&ClientCommand::Abort), Command::Nothing);
    assert_eq!(
        read_client(&ClientCommand::SafetyResponse { approved: true }),
        Command::Nothing
    );
}

#[test]
fn the_help_names_every_command() {
    let lines = help();
    assert_eq!(lines.len(), 11);
    for word in
        ["/exit", "/help", "/branch", "/switch", "/rename", "/tools", "/snapshot", "/swarm"]
    {
        assert!(lines.iter().any(|l| l.contains(word)));
    }
}

#[test]
fn branches_and_tools_are_listed() {
    let mut ctx = ContextManager::new();
    ctx.push(Message::new(Role::User, "q"));
    ctx.create_branch("alpha");
    ctx.push(Message::new(Role::User, "r"));
    assert_eq!(list_branches(&ctx), vec!["   *alpha (2)", "    main (1)"]);
    assert_eq!(list_tools(&vec![]), vec!["  No tools registered."]);
    assert_eq!(
        list_tools(&vec!["a", "b"]),
        vec!["  Registered tools (2):", "    - a", "    - b"]
    );
}

#[test]
fn a_line_of_the_snapshot() {
    assert_eq!(snapshot_line("0123456789", "main", 3, "main"), "   *main [01234567] (3 msgs)");
    assert_eq!(snapshot_line("01234567", "x", 0, "main"), "    x [01234567] (0 msgs)");
}

#[test]
fn two_tasks_for_the_swarm() {
    let tasks = swarm_tasks();
    let names: Vec<&str> = tasks.iter().map(|t| t.0).collect();
    assert_eq!(names, vec!["researcher", "summarizer"]);
    assert!(tasks[0].1.contains("glob tool"));
    assert!(tasks[1].1.contains("Cargo.toml"));
}

#[test]
fn what_ends_a_session() {
    assert_eq!(
        after_error(&AgentError::UserAbort),
        ("⚠️ Error: User aborted execution".to_string(), true)
    );
    assert_eq!(
        after_error(&AgentError::Provider(ProviderError::Execution("x".into()))),
        ("⚠️ Error: Provider error: Execution error: x".to_string(), true)
    );
    assert_eq!(
        after_error(&AgentError::SafetyViolation("x".into())),
        ("⚠️ Error: Safety violation: x".to_string(), false)
    );
}
