use ai_agent::orchestrator::{AgentCluster, TaskResult};
use ai_agent::types::{Message, Role};

fn finished(agent: &str, base: &[Message], answer: &str) -> TaskResult {
    let mut messages = base.to_vec();
    messages.push(Message::assistant(Some(answer.to_string()), None));
    TaskResult::Finished {
        agent_name: agent.to_string(),
        outcome: Ok(answer.to_string()),
        messages,
    }
}

#[test]
fn test_parallel_merge_union() {
    let mut cluster = AgentCluster::new();
    cluster.context.push(Message::new(Role::System, "You are a helpful assistant."));

    let results = vec![
        finished(
            "researcher",
            &cluster.task_messages("List .rs files"),
            "Found 3 .rs files: main.rs, lib.rs, orchestrator.rs",
        ),
        finished(
            "summarizer",
            &cluster.task_messages("Summarize Cargo.toml"),
            "Cargo.toml declares dependencies: tokio, serde, axum",
        ),
    ];

    let report = cluster.execute_parallel_tasks(&results);

    assert!(
        report.contains("Found 3"),
        "Report should contain researcher output, got:\n{report}"
    );
    assert!(
        report.contains("Cargo.toml declares"),
        "Report should contain summarizer output, got:\n{report}"
    );

    let current_msgs = cluster.context.current_messages();
    let assistant_count = current_msgs.iter().filter(|m| m.role == Role::Assistant).count();
    assert!(
        assistant_count >= 2,
        "Expected at least 2 assistant messages after merge, got {assistant_count}"
    );

    let branches = cluster.context.list();
    assert!(
        branches.iter().all(|b| b.name == "main"),
        "All branches except main should be deleted, got: {:?}",
        branches.iter().map(|b| &b.name).collect::<Vec<_>>(),
    );
}

#[test]
fn no_tasks_no_work() {
    let mut cluster = AgentCluster::new();
    assert_eq!(cluster.execute_parallel_tasks(&vec![]), "No tasks to execute.");
    assert_eq!(cluster.context.len(), 1);
}

#[test]
fn names_are_made_unique_and_reported() {
    let mut cluster = AgentCluster::new();
    let base = cluster.task_messages("p");
    let results = vec![
        finished("main", &base, "a"),
        finished("x", &base, "b"),
        finished("x", &base, "c"),
        finished("", &base, "d"),
        TaskResult::Finished {
            agent_name: "y".to_string(),
            outcome: Err("Safety violation: no".to_string()),
            messages: base.clone(),
        },
        TaskResult::Panicked("boom".to_string()),
    ];
    let report = cluster.execute_parallel_tasks(&results);
    assert_eq!(
        report,
        "Parallel execution completed. 5/6 branches merged.\n\
         ───────────────────────────────────────────\n\
         [main_1]: a\n---\n[x]: b\n---\n[x_1]: c\n---\n[task-3]: d\n---\n\
         [y] ERROR: Safety violation: no\n---\n[PANIC]: boom"
    );
    let contents: Vec<&str> = cluster
        .context
        .current_messages()
        .iter()
        .map(|m| m.content.as_deref().unwrap())
        .collect();
    assert_eq!(contents, vec!["p", "a", "b", "c", "d"]);
    assert_eq!(cluster.context.len(), 1);
    assert_eq!(cluster.context.current_branch().name, "main");
}

#[test]
fn other_branches_are_left_alone() {
    let mut cluster = AgentCluster::new();
    cluster.context.push(Message::new(Role::User, "q"));
    cluster.context.create_branch("side");
    cluster.context.push(Message::new(Role::User, "s"));
    cluster.context.switch_by_name("main").unwrap();
    let base = cluster.task_messages("p");
    let ids = vec!["id-1".to_string()];
    cluster.gather_as(&vec![finished("side", &base, "a")], &ids);
    let names: Vec<&str> = cluster.context.list().iter().map(|b| b.name.as_str()).collect();
    assert_eq!(names, vec!["main", "side"]);
    cluster.context.switch_by_name("side").unwrap();
    assert_eq!(cluster.context.current_messages().len(), 2);
}

#[test]
fn a_task_starts_with_the_conversation_and_its_prompt() {
    let mut cluster = AgentCluster::new();
    cluster.context.push(Message::new(Role::System, "s"));
    let msgs = cluster.task_messages("do it");
    assert_eq!(msgs.len(), 2);
    assert_eq!(msgs[1].role, Role::User);
    assert_eq!(msgs[1].content.as_deref(), Some("do it"));
}
