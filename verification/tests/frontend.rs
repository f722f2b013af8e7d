use ai_agent::tool_routing::frontend::{
    probe_command, read_pid, ClientCommand, CommandRoute, FrontendEvent, PortAction, PortState,
    Probe, ProbeResult,
};
use ai_agent::types::{FunctionCall, ToolCall};

#[test]
fn answers_to_reviews_go_their_own_way() {
    let answer = ClientCommand::SafetyResponse { approved: true };
    assert_eq!(answer.route(), CommandRoute::Safety);
    assert!(ClientCommand::approves(&Some(answer)));
    assert!(!ClientCommand::approves(&Some(ClientCommand::SafetyResponse { approved: false })));
    assert!(!ClientCommand::approves(&None));
    for other in [
        ClientCommand::StartTask { prompt: "p".into() },
        ClientCommand::SwitchBranch { name: "n".into() },
        ClientCommand::StartPlan { path: "f".into() },
        ClientCommand::Abort,
    ] {
        assert_eq!(other.route(), CommandRoute::Tasks);
        assert!(!ClientCommand::approves(&Some(other)));
    }
}

#[test]
fn outcomes_become_events() {
    let call = ToolCall {
        id: "1".into(),
        kind: "function".into(),
        function: FunctionCall { name: "t".into(), arguments: "{}".into() },
    };
    assert_eq!(
        FrontendEvent::tool_result(&call, &Ok("out".into())),
        FrontendEvent::ToolResult { tool_name: "t".into(), result: "out".into() }
    );
    assert_eq!(
        FrontendEvent::tool_result(&call, &Err("bad".into())),
        FrontendEvent::ToolResult { tool_name: "t".into(), result: "Error: bad".into() }
    );
}

#[test]
fn process_numbers_are_read() {
    assert_eq!(read_pid(Probe::Fuser, " 8080/tcp:  12  34 \n"), Some(34));
    assert_eq!(read_pid(Probe::Fuser, "  "), None);
    assert_eq!(read_pid(Probe::Fuser, "12e"), None);
    assert_eq!(read_pid(Probe::Lsof, "\n12\n34\n"), Some(34));
    assert_eq!(read_pid(Probe::Ss, "12 34"), None);
    assert_eq!(read_pid(Probe::Ss, "2147483647"), Some(i32::MAX));
    assert_eq!(read_pid(Probe::Ss, "2147483648"), None);
    assert_eq!(read_pid(Probe::Lsof, "-2147483648"), Some(i32::MIN));
    assert_eq!(read_pid(Probe::Lsof, "+7"), Some(7));
    assert_eq!(read_pid(Probe::Lsof, ""), None);
}

#[test]
fn probes_follow_one_another() {
    assert_eq!(PortState::begin().1, PortAction::Run(Probe::Fuser));
    assert_eq!(
        PortState::probed(Probe::Fuser, &ProbeResult::Nothing).1,
        PortAction::Run(Probe::Lsof)
    );
    assert_eq!(PortState::probed(Probe::Lsof, &ProbeResult::Nothing).1, PortAction::Run(Probe::Ss));
    assert_eq!(PortState::probed(Probe::Ss, &ProbeResult::Nothing).1, PortAction::Stop(true));
    assert_eq!(PortState::probed(Probe::Fuser, &ProbeResult::Missing).1, PortAction::Stop(true));
    assert_eq!(
        PortState::probed(Probe::Fuser, &ProbeResult::Found("none".into())).1,
        PortAction::Stop(true)
    );
}

#[test]
fn a_process_is_asked_before_it_is_killed() {
    let (state, action) = PortState::probed(Probe::Lsof, &ProbeResult::Found("77\n".into()));
    assert_eq!(action, PortAction::Terminate(77));
    assert_eq!(state.checked(false).1, PortAction::Stop(true));
    let (state, action) = state.checked(true);
    assert_eq!(action, PortAction::Kill(77));
    assert_eq!(state.checked(true).1, PortAction::Stop(false));
    let (done, action) = state.checked(false);
    assert_eq!(action, PortAction::Stop(true));
    assert_eq!(done.checked(true), (done, PortAction::Stop(true)));
}

#[test]
fn the_arguments_of_the_probes() {
    assert_eq!(probe_command(Probe::Fuser, 8080), "8080/tcp");
    assert_eq!(probe_command(Probe::Lsof, 80), "lsof -ti :80 2>/dev/null");
    assert_eq!(
        probe_command(Probe::Ss, 0),
        "ss -tlnp sport = :0 2>/dev/null | grep -oP 'pid=\\K\\d+'"
    );
}
