//! Events for the user interface, commands from it, and the port it is served
//! on.

use vstd::prelude::*;
use crate::text::{
    decimal, find_last_word, last_word, read_i32, show, signed_number, split,
    split_on, text_result, texts, trim, trimmed, lemma_split_nonempty,
};
use crate::types::{ToolCall, ToolCallView};

verus! {

// ---------------------------------------------------------------------------
// Events and commands
// ---------------------------------------------------------------------------

/// What is sent to the user interface.
#[derive(Debug, Clone, PartialEq, Eq)]
pub enum FrontendEvent {
    /// A text of the agent.
    AgentMessage { content: String },
    /// Keeps the connection alive.
    Ping,
    /// A tool has been started.
    ToolExecuting { tool_name: String, arguments: String },
    /// A tool has returned.
    ToolResult { tool_name: String, result: String },
    /// The user has to decide.
    SafetyReviewRequired { tool_name: String, reason: String },
    /// A new branch of the conversation.
    ContextBranched { branch_name: String, source_branch: String },
    /// The model in use.
    ModelInfo { model_name: String },
    /// Progress of a plan; `status` is one of start, ok, fail, reject, done.
    PlanProgress { node: String, status: String },
    /// What the agent is doing.
    AgentActivity { text: String },
}

pub enum FrontendEventView {
    AgentMessage { content: Seq<char> },
    Ping,
    ToolExecuting { tool_name: Seq<char>, arguments: Seq<char> },
    ToolResult { tool_name: Seq<char>, result: Seq<char> },
    SafetyReviewRequired { tool_name: Seq<char>, reason: Seq<char> },
    ContextBranched { branch_name: Seq<char>, source_branch: Seq<char> },
    ModelInfo { model_name: Seq<char> },
    PlanProgress { node: Seq<char>, status: Seq<char> },
    AgentActivity { text: Seq<char> },
}

impl View for FrontendEvent {
    type V = FrontendEventView;

    open spec fn view(&self) -> FrontendEventView {
        match *self {
            FrontendEvent::AgentMessage { content } => FrontendEventView::AgentMessage {
                content: content@,
            },
            FrontendEvent::Ping => FrontendEventView::Ping,
            FrontendEvent::ToolExecuting {
                tool_name,
                arguments,
            } => FrontendEventView::ToolExecuting { tool_name: tool_name@, arguments: arguments@ },
            FrontendEvent::ToolResult { tool_name, result } => FrontendEventView::ToolResult {
                tool_name: tool_name@,
                result: result@,
            },
            FrontendEvent::SafetyReviewRequired {
                tool_name,
                reason,
            } => FrontendEventView::SafetyReviewRequired {
                tool_name: tool_name@,
                reason: reason@,
            },
            FrontendEvent::ContextBranched {
                branch_name,
                source_branch,
            } => FrontendEventView::ContextBranched {
                branch_name: branch_name@,
                source_branch: source_branch@,
            },
            FrontendEvent::ModelInfo { model_name } => FrontendEventView::ModelInfo {
                model_name: model_name@,
            },
            FrontendEvent::PlanProgress { node, status } => FrontendEventView::PlanProgress {
                node: node@,
                status: status@,
            },
            FrontendEvent::AgentActivity { text } => FrontendEventView::AgentActivity {
                text: text@,
            },
        }
    }
}

/// What the user interface asks for.
#[derive(Debug, Clone, PartialEq, Eq)]
pub enum ClientCommand {
    /// The user's answer to a safety review.
    SafetyResponse { approved: bool },
    /// Start a new task.
    StartTask { prompt: String },
    /// Switch to a branch of the conversation.
    SwitchBranch { name: String },
    /// Run a plan from a file.
    StartPlan { path: String },
    /// Break the current request off.
    Abort,
}

/// Where a command of the user interface goes.
#[derive(Debug, Clone, Copy, PartialEq, Eq, Structural)]
pub enum CommandRoute {
    /// To whoever waits for the user's consent.
    Safety,
    /// To the main loop.
    Tasks,
}

impl ClientCommand {
    /// Where the command goes: answers to safety reviews have a way of their
    /// own.
    pub fn route(&self) -> (r: CommandRoute)
        ensures
            r == if self is SafetyResponse {
                CommandRoute::Safety
            } else {
                CommandRoute::Tasks
            },
    {
        match self {
            ClientCommand::SafetyResponse { .. } => CommandRoute::Safety,
            _ => CommandRoute::Tasks,
        }
    }

    /// Whether a command, received while consent is awaited, gives it.
    pub fn approves(command: &Option<ClientCommand>) -> (r: bool)
        ensures
            r == (*command matches Some(ClientCommand::SafetyResponse { approved }) && approved),
    {
        match command {
            Some(ClientCommand::SafetyResponse { approved }) => *approved,
            _ => false,
        }
    }
}

/// The event that tells the outcome of a tool.
pub open spec fn tool_result_event(
    call: ToolCallView,
    outcome: Result<Seq<char>, Seq<char>>,
) -> FrontendEventView {
    FrontendEventView::ToolResult {
        tool_name: call.function.name,
        result: match outcome {
            Ok(text) => text,
            Err(e) => "Error: "@ + e,
        },
    }
}

impl FrontendEvent {
    /// The event that tells the outcome of a tool.
    pub fn tool_result(call: &ToolCall, outcome: &Result<String, String>) -> (r: Self)
        ensures
            r@ == tool_result_event(call@, text_result(*outcome)),
    {
        let result = match outcome {
            Ok(text) => text.clone(),
            Err(e) => {
                let mut s = "Error: ".to_string();
                s.append(e.as_str());
                s
            },
        };
        FrontendEvent::ToolResult { tool_name: call.function.name.clone(), result }
    }
}

// ---------------------------------------------------------------------------
// Freeing the port
// ---------------------------------------------------------------------------

/// A way to find the process that listens on a port.
#[derive(Debug, Clone, Copy, PartialEq, Eq, Structural)]
pub enum Probe {
    Fuser,
    Lsof,
    Ss,
}

/// The last line of a text that was stripped of white space around it.
pub open spec fn last_line(s: Seq<char>) -> Seq<char> {
    split(trimmed(s), '\n').last()
}

/// The process that the output of a probe names.
pub open spec fn probed_pid(probe: Probe, output: Seq<char>) -> Option<int> {
    match probe {
        Probe::Fuser => match last_word(output) {
            Some(w) => signed_number(w),
            None => None,
        },
        _ => signed_number(last_line(output)),
    }
}

/// The process that the output of a probe names.
pub fn read_pid(probe: Probe, output: &str) -> (r: Option<i32>)
    ensures
        match r {
            Some(n) => probed_pid(probe, output@) == Some(n as int),
            None => probed_pid(probe, output@) is None,
        },
{
    match probe {
        Probe::Fuser => match find_last_word(output) {
            Some(w) => read_i32(w.as_str()),
            None => None,
        },
        _ => {
            let t = trim(output);
            let lines = split_on(t.as_str(), '\n');
            proof {
                lemma_split_nonempty(t@, '\n');
                assert(texts(lines@).last() == lines@.last()@);
            }
            read_i32(lines[lines.len() - 1].as_str())
        },
    }
}

/// What a probe has brought.
#[derive(Debug, PartialEq, Eq)]
pub enum ProbeResult {
    /// The probe could not be started.
    Missing,
    /// The probe ran and found nothing.
    Nothing,
    /// The probe succeeded with this output.
    Found(String),
}

/// The progress of freeing a port.
#[derive(Debug, Clone, Copy, PartialEq, Eq, Structural)]
pub enum PortState {
    /// Waiting for the result of a probe.
    Probing(Probe),
    /// The process has been asked to end; is it still alive?
    Asked(i32),
    /// The process has been killed; is it still alive?
    Killed(i32),
    /// The port is free, or it is not.
    Done(bool),
}

/// What to do about the port next.
#[derive(Debug, Clone, Copy, PartialEq, Eq, Structural)]
pub enum PortAction {
    /// Run a probe.
    Run(Probe),
    /// Ask the process to end, wait half a second, see whether it is alive.
    Terminate(i32),
    /// Kill the process, wait a tenth of a second, see whether it is alive.
    Kill(i32),
    /// Nothing more; whether the port is free.
    Stop(bool),
}

/// After the result of a probe. A probe that cannot be started ends the
/// search, as does one that succeeds; one that finds nothing hands on to the
/// next.
pub open spec fn after_probe(probe: Probe, found: Option<Option<int>>) -> (PortState, PortAction) {
    match found {
        Some(Some(pid)) => (PortState::Asked(pid as i32), PortAction::Terminate(pid as i32)),
        Some(None) => (PortState::Done(true), PortAction::Stop(true)),
        None => match probe {
            Probe::Fuser => (PortState::Probing(Probe::Lsof), PortAction::Run(Probe::Lsof)),
            Probe::Lsof => (PortState::Probing(Probe::Ss), PortAction::Run(Probe::Ss)),
            Probe::Ss => (PortState::Done(true), PortAction::Stop(true)),
        },
    }
}

/// What a probe says: nothing yet (`None`), no process (`Some(None)`), or a
/// process.
pub open spec fn probe_says(probe: Probe, result: ProbeResult) -> Option<Option<int>> {
    match result {
        ProbeResult::Missing => Some(None),
        ProbeResult::Nothing => None,
        ProbeResult::Found(output) => Some(probed_pid(probe, output@)),
    }
}

/// After the question whether the process is alive. One that survives the
/// request to end is killed, and one that survives that keeps the port.
pub open spec fn after_alive(state: PortState, alive: bool) -> (PortState, PortAction) {
    match state {
        PortState::Asked(pid) if alive => (PortState::Killed(pid), PortAction::Kill(pid)),
        PortState::Asked(pid) => (PortState::Done(true), PortAction::Stop(true)),
        PortState::Killed(pid) => (PortState::Done(!alive), PortAction::Stop(!alive)),
        PortState::Done(free) => (state, PortAction::Stop(free)),
        PortState::Probing(probe) => (state, PortAction::Run(probe)),
    }
}

impl PortState {
    /// Begin to free a port.
    pub fn begin() -> (r: (PortState, PortAction))
        ensures
            r == (PortState::Probing(Probe::Fuser), PortAction::Run(Probe::Fuser)),
    {
        (PortState::Probing(Probe::Fuser), PortAction::Run(Probe::Fuser))
    }

    /// Go on after a probe.
    pub fn probed(probe: Probe, result: &ProbeResult) -> (r: (PortState, PortAction))
        ensures
            r == after_probe(probe, probe_says(probe, *result)),
    {
        match result {
            ProbeResult::Missing => (PortState::Done(true), PortAction::Stop(true)),
            ProbeResult::Nothing => match probe {
                Probe::Fuser => (PortState::Probing(Probe::Lsof), PortAction::Run(Probe::Lsof)),
                Probe::Lsof => (PortState::Probing(Probe::Ss), PortAction::Run(Probe::Ss)),
                Probe::Ss => (PortState::Done(true), PortAction::Stop(true)),
            },
            ProbeResult::Found(output) => match read_pid(probe, output.as_str()) {
                Some(pid) => (PortState::Asked(pid), PortAction::Terminate(pid)),
                None => (PortState::Done(true), PortAction::Stop(true)),
            },
        }
    }

    /// Go on after the question whether the process is alive.
    pub fn checked(self, alive: bool) -> (r: (PortState, PortAction))
        ensures
            r == after_alive(self, alive),
    {
        match self {
            PortState::Asked(pid) => {
                if alive {
                    (PortState::Killed(pid), PortAction::Kill(pid))
                } else {
                    (PortState::Done(true), PortAction::Stop(true))
                }
            },
            PortState::Killed(pid) => (PortState::Done(!alive), PortAction::Stop(!alive)),
            PortState::Done(free) => (self, PortAction::Stop(free)),
            PortState::Probing(probe) => (self, PortAction::Run(probe)),
        }
    }
}

/// A process is killed only after it has been asked to end and is still
/// alive, and the port counts as free exactly if no process was found or the
/// last look found it gone.
pub proof fn law_free_port(state: PortState, alive: bool, pid: i32)
    ensures
        after_alive(state, alive).1 == PortAction::Kill(pid) <==> state == PortState::Asked(pid)
            && alive,
        after_alive(PortState::Asked(pid), alive).1 == PortAction::Stop(true) <==> !alive,
        after_alive(PortState::Killed(pid), alive).1 == PortAction::Stop(!alive),
        forall|probe: Probe, result: ProbeResult| #[trigger]
            after_probe(probe, probe_says(probe, result)).1 != PortAction::Kill(pid),
{
}

/// The argument of a probe that names the port.
pub fn probe_command(probe: Probe, port: u16) -> (r: String)
    ensures
        r@ == match probe {
            Probe::Fuser => decimal(port as nat) + "/tcp"@,
            Probe::Lsof => "lsof -ti :"@ + decimal(port as nat) + " 2>/dev/null"@,
            Probe::Ss => "ss -tlnp sport = :"@ + decimal(port as nat)
                + " 2>/dev/null | grep -oP 'pid=\\K\\d+'"@,
        },
{
    let number = show(port as u128);
    match probe {
        Probe::Fuser => {
            let mut s = number;
            s.append("/tcp");
            s
        },
        Probe::Lsof => {
            let mut s = "lsof -ti :".to_string();
            s.append(number.as_str());
            s.append(" 2>/dev/null");
            s
        },
        Probe::Ss => {
            let mut s = "ss -tlnp sport = :".to_string();
            s.append(number.as_str());
            s.append(" 2>/dev/null | grep -oP 'pid=\\K\\d+'");
            s
        },
    }
}

/// The order in which a port is freed: `fuser`, `lsof` and `ss` are tried in
/// turn as long as they find nothing. A probe that is missing, and one that
/// names no process, end the search with a free port; a process that is named
/// is asked to end.
pub proof fn law_probing(output: String, probe: Probe)
    ensures
        after_probe(Probe::Fuser, probe_says(Probe::Fuser, ProbeResult::Nothing)) == (
            PortState::Probing(Probe::Lsof),
            PortAction::Run(Probe::Lsof),
        ),
        after_probe(Probe::Lsof, probe_says(Probe::Lsof, ProbeResult::Nothing)) == (
            PortState::Probing(Probe::Ss),
            PortAction::Run(Probe::Ss),
        ),
        after_probe(Probe::Ss, probe_says(Probe::Ss, ProbeResult::Nothing)) == (
            PortState::Done(true),
            PortAction::Stop(true),
        ),
        after_probe(probe, probe_says(probe, ProbeResult::Missing)) == (
            PortState::Done(true),
            PortAction::Stop(true),
        ),
        ({
            let next = after_probe(probe, probe_says(probe, ProbeResult::Found(output)));
            &&& probed_pid(probe, output@) is None ==> next == (
                PortState::Done(true),
                PortAction::Stop(true),
            )
            &&& probed_pid(probe, output@) matches Some(pid) ==> next == (
                PortState::Asked(pid as i32),
                PortAction::Terminate(pid as i32),
            )
        }),
{
}

/// The process that a probe names: the last word of what `fuser` writes, the
/// last line of what the others write, if it is a number.
pub proof fn law_probed_process(output: Seq<char>)
    ensures
        last_word(output) is None ==> probed_pid(Probe::Fuser, output) is None,
        last_word(output) matches Some(w) ==> probed_pid(Probe::Fuser, output) == signed_number(w),
        probed_pid(Probe::Lsof, output) == signed_number(split(trimmed(output), '\n').last()),
        probed_pid(Probe::Ss, output) == signed_number(split(trimmed(output), '\n').last()),
{
}

/// After a request to end: a process that is gone leaves the port free, one
/// that is still there is killed, and one that survives that keeps the port.
pub proof fn law_ending_a_process(pid: i32, free: bool, alive: bool, probe: Probe)
    ensures
        after_alive(PortState::Asked(pid), true) == (PortState::Killed(pid), PortAction::Kill(pid)),
        after_alive(PortState::Asked(pid), false) == (PortState::Done(true), PortAction::Stop(true)),
        after_alive(PortState::Killed(pid), alive) == (
            PortState::Done(!alive),
            PortAction::Stop(!alive),
        ),
        after_alive(PortState::Done(free), alive) == (PortState::Done(free), PortAction::Stop(free)),
        after_alive(PortState::Probing(probe), alive) == (
            PortState::Probing(probe),
            PortAction::Run(probe),
        ),
{
}

/// The user interface is told the name of the tool and its result, an error
/// marked as one.
pub proof fn law_tool_result_is_told(call: ToolCallView, text: Seq<char>)
    ensures
        tool_result_event(call, Ok(text)) == (FrontendEventView::ToolResult {
            tool_name: call.function.name,
            result: text,
        }),
        tool_result_event(call, Err(text)) == (FrontendEventView::ToolResult {
            tool_name: call.function.name,
            result: "Error: "@ + text,
        }),
{
}

/// What is seen of an event is what it holds, under the same names.
pub proof fn law_event_view(a: String, b: String)
    ensures
        (FrontendEvent::AgentMessage { content: a })@ == (FrontendEventView::AgentMessage {
            content: a@,
        }),
        FrontendEvent::Ping@ is Ping,
        (FrontendEvent::ToolExecuting { tool_name: a, arguments: b })@ == (
        FrontendEventView::ToolExecuting { tool_name: a@, arguments: b@ }),
        (FrontendEvent::ToolResult { tool_name: a, result: b })@ == (
        FrontendEventView::ToolResult { tool_name: a@, result: b@ }),
        (FrontendEvent::SafetyReviewRequired { tool_name: a, reason: b })@ == (
        FrontendEventView::SafetyReviewRequired { tool_name: a@, reason: b@ }),
        (FrontendEvent::ContextBranched { branch_name: a, source_branch: b })@ == (
        FrontendEventView::ContextBranched { branch_name: a@, source_branch: b@ }),
        (FrontendEvent::ModelInfo { model_name: a })@ == (FrontendEventView::ModelInfo {
            model_name: a@,
        }),
        (FrontendEvent::PlanProgress { node: a, status: b })@ == (
        FrontendEventView::PlanProgress { node: a@, status: b@ }),
        (FrontendEvent::AgentActivity { text: a })@ == (FrontendEventView::AgentActivity {
            text: a@,
        }),
{
}

} // verus!
