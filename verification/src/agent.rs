//! The agent loop: model, safety, hooks, tools, context.
//!
//! One step of the loop is a machine. It says what has to be done next (ask
//! the model, ask the user, run a tool), and is told what came of it.

use vstd::prelude::*;
use crate::context::{
    compacted, is_uuid, range_to_compact, token_estimate, without_range, BranchView,
    CompactionConfig, ContextManager, ContextView,
};
use crate::provider::{ProviderError, ProviderErrorView};
use crate::safety::{
    before_call, default_pipeline, default_verdict, holds_call, is_call_at, makes_call, repeats,
    security_verdict, spoken, verdict_from, DecisionView, SafetyDecision, SafetyPipeline,
    SafetyStage, Stage,
};
use crate::stream::{all_text, law_chunking, StreamAccumulator, StreamView};
use crate::text::{chars_of, join, joined, opt_text, text_result, texts, trim, trimmed};
use crate::tool_routing::platform::{register_platform_tools, with_platform, Tool};
use crate::tool_routing::{routed, AsyncTool, ToolRouter};
use crate::types::{
    call_views, copy_calls, copy_messages, copy_range, message_views, plain_message,
    tool_message, ChatChunk, ChatChunkView, FunctionCallView, Message, MessageView, Role, ToolCall, ToolCallView,
};

verus! {

// ---------------------------------------------------------------------------
// Errors
// ---------------------------------------------------------------------------

/// What can go wrong in the agent loop.
#[derive(Debug, PartialEq, Eq)]
pub enum AgentError {
    Provider(ProviderError),
    SafetyViolation(String),
    ToolExecution(String),
    Io(String),
    UserAbort,
}

pub enum AgentErrorView {
    Provider(ProviderErrorView),
    SafetyViolation(Seq<char>),
    ToolExecution(Seq<char>),
    Io(Seq<char>),
    UserAbort,
}

impl View for AgentError {
    type V = AgentErrorView;

    open spec fn view(&self) -> AgentErrorView {
        match *self {
            AgentError::Provider(e) => AgentErrorView::Provider(e@),
            AgentError::SafetyViolation(s) => AgentErrorView::SafetyViolation(s@),
            AgentError::ToolExecution(s) => AgentErrorView::ToolExecution(s@),
            AgentError::Io(s) => AgentErrorView::Io(s@),
            AgentError::UserAbort => AgentErrorView::UserAbort,
        }
    }
}

impl AgentErrorView {
    /// The error in words.
    pub open spec fn in_words(self) -> Seq<char> {
        match self {
            AgentErrorView::Provider(e) => "Provider error: "@ + e.in_words(),
            AgentErrorView::SafetyViolation(s) => "Safety violation: "@ + s,
            AgentErrorView::ToolExecution(s) => "Tool execution failed: "@ + s,
            AgentErrorView::Io(s) => "I/O error: "@ + s,
            AgentErrorView::UserAbort => "User aborted execution"@,
        }
    }
}

impl AgentError {
    /// The error in words.
    pub fn text(&self) -> (r: String)
        ensures
            r@ == self@.in_words(),
    {
        match self {
            AgentError::Provider(e) => "Provider error: ".to_string().concat(e.text().as_str()),
            AgentError::SafetyViolation(s) => "Safety violation: ".to_string().concat(s.as_str()),
            AgentError::ToolExecution(s) => "Tool execution failed: ".to_string().concat(
                s.as_str(),
            ),
            AgentError::Io(s) => "I/O error: ".to_string().concat(s.as_str()),
            AgentError::UserAbort => "User aborted execution".to_string(),
        }
    }
}

// ---------------------------------------------------------------------------
// The agent
// ---------------------------------------------------------------------------

/// What the loop works on: the conversation, the tools and the rules. Besides
/// the tools of the platform there may be tools of the type `T`.
pub struct Agent<T: AsyncTool, S: SafetyStage> {
    pub context: ContextManager,
    pub router: ToolRouter<Tool<T>>,
    pub safety: SafetyPipeline<S>,
    pub compaction_config: CompactionConfig,
    /// The most steps of one run; 0 means no limit.
    pub max_steps: usize,
    /// Let every call pass without asking the safety stages.
    pub safety_auto_approve: bool,
}

pub struct AgentView<T: AsyncTool, S: SafetyStage> {
    pub context: ContextView,
    pub tools: Map<Seq<char>, Tool<T>>,
    pub stages: Seq<S>,
    pub compaction_config: CompactionConfig,
    pub max_steps: usize,
    pub safety_auto_approve: bool,
}

impl<T: AsyncTool, S: SafetyStage> View for Agent<T, S> {
    type V = AgentView<T, S>;

    open spec fn view(&self) -> AgentView<T, S> {
        AgentView {
            context: self.context@,
            tools: self.router@,
            stages: self.safety.chain(),
            compaction_config: self.compaction_config,
            max_steps: self.max_steps,
            safety_auto_approve: self.safety_auto_approve,
        }
    }
}

impl<T: AsyncTool> Agent<T, Stage> {
    /// An agent with an empty context, the default safety pipeline and all
    /// tools of the platform (`read_file`, `write_file`, `glob`, `grep`).
    pub fn new() -> (r: Self)
        ensures
            r.wf(),
            is_uuid(r@.context.current),
            r@.context.branches == Map::empty().insert(
                r@.context.current,
                BranchView::fresh(r@.context.current, "main"@),
            ),
            r@.context.messages().len() == 0,
            r@.context.here().name == "main"@,
            r@.tools == with_platform(Map::<Seq<char>, Tool<T>>::empty()),
            r@.stages.len() == 5,
            forall|call: ToolCallView, context: Seq<MessageView>| #[trigger]
                r.safety.verdict(call, context) == default_verdict(call, context),
            r.compaction_config.max_messages == 15,
            r.compaction_config.reserve_recent == 4,
            r.max_steps == 0,
            !r.safety_auto_approve,
    {
        let mut router: ToolRouter<Tool<T>> = ToolRouter::new();
        register_platform_tools(&mut router);
        Agent {
            context: ContextManager::new(),
            router,
            safety: default_pipeline(),
            compaction_config: CompactionConfig::default(),
            max_steps: 0,
            safety_auto_approve: false,
        }
    }
}

// ---------------------------------------------------------------------------
// States, actions and events of a step
// ---------------------------------------------------------------------------

/// Where a step stands.
pub enum Step {
    /// Waiting for the summary of the messages `start..end`; `last` tells
    /// whether the step is over then, `memory` whether there is a long-term
    /// memory to ask otherwise.
    Compacting { last: bool, memory: bool, start: usize, end: usize },
    /// Waiting for facts from the long-term memory.
    Recalling,
    /// Waiting for the answer of the model.
    Asking { retried: bool },
    /// The call `next` is to be judged.
    Judging { calls: Vec<ToolCall>, next: usize },
    /// Waiting for the user's consent to the call `next`.
    Approving { calls: Vec<ToolCall>, next: usize },
    /// Waiting for the hooks on the call `next`.
    Hooking { calls: Vec<ToolCall>, next: usize },
    /// Waiting for the tool of the call `next`.
    Executing { calls: Vec<ToolCall>, next: usize },
    /// The step is over.
    Finished,
}

pub enum StepView {
    Compacting { last: bool, memory: bool, start: nat, end: nat },
    Recalling,
    Asking { retried: bool },
    Judging { calls: Seq<ToolCallView>, next: nat },
    Approving { calls: Seq<ToolCallView>, next: nat },
    Hooking { calls: Seq<ToolCallView>, next: nat },
    Executing { calls: Seq<ToolCallView>, next: nat },
    Finished,
}

impl View for Step {
    type V = StepView;

    open spec fn view(&self) -> StepView {
        match *self {
            Step::Compacting { last, memory, start, end } => StepView::Compacting {
                last,
                memory,
                start: start as nat,
                end: end as nat,
            },
            Step::Recalling => StepView::Recalling,
            Step::Asking { retried } => StepView::Asking { retried },
            Step::Judging { calls, next } => StepView::Judging {
                calls: call_views(calls@),
                next: next as nat,
            },
            Step::Approving { calls, next } => StepView::Approving {
                calls: call_views(calls@),
                next: next as nat,
            },
            Step::Hooking { calls, next } => StepView::Hooking {
                calls: call_views(calls@),
                next: next as nat,
            },
            Step::Executing { calls, next } => StepView::Executing {
                calls: call_views(calls@),
                next: next as nat,
            },
            Step::Finished => StepView::Finished,
        }
    }
}

/// What has to be done next.
#[derive(Debug, PartialEq, Eq)]
pub enum Action {
    /// Have the model summarise; no tools.
    Summarize { messages: Vec<Message> },
    /// Look up the long-term memory for what belongs to this text.
    Recall { text: String },
    /// Have the model answer, with or without the definitions of the tools.
    Ask { messages: Vec<Message>, with_tools: bool },
    /// Have this call judged.
    Judge { call: ToolCall },
    /// Ask the user.
    Approve { tool_name: String, reason: String },
    /// Let the hooks see the call.
    RunHooks { call: ToolCall },
    /// Run the tool.
    Execute { call: ToolCall },
    /// The step is over. The answer is the text of a reply that makes no
    /// calls, empty where the reply has none; without an answer another step
    /// is needed.
    Finish { answer: Option<String> },
    /// The step has failed.
    Fail { error: AgentError },
}

pub enum ActionView {
    Summarize { messages: Seq<MessageView> },
    Recall { text: Seq<char> },
    Ask { messages: Seq<MessageView>, with_tools: bool },
    Judge { call: ToolCallView },
    Approve { tool_name: Seq<char>, reason: Seq<char> },
    RunHooks { call: ToolCallView },
    Execute { call: ToolCallView },
    Finish { answer: Option<Seq<char>> },
    Fail { error: AgentErrorView },
}

impl View for Action {
    type V = ActionView;

    open spec fn view(&self) -> ActionView {
        match *self {
            Action::Summarize { messages } => ActionView::Summarize {
                messages: message_views(messages@),
            },
            Action::Recall { text } => ActionView::Recall { text: text@ },
            Action::Ask { messages, with_tools } => ActionView::Ask {
                messages: message_views(messages@),
                with_tools,
            },
            Action::Judge { call } => ActionView::Judge { call: call@ },
            Action::Approve { tool_name, reason } => ActionView::Approve {
                tool_name: tool_name@,
                reason: reason@,
            },
            Action::RunHooks { call } => ActionView::RunHooks { call: call@ },
            Action::Execute { call } => ActionView::Execute { call: call@ },
            Action::Finish { answer } => ActionView::Finish {
                answer: opt_text(answer),
            },
            Action::Fail { error } => ActionView::Fail { error: error@ },
        }
    }
}

/// What came of an action.
pub enum Event {
    /// The summary; `None` if there is none.
    Summary(Option<String>),
    /// The facts of the long-term memory that are relevant.
    Facts(Vec<String>),
    /// The model took no request.
    Refused(ProviderError),
    /// The answer broke off.
    Broken(ProviderError),
    /// The answer, complete.
    Answer(Vec<ChatChunk>),
    /// Go on and judge the call.
    Judge,
    /// The user's decision.
    Approval(bool),
    /// The user could not be asked.
    InputFailed(String),
    /// The hooks have let the call pass, perhaps changed.
    Hooked(ToolCall),
    /// A hook has rejected the call, which may have been changed before.
    Rejected { call: ToolCall, reason: String },
    /// What the tool returned.
    Executed(Result<String, String>),
}

pub enum EventView {
    Summary(Option<Seq<char>>),
    Facts(Seq<Seq<char>>),
    Refused(ProviderErrorView),
    Broken(ProviderErrorView),
    Answer(Seq<ChatChunkView>),
    Judge,
    Approval(bool),
    InputFailed(Seq<char>),
    Hooked(ToolCallView),
    Rejected { call: ToolCallView, reason: Seq<char> },
    Executed(Result<Seq<char>, Seq<char>>),
}

pub open spec fn chunk_views(v: Seq<ChatChunk>) -> Seq<ChatChunkView> {
    v.map_values(|c: ChatChunk| c@)
}

impl View for Event {
    type V = EventView;

    open spec fn view(&self) -> EventView {
        match *self {
            Event::Summary(s) => EventView::Summary(opt_text(s)),
            Event::Facts(f) => EventView::Facts(texts(f@)),
            Event::Refused(e) => EventView::Refused(e@),
            Event::Broken(e) => EventView::Broken(e@),
            Event::Answer(c) => EventView::Answer(chunk_views(c@)),
            Event::Judge => EventView::Judge,
            Event::Approval(b) => EventView::Approval(b),
            Event::InputFailed(e) => EventView::InputFailed(e@),
            Event::Hooked(c) => EventView::Hooked(c@),
            Event::Rejected { call, reason } => EventView::Rejected {
                call: call@,
                reason: reason@,
            },
            Event::Executed(r) => EventView::Executed(text_result(r)),
        }
    }
}

// ---------------------------------------------------------------------------
// What a step decides
// ---------------------------------------------------------------------------

/// The estimate of tokens above which the context is compacted beforehand.
pub open spec fn token_limit() -> int {
    6000
}

/// The instruction to the model for a summary.
pub open spec fn summary_prompt() -> Seq<char> {
    "You are a conversation summarizer. Summarize the following conversation segment, preserving key facts, decisions, variable values, and tool execution results. Be concise but complete."@
}

/// The messages of the request for a summary.
pub open spec fn summary_request(msgs: Seq<MessageView>, start: int, end: int) -> Seq<MessageView> {
    seq![plain_message(Role::System, summary_prompt())] + msgs.subrange(start, end)
}

/// The text of the latest user message, if it has any.
pub open spec fn latest_user_text(msgs: Seq<MessageView>) -> Option<Seq<char>>
    decreases msgs.len(),
{
    if msgs.len() == 0 {
        None
    } else if msgs.last().role == Role::User {
        match msgs.last().content {
            Some(t) => if t.len() == 0 {
                None
            } else {
                Some(t)
            },
            None => None,
        }
    } else {
        latest_user_text(msgs.drop_last())
    }
}

/// The message that brings facts of the long-term memory in.
pub open spec fn background(facts: Seq<Seq<char>>) -> MessageView {
    plain_message(
        Role::System,
        "[LONG-TERM MEMORY BACKGROUND]: Relevant historical facts:\n\n"@ + joined(
            facts,
            "\n\n---\n\n"@,
        ),
    )
}

/// The tools are offered unless the model has just answered without using one.
pub open spec fn may_need_tools(msgs: Seq<MessageView>) -> bool {
    msgs.len() == 0 || msgs.last().role != Role::Assistant || msgs.last().tool_calls is Some
}

/// The position of the first tool message from `i` on; the length if there is
/// none.
pub open spec fn tool_from(msgs: Seq<MessageView>, i: nat) -> nat
    decreases msgs.len() - i,
{
    if i < msgs.len() && msgs[i as int].role != Role::Tool {
        tool_from(msgs, i + 1)
    } else {
        i
    }
}

/// The messages without the oldest tool result and the assistant message
/// directly before it.
pub open spec fn trimmed_messages(msgs: Seq<MessageView>) -> Seq<MessageView> {
    let i = tool_from(msgs, 0) as int;
    if i >= msgs.len() {
        msgs
    } else if i > 0 && msgs[i - 1].role == Role::Assistant {
        without_range(msgs, i - 1, i + 1)
    } else {
        without_range(msgs, i, i + 1)
    }
}

/// The message that a reply of the model amounts to.
pub open spec fn reply(chunks: Seq<ChatChunkView>) -> MessageView {
    StreamView::blank().with_chunks(chunks).message()
}

/// The text of a message, empty if it has none.
pub open spec fn text_of(msg: MessageView) -> Seq<char> {
    match msg.content {
        Some(text) => text,
        None => Seq::empty(),
    }
}

/// A typed answer that declines.
pub open spec fn declines(input: Seq<char>) -> bool {
    let t = trimmed(input);
    ||| t.len() == 1 && (t[0] == 'n' || t[0] == 'N')
    ||| t.len() == 2 && (t[0] == 'n' || t[0] == 'N') && (t[1] == 'o' || t[1] == 'O')
}

/// Whether a typed answer approves: anything but `n` and `no`, in upper or
/// lower case.
pub fn input_approves(input: &str) -> (r: bool)
    ensures
        r == !declines(input@),
{
    let t = chars_of(trim(input).as_str());
    if t.len() == 1 {
        !(t[0] == 'n' || t[0] == 'N')
    } else if t.len() == 2 {
        !((t[0] == 'n' || t[0] == 'N') && (t[1] == 'o' || t[1] == 'O'))
    } else {
        true
    }
}

impl<T: AsyncTool, S: SafetyStage> AgentView<T, S> {
    pub open spec fn messages(self) -> Seq<MessageView> {
        self.context.messages()
    }

    pub open spec fn with_messages(self, messages: Seq<MessageView>) -> AgentView<T, S> {
        AgentView { context: self.context.with_messages(messages), ..self }
    }

    /// What the safety stages say of a call now.
    pub open spec fn verdict(self, call: ToolCallView) -> DecisionView {
        verdict_from(self.stages, 0, call, self.messages())
    }

    /// Ask the model, with some messages in front of the conversation.
    pub open spec fn asks(self, extra: Seq<MessageView>, retried: bool) -> (StepView, ActionView) {
        (
            StepView::Asking { retried },
            ActionView::Ask {
                messages: extra + self.messages(),
                with_tools: self.tools != Map::<Seq<char>, Tool<T>>::empty() && may_need_tools(
                    self.messages(),
                ),
            },
        )
    }

    /// Look up the long-term memory if there is one and a question for it;
    /// otherwise ask the model.
    pub open spec fn recalls(self, memory: bool) -> (StepView, ActionView) {
        match latest_user_text(self.messages()) {
            Some(text) if memory => (StepView::Recalling, ActionView::Recall { text }),
            _ => self.asks(Seq::empty(), false),
        }
    }

    /// Compact if the branch is too long; otherwise go on.
    pub open spec fn compacts(self, last: bool, memory: bool) -> (StepView, ActionView) {
        match range_to_compact(self.messages(), self.compaction_config) {
            Some((start, end)) => (
                StepView::Compacting { last, memory, start, end },
                ActionView::Summarize {
                    messages: summary_request(self.messages(), start as int, end as int),
                },
            ),
            None => self.after_compaction(last, memory),
        }
    }

    /// What follows a compaction, whether or not it took place.
    pub open spec fn after_compaction(self, last: bool, memory: bool) -> (StepView, ActionView) {
        if last {
            (StepView::Finished, ActionView::Finish { answer: None })
        } else {
            self.recalls(memory)
        }
    }

    /// The beginning of a step.
    pub open spec fn begins(self, token_estimate: int, memory: bool) -> (StepView, ActionView) {
        if token_estimate > token_limit() {
            self.compacts(false, memory)
        } else {
            self.recalls(memory)
        }
    }

    /// The next call, or the end of the step when all are done.
    pub open spec fn goes_on(self, calls: Seq<ToolCallView>, next: nat) -> (StepView, ActionView) {
        if next < calls.len() {
            (StepView::Judging { calls, next }, ActionView::Judge { call: calls[next as int] })
        } else {
            self.compacts(true, false)
        }
    }

    /// The verdict on a call.
    pub open spec fn judged(self, calls: Seq<ToolCallView>, next: nat) -> (StepView, ActionView) {
        let call = calls[next as int];
        let pass = (StepView::Hooking { calls, next }, ActionView::RunHooks { call });
        if self.safety_auto_approve {
            pass
        } else {
            match self.verdict(call) {
                DecisionView::Allow => pass,
                DecisionView::Deny(reason) => fails(AgentErrorView::SafetyViolation(reason)),
                DecisionView::RequiresApproval(reason) => (
                    StepView::Approving { calls, next },
                    ActionView::Approve { tool_name: call.function.name, reason },
                ),
            }
        }
    }

    /// The text that goes into the context for a tool's outcome. An error is
    /// a result like any other: the model is told, and the loop goes on.
    pub open spec fn tool_text(
        self,
        call: ToolCallView,
        outcome: Result<Seq<char>, Seq<char>>,
    ) -> MessageView {
        match routed(self.tools, call, outcome) {
            Ok(msg) => msg,
            Err(e) => tool_message(call.id, e),
        }
    }

    /// The step after an event: the agent, where the step stands and what to
    /// do.
    pub open spec fn advanced(self, step: StepView, event: EventView) -> (
        AgentView<T, S>,
        (StepView, ActionView),
    ) {
        match (step, event) {
            (
                StepView::Compacting { last, memory, start, end },
                EventView::Summary(summary),
            ) => match summary {
                Some(s) if s.len() > 0 => {
                    let a = self.with_messages(
                        compacted(self.messages(), s, start as int, end as int),
                    );
                    (a, a.after_compaction(last, memory))
                },
                _ => (self, self.after_compaction(last, memory)),
            },
            (StepView::Recalling, EventView::Facts(facts)) => if facts.len() == 0 {
                (self, self.asks(Seq::empty(), false))
            } else {
                (self, self.asks(seq![background(facts)], false))
            },
            (StepView::Asking { retried }, EventView::Refused(e)) => match e {
                ProviderErrorView::ApiError { status, body } if status == 413 && !retried => {
                    let a = self.with_messages(trimmed_messages(self.messages()));
                    (a, a.asks(Seq::empty(), true))
                },
                _ => (self, fails(AgentErrorView::Provider(e))),
            },
            (StepView::Asking { retried }, EventView::Broken(e)) => (
                self,
                fails(AgentErrorView::Provider(e)),
            ),
            (StepView::Asking { retried }, EventView::Answer(chunks)) => {
                let msg = reply(chunks);
                let a = self.with_messages(self.messages().push(msg));
                match msg.tool_calls {
                    None => (
                        a,
                        (StepView::Finished, ActionView::Finish { answer: Some(text_of(msg)) }),
                    ),
                    Some(calls) => (a, a.goes_on(calls, 0)),
                }
            },
            (StepView::Judging { calls, next }, EventView::Judge) => (
                self,
                self.judged(calls, next),
            ),
            (StepView::Approving { calls, next }, EventView::Approval(yes)) => (
                self,
                if yes {
                    (
                        StepView::Hooking { calls, next },
                        ActionView::RunHooks { call: calls[next as int] },
                    )
                } else {
                    fails(AgentErrorView::UserAbort)
                },
            ),
            (StepView::Approving { calls, next }, EventView::InputFailed(e)) => (
                self,
                fails(AgentErrorView::Io(e)),
            ),
            (StepView::Hooking { calls, next }, EventView::Hooked(call)) => (
                self,
                (
                    StepView::Executing { calls: calls.update(next as int, call), next },
                    ActionView::Execute { call },
                ),
            ),
            (StepView::Hooking { calls, next }, EventView::Rejected { call, reason }) => (
                self,
                fails(
                    AgentErrorView::ToolExecution(
                        "PreToolHook rejected call '"@ + call.function.name + "': "@ + reason,
                    ),
                ),
            ),
            (StepView::Executing { calls, next }, EventView::Executed(outcome)) => {
                let msg = self.tool_text(calls[next as int], outcome);
                let a = self.with_messages(self.messages().push(msg));
                (a, a.goes_on(calls, next + 1))
            },
            _ => (self, (step, ActionView::Finish { answer: None })),
        }
    }

    /// The numbers of the step fit the agent.
    pub open spec fn sound(self, step: StepView) -> bool {
        match step {
            StepView::Compacting { last, memory, start, end } => start <= end
                <= self.messages().len(),
            StepView::Judging { calls, next } => next < calls.len(),
            StepView::Approving { calls, next } => next < calls.len(),
            StepView::Hooking { calls, next } => next < calls.len(),
            StepView::Executing { calls, next } => next < calls.len(),
            _ => true,
        }
    }

    /// The event belongs to the step.
    pub open spec fn expects(self, step: StepView, event: EventView) -> bool {
        &&& self.sound(step)
        &&& match (step, event) {
            (
                StepView::Compacting { last, memory, start, end },
                EventView::Summary(summary),
            ) => true,
            (StepView::Recalling, EventView::Facts(facts)) => true,
            (StepView::Asking { retried }, EventView::Refused(e)) => true,
            (StepView::Asking { retried }, EventView::Broken(e)) => true,
            (StepView::Asking { retried }, EventView::Answer(chunks)) => true,
            (StepView::Judging { calls, next }, EventView::Judge) => true,
            (StepView::Approving { calls, next }, EventView::Approval(yes)) => true,
            (StepView::Approving { calls, next }, EventView::InputFailed(e)) => true,
            (StepView::Hooking { calls, next }, EventView::Hooked(call)) => true,
            (StepView::Hooking { calls, next }, EventView::Rejected { call, reason }) => true,
            (StepView::Executing { calls, next }, EventView::Executed(outcome)) => true,
            _ => false,
        }
    }
}

/// The end of a step with an error.
pub open spec fn fails(error: AgentErrorView) -> (StepView, ActionView) {
    (StepView::Finished, ActionView::Fail { error })
}

pub open spec fn pair_view(p: (Step, Action)) -> (StepView, ActionView) {
    (p.0@, p.1@)
}

fn failed(error: AgentError) -> (r: (Step, Action))
    ensures
        pair_view(r) == fails(error@),
{
    (Step::Finished, Action::Fail { error })
}

impl<T: AsyncTool, S: SafetyStage> Agent<T, S> {
    pub open spec fn wf(&self) -> bool {
        self.context.wf() && self.router.wf()
    }

    /// Everything but the conversation is as before.
    pub open spec fn same_rules(&self, other: &Agent<T, S>) -> bool {
        &&& self.router == other.router
        &&& self.safety == other.safety
        &&& self.compaction_config == other.compaction_config
        &&& self.max_steps == other.max_steps
        &&& self.safety_auto_approve == other.safety_auto_approve
    }

    fn ask(&self, extra: Vec<Message>, retried: bool) -> (r: (Step, Action))
        requires
            self.wf(),
        ensures
            pair_view(r) == self@.asks(message_views(extra@), retried),
    {
        let ghost front = message_views(extra@);
        let msgs = self.context.current_messages();
        let mut all = extra;
        let mut rest = copy_messages(msgs);
        let ghost back = rest@;
        let ghost before = all@;
        all.append(&mut rest);
        assert(message_views(all@) =~= message_views(before) + message_views(back));
        let with_tools = if self.router.is_empty() {
            false
        } else if msgs.len() == 0 {
            true
        } else {
            let last = &msgs[msgs.len() - 1];
            assert(self@.messages().last() == last@);
            last.role != Role::Assistant || last.tool_calls.is_some()
        };
        (Step::Asking { retried }, Action::Ask { messages: all, with_tools })
    }

    fn ask_plain(&self, retried: bool) -> (r: (Step, Action))
        requires
            self.wf(),
        ensures
            pair_view(r) == self@.asks(Seq::empty(), retried),
    {
        let none: Vec<Message> = Vec::new();
        assert(message_views(none@) =~= Seq::empty());
        self.ask(none, retried)
    }

    fn recall(&self, memory: bool) -> (r: (Step, Action))
        requires
            self.wf(),
        ensures
            pair_view(r) == self@.recalls(memory),
    {
        if !memory {
            return self.ask_plain(false);
        }
        let msgs = self.context.current_messages();
        let ghost all = self@.messages();
        let mut left: usize = msgs.len();
        assert(all.take(left as int) =~= all);
        while left > 0
            invariant
                left <= msgs@.len(),
                all == message_views(msgs@),
                all == self@.messages(),
                self.wf(),
                memory,
                latest_user_text(all) == latest_user_text(all.take(left as int)),
            decreases left,
        {
            let msg = &msgs[left - 1];
            proof {
                assert(all.take(left as int).last() == msg@);
                assert(all.take(left as int).drop_last() =~= all.take(left - 1));
            }
            if msg.role == Role::User {
                match &msg.content {
                    Some(text) => {
                        if !text.as_str().is_empty() {
                            return (Step::Recalling, Action::Recall { text: text.clone() });
                        }
                    },
                    None => {},
                }
                return self.ask_plain(false);
            }
            left -= 1;
        }
        self.ask_plain(false)
    }

    fn after_compaction(&self, last: bool, memory: bool) -> (r: (Step, Action))
        requires
            self.wf(),
        ensures
            pair_view(r) == self@.after_compaction(last, memory),
    {
        if last {
            (Step::Finished, Action::Finish { answer: None })
        } else {
            self.recall(memory)
        }
    }

    fn compact_if_needed(&self, last: bool, memory: bool) -> (r: (Step, Action))
        requires
            self.wf(),
        ensures
            pair_view(r) == self@.compacts(last, memory),
    {
        match self.context.compaction_range(&self.compaction_config) {
            Some((start, end)) => {
                let msgs = self.context.current_messages();
                let mut request: Vec<Message> = Vec::new();
                request.push(
                    Message::new(
                        Role::System,
                        "You are a conversation summarizer. Summarize the following conversation segment, preserving key facts, decisions, variable values, and tool execution results. Be concise but complete.",
                    ),
                );
                let ghost front = request@;
                let mut part = copy_range(msgs, start, end);
                let ghost back = part@;
                request.append(&mut part);
                assert(message_views(request@) =~= message_views(front) + message_views(back));
                assert(message_views(front) =~= seq![
                    plain_message(Role::System, summary_prompt()),
                ]);
                (
                    Step::Compacting { last, memory, start, end },
                    Action::Summarize { messages: request },
                )
            },
            None => self.after_compaction(last, memory),
        }
    }

    fn go_on(&self, calls: Vec<ToolCall>, next: usize) -> (r: (Step, Action))
        requires
            self.wf(),
        ensures
            pair_view(r) == self@.goes_on(call_views(calls@), next as nat),
    {
        if next < calls.len() {
            let call = calls[next].clone();
            (Step::Judging { calls, next }, Action::Judge { call })
        } else {
            self.compact_if_needed(true, false)
        }
    }

    fn judge(&self, calls: Vec<ToolCall>, next: usize) -> (r: (Step, Action))
        requires
            self.wf(),
            next < calls@.len(),
        ensures
            pair_view(r) == self@.judged(call_views(calls@), next as nat),
    {
        let call = calls[next].clone();
        if self.safety_auto_approve {
            return (Step::Hooking { calls, next }, Action::RunHooks { call });
        }
        match self.safety.verify(&call, self.context.current_messages()) {
            SafetyDecision::Allow => (Step::Hooking { calls, next }, Action::RunHooks { call }),
            SafetyDecision::Deny(reason) => failed(AgentError::SafetyViolation(reason)),
            SafetyDecision::RequiresApproval(reason) => (
                Step::Approving { calls, next },
                Action::Approve { tool_name: call.function.name, reason },
            ),
        }
    }

    /// Take the oldest tool result out of the context, with the assistant
    /// message directly before it, so that a request that was too large can be
    /// tried again.
    pub fn trim_context_for_retry(&mut self)
        requires
            old(self).wf(),
        ensures
            final(self).wf(),
            final(self).same_rules(old(self)),
            final(self)@ == old(self)@.with_messages(trimmed_messages(old(self)@.messages())),
    {
        let msgs = self.context.current_messages();
        let ghost all = self@.messages();
        let total: usize = msgs.len();
        let mut i: usize = 0;
        while i < total && msgs[i].role != Role::Tool
            invariant
                i <= total,
                total == msgs@.len(),
                all == message_views(msgs@),
                tool_from(all, 0) == tool_from(all, i as nat),
            decreases total - i,
        {
            assert(all[i as int] == msgs@[i as int]@);
            i += 1;
        }
        if i == total {
            assert(self.context@.with_messages(all) =~= self.context@) by {
                assert(self.context@.branches.insert(
                    self.context@.current,
                    self.context@.here().with_messages(all),
                ) =~= self.context@.branches);
            }
            return ;
        }
        assert(all[i as int] == msgs@[i as int]@);
        let start: usize = if i > 0 && msgs[i - 1].role == Role::Assistant {
            i - 1
        } else {
            i
        };
        assert(i > 0 ==> all[i - 1] == msgs@[i - 1]@);
        self.context.remove_range(start, i + 1);
    }

    /// Begin a step; `memory` tells whether there is a long-term memory.
    pub fn begin_step(&self, memory: bool) -> (r: (Step, Action))
        requires
            self.wf(),
        ensures
            pair_view(r) == self@.begins(token_estimate(self@.messages()), memory),
    {
        self.begin_step_at(self.context.estimate_tokens(), memory)
    }

    /// Begin a step with a given estimate of the size of the current branch.
    pub fn begin_step_at(&self, token_estimate: usize, memory: bool) -> (r: (Step, Action))
        requires
            self.wf(),
        ensures
            pair_view(r) == self@.begins(token_estimate as int, memory),
    {
        if token_estimate > 6000 {
            self.compact_if_needed(false, memory)
        } else {
            self.recall(memory)
        }
    }

    fn answered(&mut self, chunks: Vec<ChatChunk>) -> (r: (Step, Action))
        requires
            old(self).wf(),
        ensures
            final(self).wf(),
            final(self).same_rules(old(self)),
            (final(self)@, pair_view(r)) == old(self)@.advanced(
                StepView::Asking { retried: false },
                EventView::Answer(chunk_views(chunks@)),
            ),
    {
        let ghost all = chunk_views(chunks@);
        let mut acc = StreamAccumulator::new();
        let mut i: usize = 0;
        assert(all.take(0) =~= Seq::empty());
        while i < chunks.len()
            invariant
                i <= chunks@.len(),
                acc.wf(),
                all == chunk_views(chunks@),
                acc@ == StreamView::blank().with_chunks(all.take(i as int)),
            decreases chunks@.len() - i,
        {
            acc.push(&chunks[i]);
            proof {
                let next = all.take(i + 1);
                assert(next.drop_last() =~= all.take(i as int));
                assert(next.last() == chunks@[i as int]@);
            }
            i += 1;
        }
        assert(all.take(i as int) =~= all);
        let msg = acc.into_message();
        let answer = match &msg.content {
            Some(text) => text.clone(),
            None => String::new(),
        };
        let calls: Option<Vec<ToolCall>> = match &msg.tool_calls {
            Some(v) => Some(copy_calls(v)),
            None => None,
        };
        self.context.push(msg);
        match calls {
            None => (Step::Finished, Action::Finish { answer: Some(answer) }),
            Some(calls) => self.go_on(calls, 0),
        }
    }

    fn executed(
        &mut self,
        calls: Vec<ToolCall>,
        next: usize,
        outcome: Result<String, String>,
    ) -> (r: (Step, Action))
        requires
            old(self).wf(),
            next < calls@.len(),
        ensures
            final(self).wf(),
            final(self).same_rules(old(self)),
            (final(self)@, pair_view(r)) == old(self)@.advanced(
                StepView::Executing { calls: call_views(calls@), next: next as nat },
                EventView::Executed(text_result(outcome)),
            ),
    {
        assert(call_views(calls@)[next as int] == calls@[next as int]@);
        let msg = match self.router.route(&calls[next], outcome) {
            Ok(m) => m,
            Err(e) => Message::tool_result(&calls[next].id, e),
        };
        self.context.push(msg);
        let count: usize = calls.len();
        assert(next < count);
        self.go_on(calls, next + 1)
    }

    /// Go on with a step after something has happened.
    pub fn advance(&mut self, step: Step, event: Event) -> (r: (Step, Action))
        requires
            old(self).wf(),
            old(self)@.expects(step@, event@),
        ensures
            final(self).wf(),
            final(self).same_rules(old(self)),
            (final(self)@, pair_view(r)) == old(self)@.advanced(step@, event@),
    {
        match (step, event) {
            (Step::Compacting { last, memory, start, end }, Event::Summary(summary)) => {
                match summary {
                    Some(s) => {
                        if !s.as_str().is_empty() {
                            self.context.compact(s, start, end);
                        }
                    },
                    None => {},
                }
                self.after_compaction(last, memory)
            },
            (Step::Recalling, Event::Facts(facts)) => {
                if facts.len() == 0 {
                    return self.ask_plain(false);
                }
                let mut text = "[LONG-TERM MEMORY BACKGROUND]: Relevant historical facts:\n\n".to_string();
                text.append(join(&facts, "\n\n---\n\n").as_str());
                let mut extra: Vec<Message> = Vec::new();
                extra.push(Message::new(Role::System, text));
                assert(message_views(extra@) =~= seq![background(texts(facts@))]);
                self.ask(extra, false)
            },
            (Step::Asking { retried }, Event::Refused(e)) => {
                match e {
                    ProviderError::ApiError { status, body } => {
                        if status == 413 && !retried {
                            self.trim_context_for_retry();
                            return self.ask_plain(true);
                        }
                        failed(AgentError::Provider(ProviderError::ApiError { status, body }))
                    },
                    other => failed(AgentError::Provider(other)),
                }
            },
            (Step::Asking { retried }, Event::Broken(e)) => failed(AgentError::Provider(e)),
            (Step::Asking { retried }, Event::Answer(chunks)) => self.answered(chunks),
            (Step::Judging { calls, next }, Event::Judge) => {
                assert(call_views(calls@)[next as int] == calls@[next as int]@);
                self.judge(calls, next)
            },
            (Step::Approving { calls, next }, Event::Approval(yes)) => {
                if yes {
                    assert(call_views(calls@)[next as int] == calls@[next as int]@);
                    let call = calls[next].clone();
                    (Step::Hooking { calls, next }, Action::RunHooks { call })
                } else {
                    failed(AgentError::UserAbort)
                }
            },
            (Step::Approving { calls, next }, Event::InputFailed(e)) => failed(AgentError::Io(e)),
            (Step::Hooking { calls, next }, Event::Hooked(call)) => {
                let ghost before = calls@;
                let mut changed = calls;
                let kept = call.clone();
                changed.set(next, call);
                assert(call_views(changed@) =~= call_views(before).update(next as int, call@));
                (Step::Executing { calls: changed, next }, Action::Execute { call: kept })
            },
            (Step::Hooking { calls, next }, Event::Rejected { call, reason }) => {
                let mut text = "PreToolHook rejected call '".to_string();
                text.append(call.function.name.as_str());
                text.append("': ");
                text.append(reason.as_str());
                failed(AgentError::ToolExecution(text))
            },
            (Step::Executing { calls, next }, Event::Executed(outcome)) => self.executed(
                calls,
                next,
                outcome,
            ),
            (step, _) => (step, Action::Finish { answer: None }),
        }
    }
}

// ---------------------------------------------------------------------------
// Laws of a step
// ---------------------------------------------------------------------------

proof fn lemma_range_fits(msgs: Seq<MessageView>, config: CompactionConfig)
    ensures
        range_to_compact(msgs, config) matches Some((start, end)) ==> start <= end <= msgs.len(),
{
}

/// A step never leaves the range of the messages and calls it works on, from
/// its beginning through every event that it expects.
pub proof fn law_steps_stay_sound<T: AsyncTool, S: SafetyStage>(
    a: AgentView<T, S>,
    token_estimate: int,
    memory: bool,
    step: StepView,
    event: EventView,
)
    ensures
        a.sound(a.begins(token_estimate, memory).0),
        a.expects(step, event) ==> a.advanced(step, event).0.sound(a.advanced(step, event).1.0),
{
    lemma_range_fits(a.messages(), a.compaction_config);
    let b = a.advanced(step, event).0;
    lemma_range_fits(b.messages(), b.compaction_config);
}

/// A tool runs only after the hooks, the hooks run only after the safety
/// stages have let the call pass or the user has agreed to it, and the user is
/// asked only where a stage wants it. A call that is denied ends the step.
pub proof fn law_consent_before_execution<T: AsyncTool, S: SafetyStage>(
    a: AgentView<T, S>,
    step: StepView,
    event: EventView,
)
    requires
        a.expects(step, event),
    ensures
        ({
            let (then_step, action) = a.advanced(step, event).1;
            &&& action is Execute ==> step is Hooking && event is Hooked
            &&& then_step is Executing ==> step is Hooking && event is Hooked
            &&& action is RunHooks || then_step is Hooking ==> (step matches StepView::Judging {
                calls,
                next,
            } && (a.safety_auto_approve || a.verdict(calls[next as int]) is Allow)) || (step is Approving
                && event == EventView::Approval(true))
            &&& action is Approve || then_step is Approving ==> (step matches StepView::Judging {
                calls,
                next,
            } && !a.safety_auto_approve && a.verdict(calls[next as int]) is RequiresApproval)
            &&& step matches StepView::Judging { calls, next } ==> a.safety_auto_approve || !(
            a.verdict(calls[next as int]) is Deny) || action is Fail
        }),
{
}

/// A request that is too large is tried once more with a smaller context, and
/// only once.
pub proof fn law_single_retry<T: AsyncTool, S: SafetyStage>(a: AgentView<T, S>, body: Seq<char>)
    ensures
        ({
            let e = ProviderErrorView::ApiError { status: 413, body };
            let (b, (step, action)) = a.advanced(
                StepView::Asking { retried: false },
                EventView::Refused(e),
            );
            &&& b.messages() == trimmed_messages(a.messages())
            &&& step == (StepView::Asking { retried: true })
            &&& action is Ask
            &&& action->Ask_messages == b.messages()
            &&& a.advanced(StepView::Asking { retried: true }, EventView::Refused(e)) == (
                a,
                fails(AgentErrorView::Provider(e)),
            )
        }),
{
    let m = trimmed_messages(a.messages());
    assert(Seq::<MessageView>::empty() + m =~= m);
}

/// Trimming takes out the oldest tool result, and with it at most the
/// assistant message directly before it; everything else stays in order.
pub proof fn law_trim(msgs: Seq<MessageView>)
    ensures
        ({
            let i = tool_from(msgs, 0) as int;
            let t = trimmed_messages(msgs);
            &&& 0 <= i <= msgs.len()
            &&& forall|j: int| 0 <= j < i ==> (#[trigger] msgs[j]).role != Role::Tool
            &&& i == msgs.len() ==> t == msgs
            &&& i < msgs.len() ==> msgs[i].role == Role::Tool && t.len() < msgs.len() && t.skip(
                t.len() - (msgs.len() - i - 1),
            ) == msgs.skip(i + 1)
            &&& i < msgs.len() && i > 0 && msgs[i - 1].role == Role::Assistant ==> t.take(i - 1)
                == msgs.take(i - 1) && t.len() == msgs.len() - 2
            &&& i < msgs.len() && !(i > 0 && msgs[i - 1].role == Role::Assistant) ==> t.take(i)
                == msgs.take(i) && t.len() == msgs.len() - 1
        }),
{
    lemma_tool_from(msgs, 0);
    let i = tool_from(msgs, 0) as int;
    let t = trimmed_messages(msgs);
    if i < msgs.len() {
        assert(t.skip(t.len() - (msgs.len() - i - 1)) =~= msgs.skip(i + 1));
        if i > 0 && msgs[i - 1].role == Role::Assistant {
            assert(t.take(i - 1) =~= msgs.take(i - 1));
        } else {
            assert(t.take(i) =~= msgs.take(i));
        }
    }
}

proof fn lemma_tool_from(msgs: Seq<MessageView>, i: nat)
    requires
        i <= msgs.len(),
    ensures
        i <= tool_from(msgs, i) <= msgs.len(),
        forall|j: int| i <= j < tool_from(msgs, i) ==> (#[trigger] msgs[j]).role != Role::Tool,
        tool_from(msgs, i) < msgs.len() ==> msgs[tool_from(msgs, i) as int].role == Role::Tool,
    decreases msgs.len() - i,
{
    if i < msgs.len() && msgs[i as int].role != Role::Tool {
        lemma_tool_from(msgs, i + 1);
    }
}

/// Every call that is executed is answered in the context, under its own id,
/// and an error of the tool does not end the step.
pub proof fn law_every_execution_is_answered<T: AsyncTool, S: SafetyStage>(
    a: AgentView<T, S>,
    calls: Seq<ToolCallView>,
    next: nat,
    outcome: Result<Seq<char>, Seq<char>>,
)
    requires
        next < calls.len(),
    ensures
        ({
            let (b, (step, action)) = a.advanced(
                StepView::Executing { calls, next },
                EventView::Executed(outcome),
            );
            let answer = b.messages().last();
            &&& b.messages() == a.messages().push(answer)
            &&& answer.role == Role::Tool
            &&& answer.tool_call_id == Some(calls[next as int].id)
            &&& !(action is Fail)
            &&& outcome matches Err(e) ==> a.tools.contains_key(calls[next as int].function.name)
                ==> answer.content == Some(e)
        }),
{
    let msg = a.tool_text(calls[next as int], outcome);
    assert(a.messages().push(msg).last() == msg);
}

/// An event leaves the conversation alone, appends one message to it, replaces
/// the messages that were to be compacted by their summary, or trims it before
/// the retry; and a step that fails changes nothing.
pub proof fn law_conversation_is_kept<T: AsyncTool, S: SafetyStage>(
    a: AgentView<T, S>,
    step: StepView,
    event: EventView,
)
    requires
        a.expects(step, event),
    ensures
        ({
            let (b, (then_step, action)) = a.advanced(step, event);
            &&& {
                ||| b == a
                ||| b.messages().len() == a.messages().len() + 1 && b.messages().drop_last()
                    == a.messages()
                ||| step matches StepView::Compacting { last, memory, start, end }
                    && event matches EventView::Summary(Some(text)) && b.messages() == compacted(
                    a.messages(),
                    text,
                    start as int,
                    end as int,
                )
                ||| step == (StepView::Asking { retried: false }) && then_step == (
                StepView::Asking { retried: true }) && b.messages() == trimmed_messages(
                    a.messages(),
                )
            }
            &&& action is Fail ==> b == a
        }),
{
    let b = a.advanced(step, event).0;
    if event is Answer || event is Executed {
        assert(b.messages().drop_last() =~= a.messages());
    }
}

// ---------------------------------------------------------------------------
// Laws of an answer and of a loop
// ---------------------------------------------------------------------------

/// A reply that makes no calls ends the run: its text, empty or not, is the
/// answer, and the reply is the one message that is added to the conversation.
pub proof fn law_reply_without_calls_is_the_answer<T: AsyncTool, S: SafetyStage>(
    a: AgentView<T, S>,
    retried: bool,
    chunks: Seq<ChatChunkView>,
)
    requires
        reply(chunks).tool_calls is None,
    ensures
        ({
            let (b, (step, action)) = a.advanced(
                StepView::Asking { retried },
                EventView::Answer(chunks),
            );
            &&& step is Finished
            &&& action == (ActionView::Finish { answer: Some(all_text(chunks)) })
            &&& b.messages() == a.messages().push(reply(chunks))
        }),
{
    law_chunking(chunks);
    assert(text_of(reply(chunks)) =~= all_text(chunks));
}

/// The conversation ends, but for results of tools, with a message that holds
/// these calls from the given one on.
pub open spec fn pending(messages: Seq<MessageView>, calls: Seq<ToolCallView>, from: nat) -> bool {
    &&& spoken(messages).len() > 0
    &&& forall|k: int|
        from <= k < calls.len() ==> holds_call(spoken(messages).last(), #[trigger] calls[k])
}

impl<T: AsyncTool, S: SafetyStage> AgentView<T, S> {
    /// The calls that the step still has to judge stand in the message that is
    /// being worked on.
    pub open spec fn in_hand(self, step: StepView) -> bool {
        match step {
            StepView::Judging { calls, next } => pending(self.messages(), calls, next),
            StepView::Approving { calls, next } => pending(self.messages(), calls, next),
            StepView::Hooking { calls, next } => pending(self.messages(), calls, next),
            StepView::Executing { calls, next } => pending(self.messages(), calls, next + 1),
            _ => true,
        }
    }
}

/// A step judges only calls of the message that it works on: this holds at its
/// beginning and is kept by every event that it expects.
pub proof fn law_judged_calls_are_in_hand<T: AsyncTool, S: SafetyStage>(
    a: AgentView<T, S>,
    token_estimate: int,
    memory: bool,
    step: StepView,
    event: EventView,
)
    requires
        a.expects(step, event),
        a.in_hand(step),
    ensures
        a.in_hand(a.begins(token_estimate, memory).0),
        a.advanced(step, event).0.in_hand(a.advanced(step, event).1.0),
{
    match (step, event) {
        (StepView::Asking { retried }, EventView::Answer(chunks)) => {
            lemma_spoken_reply(a.messages(), chunks);
        },
        (StepView::Executing { calls, next }, EventView::Executed(outcome)) => {
            let msg = a.tool_text(calls[next as int], outcome);
            assert(a.messages().push(msg).drop_last() =~= a.messages());
        },
        (StepView::Hooking { calls, next }, EventView::Hooked(call)) => {
            assert forall|k: int| next + 1 <= k < calls.len() implies holds_call(
                spoken(a.messages()).last(),
                #[trigger] calls.update(next as int, call)[k],
            ) by {
                assert(calls.update(next as int, call)[k] == calls[k]);
            }
        },
        _ => {},
    }
}

/// While the calls of a reply are worked on, what was said before them is the
/// conversation before the reply; the results of its own tools do not change
/// that.
pub proof fn law_reply_is_not_before_its_calls<T: AsyncTool, S: SafetyStage>(
    a: AgentView<T, S>,
    retried: bool,
    chunks: Seq<ChatChunkView>,
    call: ToolCallView,
    calls: Seq<ToolCallView>,
    next: nat,
    outcome: Result<Seq<char>, Seq<char>>,
)
    ensures
        ({
            let b = a.advanced(StepView::Asking { retried }, EventView::Answer(chunks)).0;
            holds_call(reply(chunks), call) ==> before_call(call, b.messages()) == spoken(
                a.messages(),
            )
        }),
        ({
            let b = a.advanced(
                StepView::Executing { calls, next },
                EventView::Executed(outcome),
            ).0;
            before_call(call, b.messages()) == before_call(call, a.messages())
        }),
{
    lemma_spoken_reply(a.messages(), chunks);
    let msg = a.tool_text(calls[next as int], outcome);
    assert(a.messages().push(msg).drop_last() =~= a.messages());
}

proof fn lemma_spoken_reply(messages: Seq<MessageView>, chunks: Seq<ChatChunkView>)
    ensures
        spoken(messages.push(reply(chunks))) == spoken(messages).push(reply(chunks)),
        spoken(messages).push(reply(chunks)).drop_last() == spoken(messages),
{
    let msg = reply(chunks);
    assert(messages.push(msg).drop_last() =~= messages);
    assert(spoken(messages).push(msg).drop_last() =~= spoken(messages));
}

impl<T: AsyncTool, S: SafetyStage> AgentView<T, S> {
    /// The safety stages are asked, and judge as the default pipeline does.
    pub open spec fn judges_by_default(self) -> bool {
        &&& !self.safety_auto_approve
        &&& forall|call: ToolCallView, context: Seq<MessageView>| #[trigger]
            verdict_from(self.stages, 0, call, context) == default_verdict(call, context)
    }

    /// What comes of a reply when its first call is judged.
    pub open spec fn tries(self, chunks: Seq<ChatChunkView>) -> (
        AgentView<T, S>,
        (StepView, ActionView),
    ) {
        let (a, (step, action)) = self.advanced(
            StepView::Asking { retried: false },
            EventView::Answer(chunks),
        );
        a.advanced(step, EventView::Judge)
    }

    /// The agent after a reply whose first call went through the hooks as
    /// `call` and whose tool returned `outcome`.
    pub open spec fn after_round(
        self,
        chunks: Seq<ChatChunkView>,
        call: ToolCallView,
        outcome: Result<Seq<char>, Seq<char>>,
    ) -> AgentView<T, S> {
        let (a, (step, action)) = self.tries(chunks);
        let (b, (then_step, then_action)) = a.advanced(step, EventView::Hooked(call));
        b.advanced(then_step, EventView::Executed(outcome)).0
    }

    /// The same tools and rules as `other`, and a conversation that ends with
    /// the same `n` messages.
    pub open spec fn continues(self, other: AgentView<T, S>, n: nat) -> bool {
        let before = other.messages();
        let after = self.messages();
        &&& self.tools == other.tools
        &&& self.stages == other.stages
        &&& self.compaction_config == other.compaction_config
        &&& self.max_steps == other.max_steps
        &&& self.safety_auto_approve == other.safety_auto_approve
        &&& n <= before.len()
        &&& n <= after.len()
        &&& after.skip(after.len() - n) == before.skip(before.len() - n)
    }
}

/// The reply makes one call and no other, of this function.
pub open spec fn calls_only(chunks: Seq<ChatChunkView>, function: FunctionCallView) -> bool {
    reply(chunks).tool_calls matches Some(calls) && calls.len() == 1 && calls[0].function
        == function
}

/// Under the default rules a single call that is neither marked as an
/// injection nor a call of `execute_bash` runs if fewer than two messages in a
/// row before it make the same call, and ends the run otherwise. Results of
/// tools do not interrupt the row.
pub proof fn law_third_call_in_a_row<T: AsyncTool, S: SafetyStage>(
    a: AgentView<T, S>,
    chunks: Seq<ChatChunkView>,
    function: FunctionCallView,
)
    requires
        a.judges_by_default(),
        calls_only(chunks, function),
        function.name != "execute_bash"@,
        security_verdict(reply(chunks).tool_calls->0[0]) is Allow,
    ensures
        ({
            let row = repeats(spoken(a.messages()), function.name, function.arguments);
            let (step, action) = a.tries(chunks).1;
            &&& row < 2 ==> step is Hooking && action is RunHooks
            &&& row >= 2 ==> step is Finished && (action matches ActionView::Fail { error }
                && error is SafetyViolation)
        }),
{
    lemma_spoken_reply(a.messages(), chunks);
    assert(holds_call(reply(chunks), reply(chunks).tool_calls->0[0]));
}

#[verifier::rlimit(40)]
proof fn lemma_round<T: AsyncTool, S: SafetyStage>(
    a: AgentView<T, S>,
    chunks: Seq<ChatChunkView>,
    function: FunctionCallView,
    call: ToolCallView,
    outcome: Result<Seq<char>, Seq<char>>,
)
    requires
        calls_only(chunks, function),
        a.tries(chunks).1.0 is Hooking,
    ensures
        ({
            let b = a.after_round(chunks, call, outcome);
            &&& b.stages == a.stages
            &&& b.safety_auto_approve == a.safety_auto_approve
            &&& b.messages().len() == a.messages().len() + 2
            &&& b.messages().take(a.messages().len() as int) == a.messages()
            &&& b.messages()[a.messages().len() as int] == reply(chunks)
            &&& makes_call(reply(chunks), function.name, function.arguments)
            &&& b.messages().last().role == Role::Tool
        }),
{
    let m = reply(chunks);
    let calls = m.tool_calls->0;
    assert(is_call_at(calls, 0, function.name, function.arguments));
    let a1 = a.with_messages(a.messages().push(m));
    assert(a.tries(chunks).0 == a1);
    assert(a.tries(chunks).1.0 == (StepView::Hooking { calls, next: 0 }));
    let msg = a1.tool_text(calls.update(0, call)[0], outcome);
    let b = a.after_round(chunks, call, outcome);
    assert(b == a1.with_messages(a1.messages().push(msg)));
    assert(b.messages() == a.messages().push(m).push(msg));
    assert(b.messages().take(a.messages().len() as int) =~= a.messages());
}

/// A model that makes the same call again and again is stopped: under the
/// default rules, a call that has been made and answered twice in a row ends
/// the run with a safety violation the third time, whatever the tool returned.
/// Between the rounds the conversation may be compacted, as long as the rounds
/// themselves are kept.
#[verifier::rlimit(40)]
pub proof fn law_loop_is_stopped<T: AsyncTool, S: SafetyStage>(
    a: AgentView<T, S>,
    function: FunctionCallView,
    first: Seq<ChatChunkView>,
    first_call: ToolCallView,
    first_outcome: Result<Seq<char>, Seq<char>>,
    b: AgentView<T, S>,
    second: Seq<ChatChunkView>,
    second_call: ToolCallView,
    second_outcome: Result<Seq<char>, Seq<char>>,
    c: AgentView<T, S>,
    third: Seq<ChatChunkView>,
)
    requires
        a.judges_by_default(),
        function.name != "execute_bash"@,
        calls_only(first, function),
        a.tries(first).1.0 is Hooking,
        b.continues(a.after_round(first, first_call, first_outcome), 2),
        calls_only(second, function),
        b.tries(second).1.0 is Hooking,
        c.continues(b.after_round(second, second_call, second_outcome), 4),
        calls_only(third, function),
    ensures
        ({
            let (step, action) = c.tries(third).1;
            step is Finished && (action matches ActionView::Fail { error }
                && error is SafetyViolation)
        }),
{
    let a1 = a.after_round(first, first_call, first_outcome);
    let b1 = b.after_round(second, second_call, second_outcome);
    lemma_round(a, first, function, first_call, first_outcome);
    lemma_round(b, second, function, second_call, second_outcome);
    lemma_rounds_are_kept(
        a.messages(),
        a1.messages(),
        b.messages(),
        b1.messages(),
        c.messages(),
        reply(first),
        reply(second),
    );
    lemma_four_messages(c.messages(), function.name, function.arguments);
    lemma_call_is_denied(c, third, function);
}

proof fn lemma_call_is_denied<T: AsyncTool, S: SafetyStage>(
    a: AgentView<T, S>,
    chunks: Seq<ChatChunkView>,
    function: FunctionCallView,
)
    requires
        a.judges_by_default(),
        calls_only(chunks, function),
        function.name != "execute_bash"@,
        repeats(spoken(a.messages()), function.name, function.arguments) >= 2,
    ensures
        ({
            let (step, action) = a.tries(chunks).1;
            step is Finished && (action matches ActionView::Fail { error }
                && error is SafetyViolation)
        }),
{
    lemma_spoken_reply(a.messages(), chunks);
    assert(holds_call(reply(chunks), reply(chunks).tool_calls->0[0]));
}

/// The messages `m` and `w`, each with a result behind it, are still the last
/// four after two rounds that were added to `a` and `b`.
proof fn lemma_rounds_are_kept(
    a: Seq<MessageView>,
    a1: Seq<MessageView>,
    b: Seq<MessageView>,
    b1: Seq<MessageView>,
    c: Seq<MessageView>,
    m: MessageView,
    w: MessageView,
)
    requires
        a1.len() == a.len() + 2,
        a1[a.len() as int] == m,
        a1.last().role == Role::Tool,
        b.len() >= 2,
        b.skip(b.len() - 2) == a1.skip(a1.len() - 2),
        b1.len() == b.len() + 2,
        b1.take(b.len() as int) == b,
        b1[b.len() as int] == w,
        b1.last().role == Role::Tool,
        c.len() >= 4,
        c.skip(c.len() - 4) == b1.skip(b1.len() - 4),
    ensures
        c[c.len() - 4] == m,
        c[c.len() - 3].role == Role::Tool,
        c[c.len() - 2] == w,
        c[c.len() - 1].role == Role::Tool,
{
    let end = a1.skip(a1.len() - 2);
    assert(end[0] == m && end[1] == a1.last());
    assert(b[b.len() - 2] == b.skip(b.len() - 2)[0]);
    assert(b[b.len() - 1] == b.skip(b.len() - 2)[1]);
    assert(b1[b.len() - 2] == b1.take(b.len() as int)[b.len() - 2]);
    assert(b1[b.len() - 1] == b1.take(b.len() as int)[b.len() - 1]);
    let tail = b1.skip(b1.len() - 4);
    assert(tail[0] == b1[b.len() - 2] && tail[1] == b1[b.len() - 1]);
    assert(tail[2] == w && tail[3] == b1.last());
    assert(c[c.len() - 4] == c.skip(c.len() - 4)[0]);
    assert(c[c.len() - 3] == c.skip(c.len() - 4)[1]);
    assert(c[c.len() - 2] == c.skip(c.len() - 4)[2]);
    assert(c[c.len() - 1] == c.skip(c.len() - 4)[3]);
}

/// Nothing but results of tools.
pub open spec fn are_results(messages: Seq<MessageView>) -> bool {
    forall|i: int| 0 <= i < messages.len() ==> (#[trigger] messages[i]).role == Role::Tool
}

proof fn lemma_results_are_not_spoken(front: Seq<MessageView>, results: Seq<MessageView>)
    requires
        are_results(results),
    ensures
        spoken(front + results) == spoken(front),
    decreases results.len(),
{
    if results.len() == 0 {
        assert(front + results =~= front);
    } else {
        let all = front + results;
        assert(all.last() == results[results.len() - 1]);
        assert(all.drop_last() =~= front + results.drop_last());
        lemma_results_are_not_spoken(front, results.drop_last());
    }
}

proof fn lemma_two_rounds(
    front: Seq<MessageView>,
    first: MessageView,
    first_results: Seq<MessageView>,
    second: MessageView,
    second_results: Seq<MessageView>,
    name: Seq<char>,
    args: Seq<char>,
)
    requires
        makes_call(first, name, args),
        are_results(first_results),
        makes_call(second, name, args),
        are_results(second_results),
    ensures
        repeats(
            spoken((front.push(first) + first_results).push(second) + second_results),
            name,
            args,
        ) >= 2,
{
    let a = front.push(first);
    let b = (a + first_results).push(second);
    let row = spoken(front).push(first).push(second);
    lemma_results_are_not_spoken(a, first_results);
    lemma_results_are_not_spoken(b, second_results);
    assert(a.drop_last() =~= front);
    assert(b.drop_last() =~= a + first_results);
    assert(spoken(b) == row);
    assert(row.drop_last() =~= spoken(front).push(first));
    assert(spoken(front).push(first).drop_last() =~= spoken(front));
    assert(repeats(spoken(front).push(first), name, args) >= 1);
}

proof fn lemma_four_messages(msgs: Seq<MessageView>, name: Seq<char>, args: Seq<char>)
    requires
        msgs.len() >= 4,
        makes_call(msgs[msgs.len() - 4], name, args),
        msgs[msgs.len() - 3].role == Role::Tool,
        makes_call(msgs[msgs.len() - 2], name, args),
        msgs[msgs.len() - 1].role == Role::Tool,
    ensures
        repeats(spoken(msgs), name, args) >= 2,
{
    let n = msgs.len() as int;
    let front = msgs.take(n - 4);
    let first_results = seq![msgs[n - 3]];
    let second_results = seq![msgs[n - 1]];
    assert(msgs =~= (front.push(msgs[n - 4]) + first_results).push(msgs[n - 2]) + second_results);
    lemma_two_rounds(
        front,
        msgs[n - 4],
        first_results,
        msgs[n - 2],
        second_results,
        name,
        args,
    );
}

/// A loop is stopped among other calls, too: under the default rules a call
/// ends the run where the two messages before its own make it as well, each
/// followed by any results of tools, and whatever calls of its own message
/// have been answered already.
pub proof fn law_third_message_is_denied<T: AsyncTool, S: SafetyStage>(
    a: AgentView<T, S>,
    front: Seq<MessageView>,
    first: MessageView,
    first_results: Seq<MessageView>,
    second: MessageView,
    second_results: Seq<MessageView>,
    third: MessageView,
    third_results: Seq<MessageView>,
    calls: Seq<ToolCallView>,
    next: nat,
)
    requires
        a.judges_by_default(),
        next < calls.len(),
        calls[next as int].function.name != "execute_bash"@,
        makes_call(first, calls[next as int].function.name, calls[next as int].function.arguments),
        are_results(first_results),
        makes_call(second, calls[next as int].function.name, calls[next as int].function.arguments),
        are_results(second_results),
        holds_call(third, calls[next as int]),
        are_results(third_results),
        a.messages() == ((front.push(first) + first_results).push(second) + second_results).push(
            third,
        ) + third_results,
    ensures
        ({
            let (step, action) = a.advanced(
                StepView::Judging { calls, next },
                EventView::Judge,
            ).1;
            step is Finished && (action matches ActionView::Fail { error }
                && error is SafetyViolation)
        }),
{
    let f = calls[next as int].function;
    let before = (front.push(first) + first_results).push(second) + second_results;
    lemma_two_rounds(
        front,
        first,
        first_results,
        second,
        second_results,
        f.name,
        f.arguments,
    );
    lemma_results_are_not_spoken(before.push(third), third_results);
    assert(before.push(third).drop_last() =~= before);
    assert(spoken(before).push(third).drop_last() =~= spoken(before));
    assert(before_call(calls[next as int], a.messages()) == spoken(before));
}

proof fn lemma_compaction_keeps_less(
    msgs: Seq<MessageView>,
    config: CompactionConfig,
    summary: Seq<char>,
    start: nat,
    end: nat,
    n: nat,
)
    requires
        range_to_compact(msgs, config) == Some((start, end)),
        n <= config.reserve_recent,
    ensures
        ({
            let after = compacted(msgs, summary, start as int, end as int);
            &&& n <= msgs.len()
            &&& n <= after.len()
            &&& after.skip(after.len() - n) == msgs.skip(msgs.len() - n)
        }),
{
    lemma_range_fits(msgs, config);
    let after = compacted(msgs, summary, start as int, end as int);
    assert(after.skip(after.len() - n) =~= msgs.skip(msgs.len() - n));
}

/// A compaction keeps the last messages, as many of them as are reserved.
#[verifier::rlimit(40)]
pub proof fn law_compaction_keeps_the_end<T: AsyncTool, S: SafetyStage>(
    a: AgentView<T, S>,
    last: bool,
    memory: bool,
    start: nat,
    end: nat,
    summary: Option<Seq<char>>,
    n: nat,
)
    requires
        range_to_compact(a.messages(), a.compaction_config) == Some((start, end)),
        n <= a.compaction_config.reserve_recent,
    ensures
        a.advanced(
            StepView::Compacting { last, memory, start, end },
            EventView::Summary(summary),
        ).0.continues(a, n),
{
    let b = a.advanced(
        StepView::Compacting { last, memory, start, end },
        EventView::Summary(summary),
    ).0;
    if let Some(text) = summary {
        lemma_compaction_keeps_less(a.messages(), a.compaction_config, text, start, end, n);
        if text.len() > 0 {
            assert(b.messages() == compacted(a.messages(), text, start as int, end as int));
        }
    }
}

// ---------------------------------------------------------------------------
// The run of an agent
// ---------------------------------------------------------------------------

/// What follows a step.
#[derive(Debug, PartialEq, Eq)]
pub enum RunDecision {
    /// The run is over, with this answer.
    Answer(String),
    /// Another step is needed.
    Again,
    /// Another step would be needed, but the limit is reached.
    StepLimit,
    /// The run has failed.
    Failed(AgentError),
}

pub enum RunDecisionView {
    Answer(Seq<char>),
    Again,
    StepLimit,
    Failed(AgentErrorView),
}

impl View for RunDecision {
    type V = RunDecisionView;

    open spec fn view(&self) -> RunDecisionView {
        match *self {
            RunDecision::Answer(s) => RunDecisionView::Answer(s@),
            RunDecision::Again => RunDecisionView::Again,
            RunDecision::StepLimit => RunDecisionView::StepLimit,
            RunDecision::Failed(e) => RunDecisionView::Failed(e@),
        }
    }
}

impl<T: AsyncTool, S: SafetyStage> Agent<T, S> {
    /// Decide how to go on after a step; `steps` of them have been made.
    pub fn after_step(&self, steps: usize, outcome: Result<Option<String>, AgentError>) -> (r:
        RunDecision)
        ensures
            r@ == match outcome {
                Ok(Some(answer)) => RunDecisionView::Answer(answer@),
                Ok(None) => if self.max_steps > 0 && steps >= self.max_steps {
                    RunDecisionView::StepLimit
                } else {
                    RunDecisionView::Again
                },
                Err(e) => RunDecisionView::Failed(e@),
            },
    {
        match outcome {
            Ok(Some(answer)) => RunDecision::Answer(answer),
            Ok(None) => {
                if self.max_steps > 0 && steps >= self.max_steps {
                    RunDecision::StepLimit
                } else {
                    RunDecision::Again
                }
            },
            Err(e) => RunDecision::Failed(e),
        }
    }
}

// ---------------------------------------------------------------------------
// What a step is for
// ---------------------------------------------------------------------------

/// The request of a step: whenever the model is asked, the whole conversation
/// goes to it, at the end of the request. If there are tools at all, they are
/// offered behind a message of the user, of the system or of a tool, behind
/// one that makes calls and at the very beginning; they are not offered behind
/// an answer of the assistant without calls.
pub proof fn law_tools_are_offered<T: AsyncTool, S: SafetyStage>(
    a: AgentView<T, S>,
    token_estimate: int,
    memory: bool,
    step: StepView,
    event: EventView,
)
    ensures
        ({
            let m = a.messages();
            a.begins(token_estimate, memory).1 matches ActionView::Ask { messages, with_tools } ==> {
                &&& messages == m
                &&& a.tools == Map::<Seq<char>, Tool<T>>::empty() ==> !with_tools
                &&& a.tools != Map::<Seq<char>, Tool<T>>::empty() ==> {
                    &&& m.len() == 0 ==> with_tools
                    &&& m.len() > 0 && (m.last().role == Role::User || m.last().role
                        == Role::System || m.last().role == Role::Tool) ==> with_tools
                    &&& m.len() > 0 && m.last().role == Role::Assistant
                        && m.last().tool_calls is Some ==> with_tools
                    &&& m.len() > 0 && m.last().role == Role::Assistant
                        && m.last().tool_calls is None ==> !with_tools
                }
            }
        }),
        ({
            let b = a.advanced(step, event).0;
            let m = b.messages();
            a.advanced(step, event).1.1 matches ActionView::Ask { messages, with_tools } ==> {
                &&& messages.len() >= m.len()
                &&& messages.skip(messages.len() - m.len()) == m
                &&& a.tools == Map::<Seq<char>, Tool<T>>::empty() ==> !with_tools
                &&& a.tools != Map::<Seq<char>, Tool<T>>::empty() ==> {
                    &&& m.len() == 0 ==> with_tools
                    &&& m.len() > 0 && (m.last().role == Role::User || m.last().role
                        == Role::System || m.last().role == Role::Tool) ==> with_tools
                    &&& m.len() > 0 && m.last().role == Role::Assistant
                        && m.last().tool_calls is Some ==> with_tools
                    &&& m.len() > 0 && m.last().role == Role::Assistant
                        && m.last().tool_calls is None ==> !with_tools
                }
            }
        }),
{
    let m = a.messages();
    assert(Seq::<MessageView>::empty() + m =~= m);
    let b = a.advanced(step, event).0;
    let n = b.messages();
    assert(Seq::<MessageView>::empty() + n =~= n);
    assert(n.skip(0) =~= n);
    if let EventView::Facts(facts) = event {
        let all = seq![background(facts)] + n;
        assert(all.skip(1) =~= n);
    }
}

/// After the last call of a reply has been executed and the conversation is
/// not too long, the next step asks the model again, with the result at the
/// end of the request and with the tools.
pub proof fn law_results_go_back_with_the_tools<T: AsyncTool, S: SafetyStage>(
    a: AgentView<T, S>,
    calls: Seq<ToolCallView>,
    outcome: Result<Seq<char>, Seq<char>>,
    token_estimate: int,
)
    requires
        calls.len() > 0,
        a.tools != Map::<Seq<char>, Tool<T>>::empty(),
        a.messages().len() < a.compaction_config.max_messages,
    ensures
        ({
            let (b, (step, action)) = a.advanced(
                StepView::Executing { calls, next: (calls.len() - 1) as nat },
                EventView::Executed(outcome),
            );
            let (then_step, then_action) = b.begins(token_estimate, false);
            &&& step is Finished
            &&& action == (ActionView::Finish { answer: None })
            &&& b.messages().len() == a.messages().len() + 1
            &&& b.messages().last().role == Role::Tool
            &&& then_step == (StepView::Asking { retried: false })
            &&& then_action == (ActionView::Ask { messages: b.messages(), with_tools: true })
        }),
{
    let b = a.advanced(
        StepView::Executing { calls, next: (calls.len() - 1) as nat },
        EventView::Executed(outcome),
    ).0;
    assert(Seq::<MessageView>::empty() + b.messages() =~= b.messages());
}

/// How a step begins. A conversation that is estimated at more than 6000
/// tokens and is too long is summarised first; otherwise the long-term memory
/// is asked if there is one and the latest message of the user has a text; and
/// otherwise the model is asked.
pub proof fn law_beginning_of_a_step<T: AsyncTool, S: SafetyStage>(
    a: AgentView<T, S>,
    token_estimate: int,
    memory: bool,
    user: int,
)
    requires
        -1 <= user < a.messages().len(),
        user >= 0 ==> a.messages()[user].role == Role::User,
        forall|j: int| user < j < a.messages().len() ==> (#[trigger] a.messages()[j]).role
            != Role::User,
    ensures
        ({
            let (step, action) = a.begins(token_estimate, memory);
            let range = range_to_compact(a.messages(), a.compaction_config);
            let question = user >= 0 && a.messages()[user].content is Some
                && a.messages()[user].content->0.len() > 0;
            let long = token_estimate > 6000 && range is Some;
            &&& long ==> action is Summarize && (range matches Some((start, end)) && step == (
            StepView::Compacting { last: false, memory, start, end }))
            &&& !long && memory && question ==> step is Recalling && action == (
            ActionView::Recall { text: a.messages()[user].content->0 })
            &&& !long && !(memory && question) ==> action is Ask && step == (StepView::Asking {
                retried: false,
            })
        }),
{
    lemma_latest_user(a.messages(), user);
}

proof fn lemma_latest_user(msgs: Seq<MessageView>, user: int)
    requires
        -1 <= user < msgs.len(),
        user >= 0 ==> msgs[user].role == Role::User,
        forall|j: int| user < j < msgs.len() ==> (#[trigger] msgs[j]).role != Role::User,
    ensures
        latest_user_text(msgs) == if user >= 0 && msgs[user].content is Some
            && msgs[user].content->0.len() > 0 {
            msgs[user].content
        } else {
            None
        },
    decreases msgs.len(),
{
    if msgs.len() > 0 && user < msgs.len() - 1 {
        assert(msgs[msgs.len() - 1].role != Role::User);
        let t = msgs.drop_last();
        assert forall|j: int| user < j < t.len() implies (#[trigger] t[j]).role != Role::User by {
            assert(t[j] == msgs[j]);
        }
        lemma_latest_user(t, user);
    }
}

/// A summary is asked for with the instruction in front and exactly the
/// messages that it will replace, and without tools.
pub proof fn law_summary_is_asked_for<T: AsyncTool, S: SafetyStage>(
    a: AgentView<T, S>,
    last: bool,
    memory: bool,
    start: nat,
    end: nat,
)
    requires
        range_to_compact(a.messages(), a.compaction_config) == Some((start, end)),
    ensures
        ({
            let (step, action) = a.compacts(last, memory);
            &&& step == (StepView::Compacting { last, memory, start, end })
            &&& action matches ActionView::Summarize { messages } && messages.len() == 1 + (end
                - start) && messages[0] == plain_message(
                Role::System,
                "You are a conversation summarizer. Summarize the following conversation segment, preserving key facts, decisions, variable values, and tool execution results. Be concise but complete."@,
            ) && forall|i: int|
                start <= i < end ==> #[trigger] a.messages()[i] == messages[1 + i - start]
        }),
{
    lemma_range_fits(a.messages(), a.compaction_config);
    let part = a.messages().subrange(start as int, end as int);
    let all = summary_request(a.messages(), start as int, end as int);
    assert forall|i: int| start <= i < end implies #[trigger] a.messages()[i] == all[1 + i
        - start] by {
        assert(part[i - start] == a.messages()[i]);
    }
}

/// A summary that says something takes the place of the messages; without one
/// the conversation stays as it is. Then the step is over, or goes on to the
/// memory or the model.
pub proof fn law_summary_is_used<T: AsyncTool, S: SafetyStage>(
    a: AgentView<T, S>,
    last: bool,
    memory: bool,
    start: nat,
    end: nat,
    summary: Option<Seq<char>>,
)
    ensures
        ({
            let (b, (step, action)) = a.advanced(
                StepView::Compacting { last, memory, start, end },
                EventView::Summary(summary),
            );
            &&& summary is None ==> b == a
            &&& summary matches Some(s) ==> s.len() == 0 ==> b == a
            &&& summary matches Some(s) ==> s.len() > 0 ==> b.messages() == compacted(
                a.messages(),
                s,
                start as int,
                end as int,
            )
            &&& last ==> step is Finished && action == (ActionView::Finish { answer: None })
            &&& !last ==> action is Recall || action is Ask
            &&& !last && !memory ==> action is Ask
        }),
{
}

/// Facts of the memory go in front of the conversation, in one message of the
/// system, and only into this request.
pub proof fn law_facts_go_in_front<T: AsyncTool, S: SafetyStage>(
    a: AgentView<T, S>,
    facts: Seq<Seq<char>>,
)
    ensures
        ({
            let (b, (step, action)) = a.advanced(StepView::Recalling, EventView::Facts(facts));
            &&& b == a
            &&& step == (StepView::Asking { retried: false })
            &&& action matches ActionView::Ask { messages, with_tools } && if facts.len() == 0 {
                messages == a.messages()
            } else {
                messages == seq![
                    plain_message(
                        Role::System,
                        "[LONG-TERM MEMORY BACKGROUND]: Relevant historical facts:\n\n"@ + joined(
                            facts,
                            "\n\n---\n\n"@,
                        ),
                    ),
                ] + a.messages()
            }
        }),
{
    assert(Seq::<MessageView>::empty() + a.messages() =~= a.messages());
}

/// A refused request is tried again only if it was too large (status 413) and
/// has not been tried again yet; every other refusal, and an answer that
/// breaks off, ends the step with the error of the provider, and the
/// conversation stays as it is.
pub proof fn law_refusals<T: AsyncTool, S: SafetyStage>(
    a: AgentView<T, S>,
    retried: bool,
    e: ProviderErrorView,
)
    ensures
        ({
            let (b, (step, action)) = a.advanced(
                StepView::Asking { retried },
                EventView::Refused(e),
            );
            let large = e matches ProviderErrorView::ApiError { status, body } && status == 413;
            &&& large && !retried ==> action is Ask && step == (StepView::Asking { retried: true })
            &&& !(large && !retried) ==> b == a && step is Finished && action == (
            ActionView::Fail { error: AgentErrorView::Provider(e) })
        }),
        a.advanced(StepView::Asking { retried }, EventView::Broken(e)) == (
            a,
            (StepView::Finished, ActionView::Fail { error: AgentErrorView::Provider(e) }),
        ),
{
}

/// A reply with calls is added to the conversation and worked on from its
/// first call on; every call gets its turn, one after the other, and is judged
/// when its turn comes.
pub proof fn law_every_call_gets_its_turn<T: AsyncTool, S: SafetyStage>(
    a: AgentView<T, S>,
    retried: bool,
    chunks: Seq<ChatChunkView>,
    calls: Seq<ToolCallView>,
    next: nat,
    outcome: Result<Seq<char>, Seq<char>>,
)
    ensures
        reply(chunks).tool_calls matches Some(made) ==> made.len() > 0 ==> {
            let (b, (step, action)) = a.advanced(
                StepView::Asking { retried },
                EventView::Answer(chunks),
            );
            &&& b.messages() == a.messages().push(reply(chunks))
            &&& step == (StepView::Judging { calls: made, next: 0 })
            &&& action == (ActionView::Judge { call: made[0] })
        },
        next + 1 < calls.len() ==> a.advanced(
            StepView::Executing { calls, next },
            EventView::Executed(outcome),
        ).1 == (
            StepView::Judging { calls, next: next + 1 },
            ActionView::Judge { call: calls[next as int + 1] },
        ),
{
}

/// The verdict of the safety stages on the call, in the conversation as it is,
/// decides: a call that passes goes to the hooks, a denied one ends the step
/// with the reason, and for the rest the user is asked, with the name of the
/// tool and the reason. Without a check every call goes to the hooks.
pub proof fn law_verdict_is_followed<T: AsyncTool, S: SafetyStage>(
    a: AgentView<T, S>,
    calls: Seq<ToolCallView>,
    next: nat,
)
    ensures
        ({
            let call = calls[next as int];
            let (b, (step, action)) = a.advanced(
                StepView::Judging { calls, next },
                EventView::Judge,
            );
            let verdict = verdict_from(a.stages, 0, call, a.messages());
            &&& b == a
            &&& a.safety_auto_approve || verdict is Allow ==> step == (StepView::Hooking {
                calls,
                next,
            }) && action == (ActionView::RunHooks { call })
            &&& !a.safety_auto_approve ==> (verdict matches DecisionView::Deny(reason) ==> step
                is Finished && action == (ActionView::Fail {
                error: AgentErrorView::SafetyViolation(reason),
            }))
            &&& !a.safety_auto_approve ==> (verdict matches DecisionView::RequiresApproval(reason)
                ==> step == (StepView::Approving { calls, next }) && action == (
            ActionView::Approve { tool_name: call.function.name, reason }))
        }),
{
}

/// The user decides: with their consent the call goes to the hooks, without it
/// the step ends as aborted; where they cannot be asked it ends with that
/// error.
pub proof fn law_user_decides<T: AsyncTool, S: SafetyStage>(
    a: AgentView<T, S>,
    calls: Seq<ToolCallView>,
    next: nat,
    e: Seq<char>,
)
    ensures
        a.advanced(StepView::Approving { calls, next }, EventView::Approval(true)) == (
            a,
            (
                StepView::Hooking { calls, next },
                ActionView::RunHooks { call: calls[next as int] },
            ),
        ),
        a.advanced(StepView::Approving { calls, next }, EventView::Approval(false)) == (
            a,
            (StepView::Finished, ActionView::Fail { error: AgentErrorView::UserAbort }),
        ),
        a.advanced(StepView::Approving { calls, next }, EventView::InputFailed(e)) == (
            a,
            (StepView::Finished, ActionView::Fail { error: AgentErrorView::Io(e) }),
        ),
{
}

/// The tool is run with the call as the hooks leave it, and that call alone is
/// changed; a call that a hook rejects ends the step, with the name of the
/// tool and the reason.
pub proof fn law_hooks_are_heeded<T: AsyncTool, S: SafetyStage>(
    a: AgentView<T, S>,
    calls: Seq<ToolCallView>,
    next: nat,
    call: ToolCallView,
    reason: Seq<char>,
)
    requires
        next < calls.len(),
    ensures
        ({
            let (b, (step, action)) = a.advanced(
                StepView::Hooking { calls, next },
                EventView::Hooked(call),
            );
            &&& b == a
            &&& action == (ActionView::Execute { call })
            &&& step matches StepView::Executing { calls: after, next: at } && at == next
                && after.len() == calls.len() && after[next as int] == call && forall|i: int|
                0 <= i < calls.len() && i != next ==> #[trigger] after[i] == calls[i]
        }),
        a.advanced(StepView::Hooking { calls, next }, EventView::Rejected { call, reason }) == (
            a,
            (
                StepView::Finished,
                ActionView::Fail {
                    error: AgentErrorView::ToolExecution(
                        "PreToolHook rejected call '"@ + call.function.name + "': "@ + reason,
                    ),
                },
            ),
        ),
{
}

/// The model is told what a tool returned, be it a result or an error, and
/// that a tool does not exist; under the id of the call.
pub proof fn law_model_is_told<T: AsyncTool, S: SafetyStage>(
    a: AgentView<T, S>,
    calls: Seq<ToolCallView>,
    next: nat,
    outcome: Result<Seq<char>, Seq<char>>,
)
    requires
        next < calls.len(),
    ensures
        ({
            let call = calls[next as int];
            let b = a.advanced(
                StepView::Executing { calls, next },
                EventView::Executed(outcome),
            ).0;
            let text = if !a.tools.contains_key(call.function.name) {
                "unknown tool: '"@ + call.function.name + "'"@
            } else if outcome is Ok {
                outcome->Ok_0
            } else {
                outcome->Err_0
            };
            b.messages() == a.messages().push(
                MessageView {
                    role: Role::Tool,
                    content: Some(text),
                    tool_calls: None,
                    tool_call_id: Some(call.id),
                },
            )
        }),
{
}

/// The step is over after its last call, unless the conversation has become
/// too long: then it is summarised first.
pub proof fn law_end_of_a_step<T: AsyncTool, S: SafetyStage>(
    a: AgentView<T, S>,
    calls: Seq<ToolCallView>,
    outcome: Result<Seq<char>, Seq<char>>,
)
    requires
        calls.len() > 0,
    ensures
        ({
            let (b, (step, action)) = a.advanced(
                StepView::Executing { calls, next: (calls.len() - 1) as nat },
                EventView::Executed(outcome),
            );
            let range = range_to_compact(b.messages(), a.compaction_config);
            &&& range is None ==> step is Finished && action == (ActionView::Finish {
                answer: None,
            })
            &&& range matches Some((start, end)) ==> action is Summarize && step == (
            StepView::Compacting { last: true, memory: false, start, end })
        }),
{
}

/// Only `n` and `no`, in upper or lower case and with blanks around them,
/// decline; every other answer approves, the empty one too.
pub proof fn law_declining(input: Seq<char>)
    ensures
        ({
            let t = trimmed(input);
            declines(input) <==> t == seq!['n'] || t == seq!['N'] || t == seq!['n', 'o'] || t
                == seq!['n', 'O'] || t == seq!['N', 'o'] || t == seq!['N', 'O']
        }),
{
    let t = trimmed(input);
    if t.len() == 1 {
        assert(t =~= seq![t[0]]);
    }
    if t.len() == 2 {
        assert(t =~= seq![t[0], t[1]]);
    }
}

/// Every error of the loop is told with what happened and with its details.
pub proof fn law_errors_in_words(e: Seq<char>, p: ProviderErrorView)
    ensures
        AgentErrorView::Provider(p).in_words() == "Provider error: "@ + p.in_words(),
        AgentErrorView::SafetyViolation(e).in_words() == "Safety violation: "@ + e,
        AgentErrorView::ToolExecution(e).in_words() == "Tool execution failed: "@ + e,
        AgentErrorView::Io(e).in_words() == "I/O error: "@ + e,
        AgentErrorView::UserAbort.in_words() == "User aborted execution"@,
{
}

/// What is seen of an error and of an agent is what they hold; agents under the
/// same rules differ in the conversation alone.
pub proof fn law_views_of_an_agent<T: AsyncTool, S: SafetyStage>(
    a: Agent<T, S>,
    b: Agent<T, S>,
    text: String,
    e: ProviderError,
)
    ensures
        AgentError::Provider(e)@ == AgentErrorView::Provider(e@),
        AgentError::SafetyViolation(text)@ == AgentErrorView::SafetyViolation(text@),
        AgentError::ToolExecution(text)@ == AgentErrorView::ToolExecution(text@),
        AgentError::Io(text)@ == AgentErrorView::Io(text@),
        AgentError::UserAbort@ is UserAbort,
        a@.context == a.context@,
        a@.tools == a.router@,
        a@.stages == a.safety.chain(),
        a@.compaction_config == a.compaction_config,
        a@.max_steps == a.max_steps,
        a@.safety_auto_approve == a.safety_auto_approve,
        a.same_rules(&b) ==> a@ == (AgentView { context: a@.context, ..b@ }),
        a@.messages() == a@.context.branches[a@.context.current].messages,
{
}

/// What is seen of a step is what it holds.
pub proof fn law_views_of_a_step(
    calls: Vec<ToolCall>,
    next: usize,
    last: bool,
    memory: bool,
    start: usize,
    end: usize,
    retried: bool,
)
    ensures
        (Step::Compacting { last, memory, start, end })@ == (StepView::Compacting {
            last,
            memory,
            start: start as nat,
            end: end as nat,
        }),
        Step::Recalling@ is Recalling,
        (Step::Asking { retried })@ == (StepView::Asking { retried }),
        (Step::Judging { calls, next })@ == (StepView::Judging {
            calls: call_views(calls@),
            next: next as nat,
        }),
        (Step::Approving { calls, next })@ == (StepView::Approving {
            calls: call_views(calls@),
            next: next as nat,
        }),
        (Step::Hooking { calls, next })@ == (StepView::Hooking {
            calls: call_views(calls@),
            next: next as nat,
        }),
        (Step::Executing { calls, next })@ == (StepView::Executing {
            calls: call_views(calls@),
            next: next as nat,
        }),
        Step::Finished@ is Finished,
{
}

/// What is seen of an action and of the end of a run is what they hold.
pub proof fn law_views_of_an_action(
    messages: Vec<Message>,
    with_tools: bool,
    call: ToolCall,
    text: String,
    reason: String,
    error: AgentError,
)
    ensures
        (Action::Summarize { messages })@ == (ActionView::Summarize {
            messages: message_views(messages@),
        }),
        (Action::Recall { text })@ == (ActionView::Recall { text: text@ }),
        (Action::Ask { messages, with_tools })@ == (ActionView::Ask {
            messages: message_views(messages@),
            with_tools,
        }),
        (Action::Judge { call })@ == (ActionView::Judge { call: call@ }),
        (Action::Approve { tool_name: text, reason })@ == (ActionView::Approve {
            tool_name: text@,
            reason: reason@,
        }),
        (Action::RunHooks { call })@ == (ActionView::RunHooks { call: call@ }),
        (Action::Execute { call })@ == (ActionView::Execute { call: call@ }),
        (Action::Finish { answer: Some(text) })@ == (ActionView::Finish { answer: Some(text@) }),
        (Action::Finish { answer: None })@ == (ActionView::Finish { answer: None }),
        (Action::Fail { error })@ == (ActionView::Fail { error: error@ }),
        RunDecision::Answer(text)@ == RunDecisionView::Answer(text@),
        RunDecision::Again@ is Again,
        RunDecision::StepLimit@ is StepLimit,
        RunDecision::Failed(error)@ == RunDecisionView::Failed(error@),
{
}

/// What is seen of an event is what it holds.
pub proof fn law_views_of_an_event(
    text: String,
    facts: Vec<String>,
    e: ProviderError,
    chunks: Vec<ChatChunk>,
    i: int,
    yes: bool,
    call: ToolCall,
)
    ensures
        Event::Summary(Some(text))@ == EventView::Summary(Some(text@)),
        Event::Summary(None)@ == EventView::Summary(None),
        Event::Facts(facts)@ == EventView::Facts(texts(facts@)),
        Event::Refused(e)@ == EventView::Refused(e@),
        Event::Broken(e)@ == EventView::Broken(e@),
        Event::Answer(chunks)@ matches EventView::Answer(v) && v.len() == chunks@.len() && (0 <= i
            < chunks@.len() ==> v[i] == chunks@[i]@),
        Event::Judge@ is Judge,
        Event::Approval(yes)@ == EventView::Approval(yes),
        Event::InputFailed(text)@ == EventView::InputFailed(text@),
        Event::Hooked(call)@ == EventView::Hooked(call@),
        (Event::Rejected { call, reason: text })@ == (EventView::Rejected {
            call: call@,
            reason: text@,
        }),
        Event::Executed(Ok(text))@ == EventView::Executed(Ok(text@)),
        Event::Executed(Err(text))@ == EventView::Executed(Err(text@)),
{
}

/// Every step that is not finished takes the events that its action can lead
/// to: a summary, facts, what became of a request, the order to judge, the
/// word of the user, what the hooks say and what a call came to.
pub proof fn law_expected_events<T: AsyncTool, S: SafetyStage>(
    a: AgentView<T, S>,
    step: StepView,
    event: EventView,
)
    requires
        a.sound(step),
    ensures
        step is Compacting ==> (a.expects(step, event) <==> event is Summary),
        step is Recalling ==> (a.expects(step, event) <==> event is Facts),
        step is Asking ==> (a.expects(step, event) <==> event is Refused || event is Broken
            || event is Answer),
        step is Judging ==> (a.expects(step, event) <==> event is Judge),
        step is Approving ==> (a.expects(step, event) <==> event is Approval
            || event is InputFailed),
        step is Hooking ==> (a.expects(step, event) <==> event is Hooked || event is Rejected),
        step is Executing ==> (a.expects(step, event) <==> event is Executed),
        step is Finished ==> !a.expects(step, event),
{
}

} // verus!
