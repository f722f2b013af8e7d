//! Safety stages that judge a tool call before it is executed.
//!
//! - Security: injection markers in the arguments of shell-like tools.
//! - Egress: outgoing data; lets everything pass.
//! - Adversary: malicious intent; lets everything pass.
//! - Permission: tools that need the user's consent.
//! - Repetition: the same call again and again.

use vstd::prelude::*;
use crate::text::{
    byte_len, contains, contains_text, decimal, law_within_bytes, same, show, show_usize,
    take_bytes, within_bytes,
};
use crate::types::{call_views, message_views, Message, MessageView, Role, ToolCall, ToolCallView};

verus! {

// ---------------------------------------------------------------------------
// Decisions and stages
// ---------------------------------------------------------------------------

/// The result of a check.
#[derive(Debug, Clone, PartialEq, Eq)]
pub enum SafetyDecision {
    /// Let the call pass.
    Allow,
    /// Block the call, with the reason.
    Deny(String),
    /// The user has to agree, with the reason.
    RequiresApproval(String),
}

pub enum DecisionView {
    Allow,
    Deny(Seq<char>),
    RequiresApproval(Seq<char>),
}

impl View for SafetyDecision {
    type V = DecisionView;

    open spec fn view(&self) -> DecisionView {
        match *self {
            SafetyDecision::Allow => DecisionView::Allow,
            SafetyDecision::Deny(s) => DecisionView::Deny(s@),
            SafetyDecision::RequiresApproval(s) => DecisionView::RequiresApproval(s@),
        }
    }
}

/// One stage of the safety chain. It gives the same call in the same history
/// the same verdict.
pub trait SafetyStage: Send + Sync {
    /// The name of the stage.
    spec fn label(&self) -> Seq<char>;

    /// What the stage says of a call in the history of the conversation.
    spec fn verdict(&self, call: ToolCallView, context: Seq<MessageView>) -> DecisionView;

    /// Human-readable name of the stage.
    fn name(&self) -> (r: &'static str)
        ensures
            r@ == self.label(),
    ;

    /// Judge a call in the history of the conversation.
    fn inspect(&self, call: &ToolCall, context: &[Message]) -> (r: SafetyDecision)
        ensures
            r@ == self.verdict(call@, message_views(context@)),
    ;
}

// ---------------------------------------------------------------------------
// The pipeline
// ---------------------------------------------------------------------------

/// The verdict of the stages from `i` on: that of the first one that does not
/// let the call pass.
pub open spec fn verdict_from<S: SafetyStage>(
    stages: Seq<S>,
    i: nat,
    call: ToolCallView,
    context: Seq<MessageView>,
) -> DecisionView
    decreases stages.len() - i,
{
    if i < stages.len() {
        let d = stages[i as int].verdict(call, context);
        if d is Allow {
            verdict_from(stages, i + 1, call, context)
        } else {
            d
        }
    } else {
        DecisionView::Allow
    }
}

/// A chain of stages, asked one after the other. The first one that denies the
/// call or wants approval ends the check.
pub struct SafetyPipeline<S: SafetyStage> {
    stages: Vec<S>,
}

impl<S: SafetyStage> SafetyPipeline<S> {
    /// The stages in the order in which they are asked.
    pub closed spec fn chain(&self) -> Seq<S> {
        self.stages@
    }

    pub open spec fn verdict(&self, call: ToolCallView, context: Seq<MessageView>) -> DecisionView {
        verdict_from(self.chain(), 0, call, context)
    }

    /// An empty pipeline, which blocks nothing.
    pub fn new() -> (r: Self)
        ensures
            r.chain() == Seq::<S>::empty(),
    {
        SafetyPipeline { stages: Vec::new() }
    }

    /// Add a stage at the end of the chain.
    pub fn add_stage(&mut self, stage: S)
        ensures
            final(self).chain() == old(self).chain().push(stage),
    {
        self.stages.push(stage);
    }

    /// Run a call through the whole chain: `Allow` if every stage lets it
    /// pass, otherwise the decision of the first stage that does not.
    pub fn verify(&self, call: &ToolCall, context: &[Message]) -> (r: SafetyDecision)
        ensures
            r@ == self.verdict(call@, message_views(context@)),
    {
        let mut i: usize = 0;
        while i < self.stages.len()
            invariant
                i <= self.stages@.len(),
                self.verdict(call@, message_views(context@)) == verdict_from(
                    self.stages@,
                    i as nat,
                    call@,
                    message_views(context@),
                ),
            decreases self.stages@.len() - i,
        {
            let decision = self.stages[i].inspect(call, context);
            match decision {
                SafetyDecision::Allow => {},
                _ => {
                    return decision;
                },
            }
            i += 1;
        }
        SafetyDecision::Allow
    }

    /// Number of registered stages.
    pub fn len(&self) -> (r: usize)
        ensures
            r == self.chain().len(),
    {
        self.stages.len()
    }

    pub fn is_empty(&self) -> (r: bool)
        ensures
            r == (self.chain().len() == 0),
    {
        self.stages.len() == 0
    }
}

impl<S: SafetyStage> Default for SafetyPipeline<S> {
    fn default() -> (r: Self)
        ensures
            r.chain() == Seq::<S>::empty(),
    {
        SafetyPipeline::new()
    }
}

/// A stage at the end of the chain changes nothing for a call that an earlier
/// stage already stops, and decides every other call.
pub proof fn law_last_stage<S: SafetyStage>(
    stages: Seq<S>,
    i: nat,
    stage: S,
    call: ToolCallView,
    context: Seq<MessageView>,
)
    requires
        i <= stages.len(),
    ensures
        verdict_from(stages.push(stage), i, call, context) == if verdict_from(
            stages,
            i,
            call,
            context,
        ) is Allow {
            stage.verdict(call, context)
        } else {
            verdict_from(stages, i, call, context)
        },
    decreases stages.len() - i,
{
    reveal_with_fuel(verdict_from, 2);
    if i < stages.len() {
        law_last_stage(stages, i + 1, stage, call, context);
    }
}

/// A call passes the chain exactly if every stage lets it pass.
pub proof fn law_all_must_allow<S: SafetyStage>(
    stages: Seq<S>,
    i: nat,
    call: ToolCallView,
    context: Seq<MessageView>,
)
    ensures
        verdict_from(stages, i, call, context) is Allow <==> (forall|k: int|
            i <= k < stages.len() ==> (#[trigger] stages[k]).verdict(call, context) is Allow),
    decreases stages.len() - i,
{
    if i < stages.len() {
        law_all_must_allow(stages, i + 1, call, context);
    }
}

// ---------------------------------------------------------------------------
// Security: command injection
// ---------------------------------------------------------------------------

/// The tools whose arguments reach a shell.
pub open spec fn is_dangerous(name: Seq<char>) -> bool {
    ||| name == "execute_bash"@
    ||| name == "shell"@
    ||| name == "exec"@
    ||| name == "run_sh"@
    ||| name == "cmd"@
    ||| name == "bash"@
}

/// The markers of command chaining and injection, in the order in which they
/// are looked for.
pub open spec fn injection_patterns() -> Seq<Seq<char>> {
    seq![";"@, "&&"@, "||"@, "|"@, "`"@, "$("@, "$VAR"@, "${"@]
}

/// The first of the markers from `i` on that occurs in the text.
pub open spec fn marker_from(patterns: Seq<Seq<char>>, i: nat, args: Seq<char>) -> Option<Seq<char>>
    decreases patterns.len() - i,
{
    if i < patterns.len() {
        if contains_text(args, patterns[i as int]) {
            Some(patterns[i as int])
        } else {
            marker_from(patterns, i + 1, args)
        }
    } else {
        None
    }
}

pub open spec fn security_verdict(call: ToolCallView) -> DecisionView {
    let name = call.function.name;
    match marker_from(injection_patterns(), 0, call.function.arguments) {
        Some(p) if is_dangerous(name) => DecisionView::Deny(
            "command injection marker '"@ + p + "' detected in args of '"@ + name + "'"@,
        ),
        _ => DecisionView::Allow,
    }
}

fn dangerous(name: &str) -> (r: bool)
    ensures
        r == is_dangerous(name@),
{
    same(name, "execute_bash") || same(name, "shell") || same(name, "exec") || same(name, "run_sh")
        || same(name, "cmd") || same(name, "bash")
}

/// Blocks calls of shell-like tools with suspicious arguments.
pub struct SecurityStage;

impl SafetyStage for SecurityStage {
    open spec fn label(&self) -> Seq<char> {
        "security"@
    }

    open spec fn verdict(&self, call: ToolCallView, context: Seq<MessageView>) -> DecisionView {
        security_verdict(call)
    }

    fn name(&self) -> (r: &'static str) {
        "security"
    }

    fn inspect(&self, call: &ToolCall, context: &[Message]) -> (r: SafetyDecision) {
        let name = call.function.name.as_str();
        if !dangerous(name) {
            return SafetyDecision::Allow;
        }
        let args = call.function.arguments.as_str();
        let patterns: Vec<&'static str> = vec![";", "&&", "||", "|", "`", "$(", "$VAR", "${"];
        let mut i: usize = 0;
        while i < patterns.len()
            invariant
                i <= patterns@.len(),
                patterns@.len() == injection_patterns().len(),
                forall|k: int| 0 <= k < patterns@.len() ==> (#[trigger] patterns@[k])@ == injection_patterns()[k],
                args@ == call@.function.arguments,
                name@ == call@.function.name,
                is_dangerous(name@),
                marker_from(injection_patterns(), 0, args@) == marker_from(
                    injection_patterns(),
                    i as nat,
                    args@,
                ),
            decreases patterns@.len() - i,
        {
            if contains(args, patterns[i]) {
                let mut reason = "command injection marker '".to_string();
                reason.append(patterns[i]);
                reason.append("' detected in args of '");
                reason.append(name);
                reason.append("'");
                return SafetyDecision::Deny(reason);
            }
            i += 1;
        }
        SafetyDecision::Allow
    }
}

// ---------------------------------------------------------------------------
// Egress and adversary: open for now
// ---------------------------------------------------------------------------

/// The place for a check of outgoing data; lets every call pass.
pub struct EgressStage;

impl SafetyStage for EgressStage {
    open spec fn label(&self) -> Seq<char> {
        "egress"@
    }

    open spec fn verdict(&self, call: ToolCallView, context: Seq<MessageView>) -> DecisionView {
        DecisionView::Allow
    }

    fn name(&self) -> (r: &'static str) {
        "egress"
    }

    fn inspect(&self, call: &ToolCall, context: &[Message]) -> (r: SafetyDecision) {
        SafetyDecision::Allow
    }
}

/// The place for a detector of malicious intent; lets every call pass.
pub struct AdversaryStage;

impl SafetyStage for AdversaryStage {
    open spec fn label(&self) -> Seq<char> {
        "adversary_llm"@
    }

    open spec fn verdict(&self, call: ToolCallView, context: Seq<MessageView>) -> DecisionView {
        DecisionView::Allow
    }

    fn name(&self) -> (r: &'static str) {
        "adversary_llm"
    }

    fn inspect(&self, call: &ToolCall, context: &[Message]) -> (r: SafetyDecision) {
        SafetyDecision::Allow
    }
}

// ---------------------------------------------------------------------------
// Permission: the user decides
// ---------------------------------------------------------------------------

/// Every call of `execute_bash` needs consent; the reason quotes its arguments,
/// as far as they fit into 120 bytes.
pub open spec fn permission_verdict(call: ToolCallView) -> DecisionView {
    if call.function.name == "execute_bash"@ {
        DecisionView::RequiresApproval(
            "execute_bash requires user approval (args: "@ + within_bytes(
                call.function.arguments,
                120,
            ) + ")"@,
        )
    } else {
        DecisionView::Allow
    }
}

/// Asks for the user's consent to critical tools.
pub struct PermissionStage;

impl SafetyStage for PermissionStage {
    open spec fn label(&self) -> Seq<char> {
        "permission"@
    }

    open spec fn verdict(&self, call: ToolCallView, context: Seq<MessageView>) -> DecisionView {
        permission_verdict(call)
    }

    fn name(&self) -> (r: &'static str) {
        "permission"
    }

    fn inspect(&self, call: &ToolCall, context: &[Message]) -> (r: SafetyDecision) {
        if same(call.function.name.as_str(), "execute_bash") {
            let mut reason = "execute_bash requires user approval (args: ".to_string();
            let head = take_bytes(call.function.arguments.as_str(), 120);
            reason.append(head.as_str());
            reason.append(")");
            return SafetyDecision::RequiresApproval(reason);
        }
        SafetyDecision::Allow
    }
}

// ---------------------------------------------------------------------------
// What was said before a call
// ---------------------------------------------------------------------------

/// The conversation without the results of tools.
pub open spec fn spoken(messages: Seq<MessageView>) -> Seq<MessageView>
    decreases messages.len(),
{
    if messages.len() == 0 {
        messages
    } else if messages.last().role == Role::Tool {
        spoken(messages.drop_last())
    } else {
        spoken(messages.drop_last()).push(messages.last())
    }
}

/// An assistant message that holds the call itself, with its id.
pub open spec fn holds_call(msg: MessageView, call: ToolCallView) -> bool {
    &&& msg.role == Role::Assistant
    &&& msg.tool_calls is Some
    &&& msg.tool_calls->0.contains(call)
}

/// What was said before a call: the conversation without the results of tools,
/// and without the message that the call is in where it ends with that one.
pub open spec fn before_call(call: ToolCallView, messages: Seq<MessageView>) -> Seq<MessageView> {
    let said = spoken(messages);
    if said.len() > 0 && holds_call(said.last(), call) {
        said.drop_last()
    } else {
        said
    }
}

fn message_holds_call(msg: &Message, call: &ToolCall) -> (r: bool)
    ensures
        r == holds_call(msg@, call@),
{
    if msg.role != Role::Assistant {
        return false;
    }
    match &msg.tool_calls {
        None => false,
        Some(calls) => {
            let ghost seen = msg@.tool_calls->0;
            let mut i: usize = 0;
            while i < calls.len()
                invariant
                    i <= calls@.len(),
                    msg@.role == Role::Assistant,
                    msg@.tool_calls == Some(seen),
                    seen == call_views(calls@),
                    forall|j: int| 0 <= j < i ==> #[trigger] seen[j] != call@,
                decreases calls@.len() - i,
            {
                assert(seen[i as int] == calls@[i as int]@);
                if calls[i].same(call) {
                    return true;
                }
                i += 1;
            }
            false
        },
    }
}

/// What was said before a call.
pub fn said_before(call: &ToolCall, messages: &[Message]) -> (r: Vec<Message>)
    ensures
        message_views(r@) == before_call(call@, message_views(messages@)),
{
    let ghost all = message_views(messages@);
    let mut said: Vec<Message> = Vec::new();
    let mut i: usize = 0;
    assert(all.take(0) =~= Seq::empty());
    assert(message_views(said@) =~= Seq::empty());
    while i < messages.len()
        invariant
            i <= messages@.len(),
            all == message_views(messages@),
            message_views(said@) == spoken(all.take(i as int)),
        decreases messages@.len() - i,
    {
        proof {
            let next = all.take(i + 1);
            assert(next.drop_last() =~= all.take(i as int));
            assert(next.last() == messages@[i as int]@);
        }
        if messages[i].role != Role::Tool {
            let ghost before = said@;
            let msg = messages[i].clone();
            said.push(msg);
            assert(message_views(said@) =~= message_views(before).push(msg@));
        }
        i += 1;
    }
    assert(all.take(i as int) =~= all);
    let count: usize = said.len();
    if count > 0 {
        assert(message_views(said@).last() == said@[count - 1]@);
        if message_holds_call(&said[count - 1], call) {
            let ghost before = said@;
            let last = said.pop();
            assert(message_views(said@) =~= message_views(before).drop_last());
        }
    }
    said
}

// ---------------------------------------------------------------------------
// Repetition: the same call again and again
// ---------------------------------------------------------------------------

/// An assistant message that makes this very call, by name and arguments.
pub open spec fn makes_call(msg: MessageView, name: Seq<char>, args: Seq<char>) -> bool {
    &&& msg.role == Role::Assistant
    &&& msg.tool_calls is Some
    &&& exists|i: int| #[trigger] is_call_at(msg.tool_calls->0, i, name, args)
}

pub open spec fn is_call_at(
    calls: Seq<ToolCallView>,
    i: int,
    name: Seq<char>,
    args: Seq<char>,
) -> bool {
    0 <= i < calls.len() && calls[i].function.name == name && calls[i].function.arguments == args
}

/// How many messages at the end of the history, without a gap, make this very
/// call.
pub open spec fn repeats(context: Seq<MessageView>, name: Seq<char>, args: Seq<char>) -> nat
    decreases context.len(),
{
    if context.len() > 0 && makes_call(context.last(), name, args) {
        1 + repeats(context.drop_last(), name, args)
    } else {
        0
    }
}

/// A call is denied if it is at least the `limit`-th of its kind in a row,
/// counted in what was said before it: neither the message that the call is in
/// nor the results of tools count.
pub open spec fn repetition_verdict(
    limit: usize,
    call: ToolCallView,
    context: Seq<MessageView>,
) -> DecisionView {
    let before = before_call(call, context);
    let total = repeats(before, call.function.name, call.function.arguments) + 1;
    if total >= limit {
        DecisionView::Deny(
            "tool '"@ + call.function.name + "' called with identical arguments "@ + decimal(total)
                + " times in a row (max: "@ + decimal(limit as nat) + ")"@,
        )
    } else {
        DecisionView::Allow
    }
}

proof fn lemma_repeats_bound(context: Seq<MessageView>, name: Seq<char>, args: Seq<char>)
    ensures
        repeats(context, name, args) <= context.len(),
    decreases context.len(),
{
    if context.len() > 0 && makes_call(context.last(), name, args) {
        lemma_repeats_bound(context.drop_last(), name, args);
    }
}

fn message_makes_call(msg: &Message, name: &str, args: &str) -> (r: bool)
    ensures
        r == makes_call(msg@, name@, args@),
{
    if msg.role != Role::Assistant {
        return false;
    }
    match &msg.tool_calls {
        None => false,
        Some(calls) => {
            let ghost seen = msg@.tool_calls->0;
            let mut i: usize = 0;
            while i < calls.len()
                invariant
                    i <= calls@.len(),
                    msg@.role == Role::Assistant,
                    msg@.tool_calls == Some(seen),
                    seen == call_views(calls@),
                    forall|j: int| 0 <= j < i ==> !is_call_at(seen, j, name@, args@),
                decreases calls@.len() - i,
            {
                assert(seen[i as int] == calls@[i as int]@);
                if same(calls[i].function.name.as_str(), name) && same(
                    calls[i].function.arguments.as_str(),
                    args,
                ) {
                    assert(is_call_at(msg@.tool_calls->0, i as int, name@, args@));
                    return true;
                }
                i += 1;
            }
            false
        },
    }
}

/// How often in a row, up to now, the assistant has made this very call. Any
/// message that does not make it ends the row.
pub fn count_consecutive_identical_calls(name: &str, args: &str, context: &[Message]) -> (r: usize)
    ensures
        r == repeats(message_views(context@), name@, args@),
        r <= context@.len(),
{
    let ghost all = message_views(context@);
    proof {
        lemma_repeats_bound(all, name@, args@);
    }
    let mut left: usize = context.len();
    let mut count: usize = 0;
    assert(all.take(left as int) =~= all);
    while left > 0 && message_makes_call(&context[left - 1], name, args)
        invariant
            left <= context@.len(),
            all == message_views(context@),
            count + left == context@.len(),
            repeats(all, name@, args@) == count + repeats(all.take(left as int), name@, args@),
        decreases left,
    {
        proof {
            let rest = all.take(left as int);
            assert(rest.last() == context@[left - 1]@);
            assert(rest.drop_last() =~= all.take(left - 1));
        }
        left -= 1;
        count += 1;
    }
    proof {
        let rest = all.take(left as int);
        if left > 0 {
            assert(rest.last() == context@[left - 1]@);
        }
    }
    count
}

/// Blocks a call that is made for the `max_repetitions`-th time in a row, so
/// that the agent does not run in circles.
pub struct RepetitionStage {
    max_repetitions: usize,
}

impl RepetitionStage {
    /// The number of calls in a row at which the stage blocks.
    pub closed spec fn limit(&self) -> usize {
        self.max_repetitions
    }

    pub fn new(max_repetitions: usize) -> (r: Self)
        ensures
            r.limit() == max_repetitions,
    {
        RepetitionStage { max_repetitions }
    }
}

impl Default for RepetitionStage {
    fn default() -> (r: Self)
        ensures
            r.limit() == 3,
    {
        RepetitionStage::new(3)
    }
}

impl SafetyStage for RepetitionStage {
    open spec fn label(&self) -> Seq<char> {
        "repetition"@
    }

    open spec fn verdict(&self, call: ToolCallView, context: Seq<MessageView>) -> DecisionView {
        repetition_verdict(self.limit(), call, context)
    }

    fn name(&self) -> (r: &'static str) {
        "repetition"
    }

    fn inspect(&self, call: &ToolCall, context: &[Message]) -> (r: SafetyDecision) {
        let name = call.function.name.as_str();
        let before = said_before(call, context);
        let count: usize = count_consecutive_identical_calls(
            name,
            call.function.arguments.as_str(),
            before.as_slice(),
        );
        let total: u128 = count as u128 + 1;
        if total >= self.max_repetitions as u128 {
            let mut reason = "tool '".to_string();
            reason.append(name);
            reason.append("' called with identical arguments ");
            reason.append(show(total).as_str());
            reason.append(" times in a row (max: ");
            reason.append(show_usize(self.max_repetitions).as_str());
            reason.append(")");
            return SafetyDecision::Deny(reason);
        }
        SafetyDecision::Allow
    }
}

// ---------------------------------------------------------------------------
// The default pipeline
// ---------------------------------------------------------------------------

/// Any of the stages above, so that a chain can mix them.
pub enum Stage {
    Security(SecurityStage),
    Egress(EgressStage),
    Adversary(AdversaryStage),
    Permission(PermissionStage),
    Repetition(RepetitionStage),
}

impl SafetyStage for Stage {
    open spec fn label(&self) -> Seq<char> {
        match *self {
            Stage::Security(s) => s.label(),
            Stage::Egress(s) => s.label(),
            Stage::Adversary(s) => s.label(),
            Stage::Permission(s) => s.label(),
            Stage::Repetition(s) => s.label(),
        }
    }

    open spec fn verdict(&self, call: ToolCallView, context: Seq<MessageView>) -> DecisionView {
        match *self {
            Stage::Security(s) => s.verdict(call, context),
            Stage::Egress(s) => s.verdict(call, context),
            Stage::Adversary(s) => s.verdict(call, context),
            Stage::Permission(s) => s.verdict(call, context),
            Stage::Repetition(s) => s.verdict(call, context),
        }
    }

    fn name(&self) -> (r: &'static str) {
        match self {
            Stage::Security(s) => s.name(),
            Stage::Egress(s) => s.name(),
            Stage::Adversary(s) => s.name(),
            Stage::Permission(s) => s.name(),
            Stage::Repetition(s) => s.name(),
        }
    }

    fn inspect(&self, call: &ToolCall, context: &[Message]) -> (r: SafetyDecision) {
        match self {
            Stage::Security(s) => s.inspect(call, context),
            Stage::Egress(s) => s.inspect(call, context),
            Stage::Adversary(s) => s.inspect(call, context),
            Stage::Permission(s) => s.inspect(call, context),
            Stage::Repetition(s) => s.inspect(call, context),
        }
    }
}

/// What the default pipeline says: security first, then permission, then
/// repetition with a limit of three.
pub open spec fn default_verdict(call: ToolCallView, context: Seq<MessageView>) -> DecisionView {
    if !(security_verdict(call) is Allow) {
        security_verdict(call)
    } else if !(permission_verdict(call) is Allow) {
        permission_verdict(call)
    } else {
        repetition_verdict(3, call, context)
    }
}

proof fn lemma_marker(patterns: Seq<Seq<char>>, i: nat, args: Seq<char>)
    ensures
        marker_from(patterns, i, args) is Some <==> (exists|k: int|
            i <= k < patterns.len() && contains_text(args, #[trigger] patterns[k])),
    decreases patterns.len() - i,
{
    if i < patterns.len() {
        lemma_marker(patterns, i + 1, args);
        if contains_text(args, patterns[i as int]) {
            assert(i <= i < patterns.len() && contains_text(args, patterns[i as int]));
        }
    }
}

/// The default pipeline lets a call pass exactly if none of these holds: it
/// hands an injection marker to a shell-like tool, it is a call of
/// `execute_bash`, or it would be at least the third of its kind in a row. A
/// marker for a shell-like tool is always denied outright; any other call of
/// `execute_bash`, whatever its arguments, needs the user's consent.
pub proof fn law_default_pipeline(call: ToolCallView, context: Seq<MessageView>)
    ensures
        ({
            let name = call.function.name;
            let args = call.function.arguments;
            let marked = is_dangerous(name) && exists|k: int|
                0 <= k < injection_patterns().len() && contains_text(
                    args,
                    #[trigger] injection_patterns()[k],
                );
            &&& marked ==> default_verdict(call, context) is Deny
            &&& default_verdict(call, context) is Allow <==> !marked && name != "execute_bash"@
                && repeats(before_call(call, context), name, args) < 2
            &&& default_verdict(call, context) is RequiresApproval <==> !marked && name
                == "execute_bash"@
        }),
{
    lemma_marker(injection_patterns(), 0, call.function.arguments);
}

/// A pipeline with all stages: security, egress, adversary, permission and
/// repetition, in this order.
pub fn default_pipeline() -> (r: SafetyPipeline<Stage>)
    ensures
        r.chain().len() == 5,
        r.chain()[0] is Security,
        r.chain()[1] is Egress,
        r.chain()[2] is Adversary,
        r.chain()[3] is Permission,
        r.chain()[4] is Repetition,
        forall|call: ToolCallView, context: Seq<MessageView>| #[trigger]
            r.verdict(call, context) == default_verdict(call, context),
{
    let mut p: SafetyPipeline<Stage> = SafetyPipeline::new();
    p.add_stage(Stage::Security(SecurityStage));
    p.add_stage(Stage::Egress(EgressStage));
    p.add_stage(Stage::Adversary(AdversaryStage));
    p.add_stage(Stage::Permission(PermissionStage));
    p.add_stage(Stage::Repetition(RepetitionStage::default()));
    proof {
        reveal_with_fuel(verdict_from, 6);
    }
    p
}

// ---------------------------------------------------------------------------
// What the stages are for
// ---------------------------------------------------------------------------

/// Only calls of the six shell-like tools are searched for injection, whatever
/// the arguments of other tools hold; and a call of one of the six is denied
/// exactly if one of the eight markers occurs in its arguments. The reason
/// names the tool and the marker, the first one in this order.
pub proof fn law_injection(call: ToolCallView, context: Seq<MessageView>)
    ensures
        ({
            let name = call.function.name;
            let args = call.function.arguments;
            let verdict = SecurityStage.verdict(call, context);
            let shell = name == "execute_bash"@ || name == "shell"@ || name == "exec"@ || name
                == "run_sh"@ || name == "cmd"@ || name == "bash"@;
            let marked = contains_text(args, ";"@) || contains_text(args, "&&"@) || contains_text(
                args,
                "||"@,
            ) || contains_text(args, "|"@) || contains_text(args, "`"@) || contains_text(
                args,
                "$("@,
            ) || contains_text(args, "$VAR"@) || contains_text(args, "${"@);
            let marker = if contains_text(args, ";"@) {
                ";"@
            } else if contains_text(args, "&&"@) {
                "&&"@
            } else if contains_text(args, "||"@) {
                "||"@
            } else if contains_text(args, "|"@) {
                "|"@
            } else if contains_text(args, "`"@) {
                "`"@
            } else if contains_text(args, "$("@) {
                "$("@
            } else if contains_text(args, "$VAR"@) {
                "$VAR"@
            } else {
                "${"@
            };
            &&& !shell ==> verdict is Allow
            &&& shell ==> (verdict is Deny <==> marked)
            &&& shell && !marked ==> verdict is Allow
            &&& shell && marked ==> verdict == DecisionView::Deny(
                "command injection marker '"@ + marker + "' detected in args of '"@ + name + "'"@,
            )
            &&& verdict == security_verdict(call)
        }),
{
    reveal_with_fuel(marker_from, 9);
}

/// A call of `execute_bash` always needs the user's consent, and no other call
/// does. The user is told the beginning of the arguments: as much of them as
/// fits into 120 bytes.
pub proof fn law_permission(call: ToolCallView, context: Seq<MessageView>)
    ensures
        ({
            let verdict = PermissionStage.verdict(call, context);
            let args = call.function.arguments;
            &&& call.function.name != "execute_bash"@ ==> verdict is Allow
            &&& call.function.name == "execute_bash"@ ==> exists|k: int|
                is_quoted(verdict, args, k)
            &&& verdict == permission_verdict(call)
        }),
        EgressStage.verdict(call, context) is Allow,
        AdversaryStage.verdict(call, context) is Allow,
{
    law_within_bytes(call.function.arguments, 120);
    let r = within_bytes(call.function.arguments, 120);
    if call.function.name == "execute_bash"@ {
        assert(is_quoted(
            PermissionStage.verdict(call, context),
            call.function.arguments,
            r.len() as int,
        ));
    }
}

/// The request for consent quotes the first `k` characters of the arguments,
/// which fit into 120 bytes, while one more would not.
pub open spec fn is_quoted(verdict: DecisionView, args: Seq<char>, k: int) -> bool {
    &&& 0 <= k <= args.len()
    &&& byte_len(args.take(k)) <= 120
    &&& k < args.len() ==> byte_len(args.take(k + 1)) > 120
    &&& verdict == DecisionView::RequiresApproval(
        "execute_bash requires user approval (args: "@ + args.take(k) + ")"@,
    )
}

/// A call is denied for repetition exactly if, together with it, the messages
/// in a row that make the same call are as many as the limit; the reason tells
/// how many they are.
pub proof fn law_repetition(stage: RepetitionStage, call: ToolCallView, context: Seq<MessageView>)
    ensures
        ({
            let total = repeats(
                before_call(call, context),
                call.function.name,
                call.function.arguments,
            ) + 1;
            let verdict = stage.verdict(call, context);
            &&& total < stage.limit() ==> verdict is Allow
            &&& total >= stage.limit() ==> verdict == DecisionView::Deny(
                "tool '"@ + call.function.name + "' called with identical arguments "@ + decimal(
                    total,
                ) + " times in a row (max: "@ + decimal(stage.limit() as nat) + ")"@,
            )
            &&& verdict == repetition_verdict(stage.limit(), call, context)
        }),
{
}

/// The row of a call: it grows by one with every message of the assistant that
/// makes the call, and every other message ends it.
pub proof fn law_row(
    context: Seq<MessageView>,
    msg: MessageView,
    name: Seq<char>,
    args: Seq<char>,
    calls: Seq<ToolCallView>,
    i: int,
)
    ensures
        repeats(Seq::empty(), name, args) == 0,
        msg.role != Role::Assistant ==> repeats(context.push(msg), name, args) == 0,
        msg.tool_calls is None ==> repeats(context.push(msg), name, args) == 0,
        msg.role == Role::Assistant && msg.tool_calls == Some(calls) && 0 <= i < calls.len()
            && calls[i].function.name == name && calls[i].function.arguments == args ==> repeats(
            context.push(msg),
            name,
            args,
        ) == repeats(context, name, args) + 1,
        msg.tool_calls == Some(calls) && (forall|k: int|
            0 <= k < calls.len() ==> (#[trigger] calls[k]).function.name != name
                || calls[k].function.arguments != args) ==> repeats(context.push(msg), name, args)
            == 0,
{
    let all = context.push(msg);
    assert(all.drop_last() =~= context);
    assert(all.last() == msg);
    if msg.tool_calls == Some(calls) && 0 <= i < calls.len() && calls[i].function.name == name
        && calls[i].function.arguments == args {
        assert(is_call_at(msg.tool_calls->0, i, name, args));
    }
    if msg.tool_calls == Some(calls) && (forall|k: int|
        0 <= k < calls.len() ==> (#[trigger] calls[k]).function.name != name
            || calls[k].function.arguments != args) {
        assert forall|k: int| !(#[trigger] is_call_at(calls, k, name, args)) by {}
    }
}

/// What was said before a call: every message but the results of tools, in
/// order, and not the message at the end that holds the call itself.
pub proof fn law_said_before(
    context: Seq<MessageView>,
    msg: MessageView,
    call: ToolCallView,
    calls: Seq<ToolCallView>,
)
    ensures
        spoken(Seq::empty()) == Seq::<MessageView>::empty(),
        msg.role == Role::Tool ==> spoken(context.push(msg)) == spoken(context),
        msg.role != Role::Tool ==> spoken(context.push(msg)) == spoken(context).push(msg),
        msg.role == Role::Tool ==> before_call(call, context.push(msg)) == before_call(
            call,
            context,
        ),
        msg.role == Role::Assistant && msg.tool_calls == Some(calls) && calls.contains(call)
            ==> before_call(call, context.push(msg)) == spoken(context),
        msg.role != Role::Tool && !(msg.role == Role::Assistant && msg.tool_calls == Some(calls)
            && calls.contains(call)) && (msg.tool_calls is Some ==> msg.tool_calls == Some(calls))
            ==> before_call(call, context.push(msg)) == spoken(context).push(msg),
{
    let all = context.push(msg);
    assert(all.drop_last() =~= context);
    assert(all.last() == msg);
    assert(spoken(context).push(msg).drop_last() =~= spoken(context));
}

/// The chain gives the verdict of the first stage that does not let the call
/// pass; stages behind it are not asked.
pub proof fn law_first_refusal<S: SafetyStage>(
    stages: Seq<S>,
    i: nat,
    k: int,
    call: ToolCallView,
    context: Seq<MessageView>,
)
    requires
        i <= k < stages.len(),
        !(stages[k].verdict(call, context) is Allow),
        forall|j: int| i <= j < k ==> (#[trigger] stages[j]).verdict(call, context) is Allow,
    ensures
        verdict_from(stages, i, call, context) == stages[k].verdict(call, context),
    decreases k - i,
{
    if i < k {
        assert(stages[i as int].verdict(call, context) is Allow);
        law_first_refusal(stages, i + 1, k, call, context);
    }
}

/// The default pipeline: an injection is denied before anything else, then the
/// consent to `execute_bash` is asked for, and then the third call in a row is
/// denied; in all other cases the call passes.
pub proof fn law_order_of_the_default_pipeline(call: ToolCallView, context: Seq<MessageView>)
    ensures
        SecurityStage.verdict(call, context) is Deny ==> default_verdict(call, context)
            == SecurityStage.verdict(call, context),
        !(SecurityStage.verdict(call, context) is Deny) && call.function.name
            == "execute_bash"@ ==> default_verdict(call, context) == PermissionStage.verdict(
            call,
            context,
        ),
        !(SecurityStage.verdict(call, context) is Deny) && call.function.name
            != "execute_bash"@ ==> default_verdict(call, context) == repetition_verdict(
            3,
            call,
            context,
        ),
{
}

/// The names of the stages, and that any of them can stand in one chain with
/// its own verdict and name.
pub proof fn law_stages(
    call: ToolCallView,
    context: Seq<MessageView>,
    a: SecurityStage,
    b: EgressStage,
    c: AdversaryStage,
    d: PermissionStage,
    e: RepetitionStage,
)
    ensures
        a.label() == "security"@,
        b.label() == "egress"@,
        c.label() == "adversary_llm"@,
        d.label() == "permission"@,
        e.label() == "repetition"@,
        Stage::Security(a).label() == a.label(),
        Stage::Egress(b).label() == b.label(),
        Stage::Adversary(c).label() == c.label(),
        Stage::Permission(d).label() == d.label(),
        Stage::Repetition(e).label() == e.label(),
        Stage::Security(a).verdict(call, context) == a.verdict(call, context),
        Stage::Egress(b).verdict(call, context) is Allow,
        Stage::Adversary(c).verdict(call, context) is Allow,
        Stage::Permission(d).verdict(call, context) == d.verdict(call, context),
        Stage::Repetition(e).verdict(call, context) == e.verdict(call, context),
{
}

/// What is seen of a decision is what it holds.
pub proof fn law_decision_view(reason: String)
    ensures
        SafetyDecision::Allow@ is Allow,
        SafetyDecision::Deny(reason)@ == DecisionView::Deny(reason@),
        SafetyDecision::RequiresApproval(reason)@ == DecisionView::RequiresApproval(reason@),
{
}

proof fn lemma_all_allow<S: SafetyStage>(
    stages: Seq<S>,
    i: nat,
    call: ToolCallView,
    context: Seq<MessageView>,
)
    requires
        forall|j: int|
            0 <= j < stages.len() ==> (#[trigger] stages[j]).verdict(call, context) is Allow,
    ensures
        verdict_from(stages, i, call, context) is Allow,
    decreases stages.len() - i,
{
    if i < stages.len() {
        assert(stages[i as int].verdict(call, context) is Allow);
        lemma_all_allow(stages, i + 1, call, context);
    }
}

/// A pipeline says what the first of its stages says that does not allow the
/// call, and allows the call if all of them do.
pub proof fn law_pipeline<S: SafetyStage>(
    p: SafetyPipeline<S>,
    k: int,
    call: ToolCallView,
    context: Seq<MessageView>,
)
    ensures
        (forall|j: int|
            0 <= j < p.chain().len() ==> (#[trigger] p.chain()[j]).verdict(
                call,
                context,
            ) is Allow) ==> p.verdict(call, context) is Allow,
        0 <= k < p.chain().len() && !(p.chain()[k].verdict(call, context) is Allow) && (forall|
            j: int,
        |
            0 <= j < k ==> (#[trigger] p.chain()[j]).verdict(call, context) is Allow) ==> p.verdict(
            call,
            context,
        ) == p.chain()[k].verdict(call, context),
{
    if forall|j: int|
        0 <= j < p.chain().len() ==> (#[trigger] p.chain()[j]).verdict(call, context) is Allow {
        lemma_all_allow(p.chain(), 0, call, context);
    }
    if 0 <= k < p.chain().len() && !(p.chain()[k].verdict(call, context) is Allow) && (forall|
        j: int,
    |
        0 <= j < k ==> (#[trigger] p.chain()[j]).verdict(call, context) is Allow) {
        law_first_refusal(p.chain(), 0, k, call, context);
    }
}

} // verus!
