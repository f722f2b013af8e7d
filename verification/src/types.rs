//! Messages, tool calls and streaming chunks.

use vstd::prelude::*;
use crate::json::{Json, JsonView};
use crate::text::{copy_opt, opt_text, same_opt, IntoText};

verus! {

// ---------------------------------------------------------------------------
// Roles and messages
// ---------------------------------------------------------------------------

/// Who speaks in a message.
#[derive(Debug, Clone, Copy, PartialEq, Eq, Structural)]
pub enum Role {
    System,
    User,
    Assistant,
    Tool,
}

/// A function that the model wants to call, with its arguments as JSON text.
#[derive(Debug, PartialEq, Eq)]
pub struct FunctionCall {
    pub name: String,
    pub arguments: String,
}

pub struct FunctionCallView {
    pub name: Seq<char>,
    pub arguments: Seq<char>,
}

impl View for FunctionCall {
    type V = FunctionCallView;

    open spec fn view(&self) -> FunctionCallView {
        FunctionCallView { name: self.name@, arguments: self.arguments@ }
    }
}

impl Clone for FunctionCall {
    fn clone(&self) -> (r: Self)
        ensures
            r@ == self@,
    {
        FunctionCall { name: self.name.clone(), arguments: self.arguments.clone() }
    }
}

/// One tool call of an assistant message.
#[derive(Debug, PartialEq, Eq)]
pub struct ToolCall {
    pub id: String,
    /// The kind of the call; `"function"` in all calls that are made here.
    pub kind: String,
    pub function: FunctionCall,
}

pub struct ToolCallView {
    pub id: Seq<char>,
    pub kind: Seq<char>,
    pub function: FunctionCallView,
}

impl View for ToolCall {
    type V = ToolCallView;

    open spec fn view(&self) -> ToolCallView {
        ToolCallView { id: self.id@, kind: self.kind@, function: self.function@ }
    }
}

impl Clone for ToolCall {
    fn clone(&self) -> (r: Self)
        ensures
            r@ == self@,
    {
        ToolCall { id: self.id.clone(), kind: self.kind.clone(), function: self.function.clone() }
    }
}

impl ToolCall {
    /// Whether two calls are equal in all their parts.
    pub fn same(&self, other: &ToolCall) -> (r: bool)
        ensures
            r == (self@ == other@),
    {
        self.id == other.id && self.kind == other.kind && self.function.name == other.function.name
            && self.function.arguments == other.function.arguments
    }
}

pub open spec fn call_views(v: Seq<ToolCall>) -> Seq<ToolCallView> {
    v.map_values(|c: ToolCall| c@)
}

pub open spec fn opt_calls(o: Option<Vec<ToolCall>>) -> Option<Seq<ToolCallView>> {
    match o {
        Some(v) => Some(call_views(v@)),
        None => None,
    }
}

/// A copy of a list of calls.
pub fn copy_calls(v: &Vec<ToolCall>) -> (r: Vec<ToolCall>)
    ensures
        call_views(r@) == call_views(v@),
{
    let mut out: Vec<ToolCall> = Vec::new();
    let mut i: usize = 0;
    while i < v.len()
        invariant
            i <= v@.len(),
            out@.len() == i,
            forall|j: int| 0 <= j < i ==> (#[trigger] out@[j])@ == v@[j]@,
        decreases v@.len() - i,
    {
        out.push(v[i].clone());
        i += 1;
    }
    assert(call_views(out@) =~= call_views(v@));
    out
}

/// Whether two lists of calls are equal.
pub fn same_calls(a: &Vec<ToolCall>, b: &Vec<ToolCall>) -> (r: bool)
    ensures
        r == (call_views(a@) == call_views(b@)),
{
    if a.len() != b.len() {
        assert(call_views(a@).len() != call_views(b@).len());
        return false;
    }
    let mut i: usize = 0;
    while i < a.len()
        invariant
            i <= a@.len(),
            a@.len() == b@.len(),
            forall|j: int| 0 <= j < i ==> (#[trigger] a@[j])@ == b@[j]@,
        decreases a@.len() - i,
    {
        if !a[i].same(&b[i]) {
            assert(call_views(a@)[i as int] != call_views(b@)[i as int]);
            return false;
        }
        i += 1;
    }
    assert(call_views(a@) =~= call_views(b@));
    true
}

/// One message of a conversation.
#[derive(Debug, PartialEq, Eq)]
pub struct Message {
    pub role: Role,
    pub content: Option<String>,
    pub tool_calls: Option<Vec<ToolCall>>,
    pub tool_call_id: Option<String>,
}

pub struct MessageView {
    pub role: Role,
    pub content: Option<Seq<char>>,
    pub tool_calls: Option<Seq<ToolCallView>>,
    pub tool_call_id: Option<Seq<char>>,
}

impl View for Message {
    type V = MessageView;

    open spec fn view(&self) -> MessageView {
        MessageView {
            role: self.role,
            content: opt_text(self.content),
            tool_calls: opt_calls(self.tool_calls),
            tool_call_id: opt_text(self.tool_call_id),
        }
    }
}

impl Clone for Message {
    fn clone(&self) -> (r: Self)
        ensures
            r@ == self@,
    {
        Message {
            role: self.role,
            content: copy_opt(&self.content),
            tool_calls: match &self.tool_calls {
                Some(v) => Some(copy_calls(v)),
                None => None,
            },
            tool_call_id: copy_opt(&self.tool_call_id),
        }
    }
}

/// A message that only carries text.
pub open spec fn plain_message(role: Role, content: Seq<char>) -> MessageView {
    MessageView { role, content: Some(content), tool_calls: None, tool_call_id: None }
}

/// The answer of a tool to the call with the given id.
pub open spec fn tool_message(id: Seq<char>, content: Seq<char>) -> MessageView {
    MessageView {
        role: Role::Tool,
        content: Some(content),
        tool_calls: None,
        tool_call_id: Some(id),
    }
}

/// What the model answered.
pub open spec fn assistant_message(
    content: Option<Seq<char>>,
    tool_calls: Option<Seq<ToolCallView>>,
) -> MessageView {
    MessageView { role: Role::Assistant, content, tool_calls, tool_call_id: None }
}

impl Message {
    /// A message that only carries text.
    pub fn new(role: Role, content: impl IntoText) -> (r: Self)
        ensures
            r@ == plain_message(role, content.text()),
    {
        Message {
            role,
            content: Some(content.into_text()),
            tool_calls: None,
            tool_call_id: None,
        }
    }

    /// The answer of a tool to the call with the given id.
    pub fn tool_result(tool_call_id: impl IntoText, content: impl IntoText) -> (r: Self)
        ensures
            r@ == tool_message(tool_call_id.text(), content.text()),
    {
        Message {
            role: Role::Tool,
            content: Some(content.into_text()),
            tool_calls: None,
            tool_call_id: Some(tool_call_id.into_text()),
        }
    }

    /// What the model answered.
    pub fn assistant(content: Option<String>, tool_calls: Option<Vec<ToolCall>>) -> (r: Self)
        ensures
            r@ == assistant_message(opt_text(content), opt_calls(tool_calls)),
    {
        Message { role: Role::Assistant, content, tool_calls, tool_call_id: None }
    }

    /// Whether two messages are equal in all their parts.
    pub fn same(&self, other: &Message) -> (r: bool)
        ensures
            r == (self@ == other@),
    {
        let calls = match (&self.tool_calls, &other.tool_calls) {
            (Some(a), Some(b)) => same_calls(a, b),
            (None, None) => true,
            _ => false,
        };
        self.role == other.role && same_opt(&self.content, &other.content) && calls && same_opt(
            &self.tool_call_id,
            &other.tool_call_id,
        )
    }
}

/// The views of a sequence of messages.
pub open spec fn message_views(v: Seq<Message>) -> Seq<MessageView> {
    v.map_values(|m: Message| m@)
}

/// A copy of a list of messages.
pub fn copy_messages(v: &[Message]) -> (r: Vec<Message>)
    ensures
        message_views(r@) == message_views(v@),
{
    copy_range(v, 0, v.len())
}

/// A copy of the messages from `from` up to `to`.
pub fn copy_range(v: &[Message], from: usize, to: usize) -> (r: Vec<Message>)
    requires
        from <= to <= v@.len(),
    ensures
        message_views(r@) == message_views(v@).subrange(from as int, to as int),
{
    let mut out: Vec<Message> = Vec::new();
    let mut i: usize = from;
    while i < to
        invariant
            from <= i <= to <= v@.len(),
            out@.len() == i - from,
            forall|j: int| 0 <= j < i - from ==> (#[trigger] out@[j])@ == v@[from + j]@,
        decreases to - i,
    {
        out.push(v[i].clone());
        i += 1;
    }
    assert(message_views(out@) =~= message_views(v@).subrange(from as int, to as int));
    out
}

// ---------------------------------------------------------------------------
// Tool definitions
// ---------------------------------------------------------------------------

/// What the model is told of a tool. `parameters` is a JSON schema.
#[derive(Debug, PartialEq, Eq)]
pub struct ToolDefinition {
    pub name: String,
    pub description: String,
    pub parameters: Json,
}

pub struct ToolDefinitionView {
    pub name: Seq<char>,
    pub description: Seq<char>,
    pub parameters: JsonView,
}

impl View for ToolDefinition {
    type V = ToolDefinitionView;

    open spec fn view(&self) -> ToolDefinitionView {
        ToolDefinitionView {
            name: self.name@,
            description: self.description@,
            parameters: self.parameters@,
        }
    }
}

impl Clone for ToolDefinition {
    fn clone(&self) -> (r: Self)
        ensures
            r@ == self@,
    {
        ToolDefinition {
            name: self.name.clone(),
            description: self.description.clone(),
            parameters: self.parameters.clone(),
        }
    }
}

pub open spec fn definition_views(v: Seq<ToolDefinition>) -> Seq<ToolDefinitionView> {
    v.map_values(|d: ToolDefinition| d@)
}

// ---------------------------------------------------------------------------
// Streaming chunks
// ---------------------------------------------------------------------------

/// A fragment of a function call.
#[derive(Debug, Clone)]
pub struct FunctionCallChunk {
    pub name: Option<String>,
    pub arguments: Option<String>,
}

/// A fragment of a tool call; `index` tells which call it belongs to.
#[derive(Debug, Clone)]
pub struct ToolCallChunk {
    pub index: Option<usize>,
    pub id: Option<String>,
    /// The kind of the call.
    pub kind: Option<String>,
    pub function: Option<FunctionCallChunk>,
}

/// What one fragment says of its call.
pub struct FragmentView {
    pub index: Option<usize>,
    pub id: Option<Seq<char>>,
    pub kind: Option<Seq<char>>,
    pub name: Option<Seq<char>>,
    pub arguments: Option<Seq<char>>,
}

impl View for ToolCallChunk {
    type V = FragmentView;

    open spec fn view(&self) -> FragmentView {
        FragmentView {
            index: self.index,
            id: opt_text(self.id),
            kind: opt_text(self.kind),
            name: match self.function {
                Some(f) => opt_text(f.name),
                None => None,
            },
            arguments: match self.function {
                Some(f) => opt_text(f.arguments),
                None => None,
            },
        }
    }
}

/// One chunk of a streamed answer.
#[derive(Debug, Clone)]
pub struct ChatChunk {
    pub delta_content: Option<String>,
    pub delta_tool_calls: Option<Vec<ToolCallChunk>>,
}

pub struct ChatChunkView {
    pub content: Option<Seq<char>>,
    pub calls: Option<Seq<FragmentView>>,
}

pub open spec fn fragment_views(v: Seq<ToolCallChunk>) -> Seq<FragmentView> {
    v.map_values(|c: ToolCallChunk| c@)
}

impl View for ChatChunk {
    type V = ChatChunkView;

    open spec fn view(&self) -> ChatChunkView {
        ChatChunkView {
            content: opt_text(self.delta_content),
            calls: match self.delta_tool_calls {
                Some(v) => Some(fragment_views(v@)),
                None => None,
            },
        }
    }
}

// ---------------------------------------------------------------------------
// Snapshot
// ---------------------------------------------------------------------------

/// A point-in-time capture of a branch.
#[derive(Debug, Clone)]
pub struct ContextSnapshot {
    pub branch_id: String,
    pub branch_name: String,
    pub message_count: usize,
    pub messages: Vec<Message>,
}

// ---------------------------------------------------------------------------
// Laws
// ---------------------------------------------------------------------------

/// The view of a message holds all its parts, and so does that of its calls.
pub proof fn law_message_view(m: Message, calls: Seq<ToolCall>, i: int)
    ensures
        m@.role == m.role,
        m.content matches Some(s) ==> m@.content == Some(s@),
        m.content is None ==> m@.content is None,
        m.tool_call_id matches Some(s) ==> m@.tool_call_id == Some(s@),
        m.tool_call_id is None ==> m@.tool_call_id is None,
        m.tool_calls matches Some(v) ==> m@.tool_calls == Some(call_views(v@)),
        m.tool_calls is None ==> m@.tool_calls is None,
        call_views(calls).len() == calls.len(),
        0 <= i < calls.len() ==> {
            let c = call_views(calls)[i];
            &&& c.id == calls[i].id@
            &&& c.kind == calls[i].kind@
            &&& c.function.name == calls[i].function.name@
            &&& c.function.arguments == calls[i].function.arguments@
        },
{
}

/// Lists of messages, definitions and fragments are seen one by one.
pub proof fn law_list_views(
    messages: Seq<Message>,
    definitions: Seq<ToolDefinition>,
    fragments: Seq<ToolCallChunk>,
    i: int,
)
    ensures
        message_views(messages).len() == messages.len(),
        0 <= i < messages.len() ==> message_views(messages)[i] == messages[i]@,
        definition_views(definitions).len() == definitions.len(),
        0 <= i < definitions.len() ==> {
            let d = definition_views(definitions)[i];
            &&& d.name == definitions[i].name@
            &&& d.description == definitions[i].description@
            &&& d.parameters == definitions[i].parameters@
        },
        fragment_views(fragments).len() == fragments.len(),
        0 <= i < fragments.len() ==> {
            let f = fragment_views(fragments)[i];
            let g = fragments[i];
            &&& f.index == g.index
            &&& f.id == opt_text(g.id)
            &&& f.kind == opt_text(g.kind)
            &&& g.function matches Some(c) ==> f.name == opt_text(c.name) && f.arguments
                == opt_text(c.arguments)
            &&& g.function is None ==> f.name is None && f.arguments is None
        },
{
}

/// The three ways to make a message: with nothing but a text, as the answer to
/// a call, and as an answer of the model.
pub proof fn law_messages(
    role: Role,
    text: Seq<char>,
    id: Seq<char>,
    content: Option<Seq<char>>,
    calls: Option<Seq<ToolCallView>>,
)
    ensures
        ({
            let m = plain_message(role, text);
            m.role == role && m.content == Some(text) && m.tool_calls is None
                && m.tool_call_id is None
        }),
        ({
            let m = tool_message(id, text);
            m.role == Role::Tool && m.content == Some(text) && m.tool_calls is None
                && m.tool_call_id == Some(id)
        }),
        ({
            let m = assistant_message(content, calls);
            m.role == Role::Assistant && m.content == content && m.tool_calls == calls
                && m.tool_call_id is None
        }),
{
}

/// What is seen of a piece of a reply is what it holds.
pub proof fn law_chunk_view(c: ChatChunk)
    ensures
        c@.content == opt_text(c.delta_content),
        c.delta_tool_calls matches Some(v) ==> c@.calls == Some(fragment_views(v@)),
        c.delta_tool_calls is None ==> c@.calls is None,
{
}

} // verus!
