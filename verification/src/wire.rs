//! What goes over the wire to a provider, and what its chunks mean.

use vstd::prelude::*;
use crate::json::{json_views, Json, JsonView, MemberView};
use crate::types::{
    call_views, definition_views, message_views, ChatChunk, ChatChunkView, Message, MessageView,
    Role, ToolCall, ToolCallView, ToolDefinition, ToolDefinitionView,
};

verus! {

// ---------------------------------------------------------------------------
// Messages and tools as JSON
// ---------------------------------------------------------------------------

/// The name of a role.
pub open spec fn role_word(role: Role) -> Seq<char> {
    match role {
        Role::System => "system"@,
        Role::User => "user"@,
        Role::Assistant => "assistant"@,
        Role::Tool => "tool"@,
    }
}

/// A tool call as JSON.
pub open spec fn call_doc(c: ToolCallView) -> JsonView {
    JsonView::empty().with(
        "function"@,
        JsonView::empty().with("arguments"@, JsonView::Text(c.function.arguments)).with(
            "name"@,
            JsonView::Text(c.function.name),
        ),
    ).with("id"@, JsonView::Text(c.id)).with("type"@, JsonView::Text(c.kind))
}

pub open spec fn call_docs(calls: Seq<ToolCallView>) -> Seq<JsonView> {
    calls.map_values(|c: ToolCallView| call_doc(c))
}

/// An optional text as JSON.
pub open spec fn text_or_null(o: Option<Seq<char>>) -> JsonView {
    match o {
        Some(s) => JsonView::Text(s),
        None => JsonView::Null,
    }
}

/// A message as JSON. The content is always there, the id of a call and the
/// calls only if the message has them.
pub open spec fn message_doc(m: MessageView) -> JsonView {
    let head = JsonView::empty().with("content"@, text_or_null(m.content)).with(
        "role"@,
        JsonView::Text(role_word(m.role)),
    );
    let answered = match m.tool_call_id {
        Some(id) => head.with("tool_call_id"@, JsonView::Text(id)),
        None => head,
    };
    match m.tool_calls {
        Some(calls) => answered.with("tool_calls"@, JsonView::List(call_docs(calls))),
        None => answered,
    }
}

pub open spec fn message_docs(messages: Seq<MessageView>) -> Seq<JsonView> {
    messages.map_values(|m: MessageView| message_doc(m))
}

/// A tool as JSON.
pub open spec fn tool_doc(d: ToolDefinitionView) -> JsonView {
    JsonView::empty().with(
        "function"@,
        JsonView::empty().with("description"@, JsonView::Text(d.description)).with(
            "name"@,
            JsonView::Text(d.name),
        ).with("parameters"@, d.parameters),
    ).with("type"@, JsonView::Text("function"@))
}

pub open spec fn tool_docs(tools: Seq<ToolDefinitionView>) -> Seq<JsonView> {
    tools.map_values(|d: ToolDefinitionView| tool_doc(d))
}

/// The name of a role.
fn role_name(role: Role) -> (r: &'static str)
    ensures
        r@ == role_word(role),
{
    match role {
        Role::System => "system",
        Role::User => "user",
        Role::Assistant => "assistant",
        Role::Tool => "tool",
    }
}

fn call_json(c: &ToolCall) -> (r: Json)
    ensures
        r@ == call_doc(c@),
{
    let function = Json::empty().with(
        "arguments",
        Json::text(c.function.arguments.as_str()),
    ).with("name", Json::text(c.function.name.as_str()));
    Json::empty().with("function", function).with("id", Json::text(c.id.as_str())).with(
        "type",
        Json::text(c.kind.as_str()),
    )
}

fn calls_json(calls: &Vec<ToolCall>) -> (r: Json)
    ensures
        r@ == JsonView::List(call_docs(call_views(calls@))),
{
    let mut items: Vec<Json> = Vec::new();
    let mut i: usize = 0;
    while i < calls.len()
        invariant
            i <= calls@.len(),
            items@.len() == i,
            forall|j: int| 0 <= j < i ==> (#[trigger] items@[j])@ == call_doc(calls@[j]@),
        decreases calls@.len() - i,
    {
        items.push(call_json(&calls[i]));
        i += 1;
    }
    assert(json_views(items@) =~= call_docs(call_views(calls@)));
    Json::list(items)
}

/// A message as JSON.
pub fn message_json(m: &Message) -> (r: Json)
    ensures
        r@ == message_doc(m@),
{
    let content = match &m.content {
        Some(s) => Json::text(s.as_str()),
        None => Json::Null,
    };
    let head = Json::empty().with("content", content).with("role", Json::text(role_name(m.role)));
    let answered = match &m.tool_call_id {
        Some(id) => head.with("tool_call_id", Json::text(id.as_str())),
        None => head,
    };
    match &m.tool_calls {
        Some(calls) => answered.with("tool_calls", calls_json(calls)),
        None => answered,
    }
}

/// A list of messages as JSON.
pub fn messages_json(messages: &[Message]) -> (r: Json)
    ensures
        r@ == JsonView::List(message_docs(message_views(messages@))),
{
    let mut items: Vec<Json> = Vec::new();
    let mut i: usize = 0;
    while i < messages.len()
        invariant
            i <= messages@.len(),
            items@.len() == i,
            forall|j: int| 0 <= j < i ==> (#[trigger] items@[j])@ == message_doc(messages@[j]@),
        decreases messages@.len() - i,
    {
        items.push(message_json(&messages[i]));
        i += 1;
    }
    assert(json_views(items@) =~= message_docs(message_views(messages@)));
    Json::list(items)
}

fn tool_json(d: &ToolDefinition) -> (r: Json)
    ensures
        r@ == tool_doc(d@),
{
    let function = Json::empty().with("description", Json::text(d.description.as_str())).with(
        "name",
        Json::text(d.name.as_str()),
    ).with("parameters", d.parameters.clone());
    Json::empty().with("function", function).with("type", Json::text("function"))
}

fn tools_json(tools: &Vec<ToolDefinition>) -> (r: Json)
    ensures
        r@ == JsonView::List(tool_docs(definition_views(tools@))),
{
    let mut items: Vec<Json> = Vec::new();
    let mut i: usize = 0;
    while i < tools.len()
        invariant
            i <= tools@.len(),
            items@.len() == i,
            forall|j: int| 0 <= j < i ==> (#[trigger] items@[j])@ == tool_doc(tools@[j]@),
        decreases tools@.len() - i,
    {
        items.push(tool_json(&tools[i]));
        i += 1;
    }
    assert(json_views(items@) =~= tool_docs(definition_views(tools@)));
    Json::list(items)
}

// ---------------------------------------------------------------------------
// Requests
// ---------------------------------------------------------------------------

/// The body of a request for a streamed answer.
pub open spec fn chat_doc(
    model: Seq<char>,
    messages: Seq<MessageView>,
    tools: Option<Seq<ToolDefinitionView>>,
) -> JsonView {
    let plain = JsonView::empty().with(
        "messages"@,
        JsonView::List(message_docs(messages)),
    ).with("model"@, JsonView::Text(model)).with("stream"@, JsonView::Bool(true));
    match tools {
        Some(list) => plain.with("tools"@, JsonView::List(tool_docs(list))),
        None => plain,
    }
}

pub open spec fn opt_definitions(o: Option<Vec<ToolDefinition>>) -> Option<
    Seq<ToolDefinitionView>,
> {
    match o {
        Some(v) => Some(definition_views(v@)),
        None => None,
    }
}

/// The body of a request for a streamed answer. Tools are named only if they
/// are offered.
pub fn chat_body(model: &str, messages: &[Message], tools: &Option<Vec<ToolDefinition>>) -> (r: Json)
    ensures
        r@ == chat_doc(model@, message_views(messages@), opt_definitions(*tools)),
{
    let plain = Json::empty().with("messages", messages_json(messages)).with(
        "model",
        Json::text(model),
    ).with("stream", Json::Bool(true));
    match tools {
        Some(list) => plain.with("tools", tools_json(list)),
        None => plain,
    }
}

/// The body of a request for the embedding of a text.
pub fn embedding_body(model: &str, prompt: &str) -> (r: Json)
    ensures
        r@ == JsonView::empty().with("model"@, JsonView::Text(model@)).with(
            "prompt"@,
            JsonView::Text(prompt@),
        ),
{
    Json::empty().with("model", Json::text(model)).with("prompt", Json::text(prompt))
}

// ---------------------------------------------------------------------------
// History
// ---------------------------------------------------------------------------

/// A branch as a member of the history: its id, and its name and messages.
pub open spec fn history_member(id: Seq<char>, name: Seq<char>, messages: Seq<MessageView>) -> MemberView {
    MemberView {
        key: id,
        value: JsonView::List(
            seq![JsonView::Text(name), JsonView::List(message_docs(messages))],
        ),
    }
}

/// The history of all branches, in the order of the snapshot.
pub open spec fn history_doc(snapshot: Seq<(String, (String, Vec<Message>))>) -> JsonView {
    JsonView::Object(
        snapshot.map_values(
            |x: (String, (String, Vec<Message>))|
                history_member(x.0@, x.1.0@, message_views(x.1.1@)),
        ),
    )
}

/// A snapshot of all branches as JSON.
pub fn history_json(snapshot: &Vec<(String, (String, Vec<Message>))>) -> (r: Json)
    ensures
        r@ == history_doc(snapshot@),
{
    let mut doc = Json::empty();
    let mut i: usize = 0;
    let ghost all = history_doc(snapshot@)->Object_0;
    assert(all.take(0) =~= Seq::empty());
    while i < snapshot.len()
        invariant
            i <= snapshot@.len(),
            all == history_doc(snapshot@)->Object_0,
            all.len() == snapshot@.len(),
            doc@ == JsonView::Object(all.take(i as int)),
        decreases snapshot@.len() - i,
    {
        let entry = &snapshot[i];
        let mut pair: Vec<Json> = Vec::new();
        pair.push(Json::text(entry.1.0.as_str()));
        pair.push(messages_json(entry.1.1.as_slice()));
        assert(json_views(pair@) =~= seq![pair@[0]@, pair@[1]@]);
        doc = doc.with(entry.0.as_str(), Json::list(pair));
        assert(all.take(i + 1) =~= all.take(i as int).push(all[i as int]));
        i += 1;
    }
    assert(all.take(i as int) =~= all);
    doc
}

// ---------------------------------------------------------------------------
// Chunks
// ---------------------------------------------------------------------------

/// A chunk as a provider sends it.
#[derive(Debug, Clone)]
pub enum WireChunk {
    /// OpenAI-compatible: one delta for each of the alternative answers.
    OpenAI { choices: Vec<ChatChunk> },
    /// Ollama's own format: a piece of text, or the end.
    Ollama { content: String, done: bool },
}

/// What a chunk leads to.
#[derive(Debug, Clone)]
pub enum ChunkStep {
    /// Hand this on.
    Yield(ChatChunk),
    /// Nothing to hand on.
    Skip,
    /// The stream is complete.
    Stop,
}

pub enum ChunkStepView {
    Yield(ChatChunkView),
    Skip,
    Stop,
}

impl View for ChunkStep {
    type V = ChunkStepView;

    open spec fn view(&self) -> ChunkStepView {
        match *self {
            ChunkStep::Yield(c) => ChunkStepView::Yield(c@),
            ChunkStep::Skip => ChunkStepView::Skip,
            ChunkStep::Stop => ChunkStepView::Stop,
        }
    }
}

/// Only the first of the alternative answers counts; of Ollama's own chunks
/// the last one, which is marked as done, has nothing to say.
pub open spec fn chunk_meaning(chunk: WireChunk) -> ChunkStepView {
    match chunk {
        WireChunk::OpenAI { choices } => if choices@.len() == 0 {
            ChunkStepView::Skip
        } else {
            ChunkStepView::Yield(choices@[0]@)
        },
        WireChunk::Ollama { content, done } => if done {
            ChunkStepView::Stop
        } else {
            ChunkStepView::Yield(ChatChunkView { content: Some(content@), calls: None })
        },
    }
}

/// What a chunk leads to.
pub fn read_chunk(chunk: WireChunk) -> (r: ChunkStep)
    ensures
        r@ == chunk_meaning(chunk),
{
    match chunk {
        WireChunk::OpenAI { choices } => {
            let mut list = choices;
            if list.len() == 0 {
                ChunkStep::Skip
            } else {
                ChunkStep::Yield(list.remove(0))
            }
        },
        WireChunk::Ollama { content, done } => {
            if done {
                ChunkStep::Stop
            } else {
                ChunkStep::Yield(
                    ChatChunk { delta_content: Some(content), delta_tool_calls: None },
                )
            }
        },
    }
}

// ---------------------------------------------------------------------------
// Nothing is lost on the wire
// ---------------------------------------------------------------------------

proof fn lemma_role_words(a: Role, b: Role)
    requires
        role_word(a) == role_word(b),
    ensures
        a == b,
{
    reveal_strlit("system");
    reveal_strlit("user");
    reveal_strlit("assistant");
    reveal_strlit("tool");
    assert("system"@[0] == 's' && "user"@[0] == 'u' && "assistant"@[0] == 'a' && "tool"@[0] == 't');
}

proof fn lemma_call_docs(a: ToolCallView, b: ToolCallView)
    requires
        call_doc(a) == call_doc(b),
    ensures
        a == b,
{
    let fa = call_doc(a)->Object_0[0].value;
    let fb = call_doc(b)->Object_0[0].value;
    assert(fa->Object_0[0].value == JsonView::Text(a.function.arguments));
    assert(fb->Object_0[0].value == JsonView::Text(b.function.arguments));
    assert(fa->Object_0[1].value == JsonView::Text(a.function.name));
    assert(fb->Object_0[1].value == JsonView::Text(b.function.name));
    assert(call_doc(a)->Object_0[1].value == JsonView::Text(a.id));
    assert(call_doc(b)->Object_0[1].value == JsonView::Text(b.id));
    assert(call_doc(a)->Object_0[2].value == JsonView::Text(a.kind));
    assert(call_doc(b)->Object_0[2].value == JsonView::Text(b.kind));
}

proof fn lemma_all_call_docs(a: Seq<ToolCallView>, b: Seq<ToolCallView>)
    requires
        call_docs(a) == call_docs(b),
    ensures
        a == b,
{
    assert(call_docs(a).len() == a.len());
    assert(call_docs(b).len() == b.len());
    assert forall|i: int| 0 <= i < a.len() implies a[i] == b[i] by {
        assert(call_docs(a)[i] == call_doc(a[i]));
        assert(call_docs(b)[i] == call_doc(b[i]));
        lemma_call_docs(a[i], b[i]);
    }
    assert(a =~= b);
}

/// The number of members of a message.
proof fn lemma_members(m: MessageView)
    ensures
        ({
            let d = message_doc(m)->Object_0;
            &&& message_doc(m) is Object
            &&& d.len() == 2 + (if m.tool_call_id is Some {
                1int
            } else {
                0
            }) + (if m.tool_calls is Some {
                1int
            } else {
                0
            })
            &&& d[0].value == text_or_null(m.content)
            &&& d[1].value == JsonView::Text(role_word(m.role))
            &&& m.tool_call_id matches Some(id) ==> d[2].value == JsonView::Text(id)
            &&& m.tool_calls matches Some(calls) ==> d.last().value == JsonView::List(
                call_docs(calls),
            )
        }),
{
}

/// Two messages that look the same on the wire are the same: a message can be
/// told from its JSON form.
pub proof fn law_messages_survive(a: MessageView, b: MessageView)
    requires
        message_doc(a) == message_doc(b),
    ensures
        a == b,
{
    lemma_members(a);
    lemma_members(b);
    lemma_role_words(a.role, b.role);
    assert(a.content == b.content);
    let d = message_doc(a)->Object_0;
    if a.tool_calls is Some && b.tool_calls is Some {
        lemma_all_call_docs(a.tool_calls->0, b.tool_calls->0);
    }
    if a.tool_call_id is Some {
        assert(d[2].value is Text);
    }
    if a.tool_calls is Some {
        assert(d.last().value is List);
    }
    if b.tool_calls is Some {
        assert(d.last().value is List);
    }
}

/// The same of whole conversations: no message is lost, added or moved.
pub proof fn law_conversation_survives(a: Seq<MessageView>, b: Seq<MessageView>)
    requires
        message_docs(a) == message_docs(b),
    ensures
        a == b,
{
    assert(message_docs(a).len() == a.len());
    assert(message_docs(b).len() == b.len());
    assert forall|i: int| 0 <= i < a.len() implies a[i] == b[i] by {
        assert(message_docs(a)[i] == message_doc(a[i]));
        assert(message_docs(b)[i] == message_doc(b[i]));
        law_messages_survive(a[i], b[i]);
    }
    assert(a =~= b);
}

// ---------------------------------------------------------------------------
// What the documents look like
// ---------------------------------------------------------------------------

pub open spec fn entry(key: Seq<char>, value: JsonView) -> MemberView {
    MemberView { key, value }
}

/// A tool call, member by member.
pub proof fn law_call_document(c: ToolCallView)
    ensures
        call_doc(c) == JsonView::Object(
            seq![
                entry(
                    "function"@,
                    JsonView::Object(
                        seq![
                            entry("arguments"@, JsonView::Text(c.function.arguments)),
                            entry("name"@, JsonView::Text(c.function.name)),
                        ],
                    ),
                ),
                entry("id"@, JsonView::Text(c.id)),
                entry("type"@, JsonView::Text(c.kind)),
            ],
        ),
{
    let f = JsonView::empty().with("arguments"@, JsonView::Text(c.function.arguments)).with(
        "name"@,
        JsonView::Text(c.function.name),
    );
    assert(f->Object_0 =~= seq![
        entry("arguments"@, JsonView::Text(c.function.arguments)),
        entry("name"@, JsonView::Text(c.function.name)),
    ]);
    assert(call_doc(c)->Object_0 =~= seq![
        entry("function"@, f),
        entry("id"@, JsonView::Text(c.id)),
        entry("type"@, JsonView::Text(c.kind)),
    ]);
}

/// A message, member by member: its text or null, its role, the id of the call
/// that it answers and the calls that it makes, where it has them.
pub proof fn law_message_document(m: MessageView)
    ensures
        ({
            let text = entry(
                "content"@,
                if m.content is Some {
                    JsonView::Text(m.content->0)
                } else {
                    JsonView::Null
                },
            );
            let role = entry(
                "role"@,
                JsonView::Text(
                    if m.role == Role::System {
                        "system"@
                    } else if m.role == Role::User {
                        "user"@
                    } else if m.role == Role::Assistant {
                        "assistant"@
                    } else {
                        "tool"@
                    },
                ),
            );
            let id = if m.tool_call_id is Some {
                seq![entry("tool_call_id"@, JsonView::Text(m.tool_call_id->0))]
            } else {
                Seq::empty()
            };
            let calls = if m.tool_calls is Some {
                seq![entry("tool_calls"@, JsonView::List(call_docs(m.tool_calls->0)))]
            } else {
                Seq::empty()
            };
            message_doc(m) == JsonView::Object(seq![text, role] + id + calls)
        }),
{
    let text = entry(
        "content"@,
        if m.content is Some {
            JsonView::Text(m.content->0)
        } else {
            JsonView::Null
        },
    );
    let role = entry("role"@, JsonView::Text(role_word(m.role)));
    let id = if m.tool_call_id is Some {
        seq![entry("tool_call_id"@, JsonView::Text(m.tool_call_id->0))]
    } else {
        Seq::empty()
    };
    let calls = if m.tool_calls is Some {
        seq![entry("tool_calls"@, JsonView::List(call_docs(m.tool_calls->0)))]
    } else {
        Seq::empty()
    };
    assert(message_doc(m)->Object_0 =~= seq![text, role] + id + calls);
}

/// A tool as the model is told of it, member by member.
pub proof fn law_tool_document(d: ToolDefinitionView)
    ensures
        tool_doc(d) == JsonView::Object(
            seq![
                entry(
                    "function"@,
                    JsonView::Object(
                        seq![
                            entry("description"@, JsonView::Text(d.description)),
                            entry("name"@, JsonView::Text(d.name)),
                            entry("parameters"@, d.parameters),
                        ],
                    ),
                ),
                entry("type"@, JsonView::Text("function"@)),
            ],
        ),
{
    let f = JsonView::empty().with("description"@, JsonView::Text(d.description)).with(
        "name"@,
        JsonView::Text(d.name),
    ).with("parameters"@, d.parameters);
    assert(f->Object_0 =~= seq![
        entry("description"@, JsonView::Text(d.description)),
        entry("name"@, JsonView::Text(d.name)),
        entry("parameters"@, d.parameters),
    ]);
    assert(tool_doc(d)->Object_0 =~= seq![
        entry("function"@, f),
        entry("type"@, JsonView::Text("function"@)),
    ]);
}

/// A request for an answer holds all messages in order, the model, the wish
/// for a stream, and the tools exactly if they are offered.
pub proof fn law_chat_document(
    model: Seq<char>,
    messages: Seq<MessageView>,
    tools: Option<Seq<ToolDefinitionView>>,
    i: int,
)
    ensures
        ({
            let plain = seq![
                entry("messages"@, JsonView::List(message_docs(messages))),
                entry("model"@, JsonView::Text(model)),
                entry("stream"@, JsonView::Bool(true)),
            ];
            &&& tools is None ==> chat_doc(model, messages, tools) == JsonView::Object(plain)
            &&& tools matches Some(list) ==> chat_doc(model, messages, tools) == JsonView::Object(
                plain.push(entry("tools"@, JsonView::List(tool_docs(list)))),
            )
        }),
        message_docs(messages).len() == messages.len(),
        0 <= i < messages.len() ==> message_docs(messages)[i] == message_doc(messages[i]),
        tools matches Some(list) ==> tool_docs(list).len() == list.len() && (0 <= i < list.len()
            ==> tool_docs(list)[i] == tool_doc(list[i])),
        messages.len() > 0 ==> (messages[0].tool_calls matches Some(calls) ==> call_docs(
            calls,
        ).len() == calls.len() && (0 <= i < calls.len() ==> call_docs(calls)[i] == call_doc(
            calls[i],
        ))),
{
    let plain = seq![
        entry("messages"@, JsonView::List(message_docs(messages))),
        entry("model"@, JsonView::Text(model)),
        entry("stream"@, JsonView::Bool(true)),
    ];
    if let Some(list) = tools {
        assert(chat_doc(model, messages, tools)->Object_0 =~= plain.push(
            entry("tools"@, JsonView::List(tool_docs(list))),
        ));
    } else {
        assert(chat_doc(model, messages, tools)->Object_0 =~= plain);
    }
}

/// The history holds every branch of the snapshot under its id, with its name
/// and its messages.
pub proof fn law_history_document(snapshot: Seq<(String, (String, Vec<Message>))>, i: int)
    requires
        0 <= i < snapshot.len(),
    ensures
        history_doc(snapshot) matches JsonView::Object(members) && members.len() == snapshot.len()
            && members[i].key == snapshot[i].0@ && members[i].value == JsonView::List(
            seq![
                JsonView::Text(snapshot[i].1.0@),
                JsonView::List(message_docs(message_views(snapshot[i].1.1@))),
            ],
        ),
{
}

/// Of a chunk with alternatives the first one counts, and without one there is
/// nothing to hand on; a chunk of Ollama is its text, or the end.
pub proof fn law_chunks(choices: Vec<ChatChunk>, content: String, done: bool)
    ensures
        choices@.len() == 0 ==> chunk_meaning(WireChunk::OpenAI { choices }) is Skip,
        choices@.len() > 0 ==> chunk_meaning(WireChunk::OpenAI { choices })
            == ChunkStepView::Yield(choices@[0]@),
        done ==> chunk_meaning(WireChunk::Ollama { content, done }) is Stop,
        !done ==> chunk_meaning(WireChunk::Ollama { content, done }) == ChunkStepView::Yield(
            ChatChunkView { content: Some(content@), calls: None },
        ),
{
}

/// What is seen of a step of a stream is what it holds.
pub proof fn law_views(chunk: ChatChunk, tools: Vec<ToolDefinition>)
    ensures
        ChunkStep::Yield(chunk)@ == ChunkStepView::Yield(chunk@),
        ChunkStep::Skip@ is Skip,
        ChunkStep::Stop@ is Stop,
        opt_definitions(None) is None,
        opt_definitions(Some(tools)) == Some(definition_views(tools@)),
{
}

} // verus!
