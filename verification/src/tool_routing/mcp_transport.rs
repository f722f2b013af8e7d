//! MCP (Model Context Protocol): tools in Docker containers.
//!
//! A session is a row of JSON-RPC 2.0 messages over the standard streams of a
//! process: initialize, notifications/initialized, and then tools/list or
//! tools/call.

use vstd::prelude::*;
use crate::json::{
    json_result, json_views, parse_json, parsed_json, Json, JsonView, MemberView,
};
use crate::text::{
    copy_texts, decimal, join, joined, same, show, show_i64, signed_decimal, text_result, texts, trim, trimmed,
};
use crate::tool_routing::{AsyncTool, ToolKind, ToolKindView};
use crate::types::{ToolDefinition, ToolDefinitionView};

verus! {

// ---------------------------------------------------------------------------
// Messages of a session
// ---------------------------------------------------------------------------

/// A message to the container.
#[derive(Debug, PartialEq, Eq)]
pub enum RpcMessage {
    /// A request, which is answered.
    Request { id: u64, method: String, params: Option<Json> },
    /// A notification, which is not answered.
    Notification { method: String },
}

pub enum RpcMessageView {
    Request { id: u64, method: Seq<char>, params: Option<JsonView> },
    Notification { method: Seq<char> },
}

pub open spec fn opt_params(o: Option<Json>) -> Option<JsonView> {
    match o {
        Some(j) => Some(j@),
        None => None,
    }
}

impl View for RpcMessage {
    type V = RpcMessageView;

    open spec fn view(&self) -> RpcMessageView {
        match *self {
            RpcMessage::Request { id, method, params } => RpcMessageView::Request {
                id,
                method: method@,
                params: opt_params(params),
            },
            RpcMessage::Notification { method } => RpcMessageView::Notification {
                method: method@,
            },
        }
    }
}

pub open spec fn rpc_views(v: Seq<RpcMessage>) -> Seq<RpcMessageView> {
    v.map_values(|m: RpcMessage| m@)
}

impl RpcMessageView {
    /// The message as it is sent, one line each.
    pub open spec fn frame(self) -> JsonView {
        let head = JsonView::empty().with("jsonrpc"@, JsonView::Text("2.0"@));
        match self {
            RpcMessageView::Request { id, method, params } => {
                let asked = head.with("id"@, JsonView::Number(decimal(id as nat))).with(
                    "method"@,
                    JsonView::Text(method),
                );
                match params {
                    Some(p) => asked.with("params"@, p),
                    None => asked,
                }
            },
            RpcMessageView::Notification { method } => head.with(
                "method"@,
                JsonView::Text(method),
            ),
        }
    }
}

impl RpcMessage {
    /// The message as it is sent.
    pub fn frame(&self) -> (r: Json)
        ensures
            r@ == self@.frame(),
    {
        let head = Json::empty().with("jsonrpc", Json::text("2.0"));
        match self {
            RpcMessage::Request { id, method, params } => {
                let asked = head.with("id", Json::Number(show(*id as u128))).with(
                    "method",
                    Json::text(method.as_str()),
                );
                match params {
                    Some(p) => asked.with("params", p.clone()),
                    None => asked,
                }
            },
            RpcMessage::Notification { method } => head.with(
                "method",
                Json::text(method.as_str()),
            ),
        }
    }
}

/// What the agent says of itself.
pub open spec fn init_params() -> JsonView {
    JsonView::empty().with("capabilities"@, JsonView::empty()).with(
        "clientInfo"@,
        JsonView::empty().with("name"@, JsonView::Text("ai-agent"@)).with(
            "version"@,
            JsonView::Text("0.1.0"@),
        ),
    ).with("protocolVersion"@, JsonView::Text("2024-11-05"@))
}

/// The two messages every session begins with.
pub open spec fn handshake() -> Seq<RpcMessageView> {
    seq![
        RpcMessageView::Request {
            id: 1,
            method: "initialize"@,
            params: Some(init_params()),
        },
        RpcMessageView::Notification { method: "notifications/initialized"@ },
    ]
}

fn begin_session() -> (r: Vec<RpcMessage>)
    ensures
        rpc_views(r@) == handshake(),
{
    let client = Json::empty().with("name", Json::text("ai-agent")).with(
        "version",
        Json::text("0.1.0"),
    );
    let params = Json::empty().with("capabilities", Json::empty()).with("clientInfo", client).with(
        "protocolVersion",
        Json::text("2024-11-05"),
    );
    let mut v: Vec<RpcMessage> = Vec::new();
    v.push(
        RpcMessage::Request { id: 1, method: "initialize".to_string(), params: Some(params) },
    );
    v.push(RpcMessage::Notification { method: "notifications/initialized".to_string() });
    assert(rpc_views(v@) =~= handshake());
    v
}

/// An error that the container reports.
#[derive(Debug, PartialEq, Eq)]
pub struct RpcError {
    pub code: i64,
    pub message: String,
}

/// The result in a response: an error of the container comes first, and a
/// response without error needs a result.
pub open spec fn response_result(
    error: Option<(i64, Seq<char>)>,
    result: Option<JsonView>,
) -> Result<JsonView, Seq<char>> {
    match (error, result) {
        (Some((code, message)), _) => Err(
            "JSON-RPC error "@ + signed_decimal(code as int) + ": "@ + message,
        ),
        (None, Some(v)) => Ok(v),
        (None, None) => Err("Missing result in JSON-RPC response"@),
    }
}

pub open spec fn error_view(o: Option<RpcError>) -> Option<(i64, Seq<char>)> {
    match o {
        Some(e) => Some((e.code, e.message@)),
        None => None,
    }
}

/// The result in a response.
pub fn read_response(error: Option<RpcError>, result: Option<Json>) -> (r: Result<Json, String>)
    ensures
        json_result(r) == response_result(error_view(error), opt_params(result)),
{
    match error {
        Some(e) => {
            let mut s = "JSON-RPC error ".to_string();
            s.append(show_i64(e.code).as_str());
            s.append(": ");
            s.append(e.message.as_str());
            Err(s)
        },
        None => match result {
            Some(v) => Ok(v),
            None => Err("Missing result in JSON-RPC response".to_string()),
        },
    }
}

// ---------------------------------------------------------------------------
// Configuration of the containers
// ---------------------------------------------------------------------------

/// A container with MCP tools.
#[derive(Debug, PartialEq, Eq)]
pub struct McpContainerConfig {
    /// Name or id of the Docker container.
    pub container_id: String,
    /// The command that starts a session.
    pub command: Vec<String>,
}

/// The complaint about a configuration file that cannot be read.
pub fn unreadable_config(path: &str, error: &str) -> (r: String)
    ensures
        r@ == "Cannot read MCP config '"@ + path@ + "': "@ + error@,
{
    let mut s = "Cannot read MCP config '".to_string();
    s.append(path);
    s.append("': ");
    s.append(error);
    s
}

/// The complaint about a configuration file that makes no sense.
pub fn invalid_config(path: &str, error: &str) -> (r: String)
    ensures
        r@ == "Invalid MCP config '"@ + path@ + "': "@ + error@,
{
    let mut s = "Invalid MCP config '".to_string();
    s.append(path);
    s.append("': ");
    s.append(error);
    s
}

// ---------------------------------------------------------------------------
// Discovery
// ---------------------------------------------------------------------------

/// A tool as its container describes it.
#[derive(Debug, PartialEq, Eq)]
pub struct McpDiscoveredTool {
    pub name: String,
    pub description: String,
    pub parameters: Json,
}

impl View for McpDiscoveredTool {
    type V = ToolDefinitionView;

    open spec fn view(&self) -> ToolDefinitionView {
        ToolDefinitionView {
            name: self.name@,
            description: self.description@,
            parameters: self.parameters@,
        }
    }
}

pub open spec fn discovered_views(v: Seq<McpDiscoveredTool>) -> Seq<ToolDefinitionView> {
    v.map_values(|t: McpDiscoveredTool| t@)
}

/// One entry of a tool list: it needs a name; a missing description is empty,
/// a missing schema is the empty object.
pub open spec fn described_tool(entry: JsonView) -> Option<ToolDefinitionView> {
    match entry.text_member("name"@) {
        Some(name) => Some(
            ToolDefinitionView {
                name,
                description: match entry.text_member("description"@) {
                    Some(d) => d,
                    None => Seq::empty(),
                },
                parameters: match entry.member("inputSchema"@) {
                    Some(p) => p,
                    None => JsonView::empty(),
                },
            },
        ),
        None => None,
    }
}

/// The tools of a list, if every entry has a name.
pub open spec fn described_tools(entries: Seq<JsonView>) -> Option<Seq<ToolDefinitionView>>
    decreases entries.len(),
{
    if entries.len() == 0 {
        Some(Seq::empty())
    } else {
        match (described_tools(entries.drop_last()), described_tool(entries.last())) {
            (Some(before), Some(t)) => Some(before.push(t)),
            _ => None,
        }
    }
}

/// The tools in the result of `tools/list`.
pub open spec fn listed_tools(result: JsonView) -> Result<Seq<ToolDefinitionView>, Seq<char>> {
    match result.member("tools"@) {
        None => Err("Missing 'tools' field in response"@),
        Some(JsonView::List(entries)) => match described_tools(entries) {
            Some(tools) => Ok(tools),
            None => Err("Tool missing 'name' string"@),
        },
        Some(_) => Err("'tools' field is not an array"@),
    }
}

pub open spec fn discovery_view(r: Result<Vec<McpDiscoveredTool>, String>) -> Result<
    Seq<ToolDefinitionView>,
    Seq<char>,
> {
    match r {
        Ok(v) => Ok(discovered_views(v@)),
        Err(e) => Err(e@),
    }
}

proof fn lemma_undescribed(entries: Seq<JsonView>, i: int)
    requires
        0 <= i < entries.len(),
        described_tool(entries[i]) is None,
    ensures
        described_tools(entries) is None,
    decreases entries.len(),
{
    if i < entries.len() - 1 {
        assert(entries.drop_last()[i] == entries[i]);
        lemma_undescribed(entries.drop_last(), i);
    }
}

/// Discovery of the tools of a container.
pub struct McpToolProvider;

impl McpToolProvider {
    /// The messages of a session that asks for the tools. The response to the
    /// last one holds them.
    pub fn discovery_session() -> (r: Vec<RpcMessage>)
        ensures
            rpc_views(r@) == handshake().push(
                RpcMessageView::Request { id: 2, method: "tools/list"@, params: None },
            ),
    {
        let mut v = begin_session();
        let ghost before = v@;
        v.push(RpcMessage::Request { id: 2, method: "tools/list".to_string(), params: None });
        assert(rpc_views(v@) =~= rpc_views(before).push(
            RpcMessageView::Request { id: 2, method: "tools/list"@, params: None },
        ));
        v
    }

    /// The tools in the result of `tools/list`.
    pub fn discover(result: &Json) -> (r: Result<Vec<McpDiscoveredTool>, String>)
        ensures
            discovery_view(r) == listed_tools(result@),
    {
        let tools = match result.get("tools") {
            Some(t) => t,
            None => {
                return Err("Missing 'tools' field in response".to_string());
            },
        };
        let entries = match tools.items() {
            Some(v) => v,
            None => {
                return Err("'tools' field is not an array".to_string());
            },
        };
        let ghost all = json_views(entries@);
        let mut found: Vec<McpDiscoveredTool> = Vec::new();
        let mut i: usize = 0;
        assert(all.take(0) =~= Seq::empty());
        assert(discovered_views(found@) =~= Seq::empty());
        while i < entries.len()
            invariant
                i <= entries@.len(),
                all == json_views(entries@),
                result@.member("tools"@) == Some(JsonView::List(all)),
                described_tools(all.take(i as int)) == Some(discovered_views(found@)),
            decreases entries@.len() - i,
        {
            let entry = &entries[i];
            proof {
                assert(all[i as int] == entry@);
                assert(all.take(i + 1).drop_last() =~= all.take(i as int));
                assert(all.take(i + 1).last() == entry@);
            }
            let name = match entry.get_text("name") {
                Some(s) => s.clone(),
                None => {
                    proof {
                        lemma_undescribed(all, i as int);
                    }
                    return Err("Tool missing 'name' string".to_string());
                },
            };
            let description = match entry.get_text("description") {
                Some(s) => s.clone(),
                None => String::new(),
            };
            let parameters = match entry.get("inputSchema") {
                Some(p) => p.clone(),
                None => Json::empty(),
            };
            let ghost before = found@;
            found.push(McpDiscoveredTool { name, description, parameters });
            assert(discovered_views(found@) =~= discovered_views(before).push(found@.last()@));
            i += 1;
        }
        assert(all.take(i as int) =~= all);
        Ok(found)
    }
}

// ---------------------------------------------------------------------------
// MCP tools
// ---------------------------------------------------------------------------

/// A tool in a container.
#[derive(Debug, PartialEq, Eq)]
pub struct McpTool {
    pub name: String,
    pub description: String,
    pub parameters: Json,
    pub container_id: String,
    pub command: Vec<String>,
}

#[verifier::ext_equal]
pub struct McpToolView {
    pub definition: ToolDefinitionView,
    pub container_id: Seq<char>,
    pub command: Seq<Seq<char>>,
}

impl View for McpTool {
    type V = McpToolView;

    open spec fn view(&self) -> McpToolView {
        McpToolView {
            definition: ToolDefinitionView {
                name: self.name@,
                description: self.description@,
                parameters: self.parameters@,
            },
            container_id: self.container_id@,
            command: texts(self.command@),
        }
    }
}

pub open spec fn mcp_views(v: Seq<McpTool>) -> Seq<McpToolView> {
    v.map_values(|t: McpTool| t@)
}

/// The arguments of a call: no text at all counts as the empty object.
pub open spec fn call_arguments(
    text: Seq<char>,
    parsed: Result<JsonView, Seq<char>>,
) -> Result<JsonView, Seq<char>> {
    if trimmed(text).len() == 0 {
        Ok(JsonView::empty())
    } else {
        match parsed {
            Ok(v) => Ok(v),
            Err(e) => Err("Failed to parse arguments as JSON: "@ + e),
        }
    }
}

/// The text of an item of content, if it is a text item.
pub open spec fn content_text(item: JsonView) -> Option<Seq<char>> {
    if item.text_member("type"@) == Some("text"@) {
        item.text_member("text"@)
    } else {
        None
    }
}

/// The texts among the items of content.
pub open spec fn content_texts(items: Seq<JsonView>) -> Seq<Seq<char>>
    decreases items.len(),
{
    if items.len() == 0 {
        Seq::empty()
    } else {
        let before = content_texts(items.drop_last());
        match content_text(items.last()) {
            Some(t) => before.push(t),
            None => before,
        }
    }
}

/// The output in the result of `tools/call`.
pub open spec fn call_output(result: JsonView) -> Result<Seq<char>, Seq<char>> {
    match result.member("content"@) {
        None => Err("Missing 'content' field in response"@),
        Some(JsonView::List(items)) => Ok(joined(content_texts(items), "\n"@)),
        Some(_) => Err("'content' field is not an array"@),
    }
}

/// The messages of a session that calls a tool.
pub open spec fn call_session(name: Seq<char>, arguments: JsonView) -> Seq<RpcMessageView> {
    handshake().push(
        RpcMessageView::Request {
            id: 3,
            method: "tools/call"@,
            params: Some(
                JsonView::empty().with("arguments"@, arguments).with(
                    "name"@,
                    JsonView::Text(name),
                ),
            ),
        },
    )
}

pub open spec fn session_view(r: Result<Vec<RpcMessage>, String>) -> Result<
    Seq<RpcMessageView>,
    Seq<char>,
> {
    match r {
        Ok(v) => Ok(rpc_views(v@)),
        Err(e) => Err(e@),
    }
}

impl McpTool {
    pub fn new(
        name: String,
        container_id: String,
        description: String,
        parameters: Json,
        command: Vec<String>,
    ) -> (r: Self)
        ensures
            r@ == (McpToolView {
                definition: ToolDefinitionView {
                    name: name@,
                    description: description@,
                    parameters: parameters@,
                },
                container_id: container_id@,
                command: texts(command@),
            }),
    {
        McpTool { name, description, parameters, container_id, command }
    }

    /// The session for a call, given what the parser says of the arguments.
    pub fn session_for(&self, arguments: &str, parsed: Result<Json, String>) -> (r: Result<
        Vec<RpcMessage>,
        String,
    >)
        ensures
            session_view(r) == match call_arguments(arguments@, json_result(parsed)) {
                Ok(v) => Ok(call_session(self@.definition.name, v)),
                Err(e) => Err(e),
            },
    {
        let value = if trim(arguments).as_str().is_empty() {
            Json::empty()
        } else {
            match parsed {
                Ok(v) => v,
                Err(e) => {
                    let mut s = "Failed to parse arguments as JSON: ".to_string();
                    s.append(e.as_str());
                    return Err(s);
                },
            }
        };
        let params = Json::empty().with("arguments", value).with(
            "name",
            Json::text(self.name.as_str()),
        );
        let mut v = begin_session();
        let ghost before = v@;
        v.push(
            RpcMessage::Request { id: 3, method: "tools/call".to_string(), params: Some(params) },
        );
        assert(rpc_views(v@) =~= rpc_views(before).push(v@.last()@));
        Ok(v)
    }

    /// The messages of a session that calls the tool. The response to the last
    /// one holds the output.
    pub fn session(&self, arguments: &str) -> (r: Result<Vec<RpcMessage>, String>)
        ensures
            session_view(r) == match call_arguments(arguments@, parsed_json(arguments@)) {
                Ok(v) => Ok(call_session(self@.definition.name, v)),
                Err(e) => Err(e),
            },
    {
        self.session_for(arguments, parse_json(arguments))
    }

    /// The output in the result of `tools/call`: the text items, one per line.
    pub fn output(result: &Json) -> (r: Result<String, String>)
        ensures
            text_result(r) == call_output(result@),
    {
        let content = match result.get("content") {
            Some(c) => c,
            None => {
                return Err("Missing 'content' field in response".to_string());
            },
        };
        let items = match content.items() {
            Some(v) => v,
            None => {
                return Err("'content' field is not an array".to_string());
            },
        };
        let ghost all = json_views(items@);
        let mut out: Vec<String> = Vec::new();
        let mut i: usize = 0;
        assert(all.take(0) =~= Seq::empty());
        assert(texts(out@) =~= Seq::empty());
        while i < items.len()
            invariant
                i <= items@.len(),
                all == json_views(items@),
                texts(out@) == content_texts(all.take(i as int)),
            decreases items@.len() - i,
        {
            let item = &items[i];
            proof {
                assert(all[i as int] == item@);
                assert(all.take(i + 1).drop_last() =~= all.take(i as int));
                assert(all.take(i + 1).last() == item@);
            }
            match item.get_text("type") {
                Some(kind) => {
                    if same(kind.as_str(), "text") {
                        match item.get_text("text") {
                            Some(text) => {
                                let ghost before = out@;
                                out.push(text.clone());
                                assert(texts(out@) =~= texts(before).push(text@));
                            },
                            None => {},
                        }
                    }
                },
                None => {},
            }
            i += 1;
        }
        assert(all.take(i as int) =~= all);
        Ok(join(&out, "\n"))
    }

    /// The tools of a container after discovery; if it failed there are none.
    pub fn from_discovery(
        config: &McpContainerConfig,
        found: &Result<Vec<McpDiscoveredTool>, String>,
    ) -> (r: Vec<McpTool>)
        ensures
            mcp_views(r@) == match *found {
                Ok(tools) => Seq::new(
                    tools@.len(),
                    |i: int|
                        McpToolView {
                            definition: tools@[i]@,
                            container_id: config.container_id@,
                            command: texts(config.command@),
                        },
                ),
                Err(_) => Seq::empty(),
            },
    {
        let mut out: Vec<McpTool> = Vec::new();
        match found {
            Ok(tools) => {
                let mut i: usize = 0;
                while i < tools.len()
                    invariant
                        i <= tools@.len(),
                        out@.len() == i,
                        forall|j: int|
                            0 <= j < i ==> (#[trigger] out@[j])@ == (McpToolView {
                                definition: tools@[j]@,
                                container_id: config.container_id@,
                                command: texts(config.command@),
                            }),
                    decreases tools@.len() - i,
                {
                    let t = &tools[i];
                    out.push(
                        McpTool::new(
                            t.name.clone(),
                            config.container_id.clone(),
                            t.description.clone(),
                            t.parameters.clone(),
                            copy_texts(&config.command),
                        ),
                    );
                    i += 1;
                }
                assert(mcp_views(out@) =~= Seq::new(
                    tools@.len(),
                    |i: int|
                        McpToolView {
                            definition: tools@[i]@,
                            container_id: config.container_id@,
                            command: texts(config.command@),
                        },
                ));
            },
            Err(_) => {
                assert(mcp_views(out@) =~= Seq::empty());
            },
        }
        out
    }
}

impl AsyncTool for McpTool {
    open spec fn described(&self) -> ToolDefinitionView {
        self@.definition
    }

    open spec fn category(&self) -> ToolKindView {
        ToolKindView::Mcp { container_id: self@.container_id }
    }

    fn definition(&self) -> (r: ToolDefinition) {
        ToolDefinition {
            name: self.name.clone(),
            description: self.description.clone(),
            parameters: self.parameters.clone(),
        }
    }

    fn kind(&self) -> (r: ToolKind) {
        ToolKind::Mcp { container_id: self.container_id.clone() }
    }
}

// ---------------------------------------------------------------------------
// Laws
// ---------------------------------------------------------------------------

/// Every session begins with the same two messages: the request to initialize,
/// with the version of the protocol, and the notification that it is done.
/// Then it calls the tool under its name with the arguments.
pub proof fn law_session(name: Seq<char>, arguments: JsonView)
    ensures
        ({
            let client = JsonView::Object(
                seq![
                    MemberView { key: "name"@, value: JsonView::Text("ai-agent"@) },
                    MemberView { key: "version"@, value: JsonView::Text("0.1.0"@) },
                ],
            );
            let params = JsonView::Object(
                seq![
                    MemberView { key: "capabilities"@, value: JsonView::Object(Seq::empty()) },
                    MemberView { key: "clientInfo"@, value: client },
                    MemberView {
                        key: "protocolVersion"@,
                        value: JsonView::Text("2024-11-05"@),
                    },
                ],
            );
            &&& handshake().len() == 2
            &&& handshake()[0] == (RpcMessageView::Request {
                id: 1,
                method: "initialize"@,
                params: Some(params),
            })
            &&& handshake()[1] == (RpcMessageView::Notification {
                method: "notifications/initialized"@,
            })
            &&& call_session(name, arguments) == handshake().push(
                RpcMessageView::Request {
                    id: 3,
                    method: "tools/call"@,
                    params: Some(
                        JsonView::Object(
                            seq![
                                MemberView { key: "arguments"@, value: arguments },
                                MemberView { key: "name"@, value: JsonView::Text(name) },
                            ],
                        ),
                    ),
                },
            )
        }),
{
    let client = JsonView::empty().with("name"@, JsonView::Text("ai-agent"@)).with(
        "version"@,
        JsonView::Text("0.1.0"@),
    );
    assert(client->Object_0 =~= seq![
        MemberView { key: "name"@, value: JsonView::Text("ai-agent"@) },
        MemberView { key: "version"@, value: JsonView::Text("0.1.0"@) },
    ]);
    assert(init_params()->Object_0 =~= seq![
        MemberView { key: "capabilities"@, value: JsonView::Object(Seq::empty()) },
        MemberView { key: "clientInfo"@, value: client },
        MemberView { key: "protocolVersion"@, value: JsonView::Text("2024-11-05"@) },
    ]);
    let params = JsonView::empty().with("arguments"@, arguments).with(
        "name"@,
        JsonView::Text(name),
    );
    assert(params->Object_0 =~= seq![
        MemberView { key: "arguments"@, value: arguments },
        MemberView { key: "name"@, value: JsonView::Text(name) },
    ]);
}

/// A request carries its number, its method and its parameters, a notification
/// its method alone.
pub proof fn law_frame(id: u64, method: Seq<char>, params: JsonView)
    ensures
        ({
            let version = MemberView { key: "jsonrpc"@, value: JsonView::Text("2.0"@) };
            let number = MemberView {
                key: "id"@,
                value: JsonView::Number(decimal(id as nat)),
            };
            let name = MemberView { key: "method"@, value: JsonView::Text(method) };
            let with = MemberView { key: "params"@, value: params };
            &&& (RpcMessageView::Request { id, method, params: Some(params) }).frame()
                == JsonView::Object(seq![version, number, name, with])
            &&& (RpcMessageView::Request { id, method, params: None }).frame()
                == JsonView::Object(seq![version, number, name])
            &&& (RpcMessageView::Notification { method }).frame() == JsonView::Object(
                seq![version, name],
            )
        }),
{
    let version = MemberView { key: "jsonrpc"@, value: JsonView::Text("2.0"@) };
    let number = MemberView { key: "id"@, value: JsonView::Number(decimal(id as nat)) };
    let name = MemberView { key: "method"@, value: JsonView::Text(method) };
    let with = MemberView { key: "params"@, value: params };
    assert((RpcMessageView::Request { id, method, params: Some(params) }).frame()->Object_0
        =~= seq![version, number, name, with]);
    assert((RpcMessageView::Request { id, method, params: None }).frame()->Object_0 =~= seq![
        version,
        number,
        name,
    ]);
    assert((RpcMessageView::Notification { method }).frame()->Object_0 =~= seq![version, name]);
}

/// A response is its result; an error counts first, and neither is an error
/// too.
pub proof fn law_response(code: i64, message: Seq<char>, result: Option<JsonView>, v: JsonView)
    ensures
        response_result(Some((code, message)), result) == Err::<JsonView, Seq<char>>(
            "JSON-RPC error "@ + signed_decimal(code as int) + ": "@ + message,
        ),
        response_result(None, Some(v)) == Ok::<JsonView, Seq<char>>(v),
        response_result(None, None) == Err::<JsonView, Seq<char>>(
            "Missing result in JSON-RPC response"@,
        ),
{
}

/// The tools that a container lists: each entry in its place, with its name,
/// its description and its schema. An entry without a name spoils the list,
/// and anything but a list of tools is reported.
pub proof fn law_listed_tools(result: JsonView, entries: Seq<JsonView>, i: int)
    ensures
        result.member("tools"@) is None ==> listed_tools(result) == Err::<
            Seq<ToolDefinitionView>,
            Seq<char>,
        >("Missing 'tools' field in response"@),
        result.member("tools"@) matches Some(v) ==> !(v is List) ==> listed_tools(result) == Err::<
            Seq<ToolDefinitionView>,
            Seq<char>,
        >("'tools' field is not an array"@),
        result.member("tools"@) == Some(JsonView::List(entries)) ==> {
            &&& 0 <= i < entries.len() && entries[i].text_member("name"@) is None
                ==> listed_tools(result) == Err::<Seq<ToolDefinitionView>, Seq<char>>(
                "Tool missing 'name' string"@,
            )
            &&& (forall|k: int|
                0 <= k < entries.len() ==> (#[trigger] entries[k]).text_member("name"@) is Some)
                ==> (listed_tools(result) matches Ok(tools) && tools.len() == entries.len() && (0
                <= i < entries.len() ==> {
                let e = entries[i];
                &&& e.text_member("name"@) == Some(tools[i].name)
                &&& e.text_member("description"@) matches Some(d) ==> tools[i].description == d
                &&& e.text_member("description"@) is None ==> tools[i].description.len() == 0
                &&& e.member("inputSchema"@) matches Some(p) ==> tools[i].parameters == p
                &&& e.member("inputSchema"@) is None ==> tools[i].parameters == JsonView::Object(
                    Seq::empty(),
                )
            }))
        },
{
    if result.member("tools"@) == Some(JsonView::List(entries)) {
        if 0 <= i < entries.len() && entries[i].text_member("name"@) is None {
            lemma_undescribed(entries, i);
        }
        if forall|k: int|
            0 <= k < entries.len() ==> (#[trigger] entries[k]).text_member("name"@) is Some {
            lemma_described(entries, i);
        }
    }
}

proof fn lemma_described(entries: Seq<JsonView>, i: int)
    requires
        forall|k: int|
            0 <= k < entries.len() ==> (#[trigger] entries[k]).text_member("name"@) is Some,
    ensures
        described_tools(entries) matches Some(tools) && tools.len() == entries.len() && (0 <= i
            < entries.len() ==> described_tool(entries[i]) == Some(tools[i])),
    decreases entries.len(),
{
    if entries.len() > 0 {
        let init = entries.drop_last();
        assert forall|k: int| 0 <= k < init.len() implies (#[trigger] init[k]).text_member(
            "name"@,
        ) is Some by {
            assert(init[k] == entries[k]);
        }
        lemma_described(init, i);
        assert(entries[entries.len() - 1].text_member("name"@) is Some);
        if 0 <= i < init.len() {
            assert(init[i] == entries[i]);
        }
    }
}

/// The arguments of a call: a blank text is the empty object, any other text
/// is what the parser makes of it.
pub proof fn law_call_arguments(text: Seq<char>, v: JsonView, e: Seq<char>)
    ensures
        trimmed(text).len() == 0 ==> call_arguments(text, Ok(v)) == Ok::<JsonView, Seq<char>>(
            JsonView::Object(Seq::empty()),
        ) && call_arguments(text, Err(e)) == Ok::<JsonView, Seq<char>>(
            JsonView::Object(Seq::empty()),
        ),
        trimmed(text).len() > 0 ==> call_arguments(text, Ok(v)) == Ok::<JsonView, Seq<char>>(v)
            && call_arguments(text, Err(e)) == Err::<JsonView, Seq<char>>(
            "Failed to parse arguments as JSON: "@ + e,
        ),
{
}

/// The output of a call: the texts among the items of its content, in order
/// and one per line; items of other types do not count.
pub proof fn law_call_output(result: JsonView, items: Seq<JsonView>, item: JsonView)
    ensures
        result.member("content"@) is None ==> call_output(result) == Err::<Seq<char>, Seq<char>>(
            "Missing 'content' field in response"@,
        ),
        result.member("content"@) matches Some(v) ==> !(v is List) ==> call_output(result) == Err::<
            Seq<char>,
            Seq<char>,
        >("'content' field is not an array"@),
        result.member("content"@) == Some(JsonView::List(items)) ==> call_output(result) == Ok::<
            Seq<char>,
            Seq<char>,
        >(joined(content_texts(items), "\n"@)),
        content_texts(Seq::empty()) == Seq::<Seq<char>>::empty(),
        item.text_member("type"@) == Some("text"@) && item.text_member("text"@) is Some
            ==> content_texts(items.push(item)) == content_texts(items).push(
            item.text_member("text"@)->0,
        ),
        item.text_member("type"@) != Some("text"@) || item.text_member("text"@) is None
            ==> content_texts(items.push(item)) == content_texts(items),
{
    assert(items.push(item).drop_last() =~= items);
}

/// What is seen of a message, an error and a discovery is what they hold.
pub proof fn law_views(
    id: u64,
    method: String,
    params: Json,
    e: RpcError,
    messages: Vec<RpcMessage>,
    tools: Vec<McpDiscoveredTool>,
    list: Seq<McpTool>,
    i: int,
)
    ensures
        (RpcMessage::Request { id, method, params: Some(params) })@ == (RpcMessageView::Request {
            id,
            method: method@,
            params: Some(params@),
        }),
        (RpcMessage::Request { id, method, params: None })@ == (RpcMessageView::Request {
            id,
            method: method@,
            params: None,
        }),
        (RpcMessage::Notification { method })@ == (RpcMessageView::Notification {
            method: method@,
        }),
        opt_params(Some(params)) == Some(params@),
        opt_params(None) is None,
        error_view(Some(e)) == Some((e.code, e.message@)),
        error_view(None) is None,
        session_view(Err(method)) == Err::<Seq<RpcMessageView>, Seq<char>>(method@),
        session_view(Ok(messages)) matches Ok(v) && v.len() == messages@.len() && (0 <= i
            < messages@.len() ==> v[i] == messages@[i]@),
        discovery_view(Err(method)) == Err::<Seq<ToolDefinitionView>, Seq<char>>(method@),
        discovery_view(Ok(tools)) matches Ok(v) && v.len() == tools@.len() && (0 <= i
            < tools@.len() ==> v[i].name == tools@[i].name@ && v[i].description
            == tools@[i].description@ && v[i].parameters == tools@[i].parameters@),
        mcp_views(list).len() == list.len(),
        0 <= i < list.len() ==> mcp_views(list)[i] == list[i]@,
{
}

/// A tool in a container is offered as it was described there, and says in which
/// container it lives.
pub proof fn law_container_tool(tool: McpTool)
    ensures
        tool.described().name == tool.name@,
        tool.described().description == tool.description@,
        tool.described().parameters == tool.parameters@,
        tool.category() == (ToolKindView::Mcp { container_id: tool.container_id@ }),
        tool@.definition == tool.described(),
        tool@.container_id == tool.container_id@,
        tool@.command == texts(tool.command@),
{
}

} // verus!
