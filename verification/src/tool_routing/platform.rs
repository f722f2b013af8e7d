//! Built-in tools.

use vstd::prelude::*;
use crate::json::{
    json_result, json_views, law_added_member_is_found, parse_json, parsed_json, Json, JsonView,
    MemberView,
};
use crate::text::{text_result, IntoText};
use crate::tool_routing::{AsyncTool, ToolKind, ToolKindView, ToolRouter};
use crate::types::{ToolDefinition, ToolDefinitionView};

verus! {

// ---------------------------------------------------------------------------
// The tools for files
// ---------------------------------------------------------------------------

/// A tool of the platform itself, which works on files.
#[derive(Debug, Clone, Copy, PartialEq, Eq, Structural)]
pub enum PlatformTool {
    ReadFile,
    WriteFile,
    Glob,
    Grep,
}

/// The schema of a parameter that is a text.
pub open spec fn text_parameter(description: Seq<char>) -> JsonView {
    JsonView::empty().with("description"@, JsonView::Text(description)).with(
        "type"@,
        JsonView::Text("string"@),
    )
}

/// The schema of an object with these parameters.
pub open spec fn object_schema(properties: JsonView, required: Seq<JsonView>) -> JsonView {
    JsonView::empty().with("properties"@, properties).with(
        "required"@,
        JsonView::List(required),
    ).with("type"@, JsonView::Text("object"@))
}

fn text_parameter_json(description: &str) -> (r: Json)
    ensures
        r@ == text_parameter(description@),
{
    Json::empty().with("description", Json::text(description)).with("type", Json::text("string"))
}

fn object_schema_json(properties: Json, required: Vec<Json>) -> (r: Json)
    ensures
        r@ == object_schema(properties@, json_views(required@)),
{
    Json::empty().with("properties", properties).with("required", Json::list(required)).with(
        "type",
        Json::text("object"),
    )
}

impl AsyncTool for PlatformTool {
    open spec fn described(&self) -> ToolDefinitionView {
        match *self {
            PlatformTool::ReadFile => ToolDefinitionView {
                name: "read_file"@,
                description: "Read a text file"@,
                parameters: object_schema(
                    JsonView::empty().with("path"@, text_parameter("Path of the file"@)),
                    seq![JsonView::Text("path"@)],
                ),
            },
            PlatformTool::WriteFile => ToolDefinitionView {
                name: "write_file"@,
                description: "Write a text file; missing directories are created"@,
                parameters: object_schema(
                    JsonView::empty().with("content"@, text_parameter("New text of the file"@)).with(
                        "path"@,
                        text_parameter("Path of the file"@),
                    ),
                    seq![JsonView::Text("path"@), JsonView::Text("content"@)],
                ),
            },
            PlatformTool::Glob => ToolDefinitionView {
                name: "glob"@,
                description: "Find files by a pattern with *, ** and ?"@,
                parameters: object_schema(
                    JsonView::empty().with("pattern"@, text_parameter("Pattern of the paths"@)),
                    seq![JsonView::Text("pattern"@)],
                ),
            },
            PlatformTool::Grep => ToolDefinitionView {
                name: "grep"@,
                description: "Find the lines of text files that hold a text"@,
                parameters: object_schema(
                    JsonView::empty().with(
                        "path"@,
                        text_parameter("Directory or file to search; the current directory by default"@),
                    ).with("pattern"@, text_parameter("Text to look for"@)),
                    seq![JsonView::Text("pattern"@)],
                ),
            },
        }
    }

    open spec fn category(&self) -> ToolKindView {
        ToolKindView::Platform
    }

    fn definition(&self) -> (r: ToolDefinition) {
        let mut required: Vec<Json> = Vec::new();
        match self {
            PlatformTool::ReadFile => {
                required.push(Json::text("path"));
                assert(json_views(required@) =~= seq![JsonView::Text("path"@)]);
                ToolDefinition {
                    name: "read_file".to_string(),
                    description: "Read a text file".to_string(),
                    parameters: object_schema_json(
                        Json::empty().with("path", text_parameter_json("Path of the file")),
                        required,
                    ),
                }
            },
            PlatformTool::WriteFile => {
                required.push(Json::text("path"));
                required.push(Json::text("content"));
                assert(json_views(required@) =~= seq![
                    JsonView::Text("path"@),
                    JsonView::Text("content"@),
                ]);
                ToolDefinition {
                    name: "write_file".to_string(),
                    description: "Write a text file; missing directories are created".to_string(),
                    parameters: object_schema_json(
                        Json::empty().with(
                            "content",
                            text_parameter_json("New text of the file"),
                        ).with("path", text_parameter_json("Path of the file")),
                        required,
                    ),
                }
            },
            PlatformTool::Glob => {
                required.push(Json::text("pattern"));
                assert(json_views(required@) =~= seq![JsonView::Text("pattern"@)]);
                ToolDefinition {
                    name: "glob".to_string(),
                    description: "Find files by a pattern with *, ** and ?".to_string(),
                    parameters: object_schema_json(
                        Json::empty().with("pattern", text_parameter_json("Pattern of the paths")),
                        required,
                    ),
                }
            },
            PlatformTool::Grep => {
                required.push(Json::text("pattern"));
                assert(json_views(required@) =~= seq![JsonView::Text("pattern"@)]);
                ToolDefinition {
                    name: "grep".to_string(),
                    description: "Find the lines of text files that hold a text".to_string(),
                    parameters: object_schema_json(
                        Json::empty().with(
                            "path",
                            text_parameter_json(
                                "Directory or file to search; the current directory by default",
                            ),
                        ).with("pattern", text_parameter_json("Text to look for")),
                        required,
                    ),
                }
            },
        }
    }

    fn kind(&self) -> (r: ToolKind) {
        ToolKind::Platform
    }
}

/// What a call of a tool for files asks for.
#[derive(Debug, PartialEq, Eq)]
pub enum FileRequest {
    Read { path: String },
    /// Directories that are missing on the way to the file are created.
    Write { path: String, content: String },
    Glob { pattern: String },
    Grep { pattern: String, path: String },
}

pub enum FileRequestView {
    Read { path: Seq<char> },
    Write { path: Seq<char>, content: Seq<char> },
    Glob { pattern: Seq<char> },
    Grep { pattern: Seq<char>, path: Seq<char> },
}

impl View for FileRequest {
    type V = FileRequestView;

    open spec fn view(&self) -> FileRequestView {
        match *self {
            FileRequest::Read { path } => FileRequestView::Read { path: path@ },
            FileRequest::Write { path, content } => FileRequestView::Write {
                path: path@,
                content: content@,
            },
            FileRequest::Glob { pattern } => FileRequestView::Glob { pattern: pattern@ },
            FileRequest::Grep { pattern, path } => FileRequestView::Grep {
                pattern: pattern@,
                path: path@,
            },
        }
    }
}

pub open spec fn request_result(r: Result<FileRequest, String>) -> Result<
    FileRequestView,
    Seq<char>,
> {
    match r {
        Ok(q) => Ok(q@),
        Err(e) => Err(e@),
    }
}

pub open spec fn lacking(name: Seq<char>) -> Seq<char> {
    "missing argument: '"@ + name + "'"@
}

/// The text under a key of the arguments.
pub open spec fn argument(arguments: JsonView, name: Seq<char>) -> Result<Seq<char>, Seq<char>> {
    match arguments.text_member(name) {
        Some(s) => Ok(s),
        None => Err(lacking(name)),
    }
}

/// What a call asks for, given what the parser says of its arguments. Every
/// argument is a text; only the directory of a search may be left out.
pub open spec fn request_for(tool: PlatformTool, parsed: Result<JsonView, Seq<char>>) -> Result<
    FileRequestView,
    Seq<char>,
> {
    match parsed {
        Err(e) => Err("invalid arguments: "@ + e),
        Ok(args) => match tool {
            PlatformTool::ReadFile => match argument(args, "path"@) {
                Ok(path) => Ok(FileRequestView::Read { path }),
                Err(e) => Err(e),
            },
            PlatformTool::WriteFile => match (argument(args, "path"@), argument(args, "content"@)) {
                (Ok(path), Ok(content)) => Ok(FileRequestView::Write { path, content }),
                (Err(e), _) => Err(e),
                (_, Err(e)) => Err(e),
            },
            PlatformTool::Glob => match argument(args, "pattern"@) {
                Ok(pattern) => Ok(FileRequestView::Glob { pattern }),
                Err(e) => Err(e),
            },
            PlatformTool::Grep => match argument(args, "pattern"@) {
                Ok(pattern) => Ok(
                    FileRequestView::Grep {
                        pattern,
                        path: match args.text_member("path"@) {
                            Some(path) => path,
                            None => "."@,
                        },
                    },
                ),
                Err(e) => Err(e),
            },
        },
    }
}

fn read_argument(arguments: &Json, name: &str) -> (r: Result<String, String>)
    ensures
        text_result(r) == argument(arguments@, name@),
{
    match arguments.get_text(name) {
        Some(s) => Ok(s.clone()),
        None => {
            let mut e = "missing argument: '".to_string();
            e.append(name);
            e.append("'");
            Err(e)
        },
    }
}

impl PlatformTool {
    /// What a call asks for, given what the parser says of its arguments.
    pub fn request_from(&self, parsed: Result<Json, String>) -> (r: Result<FileRequest, String>)
        ensures
            request_result(r) == request_for(*self, json_result(parsed)),
    {
        let args = match parsed {
            Ok(v) => v,
            Err(e) => {
                return Err("invalid arguments: ".to_string().concat(e.as_str()));
            },
        };
        match self {
            PlatformTool::ReadFile => match read_argument(&args, "path") {
                Ok(path) => Ok(FileRequest::Read { path }),
                Err(e) => Err(e),
            },
            PlatformTool::WriteFile => {
                let path = match read_argument(&args, "path") {
                    Ok(path) => path,
                    Err(e) => {
                        return Err(e);
                    },
                };
                match read_argument(&args, "content") {
                    Ok(content) => Ok(FileRequest::Write { path, content }),
                    Err(e) => Err(e),
                }
            },
            PlatformTool::Glob => match read_argument(&args, "pattern") {
                Ok(pattern) => Ok(FileRequest::Glob { pattern }),
                Err(e) => Err(e),
            },
            PlatformTool::Grep => match read_argument(&args, "pattern") {
                Ok(pattern) => {
                    let path = match args.get_text("path") {
                        Some(s) => s.clone(),
                        None => ".".to_string(),
                    };
                    Ok(FileRequest::Grep { pattern, path })
                },
                Err(e) => Err(e),
            },
        }
    }

    /// What a call with these arguments asks for.
    pub fn request(&self, arguments: &str) -> (r: Result<FileRequest, String>)
        ensures
            request_result(r) == request_for(*self, parsed_json(arguments@)),
    {
        self.request_from(parse_json(arguments))
    }
}

// ---------------------------------------------------------------------------
// The tools of an agent
// ---------------------------------------------------------------------------

/// A tool of an agent: one of the platform, or one of another type `T`.
pub enum Tool<T: AsyncTool> {
    Platform(PlatformTool),
    Other(T),
}

impl<T: AsyncTool> AsyncTool for Tool<T> {
    open spec fn described(&self) -> ToolDefinitionView {
        match *self {
            Tool::Platform(t) => t.described(),
            Tool::Other(t) => t.described(),
        }
    }

    open spec fn category(&self) -> ToolKindView {
        match *self {
            Tool::Platform(t) => t.category(),
            Tool::Other(t) => t.category(),
        }
    }

    fn definition(&self) -> (r: ToolDefinition) {
        match self {
            Tool::Platform(t) => t.definition(),
            Tool::Other(t) => t.definition(),
        }
    }

    fn kind(&self) -> (r: ToolKind) {
        match self {
            Tool::Platform(t) => t.kind(),
            Tool::Other(t) => t.kind(),
        }
    }
}

/// The tools with those of the platform, which replace tools of the same
/// names.
pub open spec fn with_platform<T: AsyncTool>(tools: Map<Seq<char>, Tool<T>>) -> Map<
    Seq<char>,
    Tool<T>,
> {
    tools.insert("read_file"@, Tool::Platform(PlatformTool::ReadFile)).insert(
        "write_file"@,
        Tool::Platform(PlatformTool::WriteFile),
    ).insert("glob"@, Tool::Platform(PlatformTool::Glob)).insert(
        "grep"@,
        Tool::Platform(PlatformTool::Grep),
    )
}

/// Register all tools of the platform.
pub fn register_platform_tools<T: AsyncTool>(router: &mut ToolRouter<Tool<T>>)
    requires
        old(router).wf(),
    ensures
        final(router).wf(),
        final(router)@ == with_platform(old(router)@),
{
    router.register(Tool::Platform(PlatformTool::ReadFile));
    router.register(Tool::Platform(PlatformTool::WriteFile));
    router.register(Tool::Platform(PlatformTool::Glob));
    router.register(Tool::Platform(PlatformTool::Grep));
}

/// The tools of the platform are four, each under its own name.
pub proof fn law_platform_tools<T: AsyncTool>(tools: Map<Seq<char>, Tool<T>>, name: Seq<char>)
    ensures
        ({
            let all = with_platform(tools);
            &&& all.contains_key("read_file"@) && all["read_file"@] == Tool::<T>::Platform(
                PlatformTool::ReadFile,
            )
            &&& all.contains_key("write_file"@) && all["write_file"@] == Tool::<T>::Platform(
                PlatformTool::WriteFile,
            )
            &&& all.contains_key("glob"@) && all["glob"@] == Tool::<T>::Platform(
                PlatformTool::Glob,
            )
            &&& all.contains_key("grep"@) && all["grep"@] == Tool::<T>::Platform(
                PlatformTool::Grep,
            )
            &&& name != "read_file"@ && name != "write_file"@ && name != "glob"@ && name
                != "grep"@ ==> all.contains_key(name) == tools.contains_key(name) && (
            tools.contains_key(name) ==> all[name] == tools[name])
        }),
{
    reveal_strlit("read_file");
    reveal_strlit("write_file");
    reveal_strlit("glob");
    reveal_strlit("grep");
    assert("read_file"@[0] == 'r' && "write_file"@[0] == 'w' && "glob"@[1] == 'l' && "grep"@[1]
        == 'r');
    assert("glob"@[0] == 'g' && "grep"@[0] == 'g');
}

// ---------------------------------------------------------------------------
// Stand-ins
// ---------------------------------------------------------------------------

/// A factory for further built-in tools.
pub struct PlatformToolRegistry;

impl PlatformToolRegistry {
    /// The tools of the factory. For now there are none.
    pub fn builtins() -> (r: Vec<DummyPlatformTool>)
        ensures
            r@.len() == 0,
    {
        Vec::new()
    }
}

/// A stand-in for a built-in tool.
pub struct DummyPlatformTool;

pub open spec fn dummy_platform_definition() -> ToolDefinitionView {
    ToolDefinitionView {
        name: "_dummy_platform"@,
        description: "Dummy platform tool (placeholder)"@,
        parameters: JsonView::empty().with("properties"@, JsonView::empty()).with(
            "required"@,
            JsonView::List(Seq::empty()),
        ).with("type"@, JsonView::Text("object"@)),
    }
}

impl AsyncTool for DummyPlatformTool {
    open spec fn described(&self) -> ToolDefinitionView {
        dummy_platform_definition()
    }

    open spec fn category(&self) -> ToolKindView {
        ToolKindView::Platform
    }

    fn definition(&self) -> (r: ToolDefinition) {
        let none: Vec<Json> = Vec::new();
        assert(json_views(none@) =~= Seq::empty());
        ToolDefinition {
            name: "_dummy_platform".to_string(),
            description: "Dummy platform tool (placeholder)".to_string(),
            parameters: Json::empty().with("properties", Json::empty()).with(
                "required",
                Json::list(none),
            ).with("type", Json::text("object")),
        }
    }

    fn kind(&self) -> (r: ToolKind) {
        ToolKind::Platform
    }
}

impl DummyPlatformTool {
    /// Always succeeds with the same text.
    pub fn execute(&self, arguments: &str) -> (r: Result<String, String>)
        ensures
            r matches Ok(s) && s@
                == r#"{"status":"ok","message":"dummy platform tool executed"}"#@,
    {
        Ok(r#"{"status":"ok","message":"dummy platform tool executed"}"#.to_string())
    }
}

/// The simplest tool: it reports success and gives its arguments back.
pub struct DummyTool {
    name: String,
}

/// What a dummy tool of the given name tells the model.
pub open spec fn dummy_definition(name: Seq<char>) -> ToolDefinitionView {
    ToolDefinitionView {
        name,
        description: "A dummy tool for testing the agent pipeline"@,
        parameters: JsonView::empty().with(
            "properties"@,
            JsonView::empty().with(
                "input"@,
                JsonView::empty().with("description"@, JsonView::Text("Any input string"@)).with(
                    "type"@,
                    JsonView::Text("string"@),
                ),
            ),
        ).with("required"@, JsonView::List(seq![JsonView::Text("input"@)])).with(
            "type"@,
            JsonView::Text("object"@),
        ),
    }
}

/// What a dummy tool of the given name returns.
pub open spec fn dummy_result(name: Seq<char>, arguments: Seq<char>) -> Seq<char> {
    r#"{"status":"ok","tool":""#@ + name + r#"","args":"#@ + arguments + "}"@
}

impl DummyTool {
    pub closed spec fn name_of(&self) -> Seq<char> {
        self.name@
    }

    pub fn new(name: impl IntoText) -> (r: Self)
        ensures
            r.name_of() == name.text(),
    {
        DummyTool { name: name.into_text() }
    }

    /// Always succeeds with a report of the call.
    pub fn execute(&self, arguments: &str) -> (r: Result<String, String>)
        ensures
            r matches Ok(s) && s@ == dummy_result(self.name_of(), arguments@),
    {
        let mut s = r#"{"status":"ok","tool":""#.to_string();
        s.append(self.name.as_str());
        s.append(r#"","args":"#);
        s.append(arguments);
        s.append("}");
        Ok(s)
    }
}

impl AsyncTool for DummyTool {
    open spec fn described(&self) -> ToolDefinitionView {
        dummy_definition(self.name_of())
    }

    open spec fn category(&self) -> ToolKindView {
        ToolKindView::Platform
    }

    fn definition(&self) -> (r: ToolDefinition) {
        let input = Json::empty().with("description", Json::text("Any input string")).with(
            "type",
            Json::text("string"),
        );
        let required: Vec<Json> = vec![Json::text("input")];
        assert(json_views(required@) =~= seq![JsonView::Text("input"@)]);
        ToolDefinition {
            name: self.name.clone(),
            description: "A dummy tool for testing the agent pipeline".to_string(),
            parameters: Json::empty().with("properties", Json::empty().with("input", input)).with(
                "required",
                Json::list(required),
            ).with("type", Json::text("object")),
        }
    }

    fn kind(&self) -> (r: ToolKind) {
        ToolKind::Platform
    }
}

// ---------------------------------------------------------------------------
// What the tools for files are
// ---------------------------------------------------------------------------

/// Each tool of the platform is offered under its own name, with the texts it
/// needs as its parameters.
pub proof fn law_definitions_of_the_platform(description: Seq<char>)
    ensures
        text_parameter(description).text_member("type"@) == Some("string"@),
        PlatformTool::ReadFile.described().name == "read_file"@,
        PlatformTool::WriteFile.described().name == "write_file"@,
        PlatformTool::Glob.described().name == "glob"@,
        PlatformTool::Grep.described().name == "grep"@,
        PlatformTool::ReadFile.described().parameters == object_schema(
            JsonView::empty().with("path"@, text_parameter("Path of the file"@)),
            seq![JsonView::Text("path"@)],
        ),
        PlatformTool::WriteFile.described().parameters == object_schema(
            JsonView::empty().with("content"@, text_parameter("New text of the file"@)).with(
                "path"@,
                text_parameter("Path of the file"@),
            ),
            seq![JsonView::Text("path"@), JsonView::Text("content"@)],
        ),
        PlatformTool::Glob.described().parameters == object_schema(
            JsonView::empty().with("pattern"@, text_parameter("Pattern of the paths"@)),
            seq![JsonView::Text("pattern"@)],
        ),
        PlatformTool::Grep.described().parameters == object_schema(
            JsonView::empty().with(
                "path"@,
                text_parameter("Directory or file to search; the current directory by default"@),
            ).with("pattern"@, text_parameter("Text to look for"@)),
            seq![JsonView::Text("pattern"@)],
        ),
        PlatformTool::ReadFile.category() is Platform,
        PlatformTool::WriteFile.category() is Platform,
        PlatformTool::Glob.category() is Platform,
        PlatformTool::Grep.category() is Platform,
{
    reveal_strlit("description");
    reveal_strlit("type");
    let a = JsonView::empty().with("description"@, JsonView::Text(description));
    assert("description"@.len() != "type"@.len());
    law_added_member_is_found(JsonView::empty(), "description"@, JsonView::Text(description), "type"@);
    law_added_member_is_found(a, "type"@, JsonView::Text("string"@), "type"@);
}

/// The schema of an object names its type, its properties and what it needs.
pub proof fn law_object_schema(properties: JsonView, required: Seq<JsonView>)
    ensures
        object_schema(properties, required).text_member("type"@) == Some("object"@),
        object_schema(properties, required).member("properties"@) == Some(properties),
        object_schema(properties, required).member("required"@) == Some(JsonView::List(required)),
{
    reveal_strlit("properties");
    reveal_strlit("required");
    reveal_strlit("type");
    assert("properties"@.len() == 10 && "required"@.len() == 8 && "type"@.len() == 4);
    let a = JsonView::empty();
    let b = a.with("properties"@, properties);
    let c = b.with("required"@, JsonView::List(required));
    let t = JsonView::Text("object"@);
    law_added_member_is_found(a, "properties"@, properties, "properties"@);
    law_added_member_is_found(a, "properties"@, properties, "required"@);
    law_added_member_is_found(a, "properties"@, properties, "type"@);
    law_added_member_is_found(b, "required"@, JsonView::List(required), "properties"@);
    law_added_member_is_found(b, "required"@, JsonView::List(required), "required"@);
    law_added_member_is_found(b, "required"@, JsonView::List(required), "type"@);
    law_added_member_is_found(c, "type"@, t, "properties"@);
    law_added_member_is_found(c, "type"@, t, "required"@);
    law_added_member_is_found(c, "type"@, t, "type"@);
}

/// A call asks for exactly what its arguments say: the file to read, the file
/// to write and its text, the pattern, or the text and the directory to search
/// in. An argument that is missing or no text is named, the first one first;
/// arguments that cannot be read are reported.
pub proof fn law_requests(args: JsonView, e: Seq<char>, tool: PlatformTool)
    ensures
        request_for(tool, Err(e)) == Err::<FileRequestView, Seq<char>>("invalid arguments: "@ + e),
        ({
            let path = args.text_member("path"@);
            let content = args.text_member("content"@);
            let pattern = args.text_member("pattern"@);
            let read = request_for(PlatformTool::ReadFile, Ok(args));
            let write = request_for(PlatformTool::WriteFile, Ok(args));
            let glob = request_for(PlatformTool::Glob, Ok(args));
            let grep = request_for(PlatformTool::Grep, Ok(args));
            &&& path matches Some(p) ==> read == Ok::<FileRequestView, Seq<char>>(
                FileRequestView::Read { path: p },
            )
            &&& path is None ==> read == Err::<FileRequestView, Seq<char>>(
                "missing argument: '"@ + "path"@ + "'"@,
            ) && write == Err::<FileRequestView, Seq<char>>(
                "missing argument: '"@ + "path"@ + "'"@,
            )
            &&& path is Some && content is None ==> write == Err::<FileRequestView, Seq<char>>(
                "missing argument: '"@ + "content"@ + "'"@,
            )
            &&& path is Some && content is Some ==> write == Ok::<FileRequestView, Seq<char>>(
                FileRequestView::Write { path: path->0, content: content->0 },
            )
            &&& pattern is None ==> glob == Err::<FileRequestView, Seq<char>>(
                "missing argument: '"@ + "pattern"@ + "'"@,
            ) && grep == Err::<FileRequestView, Seq<char>>(
                "missing argument: '"@ + "pattern"@ + "'"@,
            )
            &&& pattern matches Some(p) ==> glob == Ok::<FileRequestView, Seq<char>>(
                FileRequestView::Glob { pattern: p },
            ) && grep == Ok::<FileRequestView, Seq<char>>(
                FileRequestView::Grep {
                    pattern: p,
                    path: if path is Some {
                        path->0
                    } else {
                        "."@
                    },
                },
            )
        }),
{
}

/// A tool of an agent is described and placed as the tool that it holds.
pub proof fn law_held_tool<T: AsyncTool>(own: PlatformTool, other: T)
    ensures
        Tool::<T>::Platform(own).described() == own.described(),
        Tool::<T>::Platform(own).category() == own.category(),
        Tool::Other(other).described() == other.described(),
        Tool::Other(other).category() == other.category(),
{
}

/// What the tools are for, in words, and what is seen of a request.
pub proof fn law_descriptions(a: String, b: String, q: FileRequest)
    ensures
        PlatformTool::ReadFile.described().description == "Read a text file"@,
        PlatformTool::WriteFile.described().description
            == "Write a text file; missing directories are created"@,
        PlatformTool::Glob.described().description == "Find files by a pattern with *, ** and ?"@,
        PlatformTool::Grep.described().description
            == "Find the lines of text files that hold a text"@,
        (FileRequest::Read { path: a })@ == (FileRequestView::Read { path: a@ }),
        (FileRequest::Write { path: a, content: b })@ == (FileRequestView::Write {
            path: a@,
            content: b@,
        }),
        (FileRequest::Glob { pattern: a })@ == (FileRequestView::Glob { pattern: a@ }),
        (FileRequest::Grep { pattern: a, path: b })@ == (FileRequestView::Grep {
            pattern: a@,
            path: b@,
        }),
        request_result(Ok(q)) == Ok::<FileRequestView, Seq<char>>(q@),
        request_result(Err(a)) == Err::<FileRequestView, Seq<char>>(a@),
{
}

/// The stand-ins tell the model these documents, and are of the platform. A
/// dummy tool gives its name and its arguments back.
pub proof fn law_stand_ins(tool: DummyTool, other: DummyPlatformTool, name: Seq<char>, arguments: Seq<char>)
    ensures
        other.described().name == "_dummy_platform"@,
        other.described().description == "Dummy platform tool (placeholder)"@,
        other.described().parameters == JsonView::Object(
            seq![
                MemberView { key: "properties"@, value: JsonView::Object(Seq::empty()) },
                MemberView { key: "required"@, value: JsonView::List(Seq::empty()) },
                MemberView { key: "type"@, value: JsonView::Text("object"@) },
            ],
        ),
        other.category() is Platform,
        tool.described().name == tool.name_of(),
        tool.described().description == "A dummy tool for testing the agent pipeline"@,
        tool.described().parameters == JsonView::Object(
            seq![
                MemberView {
                    key: "properties"@,
                    value: JsonView::Object(
                        seq![
                            MemberView {
                                key: "input"@,
                                value: JsonView::Object(
                                    seq![
                                        MemberView {
                                            key: "description"@,
                                            value: JsonView::Text("Any input string"@),
                                        },
                                        MemberView {
                                            key: "type"@,
                                            value: JsonView::Text("string"@),
                                        },
                                    ],
                                ),
                            },
                        ],
                    ),
                },
                MemberView {
                    key: "required"@,
                    value: JsonView::List(seq![JsonView::Text("input"@)]),
                },
                MemberView { key: "type"@, value: JsonView::Text("object"@) },
            ],
        ),
        tool.category() is Platform,
        dummy_result(name, arguments) == r#"{"status":"ok","tool":""#@ + name + r#"","args":"#@
            + arguments + "}"@,
{
    let none = seq![
        MemberView { key: "properties"@, value: JsonView::Object(Seq::empty()) },
        MemberView { key: "required"@, value: JsonView::List(Seq::empty()) },
        MemberView { key: "type"@, value: JsonView::Text("object"@) },
    ];
    assert(other.described().parameters->Object_0 =~= none);
    let input = JsonView::empty().with(
        "description"@,
        JsonView::Text("Any input string"@),
    ).with("type"@, JsonView::Text("string"@));
    assert(input->Object_0 =~= seq![
        MemberView { key: "description"@, value: JsonView::Text("Any input string"@) },
        MemberView { key: "type"@, value: JsonView::Text("string"@) },
    ]);
    let properties = JsonView::empty().with("input"@, input);
    assert(properties->Object_0 =~= seq![MemberView { key: "input"@, value: input }]);
    assert(tool.described().parameters->Object_0 =~= seq![
        MemberView { key: "properties"@, value: properties },
        MemberView { key: "required"@, value: JsonView::List(seq![JsonView::Text("input"@)]) },
        MemberView { key: "type"@, value: JsonView::Text("object"@) },
    ]);
}

} // verus!
