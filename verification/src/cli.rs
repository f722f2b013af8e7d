//! The commands of the interactive terminal.

use vstd::prelude::*;
use crate::agent::AgentError;
use crate::context::{
    branch_views, lists_branches, sorted_by_name, Branch, BranchView, ContextManager,
};
use crate::text::{
    byte_prefix, cut, cut_bytes, cut_once, decimal, drop_front, is_boundary, law_cut, same,
    show_usize, texts, trim_front, CharClass,
};
use crate::tool_routing::frontend::ClientCommand;

verus! {

// ---------------------------------------------------------------------------
// Reading commands
// ---------------------------------------------------------------------------

/// What the user wants.
#[derive(Debug, PartialEq, Eq)]
pub enum Command {
    /// Nothing was entered.
    Nothing,
    Exit,
    Help,
    Branches,
    Tools,
    Snapshot,
    Swarm,
    Switch(String),
    /// `/switch` without a name.
    SwitchUsage,
    Rename(String),
    /// `/rename` without a name.
    RenameUsage,
    /// Run the plan in this file.
    Plan(String),
    /// Some other word behind a slash.
    Unknown(String),
    /// A message for the model.
    Text(String),
}

pub enum CommandView {
    Nothing,
    Exit,
    Help,
    Branches,
    Tools,
    Snapshot,
    Swarm,
    Switch(Seq<char>),
    SwitchUsage,
    Rename(Seq<char>),
    RenameUsage,
    Plan(Seq<char>),
    Unknown(Seq<char>),
    Text(Seq<char>),
}

impl View for Command {
    type V = CommandView;

    open spec fn view(&self) -> CommandView {
        match *self {
            Command::Nothing => CommandView::Nothing,
            Command::Exit => CommandView::Exit,
            Command::Help => CommandView::Help,
            Command::Branches => CommandView::Branches,
            Command::Tools => CommandView::Tools,
            Command::Snapshot => CommandView::Snapshot,
            Command::Swarm => CommandView::Swarm,
            Command::Switch(s) => CommandView::Switch(s@),
            Command::SwitchUsage => CommandView::SwitchUsage,
            Command::Rename(s) => CommandView::Rename(s@),
            Command::RenameUsage => CommandView::RenameUsage,
            Command::Plan(s) => CommandView::Plan(s@),
            Command::Unknown(s) => CommandView::Unknown(s@),
            Command::Text(s) => CommandView::Text(s@),
        }
    }
}

/// A command with a word and what stands behind the first blank.
pub open spec fn command_with_argument(word: Seq<char>, rest: Option<Seq<char>>) -> CommandView {
    let name = match rest {
        Some(s) => s,
        None => Seq::empty(),
    };
    if word == "switch"@ {
        if name.len() == 0 {
            CommandView::SwitchUsage
        } else {
            CommandView::Switch(name)
        }
    } else if word == "rename"@ {
        if name.len() == 0 {
            CommandView::RenameUsage
        } else {
            CommandView::Rename(name)
        }
    } else {
        CommandView::Unknown(word)
    }
}

/// What an input means: a slash makes it a command, everything else goes to
/// the model.
pub open spec fn command_of(input: Seq<char>) -> CommandView {
    if input.len() == 0 {
        CommandView::Nothing
    } else if input[0] != '/' {
        CommandView::Text(input)
    } else if input == "/exit"@ || input == "/quit"@ {
        CommandView::Exit
    } else if input == "/help"@ {
        CommandView::Help
    } else if input == "/branch"@ {
        CommandView::Branches
    } else if input == "/tools"@ {
        CommandView::Tools
    } else if input == "/snapshot"@ {
        CommandView::Snapshot
    } else if input == "/swarm"@ {
        CommandView::Swarm
    } else {
        let (word, rest) = cut_once(drop_front(input, CharClass::Slash), ' ');
        command_with_argument(word, rest)
    }
}

/// Read an input.
pub fn read_command(input: &str) -> (r: Command)
    ensures
        r@ == command_of(input@),
{
    if input.is_empty() {
        return Command::Nothing;
    }
    if input.get_char(0) != '/' {
        return Command::Text(input.to_string());
    }
    if same(input, "/exit") || same(input, "/quit") {
        Command::Exit
    } else if same(input, "/help") {
        Command::Help
    } else if same(input, "/branch") {
        Command::Branches
    } else if same(input, "/tools") {
        Command::Tools
    } else if same(input, "/snapshot") {
        Command::Snapshot
    } else if same(input, "/swarm") {
        Command::Swarm
    } else {
        let (word, rest) = cut(trim_front(input, CharClass::Slash).as_str(), ' ');
        let name = match rest {
            Some(s) => s,
            None => String::new(),
        };
        if same(word.as_str(), "switch") {
            if name.as_str().is_empty() {
                Command::SwitchUsage
            } else {
                Command::Switch(name)
            }
        } else if same(word.as_str(), "rename") {
            if name.as_str().is_empty() {
                Command::RenameUsage
            } else {
                Command::Rename(name)
            }
        } else {
            Command::Unknown(word)
        }
    }
}

/// What a command of the user interface means at the prompt.
pub open spec fn client_command(cmd: ClientCommand) -> CommandView {
    match cmd {
        ClientCommand::StartTask { prompt } => command_of(prompt@),
        ClientCommand::SwitchBranch { name } => CommandView::Switch(name@),
        ClientCommand::StartPlan { path } => CommandView::Plan(path@),
        _ => CommandView::Nothing,
    }
}

/// Read a command of the user interface. Answers to safety reviews go another
/// way, and there is nothing to break off at the prompt.
pub fn read_client(cmd: &ClientCommand) -> (r: Command)
    ensures
        r@ == client_command(*cmd),
{
    match cmd {
        ClientCommand::StartTask { prompt } => read_command(prompt.as_str()),
        ClientCommand::SwitchBranch { name } => Command::Switch(name.clone()),
        ClientCommand::StartPlan { path } => Command::Plan(path.clone()),
        _ => Command::Nothing,
    }
}

/// Only an input that begins with a slash is kept from the model, and every
/// other one reaches it unchanged.
pub proof fn law_text_reaches_model(input: Seq<char>)
    ensures
        command_of(input) is Text <==> input.len() > 0 && input[0] != '/',
        command_of(input) matches CommandView::Text(t) ==> t == input,
{
}

// ---------------------------------------------------------------------------
// Answers
// ---------------------------------------------------------------------------

/// The help.
pub fn help() -> (r: Vec<&'static str>)
    ensures
        r@.len() == 11,
        r@[0]@ == "  Commands:"@,
        r@[1]@ == "    /exit              Exit the agent"@,
        r@[2]@ == "    /help              Show this help"@,
        r@[3]@ == "    /branch            List all context branches"@,
        r@[4]@ == "    /switch <name>     Switch to a branch by name"@,
        r@[5]@ == "    /rename <name>     Rename current branch"@,
        r@[6]@ == "    /tools             List registered tools"@,
        r@[7]@ == "    /snapshot          Show snapshot of all branches"@,
        r@[8]@ == "    /swarm             Run parallel sub-agents (demo)"@,
        r@[9]@ == ""@,
        r@[10]@ == "  Everything else is sent to the LLM as a user message."@,
{
    vec![
        "  Commands:",
        "    /exit              Exit the agent",
        "    /help              Show this help",
        "    /branch            List all context branches",
        "    /switch <name>     Switch to a branch by name",
        "    /rename <name>     Rename current branch",
        "    /tools             List registered tools",
        "    /snapshot          Show snapshot of all branches",
        "    /swarm             Run parallel sub-agents (demo)",
        "",
        "  Everything else is sent to the LLM as a user message.",
    ]
}

/// A star at what is current.
pub open spec fn marker(current: bool) -> Seq<char> {
    if current {
        " *"@
    } else {
        "  "@
    }
}

/// The line for a branch: a star at the current one, its name and the number
/// of its messages.
pub open spec fn branch_line(b: BranchView, current: Seq<char>) -> Seq<char> {
    "  "@ + marker(b.name == current) + b.name + " ("@ + decimal(b.messages.len()) + ")"@
}

pub open spec fn branch_listing(list: Seq<BranchView>, current: Seq<char>) -> Seq<Seq<char>> {
    list.map_values(|b: BranchView| branch_line(b, current))
}

fn show_branch(b: &Branch, current: &str) -> (r: String)
    ensures
        r@ == branch_line(b@, current@),
{
    let mut s = "  ".to_string();
    if same(b.name.as_str(), current) {
        s.append(" *");
    } else {
        s.append("  ");
    }
    s.append(b.name.as_str());
    s.append(" (");
    s.append(show_usize(b.messages.len()).as_str());
    s.append(")");
    s
}

/// The lines for all branches, ordered by name.
pub fn list_branches(context: &ContextManager) -> (r: Vec<String>)
    requires
        context.wf(),
    ensures
        exists|list: Seq<BranchView>|
            lists_branches(list, context@.branches) && sorted_by_name(list) && texts(r@)
                == #[trigger] branch_listing(list, context@.here().name),
{
    let current = context.current_branch().name.as_str();
    let list = context.list();
    let ghost views = branch_views(list@);
    let ghost here = context@.here().name;
    let mut out: Vec<String> = Vec::new();
    let mut i: usize = 0;
    while i < list.len()
        invariant
            i <= list@.len(),
            current@ == here,
            out@.len() == i,
            forall|j: int| 0 <= j < i ==> (#[trigger] out@[j])@ == branch_line(list@[j]@, here),
        decreases list@.len() - i,
    {
        out.push(show_branch(list[i], current));
        i += 1;
    }
    assert(texts(out@) =~= branch_listing(views, here));
    out
}

/// The line for a branch of a snapshot, with the first eight bytes of its id.
pub fn snapshot_line(id: &str, name: &str, count: usize, current: &str) -> (r: String)
    requires
        is_boundary(id@, 8),
    ensures
        r@ == "  "@ + marker(name@ == current@) + name@ + " ["@ + byte_prefix(id@, 8) + "] ("@
            + decimal(count as nat) + " msgs)"@,
{
    let mut s = "  ".to_string();
    if same(name, current) {
        s.append(" *");
    } else {
        s.append("  ");
    }
    s.append(name);
    s.append(" [");
    s.append(cut_bytes(id, 8).as_str());
    s.append("] (");
    s.append(show_usize(count).as_str());
    s.append(" msgs)");
    s
}

/// The lines for the names of the tools.
pub open spec fn tool_listing(names: Seq<Seq<char>>) -> Seq<Seq<char>> {
    if names.len() == 0 {
        seq!["  No tools registered."@]
    } else {
        seq!["  Registered tools ("@ + decimal(names.len()) + "):"@] + names.map_values(
            |n: Seq<char>| "    - "@ + n,
        )
    }
}

/// The lines for the names of the tools.
pub fn list_tools(names: &Vec<&str>) -> (r: Vec<String>)
    ensures
        texts(r@) == tool_listing(names@.map_values(|n: &str| n@)),
{
    let ghost all = names@.map_values(|n: &str| n@);
    let mut out: Vec<String> = Vec::new();
    if names.len() == 0 {
        out.push("  No tools registered.".to_string());
        assert(texts(out@) =~= tool_listing(all));
        return out;
    }
    let mut head = "  Registered tools (".to_string();
    head.append(show_usize(names.len()).as_str());
    head.append("):");
    out.push(head);
    let mut i: usize = 0;
    while i < names.len()
        invariant
            i <= names@.len(),
            out@.len() == i + 1,
            out@[0] == head,
            forall|j: int| 0 <= j < i ==> (#[trigger] out@[j + 1])@ == "    - "@ + names@[j]@,
        decreases names@.len() - i,
    {
        let mut s = "    - ".to_string();
        s.append(names[i]);
        out.push(s);
        i += 1;
    }
    proof {
        let want = tool_listing(all);
        assert forall|k: int| 0 <= k < want.len() implies #[trigger] texts(out@)[k] == want[k] by {
            if k > 0 {
                assert(out@[(k - 1) + 1]@ == "    - "@ + names@[k - 1]@);
            }
        }
        assert(texts(out@) =~= want);
    }
    out
}

/// The tasks of `/swarm`: agent and prompt.
pub fn swarm_tasks() -> (r: Vec<(&'static str, &'static str)>)
    ensures
        r@.len() == 2,
        r@[0].0@ == "researcher"@,
        r@[0].1@
            == "Use the glob tool to list all .rs files in the src directory. Report the filenames you find."@,
        r@[1].0@ == "summarizer"@,
        r@[1].1@
            == "Read the Cargo.toml file and summarize its dependencies. List the key dependencies and their purposes."@,
{
    vec![
        (
            "researcher",
            "Use the glob tool to list all .rs files in the src directory. Report the filenames you find.",
        ),
        (
            "summarizer",
            "Read the Cargo.toml file and summarize its dependencies. List the key dependencies and their purposes.",
        ),
    ]
}

/// What the user interface is told of an error, and whether the session goes
/// on: it does if the user has broken the request off, or if the provider
/// failed.
pub fn after_error(error: &AgentError) -> (r: (String, bool))
    ensures
        r.0@ == "⚠️ Error: "@ + error@.in_words(),
        r.1 == (error@ is UserAbort || error@ is Provider),
{
    let mut s = "⚠️ Error: ".to_string();
    s.append(error.text().as_str());
    let goes_on = match error {
        AgentError::UserAbort => true,
        AgentError::Provider(_) => true,
        _ => false,
    };
    (s, goes_on)
}

// ---------------------------------------------------------------------------
// Laws
// ---------------------------------------------------------------------------

/// The commands: each is known by its word, `/switch` and `/rename` take
/// everything behind the first blank, and any other word is unknown.
pub proof fn law_commands(input: Seq<char>, word: Seq<char>, rest: Seq<char>)
    requires
        word.len() > 0,
        word[0] != '/',
        !word.contains(' '),
    ensures
        command_of(Seq::empty()) is Nothing,
        command_of("/exit"@) is Exit,
        command_of("/quit"@) is Exit,
        command_of("/help"@) is Help,
        command_of("/branch"@) is Branches,
        command_of("/tools"@) is Tools,
        command_of("/snapshot"@) is Snapshot,
        command_of("/swarm"@) is Swarm,
        input == seq!['/'] + word && !is_word(input) ==> command_of(input) == command_with_argument(
            word,
            None,
        ),
        input == seq!['/'] + (word.push(' ') + rest) && !is_word(input) ==> command_of(input)
            == command_with_argument(word, Some(rest)),
        command_with_argument("switch"@, None) is SwitchUsage,
        rest.len() == 0 ==> command_with_argument("switch"@, Some(rest)) is SwitchUsage,
        rest.len() > 0 ==> command_with_argument("switch"@, Some(rest)) == CommandView::Switch(
            rest,
        ),
        command_with_argument("rename"@, None) is RenameUsage,
        rest.len() == 0 ==> command_with_argument("rename"@, Some(rest)) is RenameUsage,
        rest.len() > 0 ==> command_with_argument("rename"@, Some(rest)) == CommandView::Rename(
            rest,
        ),
        word != "switch"@ && word != "rename"@ ==> command_with_argument(word, Some(rest))
            == CommandView::Unknown(word) && command_with_argument(word, None)
            == CommandView::Unknown(word),
{
    reveal_strlit("/exit");
    reveal_strlit("/quit");
    reveal_strlit("/help");
    reveal_strlit("/branch");
    reveal_strlit("/tools");
    reveal_strlit("/snapshot");
    reveal_strlit("/swarm");
    reveal_strlit("switch");
    reveal_strlit("rename");
    assert("/exit"@[1] == 'e' && "/quit"@[1] == 'q' && "/help"@[1] == 'h' && "/branch"@[1] == 'b');
    assert("/tools"@[1] == 't' && "/snapshot"@[2] == 'n' && "/swarm"@[2] == 'w');
    assert("switch"@[0] == 's' && "rename"@[0] == 'r');
    let long = word.push(' ') + rest;
    if input == seq!['/'] + word {
        assert(input[0] == '/');
        assert(input.skip(1) =~= word);
        law_cut(word, ' ', rest);
        assert(drop_front(input, CharClass::Slash) == word) by {
            reveal_with_fuel(drop_front, 3);
        }
    }
    if input == seq!['/'] + long {
        assert(input[0] == '/');
        assert(input.skip(1) =~= long);
        assert(long[0] == word[0]);
        law_cut(word, ' ', rest);
        assert(drop_front(input, CharClass::Slash) == long) by {
            reveal_with_fuel(drop_front, 3);
        }
    }
}

/// The input is one of the commands that are a single word.
pub open spec fn is_word(input: Seq<char>) -> bool {
    ||| input == "/exit"@
    ||| input == "/quit"@
    ||| input == "/help"@
    ||| input == "/branch"@
    ||| input == "/tools"@
    ||| input == "/snapshot"@
    ||| input == "/swarm"@
}

/// What the user interface asks for: a task is read like an input, a branch is
/// switched to, a plan is run; consent and breaking off mean nothing at the
/// prompt.
pub proof fn law_client_commands(s: String, approved: bool)
    ensures
        client_command(ClientCommand::StartTask { prompt: s }) == command_of(s@),
        client_command(ClientCommand::SwitchBranch { name: s }) == CommandView::Switch(s@),
        client_command(ClientCommand::StartPlan { path: s }) == CommandView::Plan(s@),
        client_command(ClientCommand::SafetyResponse { approved }) is Nothing,
        client_command(ClientCommand::Abort) is Nothing,
{
}

/// A listing has one line for each branch, with a star at the current one, its
/// name and the number of its messages; and one line for each tool.
pub proof fn law_listings(
    list: Seq<BranchView>,
    current: Seq<char>,
    names: Seq<Seq<char>>,
    i: int,
)
    ensures
        branch_listing(list, current).len() == list.len(),
        0 <= i < list.len() ==> branch_listing(list, current)[i] == "  "@ + (if list[i].name
            == current {
            " *"@
        } else {
            "  "@
        }) + list[i].name + " ("@ + decimal(list[i].messages.len()) + ")"@,
        names.len() == 0 ==> tool_listing(names) == seq!["  No tools registered."@],
        names.len() > 0 ==> tool_listing(names).len() == names.len() + 1 && tool_listing(names)[0]
            == "  Registered tools ("@ + decimal(names.len()) + "):"@,
        0 <= i < names.len() ==> tool_listing(names)[i + 1] == "    - "@ + names[i],
{
}

/// What is seen of a command is what it holds.
pub proof fn law_command_view(s: String)
    ensures
        Command::Nothing@ is Nothing,
        Command::Exit@ is Exit,
        Command::Help@ is Help,
        Command::Branches@ is Branches,
        Command::Tools@ is Tools,
        Command::Snapshot@ is Snapshot,
        Command::Swarm@ is Swarm,
        Command::Switch(s)@ == CommandView::Switch(s@),
        Command::SwitchUsage@ is SwitchUsage,
        Command::Rename(s)@ == CommandView::Rename(s@),
        Command::RenameUsage@ is RenameUsage,
        Command::Plan(s)@ == CommandView::Plan(s@),
        Command::Unknown(s)@ == CommandView::Unknown(s@),
        Command::Text(s)@ == CommandView::Text(s@),
{
}

} // verus!
