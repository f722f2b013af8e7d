//! Tools by name, and where their calls go: into the process (platform), to
//! the user interface (frontend), or into a container (MCP).

use vstd::prelude::*;
use crate::text::{same, text_result};
use crate::types::{
    tool_message, Message, MessageView, ToolCall, ToolCallView, ToolDefinition, ToolDefinitionView,
};

pub mod files;
pub mod frontend;
pub mod mcp_transport;
pub mod platform;

verus! {

// ---------------------------------------------------------------------------
// Kinds of tools
// ---------------------------------------------------------------------------

/// The category of a tool decides where its calls go.
#[derive(Debug, PartialEq, Eq)]
pub enum ToolKind {
    /// Built in, runs inside the process.
    Platform,
    /// Handed on to the user interface.
    Frontend,
    /// Lives in a Docker container.
    Mcp { container_id: String },
}

pub enum ToolKindView {
    Platform,
    Frontend,
    Mcp { container_id: Seq<char> },
}

impl View for ToolKind {
    type V = ToolKindView;

    open spec fn view(&self) -> ToolKindView {
        match *self {
            ToolKind::Platform => ToolKindView::Platform,
            ToolKind::Frontend => ToolKindView::Frontend,
            ToolKind::Mcp { container_id } => ToolKindView::Mcp { container_id: container_id@ },
        }
    }
}

impl Clone for ToolKind {
    fn clone(&self) -> (r: Self)
        ensures
            r@ == self@,
    {
        match self {
            ToolKind::Platform => ToolKind::Platform,
            ToolKind::Frontend => ToolKind::Frontend,
            ToolKind::Mcp { container_id } => ToolKind::Mcp { container_id: container_id.clone() },
        }
    }
}

impl ToolKind {
    pub fn is_platform(&self) -> (r: bool)
        ensures
            r == (self is Platform),
    {
        matches!(self, ToolKind::Platform)
    }

    pub fn is_frontend(&self) -> (r: bool)
        ensures
            r == (self is Frontend),
    {
        matches!(self, ToolKind::Frontend)
    }

    pub fn is_mcp(&self) -> (r: bool)
        ensures
            r == (self is Mcp),
    {
        matches!(self, ToolKind::Mcp { .. })
    }
}

// ---------------------------------------------------------------------------
// Tools
// ---------------------------------------------------------------------------

/// A tool as the router knows it. What it does when it is called is up to the
/// caller of the router.
pub trait AsyncTool: Sized {
    spec fn described(&self) -> ToolDefinitionView;

    spec fn category(&self) -> ToolKindView;

    /// Name, description and JSON schema of the parameters.
    fn definition(&self) -> (r: ToolDefinition)
        ensures
            r@ == self.described(),
    ;

    /// The category of the tool.
    fn kind(&self) -> (r: ToolKind)
        ensures
            r@ == self.category(),
    ;
}

// ---------------------------------------------------------------------------
// The router
// ---------------------------------------------------------------------------

/// The registered tools, each under its own name.
pub struct ToolRouter<T: AsyncTool> {
    tools: Vec<(String, T)>,
}

spec fn at<T>(e: Seq<(String, T)>, name: Seq<char>, i: int) -> bool {
    0 <= i < e.len() && e[i].0@ == name
}

spec fn is_known<T>(e: Seq<(String, T)>, name: Seq<char>) -> bool {
    exists|i: int| at(e, name, i)
}

spec fn distinct<T>(e: Seq<(String, T)>) -> bool {
    forall|i: int, j: int| 0 <= i < j < e.len() ==> (#[trigger] e[i]).0@ != (#[trigger] e[j]).0@
}

spec fn tool_map<T>(e: Seq<(String, T)>) -> Map<Seq<char>, T> {
    Map::new(|k: Seq<char>| is_known(e, k), |k: Seq<char>| e[choose|i: int| at(e, k, i)].1)
}

spec fn names<T>(e: Seq<(String, T)>) -> Seq<Seq<char>> {
    e.map_values(|x: (String, T)| x.0@)
}

proof fn lemma_at<T>(e: Seq<(String, T)>, i: int)
    requires
        distinct(e),
        0 <= i < e.len(),
    ensures
        tool_map(e).contains_key(e[i].0@),
        tool_map(e)[e[i].0@] == e[i].1,
{
    assert(at(e, e[i].0@, i));
    let j = choose|j: int| at(e, e[i].0@, j);
    assert(at(e, e[i].0@, j));
    assert(i == j);
}

proof fn lemma_replaced<T>(e: Seq<(String, T)>, i: int, x: (String, T))
    requires
        distinct(e),
        0 <= i < e.len(),
        x.0@ == e[i].0@,
    ensures
        distinct(e.update(i, x)),
        tool_map(e.update(i, x)) == tool_map(e).insert(x.0@, x.1),
{
    let n = e.update(i, x);
    assert forall|a: int, b: int| 0 <= a < b < n.len() implies (#[trigger] n[a]).0@ != (
    #[trigger] n[b]).0@ by {
        assert(n[a].0@ == e[a].0@ && n[b].0@ == e[b].0@);
    }
    assert forall|k: Seq<char>| #[trigger] is_known(n, k) == (is_known(e, k) || k == x.0@) by {
        if is_known(n, k) {
            let a = choose|a: int| at(n, k, a);
            assert(at(e, k, a));
        }
        if is_known(e, k) {
            let a = choose|a: int| at(e, k, a);
            assert(at(n, k, a));
        }
        assert(at(n, x.0@, i));
    }
    assert forall|k: Seq<char>| #[trigger] is_known(n, k) implies tool_map(n)[k] == tool_map(
        e,
    ).insert(x.0@, x.1)[k] by {
        let a = choose|a: int| at(n, k, a);
        lemma_at(n, a);
        lemma_at(e, a);
        if a != i {
            assert(n[a] == e[a]);
        }
    }
    assert(tool_map(n) =~= tool_map(e).insert(x.0@, x.1));
}

proof fn lemma_pushed<T>(e: Seq<(String, T)>, x: (String, T))
    requires
        distinct(e),
        !is_known(e, x.0@),
    ensures
        distinct(e.push(x)),
        tool_map(e.push(x)) == tool_map(e).insert(x.0@, x.1),
{
    let n = e.push(x);
    assert forall|a: int, b: int| 0 <= a < b < n.len() implies (#[trigger] n[a]).0@ != (
    #[trigger] n[b]).0@ by {
        assert(n[a] == e[a]);
        assert(!at(e, x.0@, a));
        if b < e.len() {
            assert(n[b] == e[b]);
        }
    }
    assert forall|k: Seq<char>| #[trigger] is_known(n, k) == (is_known(e, k) || k == x.0@) by {
        if is_known(n, k) {
            let a = choose|a: int| at(n, k, a);
            if a < e.len() {
                assert(at(e, k, a));
            }
        }
        if is_known(e, k) {
            let a = choose|a: int| at(e, k, a);
            assert(at(n, k, a));
        }
        assert(at(n, x.0@, e.len() as int));
    }
    assert forall|k: Seq<char>| #[trigger] is_known(n, k) implies tool_map(n)[k] == tool_map(
        e,
    ).insert(x.0@, x.1)[k] by {
        let a = choose|a: int| at(n, k, a);
        lemma_at(n, a);
        if a < e.len() {
            assert(n[a] == e[a]);
            lemma_at(e, a);
            assert(!at(e, x.0@, a));
        }
    }
    assert(tool_map(n) =~= tool_map(e).insert(x.0@, x.1));
}

proof fn lemma_names<T>(e: Seq<(String, T)>)
    requires
        distinct(e),
    ensures
        names(e).no_duplicates(),
        names(e).to_set() == tool_map(e).dom(),
        tool_map(e).dom().finite(),
        tool_map(e).dom().len() == e.len(),
{
    let ks = names(e);
    assert forall|k: Seq<char>| #[trigger] ks.to_set().contains(k) == tool_map(
        e,
    ).dom().contains(k) by {
        if ks.contains(k) {
            let i = ks.index_of(k);
            assert(at(e, k, i));
        }
        if is_known(e, k) {
            let i = choose|i: int| at(e, k, i);
            assert(ks[i] == k);
        }
    }
    assert(ks.to_set() =~= tool_map(e).dom());
    ks.unique_seq_to_set();
    vstd::seq_lib::seq_to_set_is_finite(ks);
}

impl<T: AsyncTool> View for ToolRouter<T> {
    type V = Map<Seq<char>, T>;

    closed spec fn view(&self) -> Map<Seq<char>, T> {
        tool_map(self.tools@)
    }
}

/// The tools after the registration of one more: it replaces a tool of the
/// same name.
pub open spec fn registered<T: AsyncTool>(tools: Map<Seq<char>, T>, tool: T) -> Map<Seq<char>, T> {
    tools.insert(tool.described().name, tool)
}

/// The tools after the registration of several, one after the other.
pub open spec fn all_registered<T: AsyncTool>(tools: Map<Seq<char>, T>, more: Seq<T>) -> Map<
    Seq<char>,
    T,
>
    decreases more.len(),
{
    if more.len() == 0 {
        tools
    } else {
        registered(all_registered(tools, more.drop_last()), more.last())
    }
}

/// The names, each once, in no particular order.
pub open spec fn lists_names<T>(list: Seq<Seq<char>>, tools: Map<Seq<char>, T>) -> bool {
    list.no_duplicates() && list.to_set() == tools.dom()
}

/// The definitions of all tools, in no particular order.
pub open spec fn lists_definitions<T: AsyncTool>(
    list: Seq<ToolDefinitionView>,
    tools: Map<Seq<char>, T>,
) -> bool {
    exists|order: Seq<Seq<char>>| #[trigger] defines_by(list, order, tools)
}

pub open spec fn defines_by<T: AsyncTool>(
    list: Seq<ToolDefinitionView>,
    order: Seq<Seq<char>>,
    tools: Map<Seq<char>, T>,
) -> bool {
    &&& lists_names(order, tools)
    &&& list.len() == order.len()
    &&& forall|i: int|
        0 <= i < list.len() ==> #[trigger] list[i] == tools[order[i]].described()
}

/// The message for a call whose tool gave `outcome`, or the reason why there
/// is none.
pub open spec fn routed<T: AsyncTool>(
    tools: Map<Seq<char>, T>,
    call: ToolCallView,
    outcome: Result<Seq<char>, Seq<char>>,
) -> Result<MessageView, Seq<char>> {
    if !tools.contains_key(call.function.name) {
        Err("unknown tool: '"@ + call.function.name + "'"@)
    } else {
        match outcome {
            Ok(text) => Ok(tool_message(call.id, text)),
            Err(e) => Err(e),
        }
    }
}

pub open spec fn message_result(r: Result<Message, String>) -> Result<MessageView, Seq<char>> {
    match r {
        Ok(m) => Ok(m@),
        Err(e) => Err(e@),
    }
}

impl<T: AsyncTool> ToolRouter<T> {
    /// No name is registered twice.
    pub closed spec fn wf(&self) -> bool {
        distinct(self.tools@)
    }

    /// A router without tools.
    pub fn new() -> (r: Self)
        ensures
            r.wf(),
            r@ == Map::<Seq<char>, T>::empty(),
    {
        let r = ToolRouter { tools: Vec::new() };
        assert(r@ =~= Map::<Seq<char>, T>::empty());
        r
    }

    fn index_of(&self, name: &str) -> (r: Option<usize>)
        requires
            self.wf(),
        ensures
            match r {
                Some(i) => i < self.tools@.len() && self.tools@[i as int].0@ == name@
                    && self@.contains_key(name@) && self@[name@] == self.tools@[i as int].1,
                None => !self@.contains_key(name@) && !is_known(self.tools@, name@),
            },
    {
        let mut i: usize = 0;
        while i < self.tools.len()
            invariant
                i <= self.tools@.len(),
                self.wf(),
                forall|j: int| 0 <= j < i ==> (#[trigger] self.tools@[j]).0@ != name@,
            decreases self.tools@.len() - i,
        {
            if same(self.tools[i].0.as_str(), name) {
                proof {
                    lemma_at(self.tools@, i as int);
                }
                return Some(i);
            }
            i += 1;
        }
        None
    }

    /// Register a tool under its name. A tool of the same name is replaced.
    pub fn register(&mut self, tool: T)
        requires
            old(self).wf(),
        ensures
            final(self).wf(),
            final(self)@ == registered(old(self)@, tool),
    {
        let name = tool.definition().name;
        let ghost e = self.tools@;
        let found: Option<usize> = self.index_of(name.as_str());
        let entry = (name, tool);
        match found {
            Some(i) => {
                proof {
                    lemma_replaced(e, i as int, entry);
                }
                self.tools.set(i, entry);
            },
            None => {
                proof {
                    lemma_pushed(e, entry);
                }
                self.tools.push(entry);
            },
        }
    }

    /// Register several tools.
    pub fn register_all(&mut self, tools: Vec<T>)
        requires
            old(self).wf(),
        ensures
            final(self).wf(),
            final(self)@ == all_registered(old(self)@, tools@),
    {
        let ghost all = tools@;
        let ghost start = self@;
        let mut rest = tools;
        let ghost mut done: int = 0;
        assert(all.take(0) =~= Seq::empty());
        assert(all.skip(0) =~= all);
        while rest.len() > 0
            invariant
                self.wf(),
                0 <= done,
                done + rest@.len() == all.len(),
                rest@ == all.skip(done),
                self@ == all_registered(start, all.take(done)),
            decreases rest@.len(),
        {
            let tool = rest.remove(0);
            proof {
                let next = all.take(done + 1);
                assert(next.drop_last() =~= all.take(done));
                assert(next.last() == tool);
                assert(rest@ =~= all.skip(done + 1));
            }
            self.register(tool);
            proof {
                done = done + 1;
            }
        }
        assert(all.take(done) =~= all);
    }

    /// The tool with the given name.
    pub fn get(&self, name: &str) -> (r: Option<&T>)
        requires
            self.wf(),
        ensures
            match r {
                Some(t) => self@.contains_key(name@) && *t == self@[name@],
                None => !self@.contains_key(name@),
            },
    {
        match self.index_of(name) {
            Some(i) => Some(&self.tools[i].1),
            None => None,
        }
    }

    /// Number of registered tools.
    pub fn len(&self) -> (r: usize)
        requires
            self.wf(),
        ensures
            self@.dom().finite(),
            r == self@.dom().len(),
    {
        proof {
            lemma_names(self.tools@);
        }
        self.tools.len()
    }

    pub fn is_empty(&self) -> (r: bool)
        requires
            self.wf(),
        ensures
            r == (self@ == Map::<Seq<char>, T>::empty()),
    {
        proof {
            if self.tools@.len() > 0 {
                lemma_at(self.tools@, 0);
            } else {
                assert(self@ =~= Map::<Seq<char>, T>::empty());
            }
        }
        self.tools.len() == 0
    }

    /// The names of all registered tools, in no particular order.
    pub fn tool_names(&self) -> (r: Vec<&str>)
        requires
            self.wf(),
        ensures
            lists_names(r@.map_values(|s: &str| s@), self@),
    {
        let mut out: Vec<&str> = Vec::new();
        let mut i: usize = 0;
        while i < self.tools.len()
            invariant
                i <= self.tools@.len(),
                out@.len() == i,
                forall|j: int| 0 <= j < i ==> (#[trigger] out@[j])@ == self.tools@[j].0@,
            decreases self.tools@.len() - i,
        {
            out.push(self.tools[i].0.as_str());
            i += 1;
        }
        proof {
            lemma_names(self.tools@);
            assert(out@.map_values(|s: &str| s@) =~= names(self.tools@));
        }
        out
    }

    /// The definitions of all tools, for the model, in no particular order.
    pub fn definitions(&self) -> (r: Vec<ToolDefinition>)
        requires
            self.wf(),
        ensures
            lists_definitions(r@.map_values(|d: ToolDefinition| d@), self@),
    {
        let mut out: Vec<ToolDefinition> = Vec::new();
        let mut i: usize = 0;
        while i < self.tools.len()
            invariant
                i <= self.tools@.len(),
                out@.len() == i,
                forall|j: int| 0 <= j < i ==> (#[trigger] out@[j])@ == self.tools@[j].1.described(),
            decreases self.tools@.len() - i,
        {
            out.push(self.tools[i].1.definition());
            i += 1;
        }
        proof {
            let order = names(self.tools@);
            let list = out@.map_values(|d: ToolDefinition| d@);
            lemma_names(self.tools@);
            assert forall|j: int| 0 <= j < list.len() implies #[trigger] list[j]
                == self@[order[j]].described() by {
                lemma_at(self.tools@, j);
            }
            assert(defines_by(list, order, self@));
        }
        out
    }

    /// The message for a call, given what the tool with that name returned for
    /// its arguments. An unknown tool is an error, whatever the outcome says.
    pub fn route(&self, call: &ToolCall, outcome: Result<String, String>) -> (r: Result<
        Message,
        String,
    >)
        requires
            self.wf(),
        ensures
            message_result(r) == routed(self@, call@, text_result(outcome)),
    {
        if self.get(call.function.name.as_str()).is_none() {
            let mut e = "unknown tool: '".to_string();
            e.append(call.function.name.as_str());
            e.append("'");
            return Err(e);
        }
        match outcome {
            Ok(text) => Ok(Message::tool_result(&call.id, text)),
            Err(e) => Err(e),
        }
    }

    /// The messages for several calls, given the outcome of each.
    pub fn route_all(&self, calls: &[ToolCall], outcomes: &[Result<String, String>]) -> (r: Vec<
        Result<Message, String>,
    >)
        requires
            self.wf(),
            calls@.len() == outcomes@.len(),
        ensures
            r@.len() == calls@.len(),
            forall|i: int|
                0 <= i < r@.len() ==> message_result(#[trigger] r@[i]) == routed(
                    self@,
                    calls@[i]@,
                    text_result(outcomes@[i]),
                ),
    {
        let mut out: Vec<Result<Message, String>> = Vec::new();
        let mut i: usize = 0;
        while i < calls.len()
            invariant
                i <= calls@.len(),
                calls@.len() == outcomes@.len(),
                self.wf(),
                out@.len() == i,
                forall|j: int|
                    0 <= j < i ==> message_result(#[trigger] out@[j]) == routed(
                        self@,
                        calls@[j]@,
                        text_result(outcomes@[j]),
                    ),
            decreases calls@.len() - i,
        {
            let outcome = match &outcomes[i] {
                Ok(s) => Ok(s.clone()),
                Err(e) => Err(e.clone()),
            };
            out.push(self.route(&calls[i], outcome));
            i += 1;
        }
        out
    }
}

impl<T: AsyncTool> Default for ToolRouter<T> {
    fn default() -> (r: Self)
        ensures
            r.wf(),
            r@ == Map::<Seq<char>, T>::empty(),
    {
        ToolRouter::new()
    }
}

/// The last tool registered under a name is the one that is found; tools of
/// other names stay as they were.
pub proof fn law_last_registration_wins<T: AsyncTool>(
    tools: Map<Seq<char>, T>,
    tool: T,
    name: Seq<char>,
)
    ensures
        registered(tools, tool)[tool.described().name] == tool,
        name != tool.described().name ==> registered(tools, tool).contains_key(name)
            == tools.contains_key(name),
        name != tool.described().name && tools.contains_key(name) ==> registered(tools, tool)[name]
            == tools[name],
{
}

/// A call goes to a tool that is registered under its name, and its result
/// comes back as the answer to that very call; an error of the tool is handed
/// on, and a name that is not registered is reported.
pub proof fn law_routing<T: AsyncTool>(
    tools: Map<Seq<char>, T>,
    call: ToolCallView,
    text: Seq<char>,
)
    ensures
        tools.contains_key(call.function.name) ==> routed(tools, call, Ok(text)) == Ok::<
            MessageView,
            Seq<char>,
        >(tool_message(call.id, text)),
        tools.contains_key(call.function.name) ==> routed(tools, call, Err(text)) == Err::<
            MessageView,
            Seq<char>,
        >(text),
        !tools.contains_key(call.function.name) ==> routed(tools, call, Ok(text)) == Err::<
            MessageView,
            Seq<char>,
        >("unknown tool: '"@ + call.function.name + "'"@),
        !tools.contains_key(call.function.name) ==> routed(tools, call, Err(text)) == Err::<
            MessageView,
            Seq<char>,
        >("unknown tool: '"@ + call.function.name + "'"@),
{
}

/// Several tools are registered one after the other.
pub proof fn law_registrations<T: AsyncTool>(tools: Map<Seq<char>, T>, more: Seq<T>, tool: T)
    ensures
        all_registered(tools, Seq::empty()) == tools,
        all_registered(tools, more.push(tool)) == all_registered(tools, more).insert(
            tool.described().name,
            tool,
        ),
        registered(tools, tool) == tools.insert(tool.described().name, tool),
{
    assert(more.push(tool).drop_last() =~= more);
}

/// The definitions of all tools: each registered tool is defined, and nothing
/// else is.
pub proof fn law_definitions<T: AsyncTool>(
    list: Seq<ToolDefinitionView>,
    tools: Map<Seq<char>, T>,
    names: Seq<Seq<char>>,
)
    requires
        lists_definitions(list, tools),
        lists_names(names, tools),
    ensures
        tools.dom().finite(),
        list.len() == tools.dom().len(),
        names.len() == tools.dom().len(),
        names.no_duplicates(),
        forall|n: Seq<char>| #[trigger] names.contains(n) <==> tools.contains_key(n),
        forall|d: ToolDefinitionView| #[trigger]
            list.contains(d) <==> exists|n: Seq<char>|
                tools.contains_key(n) && (#[trigger] tools[n]).described() == d,
{
    let order = choose|order: Seq<Seq<char>>| #[trigger] defines_by(list, order, tools);
    order.unique_seq_to_set();
    names.unique_seq_to_set();
    vstd::seq_lib::seq_to_set_is_finite(order);
    assert forall|n: Seq<char>| #[trigger] names.contains(n) <==> tools.contains_key(n) by {
        assert(names.to_set().contains(n) <==> names.contains(n));
    }
    assert forall|d: ToolDefinitionView| #[trigger] list.contains(d) <==> exists|n: Seq<char>|
        tools.contains_key(n) && (#[trigger] tools[n]).described() == d by {
        if list.contains(d) {
            let i = list.index_of(d);
            assert(order.to_set().contains(order[i]));
            assert(tools[order[i]].described() == d);
        }
        if exists|n: Seq<char>| tools.contains_key(n) && (#[trigger] tools[n]).described() == d {
            let n = choose|n: Seq<char>|
                tools.contains_key(n) && (#[trigger] tools[n]).described() == d;
            assert(order.to_set().contains(n));
            let i = order.index_of(n);
            assert(list[i] == d);
        }
    }
}

/// What is seen of a kind and of a result is what they hold.
pub proof fn law_views(container_id: String, m: Message, e: String)
    ensures
        ToolKind::Platform@ is Platform,
        ToolKind::Frontend@ is Frontend,
        (ToolKind::Mcp { container_id })@ == (ToolKindView::Mcp { container_id: container_id@ }),
        message_result(Ok(m)) == Ok::<MessageView, Seq<char>>(m@),
        message_result(Err(e)) == Err::<MessageView, Seq<char>>(e@),
{
}

} // verus!
