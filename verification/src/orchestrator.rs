//! Several sub-agents at work on parts of a job, and their results brought
//! back into one conversation.

use vstd::prelude::*;
use crate::context::{
    branch_views, fresh_id, is_uuid, law_union, lists_by, merged, BranchView, ContextManager,
    ContextView, MergeStrategy,
};
use crate::text::{
    decimal, join, joined, lemma_decimal_injective, list_contains, show_usize, text_result, texts,
};
use crate::types::{copy_messages, message_views, plain_message, Message, MessageView, Role};

verus! {

// ---------------------------------------------------------------------------
// Names for the branches
// ---------------------------------------------------------------------------

/// The name with a number behind it; number zero leaves it as it is.
pub open spec fn numbered(hint: Seq<char>, n: nat) -> Seq<char> {
    if n == 0 {
        hint
    } else {
        hint + "_"@ + decimal(n)
    }
}

/// The first number with which the name is not taken.
pub open spec fn is_first_free(taken: Set<Seq<char>>, hint: Seq<char>, n: nat) -> bool {
    &&& !taken.contains(numbered(hint, n))
    &&& forall|k: nat| k < n ==> taken.contains(#[trigger] numbered(hint, k))
}

/// The name itself, or with the first number that makes it free.
pub open spec fn free_name(taken: Set<Seq<char>>, hint: Seq<char>) -> Seq<char> {
    numbered(hint, choose|n: nat| is_first_free(taken, hint, n))
}

proof fn lemma_numbered_injective(hint: Seq<char>, a: nat, b: nat)
    requires
        numbered(hint, a) == numbered(hint, b),
    ensures
        a == b,
{
    reveal_strlit("_");
    let x = numbered(hint, a);
    let y = numbered(hint, b);
    if a != 0 && b != 0 {
        let k = hint.len() + 1;
        assert(x.skip(k as int) =~= decimal(a));
        assert(y.skip(k as int) =~= decimal(b));
        lemma_decimal_injective(a, b);
    }
}

/// As many numbers as there are taken names cannot all be taken, and one more.
proof fn lemma_pigeons(taken: Seq<Seq<char>>, hint: Seq<char>, n: nat)
    requires
        forall|k: nat| k < n ==> taken.contains(#[trigger] numbered(hint, k)),
    ensures
        n <= taken.len(),
{
    let names = Seq::new(n, |k: int| numbered(hint, k as nat));
    assert(names.no_duplicates()) by {
        assert forall|i: int, j: int|
            0 <= i < names.len() && 0 <= j < names.len() && i != j implies names[i] != names[j] by {
            if names[i] == names[j] {
                lemma_numbered_injective(hint, i as nat, j as nat);
            }
        }
    }
    names.unique_seq_to_set();
    vstd::seq_lib::seq_to_set_is_finite(taken);
    taken.lemma_cardinality_of_set();
    assert(names.to_set().subset_of(taken.to_set())) by {
        assert forall|x: Seq<char>| names.to_set().contains(x) implies taken.to_set().contains(
            x,
        ) by {
            let i = names.index_of(x);
            assert(taken.contains(numbered(hint, i as nat)));
        }
    }
    vstd::set_lib::lemma_len_subset(names.to_set(), taken.to_set());
}

proof fn lemma_free_name(taken: Set<Seq<char>>, hint: Seq<char>, n: nat)
    requires
        is_first_free(taken, hint, n),
    ensures
        free_name(taken, hint) == numbered(hint, n),
{
    let m = choose|m: nat| is_first_free(taken, hint, m);
    assert(is_first_free(taken, hint, m));
    if m < n {
        assert(taken.contains(numbered(hint, m)));
    }
    if n < m {
        assert(taken.contains(numbered(hint, n)));
    }
}

/// A name that is not taken.
fn find_free_name(taken: &Vec<String>, hint: &str) -> (r: String)
    ensures
        r@ == free_name(texts(taken@).to_set(), hint@),
        !texts(taken@).contains(r@),
{
    let ghost names = texts(taken@);
    let mut name = hint.to_string();
    let mut n: usize = 0;
    while list_contains(taken, name.as_str())
        invariant
            names == texts(taken@),
            name@ == numbered(hint@, n as nat),
            forall|k: nat| k < n ==> names.contains(#[trigger] numbered(hint@, k)),
        ensures
            name@ == numbered(hint@, n as nat),
            !names.contains(name@),
            forall|k: nat| k < n ==> names.contains(#[trigger] numbered(hint@, k)),
        decreases taken@.len() + 1 - n,
    {
        proof {
            assert forall|k: nat| k < n + 1 implies names.contains(#[trigger] numbered(hint@, k)) by {
                if k == n {
                    assert(numbered(hint@, k) == name@);
                }
            }
            lemma_pigeons(names, hint@, (n + 1) as nat);
        }
        let total: usize = taken.len();
        assert(n < total);
        n += 1;
        name = hint.to_string();
        name.append("_");
        name.append(show_usize(n).as_str());
    }
    proof {
        assert(is_first_free(names.to_set(), hint@, n as nat));
        lemma_free_name(names.to_set(), hint@, n as nat);
    }
    name
}

// ---------------------------------------------------------------------------
// Results of the sub-agents
// ---------------------------------------------------------------------------

/// What became of a sub-agent.
#[derive(Debug, PartialEq, Eq)]
pub enum TaskResult {
    /// It ended with an answer or an error, and this conversation.
    Finished { agent_name: String, outcome: Result<String, String>, messages: Vec<Message> },
    /// It broke down.
    Panicked(String),
}

pub enum TaskView {
    Finished {
        agent_name: Seq<char>,
        outcome: Result<Seq<char>, Seq<char>>,
        messages: Seq<MessageView>,
    },
    Panicked(Seq<char>),
}

impl View for TaskResult {
    type V = TaskView;

    open spec fn view(&self) -> TaskView {
        match *self {
            TaskResult::Finished { agent_name, outcome, messages } => TaskView::Finished {
                agent_name: agent_name@,
                outcome: text_result(outcome),
                messages: message_views(messages@),
            },
            TaskResult::Panicked(e) => TaskView::Panicked(e@),
        }
    }
}

pub open spec fn task_views(v: Seq<TaskResult>) -> Seq<TaskView> {
    v.map_values(|t: TaskResult| t@)
}

/// The name a task asks for: that of its agent, or its number.
pub open spec fn name_hint(agent_name: Seq<char>, i: nat) -> Seq<char> {
    if agent_name.len() == 0 {
        "task-"@ + decimal(i)
    } else {
        agent_name
    }
}

/// The line of the report for a finished task.
pub open spec fn report_line(
    name: Seq<char>,
    outcome: Result<Seq<char>, Seq<char>>,
) -> Seq<char> {
    match outcome {
        Ok(text) => "["@ + name + "]: "@ + text,
        Err(e) => "["@ + name + "] ERROR: "@ + e,
    }
}

/// The conversation, the names of the branches that hold results, and the
/// lines of the report.
#[verifier::ext_equal]
pub struct SwarmView {
    pub context: ContextView,
    pub names: Seq<Seq<char>>,
    pub outputs: Seq<Seq<char>>,
}

/// The names that a new branch must not have.
pub open spec fn taken_names(context: ContextView, names: Seq<Seq<char>>) -> Set<Seq<char>> {
    Set::new(|n: Seq<char>| context.has_name(n) || names.contains(n))
}

/// The manager on the branch of the given name; where there is none, it stays
/// where it is.
pub open spec fn switched(context: ContextView, name: Seq<char>) -> ContextView {
    if context.has_name(name) {
        ContextView {
            branches: context.branches,
            current: choose|id: Seq<char>| context.named(id, name),
        }
    } else {
        context
    }
}

impl SwarmView {
    /// With the result of task `i` stored on a branch of its own.
    pub open spec fn stored(
        self,
        main: Seq<char>,
        i: nat,
        result: TaskView,
        id: Seq<char>,
    ) -> SwarmView {
        match result {
            TaskView::Finished { agent_name, outcome, messages } => {
                let name = free_name(
                    taken_names(self.context, self.names),
                    name_hint(agent_name, i),
                );
                SwarmView {
                    context: switched(
                        self.context.forked(id, name).with_messages(messages),
                        main,
                    ),
                    names: self.names.push(name),
                    outputs: self.outputs.push(report_line(name, outcome)),
                }
            },
            TaskView::Panicked(e) => SwarmView {
                outputs: self.outputs.push("[PANIC]: "@ + e),
                ..self
            },
        }
    }

    /// With all results stored, in order.
    pub open spec fn all_stored(
        self,
        main: Seq<char>,
        results: Seq<TaskView>,
        ids: Seq<Seq<char>>,
    ) -> SwarmView
        decreases results.len(),
    {
        if results.len() == 0 {
            self
        } else {
            let n = (results.len() - 1) as nat;
            self.all_stored(main, results.drop_last(), ids).stored(
                main,
                n,
                results.last(),
                ids[n as int],
            )
        }
    }
}

/// With the branch of the given name merged into the current one and deleted,
/// if there is such a branch.
pub open spec fn brought_back(context: ContextView, name: Seq<char>) -> ContextView {
    if context.has_name(name) {
        let key = choose|id: Seq<char>| context.named(id, name);
        let id = context.branches[key].id;
        let after = if context.branches.contains_key(id) {
            context.with_messages(
                merged(context.messages(), context.branches[id], MergeStrategy::Union),
            )
        } else {
            context
        };
        if after.branches.dom().len() < 2 || id == after.current {
            after
        } else {
            ContextView { branches: after.branches.remove(id), current: after.current }
        }
    } else {
        context
    }
}

/// With the branches of all names brought back, in order.
pub open spec fn all_brought_back(context: ContextView, names: Seq<Seq<char>>) -> ContextView
    decreases names.len(),
{
    if names.len() == 0 {
        context
    } else {
        brought_back(all_brought_back(context, names.drop_last()), names.last())
    }
}

/// The report of the whole run.
pub open spec fn report(merged_count: nat, tasks: nat, outputs: Seq<Seq<char>>) -> Seq<char> {
    "Parallel execution completed. "@ + decimal(merged_count) + "/"@ + decimal(tasks)
        + " branches merged.\n───────────────────────────────────────────\n"@ + joined(
        outputs,
        "\n---\n"@,
    )
}

/// The state before the first result is stored.
pub open spec fn swarm_start(context: ContextView) -> SwarmView {
    SwarmView { context, names: Seq::empty(), outputs: Seq::empty() }
}

/// The conversation and the report after the results, with the ids for the
/// branches.
pub open spec fn gathered(
    context: ContextView,
    results: Seq<TaskView>,
    ids: Seq<Seq<char>>,
) -> (ContextView, Seq<char>) {
    if results.len() == 0 {
        (context, "No tasks to execute."@)
    } else {
        let s = swarm_start(context).all_stored(context.here().name, results, ids);
        (
            all_brought_back(s.context, s.names),
            report(s.names.len(), results.len(), s.outputs),
        )
    }
}

// ---------------------------------------------------------------------------
// Names stay unique
// ---------------------------------------------------------------------------

/// Every name of the list belongs to at most one branch.
spec fn all_unique(context: ContextView, names: Seq<Seq<char>>) -> bool {
    forall|k: int| 0 <= k < names.len() ==> context.name_unique(#[trigger] names[k])
}

proof fn lemma_named_after_fork(
    context: ContextView,
    id: Seq<char>,
    name: Seq<char>,
    messages: Seq<MessageView>,
    n: Seq<char>,
    key: Seq<char>,
)
    ensures
        context.forked(id, name).with_messages(messages).named(key, n) ==> (key == id && n == name)
            || (key != id && context.named(key, n)),
{
}

proof fn lemma_unique_after_fork(
    context: ContextView,
    id: Seq<char>,
    name: Seq<char>,
    messages: Seq<MessageView>,
    n: Seq<char>,
)
    requires
        !context.has_name(name),
        context.name_unique(n),
    ensures
        context.forked(id, name).with_messages(messages).name_unique(n),
        context.forked(id, name).with_messages(messages).name_unique(name),
{
    let after = context.forked(id, name).with_messages(messages);
    assert forall|a: Seq<char>, b: Seq<char>| #[trigger]
        after.named(a, n) && #[trigger] after.named(b, n) implies a == b by {
        lemma_named_after_fork(context, id, name, messages, n, a);
        lemma_named_after_fork(context, id, name, messages, n, b);
        if n == name {
            assert(!context.named(a, n) && !context.named(b, n));
        }
    }
    assert forall|a: Seq<char>, b: Seq<char>| #[trigger]
        after.named(a, name) && #[trigger] after.named(b, name) implies a == b by {
        lemma_named_after_fork(context, id, name, messages, name, a);
        lemma_named_after_fork(context, id, name, messages, name, b);
        assert(!context.named(a, name) && !context.named(b, name));
    }
}

/// The same branches under the same names: only messages differ, or branches
/// are missing, or another one is current.
spec fn fewer(after: ContextView, before: ContextView) -> bool {
    forall|k: Seq<char>| #[trigger]
        after.branches.contains_key(k) ==> before.branches.contains_key(k)
            && after.branches[k].name == before.branches[k].name
}

proof fn lemma_fewer(after: ContextView, before: ContextView, n: Seq<char>)
    requires
        fewer(after, before),
        before.name_unique(n),
    ensures
        after.name_unique(n),
{
    assert forall|a: Seq<char>, b: Seq<char>| #[trigger]
        after.named(a, n) && #[trigger] after.named(b, n) implies a == b by {
        assert(after.branches.contains_key(a) && after.branches.contains_key(b));
        assert(before.named(a, n) && before.named(b, n));
    }
}

proof fn lemma_brought_back_fewer(context: ContextView, name: Seq<char>)
    requires
        context.branches.contains_key(context.current),
    ensures
        fewer(brought_back(context, name), context),
        brought_back(context, name).branches.contains_key(brought_back(context, name).current),
        brought_back(context, name).current == context.current,
{
}

// ---------------------------------------------------------------------------
// The cluster
// ---------------------------------------------------------------------------

/// A conversation whose parts are worked on by several agents at once.
///
/// Every task is a pair of an agent's name and a prompt. The name becomes the
/// name of a branch, with a number behind it if it is taken.
pub struct AgentCluster {
    pub context: ContextManager,
}

impl AgentCluster {
    pub open spec fn wf(&self) -> bool {
        self.context.wf()
    }

    /// A cluster with an empty conversation.
    pub fn new() -> (r: Self)
        ensures
            r.wf(),
            is_uuid(r.context@.current),
            r.context@.branches == Map::empty().insert(
                r.context@.current,
                BranchView::fresh(r.context@.current, "main"@),
            ),
            r.context@.messages().len() == 0,
            r.context@.here().name == "main"@,
    {
        AgentCluster { context: ContextManager::new() }
    }

    /// The conversation a sub-agent starts with: a copy of the current branch
    /// and the prompt.
    pub fn task_messages(&self, prompt: &str) -> (r: Vec<Message>)
        requires
            self.wf(),
        ensures
            message_views(r@) == self.context@.messages().push(plain_message(Role::User, prompt@)),
    {
        let mut all = copy_messages(self.context.current_messages());
        let ghost before = all@;
        let msg = Message::new(Role::User, prompt);
        all.push(msg);
        assert(message_views(all@) =~= message_views(before).push(msg@));
        all
    }

    fn used_names(&self, names: &Vec<String>) -> (r: Vec<String>)
        requires
            self.wf(),
        ensures
            texts(r@).to_set() == taken_names(self.context@, texts(names@)),
    {
        let list = self.context.list();
        let ghost views = branch_views(list@);
        let ghost context = self.context@;
        let mut out: Vec<String> = Vec::new();
        let mut i: usize = 0;
        while i < list.len()
            invariant
                i <= list@.len(),
                out@.len() == i,
                forall|j: int| 0 <= j < i ==> (#[trigger] out@[j])@ == list@[j]@.name,
            decreases list@.len() - i,
        {
            out.push(list[i].name.clone());
            i += 1;
        }
        let ghost listed = out@;
        let mut k: usize = 0;
        while k < names.len()
            invariant
                k <= names@.len(),
                out@.len() == listed.len() + k,
                forall|j: int| 0 <= j < listed.len() ==> #[trigger] out@[j] == listed[j],
                forall|j: int| 0 <= j < k ==> out@[listed.len() + j]@ == (#[trigger] names@[j])@,
            decreases names@.len() - k,
        {
            out.push(names[k].clone());
            k += 1;
        }
        proof {
            let all = texts(out@);
            let known = texts(names@);
            let ids = choose|ids: Seq<Seq<char>>| lists_by(views, ids, context.branches);
            assert forall|n: Seq<char>| #[trigger] all.to_set().contains(n) == taken_names(
                context,
                known,
            ).contains(n) by {
                if all.contains(n) {
                    let j = all.index_of(n);
                    if j < listed.len() {
                        assert(out@[j] == listed[j]);
                        assert(views[j] == context.branches[ids[j]]);
                        assert(ids.to_set().contains(ids[j])) by {
                            assert(ids.contains(ids[j]));
                        }
                        assert(context.named(ids[j], n));
                    } else {
                        let q = j - listed.len();
                        assert(known[q] == names@[q]@);
                        assert(known[q] == n);
                    }
                }
                if context.has_name(n) {
                    let id = choose|id: Seq<char>| context.named(id, n);
                    assert(ids.to_set().contains(id));
                    let j = ids.index_of(id);
                    assert(views[j] == context.branches[ids[j]]);
                    assert(out@[j] == listed[j]);
                    assert(all[j] == n);
                }
                if known.contains(n) {
                    let q = known.index_of(n);
                    assert(names@[q]@ == n);
                    assert(all[listed.len() + q] == n);
                }
            }
            assert(all.to_set() =~= taken_names(context, known));
        }
        out
    }

    /// Store a finished task on a branch of its own and come back to the
    /// branch `main`. Gives the name of the new branch.
    fn store(
        &mut self,
        main: &str,
        hint: &str,
        messages: Vec<Message>,
        names: &Vec<String>,
        id: String,
    ) -> (r: String)
        requires
            old(self).wf(),
            old(self).context@.name_unique(main@),
            all_unique(old(self).context@, texts(names@)),
        ensures
            final(self).wf(),
            r@ == free_name(taken_names(old(self).context@, texts(names@)), hint@),
            final(self).context@ == switched(
                old(self).context@.forked(id@, r@).with_messages(message_views(messages@)),
                main@,
            ),
            final(self).context@.name_unique(main@),
            all_unique(final(self).context@, texts(names@).push(r@)),
    {
        let ghost before = self.context@;
        let used = self.used_names(names);
        let name = find_free_name(&used, hint);
        proof {
            assert(!texts(used@).to_set().contains(name@));
            assert(!before.has_name(name@));
        }
        let ghost ms = message_views(messages@);
        self.context.fork_as(id, name.as_str());
        let branch = self.context.current_branch_mut();
        branch.messages = messages;
        let ghost forked = before.forked(id@, name@).with_messages(ms);
        proof {
            assert(self.context@ =~= forked);
            lemma_unique_after_fork(before, id@, name@, ms, main@);
            assert forall|k: int| 0 <= k < texts(names@).push(name@).len() implies forked.name_unique(
                #[trigger] texts(names@).push(name@)[k],
            ) by {
                if k < texts(names@).len() {
                    assert(texts(names@).push(name@)[k] == texts(names@)[k]);
                    lemma_unique_after_fork(before, id@, name@, ms, texts(names@)[k]);
                }
            }
        }
        let _ = self.context.switch_by_name(main);
        proof {
            let after = self.context@;
            assert(after == switched(forked, main@)) by {
                if forked.has_name(main@) {
                    let key = choose|key: Seq<char>| forked.named(key, main@);
                    assert(forked.named(after.current, main@));
                    assert(forked.named(key, main@));
                }
            }
            assert(fewer(after, forked));
            lemma_fewer(after, forked, main@);
            assert forall|k: int| 0 <= k < texts(names@).push(name@).len() implies after.name_unique(
                #[trigger] texts(names@).push(name@)[k],
            ) by {
                lemma_fewer(after, forked, texts(names@).push(name@)[k]);
            }
        }
        name
    }

    /// Merge the branch of the given name into the current one and delete it.
    fn bring_back(&mut self, name: &str)
        requires
            old(self).wf(),
            old(self).context@.name_unique(name@),
        ensures
            final(self).wf(),
            final(self).context@ == brought_back(old(self).context@, name@),
    {
        let ghost before = self.context@;
        let key = match self.context.find_id_by_name(name) {
            Some(key) => key,
            None => {
                return ;
            },
        };
        proof {
            let chosen = choose|id: Seq<char>| before.named(id, name@);
            assert(before.named(key@, name@));
            assert(before.named(chosen, name@));
            assert(key@ == chosen);
        }
        let id = match self.context.get(key.as_str()) {
            Some(b) => b.id.clone(),
            None => {
                return ;
            },
        };
        let _ = self.context.merge(id.as_str(), MergeStrategy::Union);
        let _ = self.context.delete(id.as_str());
    }

    /// Store the results of all tasks on branches of their own, merge them into
    /// the current branch and report. The branches get the given ids.
    ///
    /// More than one branch of the current branch's name counts as a bug of
    /// the caller.
    pub fn gather_as(&mut self, results: &Vec<TaskResult>, ids: &Vec<String>) -> (r: String)
        requires
            old(self).wf(),
            old(self).context@.name_unique(old(self).context@.here().name),
            ids@.len() == results@.len(),
        ensures
            final(self).wf(),
            (final(self).context@, r@) == gathered(
                old(self).context@,
                task_views(results@),
                texts(ids@),
            ),
    {
        if results.len() == 0 {
            return "No tasks to execute.".to_string();
        }
        let ghost start = self.context@;
        let ghost tasks = task_views(results@);
        let ghost keys = texts(ids@);
        let main = self.context.current_branch().name.clone();
        let mut names: Vec<String> = Vec::new();
        let mut outputs: Vec<String> = Vec::new();
        let mut i: usize = 0;
        assert(tasks.take(0) =~= Seq::empty());
        assert(texts(names@) =~= Seq::empty());
        assert(texts(outputs@) =~= Seq::empty());
        while i < results.len()
            invariant
                i <= results@.len(),
                ids@.len() == results@.len(),
                tasks == task_views(results@),
                keys == texts(ids@),
                self.wf(),
                main@ == start.here().name,
                self.context@.name_unique(main@),
                all_unique(self.context@, texts(names@)),
                names@.len() <= i,
                (SwarmView {
                    context: self.context@,
                    names: texts(names@),
                    outputs: texts(outputs@),
                }) == swarm_start(start).all_stored(main@, tasks.take(i as int), keys),
            decreases results@.len() - i,
        {
            let ghost before = swarm_start(start).all_stored(main@, tasks.take(i as int), keys);
            proof {
                assert(tasks.take(i + 1).drop_last() =~= tasks.take(i as int));
                assert(tasks.take(i + 1).last() == results@[i as int]@);
                assert(keys[i as int] == ids@[i as int]@);
            }
            let ghost lines = outputs@;
            let ghost known = names@;
            match &results[i] {
                TaskResult::Finished { agent_name, outcome, messages } => {
                    let hint = if agent_name.as_str().is_empty() {
                        let mut s = "task-".to_string();
                        s.append(show_usize(i).as_str());
                        s
                    } else {
                        agent_name.clone()
                    };
                    let name = self.store(
                        main.as_str(),
                        hint.as_str(),
                        copy_messages(messages.as_slice()),
                        &names,
                        ids[i].clone(),
                    );
                    let mut line = "[".to_string();
                    line.append(name.as_str());
                    match outcome {
                        Ok(text) => {
                            line.append("]: ");
                            line.append(text.as_str());
                        },
                        Err(e) => {
                            line.append("] ERROR: ");
                            line.append(e.as_str());
                        },
                    }
                    outputs.push(line);
                    names.push(name);
                    assert(texts(outputs@) =~= texts(lines).push(line@));
                    assert(texts(names@) =~= texts(known).push(name@));
                },
                TaskResult::Panicked(e) => {
                    let mut line = "[PANIC]: ".to_string();
                    line.append(e.as_str());
                    outputs.push(line);
                    assert(texts(outputs@) =~= texts(lines).push(line@));
                },
            }
            i += 1;
        }
        assert(tasks.take(i as int) =~= tasks);
        let ghost full = self.context@;
        let ghost all = texts(names@);
        let mut k: usize = 0;
        assert(all.take(0) =~= Seq::empty());
        while k < names.len()
            invariant
                k <= names@.len(),
                all == texts(names@),
                self.wf(),
                all_unique(self.context@, all),
                self.context@ == all_brought_back(full, all.take(k as int)),
            decreases names@.len() - k,
        {
            let ghost before = self.context@;
            proof {
                assert(all[k as int] == names@[k as int]@);
                assert(all.take(k + 1).drop_last() =~= all.take(k as int));
                assert(all.take(k + 1).last() == all[k as int]);
                lemma_brought_back_fewer(before, all[k as int]);
            }
            self.bring_back(names[k].as_str());
            proof {
                assert forall|j: int| 0 <= j < all.len() implies self.context@.name_unique(
                    #[trigger] all[j],
                ) by {
                    lemma_fewer(self.context@, before, all[j]);
                }
            }
            k += 1;
        }
        assert(all.take(k as int) =~= all);
        let mut text = "Parallel execution completed. ".to_string();
        text.append(show_usize(names.len()).as_str());
        text.append("/");
        text.append(show_usize(results.len()).as_str());
        text.append(" branches merged.\n───────────────────────────────────────────\n");
        text.append(join(&outputs, "\n---\n").as_str());
        text
    }

    /// Store the results of all tasks on branches of their own, merge them into
    /// the current branch and report. The branches get fresh ids.
    pub fn execute_parallel_tasks(&mut self, results: &Vec<TaskResult>) -> (r: String)
        requires
            old(self).wf(),
            old(self).context@.name_unique(old(self).context@.here().name),
        ensures
            final(self).wf(),
            exists|ids: Seq<Seq<char>>|
                ids.len() == results@.len() && (forall|i: int|
                    0 <= i < ids.len() ==> is_uuid(#[trigger] ids[i])) && (final(self).context@, r@)
                    == #[trigger] gathered(old(self).context@, task_views(results@), ids),
    {
        let mut ids: Vec<String> = Vec::new();
        while ids.len() < results.len()
            invariant
                ids@.len() <= results@.len(),
                forall|i: int| 0 <= i < ids@.len() ==> is_uuid((#[trigger] ids@[i])@),
            decreases results@.len() - ids@.len(),
        {
            ids.push(fresh_id());
        }
        assert forall|i: int| 0 <= i < texts(ids@).len() implies is_uuid(
            #[trigger] texts(ids@)[i],
        ) by {
            assert(texts(ids@)[i] == ids@[i]@);
        }
        self.gather_as(results, &ids)
    }
}

// ---------------------------------------------------------------------------
// Laws
// ---------------------------------------------------------------------------

/// A finished task on its branch.
struct Stored {
    id: Seq<char>,
    name: Seq<char>,
    messages: Seq<MessageView>,
}

/// The context is `v` with the stored tasks added, each on a branch of its own
/// with an id and a name that nothing else has.
spec fn holds_all(v: ContextView, context: ContextView, tasks: Seq<Stored>) -> bool {
    &&& context.current == v.current
    &&& context.branches.dom().finite()
    &&& forall|k: Seq<char>| #[trigger]
        v.branches.contains_key(k) ==> context.branches.contains_key(k) && context.branches[k]
            == v.branches[k]
    &&& forall|k: Seq<char>| #[trigger]
        context.branches.contains_key(k) ==> v.branches.contains_key(k) || is_stored(tasks, k)
    &&& forall|j: int|
        0 <= j < tasks.len() ==> {
            let t = #[trigger] tasks[j];
            &&& context.branches.contains_key(t.id)
            &&& !v.branches.contains_key(t.id)
            &&& !v.has_name(t.name)
            &&& context.branches[t.id].id == t.id
            &&& context.branches[t.id].name == t.name
            &&& context.branches[t.id].messages == t.messages
        }
    &&& forall|a: int, b: int|
        0 <= a < b < tasks.len() ==> (#[trigger] tasks[a]).id != (#[trigger] tasks[b]).id
            && tasks[a].name != tasks[b].name
}

spec fn is_stored(tasks: Seq<Stored>, k: Seq<char>) -> bool {
    exists|j: int| 0 <= j < tasks.len() && (#[trigger] tasks[j]).id == k
}

spec fn names_of(tasks: Seq<Stored>) -> Seq<Seq<char>> {
    tasks.map_values(|t: Stored| t.name)
}

/// The ids are new to the context and differ from each other.
pub open spec fn fresh_ids(context: ContextView, ids: Seq<Seq<char>>) -> bool {
    &&& ids.no_duplicates()
    &&& forall|i: int| 0 <= i < ids.len() ==> !context.branches.contains_key(#[trigger] ids[i])
}

/// Two conversations brought together.
pub open spec fn union_of(target: Seq<MessageView>, more: Seq<MessageView>) -> Seq<MessageView> {
    merged(
        target,
        BranchView::fresh(Seq::empty(), Seq::empty()).with_messages(more),
        MergeStrategy::Union,
    )
}

/// A conversation brought together with those of all finished tasks, in order.
pub open spec fn union_all(target: Seq<MessageView>, results: Seq<TaskView>) -> Seq<MessageView>
    decreases results.len(),
{
    if results.len() == 0 {
        target
    } else {
        let before = union_all(target, results.drop_last());
        match results.last() {
            TaskView::Finished { agent_name, outcome, messages } => union_of(before, messages),
            TaskView::Panicked(e) => before,
        }
    }
}

/// The stored tasks, brought together in order.
spec fn union_stored(target: Seq<MessageView>, tasks: Seq<Stored>) -> Seq<MessageView>
    decreases tasks.len(),
{
    if tasks.len() == 0 {
        target
    } else {
        union_of(union_stored(target, tasks.drop_last()), tasks.last().messages)
    }
}

/// There is always a free name.
proof fn lemma_free_name_exists(context: ContextView, names: Seq<Seq<char>>, hint: Seq<char>)
    requires
        context.branches.dom().finite(),
    ensures
        !context.has_name(free_name(taken_names(context, names), hint)),
        !names.contains(free_name(taken_names(context, names), hint)),
{
    let taken = taken_names(context, names);
    let ids = context.branches.dom().to_seq();
    let owned = ids.map_values(|id: Seq<char>| context.branches[id].name);
    let all = owned + names;
    assert forall|n: Seq<char>| #[trigger] taken.contains(n) implies all.contains(n) by {
        if context.has_name(n) {
            let id = choose|id: Seq<char>| context.named(id, n);
            context.branches.dom().lemma_to_seq_to_set_id();
            assert(ids.to_set().contains(id));
            let j = ids.index_of(id);
            assert(owned[j] == n);
            assert(all[j] == n);
        } else {
            let j = names.index_of(n);
            assert(all[owned.len() + j] == n);
        }
    }
    if forall|k: nat| k <= all.len() ==> taken.contains(#[trigger] numbered(hint, k)) {
        assert forall|k: nat| k < all.len() + 1 implies all.contains(
            #[trigger] numbered(hint, k),
        ) by {
            assert(taken.contains(numbered(hint, k)));
        }
        lemma_pigeons(all, hint, all.len() + 1);
    }
    let free = choose|k: nat| k <= all.len() && !taken.contains(#[trigger] numbered(hint, k));
    lemma_first_free(taken, hint, free);
    let n = choose|n: nat| is_first_free(taken, hint, n);
    assert(is_first_free(taken, hint, n));
}

proof fn lemma_first_free(taken: Set<Seq<char>>, hint: Seq<char>, free: nat)
    requires
        !taken.contains(numbered(hint, free)),
    ensures
        exists|n: nat| is_first_free(taken, hint, n),
    decreases free,
{
    if forall|k: nat| k < free ==> taken.contains(#[trigger] numbered(hint, k)) {
        assert(is_first_free(taken, hint, free));
    } else {
        let k = choose|k: nat| k < free && !taken.contains(#[trigger] numbered(hint, k));
        lemma_first_free(taken, hint, k);
    }
}

/// One more finished task is stored.
proof fn lemma_store(
    v: ContextView,
    context: ContextView,
    tasks: Seq<Stored>,
    id: Seq<char>,
    name: Seq<char>,
    messages: Seq<MessageView>,
)
    requires
        holds_all(v, context, tasks),
        v.branches.contains_key(v.current),
        v.name_unique(v.here().name),
        !v.branches.contains_key(id),
        !is_stored(tasks, id),
        !context.has_name(name),
        !names_of(tasks).contains(name),
    ensures
        ({
            let all = tasks.push(Stored { id, name, messages });
            let after = switched(
                context.forked(id, name).with_messages(messages),
                v.here().name,
            );
            holds_all(v, after, all)
        }),
{
    let t = Stored { id, name, messages };
    let all = tasks.push(t);
    let main = v.here().name;
    let forked = context.forked(id, name).with_messages(messages);
    let after = switched(forked, main);
    assert(context.branches.contains_key(v.current));
    assert(context.named(v.current, main));
    assert(name != main);
    assert(id != v.current);
    assert(forked.branches[v.current] == v.branches[v.current]);
    assert(forked.named(v.current, main));
    let key = choose|key: Seq<char>| forked.named(key, main);
    assert(forked.named(key, main));
    assert(key == v.current) by {
        if key == id {
            assert(forked.branches[id].name == name);
        } else {
            assert(context.named(key, main));
            if v.branches.contains_key(key) {
                assert(v.named(key, main));
                assert(v.named(v.current, main));
            } else {
                let j = choose|j: int| 0 <= j < tasks.len() && (#[trigger] tasks[j]).id == key;
                assert(!v.has_name(tasks[j].name));
                assert(v.named(v.current, main));
            }
        }
    }
    assert(after.branches == forked.branches);
    assert forall|k: Seq<char>| #[trigger] v.branches.contains_key(k) implies
        after.branches.contains_key(k) && after.branches[k] == v.branches[k] by {
        assert(context.branches.contains_key(k));
    }
    assert forall|k: Seq<char>| #[trigger] after.branches.contains_key(k) implies
        v.branches.contains_key(k) || is_stored(all, k) by {
        if k == id {
            assert(all[tasks.len() as int].id == id);
        } else {
            assert(context.branches.contains_key(k));
            if !v.branches.contains_key(k) {
                let j = choose|j: int| 0 <= j < tasks.len() && (#[trigger] tasks[j]).id == k;
                assert(all[j].id == k);
            }
        }
    }
    assert(!v.has_name(name)) by {
        if v.has_name(name) {
            let k = choose|k: Seq<char>| v.named(k, name);
            assert(context.branches.contains_key(k));
            assert(context.named(k, name));
        }
    }
    assert forall|j: int| 0 <= j < all.len() implies {
        let x = #[trigger] all[j];
        &&& after.branches.contains_key(x.id)
        &&& !v.branches.contains_key(x.id)
        &&& !v.has_name(x.name)
        &&& after.branches[x.id].id == x.id
        &&& after.branches[x.id].name == x.name
        &&& after.branches[x.id].messages == x.messages
    } by {
        if j < tasks.len() {
            assert(all[j] == tasks[j]);
            assert(tasks[j].id != id);
        }
    }
    assert forall|a: int, b: int| 0 <= a < b < all.len() implies (#[trigger] all[a]).id != (
    #[trigger] all[b]).id && all[a].name != all[b].name by {
        assert(all[a] == tasks[a]);
        if b < tasks.len() {
            assert(all[b] == tasks[b]);
        } else {
            assert(names_of(tasks)[a] == tasks[a].name);
        }
    }
}

/// The first stored task is brought back.
proof fn lemma_bring_back(v: ContextView, context: ContextView, tasks: Seq<Stored>)
    requires
        holds_all(v, context, tasks),
        v.branches.contains_key(v.current),
        tasks.len() > 0,
    ensures
        ({
            let w = v.with_messages(union_of(v.messages(), tasks[0].messages));
            holds_all(w, brought_back(context, tasks[0].name), tasks.skip(1))
        }),
{
    let t = tasks[0];
    let rest = tasks.skip(1);
    let w = v.with_messages(union_of(v.messages(), t.messages));
    assert(context.branches.contains_key(v.current));
    assert(context.messages() == v.messages());
    assert(context.named(t.id, t.name));
    let key = choose|key: Seq<char>| context.named(key, t.name);
    assert(context.named(key, t.name));
    assert(key == t.id) by {
        if v.branches.contains_key(key) {
            assert(v.named(key, t.name));
        } else {
            let j = choose|j: int| 0 <= j < tasks.len() && (#[trigger] tasks[j]).id == key;
            if j != 0 {
                assert(tasks[0].name != tasks[j].name);
            }
        }
    }
    assert(merged(context.messages(), context.branches[t.id], MergeStrategy::Union) == union_of(
        v.messages(),
        t.messages,
    ));
    let after = context.with_messages(union_of(v.messages(), t.messages));
    assert(t.id != v.current);
    assert(after.branches.dom() =~= context.branches.dom());
    assert(after.branches.dom().len() >= 2) by {
        let two = Set::<Seq<char>>::empty().insert(t.id).insert(v.current);
        assert(two.len() == 2);
        vstd::set_lib::lemma_len_subset(two, after.branches.dom());
    }
    let back = ContextView { branches: after.branches.remove(t.id), current: after.current };
    assert(brought_back(context, t.name) == back);
    assert forall|k: Seq<char>| #[trigger] w.branches.contains_key(k) implies
        back.branches.contains_key(k) && back.branches[k] == w.branches[k] by {
        assert(v.branches.contains_key(k));
        assert(k != t.id);
    }
    assert forall|k: Seq<char>| #[trigger] back.branches.contains_key(k) implies
        w.branches.contains_key(k) || is_stored(rest, k) by {
        assert(context.branches.contains_key(k));
        if !v.branches.contains_key(k) {
            let j = choose|j: int| 0 <= j < tasks.len() && (#[trigger] tasks[j]).id == k;
            assert(rest[j - 1].id == k);
        }
    }
    assert forall|n: Seq<char>| #[trigger] w.has_name(n) implies v.has_name(n) by {
        let k = choose|k: Seq<char>| w.named(k, n);
        assert(v.named(k, n));
    }
    assert forall|j: int| 0 <= j < rest.len() implies {
        let x = #[trigger] rest[j];
        &&& back.branches.contains_key(x.id)
        &&& !w.branches.contains_key(x.id)
        &&& !w.has_name(x.name)
        &&& back.branches[x.id].id == x.id
        &&& back.branches[x.id].name == x.name
        &&& back.branches[x.id].messages == x.messages
    } by {
        assert(rest[j] == tasks[j + 1]);
        assert(tasks[0].id != tasks[j + 1].id);
        assert(tasks[j + 1].id != v.current);
    }
    assert forall|a: int, b: int| 0 <= a < b < rest.len() implies (#[trigger] rest[a]).id != (
    #[trigger] rest[b]).id && rest[a].name != rest[b].name by {
        assert(rest[a] == tasks[a + 1] && rest[b] == tasks[b + 1]);
    }
}

proof fn lemma_bring_all_back(
    v: ContextView,
    context: ContextView,
    tasks: Seq<Stored>,
    k: int,
)
    requires
        holds_all(v, context, tasks),
        v.branches.contains_key(v.current),
        0 <= k <= tasks.len(),
    ensures
        holds_all(
            v.with_messages(union_stored(v.messages(), tasks.take(k))),
            all_brought_back(context, names_of(tasks).take(k)),
            tasks.skip(k),
        ),
    decreases k,
{
    let names = names_of(tasks);
    if k == 0 {
        assert(tasks.skip(0) =~= tasks);
        assert(names.take(0) =~= Seq::empty());
        assert(tasks.take(0) =~= Seq::empty());
        assert(v.with_messages(v.messages()).branches =~= v.branches);
    } else {
        lemma_bring_all_back(v, context, tasks, k - 1);
        let u = v.with_messages(union_stored(v.messages(), tasks.take(k - 1)));
        let c = all_brought_back(context, names.take(k - 1));
        lemma_bring_back(u, c, tasks.skip(k - 1));
        assert(tasks.skip(k - 1)[0] == tasks[k - 1]);
        assert(tasks.skip(k - 1).skip(1) =~= tasks.skip(k));
        assert(tasks.take(k).drop_last() =~= tasks.take(k - 1));
        assert(tasks.take(k).last() == tasks[k - 1]);
        assert(names.take(k).drop_last() =~= names.take(k - 1));
        assert(names.take(k).last() == tasks[k - 1].name);
        let m = union_stored(v.messages(), tasks.take(k));
        assert(u.with_messages(m).branches =~= v.with_messages(m).branches);
    }
}

/// The tasks that were stored for some results.
proof fn lemma_all_stored(v: ContextView, results: Seq<TaskView>, ids: Seq<Seq<char>>) -> (tasks:
    Seq<Stored>)
    requires
        v.branches.contains_key(v.current),
        v.branches.dom().finite(),
        v.name_unique(v.here().name),
        results.len() <= ids.len(),
        fresh_ids(v, ids),
    ensures
        ({
            let s = swarm_start(v).all_stored(v.here().name, results, ids);
            &&& holds_all(v, s.context, tasks)
            &&& s.names == names_of(tasks)
            &&& union_stored(v.messages(), tasks) == union_all(v.messages(), results)
            &&& forall|j: int|
                0 <= j < tasks.len() ==> ids.take(results.len() as int).contains(
                    (#[trigger] tasks[j]).id,
                )
        }),
    decreases results.len(),
{
    if results.len() == 0 {
        let tasks = Seq::<Stored>::empty();
        assert(names_of(tasks) =~= Seq::empty());
        tasks
    } else {
        let n = results.len() - 1;
        let before = lemma_all_stored(v, results.drop_last(), ids);
        let s = swarm_start(v).all_stored(v.here().name, results.drop_last(), ids);
        assert forall|j: int| 0 <= j < before.len() implies ids.take(n + 1).contains(
            (#[trigger] before[j]).id,
        ) by {
            let q = ids.take(n).index_of(before[j].id);
            assert(ids.take(n + 1)[q] == before[j].id);
        }
        match results.last() {
            TaskView::Finished { agent_name, outcome, messages } => {
                let hint = name_hint(agent_name, n as nat);
                let name = free_name(taken_names(s.context, s.names), hint);
                let id = ids[n];
                lemma_free_name_exists(s.context, s.names, hint);
                assert(!is_stored(before, id)) by {
                    if is_stored(before, id) {
                        let j = choose|j: int|
                            0 <= j < before.len() && (#[trigger] before[j]).id == id;
                        let q = ids.take(n).index_of(before[j].id);
                        assert(ids[q] == ids[n]);
                    }
                }
                lemma_store(v, s.context, before, id, name, messages);
                let t = Stored { id, name, messages };
                let tasks = before.push(t);
                assert(tasks.drop_last() =~= before);
                assert(names_of(tasks) =~= names_of(before).push(name));
                assert(ids.take(n + 1)[n] == id);
                assert forall|j: int| 0 <= j < tasks.len() implies ids.take(n + 1).contains(
                    (#[trigger] tasks[j]).id,
                ) by {
                    if j < before.len() {
                        assert(tasks[j] == before[j]);
                    }
                }
                tasks
            },
            TaskView::Panicked(e) => before,
        }
    }
}

/// A swarm leaves nothing behind but its messages: with ids that are new, all
/// branches are as before, the same one is current, and its conversation is
/// brought together with that of every finished task, in order.
pub proof fn law_swarm(v: ContextView, results: Seq<TaskView>, ids: Seq<Seq<char>>)
    requires
        v.branches.contains_key(v.current),
        v.branches.dom().finite(),
        v.name_unique(v.here().name),
        results.len() == ids.len(),
        fresh_ids(v, ids),
    ensures
        gathered(v, results, ids).0 == v.with_messages(union_all(v.messages(), results)),
{
    let after = gathered(v, results, ids).0;
    let want = v.with_messages(union_all(v.messages(), results));
    if results.len() == 0 {
        assert(want.branches =~= v.branches);
    } else {
        let tasks = lemma_all_stored(v, results, ids);
        let s = swarm_start(v).all_stored(v.here().name, results, ids);
        lemma_bring_all_back(v, s.context, tasks, tasks.len() as int);
        assert(tasks.take(tasks.len() as int) =~= tasks);
        assert(names_of(tasks).take(tasks.len() as int) =~= names_of(tasks));
        assert(tasks.skip(tasks.len() as int) =~= Seq::empty());
        assert forall|k: Seq<char>| #[trigger] after.branches.contains_key(k)
            == want.branches.contains_key(k) by {
            if after.branches.contains_key(k) {
                assert(want.branches.contains_key(k) || is_stored(
                    tasks.skip(tasks.len() as int),
                    k,
                ));
            }
        }
        assert(after.branches =~= want.branches);
    }
}

/// No message is lost in a swarm, and none is made up: the conversation then
/// holds what it held before and what the finished tasks have said.
pub proof fn law_swarm_keeps_messages(
    target: Seq<MessageView>,
    results: Seq<TaskView>,
    m: MessageView,
)
    ensures
        union_all(target, results).contains(m) <==> target.contains(m) || (exists|i: int|
            0 <= i < results.len() && said(#[trigger] results[i], m)),
    decreases results.len(),
{
    if results.len() > 0 {
        let init = results.drop_last();
        law_swarm_keeps_messages(target, init, m);
        let before = union_all(target, init);
        match results.last() {
            TaskView::Finished { agent_name, outcome, messages } => {
                let b = BranchView::fresh(Seq::empty(), Seq::empty()).with_messages(messages);
                law_union(before, b);
            },
            TaskView::Panicked(e) => {},
        }
        if exists|i: int| 0 <= i < init.len() && said(#[trigger] init[i], m) {
            let i = choose|i: int| 0 <= i < init.len() && said(#[trigger] init[i], m);
            assert(said(results[i], m));
        }
        if exists|i: int| 0 <= i < results.len() && said(#[trigger] results[i], m) {
            let i = choose|i: int| 0 <= i < results.len() && said(#[trigger] results[i], m);
            if i < init.len() {
                assert(said(init[i], m));
            }
        }
        assert(results[results.len() - 1] == results.last());
        if said(results.last(), m) {
            assert(said(results[results.len() - 1], m));
        }
    }
}

/// The message is part of a finished task's conversation.
pub open spec fn said(result: TaskView, m: MessageView) -> bool {
    result matches TaskView::Finished { agent_name, outcome, messages } && messages.contains(m)
}

/// The name of a branch: the one that was asked for if it is free, otherwise
/// with the first number behind it that makes it free.
pub proof fn law_free_name(taken: Set<Seq<char>>, hint: Seq<char>, n: nat)
    requires
        n == 0 ==> !taken.contains(hint),
        n > 0 ==> taken.contains(hint) && !taken.contains(hint + "_"@ + decimal(n)),
        forall|k: nat| 0 < k < n ==> taken.contains(hint + "_"@ + #[trigger] decimal(k)),
    ensures
        n == 0 ==> free_name(taken, hint) == hint,
        n > 0 ==> free_name(taken, hint) == hint + "_"@ + decimal(n),
        !taken.contains(free_name(taken, hint)),
{
    assert forall|k: nat| k < n implies taken.contains(#[trigger] numbered(hint, k)) by {
        if k > 0 {
            assert(taken.contains(hint + "_"@ + decimal(k)));
        }
    }
    assert(is_first_free(taken, hint, n));
    let m = choose|m: nat| is_first_free(taken, hint, m);
    if m < n {
        assert(taken.contains(numbered(hint, m)));
    } else if n < m {
        assert(taken.contains(numbered(hint, n)));
    }
}

/// What is stored of a task: a finished one gets a branch of its own under a
/// free name, which is that of its agent or its number, and a line in the
/// report with its answer or its error; one that broke down gets a line alone.
pub proof fn law_stored_task(
    s: SwarmView,
    main: Seq<char>,
    i: nat,
    id: Seq<char>,
    agent_name: Seq<char>,
    messages: Seq<MessageView>,
    text: Seq<char>,
)
    ensures
        s.stored(main, i, TaskView::Panicked(text), id).context == s.context,
        s.stored(main, i, TaskView::Panicked(text), id).names == s.names,
        s.stored(main, i, TaskView::Panicked(text), id).outputs == s.outputs.push(
            "[PANIC]: "@ + text,
        ),
        ({
            let hint = if agent_name.len() == 0 {
                "task-"@ + decimal(i)
            } else {
                agent_name
            };
            let name = free_name(taken_names(s.context, s.names), hint);
            let good = s.stored(
                main,
                i,
                TaskView::Finished { agent_name, outcome: Ok(text), messages },
                id,
            );
            let bad = s.stored(
                main,
                i,
                TaskView::Finished { agent_name, outcome: Err(text), messages },
                id,
            );
            &&& good.names == s.names.push(name)
            &&& bad.names == s.names.push(name)
            &&& good.outputs == s.outputs.push("["@ + name + "]: "@ + text)
            &&& bad.outputs == s.outputs.push("["@ + name + "] ERROR: "@ + text)
            &&& good.context == bad.context
            &&& good.context == switched(s.context.forked(id, name).with_messages(messages), main)
        }),
        taken_names(s.context, s.names).contains(main) <==> s.context.has_name(main)
            || s.names.contains(main),
{
}

/// The manager goes to the branch of a name where there is one, and no branch
/// changes.
pub proof fn law_switched(v: ContextView, name: Seq<char>)
    ensures
        switched(v, name).branches == v.branches,
        v.has_name(name) ==> v.named(switched(v, name).current, name),
        !v.has_name(name) ==> switched(v, name) == v,
{
}

/// The results are stored one after the other, and without tasks nothing is
/// done. The report counts the tasks that have finished among all tasks and
/// tells what became of each one.
pub proof fn law_report(
    v: ContextView,
    s: SwarmView,
    main: Seq<char>,
    results: Seq<TaskView>,
    result: TaskView,
    ids: Seq<Seq<char>>,
)
    ensures
        s.all_stored(main, Seq::empty(), ids) == s,
        s.all_stored(main, results.push(result), ids) == s.all_stored(main, results, ids).stored(
            main,
            results.len(),
            result,
            ids[results.len() as int],
        ),
        gathered(v, Seq::empty(), ids) == (v, "No tasks to execute."@),
        results.len() > 0 ==> {
            let all = swarm_start(v).all_stored(v.branches[v.current].name, results, ids);
            gathered(v, results, ids).1 == "Parallel execution completed. "@ + decimal(
                all.names.len(),
            ) + "/"@ + decimal(results.len())
                + " branches merged.\n───────────────────────────────────────────\n"@ + joined(
                all.outputs,
                "\n---\n"@,
            )
        },
        swarm_start(v).context == v,
        swarm_start(v).names.len() == 0,
        swarm_start(v).outputs.len() == 0,
{
    assert(results.push(result).drop_last() =~= results);
}

/// Every finished task adds the union with its conversation, and one that
/// broke down adds nothing.
pub proof fn law_union_of_tasks(
    target: Seq<MessageView>,
    results: Seq<TaskView>,
    agent_name: Seq<char>,
    outcome: Result<Seq<char>, Seq<char>>,
    messages: Seq<MessageView>,
    e: Seq<char>,
    branch: BranchView,
)
    requires
        branch.messages == messages,
    ensures
        union_all(target, Seq::empty()) == target,
        union_all(target, results.push(TaskView::Panicked(e))) == union_all(target, results),
        union_all(
            target,
            results.push(TaskView::Finished { agent_name, outcome, messages }),
        ) == merged(union_all(target, results), branch, MergeStrategy::Union),
{
    let bad = results.push(TaskView::Panicked(e));
    let good = results.push(TaskView::Finished { agent_name, outcome, messages });
    assert(bad.drop_last() =~= results);
    assert(good.drop_last() =~= results);
}

/// A task is seen with all its parts.
pub proof fn law_task_view(
    agent_name: String,
    text: String,
    messages: Vec<Message>,
    list: Seq<TaskResult>,
    i: int,
)
    ensures
        TaskResult::Panicked(text)@ == TaskView::Panicked(text@),
        (TaskResult::Finished { agent_name, outcome: Ok(text), messages })@ == (
        TaskView::Finished {
            agent_name: agent_name@,
            outcome: Ok(text@),
            messages: message_views(messages@),
        }),
        (TaskResult::Finished { agent_name, outcome: Err(text), messages })@ == (
        TaskView::Finished {
            agent_name: agent_name@,
            outcome: Err(text@),
            messages: message_views(messages@),
        }),
        task_views(list).len() == list.len(),
        0 <= i < list.len() ==> task_views(list)[i] == list[i]@,
{
}

/// A branch that is brought back is gone, and its messages are in the current
/// one; the other branches stay as they are. A name that no branch has changes
/// nothing. Several names are brought back one after the other.
pub proof fn law_brought_back(v: ContextView, id: Seq<char>, name: Seq<char>, names: Seq<Seq<char>>, k: Seq<char>)
    requires
        v.branches.dom().finite(),
        v.branches.contains_key(v.current),
        v.named(id, name),
        v.name_unique(name),
        v.branches[id].id == id,
        id != v.current,
        k != id,
        k != v.current,
    ensures
        ({
            let after = brought_back(v, name);
            &&& after.current == v.current
            &&& after.messages() == merged(v.messages(), v.branches[id], MergeStrategy::Union)
            &&& !after.branches.contains_key(id)
            &&& after.branches.contains_key(k) == v.branches.contains_key(k)
            &&& v.branches.contains_key(k) ==> after.branches[k] == v.branches[k]
            &&& after.branches[v.current].name == v.branches[v.current].name
        }),
        !v.has_name(k) ==> brought_back(v, k) == v,
        all_brought_back(v, Seq::empty()) == v,
        all_brought_back(v, names.push(name)) == brought_back(all_brought_back(v, names), name),
{
    assert(names.push(name).drop_last() =~= names);
    let key = choose|id: Seq<char>| v.named(id, name);
    assert(v.named(key, name));
    assert(key == id);
    let after = v.with_messages(merged(v.messages(), v.branches[id], MergeStrategy::Union));
    let dom = after.branches.dom();
    assert(dom =~= v.branches.dom());
    assert(dom.contains(id) && dom.contains(v.current));
    assert(dom.remove(id).contains(v.current));
    if dom.len() < 2 {
        assert(dom.remove(id).len() == 0);
        assert(dom.remove(id) =~= Set::empty());
    }
}

} // verus!
