//! Branches of a conversation and the manager that keeps them.

use vstd::prelude::*;
use crate::text::{
    byte_len, chars_of, copy_opt, lemma_text_le_total, lemma_text_le_transitive, opt_text, ordered,
    same, text_le, width_of,
};
use crate::types::{
    call_views, copy_messages, copy_range, message_views, plain_message, Message, MessageView, Role,
    ToolCall, ToolCallView,
};

verus! {

// ---------------------------------------------------------------------------
// Branch
// ---------------------------------------------------------------------------

/// A single named branch holding an ordered list of messages.
#[derive(Debug)]
pub struct Branch {
    /// Unique identifier (UUID v4).
    pub id: String,
    /// Human-readable name (like a Git branch name).
    pub name: String,
    /// Conversation history.
    pub messages: Vec<Message>,
    /// The branch this one was forked from.
    pub parent_branch_id: Option<String>,
    /// How many messages the parent had at the fork.
    pub fork_point: Option<usize>,
}

#[verifier::ext_equal]
pub struct BranchView {
    pub id: Seq<char>,
    pub name: Seq<char>,
    pub messages: Seq<MessageView>,
    pub parent_branch_id: Option<Seq<char>>,
    pub fork_point: Option<usize>,
}

impl View for Branch {
    type V = BranchView;

    open spec fn view(&self) -> BranchView {
        BranchView {
            id: self.id@,
            name: self.name@,
            messages: message_views(self.messages@),
            parent_branch_id: opt_text(self.parent_branch_id),
            fork_point: self.fork_point,
        }
    }
}

impl BranchView {
    /// A branch without history and without parent.
    pub open spec fn fresh(id: Seq<char>, name: Seq<char>) -> BranchView {
        BranchView {
            id,
            name,
            messages: Seq::empty(),
            parent_branch_id: None,
            fork_point: None,
        }
    }

    /// The branch `id` forked from this one at its tip.
    pub open spec fn forked(self, parent: Seq<char>, id: Seq<char>, name: Seq<char>) -> BranchView {
        BranchView {
            id,
            name,
            messages: self.messages,
            parent_branch_id: Some(parent),
            fork_point: Some(self.messages.len() as usize),
        }
    }

    pub open spec fn with_messages(self, messages: Seq<MessageView>) -> BranchView {
        BranchView { messages, ..self }
    }
}

impl Clone for Branch {
    fn clone(&self) -> (r: Self)
        ensures
            r@ == self@,
    {
        Branch {
            id: self.id.clone(),
            name: self.name.clone(),
            messages: copy_messages(self.messages.as_slice()),
            parent_branch_id: copy_opt(&self.parent_branch_id),
            fork_point: self.fork_point,
        }
    }
}

impl Branch {
    /// A branch without history and without parent.
    pub fn new(id: String, name: String) -> (r: Self)
        ensures
            r@ == BranchView::fresh(id@, name@),
    {
        let r = Branch { id, name, messages: Vec::new(), parent_branch_id: None, fork_point: None };
        assert(r@.messages =~= Seq::empty());
        r
    }
}

// ---------------------------------------------------------------------------
// Merge strategies
// ---------------------------------------------------------------------------

/// How to merge one branch into another.
#[derive(Debug, Clone, Copy, PartialEq, Eq, Structural)]
pub enum MergeStrategy {
    /// Replace the target branch's messages entirely with the source branch.
    Overwrite,
    /// Append only messages that are new in the source (those after the fork
    /// point) to the target branch.
    FastForward,
    /// Keep the longest common prefix of both branches, then the divergent
    /// tail of the target, then that of the source, without repeating a
    /// message.
    Union,
}

/// `target` with those messages of `more` appended, in order, that it does not
/// hold yet.
pub open spec fn absorbed(target: Seq<MessageView>, more: Seq<MessageView>) -> Seq<MessageView>
    decreases more.len(),
{
    if more.len() == 0 {
        target
    } else {
        let before = absorbed(target, more.drop_last());
        if before.contains(more.last()) {
            before
        } else {
            before.push(more.last())
        }
    }
}

/// The first position from `i` on where the two sequences differ or one ends.
pub open spec fn common_from(a: Seq<MessageView>, b: Seq<MessageView>, i: nat) -> nat
    decreases a.len() - i,
{
    if i < a.len() && i < b.len() && a[i as int] == b[i as int] {
        common_from(a, b, i + 1)
    } else {
        i
    }
}

/// The length of the longest common prefix.
pub open spec fn common_len(a: Seq<MessageView>, b: Seq<MessageView>) -> nat {
    common_from(a, b, 0)
}

/// The messages of a branch behind its fork point; all of them if it has none.
pub open spec fn beyond_fork(source: BranchView) -> Seq<MessageView> {
    match source.fork_point {
        Some(n) => if n <= source.messages.len() {
            source.messages.skip(n as int)
        } else {
            Seq::empty()
        },
        None => source.messages,
    }
}

/// What the target branch holds after a merge.
pub open spec fn merged(
    target: Seq<MessageView>,
    source: BranchView,
    strategy: MergeStrategy,
) -> Seq<MessageView> {
    match strategy {
        MergeStrategy::Overwrite => source.messages,
        MergeStrategy::FastForward => absorbed(target, beyond_fork(source)),
        MergeStrategy::Union => {
            let n = common_len(target, source.messages) as int;
            absorbed(absorbed(target.take(n), target.skip(n)), source.messages.skip(n))
        },
    }
}

/// The common prefix is common, and no longer prefix is.
pub proof fn lemma_common_from(a: Seq<MessageView>, b: Seq<MessageView>, i: nat)
    requires
        i <= a.len(),
        i <= b.len(),
    ensures
        i <= common_from(a, b, i) <= a.len(),
        common_from(a, b, i) <= b.len(),
        forall|j: int| i <= j < common_from(a, b, i) ==> #[trigger] a[j] == b[j],
        common_from(a, b, i) < a.len() && common_from(a, b, i) < b.len()
            ==> a[common_from(a, b, i) as int] != b[common_from(a, b, i) as int],
    decreases a.len() - i,
{
    if i < a.len() && i < b.len() && a[i as int] == b[i as int] {
        lemma_common_from(a, b, i + 1);
    }
}

/// What absorbing keeps: the target stands first, everything asked for is
/// there, and nothing else came in.
pub proof fn lemma_absorbed(target: Seq<MessageView>, more: Seq<MessageView>)
    ensures
        target.len() <= absorbed(target, more).len() <= target.len() + more.len(),
        absorbed(target, more).take(target.len() as int) == target,
        forall|m: MessageView| #[trigger]
            absorbed(target, more).contains(m) <==> target.contains(m) || more.contains(m),
    decreases more.len(),
{
    let all = absorbed(target, more);
    if more.len() == 0 {
        assert(all.take(target.len() as int) =~= target);
        assert(!(exists|m: MessageView| more.contains(m)));
    } else {
        let before = absorbed(target, more.drop_last());
        let last = more.last();
        lemma_absorbed(target, more.drop_last());
        assert(all.take(target.len() as int) =~= before.take(target.len() as int));
        assert forall|m: MessageView| #[trigger] all.contains(m) <==> target.contains(m)
            || more.contains(m) by {
            if more.contains(m) {
                let k = more.index_of(m);
                if k < more.len() - 1 {
                    assert(more.drop_last()[k] == m);
                }
            }
            if more.drop_last().contains(m) {
                let k = more.drop_last().index_of(m);
                assert(more[k] == m);
            }
            assert(more[more.len() - 1] == last);
            if !before.contains(last) {
                assert(all[before.len() as int] == last);
                if before.contains(m) {
                    let k = before.index_of(m);
                    assert(all[k] == m);
                }
                if all.contains(m) {
                    let k = all.index_of(m);
                    if k < before.len() {
                        assert(before[k] == m);
                    }
                }
            }
        }
    }
}

/// Messages that are all there already add nothing.
pub proof fn lemma_absorbed_known(target: Seq<MessageView>, more: Seq<MessageView>)
    requires
        forall|i: int| 0 <= i < more.len() ==> target.contains(#[trigger] more[i]),
    ensures
        absorbed(target, more) == target,
    decreases more.len(),
{
    if more.len() > 0 {
        assert forall|i: int| 0 <= i < more.drop_last().len() implies target.contains(
            #[trigger] more.drop_last()[i],
        ) by {
            assert(more.drop_last()[i] == more[i]);
        }
        lemma_absorbed_known(target, more.drop_last());
        assert(more.last() == more[more.len() - 1]);
    }
}

/// No message from `from` on has stood before.
pub open spec fn new_from(all: Seq<MessageView>, from: int) -> bool {
    forall|i: int, j: int| 0 <= i < j < all.len() && from <= j ==> all[i] != all[j]
}

/// What absorbing appends has not stood before.
pub proof fn lemma_absorbed_new(target: Seq<MessageView>, more: Seq<MessageView>, from: int)
    requires
        0 <= from <= target.len(),
        new_from(target, from),
    ensures
        new_from(absorbed(target, more), from),
    decreases more.len(),
{
    if more.len() > 0 {
        lemma_absorbed_new(target, more.drop_last(), from);
        let before = absorbed(target, more.drop_last());
        lemma_absorbed(target, more.drop_last());
        if !before.contains(more.last()) {
            let all = before.push(more.last());
            assert forall|i: int, j: int| 0 <= i < j < all.len() && from <= j implies all[i]
                != all[j] by {
                if j == before.len() {
                    assert(before[i] == all[i]);
                }
            }
        }
    }
}

/// A tail whose messages are all new is appended as it is.
pub proof fn lemma_absorbed_tail(all: Seq<MessageView>, from: int, to: int)
    requires
        0 <= from <= to <= all.len(),
        new_from(all, from),
    ensures
        absorbed(all.take(from), all.subrange(from, to)) == all.take(to),
    decreases to - from,
{
    let tail = all.subrange(from, to);
    if from == to {
        assert(all.take(from) =~= all.take(to));
    } else {
        lemma_absorbed_tail(all, from, to - 1);
        assert(tail.drop_last() =~= all.subrange(from, to - 1));
        assert(tail.last() == all[to - 1]);
        let before = all.take(to - 1);
        assert(!before.contains(all[to - 1])) by {
            if before.contains(all[to - 1]) {
                let k = before.index_of(all[to - 1]);
                assert(all[k] == before[k]);
            }
        }
        assert(before.push(all[to - 1]) =~= all.take(to));
    }
}

/// The messages of a union: the common prefix stands first, what follows it
/// does not repeat anything, and the union holds exactly what one of the two
/// branches holds.
pub proof fn law_union(target: Seq<MessageView>, source: BranchView)
    ensures
        ({
            let n = common_len(target, source.messages) as int;
            let all = merged(target, source, MergeStrategy::Union);
            &&& 0 <= n <= all.len()
            &&& n <= target.len()
            &&& n <= source.messages.len()
            &&& all.take(n) == target.take(n)
            &&& all.take(n) == source.messages.take(n)
            &&& new_from(all, n)
            &&& forall|m: MessageView| #[trigger]
                all.contains(m) <==> target.contains(m) || source.messages.contains(m)
        }),
{
    let n = common_len(target, source.messages) as int;
    lemma_common_from(target, source.messages, 0);
    let own = absorbed(target.take(n), target.skip(n));
    let all = absorbed(own, source.messages.skip(n));
    lemma_absorbed(target.take(n), target.skip(n));
    lemma_absorbed(own, source.messages.skip(n));
    assert(new_from(target.take(n), n));
    lemma_absorbed_new(target.take(n), target.skip(n), n);
    lemma_absorbed_new(own, source.messages.skip(n), n);
    assert(all.take(n) =~= all.take(own.len() as int).take(n));
    assert(own.take(n) =~= target.take(n));
    assert(all.take(n) =~= source.messages.take(n));
    lemma_contains_parts(target, n);
    lemma_contains_parts(source.messages, n);
    assert forall|m: MessageView| #[trigger] all.contains(m) <==> target.contains(m)
        || source.messages.contains(m) by {
        assert(target.take(n) == source.messages.take(n));
    }
}

proof fn lemma_contains_parts(s: Seq<MessageView>, n: int)
    requires
        0 <= n <= s.len(),
    ensures
        forall|m: MessageView| #[trigger]
            s.contains(m) <==> s.take(n).contains(m) || s.skip(n).contains(m),
{
    assert forall|m: MessageView| #[trigger] s.contains(m) <==> s.take(n).contains(m) || s.skip(
        n,
    ).contains(m) by {
        if s.contains(m) {
            let k = s.index_of(m);
            if k < n {
                assert(s.take(n)[k] == m);
            } else {
                assert(s.skip(n)[k - n] == m);
            }
        }
        if s.take(n).contains(m) {
            let k = s.take(n).index_of(m);
            assert(s[k] == m);
        }
        if s.skip(n).contains(m) {
            let k = s.skip(n).index_of(m);
            assert(s[k + n] == m);
        }
    }
}

/// Merging the same branch a second time with the same strategy changes
/// nothing.
pub proof fn law_merge_twice(
    target: Seq<MessageView>,
    source: BranchView,
    strategy: MergeStrategy,
)
    ensures
        merged(merged(target, source, strategy), source, strategy) == merged(
            target,
            source,
            strategy,
        ),
{
    let once = merged(target, source, strategy);
    match strategy {
        MergeStrategy::Overwrite => {},
        MergeStrategy::FastForward => {
            let more = beyond_fork(source);
            lemma_absorbed(target, more);
            assert forall|i: int| 0 <= i < more.len() implies once.contains(#[trigger] more[i]) by {
                assert(more.contains(more[i]));
            }
            lemma_absorbed_known(once, more);
        },
        MergeStrategy::Union => {
            law_union(target, source);
            let n = common_len(target, source.messages) as int;
            let k = common_len(once, source.messages) as int;
            lemma_common_from(once, source.messages, 0);
            if k < n {
                assert(once.take(n)[k] == source.messages.take(n)[k]);
            }
            lemma_absorbed_tail(once, k, once.len() as int);
            assert(once.take(once.len() as int) =~= once);
            assert(once.skip(k) =~= once.subrange(k, once.len() as int));
            let more = source.messages.skip(k);
            assert forall|i: int| 0 <= i < more.len() implies once.contains(#[trigger] more[i]) by {
                assert(source.messages[i + k] == more[i]);
                assert(source.messages.contains(source.messages[i + k]));
            }
            lemma_absorbed_known(once, more);
        },
    }
}

/// A fast-forward keeps everything the target had, in front, and brings in the
/// source's messages behind the fork point and no others.
pub proof fn law_fast_forward(target: Seq<MessageView>, source: BranchView)
    ensures
        ({
            let all = merged(target, source, MergeStrategy::FastForward);
            &&& target.len() <= all.len()
            &&& all.take(target.len() as int) == target
            &&& forall|m: MessageView| #[trigger]
                all.contains(m) <==> target.contains(m) || beyond_fork(source).contains(m)
        }),
{
    lemma_absorbed(target, beyond_fork(source));
}

// ---------------------------------------------------------------------------
// Messages in lists
// ---------------------------------------------------------------------------

/// Whether a list of messages holds a message.
fn holds(list: &Vec<Message>, msg: &Message) -> (r: bool)
    ensures
        r == message_views(list@).contains(msg@),
{
    let mut i: usize = 0;
    while i < list.len()
        invariant
            i <= list@.len(),
            forall|j: int| 0 <= j < i ==> (#[trigger] list@[j])@ != msg@,
        decreases list@.len() - i,
    {
        if list[i].same(msg) {
            assert(message_views(list@)[i as int] == msg@);
            return true;
        }
        i += 1;
    }
    proof {
        if message_views(list@).contains(msg@) {
            let k = message_views(list@).index_of(msg@);
            assert(list@[k]@ == msg@);
        }
    }
    false
}

/// Append those messages of `more`, from `from` on, that are not there yet.
fn absorb(target: &mut Vec<Message>, more: &[Message], from: usize)
    requires
        from <= more@.len(),
    ensures
        message_views(final(target)@) == absorbed(
            message_views(old(target)@),
            message_views(more@).skip(from as int),
        ),
{
    let ghost all = message_views(more@).skip(from as int);
    let ghost start = message_views(target@);
    let mut i: usize = from;
    assert(all.take(0) =~= Seq::empty());
    while i < more.len()
        invariant
            from <= i <= more@.len(),
            all == message_views(more@).skip(from as int),
            message_views(target@) == absorbed(start, all.take(i - from)),
        decreases more@.len() - i,
    {
        let ghost before = target@;
        proof {
            let next = all.take(i - from + 1);
            assert(next.drop_last() =~= all.take(i - from));
            assert(next.last() == more@[i as int]@);
        }
        if !holds(target, &more[i]) {
            target.push(more[i].clone());
            assert(message_views(target@) =~= message_views(before).push(more@[i as int]@));
        }
        i += 1;
    }
    assert(all.take(i - from) =~= all);
}

/// The length of the longest common prefix of two lists.
fn shared_prefix(a: &[Message], b: &[Message]) -> (r: usize)
    ensures
        r == common_len(message_views(a@), message_views(b@)),
        r <= a@.len(),
        r <= b@.len(),
{
    let ghost x = message_views(a@);
    let ghost y = message_views(b@);
    let mut i: usize = 0;
    while i < a.len() && i < b.len()
        invariant
            i <= a@.len(),
            i <= b@.len(),
            x == message_views(a@),
            y == message_views(b@),
            common_len(x, y) == common_from(x, y, i as nat),
        decreases a@.len() - i,
    {
        assert(x[i as int] == a@[i as int]@);
        assert(y[i as int] == b@[i as int]@);
        if !a[i].same(&b[i]) {
            return i;
        }
        i += 1;
    }
    i
}

// ---------------------------------------------------------------------------
// Identifiers
// ---------------------------------------------------------------------------

/// A lower-case hexadecimal digit.
pub open spec fn is_hex(c: char) -> bool {
    ('0' <= c && c <= '9') || ('a' <= c && c <= 'f')
}

/// The text of a random UUID: 36 characters in five groups, version 4.
pub open spec fn is_uuid(s: Seq<char>) -> bool {
    &&& s.len() == 36
    &&& forall|i: int|
        0 <= i < 36 ==> if i == 8 || i == 13 || i == 18 || i == 23 {
            #[trigger] s[i] == '-'
        } else {
            is_hex(s[i])
        }
    &&& s[14] == '4'
    &&& s[19] == '8' || s[19] == '9' || s[19] == 'a' || s[19] == 'b'
}

/// `uuid::Uuid::new_v4` and its `to_string`: some version 4 UUID in the
/// hyphenated lower-case form. Which one is left open: it is random.
#[verifier::external_body]
pub(crate) fn fresh_id() -> (r: String)
    ensures
        is_uuid(r@),
{
    uuid::Uuid::new_v4().to_string()
}

// ---------------------------------------------------------------------------
// The manager
// ---------------------------------------------------------------------------

/// A branch under the key it was filed with.
struct Entry {
    key: String,
    branch: Branch,
}

/// Git-like branching context manager for isolating sub-task conversations.
///
/// - There is always a current branch whose messages are fed to the model.
/// - `create_branch` forks a new branch from the tip of the current one,
///   copying the history up to that point.
/// - `switch` changes the current branch.
/// - `merge` absorbs messages from a source branch according to the chosen
///   `MergeStrategy`.
/// - Branches can be deleted, except for the current branch and the last
///   remaining one.
pub struct ContextManager {
    entries: Vec<Entry>,
    current_id: String,
}

/// The branches by their ids, and the id of the current one.
#[verifier::ext_equal]
pub struct ContextView {
    pub branches: Map<Seq<char>, BranchView>,
    pub current: Seq<char>,
}

spec fn filed(e: Seq<Entry>, key: Seq<char>, i: int) -> bool {
    0 <= i < e.len() && e[i].key@ == key
}

spec fn is_filed(e: Seq<Entry>, key: Seq<char>) -> bool {
    exists|i: int| filed(e, key, i)
}

spec fn distinct(e: Seq<Entry>) -> bool {
    forall|i: int, j: int| 0 <= i < j < e.len() ==> (#[trigger] e[i]).key@ != (#[trigger] e[j]).key@
}

spec fn branch_map(e: Seq<Entry>) -> Map<Seq<char>, BranchView> {
    Map::new(|k: Seq<char>| is_filed(e, k), |k: Seq<char>| e[choose|i: int| filed(e, k, i)].branch@)
}

proof fn lemma_filed(e: Seq<Entry>, i: int)
    requires
        distinct(e),
        0 <= i < e.len(),
    ensures
        branch_map(e).contains_key(e[i].key@),
        branch_map(e)[e[i].key@] == e[i].branch@,
{
    let k = e[i].key@;
    assert(filed(e, k, i));
    let j = choose|j: int| filed(e, k, j);
    assert(filed(e, k, j));
    assert(i == j);
}

proof fn lemma_refiled(e: Seq<Entry>, i: int, x: Entry)
    requires
        distinct(e),
        0 <= i < e.len(),
        x.key@ == e[i].key@,
    ensures
        distinct(e.update(i, x)),
        branch_map(e.update(i, x)) == branch_map(e).insert(x.key@, x.branch@),
{
    let n = e.update(i, x);
    assert forall|a: int, b: int| 0 <= a < b < n.len() implies (#[trigger] n[a]).key@ != (
    #[trigger] n[b]).key@ by {
        assert(n[a].key@ == e[a].key@);
        assert(n[b].key@ == e[b].key@);
    }
    assert forall|k: Seq<char>| #[trigger] is_filed(n, k) == (is_filed(e, k) || k == x.key@) by {
        if is_filed(n, k) {
            let a = choose|a: int| filed(n, k, a);
            assert(filed(e, k, a));
        }
        if is_filed(e, k) {
            let a = choose|a: int| filed(e, k, a);
            assert(filed(n, k, a));
        }
        assert(filed(n, x.key@, i));
    }
    assert forall|k: Seq<char>| #[trigger] is_filed(n, k) implies branch_map(n)[k] == branch_map(
        e,
    ).insert(x.key@, x.branch@)[k] by {
        let a = choose|a: int| filed(n, k, a);
        lemma_filed(n, a);
        lemma_filed(e, a);
        if a != i {
            assert(n[a] == e[a]);
        }
    }
    assert(branch_map(n) =~= branch_map(e).insert(x.key@, x.branch@));
}

proof fn lemma_pushed(e: Seq<Entry>, x: Entry)
    requires
        distinct(e),
        !is_filed(e, x.key@),
    ensures
        distinct(e.push(x)),
        branch_map(e.push(x)) == branch_map(e).insert(x.key@, x.branch@),
{
    let n = e.push(x);
    assert forall|a: int, b: int| 0 <= a < b < n.len() implies (#[trigger] n[a]).key@ != (
    #[trigger] n[b]).key@ by {
        assert(n[a] == e[a]);
        if b == e.len() {
            assert(!filed(e, x.key@, a));
        } else {
            assert(n[b] == e[b]);
        }
    }
    assert forall|k: Seq<char>| #[trigger] is_filed(n, k) == (is_filed(e, k) || k == x.key@) by {
        if is_filed(n, k) {
            let a = choose|a: int| filed(n, k, a);
            if a < e.len() {
                assert(filed(e, k, a));
            }
        }
        if is_filed(e, k) {
            let a = choose|a: int| filed(e, k, a);
            assert(filed(n, k, a));
        }
        assert(filed(n, x.key@, e.len() as int));
    }
    assert forall|k: Seq<char>| #[trigger] is_filed(n, k) implies branch_map(n)[k] == branch_map(
        e,
    ).insert(x.key@, x.branch@)[k] by {
        let a = choose|a: int| filed(n, k, a);
        lemma_filed(n, a);
        if a < e.len() {
            assert(n[a] == e[a]);
            lemma_filed(e, a);
            assert(!filed(e, x.key@, a));
        }
    }
    assert(branch_map(n) =~= branch_map(e).insert(x.key@, x.branch@));
}

proof fn lemma_unfiled(e: Seq<Entry>, i: int)
    requires
        distinct(e),
        0 <= i < e.len(),
    ensures
        distinct(e.remove(i)),
        branch_map(e.remove(i)) == branch_map(e).remove(e[i].key@),
{
    let n = e.remove(i);
    let gone = e[i].key@;
    assert forall|a: int, b: int| 0 <= a < b < n.len() implies (#[trigger] n[a]).key@ != (
    #[trigger] n[b]).key@ by {
        assert(n[a] == e[if a < i { a } else { a + 1 }]);
        assert(n[b] == e[if b < i { b } else { b + 1 }]);
    }
    assert forall|k: Seq<char>| #[trigger] is_filed(n, k) == (is_filed(e, k) && k != gone) by {
        if is_filed(n, k) {
            let a = choose|a: int| filed(n, k, a);
            let b = if a < i { a } else { a + 1 };
            assert(n[a] == e[b]);
            assert(filed(e, k, b));
            assert(e[i].key@ == gone);
        }
        if is_filed(e, k) && k != gone {
            let a = choose|a: int| filed(e, k, a);
            let b = if a < i { a } else { a - 1 };
            assert(n[b] == e[a]);
            assert(filed(n, k, b));
        }
    }
    assert forall|k: Seq<char>| #[trigger] is_filed(n, k) implies branch_map(n)[k] == branch_map(
        e,
    )[k] by {
        let a = choose|a: int| filed(n, k, a);
        let b = if a < i { a } else { a + 1 };
        assert(n[a] == e[b]);
        lemma_filed(n, a);
        lemma_filed(e, b);
    }
    assert(branch_map(n) =~= branch_map(e).remove(gone));
}

spec fn keys(e: Seq<Entry>) -> Seq<Seq<char>> {
    e.map_values(|x: Entry| x.key@)
}

proof fn lemma_keys(e: Seq<Entry>)
    requires
        distinct(e),
    ensures
        keys(e).no_duplicates(),
        keys(e).to_set() == branch_map(e).dom(),
        branch_map(e).dom().finite(),
        branch_map(e).dom().len() == e.len(),
{
    let ks = keys(e);
    assert forall|k: Seq<char>| #[trigger] ks.to_set().contains(k) == branch_map(
        e,
    ).dom().contains(k) by {
        if ks.contains(k) {
            let i = ks.index_of(k);
            assert(filed(e, k, i));
        }
        if is_filed(e, k) {
            let i = choose|i: int| filed(e, k, i);
            assert(ks[i] == k);
        }
    }
    assert(ks.to_set() =~= branch_map(e).dom());
    ks.unique_seq_to_set();
    vstd::seq_lib::seq_to_set_is_finite(ks);
}

impl View for ContextManager {
    type V = ContextView;

    closed spec fn view(&self) -> ContextView {
        ContextView { branches: branch_map(self.entries@), current: self.current_id@ }
    }
}

impl ContextView {
    /// The current branch.
    pub open spec fn here(self) -> BranchView {
        self.branches[self.current]
    }

    /// The messages of the current branch.
    pub open spec fn messages(self) -> Seq<MessageView> {
        self.here().messages
    }

    /// The same manager with another current branch in the place of this one.
    pub open spec fn with_here(self, b: BranchView) -> ContextView {
        ContextView { branches: self.branches.insert(self.current, b), current: self.current }
    }

    /// The same manager with other messages on the current branch.
    pub open spec fn with_messages(self, messages: Seq<MessageView>) -> ContextView {
        self.with_here(self.here().with_messages(messages))
    }

    /// A new branch `id`, forked from the current one, which becomes current.
    pub open spec fn forked(self, id: Seq<char>, name: Seq<char>) -> ContextView {
        ContextView {
            branches: self.branches.insert(id, self.here().forked(self.current, id, name)),
            current: id,
        }
    }

    /// Some branch has this name.
    pub open spec fn has_name(self, name: Seq<char>) -> bool {
        exists|id: Seq<char>| self.named(id, name)
    }

    /// The branch `id` exists and has this name.
    pub open spec fn named(self, id: Seq<char>, name: Seq<char>) -> bool {
        self.branches.contains_key(id) && self.branches[id].name == name
    }

    /// At most one branch has this name.
    pub open spec fn name_unique(self, name: Seq<char>) -> bool {
        forall|a: Seq<char>, b: Seq<char>| #[trigger]
            self.named(a, name) && #[trigger] self.named(b, name) ==> a == b
    }
}

/// A listing holds each branch once, in some order of the ids.
pub open spec fn lists_branches(list: Seq<BranchView>, branches: Map<Seq<char>, BranchView>) -> bool {
    exists|ids: Seq<Seq<char>>| #[trigger] lists_by(list, ids, branches)
}

pub open spec fn lists_by(
    list: Seq<BranchView>,
    ids: Seq<Seq<char>>,
    branches: Map<Seq<char>, BranchView>,
) -> bool {
    &&& ids.no_duplicates()
    &&& ids.to_set() == branches.dom()
    &&& list.len() == ids.len()
    &&& forall|i: int| 0 <= i < list.len() ==> #[trigger] list[i] == branches[ids[i]]
}

pub open spec fn sorted_by_name(list: Seq<BranchView>) -> bool {
    forall|i: int, j: int|
        0 <= i <= j < list.len() ==> text_le((#[trigger] list[i]).name, (#[trigger] list[j]).name)
}

pub open spec fn branch_views(v: Seq<&Branch>) -> Seq<BranchView> {
    v.map_values(|b: &Branch| b@)
}

impl ContextManager {
    /// No id is filed twice.
    pub closed spec fn distinct_ids(&self) -> bool {
        distinct(self.entries@)
    }

    /// The current branch exists, and no id is filed twice.
    pub open spec fn wf(&self) -> bool {
        self.distinct_ids() && self@.branches.contains_key(self@.current)
    }

    /// The manager with the single branch `"main"` under a given id.
    pub fn with_main(id: String) -> (r: Self)
        ensures
            r.wf(),
            r@ == (ContextView {
                branches: Map::empty().insert(id@, BranchView::fresh(id@, "main"@)),
                current: id@,
            }),
    {
        let branch = Branch::new(id.clone(), "main".to_string());
        let mut entries: Vec<Entry> = Vec::new();
        let entry = Entry { key: id.clone(), branch };
        proof {
            assert(branch_map(entries@) =~= Map::empty());
            lemma_pushed(entries@, entry);
        }
        entries.push(entry);
        ContextManager { entries, current_id: id }
    }

    /// Create a new manager with a single root branch named `"main"`.
    pub fn new() -> (r: Self)
        ensures
            r.wf(),
            is_uuid(r@.current),
            r@.branches == Map::empty().insert(
                r@.current,
                BranchView::fresh(r@.current, "main"@),
            ),
    {
        ContextManager::with_main(fresh_id())
    }

    // ---- Branch queries ----------------------------------------------------

    fn index_of(&self, id: &str) -> (r: Option<usize>)
        requires
            self.distinct_ids(),
        ensures
            match r {
                Some(i) => i < self.entries@.len() && self.entries@[i as int].key@ == id@
                    && self@.branches.contains_key(id@) && self@.branches[id@]
                    == self.entries@[i as int].branch@,
                None => !self@.branches.contains_key(id@) && !is_filed(self.entries@, id@),
            },
    {
        let mut i: usize = 0;
        while i < self.entries.len()
            invariant
                i <= self.entries@.len(),
                self.distinct_ids(),
                forall|j: int| 0 <= j < i ==> (#[trigger] self.entries@[j]).key@ != id@,
            decreases self.entries@.len() - i,
        {
            if same(self.entries[i].key.as_str(), id) {
                proof {
                    lemma_filed(self.entries@, i as int);
                }
                return Some(i);
            }
            i += 1;
        }
        None
    }

    fn current_index(&self) -> (r: usize)
        requires
            self.wf(),
        ensures
            r < self.entries@.len(),
            self.entries@[r as int].key@ == self@.current,
            self.entries@[r as int].branch@ == self@.here(),
    {
        match self.index_of(self.current_id.as_str()) {
            Some(i) => i,
            None => 0,
        }
    }

    /// The current branch.
    pub fn current_branch(&self) -> (r: &Branch)
        requires
            self.wf(),
        ensures
            r@ == self@.here(),
    {
        let i: usize = self.current_index();
        &self.entries[i].branch
    }

    /// The current branch, to be changed in place.
    pub fn current_branch_mut(&mut self) -> (r: &mut Branch)
        requires
            old(self).wf(),
        ensures
            r@ == old(self)@.here(),
            final(self)@ == old(self)@.with_here(final(r)@),
            final(self).wf(),
    {
        let i: usize = self.current_index();
        let ghost e = self.entries@;
        let r = &mut self.entries[i].branch;
        proof {
            lemma_refiled(e, i as int, Entry { key: e[i as int].key, branch: *final(r) });
        }
        r
    }

    /// The branch with the given id.
    pub fn get(&self, id: &str) -> (r: Option<&Branch>)
        requires
            self.wf(),
        ensures
            match r {
                Some(b) => self@.branches.contains_key(id@) && b@ == self@.branches[id@],
                None => !self@.branches.contains_key(id@),
            },
    {
        match self.index_of(id) {
            Some(i) => Some(&self.entries[i].branch),
            None => None,
        }
    }

    /// All branches, ordered by name. Branches of the same name come in no
    /// particular order.
    pub fn list(&self) -> (r: Vec<&Branch>)
        requires
            self.wf(),
        ensures
            lists_branches(branch_views(r@), self@.branches),
            sorted_by_name(branch_views(r@)),
    {
        let mut out: Vec<&Branch> = Vec::new();
        let ghost mut ids: Seq<Seq<char>> = Seq::empty();
        let ghost e = self.entries@;
        let mut i: usize = 0;
        while i < self.entries.len()
            invariant
                i <= self.entries@.len(),
                e == self.entries@,
                distinct(e),
                out@.len() == i,
                ids.len() == i,
                ids.no_duplicates(),
                forall|k: int|
                    0 <= k < i ==> (#[trigger] out@[k])@ == branch_map(e)[ids[k]],
                forall|j: int| 0 <= j < i ==> ids.contains((#[trigger] e[j]).key@),
                forall|k: int| 0 <= k < i ==> keys(e).take(i as int).contains(#[trigger] ids[k]),
                sorted_by_name(branch_views(out@)),
            decreases self.entries@.len() - i,
        {
            let branch = &self.entries[i].branch;
            let mut p: usize = 0;
            while p < out.len() && ordered(out[p].name.as_str(), branch.name.as_str())
                invariant
                    p <= out@.len(),
                    forall|k: int|
                        0 <= k < p ==> text_le((#[trigger] out@[k]).name@, branch.name@),
                decreases out@.len() - p,
            {
                p += 1;
            }
            let ghost before = out@;
            let ghost known = ids;
            let ghost key = e[i as int].key@;
            proof {
                assert(!known.contains(key)) by {
                    if known.contains(key) {
                        let k = known.index_of(key);
                        assert(keys(e).take(i as int).contains(known[k]));
                        let j = keys(e).take(i as int).index_of(known[k]);
                        assert(keys(e).take(i as int)[j] == e[j].key@);
                        assert(e[j].key@ == e[i as int].key@);
                    }
                }
                lemma_filed(e, i as int);
                ids = ids.insert(p as int, key);
            }
            out.insert(p, branch);
            proof {
                lemma_inserted(branch_views(before), p as int, branch@);
                assert(branch_views(out@) =~= branch_views(before).insert(p as int, branch@));
                assert forall|a: int, b: int|
                    0 <= a < ids.len() && 0 <= b < ids.len() && a != b implies ids[a] != ids[b] by {
                    let x = if a < p { a } else { a - 1 };
                    let y = if b < p { b } else { b - 1 };
                    if a == p {
                        assert(known[y] == ids[b]);
                        assert(known.contains(known[y]));
                    } else if b == p {
                        assert(known[x] == ids[a]);
                        assert(known.contains(known[x]));
                    } else {
                        assert(known[x] == ids[a] && known[y] == ids[b]);
                    }
                }
                assert forall|k: int| 0 <= k < i + 1 implies (#[trigger] out@[k])@ == branch_map(
                    e,
                )[ids[k]] by {
                    if k < p {
                        assert(out@[k] == before[k]);
                        assert(ids[k] == known[k]);
                    } else if k > p {
                        assert(out@[k] == before[k - 1]);
                        assert(ids[k] == known[k - 1]);
                    }
                }
                assert forall|j: int| 0 <= j < i + 1 implies ids.contains((#[trigger] e[j]).key@) by {
                    if j < i {
                        let k = known.index_of(e[j].key@);
                        assert(ids[if k < p { k } else { k + 1 }] == e[j].key@);
                    } else {
                        assert(ids[p as int] == key);
                    }
                }
                assert forall|k: int| 0 <= k < i + 1 implies keys(e).take(i + 1).contains(
                    #[trigger] ids[k],
                ) by {
                    if k == p {
                        assert(keys(e).take(i + 1)[i as int] == key);
                    } else {
                        let x = if k < p { k } else { k - 1 };
                        assert(ids[k] == known[x]);
                        let j = keys(e).take(i as int).index_of(known[x]);
                        assert(keys(e).take(i + 1)[j] == keys(e).take(i as int)[j]);
                    }
                }
            }
            i += 1;
        }
        proof {
            lemma_keys(e);
            assert(keys(e).take(i as int) =~= keys(e));
            assert forall|k: Seq<char>| #[trigger] ids.to_set().contains(k) == keys(
                e,
            ).to_set().contains(k) by {
                if ids.contains(k) {
                    let a = ids.index_of(k);
                    assert(keys(e).contains(ids[a]));
                }
                if keys(e).contains(k) {
                    let j = keys(e).index_of(k);
                    assert(ids.contains(e[j].key@));
                }
            }
            assert(ids.to_set() =~= branch_map(e).dom());
            assert(lists_by(branch_views(out@), ids, self@.branches));
        }
        out
    }

    /// Number of active branches.
    pub fn len(&self) -> (r: usize)
        requires
            self.wf(),
        ensures
            r == self@.branches.dom().len(),
            self@.branches.dom().finite(),
    {
        proof {
            lemma_keys(self.entries@);
        }
        self.entries.len()
    }

    /// Whether there is no branch; the current branch always exists.
    pub fn is_empty(&self) -> (r: bool)
        requires
            self.wf(),
        ensures
            r == (self@.branches.dom() == Set::<Seq<char>>::empty()),
            !r,
    {
        proof {
            lemma_keys(self.entries@);
            assert(self@.branches.dom().contains(self@.current));
            let _ = choose|i: int| filed(self.entries@, self@.current, i);
        }
        self.entries.len() == 0
    }

    // ---- Current messages --------------------------------------------------

    /// The messages on the current branch.
    pub fn current_messages(&self) -> (r: &[Message])
        requires
            self.wf(),
        ensures
            message_views(r@) == self@.messages(),
    {
        self.current_branch().messages.as_slice()
    }

    /// Append a single message to the current branch.
    pub fn push(&mut self, msg: Message)
        requires
            old(self).wf(),
        ensures
            final(self).wf(),
            final(self)@ == old(self)@.with_messages(old(self)@.messages().push(msg@)),
    {
        let ghost before = self@.messages();
        let branch = self.current_branch_mut();
        branch.messages.push(msg);
        assert(message_views(branch.messages@) =~= before.push(msg@));
    }

    /// Extend the current branch with several messages.
    pub fn extend(&mut self, msgs: Vec<Message>)
        requires
            old(self).wf(),
        ensures
            final(self).wf(),
            final(self)@ == old(self)@.with_messages(
                old(self)@.messages() + message_views(msgs@),
            ),
    {
        let ghost before = self@.messages();
        let ghost added = message_views(msgs@);
        let mut more = msgs;
        let branch = self.current_branch_mut();
        branch.messages.append(&mut more);
        assert(message_views(branch.messages@) =~= before + added);
    }

    /// Put other messages in the place of those of the current branch.
    fn set_messages(&mut self, msgs: Vec<Message>)
        requires
            old(self).wf(),
        ensures
            final(self).wf(),
            final(self)@ == old(self)@.with_messages(message_views(msgs@)),
    {
        let branch = self.current_branch_mut();
        branch.messages = msgs;
    }

    // ---- Branches ----------------------------------------------------------

    /// File a branch under an id, in the place of the one that was there.
    fn file(&mut self, id: String, branch: Branch)
        requires
            old(self).wf(),
        ensures
            final(self).wf(),
            final(self)@ == (ContextView {
                branches: old(self)@.branches.insert(id@, branch@),
                current: old(self)@.current,
            }),
    {
        let found: Option<usize> = self.index_of(id.as_str());
        let entry = Entry { key: id, branch };
        let ghost e = self.entries@;
        match found {
            Some(i) => {
                proof {
                    lemma_refiled(e, i as int, entry);
                }
                self.entries.set(i, entry);
            },
            None => {
                proof {
                    lemma_pushed(e, entry);
                }
                self.entries.push(entry);
            },
        }
    }

    /// Fork the current branch at its tip under the given id and switch to
    /// the new branch.
    pub fn fork_as(&mut self, id: String, name: &str)
        requires
            old(self).wf(),
        ensures
            final(self).wf(),
            final(self)@ == old(self)@.forked(id@, name@),
    {
        let mut branch = Branch::new(id.clone(), name.to_string());
        branch.parent_branch_id = Some(self.current_id.clone());
        branch.fork_point = Some(self.current_messages().len());
        branch.messages = copy_messages(self.current_messages());
        self.file(id.clone(), branch);
        self.current_id = id;
    }

    /// Create a new branch forked from the current branch's tip, then switch
    /// to it (analogous to `git checkout -b`).
    ///
    /// The new branch inherits a copy of every message on the current branch.
    /// Its id is a fresh UUID.
    pub fn create_branch(&mut self, name: &str) -> (r: &Branch)
        requires
            old(self).wf(),
        ensures
            final(self).wf(),
            is_uuid(final(self)@.current),
            final(self)@ == old(self)@.forked(final(self)@.current, name@),
            r@ == final(self)@.here(),
    {
        self.fork_as(fresh_id(), name);
        self.current_branch()
    }

    /// Switch to a different branch by id.
    ///
    /// An id that does not exist comes back as the error.
    pub fn switch(&mut self, id: String) -> (r: Result<(), String>)
        requires
            old(self).wf(),
        ensures
            final(self).wf(),
            match r {
                Ok(()) => old(self)@.branches.contains_key(id@) && final(self)@ == (ContextView {
                    branches: old(self)@.branches,
                    current: id@,
                }),
                Err(e) => !old(self)@.branches.contains_key(id@) && e@ == id@ && final(self)@
                    == old(self)@,
            },
    {
        if self.index_of(id.as_str()).is_some() {
            self.current_id = id;
            Ok(())
        } else {
            Err(id)
        }
    }

    /// The id of a branch with the given name, if there is one.
    pub fn find_id_by_name(&self, name: &str) -> (r: Option<String>)
        requires
            self.wf(),
        ensures
            match r {
                Some(id) => self@.named(id@, name@),
                None => !self@.has_name(name@),
            },
    {
        let mut i: usize = 0;
        while i < self.entries.len()
            invariant
                i <= self.entries@.len(),
                self.wf(),
                forall|j: int| 0 <= j < i ==> (#[trigger] self.entries@[j]).branch@.name != name@,
            decreases self.entries@.len() - i,
        {
            if same(self.entries[i].branch.name.as_str(), name) {
                proof {
                    lemma_filed(self.entries@, i as int);
                }
                return Some(self.entries[i].key.clone());
            }
            i += 1;
        }
        proof {
            assert forall|id: Seq<char>| !self@.named(id, name@) by {
                if self@.named(id, name@) {
                    let j = choose|j: int| filed(self.entries@, id, j);
                    lemma_filed(self.entries@, j);
                }
            }
        }
        None
    }

    /// Switch to a branch by name. More than one branch of that name counts as
    /// a bug of the caller.
    pub fn switch_by_name(&mut self, name: &str) -> (r: Result<(), String>)
        requires
            old(self).wf(),
            old(self)@.name_unique(name@),
        ensures
            final(self).wf(),
            match r {
                Ok(()) => old(self)@.named(final(self)@.current, name@) && final(self)@.branches
                    == old(self)@.branches,
                Err(e) => !old(self)@.has_name(name@) && e@ == "branch '"@ + name@
                    + "' not found"@ && final(self)@ == old(self)@,
            },
    {
        match self.find_id_by_name(name) {
            Some(id) => self.switch(id),
            None => {
                let mut e = "branch '".to_string();
                e.append(name);
                e.append("' not found");
                Err(e)
            },
        }
    }

    /// Rename the current branch.
    pub fn rename(&mut self, new_name: &str)
        requires
            old(self).wf(),
        ensures
            final(self).wf(),
            final(self)@ == old(self)@.with_here(
                (BranchView { name: new_name@, ..old(self)@.here() }),
            ),
    {
        let branch = self.current_branch_mut();
        branch.name = new_name.to_string();
    }

    /// Delete a branch by id.
    ///
    /// - `"last branch"`: the sole remaining branch is not deleted.
    /// - `"current branch"`: switch away first.
    pub fn delete(&mut self, id: &str) -> (r: Result<(), &'static str>)
        requires
            old(self).wf(),
        ensures
            final(self).wf(),
            match r {
                Ok(()) => old(self)@.branches.dom().len() >= 2 && id@ != old(self)@.current
                    && final(self)@ == (ContextView {
                    branches: old(self)@.branches.remove(id@),
                    current: old(self)@.current,
                }),
                Err(e) => final(self)@ == old(self)@ && if old(self)@.branches.dom().len() < 2 {
                    e@ == "last branch"@
                } else {
                    id@ == old(self)@.current && e@ == "current branch"@
                },
            },
    {
        if self.len() < 2 {
            return Err("last branch");
        }
        if same(id, self.current_id.as_str()) {
            return Err("current branch");
        }
        let ghost e = self.entries@;
        match self.index_of(id) {
            Some(i) => {
                proof {
                    lemma_unfiled(e, i as int);
                }
                self.entries.remove(i);
            },
            None => {
                assert(self@.branches.remove(id@) =~= self@.branches);
            },
        }
        Ok(())
    }

    // ---- Merge -------------------------------------------------------------

    /// Merge messages from `source_id` into the current branch.
    pub fn merge(&mut self, source_id: &str, strategy: MergeStrategy) -> (r: Result<(), String>)
        requires
            old(self).wf(),
        ensures
            final(self).wf(),
            match r {
                Ok(()) => old(self)@.branches.contains_key(source_id@) && final(self)@ == old(
                    self,
                )@.with_messages(
                    merged(
                        old(self)@.messages(),
                        old(self)@.branches[source_id@],
                        strategy,
                    ),
                ),
                Err(e) => !old(self)@.branches.contains_key(source_id@) && final(self)@ == old(
                    self,
                )@ && e@ == "source branch '"@ + source_id@ + "' not found"@,
            },
            r is Ok && strategy == MergeStrategy::Overwrite ==> final(self)@.messages() == old(
                self,
            )@.branches[source_id@].messages,
    {
        let source = match self.get(source_id) {
            Some(b) => b.clone(),
            None => {
                let mut e = "source branch '".to_string();
                e.append(source_id);
                e.append("' not found");
                return Err(e);
            },
        };
        let msgs: Vec<Message> = match strategy {
            MergeStrategy::Overwrite => source.messages,
            MergeStrategy::FastForward => {
                let fork: usize = match source.fork_point {
                    Some(n) => n,
                    None => 0,
                };
                let mut all = copy_messages(self.current_messages());
                if fork <= source.messages.len() {
                    proof {
                        if source@.fork_point is None {
                            assert(source@.messages.skip(0) =~= source@.messages);
                        }
                    }
                    absorb(&mut all, source.messages.as_slice(), fork);
                }
                all
            },
            MergeStrategy::Union => {
                let own = self.current_messages();
                let n: usize = shared_prefix(own, source.messages.as_slice());
                let mut all = copy_range(own, 0, n);
                absorb(&mut all, own, n);
                absorb(&mut all, source.messages.as_slice(), n);
                all
            },
        };
        self.set_messages(msgs);
        Ok(())
    }

    // ---- Snapshot ----------------------------------------------------------

    /// Every branch as its id, its name and its messages.
    pub fn snapshot(&self) -> (r: Vec<(String, (String, Vec<Message>))>)
        requires
            self.wf(),
        ensures
            snapshot_ids(r@).no_duplicates(),
            snapshot_ids(r@).to_set() == self@.branches.dom(),
            forall|i: int|
                0 <= i < r@.len() ==> {
                    let b = self@.branches[(#[trigger] r@[i]).0@];
                    r@[i].1.0@ == b.name && message_views(r@[i].1.1@) == b.messages
                },
    {
        let mut out: Vec<(String, (String, Vec<Message>))> = Vec::new();
        let mut i: usize = 0;
        while i < self.entries.len()
            invariant
                i <= self.entries@.len(),
                out@.len() == i,
                self.wf(),
                forall|j: int|
                    0 <= j < i ==> {
                        let b = self@.branches[(#[trigger] out@[j]).0@];
                        &&& out@[j].0@ == self.entries@[j].key@
                        &&& out@[j].1.0@ == b.name
                        &&& message_views(out@[j].1.1@) == b.messages
                    },
            decreases self.entries@.len() - i,
        {
            let entry = &self.entries[i];
            proof {
                lemma_filed(self.entries@, i as int);
            }
            let messages = copy_messages(entry.branch.messages.as_slice());
            out.push((entry.key.clone(), (entry.branch.name.clone(), messages)));
            i += 1;
        }
        proof {
            lemma_keys(self.entries@);
            assert(snapshot_ids(out@) =~= keys(self.entries@));
        }
        out
    }
}

pub open spec fn snapshot_ids(v: Seq<(String, (String, Vec<Message>))>) -> Seq<Seq<char>> {
    v.map_values(|x: (String, (String, Vec<Message>))| x.0@)
}

proof fn lemma_inserted(list: Seq<BranchView>, p: int, b: BranchView)
    requires
        sorted_by_name(list),
        0 <= p <= list.len(),
        forall|k: int| 0 <= k < p ==> text_le((#[trigger] list[k]).name, b.name),
        p < list.len() ==> !text_le(list[p].name, b.name),
    ensures
        sorted_by_name(list.insert(p, b)),
{
    let all = list.insert(p, b);
    assert forall|i: int, j: int| 0 <= i <= j < all.len() implies text_le(
        (#[trigger] all[i]).name,
        (#[trigger] all[j]).name,
    ) by {
        lemma_text_le_total(b.name, b.name);
        let x = if i < p { i } else { i - 1 };
        let y = if j < p { j } else { j - 1 };
        if i == p && j > p {
            assert(all[j] == list[y]);
            lemma_text_le_total(list[p].name, b.name);
            lemma_text_le_transitive(b.name, list[p].name, list[y].name);
        } else if i != p && j != p {
            assert(all[i] == list[x] && all[j] == list[y]);
        }
    }
}

/// Work on a fork stays on the fork: the branch it was forked from keeps its
/// messages, and once the fork is deleted everything is as before.
pub proof fn law_fork_isolates(
    v: ContextView,
    id: Seq<char>,
    name: Seq<char>,
    messages: Seq<MessageView>,
)
    requires
        v.branches.contains_key(v.current),
        !v.branches.contains_key(id),
    ensures
        v.forked(id, name).messages() == v.messages(),
        v.forked(id, name).with_messages(messages).branches[v.current] == v.here(),
        v.forked(id, name).with_messages(messages).branches.remove(id) == v.branches,
{
    assert(v.forked(id, name).with_messages(messages).branches.remove(id) =~= v.branches);
}

// ---------------------------------------------------------------------------
// Compaction
// ---------------------------------------------------------------------------

/// When to compact a branch and what to leave alone.
#[derive(Debug, Clone, Copy)]
pub struct CompactionConfig {
    /// The most messages a branch may hold without compaction.
    pub max_messages: usize,
    /// How many of the last messages stay untouched.
    pub reserve_recent: usize,
}

impl Default for CompactionConfig {
    fn default() -> (r: Self)
        ensures
            r.max_messages == 15,
            r.reserve_recent == 4,
    {
        CompactionConfig { max_messages: 15, reserve_recent: 4 }
    }
}

/// The bytes of a text; none where there is no text.
pub open spec fn opt_bytes(o: Option<Seq<char>>) -> nat {
    match o {
        Some(s) => byte_len(s),
        None => 0,
    }
}

/// The bytes of the names and arguments of calls.
pub open spec fn call_bytes(calls: Seq<ToolCallView>) -> nat
    decreases calls.len(),
{
    if calls.len() == 0 {
        0
    } else {
        call_bytes(calls.drop_last()) + byte_len(calls.last().function.name) + byte_len(
            calls.last().function.arguments,
        )
    }
}

/// The bytes of the text and the calls of a message.
pub open spec fn message_bytes(msg: MessageView) -> nat {
    opt_bytes(msg.content) + match msg.tool_calls {
        Some(calls) => call_bytes(calls),
        None => 0,
    }
}

/// The bytes of several messages.
pub open spec fn total_bytes(msgs: Seq<MessageView>) -> nat
    decreases msgs.len(),
{
    if msgs.len() == 0 {
        0
    } else {
        total_bytes(msgs.drop_last()) + message_bytes(msgs.last())
    }
}

/// A rough estimate of the tokens of a conversation: four bytes to a token. It
/// stops at the largest number of bytes that can be counted.
pub open spec fn token_estimate(msgs: Seq<MessageView>) -> int {
    capped(total_bytes(msgs)) as int / 4
}

/// The number, or the largest that can be counted.
pub open spec fn capped(n: nat) -> nat {
    if n > usize::MAX {
        usize::MAX as nat
    } else {
        n
    }
}

fn add_text(sum: usize, s: &str) -> (r: usize)
    ensures
        r == capped(sum as nat + byte_len(s@)),
{
    let v = chars_of(s);
    let mut total: usize = sum;
    let mut i: usize = 0;
    assert(v@.take(0) =~= Seq::<char>::empty());
    while i < v.len()
        invariant
            i <= v@.len(),
            total == capped(sum as nat + byte_len(v@.take(i as int))),
        decreases v@.len() - i,
    {
        assert(v@.take(i + 1).drop_last() =~= v@.take(i as int));
        total = total.saturating_add(width_of(v[i]));
        i += 1;
    }
    assert(v@.take(i as int) =~= v@);
    total
}

fn add_calls(sum: usize, calls: &Vec<ToolCall>) -> (r: usize)
    ensures
        r == capped(sum as nat + call_bytes(call_views(calls@))),
{
    let ghost all = call_views(calls@);
    let mut total: usize = sum;
    let mut i: usize = 0;
    assert(all.take(0) =~= Seq::empty());
    while i < calls.len()
        invariant
            i <= calls@.len(),
            all == call_views(calls@),
            total == capped(sum as nat + call_bytes(all.take(i as int))),
        decreases calls@.len() - i,
    {
        proof {
            let next = all.take(i + 1);
            assert(next.drop_last() =~= all.take(i as int));
            assert(next.last() == calls@[i as int]@);
        }
        total = add_text(total, calls[i].function.name.as_str());
        total = add_text(total, calls[i].function.arguments.as_str());
        i += 1;
    }
    assert(all.take(i as int) =~= all);
    total
}

fn add_message(sum: usize, msg: &Message) -> (r: usize)
    ensures
        r == capped(sum as nat + message_bytes(msg@)),
{
    let total: usize = match &msg.content {
        Some(s) => add_text(sum, s.as_str()),
        None => sum,
    };
    match &msg.tool_calls {
        Some(calls) => add_calls(total, calls),
        None => total,
    }
}

/// The position of the first system message from `i` on; the length if there
/// is none.
pub open spec fn system_from(msgs: Seq<MessageView>, i: nat) -> nat
    decreases msgs.len() - i,
{
    if i < msgs.len() && msgs[i as int].role != Role::System {
        system_from(msgs, i + 1)
    } else {
        i
    }
}

/// Where the compactable messages begin: behind the first system message, or
/// at the front if there is none.
pub open spec fn prompt_end(msgs: Seq<MessageView>) -> nat {
    if system_from(msgs, 0) < msgs.len() {
        system_from(msgs, 0) + 1
    } else {
        0
    }
}

/// The messages to be summarised, as start and end; `None` if the limit is not
/// exceeded or nothing is left between the prompt and the recent messages.
pub open spec fn range_to_compact(msgs: Seq<MessageView>, config: CompactionConfig) -> Option<
    (nat, nat),
> {
    let start = prompt_end(msgs);
    if msgs.len() > config.max_messages && start + config.reserve_recent < msgs.len() {
        Some((start, (msgs.len() - config.reserve_recent) as nat))
    } else {
        None
    }
}

/// The messages with `start..end` replaced by one system message.
pub open spec fn compacted(
    msgs: Seq<MessageView>,
    summary: Seq<char>,
    start: int,
    end: int,
) -> Seq<MessageView> {
    msgs.take(start).push(plain_message(Role::System, summary)) + msgs.skip(end)
}

/// The messages without `start..end`.
pub open spec fn without_range(msgs: Seq<MessageView>, start: int, end: int) -> Seq<MessageView> {
    msgs.take(start) + msgs.skip(end)
}

/// What the range of a compaction leaves alone.
pub proof fn lemma_system_from(msgs: Seq<MessageView>, i: nat)
    requires
        i <= msgs.len(),
    ensures
        i <= system_from(msgs, i) <= msgs.len(),
        forall|j: int| i <= j < system_from(msgs, i) ==> (#[trigger] msgs[j]).role != Role::System,
        system_from(msgs, i) < msgs.len() ==> msgs[system_from(msgs, i) as int].role
            == Role::System,
    decreases msgs.len() - i,
{
    if i < msgs.len() && msgs[i as int].role != Role::System {
        lemma_system_from(msgs, i + 1);
    }
}

/// A compaction never touches the first system message nor the last
/// `reserve_recent` messages, and it takes out at least one message for the
/// summary that it puts in.
pub proof fn law_compaction(
    msgs: Seq<MessageView>,
    config: CompactionConfig,
    summary: Seq<char>,
    start: nat,
    end: nat,
)
    requires
        range_to_compact(msgs, config) == Some((start, end)),
    ensures
        start < end <= msgs.len(),
        ({
            let after = compacted(msgs, summary, start as int, end as int);
            let kept = config.reserve_recent as int;
            &&& after.len() == msgs.len() - (end - start) + 1
            &&& after.len() <= msgs.len()
            &&& after.take(start as int) == msgs.take(start as int)
            &&& after[start as int] == plain_message(Role::System, summary)
            &&& after.skip(after.len() - kept) == msgs.skip(msgs.len() - kept)
            &&& forall|i: int|
                0 <= i < msgs.len() && (#[trigger] msgs[i]).role == Role::System && (forall|j: int|
                    0 <= j < i ==> (#[trigger] msgs[j]).role != Role::System) ==> after[i] == msgs[i]
        }),
{
    lemma_system_from(msgs, 0);
    let after = compacted(msgs, summary, start as int, end as int);
    let kept = config.reserve_recent as int;
    assert(after.take(start as int) =~= msgs.take(start as int));
    assert(after.skip(after.len() - kept) =~= msgs.skip(msgs.len() - kept));
    assert forall|i: int|
        0 <= i < msgs.len() && (#[trigger] msgs[i]).role == Role::System && (forall|j: int|
            0 <= j < i ==> (#[trigger] msgs[j]).role != Role::System) implies after[i]
        == msgs[i] by {
        let s = system_from(msgs, 0) as int;
        assert(s == i) by {
            if s < i {
                assert(msgs[s].role != Role::System);
            }
        }
    }
}

impl ContextManager {
    /// A rough estimate of the tokens of the current branch.
    pub fn estimate_tokens(&self) -> (r: usize)
        requires
            self.wf(),
        ensures
            r == token_estimate(self@.messages()),
    {
        let msgs = self.current_messages();
        let ghost all = self@.messages();
        let mut total: usize = 0;
        let mut i: usize = 0;
        assert(all.take(0) =~= Seq::empty());
        while i < msgs.len()
            invariant
                i <= msgs@.len(),
                all == message_views(msgs@),
                total == capped(total_bytes(all.take(i as int))),
            decreases msgs@.len() - i,
        {
            proof {
                let next = all.take(i + 1);
                assert(next.drop_last() =~= all.take(i as int));
                assert(next.last() == msgs@[i as int]@);
            }
            total = add_message(total, &msgs[i]);
            i += 1;
        }
        assert(all.take(i as int) =~= all);
        total / 4
    }

    /// Whether the current branch holds more messages than allowed.
    pub fn needs_compaction(&self, config: &CompactionConfig) -> (r: bool)
        requires
            self.wf(),
        ensures
            r == (self@.messages().len() > config.max_messages),
    {
        self.current_messages().len() > config.max_messages
    }

    /// The range of messages to be summarised.
    ///
    /// - It lies behind the first system message, if there is one.
    /// - It leaves the last `reserve_recent` messages alone.
    /// - It is `None` if there is nothing to compact or the limit is kept.
    pub fn compaction_range(&self, config: &CompactionConfig) -> (r: Option<(usize, usize)>)
        requires
            self.wf(),
        ensures
            match r {
                Some((start, end)) => range_to_compact(self@.messages(), *config) == Some(
                    (start as nat, end as nat),
                ) && start < end <= self@.messages().len(),
                None => range_to_compact(self@.messages(), *config) is None,
            },
    {
        if !self.needs_compaction(config) {
            return None;
        }
        let msgs = self.current_messages();
        let ghost all = self@.messages();
        let total: usize = msgs.len();
        let mut i: usize = 0;
        while i < total && msgs[i].role != Role::System
            invariant
                i <= total,
                total == msgs@.len(),
                all == message_views(msgs@),
                system_from(all, 0) == system_from(all, i as nat),
            decreases total - i,
        {
            assert(all[i as int] == msgs@[i as int]@);
            i += 1;
        }
        proof {
            if i < total {
                assert(all[i as int] == msgs@[i as int]@);
            }
        }
        let start: usize = if i < total {
            i + 1
        } else {
            0
        };
        let end: usize = total.saturating_sub(config.reserve_recent);
        if start >= end {
            return None;
        }
        Some((start, end))
    }

    /// Replace the messages `start..end` by one system message with the
    /// summary.
    pub fn compact(&mut self, summary: String, start: usize, end: usize)
        requires
            old(self).wf(),
            start <= end <= old(self)@.messages().len(),
        ensures
            final(self).wf(),
            final(self)@ == old(self)@.with_messages(
                compacted(old(self)@.messages(), summary@, start as int, end as int),
            ),
    {
        let ghost all = self@.messages();
        let msgs = self.current_messages();
        let mut out = copy_range(msgs, 0, start);
        let note = Message::new(Role::System, summary);
        let ghost head = out@;
        out.push(note);
        assert(message_views(out@) =~= message_views(head).push(note@));
        let ghost front = out@;
        let mut tail = copy_range(msgs, end, msgs.len());
        let ghost back = tail@;
        out.append(&mut tail);
        assert(message_views(out@) =~= message_views(front) + message_views(back));
        assert(message_views(out@) =~= compacted(all, summary@, start as int, end as int));
        self.set_messages(out);
    }

    /// Take the messages `start..end` out of the current branch.
    pub fn remove_range(&mut self, start: usize, end: usize)
        requires
            old(self).wf(),
            start <= end <= old(self)@.messages().len(),
        ensures
            final(self).wf(),
            final(self)@ == old(self)@.with_messages(
                without_range(old(self)@.messages(), start as int, end as int),
            ),
    {
        let ghost all = self@.messages();
        let msgs = self.current_messages();
        let mut out = copy_range(msgs, 0, start);
        let ghost front = out@;
        let mut tail = copy_range(msgs, end, msgs.len());
        let ghost back = tail@;
        out.append(&mut tail);
        assert(message_views(out@) =~= message_views(front) + message_views(back));
        assert(message_views(out@) =~= without_range(all, start as int, end as int));
        self.set_messages(out);
    }
}

impl Default for ContextManager {
    fn default() -> (r: Self)
        ensures
            r.wf(),
            is_uuid(r@.current),
            r@.branches == Map::empty().insert(
                r@.current,
                BranchView::fresh(r@.current, "main"@),
            ),
    {
        ContextManager::new()
    }
}

// ---------------------------------------------------------------------------
// What merging and compacting are for
// ---------------------------------------------------------------------------

/// Overwriting leaves nothing of the target: it holds the messages of the
/// source, one by one, whatever it held before.
pub proof fn law_overwrite(target: Seq<MessageView>, source: BranchView)
    ensures
        ({
            let all = merged(target, source, MergeStrategy::Overwrite);
            &&& all.len() == source.messages.len()
            &&& forall|i: int|
                0 <= i < source.messages.len() ==> #[trigger] all[i] == source.messages[i]
            &&& all == source.messages
        }),
{
}

/// In a list, `a` comes up before `b` does.
pub open spec fn comes_first(list: Seq<MessageView>, a: MessageView, b: MessageView) -> bool {
    exists|p: int|
        0 <= p < list.len() && #[trigger] list[p] == a && forall|q: int|
            0 <= q <= p ==> #[trigger] list[q] != b
}

/// Absorbing messages appends those that are new, each once, in the order in
/// which they come up first; what was there stays in front.
pub proof fn law_absorb(target: Seq<MessageView>, more: Seq<MessageView>)
    ensures
        ({
            let all = absorbed(target, more);
            let n = target.len() as int;
            &&& n <= all.len()
            &&& all.take(n) == target
            &&& forall|m: MessageView| #[trigger]
                all.contains(m) <==> target.contains(m) || more.contains(m)
            &&& forall|i: int, j: int|
                n <= j < all.len() && 0 <= i < j ==> #[trigger] all[i] != #[trigger] all[j]
            &&& forall|i: int, j: int|
                n <= i < j < all.len() ==> comes_first(more, #[trigger] all[i], #[trigger] all[j])
        }),
    decreases more.len(),
{
    lemma_absorbed(target, more);
    let all = absorbed(target, more);
    let n = target.len() as int;
    assert(new_from(target, n));
    lemma_absorbed_new(target, more, n);
    if more.len() > 0 {
        let rest = more.drop_last();
        let before = absorbed(target, rest);
        let last = more.last();
        law_absorb(target, rest);
        lemma_absorbed(target, rest);
        assert forall|i: int, j: int| n <= i < j < all.len() implies comes_first(
            more,
            #[trigger] all[i],
            #[trigger] all[j],
        ) by {
            if j < before.len() {
                assert(all[i] == before[i] && all[j] == before[j]);
                assert(comes_first(rest, before[i], before[j]));
                let p = choose|p: int|
                    0 <= p < rest.len() && #[trigger] rest[p] == before[i] && forall|q: int|
                        0 <= q <= p ==> #[trigger] rest[q] != before[j];
                assert(more[p] == rest[p]);
                assert forall|q: int| 0 <= q <= p implies #[trigger] more[q] != all[j] by {
                    assert(more[q] == rest[q]);
                }
            } else {
                assert(all[j] == last);
                assert(all[i] == before[i]);
                assert(before.contains(before[i]));
                assert(!target.contains(before[i])) by {
                    if target.contains(before[i]) {
                        let k = target.index_of(before[i]);
                        assert(before.take(n)[k] == target[k]);
                        assert(before[k] == before[i]);
                        assert(all[k] == all[i]);
                    }
                }
                let p = rest.index_of(before[i]);
                assert(more[p] == rest[p]);
                assert forall|q: int| 0 <= q <= p implies #[trigger] more[q] != all[j] by {
                    assert(more[q] == rest[q]);
                    if rest[q] == last {
                        assert(rest.contains(last));
                        assert(before.contains(last));
                    }
                }
            }
        }
    }
}

/// A fast-forward absorbs the messages of the source behind its fork point,
/// or all of them where it has none.
pub proof fn law_fast_forward_absorbs(target: Seq<MessageView>, source: BranchView)
    ensures
        source.fork_point is None ==> merged(target, source, MergeStrategy::FastForward)
            == absorbed(target, source.messages),
        source.fork_point matches Some(n) ==> n <= source.messages.len() ==> merged(
            target,
            source,
            MergeStrategy::FastForward,
        ) == absorbed(target, source.messages.subrange(n as int, source.messages.len() as int)),
        source.fork_point matches Some(n) ==> n > source.messages.len() ==> merged(
            target,
            source,
            MergeStrategy::FastForward,
        ) == target,
{
    if let Some(n) = source.fork_point {
        if n <= source.messages.len() {
            assert(source.messages.skip(n as int) =~= source.messages.subrange(
                n as int,
                source.messages.len() as int,
            ));
        }
    }
}

/// A union keeps what both branches begin with, and absorbs first the rest of
/// the target and then the rest of the source.
pub proof fn law_union_absorbs(
    prefix: Seq<MessageView>,
    own: Seq<MessageView>,
    other: Seq<MessageView>,
    source: BranchView,
)
    requires
        source.messages == prefix + other,
        own.len() == 0 || other.len() == 0 || own[0] != other[0],
    ensures
        merged(prefix + own, source, MergeStrategy::Union) == absorbed(absorbed(prefix, own), other),
{
    let target = prefix + own;
    let n = common_len(target, source.messages) as int;
    lemma_common_from(target, source.messages, 0);
    let k = prefix.len() as int;
    assert(n == k) by {
        if n < k {
            assert(target[n] == prefix[n]);
            assert(source.messages[n] == prefix[n]);
        } else if n > k {
            assert(target[k] == source.messages[k]);
            assert(target[k] == own[0]);
            assert(source.messages[k] == other[0]);
        }
    }
    assert(target.take(n) =~= prefix);
    assert(target.skip(n) =~= own);
    assert(source.messages.skip(n) =~= other);
}

/// A new branch begins with the messages of the current one, remembers where
/// it came from and where it was forked, and becomes current; no other branch
/// changes.
pub proof fn law_fork(v: ContextView, id: Seq<char>, name: Seq<char>, other: Seq<char>)
    requires
        v.branches.contains_key(v.current),
    ensures
        ({
            let w = v.forked(id, name);
            let b = w.branches[id];
            &&& w.current == id
            &&& w.branches.contains_key(id)
            &&& b.id == id && b.name == name
            &&& b.messages == v.branches[v.current].messages
            &&& b.parent_branch_id == Some(v.current)
            &&& v.branches[v.current].messages.len() <= usize::MAX ==> b.fork_point == Some(
                v.branches[v.current].messages.len() as usize,
            )
            &&& other != id ==> w.branches.contains_key(other) == v.branches.contains_key(other)
            &&& other != id && v.branches.contains_key(other) ==> w.branches[other]
                == v.branches[other]
        }),
        BranchView::fresh(id, name).messages.len() == 0,
        BranchView::fresh(id, name).id == id,
        BranchView::fresh(id, name).name == name,
        BranchView::fresh(id, name).parent_branch_id is None,
        BranchView::fresh(id, name).fork_point is None,
{
}

/// Other messages on the current branch: only its messages change.
pub proof fn law_messages_of_the_current_branch(
    v: ContextView,
    messages: Seq<MessageView>,
    other: Seq<char>,
)
    ensures
        ({
            let w = v.with_messages(messages);
            let a = v.branches[v.current];
            let b = w.branches[v.current];
            &&& w.current == v.current
            &&& w.branches.contains_key(v.current)
            &&& b.messages == messages
            &&& w.messages() == messages
            &&& b.id == a.id && b.name == a.name && b.parent_branch_id == a.parent_branch_id
                && b.fork_point == a.fork_point
            &&& other != v.current ==> w.branches.contains_key(other) == v.branches.contains_key(
                other,
            )
            &&& other != v.current && v.branches.contains_key(other) ==> w.branches[other]
                == v.branches[other]
        }),
        v.here() == v.branches[v.current],
        v.messages() == v.branches[v.current].messages,
{
}

/// A branch is compacted exactly if it holds more messages than allowed and
/// something is left between its prompt and the recent messages: everything
/// behind the first system message, or from the front where there is none, up
/// to the messages that are reserved.
pub proof fn law_compaction_range(msgs: Seq<MessageView>, config: CompactionConfig, system: int)
    requires
        0 <= system <= msgs.len(),
        forall|j: int| 0 <= j < system ==> (#[trigger] msgs[j]).role != Role::System,
        system < msgs.len() ==> msgs[system].role == Role::System,
    ensures
        ({
            let start = if system < msgs.len() {
                system + 1
            } else {
                0
            };
            let end = msgs.len() - config.reserve_recent;
            range_to_compact(msgs, config) == if msgs.len() > config.max_messages && start < end {
                Some((start as nat, end as nat))
            } else {
                None
            }
        }),
{
    lemma_system_from(msgs, 0);
    let s = system_from(msgs, 0) as int;
    assert(s == system) by {
        if s < system {
            assert(msgs[s].role != Role::System);
        } else if s > system {
            assert(msgs[system].role != Role::System);
        }
    }
}

/// The messages after a compaction, one by one: those before the range, the
/// summary as a message of the system, and those behind the range.
pub proof fn law_compacted(
    front: Seq<MessageView>,
    gone: Seq<MessageView>,
    back: Seq<MessageView>,
    summary: Seq<char>,
)
    ensures
        compacted(
            front + gone + back,
            summary,
            front.len() as int,
            (front.len() + gone.len()) as int,
        ) == front + seq![
            MessageView {
                role: Role::System,
                content: Some(summary),
                tool_calls: None,
                tool_call_id: None,
            },
        ] + back,
        without_range(
            front + gone + back,
            front.len() as int,
            (front.len() + gone.len()) as int,
        ) == front + back,
{
    let all = front + gone + back;
    let a = front.len() as int;
    let b = (front.len() + gone.len()) as int;
    assert(all.take(a) =~= front);
    assert(all.skip(b) =~= back);
    assert(compacted(all, summary, a, b) =~= front + seq![
        MessageView {
            role: Role::System,
            content: Some(summary),
            tool_calls: None,
            tool_call_id: None,
        },
    ] + back);
}

/// The estimate counts the bytes of every text and every call, four to a
/// token.
pub proof fn law_token_estimate(
    msgs: Seq<MessageView>,
    msg: MessageView,
    calls: Seq<ToolCallView>,
    call: ToolCallView,
)
    ensures
        total_bytes(Seq::empty()) == 0,
        total_bytes(msgs.push(msg)) == total_bytes(msgs) + (if msg.content is Some {
            byte_len(msg.content->0)
        } else {
            0
        }) + (if msg.tool_calls is Some {
            call_bytes(msg.tool_calls->0)
        } else {
            0
        }),
        call_bytes(Seq::empty()) == 0,
        call_bytes(calls.push(call)) == call_bytes(calls) + byte_len(call.function.name) + byte_len(
            call.function.arguments,
        ),
        total_bytes(msgs) <= usize::MAX ==> token_estimate(msgs) == total_bytes(msgs) as int / 4,
        total_bytes(msgs) > usize::MAX ==> token_estimate(msgs) == usize::MAX / 4,
{
    assert(msgs.push(msg).drop_last() =~= msgs);
    assert(calls.push(call).drop_last() =~= calls);
}

/// A listing holds every branch once.
pub proof fn law_listing(list: Seq<BranchView>, branches: Map<Seq<char>, BranchView>)
    requires
        lists_branches(list, branches),
        sorted_by_name(list),
    ensures
        forall|b: BranchView| #[trigger]
            list.contains(b) <==> exists|id: Seq<char>|
                branches.contains_key(id) && #[trigger] branches[id] == b,
        forall|i: int, j: int|
            0 <= i < j < list.len() ==> text_le((#[trigger] list[i]).name, (#[trigger] list[j]).name),
        branches.dom().finite(),
        list.len() == branches.dom().len(),
{
    let ids = choose|ids: Seq<Seq<char>>| #[trigger] lists_by(list, ids, branches);
    ids.unique_seq_to_set();
    vstd::seq_lib::seq_to_set_is_finite(ids);
    assert forall|b: BranchView| #[trigger] list.contains(b) <==> exists|id: Seq<char>|
        branches.contains_key(id) && #[trigger] branches[id] == b by {
        if list.contains(b) {
            let i = list.index_of(b);
            assert(ids.to_set().contains(ids[i]));
            assert(branches[ids[i]] == b);
        }
        if exists|id: Seq<char>| branches.contains_key(id) && #[trigger] branches[id] == b {
            let id = choose|id: Seq<char>|
                branches.contains_key(id) && #[trigger] branches[id] == b;
            assert(ids.to_set().contains(id));
            let i = ids.index_of(id);
            assert(list[i] == b);
        }
    }
}

/// Names of branches: a name is taken exactly if some branch has it.
pub proof fn law_names(v: ContextView, id: Seq<char>, name: Seq<char>)
    ensures
        v.named(id, name) <==> v.branches.contains_key(id) && v.branches[id].name == name,
        v.has_name(name) <==> exists|k: Seq<char>|
            v.branches.contains_key(k) && (#[trigger] v.branches[k]).name == name,
{
    if v.has_name(name) {
        let k = choose|k: Seq<char>| v.named(k, name);
        assert(v.branches.contains_key(k) && v.branches[k].name == name);
    }
    if exists|k: Seq<char>| v.branches.contains_key(k) && (#[trigger] v.branches[k]).name == name {
        let k = choose|k: Seq<char>|
            v.branches.contains_key(k) && (#[trigger] v.branches[k]).name == name;
        assert(v.named(k, name));
    }
}

/// What is seen of a branch is what it holds. The current branch can be put in
/// its own place; the others stay, and so does the choice.
pub proof fn law_branch_view(b: Branch, v: ContextView, other: BranchView, id: Seq<char>)
    ensures
        b@.id == b.id@,
        b@.name == b.name@,
        b@.messages == message_views(b.messages@),
        b@.parent_branch_id == opt_text(b.parent_branch_id),
        b@.fork_point == b.fork_point,
        v.here() == v.branches[v.current],
        v.messages() == v.branches[v.current].messages,
        v.with_here(other).current == v.current,
        v.with_here(other).here() == other,
        v.with_here(other).branches.contains_key(v.current),
        id != v.current ==> v.with_here(other).branches.contains_key(id)
            == v.branches.contains_key(id),
        id != v.current && v.branches.contains_key(id) ==> v.with_here(other).branches[id]
            == v.branches[id],
{
}

/// A name is unique exactly if no two branches have it. A manager that is in
/// order has its current branch, and every branch under its own key.
pub proof fn law_unique_names(v: ContextView, a: Seq<char>, b: Seq<char>, name: Seq<char>, m: ContextManager)
    ensures
        v.branches.contains_key(a) && v.branches.contains_key(b) && a != b && v.branches[a].name
            == v.branches[b].name ==> !v.name_unique(v.branches[a].name),
        !v.name_unique(name) ==> exists|x: Seq<char>, y: Seq<char>|
            x != y && #[trigger] v.named(x, name) && #[trigger] v.named(y, name),
        m.wf() ==> m@.branches.contains_key(m@.current),
{
    if v.branches.contains_key(a) && v.branches.contains_key(b) && a != b && v.branches[a].name
        == v.branches[b].name {
        let n = v.branches[a].name;
        assert(v.named(a, n) && v.named(b, n));
    }
}

/// The id of a branch has 36 characters: hyphens at the four fixed places and
/// hexadecimal digits in small letters elsewhere, with the version and the
/// variant of a random id.
pub proof fn law_id(s: Seq<char>, i: int)
    requires
        is_uuid(s),
        0 <= i < s.len(),
    ensures
        s.len() == 36,
        i == 8 || i == 13 || i == 18 || i == 23 <==> s[i] == '-',
        s[i] == '-' || '0' <= s[i] <= '9' || 'a' <= s[i] <= 'f',
        s[14] == '4',
        s[19] == '8' || s[19] == '9' || s[19] == 'a' || s[19] == 'b',
{
}

} // verus!
