//! Streamed answers of the model, put together chunk by chunk.

use vstd::prelude::*;
use crate::text::{copy_opt, opt_text};
use crate::types::{
    assistant_message, call_views, fragment_views, ChatChunk, ChatChunkView, FragmentView,
    FunctionCall, FunctionCallView, Message, MessageView, Role, ToolCall, ToolCallChunk,
    ToolCallView,
};

verus! {

// ---------------------------------------------------------------------------
// Model
// ---------------------------------------------------------------------------

/// What has come in of one tool call.
#[verifier::ext_equal]
pub struct PartialView {
    pub id: Option<Seq<char>>,
    pub name: Option<Seq<char>>,
    pub arguments: Seq<char>,
}

impl PartialView {
    pub open spec fn blank() -> PartialView {
        PartialView { id: None, name: None, arguments: Seq::empty() }
    }

    /// A later id or name replaces the earlier one; arguments are appended.
    pub open spec fn with(self, f: FragmentView) -> PartialView {
        PartialView {
            id: if f.id is Some {
                f.id
            } else {
                self.id
            },
            name: if f.name is Some {
                f.name
            } else {
                self.name
            },
            arguments: match f.arguments {
                Some(a) => self.arguments + a,
                None => self.arguments,
            },
        }
    }

    /// The finished call; what never came is filled in.
    pub open spec fn finished(self) -> ToolCallView {
        ToolCallView {
            id: match self.id {
                Some(s) => s,
                None => "call_unknown"@,
            },
            kind: "function"@,
            function: FunctionCallView {
                name: match self.name {
                    Some(s) => s,
                    None => "unknown"@,
                },
                arguments: self.arguments,
            },
        }
    }
}

/// The text so far, and the calls so far by their index.
#[verifier::ext_equal]
pub struct StreamView {
    pub content: Seq<char>,
    pub calls: Map<usize, PartialView>,
}

/// The call a fragment belongs to; without an index it is the first one.
pub open spec fn index_of_fragment(f: FragmentView) -> usize {
    match f.index {
        Some(i) => i,
        None => 0,
    }
}

/// The calls after one more fragment.
pub open spec fn with_fragment(calls: Map<usize, PartialView>, f: FragmentView) -> Map<
    usize,
    PartialView,
> {
    let i = index_of_fragment(f);
    let before = if calls.contains_key(i) {
        calls[i]
    } else {
        PartialView::blank()
    };
    calls.insert(i, before.with(f))
}

/// The calls after several fragments.
pub open spec fn with_fragments(calls: Map<usize, PartialView>, fs: Seq<FragmentView>) -> Map<
    usize,
    PartialView,
>
    decreases fs.len(),
{
    if fs.len() == 0 {
        calls
    } else {
        with_fragment(with_fragments(calls, fs.drop_last()), fs.last())
    }
}

/// The fragments of a chunk.
pub open spec fn fragments_in(chunk: ChatChunkView) -> Seq<FragmentView> {
    match chunk.calls {
        Some(fs) => fs,
        None => Seq::empty(),
    }
}

/// The text of a chunk.
pub open spec fn text_in(chunk: ChatChunkView) -> Seq<char> {
    match chunk.content {
        Some(t) => t,
        None => Seq::empty(),
    }
}

impl StreamView {
    pub open spec fn blank() -> StreamView {
        StreamView { content: Seq::empty(), calls: Map::empty() }
    }

    /// After one more chunk.
    pub open spec fn with_chunk(self, chunk: ChatChunkView) -> StreamView {
        StreamView {
            content: self.content + text_in(chunk),
            calls: with_fragments(self.calls, fragments_in(chunk)),
        }
    }

    /// After several chunks.
    pub open spec fn with_chunks(self, chunks: Seq<ChatChunkView>) -> StreamView
        decreases chunks.len(),
    {
        if chunks.len() == 0 {
            self
        } else {
            self.with_chunks(chunks.drop_last()).with_chunk(chunks.last())
        }
    }

    /// The message that the stream amounts to.
    pub open spec fn message(self) -> MessageView {
        assistant_message(
            if self.content.len() == 0 {
                None
            } else {
                Some(self.content)
            },
            if self.calls.dom() == Set::<usize>::empty() {
                None
            } else {
                Some(calls_below(self.calls, usize::MAX as nat + 1))
            },
        )
    }
}

/// The finished calls with an index below `n`, in ascending order.
pub open spec fn calls_below(calls: Map<usize, PartialView>, n: nat) -> Seq<ToolCallView>
    decreases n,
{
    if n == 0 {
        Seq::empty()
    } else {
        let before = calls_below(calls, (n - 1) as nat);
        let i = (n - 1) as usize;
        if calls.contains_key(i) {
            before.push(calls[i].finished())
        } else {
            before
        }
    }
}

// ---------------------------------------------------------------------------
// Laws
// ---------------------------------------------------------------------------

/// All the text of several chunks.
pub open spec fn all_text(chunks: Seq<ChatChunkView>) -> Seq<char>
    decreases chunks.len(),
{
    if chunks.len() == 0 {
        Seq::empty()
    } else {
        all_text(chunks.drop_last()) + text_in(chunks.last())
    }
}

/// All the fragments of several chunks.
pub open spec fn all_fragments(chunks: Seq<ChatChunkView>) -> Seq<FragmentView>
    decreases chunks.len(),
{
    if chunks.len() == 0 {
        Seq::empty()
    } else {
        all_fragments(chunks.drop_last()) + fragments_in(chunks.last())
    }
}

proof fn lemma_fragments_concat(
    calls: Map<usize, PartialView>,
    a: Seq<FragmentView>,
    b: Seq<FragmentView>,
)
    ensures
        with_fragments(calls, a + b) == with_fragments(with_fragments(calls, a), b),
    decreases b.len(),
{
    if b.len() == 0 {
        assert(a + b =~= a);
    } else {
        lemma_fragments_concat(calls, a, b.drop_last());
        assert((a + b).drop_last() =~= a + b.drop_last());
        assert((a + b).last() == b.last());
    }
}

/// How the stream is cut into chunks does not matter: the text is all the text
/// in order, and the calls depend on the sequence of fragments alone.
pub proof fn law_chunking(chunks: Seq<ChatChunkView>)
    ensures
        StreamView::blank().with_chunks(chunks) == (StreamView {
            content: all_text(chunks),
            calls: with_fragments(Map::empty(), all_fragments(chunks)),
        }),
    decreases chunks.len(),
{
    if chunks.len() > 0 {
        law_chunking(chunks.drop_last());
        lemma_fragments_concat(
            Map::empty(),
            all_fragments(chunks.drop_last()),
            fragments_in(chunks.last()),
        );
    }
}

/// The arguments that the fragments carry for one call, in order.
pub open spec fn arguments_for(fs: Seq<FragmentView>, i: usize) -> Seq<char>
    decreases fs.len(),
{
    if fs.len() == 0 {
        Seq::empty()
    } else {
        let before = arguments_for(fs.drop_last(), i);
        if index_of_fragment(fs.last()) == i && fs.last().arguments is Some {
            before + fs.last().arguments->0
        } else {
            before
        }
    }
}

/// Calls do not mix: a call exists exactly if some fragment carries its index,
/// and its arguments are those of its own fragments, in order.
pub proof fn law_calls_do_not_mix(fs: Seq<FragmentView>, i: usize)
    ensures
        with_fragments(Map::empty(), fs).contains_key(i) <==> (exists|k: int|
            0 <= k < fs.len() && index_of_fragment(#[trigger] fs[k]) == i),
        with_fragments(Map::empty(), fs).contains_key(i) ==> with_fragments(
            Map::empty(),
            fs,
        )[i].arguments == arguments_for(fs, i),
        !with_fragments(Map::empty(), fs).contains_key(i) ==> arguments_for(fs, i).len() == 0,
    decreases fs.len(),
{
    if fs.len() > 0 {
        let init = fs.drop_last();
        law_calls_do_not_mix(init, i);
        let calls = with_fragments(Map::empty(), init);
        if calls.contains_key(i) {
            let k = choose|k: int| 0 <= k < init.len() && index_of_fragment(#[trigger] init[k]) == i;
            assert(fs[k] == init[k]);
        }
        if index_of_fragment(fs.last()) == i {
            assert(fs[fs.len() - 1] == fs.last());
            if fs.last().arguments is Some {
                assert(Seq::<char>::empty() + fs.last().arguments->0 =~= fs.last().arguments->0);
                if arguments_for(init, i).len() == 0 {
                    assert(arguments_for(init, i) =~= Seq::<char>::empty());
                }
            }
        } else if exists|k: int| 0 <= k < fs.len() && index_of_fragment(#[trigger] fs[k]) == i {
            let k = choose|k: int| 0 <= k < fs.len() && index_of_fragment(#[trigger] fs[k]) == i;
            assert(init[k] == fs[k]);
        }
        if arguments_for(fs, i).len() == 0 {
            assert(arguments_for(fs, i) =~= Seq::<char>::empty());
        }
    }
}

// ---------------------------------------------------------------------------
// The accumulator
// ---------------------------------------------------------------------------

/// What has come in of the call `index`.
#[derive(Debug)]
struct PartialToolCall {
    index: usize,
    id: Option<String>,
    name: Option<String>,
    arguments: String,
}

impl PartialToolCall {
    spec fn partial(&self) -> PartialView {
        PartialView {
            id: opt_text(self.id),
            name: opt_text(self.name),
            arguments: self.arguments@,
        }
    }

    fn blank(index: usize) -> (r: Self)
        ensures
            r.index == index,
            r.partial() == PartialView::blank(),
    {
        let r = PartialToolCall { index, id: None, name: None, arguments: String::new() };
        assert(r.partial() =~= PartialView::blank());
        r
    }

    fn with(&self, f: &ToolCallChunk) -> (r: Self)
        ensures
            r.index == self.index,
            r.partial() == self.partial().with(f@),
    {
        let id = match &f.id {
            Some(s) => Some(s.clone()),
            None => copy_opt(&self.id),
        };
        let mut name = copy_opt(&self.name);
        let mut arguments = self.arguments.clone();
        match &f.function {
            Some(c) => {
                match &c.name {
                    Some(s) => {
                        name = Some(s.clone());
                    },
                    None => {},
                }
                match &c.arguments {
                    Some(s) => {
                        arguments.append(s.as_str());
                    },
                    None => {},
                }
            },
            None => {},
        }
        PartialToolCall { index: self.index, id, name, arguments }
    }

    fn finish(&self) -> (r: ToolCall)
        ensures
            r@ == self.partial().finished(),
    {
        ToolCall {
            id: match &self.id {
                Some(s) => s.clone(),
                None => "call_unknown".to_string(),
            },
            kind: "function".to_string(),
            function: FunctionCall {
                name: match &self.name {
                    Some(s) => s.clone(),
                    None => "unknown".to_string(),
                },
                arguments: self.arguments.clone(),
            },
        }
    }
}

/// Puts the chunks of a stream together into one message.
///
/// A chunk may carry text as well as fragments of tool calls, each with the
/// index of its call.
#[derive(Debug)]
pub struct StreamAccumulator {
    pub content: String,
    pub partial_calls: PartialCalls,
}

/// The calls so far, in the order of their indices.
#[derive(Debug)]
pub struct PartialCalls {
    entries: Vec<PartialToolCall>,
}

spec fn ascending(e: Seq<PartialToolCall>) -> bool {
    forall|i: int, j: int| 0 <= i < j < e.len() ==> (#[trigger] e[i]).index < (#[trigger] e[j]).index
}

spec fn held(e: Seq<PartialToolCall>, index: usize, i: int) -> bool {
    0 <= i < e.len() && e[i].index == index
}

spec fn is_held(e: Seq<PartialToolCall>, index: usize) -> bool {
    exists|i: int| held(e, index, i)
}

spec fn call_map(e: Seq<PartialToolCall>) -> Map<usize, PartialView> {
    Map::new(
        |k: usize| is_held(e, k),
        |k: usize| e[choose|i: int| held(e, k, i)].partial(),
    )
}

proof fn lemma_held(e: Seq<PartialToolCall>, i: int)
    requires
        ascending(e),
        0 <= i < e.len(),
    ensures
        call_map(e).contains_key(e[i].index),
        call_map(e)[e[i].index] == e[i].partial(),
{
    assert(held(e, e[i].index, i));
    let j = choose|j: int| held(e, e[i].index, j);
    assert(held(e, e[i].index, j));
    assert(i == j);
}

proof fn lemma_replaced(e: Seq<PartialToolCall>, i: int, x: PartialToolCall)
    requires
        ascending(e),
        0 <= i < e.len(),
        x.index == e[i].index,
    ensures
        ascending(e.update(i, x)),
        call_map(e.update(i, x)) == call_map(e).insert(x.index, x.partial()),
{
    let n = e.update(i, x);
    assert forall|k: usize| #[trigger] is_held(n, k) == (is_held(e, k) || k == x.index) by {
        if is_held(n, k) {
            let a = choose|a: int| held(n, k, a);
            assert(held(e, k, a));
        }
        if is_held(e, k) {
            let a = choose|a: int| held(e, k, a);
            assert(held(n, k, a));
        }
        assert(held(n, x.index, i));
    }
    assert forall|k: usize| #[trigger] is_held(n, k) implies call_map(n)[k] == call_map(e).insert(
        x.index,
        x.partial(),
    )[k] by {
        let a = choose|a: int| held(n, k, a);
        lemma_held(n, a);
        lemma_held(e, a);
        if a != i {
            assert(n[a] == e[a]);
        }
    }
    assert(call_map(n) =~= call_map(e).insert(x.index, x.partial()));
}

proof fn lemma_inserted(e: Seq<PartialToolCall>, p: int, x: PartialToolCall)
    requires
        ascending(e),
        0 <= p <= e.len(),
        forall|i: int| 0 <= i < p ==> (#[trigger] e[i]).index < x.index,
        p < e.len() ==> x.index < e[p].index,
    ensures
        ascending(e.insert(p, x)),
        call_map(e.insert(p, x)) == call_map(e).insert(x.index, x.partial()),
        !call_map(e).contains_key(x.index),
{
    let n = e.insert(p, x);
    assert forall|i: int| p <= i < e.len() implies x.index < (#[trigger] e[i]).index by {
        assert(e[p].index <= e[i].index);
    }
    assert forall|i: int, j: int| 0 <= i < j < n.len() implies (#[trigger] n[i]).index < (
    #[trigger] n[j]).index by {
        let a = if i < p { i } else { i - 1 };
        let b = if j < p { j } else { j - 1 };
        if i != p {
            assert(n[i] == e[a]);
        }
        if j != p {
            assert(n[j] == e[b]);
        }
    }
    assert(!is_held(e, x.index)) by {
        if is_held(e, x.index) {
            let a = choose|a: int| held(e, x.index, a);
            assert(e[a].index == x.index);
        }
    }
    assert forall|k: usize| #[trigger] is_held(n, k) == (is_held(e, k) || k == x.index) by {
        if is_held(n, k) {
            let a = choose|a: int| held(n, k, a);
            if a != p {
                let b = if a < p { a } else { a - 1 };
                assert(n[a] == e[b]);
                assert(held(e, k, b));
            }
        }
        if is_held(e, k) {
            let a = choose|a: int| held(e, k, a);
            let b = if a < p { a } else { a + 1 };
            assert(n[b] == e[a]);
            assert(held(n, k, b));
        }
        assert(held(n, x.index, p));
    }
    assert forall|k: usize| #[trigger] is_held(n, k) implies call_map(n)[k] == call_map(e).insert(
        x.index,
        x.partial(),
    )[k] by {
        let a = choose|a: int| held(n, k, a);
        lemma_held(n, a);
        if a != p {
            let b = if a < p { a } else { a - 1 };
            assert(n[a] == e[b]);
            lemma_held(e, b);
        }
    }
    assert(call_map(n) =~= call_map(e).insert(x.index, x.partial()));
}

spec fn finished_calls(e: Seq<PartialToolCall>) -> Seq<ToolCallView> {
    e.map_values(|x: PartialToolCall| x.partial().finished())
}

/// The entries below `n` are the first `k` ones.
proof fn lemma_calls_below(e: Seq<PartialToolCall>, n: nat, k: int)
    requires
        ascending(e),
        0 <= k <= e.len(),
        n <= usize::MAX + 1,
        forall|i: int| 0 <= i < k ==> (#[trigger] e[i]).index < n,
        forall|i: int| k <= i < e.len() ==> (#[trigger] e[i]).index >= n,
    ensures
        calls_below(call_map(e), n) == finished_calls(e.take(k)),
    decreases n,
{
    if n == 0 {
        assert(k == 0) by {
            if k > 0 {
                assert(e[0].index < 0);
            }
        }
        assert(finished_calls(e.take(0)) =~= Seq::empty());
    } else {
        let i = (n - 1) as usize;
        if k > 0 && e[k - 1].index == i {
            lemma_calls_below(e, (n - 1) as nat, k - 1);
            lemma_held(e, k - 1);
            assert(finished_calls(e.take(k)) =~= finished_calls(e.take(k - 1)).push(
                e[k - 1].partial().finished(),
            ));
        } else {
            assert forall|j: int| 0 <= j < k implies (#[trigger] e[j]).index < n - 1 by {
                assert(e[j].index <= e[k - 1].index);
            }
            lemma_calls_below(e, (n - 1) as nat, k);
            if is_held(e, i) {
                let j = choose|j: int| held(e, i, j);
                assert(e[j].index == i);
                assert(j < k);
            }
        }
    }
}

impl View for PartialCalls {
    type V = Map<usize, PartialView>;

    closed spec fn view(&self) -> Map<usize, PartialView> {
        call_map(self.entries@)
    }
}

impl PartialCalls {
    /// No call is held twice.
    pub closed spec fn wf(&self) -> bool {
        ascending(self.entries@)
    }

    fn new() -> (r: Self)
        ensures
            r.wf(),
            r@ == Map::<usize, PartialView>::empty(),
    {
        let r = PartialCalls { entries: Vec::new() };
        assert(r@ =~= Map::<usize, PartialView>::empty());
        r
    }

    fn push(&mut self, f: &ToolCallChunk)
        requires
            old(self).wf(),
        ensures
            final(self).wf(),
            final(self)@ == with_fragment(old(self)@, f@),
    {
        let index: usize = match f.index {
            Some(i) => i,
            None => 0,
        };
        let ghost e = self.entries@;
        let mut p: usize = 0;
        while p < self.entries.len() && self.entries[p].index < index
            invariant
                p <= self.entries@.len(),
                forall|i: int| 0 <= i < p ==> (#[trigger] self.entries@[i]).index < index,
            decreases self.entries@.len() - p,
        {
            p += 1;
        }
        if p < self.entries.len() && self.entries[p].index == index {
            let next = self.entries[p].with(f);
            proof {
                lemma_held(e, p as int);
                lemma_replaced(e, p as int, next);
            }
            self.entries.set(p, next);
        } else {
            let next = PartialToolCall::blank(index).with(f);
            proof {
                lemma_inserted(e, p as int, next);
            }
            self.entries.insert(p, next);
        }
    }

    /// The finished calls in the order of their indices, if there are any.
    fn finish(&self) -> (r: Option<Vec<ToolCall>>)
        requires
            self.wf(),
        ensures
            r is None <==> self@.dom() == Set::<usize>::empty(),
            r matches Some(calls) ==> call_views(calls@) == calls_below(
                self@,
                usize::MAX as nat + 1,
            ),
    {
        let ghost e = self.entries@;
        if self.entries.len() == 0 {
            assert(self@.dom() =~= Set::<usize>::empty());
            return None;
        }
        proof {
            lemma_held(e, 0);
            assert(self@.dom().contains(e[0].index));
            lemma_calls_below(e, (usize::MAX + 1) as nat, e.len() as int);
            assert(e.take(e.len() as int) =~= e);
        }
        let mut calls: Vec<ToolCall> = Vec::new();
        let mut i: usize = 0;
        while i < self.entries.len()
            invariant
                i <= self.entries@.len(),
                e == self.entries@,
                calls@.len() == i,
                forall|j: int| 0 <= j < i ==> (#[trigger] calls@[j])@ == e[j].partial().finished(),
            decreases self.entries@.len() - i,
        {
            calls.push(self.entries[i].finish());
            i += 1;
        }
        assert(call_views(calls@) =~= finished_calls(e));
        Some(calls)
    }
}

impl View for StreamAccumulator {
    type V = StreamView;

    open spec fn view(&self) -> StreamView {
        StreamView { content: self.content@, calls: self.partial_calls@ }
    }
}

impl StreamAccumulator {
    pub open spec fn wf(&self) -> bool {
        self.partial_calls.wf()
    }

    pub fn new() -> (r: Self)
        ensures
            r.wf(),
            r@ == StreamView::blank(),
            r.content@ == r@.content,
    {
        let r = StreamAccumulator { content: String::new(), partial_calls: PartialCalls::new() };
        assert(r@ =~= StreamView::blank());
        r
    }

    /// Add the next chunk.
    pub fn push(&mut self, chunk: &ChatChunk)
        requires
            old(self).wf(),
        ensures
            final(self).wf(),
            final(self)@ == old(self)@.with_chunk(chunk@),
            final(self).content@ == final(self)@.content,
    {
        let ghost start = self@;
        match &chunk.delta_content {
            Some(text) => {
                self.content.append(text.as_str());
            },
            None => {
                assert(start.content + Seq::<char>::empty() =~= start.content);
            },
        }
        match &chunk.delta_tool_calls {
            Some(fragments) => {
                let ghost all = fragment_views(fragments@);
                let mut i: usize = 0;
                assert(all.take(0) =~= Seq::empty());
                while i < fragments.len()
                    invariant
                        i <= fragments@.len(),
                        self.wf(),
                        all == fragment_views(fragments@),
                        chunk@.calls == Some(all),
                        self@.content == start.content + text_in(chunk@),
                        self@.calls == with_fragments(start.calls, all.take(i as int)),
                    decreases fragments@.len() - i,
                {
                    self.partial_calls.push(&fragments[i]);
                    proof {
                        let next = all.take(i + 1);
                        assert(next.drop_last() =~= all.take(i as int));
                        assert(next.last() == fragments@[i as int]@);
                    }
                    i += 1;
                }
                assert(all.take(i as int) =~= all);
            },
            None => {},
        }
    }

    /// The message of the assistant that the chunks amount to.
    pub fn into_message(self) -> (r: Message)
        requires
            self.wf(),
        ensures
            r@ == self@.message(),
    {
        let content = if self.content.as_str().is_empty() {
            None
        } else {
            Some(self.content.clone())
        };
        let tool_calls = self.partial_calls.finish();
        Message::assistant(content, tool_calls)
    }
}

impl Default for StreamAccumulator {
    fn default() -> (r: Self)
        ensures
            r.wf(),
            r@ == StreamView::blank(),
            r.content@ == r@.content,
    {
        StreamAccumulator::new()
    }
}

// ---------------------------------------------------------------------------
// What the message of a stream is
// ---------------------------------------------------------------------------

/// The message of a stream: its text is all the text, if there is any, and its
/// calls are those that have come in, if there are any.
pub proof fn law_message_of_a_stream(s: StreamView, chunk: ChatChunkView)
    ensures
        s.message().role == Role::Assistant,
        s.message().tool_call_id is None,
        s.content.len() == 0 ==> s.message().content is None,
        s.content.len() > 0 ==> s.message().content == Some(s.content),
        (forall|i: usize| !s.calls.contains_key(i)) ==> s.message().tool_calls is None,
        (exists|i: usize| s.calls.contains_key(i)) ==> s.message().tool_calls == Some(
            calls_below(s.calls, (usize::MAX + 1) as nat),
        ),
        chunk.content is None ==> s.with_chunk(chunk).content == s.content,
        chunk.content matches Some(t) ==> s.with_chunk(chunk).content == s.content + t,
        chunk.calls is None ==> s.with_chunk(chunk).calls == s.calls,
        chunk.calls matches Some(fs) ==> s.with_chunk(chunk).calls == with_fragments(s.calls, fs),
        StreamView::blank().content.len() == 0,
        StreamView::blank().calls == Map::<usize, PartialView>::empty(),
{
    if forall|i: usize| !s.calls.contains_key(i) {
        assert(s.calls.dom() =~= Set::<usize>::empty());
    }
    if exists|i: usize| s.calls.contains_key(i) {
        let i = choose|i: usize| s.calls.contains_key(i);
        assert(s.calls.dom().contains(i));
    }
    assert(s.content + Seq::<char>::empty() =~= s.content);
}

/// The calls come in the order of their indices, each one once and nothing
/// between them.
pub proof fn law_calls_in_order(calls: Map<usize, PartialView>, n: nat)
    requires
        n <= usize::MAX,
    ensures
        calls_below(calls, 0) == Seq::<ToolCallView>::empty(),
        calls.contains_key(n as usize) ==> calls_below(calls, n + 1) == calls_below(
            calls,
            n,
        ).push(calls[n as usize].finished()),
        !calls.contains_key(n as usize) ==> calls_below(calls, n + 1) == calls_below(calls, n),
{
}

/// A call is what its fragments say of it: the last id and the last name that
/// came, and all the arguments; what never came is filled in. A fragment
/// without an index belongs to the first call, and no fragment changes a call
/// of another index.
pub proof fn law_fragment(
    calls: Map<usize, PartialView>,
    fs: Seq<FragmentView>,
    f: FragmentView,
    other: usize,
    p: PartialView,
)
    ensures
        with_fragments(calls, Seq::empty()) == calls,
        with_fragments(calls, fs.push(f)) == with_fragment(with_fragments(calls, fs), f),
        ({
            let i: usize = if f.index is Some {
                f.index->0
            } else {
                0
            };
            let after = with_fragment(calls, f);
            let had = calls.contains_key(i);
            &&& after.contains_key(i)
            &&& after[i].id == if f.id is Some {
                f.id
            } else if had {
                calls[i].id
            } else {
                None
            }
            &&& after[i].name == if f.name is Some {
                f.name
            } else if had {
                calls[i].name
            } else {
                None
            }
            &&& f.arguments matches Some(a) ==> after[i].arguments == (if had {
                calls[i].arguments + a
            } else {
                a
            })
            &&& f.arguments is None ==> after[i].arguments == (if had {
                calls[i].arguments
            } else {
                Seq::empty()
            })
            &&& other != i ==> after.contains_key(other) == calls.contains_key(other)
            &&& other != i && calls.contains_key(other) ==> after[other] == calls[other]
        }),
        p.finished().kind == "function"@,
        p.finished().function.arguments == p.arguments,
        p.id matches Some(id) ==> p.finished().id == id,
        p.id is None ==> p.finished().id == "call_unknown"@,
        p.name matches Some(name) ==> p.finished().function.name == name,
        p.name is None ==> p.finished().function.name == "unknown"@,
{
    assert(fs.push(f).drop_last() =~= fs);
    if let Some(a) = f.arguments {
        assert(Seq::<char>::empty() + a =~= a);
    }
}

/// What is seen of an accumulator is its text and its calls.
pub proof fn law_accumulator_view(a: StreamAccumulator)
    ensures
        a@.content == a.content@,
        a@.calls == a.partial_calls@,
{
}

} // verus!
