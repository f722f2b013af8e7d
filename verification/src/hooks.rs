//! Hooks around the execution of a tool.
//!
//! A `PreToolHook` sees a call before it is executed and may change or reject
//! it. A `PostToolHook` sees the outcome and has no say in it.

use vstd::prelude::*;
use crate::types::{Message, ToolCall};

verus! {

/// A hook that is called after the safety pipeline and before the tool. What
/// it does with a call need not be determined by the call and the history.
pub trait PreToolHook: Send + Sync {
    /// The hook may let a call pass, as it stands or changed.
    spec fn may_pass(&self, before: ToolCall, context: &[Message], after: ToolCall) -> bool;

    /// The hook may reject a call, and leave it changed.
    spec fn may_reject(
        &self,
        before: ToolCall,
        context: &[Message],
        after: ToolCall,
        reason: String,
    ) -> bool;

    /// Called before a tool is executed. The hook may change the call; with an
    /// error it rejects it.
    fn on_pre_use(&self, call: &mut ToolCall, context: &[Message]) -> (r: Result<(), String>)
        ensures
            match r {
                Ok(()) => self.may_pass(*old(call), context, *final(call)),
                Err(reason) => self.may_reject(*old(call), context, *final(call), reason),
            },
    ;
}

/// A hook that is called in the background after a tool has been executed.
pub trait PostToolHook: Send + Sync {
    /// Called with the call as it was executed, its outcome and the history.
    fn on_post_use(&self, call: &ToolCall, result: &Result<String, String>, context: &[Message]);
}

/// The first hooks, as many as there are steps in the trail, have let a call
/// pass and each one has handed on what it made of the call.
pub open spec fn is_trail<H: PreToolHook>(
    hooks: Seq<H>,
    context: &[Message],
    trail: Seq<ToolCall>,
) -> bool {
    &&& 1 <= trail.len() <= hooks.len() + 1
    &&& forall|k: int|
        0 <= k < trail.len() - 1 ==> (#[trigger] hooks[k]).may_pass(
            trail[k],
            context,
            trail[k + 1],
        )
}

/// Run the hooks on a call, one after the other, until one rejects it. Without
/// an error all the hooks have let the call pass; with one, the hook behind
/// those that did has rejected it.
pub fn run_pre_hooks<H: PreToolHook>(hooks: &[H], call: &mut ToolCall, context: &[Message]) -> (r:
    Result<(), String>)
    ensures
        exists|trail: Seq<ToolCall>| #[trigger]
            is_trail(hooks@, context, trail) && *old(call) == trail[0] && match r {
                Ok(()) => trail.len() == hooks@.len() + 1 && *final(call) == trail.last(),
                Err(reason) => trail.len() <= hooks@.len() && hooks@[trail.len()
                    - 1].may_reject(trail.last(), context, *final(call), reason),
            },
{
    let ghost mut trail: Seq<ToolCall> = seq![*call];
    let mut i: usize = 0;
    while i < hooks.len()
        invariant
            i <= hooks@.len(),
            trail.len() == i + 1,
            trail[0] == *old(call),
            trail.last() == *call,
            is_trail(hooks@, context, trail),
        decreases hooks@.len() - i,
    {
        match hooks[i].on_pre_use(call, context) {
            Ok(()) => {
                proof {
                    let longer = trail.push(*call);
                    assert forall|k: int| 0 <= k < longer.len() - 1 implies (
                    #[trigger] hooks@[k]).may_pass(longer[k], context, longer[k + 1]) by {
                        if k < i {
                            assert(longer[k] == trail[k] && longer[k + 1] == trail[k + 1]);
                        }
                    }
                    trail = longer;
                }
            },
            Err(e) => {
                return Err(e);
            },
        }
        i += 1;
    }
    Ok(())
}

/// Hooks that hand a call on unchanged whenever they see it have no effect
/// together; in particular no hooks have none.
pub proof fn law_idle_hooks<H: PreToolHook>(
    hooks: Seq<H>,
    context: &[Message],
    trail: Seq<ToolCall>,
)
    requires
        is_trail(hooks, context, trail),
        forall|k: int, before: ToolCall, after: ToolCall|
            0 <= k < hooks.len() && before@ == trail[0]@ && (#[trigger] hooks[k].may_pass(
                before,
                context,
                after,
            )) ==> after@ == before@,
    ensures
        forall|n: int| 0 <= n < trail.len() ==> (#[trigger] trail[n])@ == trail[0]@,
    decreases trail.len(),
{
    if trail.len() > 1 {
        let shorter = trail.drop_last();
        let last = trail.len() - 1;
        assert forall|k: int| 0 <= k < shorter.len() - 1 implies (#[trigger] hooks[k]).may_pass(
            shorter[k],
            context,
            shorter[k + 1],
        ) by {
            assert(shorter[k] == trail[k] && shorter[k + 1] == trail[k + 1]);
        }
        law_idle_hooks(hooks, context, shorter);
        assert(shorter[last - 1]@ == trail[0]@);
        assert(hooks[last - 1].may_pass(trail[last - 1], context, trail[last]));
        assert forall|n: int| 0 <= n < trail.len() implies (#[trigger] trail[n])@
            == trail[0]@ by {
            if n < last {
                assert(shorter[n] == trail[n]);
            }
        }
    }
}

/// Every hook of a trail has seen what the one before it made of the call, and
/// has let it pass.
pub proof fn law_trail<H: PreToolHook>(
    hooks: Seq<H>,
    context: &[Message],
    trail: Seq<ToolCall>,
    k: int,
)
    requires
        is_trail(hooks, context, trail),
        0 <= k < trail.len() - 1,
    ensures
        k < hooks.len(),
        hooks[k].may_pass(trail[k], context, trail[k + 1]),
{
    assert(hooks[k].may_pass(trail[k], context, trail[k + 1]));
}

} // verus!
