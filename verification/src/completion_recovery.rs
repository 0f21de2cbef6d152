//! Shared context-window estimate for completions.
use vstd::prelude::*;

use crate::models::{views, ChatMessage};
use crate::token_budget::{
    add_sat, estimate_messages_tokens, estimate_system_tokens, messages_tokens, sat_add,
    system_tokens,
};

verus! {

/// Input estimate of a completion: the messages plus the system prompt (with its fixed
/// overhead), without memory or retrieved excerpts, saturated to `u32`.
pub open spec fn completion_estimate(ms: Seq<crate::models::MessageView>, system: Option<Seq<char>>) -> int {
    sat_add(messages_tokens(ms), system_tokens(system, Seq::<char>::empty(), Seq::<char>::empty()))
}

/// Messages plus system prompt, without memory or retrieved excerpts.
pub fn estimate_completion_input_tokens(messages: &[ChatMessage], system: Option<&str>) -> (r: u32)
    ensures
        r == completion_estimate(
            views(messages@),
            match system {
                Some(s) => Some(s@),
                None => None,
            },
        ),
{
    let m = estimate_messages_tokens(messages);
    proof {
        assert(""@ =~= Seq::<char>::empty()) by {
            reveal_strlit("");
        }
    }
    let s = estimate_system_tokens(system, "", "");
    add_sat(m, s)
}

proof fn lemma_messages_tokens_bounds(ms: Seq<crate::models::MessageView>)
    ensures
        0 <= messages_tokens(ms) <= 0xffff_ffff,
    decreases ms.len(),
{
    if ms.len() > 0 {
        lemma_messages_tokens_bounds(ms.drop_last());
    }
}

/// A system prompt is counted: the estimate with one is never below the estimate
/// without, and it is strictly above whenever the prompt is not empty and the sum does
/// not reach the `u32` ceiling.
pub proof fn law_system_prompt_counts(ms: Seq<crate::models::MessageView>, s: Seq<char>)
    ensures
        completion_estimate(ms, Some(s)) >= completion_estimate(ms, None),
        s.len() > 0 && messages_tokens(ms) + 33 <= 0xffff_ffff ==> completion_estimate(ms, Some(s))
            > completion_estimate(ms, None),
{
    lemma_messages_tokens_bounds(ms);
    let e = Seq::<char>::empty();
    assert(system_tokens(None, e, e) == 32);
    if s.len() > 0 {
        assert(crate::token_budget::text_tokens(s.len() as int, 2, 7) >= 1);
    }
}

} // verus!
