//! Plan-step summary blocks (`<plan-step-summary>…</plan-step-summary>`) in memory text.
use vstd::prelude::*;

use crate::text::{
    append_chars, append_str, chars_of, find, find_exec, matches_at, lemma_find_from_sound, slice_of, trim,
    trim_vec,
};

verus! {

/// Trimmed body of the first plan-step summary block, when non-empty.
pub open spec fn step_summary_inner(block: Seq<char>) -> Option<Seq<char>> {
    match find(block, "<plan-step-summary>"@) {
        None => None,
        Some(a) => {
            let after = block.subrange(a + "<plan-step-summary>"@.len(), block.len() as int);
            match find(after, "</plan-step-summary>"@) {
                None => None,
                Some(b) => {
                    let inner = trim(after.subrange(0, b));
                    if inner.len() == 0 {
                        None
                    } else {
                        Some(inner)
                    }
                },
            }
        },
    }
}

/// Extract the body of a plan-step summary block.
pub fn extract_plan_step_summary(block: &[char]) -> (r: Option<Vec<char>>)
    ensures
        match r {
            Some(v) => step_summary_inner(block@) == Some(v@),
            None => step_summary_inner(block@) is None,
        },
{
    let open = chars_of("<plan-step-summary>");
    let close = chars_of("</plan-step-summary>");
    match find_exec(block, open.as_slice()) {
        None => None,
        Some(a) => {
            proof {
                lemma_find_from_sound(block@, open@, 0);
                assert(find(block@, open@) == Some(a as int));
                assert(matches_at(block@, open@, a as int));
            }
            let olen = open.len();
            assert(olen == open@.len());
            assert(a + open@.len() <= block@.len());
            assert(a + olen <= block@.len());
            assert(block@.len() == block.len());
            let after = slice_of(block, a + olen, block.len());
            match find_exec(after.as_slice(), close.as_slice()) {
                None => None,
                Some(b) => {
                    proof {
                        lemma_find_from_sound(after@, close@, 0);
                    }
                    let body = slice_of(after.as_slice(), 0, b);
                    let inner = trim_vec(body.as_slice());
                    if inner.len() == 0 {
                        None
                    } else {
                        Some(inner)
                    }
                },
            }
        },
    }
}

/// Memory line for a plan step: a `PLAN_PROGRESS:` header over the summary body.
pub open spec fn plan_step_memory(inner: Seq<char>) -> Seq<char> {
    "PLAN_PROGRESS:\n"@ + trim(inner)
}

pub fn format_plan_step_for_memory(inner: &[char]) -> (r: Vec<char>)
    ensures
        r@ == plan_step_memory(inner@),
{
    let mut out: Vec<char> = Vec::new();
    append_str(&mut out, "PLAN_PROGRESS:\n");
    let t = trim_vec(inner);
    append_chars(&mut out, t.as_slice());
    out
}

} // verus!
