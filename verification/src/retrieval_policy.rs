//! Query-aware retrieval rules for session memory.
use vstd::prelude::*;

use crate::text::{
    chars_of, compact_whitespace_vec, compact_ws, contains_any, contains_any_exec, strs_view,
    unicode_lower_vec, unicode_lowercase,
};

verus! {

/// Phrases (Russian and English) that ask to continue the current plan.
pub open spec fn plan_phrases() -> Seq<Seq<char>> {
    seq![
        "иди по плану"@,
        "по плану"@,
        "следующий пункт"@,
        "следующий шаг"@,
        "продолжай план"@,
        "продолжи план"@,
        "continue plan"@,
        "continue the plan"@,
        "next step"@,
        "next item"@,
        "follow the plan"@,
        "plan step"@,
    ]
}

/// The lower-cased, whitespace-compacted query mentions a plan-continuation phrase.
pub open spec fn plan_continuation(query: Seq<char>) -> bool {
    contains_any(compact_ws(unicode_lowercase(query)), plan_phrases())
}

pub fn is_plan_continuation_query(query: &str) -> (r: bool)
    ensures
        r == plan_continuation(query@),
{
    let q = chars_of(query);
    let lower = unicode_lower_vec(q.as_slice());
    let compact = compact_whitespace_vec(lower.as_slice());
    let phrases: [&str; 12] = [
        "иди по плану",
        "по плану",
        "следующий пункт",
        "следующий шаг",
        "продолжай план",
        "продолжи план",
        "continue plan",
        "continue the plan",
        "next step",
        "next item",
        "follow the plan",
        "plan step",
    ];
    assert(strs_view(phrases@) =~= plan_phrases());
    contains_any_exec(compact.as_slice(), phrases.as_slice())
}

} // verus!
