//! Sliding context window — keep recent turns in the prompt, compress older ones.
//!
//! Window factors (1.35, 0.82, …) are exact fractions here (`135 / 100`, …).
use vstd::prelude::*;

use crate::memory_compress::{compression_target, min_int};
use crate::memory_facts::{
    atom_views, collect_session_facts, collected_facts, fact_block, facts_of, memory_parts, merge_compressed_memory,
    merged_memory, narrative_of,
};
use crate::models::{views, ChatMessage, MessageView, lemma_views_push};
use crate::session_summary::{
    budget_trimmed, summary_budget, summary_budget_chars, summary_cap, tail_trimmed,
    trim_summary_to_budget,
    trim_to_char_budget,
};
use crate::text::{
    append_chars, append_str, char_count, chars_of, is_ws, join, lemma_trim_end_of_clean,
    lemma_trim_start_of_clean, slice_of, str_eq, string_of, take_chars, take_vec, trim, trim_end, trim_start,
    trim_vec,
};
use crate::memory_compress::compression_target_chars;

verus! {

/// How hard the window squeezes the history.
#[derive(Debug, Clone, Copy, PartialEq, Eq, Structural)]
pub enum WindowAggression {
    Normal,
    Aggressive,
    Emergency,
}

impl WindowAggression {
    /// One notch harder; emergency stays emergency.
    pub fn next(self) -> (r: WindowAggression)
        ensures
            self == WindowAggression::Normal ==> r == WindowAggression::Aggressive,
            self != WindowAggression::Normal ==> r == WindowAggression::Emergency,
    {
        match self {
            WindowAggression::Normal => WindowAggression::Aggressive,
            _ => WindowAggression::Emergency,
        }
    }

    fn system_reserve(self) -> (r: u32)
        ensures
            r == system_reserve_of(self),
    {
        match self {
            WindowAggression::Normal => 768,
            WindowAggression::Aggressive => 1024,
            WindowAggression::Emergency => 1280,
        }
    }

    fn min_active_turns(self) -> (r: usize)
        ensures
            r == min_active_of(self),
    {
        match self {
            WindowAggression::Normal => 2,
            _ => 1,
        }
    }
}

pub open spec fn system_reserve_of(a: WindowAggression) -> int {
    match a {
        WindowAggression::Normal => 768,
        WindowAggression::Aggressive => 1024,
        WindowAggression::Emergency => 1280,
    }
}

pub open spec fn min_active_of(a: WindowAggression) -> int {
    match a {
        WindowAggression::Normal => 2,
        _ => 1,
    }
}

/// Output reserve scaled by the aggression (×1, ×1.35, ×1.75, rounded up, saturated).
pub open spec fn adjusted_reserve(reserve: int, a: WindowAggression) -> int {
    let r = match a {
        WindowAggression::Normal => reserve,
        WindowAggression::Aggressive => (reserve * 135 + 99) / 100,
        WindowAggression::Emergency => (reserve * 175 + 99) / 100,
    };
    if r > 0xffff_ffff {
        0xffff_ffff
    } else {
        r
    }
}

/// Remaining budget scaled by the aggression (×1, ×0.82, ×0.65, rounded down).
pub open spec fn scaled_budget(x: int, a: WindowAggression) -> int {
    match a {
        WindowAggression::Normal => x,
        WindowAggression::Aggressive => x * 82 / 100,
        WindowAggression::Emergency => x * 65 / 100,
    }
}

/// Saturating subtraction.
pub open spec fn sat_sub(a: int, b: int) -> int {
    if a > b {
        a - b
    } else {
        0
    }
}

/// Tokens of one message in the window: a quarter of its characters (rounded up)
/// plus 500 per image.
pub open spec fn msg_est(m: MessageView) -> int {
    ((m.content.len() + 3) / 4 + m.images.len() * 500) as int
}

pub open spec fn sum_est(ms: Seq<MessageView>) -> int
    decreases ms.len(),
{
    if ms.len() == 0 {
        0
    } else {
        sum_est(ms.drop_last()) + msg_est(ms.last())
    }
}

/// Token budget left for history after the output, system and summary reserves. The
/// rolling summary always has its full share kept free (30% of the context), whether
/// or not it has been written yet, so the window never has to shrink when it grows.
pub open spec fn window_budget(
    context_limit: int,
    summary: Seq<char>,
    reserve: int,
    a: WindowAggression,
) -> int {
    let ctx = ((if context_limit < 8192 {
        8192
    } else {
        context_limit
    }) as u32) as int;
    let summary_budget = ctx * 3 / 10;
    scaled_budget(
        sat_sub(sat_sub(sat_sub(ctx, adjusted_reserve(reserve, a)), system_reserve_of(a)), summary_budget),
        a,
    )
}

/// Trimmed turn text cut to `max` characters with a trailing `…`.
pub open spec fn trunc_turn(c: Seq<char>, max: int) -> Seq<char> {
    let t = trim(c);
    if t.len() <= max {
        t
    } else {
        take_chars(t, max) + seq!['…']
    }
}

/// The message with another text.
pub open spec fn with_content(m: MessageView, c: Seq<char>) -> MessageView {
    MessageView { role: m.role, content: c, images: m.images }
}

/// Per-message character cap for a token budget.
pub open spec fn max_chars_for(budget: int) -> int {
    let v = (if budget < 2048 {
        2048
    } else {
        budget
    }) / 2 * 3;
    if v > usize::MAX {
        usize::MAX as int
    } else {
        v
    }
}

/// Every message longer than `max` characters is cut to `max`.
pub open spec fn cap_contents(ms: Seq<MessageView>, max: int) -> Seq<MessageView> {
    Seq::new(
        ms.len(),
        |i: int|
            if ms[i].content.len() > max {
                with_content(ms[i], trunc_turn(ms[i].content, max))
            } else {
                ms[i]
            },
    )
}

/// Halve the second-to-last message (not below 2000 characters) until the window fits,
/// or until a step no longer makes it shorter.
pub open spec fn shrink_loop(ms: Seq<MessageView>, budget: int) -> Seq<MessageView>
    decreases if ms.len() >= 2 {
        ms[ms.len() - 2].content.len() as int
    } else {
        0
    },
{
    if sum_est(ms) <= budget || ms.len() <= 1 {
        ms
    } else {
        let idx = ms.len() - 2;
        let c = ms[idx].content;
        let half = if (c.len() as int) / 2 < 2000 {
            2000
        } else {
            (c.len() as int) / 2
        };
        let to = min_int(half, c.len() as int);
        let c2 = trunc_turn(c, to);
        if c2.len() < c.len() {
            shrink_loop(ms.update(idx, with_content(ms[idx], c2)), budget)
        } else {
            ms
        }
    }
}

/// Cap every message, then shrink the second-to-last one until the window fits.
pub open spec fn shrink_active(ms: Seq<MessageView>, budget: int) -> Seq<MessageView> {
    shrink_loop(cap_contents(ms, max_chars_for(budget)), budget)
}

/// Number of trailing messages that fit the budget (the last one always counts).
pub open spec fn tail_keep(ms: Seq<MessageView>, n: int, used: int, budget: int) -> int
    decreases n,
{
    if n <= 0 {
        0
    } else {
        let t = msg_est(ms[n - 1]);
        let u = if used + t > 0xffff_ffff {
            0xffff_ffff
        } else {
            used + t
        };
        if n < ms.len() && u > budget {
            0
        } else {
            1 + tail_keep(ms, n - 1, u, budget)
        }
    }
}

/// The active window and the evicted prefix.
pub open spec fn window_plan(
    ms: Seq<MessageView>,
    context_limit: int,
    summary: Seq<char>,
    reserve: int,
    a: WindowAggression,
) -> (Seq<MessageView>, Seq<MessageView>) {
    let len = ms.len() as int;
    if len == 0 {
        (ms, Seq::empty())
    } else if a == WindowAggression::Emergency && len > 1 {
        (seq![ms.last()], ms.drop_last())
    } else {
        let budget = window_budget(context_limit, summary, reserve, a);
        let keep = tail_keep(ms, len, 0, budget);
        let min_keep = if min_int(len, min_active_of(a)) < 1 {
            1
        } else {
            min_int(len, min_active_of(a))
        };
        let first = if keep < min_keep {
            let cand = ms.subrange(len - min_keep, len);
            if sum_est(cand) <= budget || keep == 0 {
                cand
            } else {
                shrink_active(cand, budget)
            }
        } else {
            ms.subrange(len - keep, len)
        };
        let a1 = shrink_active(first, budget);
        (a1, ms.subrange(0, sat_sub(len, a1.len() as int)))
    }
}

/// A text as a window may show it: unchanged, trimmed, or a trimmed prefix ending in
/// `…`.
pub open spec fn cut_text(orig: Seq<char>, c: Seq<char>) -> bool {
    ||| c == orig
    ||| c == trim(orig)
    ||| exists|k: int| 0 <= k < trim(orig).len() && c == #[trigger] take_chars(trim(orig), k) + seq!['…']
}

/// A message as the window shows it: same role and images, its text kept or cut.
pub open spec fn kept_or_cut(orig: MessageView, m: MessageView) -> bool {
    m.role == orig.role && m.images == orig.images && cut_text(orig.content, m.content)
}

/// Every message of `ms` is the corresponding one of `orig`, kept or cut.
pub open spec fn all_kept_or_cut(orig: Seq<MessageView>, ms: Seq<MessageView>) -> bool {
    ms.len() == orig.len() && forall|i: int| 0 <= i < ms.len() ==> kept_or_cut(orig[i], #[trigger] ms[i])
}

/// Split history: the active window and the messages to compress into memory.
pub struct WindowPlan {
    pub active: Vec<ChatMessage>,
    pub evicted: Vec<ChatMessage>,
}

/// Window estimate of one message (characters / 4 rounded up, plus 500 per image).
pub fn estimate_message_tokens(m: &ChatMessage) -> (r: u32)
    requires
        msg_est(m@) <= 0xffff_ffff,
    ensures
        r == msg_est(m@),
{
    let chars = char_count(m.content.as_str());
    let images = m.images.len() as u32;
    (((chars as u128) + 3) / 4) as u32 + images * 500
}

/// Window estimate of a message, without limit (see `msg_est`).
fn msg_tokens(m: &ChatMessage) -> (r: u128)
    ensures
        r == msg_est(m@),
{
    let chars = char_count(m.content.as_str());
    let images = m.images.len() as u128;
    ((chars as u128) + 3) / 4 + images * 500
}

/// Sum of the window estimates, saturated at `u128::MAX`.
fn sum_tokens(ms: &Vec<ChatMessage>) -> (r: u128)
    ensures
        r == min_int(sum_est(views(ms@)), u128::MAX as int),
{
    let mut total: u128 = 0;
    let mut i: usize = 0;
    while i < ms.len()
        invariant
            i <= ms.len(),
            total == min_int(sum_est(views(ms@).subrange(0, i as int)), u128::MAX as int),
        decreases ms.len() - i,
    {
        proof {
            assert(views(ms@).subrange(0, i + 1).drop_last() =~= views(ms@).subrange(0, i as int));
            lemma_sum_est_nonneg(views(ms@).subrange(0, i as int));
        }
        let t = msg_tokens(&ms[i]);
        assert(views(ms@).subrange(0, i + 1).last() == ms@[i as int]@);
        total = if total > u128::MAX - t {
            u128::MAX
        } else {
            total + t
        };
        i = i + 1;
    }
    assert(views(ms@).subrange(0, ms.len() as int) =~= views(ms@));
    total
}

/// Trimmed turn text cut to `max_chars` characters with a trailing ellipsis.
pub fn truncate_turn_content(content: &[char], max_chars: usize) -> (r: Vec<char>)
    ensures
        r@ == trunc_turn(content@, max_chars as int),
{
    let t = trim_vec(content);
    if t.len() <= max_chars {
        return t;
    }
    let mut out = slice_of(t.as_slice(), 0, max_chars);
    out.push('…');
    out
}

fn replace_content(active: &mut Vec<ChatMessage>, idx: usize, c: &[char])
    requires
        idx < old(active)@.len(),
    ensures
        final(active)@.len() == old(active)@.len(),
        views(final(active)@) == views(old(active)@).update(
            idx as int,
            with_content(old(active)@[idx as int]@, c@),
        ),
{
    let mut m = active[idx].duplicate();
    m.content = string_of(c);
    active.set(idx, m);
    assert(views(active@) =~= views(old(active)@).update(
        idx as int,
        with_content(old(active)@[idx as int]@, c@),
    ));
}

/// Conservative per-message cap, then shrink until the window fits the budget or a
/// step no longer helps.
fn shrink_oversized_active(active: &mut Vec<ChatMessage>, budget_tokens: u32)
    ensures
        views(final(active)@) == shrink_active(views(old(active)@), budget_tokens as int),
{
    let ghost orig = views(active@);
    let b: usize = if budget_tokens < 2048 {
        2048
    } else {
        budget_tokens as usize
    };
    let v = (b as u64) / 2 * 3;
    let max_chars: usize = if v > usize::MAX as u64 {
        usize::MAX
    } else {
        v as usize
    };
    let mut i: usize = 0;
    while i < active.len()
        invariant
            i <= active.len(),
            active@.len() == orig.len(),
            max_chars == max_chars_for(budget_tokens as int),
            forall|j: int| 0 <= j < i ==> #[trigger] views(active@)[j] == cap_contents(orig, max_chars as int)[j],
            forall|j: int| i <= j < active@.len() ==> #[trigger] views(active@)[j] == orig[j],
        decreases orig.len() - i,
    {
        let c = chars_of(active[i].content.as_str());
        assert(views(active@)[i as int] == orig[i as int]);
        assert(c@ == orig[i as int].content);
        let ghost before = views(active@);
        if c.len() > max_chars {
            let t = truncate_turn_content(c.as_slice(), max_chars);
            replace_content(active, i, t.as_slice());
            assert(views(active@)[i as int] == cap_contents(orig, max_chars as int)[i as int]);
        } else {
            assert(views(active@)[i as int] == cap_contents(orig, max_chars as int)[i as int]);
        }
        assert(forall|j: int| 0 <= j < active@.len() && j != i ==> views(active@)[j] == before[j]);
        i = i + 1;
    }
    assert(views(active@) =~= cap_contents(orig, max_chars as int));
    loop
        invariant
            shrink_loop(views(active@), budget_tokens as int) == shrink_active(orig, budget_tokens as int),
        ensures
            views(active@) == shrink_active(orig, budget_tokens as int),
        decreases if active@.len() >= 2 {
            active@[active@.len() - 2]@.content.len() as int
        } else {
            0
        },
    {
        let total = sum_tokens(active);
        if total <= budget_tokens as u128 || active.len() <= 1 {
            break;
        }
        let idx = active.len() - 2;
        let c = chars_of(active[idx].content.as_str());
        let current = c.len();
        let half = if current / 2 < 2000 {
            2000
        } else {
            current / 2
        };
        let to = if half <= current {
            half
        } else {
            current
        };
        let c2 = truncate_turn_content(c.as_slice(), to);
        assert(views(active@)[idx as int].content == c@);
        if c2.len() >= current {
            break;
        }
        let ghost before = views(active@);
        replace_content(active, idx, c2.as_slice());
        assert(views(active@)[idx as int] == with_content(before[idx as int], c2@));
        assert(views(active@)[idx as int] == active@[idx as int]@);
        assert(active@[idx as int]@.content == c2@);
    }
}

fn window_budget_exec(
    context_limit: i64,
    _summary: &str,
    reserve_output: u32,
    a: WindowAggression,
) -> (r: u32)
    ensures
        r == window_budget(context_limit as int, _summary@, reserve_output as int, a),
{
    let ctx: u32 = (if context_limit < 8192 {
        8192
    } else {
        context_limit
    }) as u32;
    let sb = ((ctx as u64) * 3 / 10) as u32;
    let r = reserve_output as u64;
    let adj64: u64 = match a {
        WindowAggression::Normal => r,
        WindowAggression::Aggressive => (r * 135 + 99) / 100,
        WindowAggression::Emergency => (r * 175 + 99) / 100,
    };
    let adj: u32 = if adj64 > 0xffff_ffff {
        0xffff_ffff
    } else {
        adj64 as u32
    };
    let x = ctx.saturating_sub(adj).saturating_sub(a.system_reserve()).saturating_sub(sb);
    let xx = x as u64;
    match a {
        WindowAggression::Normal => x,
        WindowAggression::Aggressive => (xx * 82 / 100) as u32,
        WindowAggression::Emergency => (xx * 65 / 100) as u32,
    }
}

/// Split history into messages that fit the model window vs turns to compress into memory:
/// the evicted turns are the oldest messages, unchanged; the active ones the rest, each
/// kept or cut (see `law_window_partition`).
pub fn plan_sliding_window_with_aggression(
    messages: Vec<ChatMessage>,
    context_limit: i64,
    summary: &str,
    reserve_output: u32,
    aggression: WindowAggression,
) -> (r: WindowPlan)
    ensures
        ({
            let p = window_plan(
                views(messages@),
                context_limit as int,
                summary@,
                reserve_output as int,
                aggression,
            );
            views(r.active@) == p.0 && views(r.evicted@) == p.1
        }),
        r.active@.len() + r.evicted@.len() == messages@.len(),
        views(r.evicted@) == views(messages@).subrange(0, r.evicted@.len() as int),
        messages@.len() > 0 <==> r.active@.len() > 0,
        forall|i: int|
            0 <= i < r.active@.len() ==> kept_or_cut(
                messages@[r.evicted@.len() + i]@,
                #[trigger] r.active@[i]@,
            ),
{

    let ghost ms = views(messages@);
    let len = messages.len();
    if len == 0 {
        return WindowPlan { active: messages, evicted: Vec::new() };
    }
    if aggression == WindowAggression::Emergency && len > 1 {
        let last = messages_range_vec(&messages, len - 1, len);
        let evicted = messages_range_vec(&messages, 0, len - 1);
        assert(ms.subrange(len - 1, len as int) =~= seq![ms.last()]);
        assert(ms.subrange(0, len - 1) =~= ms.drop_last());
        let r = WindowPlan { active: last, evicted };
        proof {
            lemma_plan_kept(messages@, r.active@, r.evicted@, context_limit as int, summary@, reserve_output as int, aggression);
        }
        return r;
    }
    let budget = window_budget_exec(context_limit, summary, reserve_output, aggression);
    let mut keep: usize = 0;
    let mut used: u128 = 0;
    let mut k = len;
    loop
        invariant
            k <= len,
            len == messages@.len(),
            ms == views(messages@),
            used <= 0xffff_ffff,
            keep + k == len,
            tail_keep(ms, len as int, 0, budget as int) == keep + tail_keep(
                ms,
                k as int,
                used as int,
                budget as int,
            ),
        ensures
            k <= len,
            tail_keep(ms, len as int, 0, budget as int) == keep,
        decreases k,
    {
        if k == 0 {
            break;
        }
        let t = msg_tokens(&messages[k - 1]);
        assert(ms[k - 1] == messages@[k - 1]@);
        let u: u128 = if t > 0xffff_ffff - used {
            0xffff_ffff
        } else {
            used + t
        };
        if k < len && u > budget as u128 {
            assert(tail_keep(ms, k as int, used as int, budget as int) == 0);
            break;
        }
        used = u;
        keep = keep + 1;
        k = k - 1;
    }
    let ma = aggression.min_active_turns();
    let m = if len <= ma {
        len
    } else {
        ma
    };
    let min_keep = if m < 1 {
        1
    } else {
        m
    };
    let mut active: Vec<ChatMessage>;
    if keep < min_keep {
        let cand = messages_range_vec(&messages, len - min_keep, len);
        let ct = sum_tokens(&cand);
        proof {
            lemma_sum_est_nonneg(views(cand@));
        }
        if ct <= budget as u128 || keep == 0 {
            active = cand;
        } else {
            active = cand;
            shrink_oversized_active(&mut active, budget);
        }
    } else {
        active = messages_range_vec(&messages, len - keep, len);
    }
    let ghost first = views(active@);
    proof {
        let start = len - first.len();
        lemma_kept_self(ms.subrange(len - (if keep < min_keep { min_keep } else { keep }) as int, len as int));
        lemma_shrink_active(ms.subrange(len - (if keep < min_keep { min_keep } else { keep }) as int, len as int), ms.subrange(len - (if keep < min_keep { min_keep } else { keep }) as int, len as int), budget as int);
        lemma_shrink_active(ms.subrange(len - (if keep < min_keep { min_keep } else { keep }) as int, len as int), first, budget as int);
    }
    shrink_oversized_active(&mut active, budget);
    let alen = active.len();
    let evicted_len = if len > alen {
        len - alen
    } else {
        0
    };
    let evicted = messages_range_vec(&messages, 0, evicted_len);
    let r = WindowPlan { active, evicted };
    proof {
        lemma_plan_kept(messages@, r.active@, r.evicted@, context_limit as int, summary@, reserve_output as int, aggression);
    }
    r
}

proof fn lemma_plan_kept(
    messages: Seq<ChatMessage>,
    active: Seq<ChatMessage>,
    evicted: Seq<ChatMessage>,
    context_limit: int,
    summary: Seq<char>,
    reserve: int,
    a: WindowAggression,
)
    requires
        ({
            let p = window_plan(views(messages), context_limit, summary, reserve, a);
            views(active) == p.0 && views(evicted) == p.1
        }),
    ensures
        active.len() + evicted.len() == messages.len(),
        views(evicted) == views(messages).subrange(0, evicted.len() as int),
        messages.len() > 0 <==> active.len() > 0,
        forall|i: int|
            0 <= i < active.len() ==> kept_or_cut(messages[evicted.len() + i]@, #[trigger] active[i]@),
{
    let ms = views(messages);
    law_window_partition(ms, context_limit, summary, reserve, a);
    let p = window_plan(ms, context_limit, summary, reserve, a);
    assert(views(active).len() == active.len());
    assert forall|i: int| 0 <= i < active.len() implies kept_or_cut(messages[evicted.len() + i]@, #[trigger] active[i]@) by {
        assert(views(active)[i] == active[i]@);
        assert(ms.subrange(p.1.len() as int, ms.len() as int)[i] == ms[evicted.len() + i]);
    }
}

fn messages_range_vec(ms: &Vec<ChatMessage>, a: usize, b: usize) -> (r: Vec<ChatMessage>)
    requires
        a <= b <= ms@.len(),
    ensures
        views(r@) == views(ms@).subrange(a as int, b as int),
{
    let r = crate::models::messages_range(ms.as_slice(), a, b);
    assert(views(ms@.subrange(a as int, b as int)) =~= views(ms@).subrange(a as int, b as int));
    r
}

proof fn lemma_sum_est_nonneg(ms: Seq<MessageView>)
    ensures
        sum_est(ms) >= 0,
    decreases ms.len(),
{
    if ms.len() > 0 {
        lemma_sum_est_nonneg(ms.drop_last());
    }
}

proof fn lemma_trim_start_clean(s: Seq<char>)
    ensures
        trim_start(s).len() == 0 || !is_ws(trim_start(s)[0]),
    decreases s.len(),
{
    if s.len() > 0 && is_ws(s[0]) {
        lemma_trim_start_clean(s.drop_first());
    }
}

proof fn lemma_trim_end_prefix(s: Seq<char>)
    ensures
        trim_end(s) == s.subrange(0, trim_end(s).len() as int),
        trim_end(s).len() <= s.len(),
        trim_end(s).len() == 0 || !is_ws(trim_end(s).last()),
    decreases s.len(),
{
    if s.len() > 0 && is_ws(s.last()) {
        lemma_trim_end_prefix(s.drop_last());
        assert(s.drop_last().subrange(0, trim_end(s).len() as int) =~= s.subrange(0, trim_end(s).len() as int));
    } else {
        assert(s.subrange(0, s.len() as int) =~= s);
    }
}

/// A trimmed text starts and ends with a non-blank character, so trimming it again
/// changes nothing.
proof fn lemma_trim_clean(s: Seq<char>)
    ensures
        trim(s).len() == 0 || (!is_ws(trim(s)[0]) && !is_ws(trim(s).last())),
        trim(trim(s)) == trim(s),
{
    let a = trim_start(s);
    lemma_trim_start_clean(s);
    lemma_trim_end_prefix(a);
    let t = trim(s);
    if t.len() > 0 {
        assert(t[0] == a[0]);
    }
    lemma_trim_start_of_clean(t);
    lemma_trim_end_of_clean(t);
}

/// Cutting a text the window already shows keeps it one the window may show.
proof fn lemma_cut_trunc(o: Seq<char>, c: Seq<char>, max: int)
    requires
        cut_text(o, c),
        0 <= max,
    ensures
        cut_text(o, trunc_turn(c, max)),
{
    let t = trim(o);
    lemma_trim_clean(o);
    if c == o || c == t {
        assert(trim(c) == t);
        if t.len() > max {
            assert(trunc_turn(c, max) == take_chars(t, max) + seq!['…']);
        }
    } else {
        let k = choose|k: int| 0 <= k < t.len() && c == #[trigger] take_chars(t, k) + seq!['…'];
        assert(c.len() == k + 1);
        assert(c.last() == '…');
        if k >= 1 {
            assert(c[0] == t[0]);
        }
        lemma_trim_start_of_clean(c);
        lemma_trim_end_of_clean(c);
        assert(trim(c) == c);
        if c.len() > max {
            assert(take_chars(c, max) =~= take_chars(t, max));
            assert(trunc_turn(c, max) == take_chars(t, max) + seq!['…']);
        }
    }
}

proof fn lemma_cap_kept(orig: Seq<MessageView>, ms: Seq<MessageView>, max: int)
    requires
        all_kept_or_cut(orig, ms),
        0 <= max,
    ensures
        all_kept_or_cut(orig, cap_contents(ms, max)),
{
    assert forall|i: int| 0 <= i < ms.len() implies kept_or_cut(orig[i], #[trigger] cap_contents(ms, max)[i]) by {
        if ms[i].content.len() > max {
            lemma_cut_trunc(orig[i].content, ms[i].content, max);
        }
    }
}

proof fn lemma_shrink_loop(orig: Seq<MessageView>, ms: Seq<MessageView>, budget: int)
    requires
        all_kept_or_cut(orig, ms),
    ensures
        all_kept_or_cut(orig, shrink_loop(ms, budget)),
    decreases if ms.len() >= 2 {
        ms[ms.len() - 2].content.len() as int
    } else {
        0
    },
{
    if sum_est(ms) <= budget || ms.len() <= 1 {
    } else {
        let idx = ms.len() - 2;
        let c = ms[idx].content;
        let half = if (c.len() as int) / 2 < 2000 {
            2000
        } else {
            (c.len() as int) / 2
        };
        let to = min_int(half, c.len() as int);
        let c2 = trunc_turn(c, to);
        if c2.len() < c.len() {
            let next = ms.update(idx, with_content(ms[idx], c2));
            lemma_cut_trunc(orig[idx].content, c, to);
            assert forall|i: int| 0 <= i < next.len() implies kept_or_cut(orig[i], #[trigger] next[i]) by {
                if i != idx {
                    assert(next[i] == ms[i]);
                }
            }
            lemma_shrink_loop(orig, next, budget);
        }
    }
}

proof fn lemma_shrink_active(orig: Seq<MessageView>, ms: Seq<MessageView>, budget: int)
    requires
        all_kept_or_cut(orig, ms),
    ensures
        all_kept_or_cut(orig, shrink_active(ms, budget)),
{
    lemma_cap_kept(orig, ms, max_chars_for(budget));
    lemma_shrink_loop(orig, cap_contents(ms, max_chars_for(budget)), budget);
}

proof fn lemma_kept_self(ms: Seq<MessageView>)
    ensures
        all_kept_or_cut(ms, ms),
{
}


/// Deterministic memory merge used when the compression call fails.
pub open spec fn fallback_merged(prior: Seq<char>, evicted: Seq<MessageView>, context_limit: int) -> Seq<
    char,
> {
    let facts = collected_facts(trim(prior), evicted);
    let budget = summary_budget(context_limit);
    let target = min_int(compression_target(facts.1.len() as int), budget);
    tail_trimmed(
        merged_memory(fact_block(facts.0, context_limit), budget_trimmed(facts.1, target)),
        summary_cap(context_limit),
    )
}

/// Truncated merge when the compression LLM call fails.
pub fn fallback_merge_memory(prior_memory: &str, evicted: &[ChatMessage], context_limit: i64) -> (r:
    String)
    ensures
        r@ == fallback_merged(prior_memory@, views(evicted@), context_limit as int),
{
    let p = crate::text::trim_string(prior_memory);
    let facts = collect_session_facts(p.as_str(), evicted);
    let budget = summary_budget_chars(context_limit);
    let t = compression_target_chars(char_count(facts.narrative.as_str()));
    let target = if t <= budget {
        t
    } else {
        budget
    };
    let narrative = trim_to_char_budget(facts.narrative.as_str(), target);
    let merged = merge_compressed_memory(&facts, narrative.as_str(), context_limit);
    trim_summary_to_budget(merged.as_str(), context_limit)
}

proof fn lemma_tail_keep_bounds(ms: Seq<MessageView>, n: int, used: int, budget: int)
    requires
        0 <= n <= ms.len(),
    ensures
        0 <= tail_keep(ms, n, used, budget) <= n,
        n == ms.len() && n > 0 ==> tail_keep(ms, n, used, budget) >= 1,
    decreases n,
{
    if n > 0 {
        let t = msg_est(ms[n - 1]);
        let u = if used + t > 0xffff_ffff {
            0xffff_ffff
        } else {
            used + t
        };
        lemma_tail_keep_bounds(ms, n - 1, u, budget);
    }
}

/// The window partitions the history: the evicted turns are exactly the oldest
/// messages, unchanged; the active ones are the rest in order, each with its role and
/// images and its text kept, trimmed or cut to a prefix ending in `…`; a non-empty
/// history keeps at least one active message.
pub proof fn law_window_partition(
    ms: Seq<MessageView>,
    context_limit: int,
    summary: Seq<char>,
    reserve: int,
    a: WindowAggression,
)
    ensures
        ({
            let p = window_plan(ms, context_limit, summary, reserve, a);
            &&& p.0.len() + p.1.len() == ms.len()
            &&& p.1 == ms.subrange(0, p.1.len() as int)
            &&& (ms.len() > 0 <==> p.0.len() >= 1)
            &&& all_kept_or_cut(ms.subrange(p.1.len() as int, ms.len() as int), p.0)
        }),
{
    let len = ms.len() as int;
    if len == 0 {
        assert(ms.subrange(0, 0) =~= ms);
    } else if a == WindowAggression::Emergency && len > 1 {
        assert(ms.drop_last() =~= ms.subrange(0, len - 1));
        assert(ms.subrange(len - 1, len) =~= seq![ms.last()]);
    } else {
        let budget = window_budget(context_limit, summary, reserve, a);
        lemma_tail_keep_bounds(ms, len, 0, budget);
        let keep = tail_keep(ms, len, 0, budget);
        let min_keep = if min_int(len, min_active_of(a)) < 1 {
            1
        } else {
            min_int(len, min_active_of(a))
        };
        let start = if keep < min_keep { len - min_keep } else { len - keep };
        let tail = ms.subrange(start, len);
        lemma_kept_self(tail);
        let first = if keep < min_keep {
            if sum_est(tail) <= budget || keep == 0 {
                tail
            } else {
                lemma_shrink_active(tail, tail, budget);
                shrink_active(tail, budget)
            }
        } else {
            tail
        };
        lemma_shrink_active(tail, first, budget);
        let a1 = shrink_active(first, budget);
        assert(a1.len() == len - start);
        assert(ms.subrange(sat_sub(len, a1.len() as int), len) == tail);
    }
}


/// Instructions for the model that folds evicted turns into rolling memory.
pub const COMPRESS_SYSTEM: &'static str = "You maintain long-term memory for an ongoing chat session.\nYou will receive PRIOR_MEMORY (may be empty) and EVICTED_TURNS (older messages leaving the active window).\nMerge them into UPDATED_MEMORY: one cohesive paragraph keeping essential facts.\nTarget length: about 30% of the combined input (roughly 70% compression). Drop filler and repetition.\nKeep: topics, decisions, names, preferences, open tasks, plan progress. Use the same language as the conversation.\nOutput ONLY the memory text — no markdown, no labels.\n";

/// Characters of evicted history handed to the compressor: 1.4 characters per
/// context token (at least 8192 tokens), never more than 12 000.
pub open spec fn evicted_cap(context_limit: int) -> int {
    let ctx = if context_limit < 8192 { 8192 } else { context_limit };
    min_int(ctx * 14 / 10, 12000)
}

/// One evicted turn as the compressor sees it.
pub open spec fn evicted_turn_line(m: MessageView) -> Seq<char> {
    (if m.role == "assistant"@ { "Assistant"@ } else { "User"@ }) + ": "@ + trunc_turn(m.content, 1200)
        + "\n\n"@
}

/// Lines of `ms[i..]` appended to `acc`; once the text passes `cap` it is cut there
/// and ends in an ellipsis, otherwise the whole text comes back trimmed.
pub open spec fn evicted_text_from(ms: Seq<MessageView>, i: int, acc: Seq<char>, cap: int) -> Seq<char>
    decreases ms.len() - i,
{
    if i >= ms.len() {
        trim(acc)
    } else {
        let next = acc + evicted_turn_line(ms[i]);
        if next.len() > cap {
            take_chars(next, cap) + seq!['…']
        } else {
            evicted_text_from(ms, i + 1, next, cap)
        }
    }
}

/// The last 24 evicted turns, labelled by speaker, within `evicted_cap`.
pub open spec fn evicted_turns_text(ms: Seq<MessageView>, context_limit: int) -> Seq<char> {
    let start = if ms.len() > 24 { ms.len() - 24 } else { 0 };
    evicted_text_from(ms.subrange(start as int, ms.len() as int), 0, Seq::empty(), evicted_cap(context_limit))
}

proof fn lemma_evicted_text_len(ms: Seq<MessageView>, i: int, acc: Seq<char>, cap: int)
    requires
        0 <= acc.len() <= cap,
    ensures
        evicted_text_from(ms, i, acc, cap).len() <= cap + 1,
    decreases ms.len() - i,
{
    if i >= ms.len() {
        crate::text::lemma_trim_len(acc);
    } else {
        let next = acc + evicted_turn_line(ms[i]);
        if next.len() <= cap {
            lemma_evicted_text_len(ms, i + 1, next, cap);
        }
    }
}

/// Render evicted turns for the memory compressor; the text never passes the body cap
/// by more than its closing ellipsis.
pub fn format_evicted_turns(evicted: &[ChatMessage], context_limit: i64) -> (r: String)
    ensures
        r@ == evicted_turns_text(views(evicted@), context_limit as int),
        r@.len() <= evicted_cap(context_limit as int) + 1,
{
    proof {
        let ms = views(evicted@);
        let start = if ms.len() > 24 { ms.len() - 24 } else { 0 };
        lemma_evicted_text_len(ms.subrange(start as int, ms.len() as int), 0, Seq::empty(), evicted_cap(context_limit as int));
    }
    let ctx: i64 = if context_limit < 8192 {
        8192
    } else {
        context_limit
    };
    let cap: usize = if ctx >= 9000 {
        12000
    } else {
        let b = (ctx * 14 / 10) as usize;
        if b < 12000 {
            b
        } else {
            12000
        }
    };
    assert(cap == evicted_cap(context_limit as int));
    let start: usize = if evicted.len() > 24 {
        evicted.len() - 24
    } else {
        0
    };
    let ghost all = views(evicted@);
    let ghost sub = all.subrange(start as int, all.len() as int);
    assert(evicted_turns_text(all, context_limit as int) == evicted_text_from(sub, 0, Seq::empty(), cap as int));
    let mut out: Vec<char> = Vec::new();
    let mut i: usize = start;
    while i < evicted.len()
        invariant
            start <= i <= evicted.len(),
            all == views(evicted@),
            sub == all.subrange(start as int, all.len() as int),
            cap == evicted_cap(context_limit as int),
            cap <= 12000,
            evicted_turns_text(all, context_limit as int) == evicted_text_from(sub, 0, Seq::empty(), cap as int),
            out.len() <= cap,
            evicted_text_from(sub, 0, Seq::empty(), cap as int) == evicted_text_from(
                sub,
                i - start,
                out@,
                cap as int,
            ),
        decreases evicted.len() - i,
    {
        let ghost before = out@;
        let is_assistant = str_eq(evicted[i].role.as_str(), "assistant");
        if is_assistant {
            append_str(&mut out, "Assistant");
        } else {
            append_str(&mut out, "User");
        }
        append_str(&mut out, ": ");
        let c = chars_of(evicted[i].content.as_str());
        let t = truncate_turn_content(c.as_slice(), 1200);
        append_chars(&mut out, t.as_slice());
        append_str(&mut out, "\n\n");
        assert(sub[i - start] == evicted@[i as int]@);
        assert(out@ == before + evicted_turn_line(sub[i - start]));
        if out.len() > cap {
            let mut trimmed = take_vec(out.as_slice(), cap);
            trimmed.push('…');
            assert((i - start) < sub.len());
            assert(evicted_text_from(sub, i - start, before, cap as int) == trimmed@);
            return string_of(trimmed.as_slice());
        }
        i = i + 1;
    }
    let t = trim_vec(out.as_slice());
    string_of(t.as_slice())
}

/// What goes to the compressor for a batch of evicted turns: the user message and
/// the target length (30% of prior memory plus turns, within the summary budget).
pub open spec fn evicted_compression_request(prior: Seq<char>, evicted: Seq<MessageView>, context_limit: int) -> (
    Seq<char>,
    int,
) {
    let p = trim(prior);
    let turns = evicted_turns_text(evicted, context_limit);
    let target = min_int(compression_target((p.len() + turns.len()) as int), summary_budget(context_limit));
    let body = "PRIOR_MEMORY:\n"@ + (if p.len() == 0 { "(empty)"@ } else { p }) + "\n\nEVICTED_TURNS:\n"@
        + turns + "\n\nTARGET_LENGTH: ~"@ + crate::text::decimal(target as nat)
        + " characters (~30% of combined input)"@;
    (body, target)
}

/// The compressor request for evicted turns, `None` when nothing was evicted (the
/// memory then stays as it is).
pub fn evicted_compression_body(prior_memory: &str, evicted: &[ChatMessage], context_limit: i64) -> (r:
    Option<(String, usize)>)
    ensures
        evicted@.len() == 0 ==> r is None,
        evicted@.len() > 0 ==> (r matches Some((body, target)) && (body@, target as int)
            == evicted_compression_request(prior_memory@, views(evicted@), context_limit as int)),
{
    if evicted.len() == 0 {
        return None;
    }
    let pv = chars_of(prior_memory);
    let p = trim_vec(pv.as_slice());
    let turns = format_evicted_turns(evicted, context_limit);
    let tv = chars_of(turns.as_str());
    let combined: u128 = p.len() as u128 + tv.len() as u128;
    let t0: u128 = (combined * 3 + 9) / 10;
    let t: u128 = if t0 < 128 {
        128
    } else {
        t0
    };
    assert(t == compression_target((p@.len() + tv@.len()) as int));
    let budget = summary_budget_chars(context_limit);
    let target: usize = if t <= budget as u128 {
        t as usize
    } else {
        budget
    };
    let mut out: Vec<char> = Vec::new();
    append_str(&mut out, "PRIOR_MEMORY:\n");
    if p.len() == 0 {
        append_str(&mut out, "(empty)");
    } else {
        append_chars(&mut out, p.as_slice());
    }
    append_str(&mut out, "\n\nEVICTED_TURNS:\n");
    append_chars(&mut out, tv.as_slice());
    append_str(&mut out, "\n\nTARGET_LENGTH: ~");
    crate::text::push_decimal(&mut out, target as u64);
    append_str(&mut out, " characters (~30% of combined input)");
    Some((string_of(out.as_slice()), target))
}

/// Rolling memory after the compressor answered: the facts of prior memory and
/// evicted turns, then the compressed narrative, cut to the summary cap.
pub open spec fn evicted_compressed_memory(
    prior: Seq<char>,
    evicted: Seq<MessageView>,
    compressed: Seq<char>,
    context_limit: int,
) -> Seq<char> {
    let facts = collected_facts(trim(prior), evicted);
    tail_trimmed(merged_memory(fact_block(facts.0, context_limit), compressed), summary_cap(context_limit))
}

/// Merge the compressor's answer with the facts it must not lose.
pub fn finish_evicted_compression(
    prior_memory: &str,
    evicted: &[ChatMessage],
    compressed: &str,
    context_limit: i64,
) -> (r: String)
    ensures
        r@ == evicted_compressed_memory(prior_memory@, views(evicted@), compressed@, context_limit as int),
{
    let p = crate::text::trim_string(prior_memory);
    let facts = collect_session_facts(p.as_str(), evicted);
    let merged = merge_compressed_memory(&facts, compressed, context_limit);
    trim_summary_to_budget(merged.as_str(), context_limit)
}

} // verus!
