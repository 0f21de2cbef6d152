//! Context degrade ladder — preflight and progressive payload reduction before/at failure.
use vstd::prelude::*;

use crate::models::{views, ChatMessage, MessageView};
use crate::sliding_window::WindowAggression;
use crate::text::{
    append_chars, append_str, chars_of, contains, contains_str, find, find_exec, is_blank,
    is_blank_exec, lemma_find_from_sound, matches_at, slice_of, str_eq, string_of, take_chars,
    take_vec,
};
use crate::token_budget::{preflight_input_tokens, preflight_tokens};

verus! {

/// Per-block character cap when tool results are summarized.
pub const TOOL_SUMMARY_PER_BLOCK: usize = 800;

/// Total character cap across all summarized tool blocks.
pub const TOOL_SUMMARY_TOTAL: usize = 4000;

/// Progressive degrade levels (cumulative effects from level 3 upward).
#[derive(Debug, Clone, Copy, PartialEq, Eq, Structural, PartialOrd, Ord)]
pub enum DegradeLevel {
    Normal,
    Aggressive,
    Emergency,
    NoRetrieved,
    ToolSummaryOnly,
    SingleTurn,
    Anchor,
}

/// Rank of a level on the ladder (0 = normal, 6 = anchor).
pub open spec fn rank(l: DegradeLevel) -> int {
    match l {
        DegradeLevel::Normal => 0,
        DegradeLevel::Aggressive => 1,
        DegradeLevel::Emergency => 2,
        DegradeLevel::NoRetrieved => 3,
        DegradeLevel::ToolSummaryOnly => 4,
        DegradeLevel::SingleTurn => 5,
        DegradeLevel::Anchor => 6,
    }
}

/// Level of a given rank, if any.
pub open spec fn level_of(v: int) -> Option<DegradeLevel> {
    if v == 0 {
        Some(DegradeLevel::Normal)
    } else if v == 1 {
        Some(DegradeLevel::Aggressive)
    } else if v == 2 {
        Some(DegradeLevel::Emergency)
    } else if v == 3 {
        Some(DegradeLevel::NoRetrieved)
    } else if v == 4 {
        Some(DegradeLevel::ToolSummaryOnly)
    } else if v == 5 {
        Some(DegradeLevel::SingleTurn)
    } else if v == 6 {
        Some(DegradeLevel::Anchor)
    } else {
        None
    }
}

pub open spec fn label_of(l: DegradeLevel) -> Seq<char> {
    match l {
        DegradeLevel::Normal => "normal window"@,
        DegradeLevel::Aggressive => "aggressive window"@,
        DegradeLevel::Emergency => "emergency window"@,
        DegradeLevel::NoRetrieved => "without retrieved memory"@,
        DegradeLevel::ToolSummaryOnly => "tool results summarized"@,
        DegradeLevel::SingleTurn => "single-turn context"@,
        DegradeLevel::Anchor => "anchor mode"@,
    }
}

impl DegradeLevel {
    pub fn from_u8(v: u8) -> (r: Option<DegradeLevel>)
        ensures
            r == level_of(v as int),
    {
        match v {
            0 => Some(DegradeLevel::Normal),
            1 => Some(DegradeLevel::Aggressive),
            2 => Some(DegradeLevel::Emergency),
            3 => Some(DegradeLevel::NoRetrieved),
            4 => Some(DegradeLevel::ToolSummaryOnly),
            5 => Some(DegradeLevel::SingleTurn),
            6 => Some(DegradeLevel::Anchor),
            _ => None,
        }
    }

    pub fn as_u8(self) -> (r: u8)
        ensures
            r as int == rank(self),
    {
        match self {
            DegradeLevel::Normal => 0,
            DegradeLevel::Aggressive => 1,
            DegradeLevel::Emergency => 2,
            DegradeLevel::NoRetrieved => 3,
            DegradeLevel::ToolSummaryOnly => 4,
            DegradeLevel::SingleTurn => 5,
            DegradeLevel::Anchor => 6,
        }
    }

    /// The next rung of the ladder; `None` after anchor mode.
    pub fn next(self) -> (r: Option<DegradeLevel>)
        ensures
            r == level_of(rank(self) + 1),
    {
        DegradeLevel::from_u8(self.as_u8() + 1)
    }

    pub fn label(self) -> (r: &'static str)
        ensures
            r@ == label_of(self),
    {
        match self {
            DegradeLevel::Normal => "normal window",
            DegradeLevel::Aggressive => "aggressive window",
            DegradeLevel::Emergency => "emergency window",
            DegradeLevel::NoRetrieved => "without retrieved memory",
            DegradeLevel::ToolSummaryOnly => "tool results summarized",
            DegradeLevel::SingleTurn => "single-turn context",
            DegradeLevel::Anchor => "anchor mode",
        }
    }

    pub fn window_aggression(self) -> (r: WindowAggression)
        ensures
            rank(self) == 0 ==> r == WindowAggression::Normal,
            rank(self) == 1 ==> r == WindowAggression::Aggressive,
            rank(self) >= 2 ==> r == WindowAggression::Emergency,
    {
        match self {
            DegradeLevel::Normal => WindowAggression::Normal,
            DegradeLevel::Aggressive => WindowAggression::Aggressive,
            _ => WindowAggression::Emergency,
        }
    }

    pub fn omit_retrieved(self) -> (r: bool)
        ensures
            r == (rank(self) >= 3),
    {
        self.as_u8() >= 3
    }

    pub fn tool_summary_only(self) -> (r: bool)
        ensures
            r == (rank(self) >= 4),
    {
        self.as_u8() >= 4
    }

    pub fn single_turn(self) -> (r: bool)
        ensures
            r == (rank(self) >= 5),
    {
        self.as_u8() >= 5
    }

    pub fn anchor_mode(self) -> (r: bool)
        ensures
            r == (rank(self) >= 6),
    {
        self.as_u8() >= 6
    }
}

/// Every level is recovered from its rank.
pub proof fn law_level_rank_roundtrip(l: DegradeLevel)
    ensures
        level_of(rank(l)) == Some(l),
        0 <= rank(l) <= 6,
{
}

/// Degrade effects are cumulative: a higher rung keeps every effect of a lower one.
pub proof fn law_degrade_effects_cumulative(a: DegradeLevel, b: DegradeLevel)
    requires
        rank(a) <= rank(b),
    ensures
        rank(a) >= 3 ==> rank(b) >= 3,
        rank(a) >= 4 ==> rank(b) >= 4,
        rank(a) >= 5 ==> rank(b) >= 5,
        rank(a) >= 6 ==> rank(b) >= 6,
{
}

/// The ladder climbs one rung at a time and ends at anchor mode.
pub proof fn law_ladder_next(l: DegradeLevel)
    ensures
        rank(l) < 6 ==> (level_of(rank(l) + 1) matches Some(n) && rank(n) == rank(l) + 1),
        rank(l) == 6 ==> level_of(rank(l) + 1) is None,
{
}

/// Preflight fires when the padded estimate exceeds 88% of the (at least 8192-token) window.
pub open spec fn needs_degrade(input_estimate: int, context_limit: int) -> bool {
    let limit = if context_limit < 8192 {
        8192
    } else {
        context_limit
    };
    preflight_tokens(input_estimate) * 100 > limit * 88
}

pub fn preflight_needs_degrade(input_estimate: u32, context_limit: i64) -> (r: bool)
    ensures
        r == needs_degrade(input_estimate as int, context_limit as int),
{
    let limit: i128 = if context_limit < 8192 {
        8192
    } else {
        context_limit as i128
    };
    let adjusted = preflight_input_tokens(input_estimate) as i128;
    adjusted * 100 > limit * 88
}

// ------------------------------------------------------------------
// Tool-result collapsing
// ------------------------------------------------------------------

/// `[Tool result:` marker that opens a tool block.
pub open spec fn tool_marker() -> Seq<char> {
    "[Tool result:"@
}

/// A block longer than `max_chars` keeps its head and gets a truncation mark.
pub open spec fn truncated_block(block: Seq<char>, max_chars: int) -> Seq<char> {
    if block.len() <= max_chars {
        block
    } else {
        take_chars(block, max_chars) + "… [truncated]"@
    }
}

/// End of the tool block that starts `r` (it starts with the marker).
pub open spec fn tool_block_end(r: Seq<char>) -> int {
    match find(r, "\n\n[Tool result:"@) {
        Some(i) => i + 2,
        None => match find(r, "\n\n---"@) {
            Some(i) => i,
            None => r.len() as int,
        },
    }
}

/// Collapse every tool block of `rest`; `total` counts summary characters emitted so far.
pub open spec fn collapse_from(rest: Seq<char>, total: int) -> Seq<char>
    decreases rest.len(),
{
    match find(rest, tool_marker()) {
        None => rest,
        Some(idx) => {
            let r2 = rest.subrange(idx, rest.len() as int);
            let end = tool_block_end(r2);
            let summary = truncated_block(r2.subrange(0, end), 800);
            let t2 = total + summary.len();
            if t2 > 4000 {
                rest.subrange(0, idx) + "[Tool results summarized — use read_file for details]"@
            } else if 0 < end <= r2.len() && 0 <= idx <= rest.len() {
                rest.subrange(0, idx) + summary + (if end < r2.len() {
                    "\n\n"@
                } else {
                    Seq::<char>::empty()
                }) + collapse_from(r2.subrange(end, r2.len() as int), t2)
            } else {
                rest
            }
        },
    }
}

/// Truncated copy of a tool block.
pub fn truncate_block(block: &[char], max_chars: usize) -> (r: Vec<char>)
    ensures
        r@ == truncated_block(block@, max_chars as int),
{
    if block.len() <= max_chars {
        return slice_of(block, 0, block.len());
    }
    let mut head = take_vec(block, max_chars);
    append_str(&mut head, "… [truncated]");
    head
}

/// The block end is positive whenever the text starts with the marker.
proof fn lemma_block_end_positive(r: Seq<char>)
    requires
        starts_with_marker(r),
    ensures
        0 < tool_block_end(r) <= r.len(),
{
    reveal_strlit("[Tool result:");
    reveal_strlit("\n\n[Tool result:");
    reveal_strlit("\n\n---");
    lemma_find_from_sound(r, "\n\n[Tool result:"@, 0);
    lemma_find_from_sound(r, "\n\n---"@, 0);
    match find(r, "\n\n[Tool result:"@) {
        Some(i) => {},
        None => {
            match find(r, "\n\n---"@) {
                Some(i) => {
                    assert(r.subrange(i, i + 5)[0] == '\n');
                    assert(r[0] == r.subrange(0, 13)[0]);
                },
                None => {
                    assert(r.len() >= 13);
                },
            }
        },
    }
}

pub open spec fn starts_with_marker(r: Seq<char>) -> bool {
    r.len() >= 13 && r.subrange(0, 13) == tool_marker()
}

/// Collapse oversized tool-result blocks: each block is cut to 800 characters and,
/// once the summaries pass 4000 characters in total, the rest is replaced by a note.
pub fn collapse_tool_results(content: &str) -> (r: String)
    ensures
        r@ == collapse_from(content@, 0),
{
    let text = chars_of(content);
    let marker = chars_of("[Tool result:");
    let next_marker = chars_of("\n\n[Tool result:");
    let rule = chars_of("\n\n---");
    let mut out: Vec<char> = Vec::new();
    let mut start: usize = 0;
    let mut total: usize = 0;
    assert(text@.subrange(0, text.len() as int) =~= text@);
    loop
        invariant
            start <= text.len(),
            total <= 4000,
            marker@ == tool_marker(),
            next_marker@ == "\n\n[Tool result:"@,
            rule@ == "\n\n---"@,
            out@ + collapse_from(text@.subrange(start as int, text.len() as int), total as int)
                == collapse_from(content@, 0),
            text@ == content@,
        decreases text.len() - start,
    {
        let rest = slice_of(text.as_slice(), start, text.len());
        match find_exec(rest.as_slice(), marker.as_slice()) {
            None => {
                append_chars(&mut out, rest.as_slice());
                return string_of(out.as_slice());
            },
            Some(idx) => {
                proof {
                    lemma_find_from_sound(rest@, marker@, 0);
                    reveal_strlit("[Tool result:");
                }
                let r2 = slice_of(rest.as_slice(), idx, rest.len());
                proof {
                    assert(r2@.subrange(0, 13) =~= rest@.subrange(idx as int, idx + 13));
                    lemma_block_end_positive(r2@);
                }
                let end = match find_exec(r2.as_slice(), next_marker.as_slice()) {
                    Some(i) => {
                        proof {
                            lemma_find_from_sound(r2@, next_marker@, 0);
                        }
                        i + 2
                    },
                    None => match find_exec(r2.as_slice(), rule.as_slice()) {
                        Some(i) => i,
                        None => r2.len(),
                    },
                };
                let block = slice_of(r2.as_slice(), 0, end);
                let summary = truncate_block(block.as_slice(), 800);
                let head = slice_of(rest.as_slice(), 0, idx);
                if summary.len() > 4000 - total {
                    append_chars(&mut out, head.as_slice());
                    append_str(&mut out, "[Tool results summarized — use read_file for details]");
                    return string_of(out.as_slice());
                }
                total = total + summary.len();
                append_chars(&mut out, head.as_slice());
                append_chars(&mut out, summary.as_slice());
                if end < r2.len() {
                    append_str(&mut out, "\n\n");
                }
                proof {
                    assert(text@.subrange(start + idx + end, text.len() as int) =~= r2@.subrange(
                        end as int,
                        r2.len() as int,
                    ));
                }
                start = start + idx + end;
            },
        }
    }
}

// ------------------------------------------------------------------
// Message-level transforms
// ------------------------------------------------------------------

/// Message kept by single-turn mode: a user turn with text or images.
pub open spec fn is_live_user(m: MessageView) -> bool {
    m.role == "user"@ && (!is_blank(m.content) || m.images.len() > 0)
}

/// Index of the last live user message in `ms[..n]`.
pub open spec fn last_live_user(ms: Seq<MessageView>, n: int) -> Option<int>
    decreases n,
{
    if n <= 0 {
        None
    } else if is_live_user(ms[n - 1]) {
        Some(n - 1)
    } else {
        last_live_user(ms, n - 1)
    }
}

/// The anchored content of the kept message.
pub open spec fn anchored(content: Seq<char>, anchor: Seq<char>) -> Seq<char> {
    if contains(content, "## Task anchor"@) {
        content
    } else {
        "## Task anchor\n"@ + anchor + "\n\n---\n\n"@ + content
    }
}

/// `a` is `b` after the tool-summary step of `level`.
pub open spec fn degraded_copy(a: MessageView, b: MessageView, level: DegradeLevel) -> bool {
    &&& a.role == b.role
    &&& a.images == b.images
    &&& a.content == summarized_content(b.content, level)
}

/// Content after the tool-summary step.
pub open spec fn summarized_content(content: Seq<char>, level: DegradeLevel) -> Seq<char> {
    if rank(level) >= 4 && contains(content, tool_marker()) {
        collapse_from(content, 0)
    } else {
        content
    }
}

fn summarize_message(m: &ChatMessage, level: DegradeLevel) -> (r: ChatMessage)
    ensures
        r@.role == m@.role,
        r@.images == m@.images,
        r@.content == summarized_content(m@.content, level),
{
    let mut d = m.duplicate();
    if level.tool_summary_only() {
        let c = chars_of(d.content.as_str());
        if contains_str(c.as_slice(), "[Tool result:") {
            d.content = collapse_tool_results(m.content.as_str());
        }
    }
    d
}

/// Apply level-specific transforms before sliding-window planning.
///
/// From level 4 tool blocks are summarized; from level 5 only the last user turn
/// with text or images survives; at level 6 a non-blank anchor is prepended to it.
pub fn apply_message_degrade(
    messages: Vec<ChatMessage>,
    level: DegradeLevel,
    anchor_hint: Option<&str>,
) -> (r: Vec<ChatMessage>)
    ensures
        rank(level) < 5 ==> r@.len() == messages@.len(),
        rank(level) < 5 ==> forall|i: int|
            0 <= i < r@.len() ==> degraded_copy(#[trigger] r@[i]@, messages@[i]@, level),
        rank(level) >= 5 ==> match last_live_user(views(messages@), messages@.len() as int) {
            None => r@.len() == 0,
            Some(k) => r@.len() == 1 && r@[0]@.role == messages@[k]@.role && r@[0]@.images
                == messages@[k]@.images && r@[0]@.content == (match anchor_hint {
                Some(a) => if rank(level) >= 6 && !is_blank(a@) {
                    anchored(summarized_content(messages@[k]@.content, level), a@)
                } else {
                    summarized_content(messages@[k]@.content, level)
                },
                None => summarized_content(messages@[k]@.content, level),
            }),
        },
{
    if !level.single_turn() {
        let mut out: Vec<ChatMessage> = Vec::new();
        let mut i: usize = 0;
        while i < messages.len()
            invariant
                i <= messages.len(),
                out@.len() == i,
                forall|j: int|
                    0 <= j < i ==> degraded_copy(#[trigger] out@[j]@, messages@[j]@, level),
            decreases messages.len() - i,
        {
            let s = summarize_message(&messages[i], level);
            out.push(s);
            i = i + 1;
        }
        return out;
    }
    let mut k = messages.len();
    while k > 0
        invariant
            k <= messages.len(),
            rank(level) >= 5,
            last_live_user(views(messages@), messages@.len() as int) == last_live_user(
                views(messages@),
                k as int,
            ),
        decreases k,
    {
        let m = &messages[k - 1];
        let c = chars_of(m.content.as_str());
        if str_eq(m.role.as_str(), "user") && (!is_blank_exec(c.as_slice())
            || m.images.len() > 0) {
            let mut s = summarize_message(m, level);
            if level.anchor_mode() {
                match anchor_hint {
                    Some(a) => {
                        let av = chars_of(a);
                        if !is_blank_exec(av.as_slice()) {
                            let sc = chars_of(s.content.as_str());
                            if !contains_str(sc.as_slice(), "## Task anchor") {
                                let mut nc: Vec<char> = Vec::new();
                                append_str(&mut nc, "## Task anchor\n");
                                append_chars(&mut nc, av.as_slice());
                                append_str(&mut nc, "\n\n---\n\n");
                                append_chars(&mut nc, sc.as_slice());
                                s.content = string_of(nc.as_slice());
                            }
                        }
                    },
                    None => {},
                }
            }
            let mut out: Vec<ChatMessage> = Vec::new();
            out.push(s);
            return out;
        }
        k = k - 1;
    }
    Vec::new()
}

} // verus!
