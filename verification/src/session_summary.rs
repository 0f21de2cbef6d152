//! Rolling dialogue memory injected into the chat system prompt.
use vstd::prelude::*;

use crate::text::{
    append_chars, append_str, chars_of, find, find_exec, is_blank, is_blank_exec, lemma_found,
    push_chars, slice_of, starts_with, starts_with_str, string_of, trim, trim_vec,
};

verus! {

/// Share of the context window (in tokens) reserved for rolling memory: 15%.
/// At four characters per token that is `limit * 3 / 5` characters.
pub open spec fn summary_budget(context_limit: int) -> int {
    let limit = if context_limit > 0 {
        context_limit
    } else {
        8192
    };
    if limit * 3 / 5 > usize::MAX {
        usize::MAX as int
    } else {
        limit * 3 / 5
    }
}

/// Character budget of rolling memory for a context window.
pub fn summary_budget_chars(context_limit: i64) -> (r: usize)
    ensures
        r == summary_budget(context_limit as int),
{
    let limit: i128 = if context_limit > 0 {
        context_limit as i128
    } else {
        8192
    };
    let b = limit * 3 / 5;
    if b > usize::MAX as i128 {
        usize::MAX
    } else {
        b as usize
    }
}

/// Trimmed text cut to `max` characters by keeping its tail behind a leading `…`.
pub open spec fn tail_trimmed(s: Seq<char>, max: int) -> Seq<char> {
    let t = trim(s);
    if t.len() <= max {
        t
    } else {
        let keep = if max >= 1 {
            max - 1
        } else {
            0
        };
        seq!['…'] + t.subrange(t.len() - keep, t.len() as int)
    }
}

/// Tail-trimmed copy of a character run.
fn tail_trim_vec(h: &[char], max_chars: usize) -> (r: Vec<char>)
    ensures
        r@ == tail_trimmed(h@, max_chars as int),
{
    let t = trim_vec(h);
    if t.len() <= max_chars {
        return t;
    }
    let keep = if max_chars >= 1 {
        max_chars - 1
    } else {
        0
    };
    let mut out: Vec<char> = Vec::new();
    out.push('…');
    let tail = slice_of(t.as_slice(), t.len() - keep, t.len());
    append_chars(&mut out, tail.as_slice());
    out
}

/// A tail-trimmed text fits its budget.
pub proof fn lemma_tail_trimmed_len(s: Seq<char>, max: int)
    requires
        max >= 1,
    ensures
        tail_trimmed(s, max).len() <= max,
{
}

/// Trimmed text cut to `max` characters. A text that opens with a fact block
/// (`## FACTS …` up to the first blank line) keeps that block whole when it leaves room,
/// and only the narrative after it is cut, keeping its tail behind `…`; any other text
/// keeps its tail behind `…`.
pub open spec fn budget_trimmed(s: Seq<char>, max: int) -> Seq<char> {
    let t = trim(s);
    let sep = find(t, "\n\n"@);
    if t.len() <= max {
        t
    } else if starts_with(t, "## FACTS"@) && sep is Some && sep->0 + 3 <= max {
        let p = sep->0;
        t.subrange(0, p) + "\n\n"@ + tail_trimmed(t.subrange(p + 2, t.len() as int), max - p - 2)
    } else {
        tail_trimmed(t, max)
    }
}

/// A budget-trimmed text fits its budget.
pub proof fn lemma_budget_trimmed_len(s: Seq<char>, max: int)
    requires
        max >= 1,
    ensures
        budget_trimmed(s, max).len() <= max,
{
    reveal_strlit("\n\n");
    let t = trim(s);
    if t.len() > max && starts_with(t, "## FACTS"@) {
        match find(t, "\n\n"@) {
            Some(p) => {
                lemma_found(t, "\n\n"@, p);
                if p + 3 <= max {
                    lemma_tail_trimmed_len(t.subrange(p + 2, t.len() as int), max - p - 2);
                }
            },
            None => {},
        }
    }
}

/// Cut a text to a character budget, keeping a leading fact block and the most recent narrative.
pub fn trim_to_char_budget(s: &str, max_chars: usize) -> (r: String)
    ensures
        r@ == budget_trimmed(s@, max_chars as int),
        max_chars >= 1 ==> r@.len() <= max_chars,
{
    proof {
        if max_chars >= 1 {
            lemma_budget_trimmed_len(s@, max_chars as int);
        }
        reveal_strlit("\n\n");
    }
    let v = chars_of(s);
    let t = trim_vec(v.as_slice());
    if t.len() <= max_chars {
        return string_of(t.as_slice());
    }
    if starts_with_str(t.as_slice(), "## FACTS") {
        let sep = chars_of("\n\n");
        match find_exec(t.as_slice(), sep.as_slice()) {
            Some(p) => {
                proof {
                    lemma_found(t@, sep@, p as int);
                }
                if p < max_chars && max_chars - p >= 3 {
                    let mut out = slice_of(t.as_slice(), 0, p);
                    out.push('\n');
                    out.push('\n');
                    let rest = slice_of(t.as_slice(), p + 2, t.len());
                    let tail = tail_trim_vec(rest.as_slice(), max_chars - p - 2);
                    let ghost head = out@;
                    append_chars(&mut out, tail.as_slice());
                    assert(head =~= t@.subrange(0, p as int) + "\n\n"@);
                    return string_of(out.as_slice());
                }
            },
            None => {},
        }
    }
    let r = tail_trim_vec(t.as_slice(), max_chars);
    string_of(r.as_slice())
}

/// The rolling-memory budget, never below 256 characters.
pub open spec fn summary_cap(context_limit: int) -> int {
    let b = summary_budget(context_limit);
    if b < 256 {
        256
    } else {
        b
    }
}

/// Trim a summary to the rolling-memory budget of the window.
pub fn trim_summary_to_budget(summary: &str, context_limit_tokens: i64) -> (r: String)
    ensures
        r@ == tail_trimmed(summary@, summary_cap(context_limit_tokens as int)),
        r@.len() <= summary_cap(context_limit_tokens as int),
{
    let b = summary_budget_chars(context_limit_tokens);
    let cap = if b < 256 {
        256
    } else {
        b
    };
    let v = chars_of(summary);
    let r = tail_trim_vec(v.as_slice(), cap);
    string_of(r.as_slice())
}

/// Inject compressed long-term memory into the system prompt.
pub fn append_memory_to_system(
    system: &mut String,
    session_memory: Option<&str>,
    context_limit_tokens: i64,
)
    ensures
        match session_memory {
            Some(m) if !is_blank(m@) => final(system)@ == old(system)@ + (if old(system)@.len() > 0 {
                "\n\n"@
            } else {
                Seq::<char>::empty()
            }) + "Long-term conversation memory (compressed summary of earlier turns in this chat):\n"@
                + tail_trimmed(m@, summary_cap(context_limit_tokens as int)),
            _ => final(system)@ == old(system)@,
        },
{
    match session_memory {
        Some(m) => {
            let mv = chars_of(m);
            if is_blank_exec(mv.as_slice()) {
                return;
            }
            let ghost s0 = system@;
            if !system.as_str().is_empty() {
                system.append("\n\n");
            }
            system.append(
                "Long-term conversation memory (compressed summary of earlier turns in this chat):\n",
            );
            let t = trim_summary_to_budget(m, context_limit_tokens);
            system.append(t.as_str());
        },
        None => {},
    }
}

} // verus!
