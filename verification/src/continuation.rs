//! Auto-continuation of cut-off completions: where the cut happened, what to ask next,
//! and how the parts are stitched back together.
use vstd::prelude::*;

use crate::models::{views, ChatMessage, CompletionResult, MessageView, TokenUsage};
use crate::text::{
    append_chars, append_str, chars_of, contains, contains_str, is_blank, is_blank_exec, lines,
    lines_vec, seq_eq_exec, slice_of, starts_with, starts_with_str, string_of, take_chars, take_vec,
    trim, trim_start, trim_start_vec, trim_vec, vv,
};

verus! {

/// Characters of the cut-off text re-sent as the assistant turn.
pub const CONTINUATION_TAIL_CHARS: usize = 6_000;

/// How far back an overlap between two parts is looked for.
pub const STITCH_OVERLAP_CHARS: usize = 2_000;

/// Most continuations of one completion.
pub const MAX_AUTO_CONTINUES: usize = 3;

/// Where a cut-off text stopped.
#[derive(Debug, Clone)]
pub struct ContinuationContext {
    pub inside_fence: bool,
    pub fence_language: Option<String>,
    pub last_line: String,
}

/// At most `max` trailing characters.
pub open spec fn tail_of(s: Seq<char>, max: int) -> Seq<char> {
    if s.len() <= max {
        s
    } else {
        s.subrange(s.len() - max, s.len() as int)
    }
}

/// At most `max_chars` trailing characters of a text.
pub fn tail_chars(s: &str, max_chars: usize) -> (r: String)
    ensures
        r@ == tail_of(s@, max_chars as int),
{
    let v = chars_of(s);
    if v.len() <= max_chars {
        return string_of(v.as_slice());
    }
    let t = slice_of(v.as_slice(), v.len() - max_chars, v.len());
    string_of(t.as_slice())
}

/// Fence state after the first `n` lines: inside a fence, and the language of the last
/// opened one.
pub open spec fn fence_state(ls: Seq<Seq<char>>, n: int) -> (bool, Option<Seq<char>>)
    decreases n,
{
    if n <= 0 || n > ls.len() {
        (false, None)
    } else {
        let prev = fence_state(ls, n - 1);
        let t = trim_start(ls[n - 1]);
        if starts_with(t, "```"@) {
            if !prev.0 {
                let lang = trim(t.subrange(3, t.len() as int));
                (true, if lang.len() == 0 {
                    None
                } else {
                    Some(lang)
                })
            } else {
                (false, prev.1)
            }
        } else {
            prev
        }
    }
}

/// Where a text stops: inside an open fence or not, the fence language, the last line.
pub open spec fn cut_point(text: Seq<char>) -> (bool, Option<Seq<char>>, Seq<char>) {
    let ls = lines(text);
    let st = fence_state(ls, ls.len() as int);
    (st.0, st.1, if ls.len() > 0 {
        ls.last()
    } else {
        Seq::empty()
    })
}

/// View of a continuation context.
pub open spec fn context_view(c: ContinuationContext) -> (bool, Option<Seq<char>>, Seq<char>) {
    (
        c.inside_fence,
        match c.fence_language {
            Some(l) => Some(l@),
            None => None,
        },
        c.last_line@,
    )
}

/// Where a cut-off text stopped.
pub fn continuation_context(text: &str) -> (r: ContinuationContext)
    ensures
        context_view(r) == cut_point(text@),
{
    let t = chars_of(text);
    let ls = lines_vec(t.as_slice());
    let mut inside = false;
    let mut lang: Option<Vec<char>> = None;
    let mut i: usize = 0;
    proof {
        reveal_strlit("```");
    }
    while i < ls.len()
        invariant
            i <= ls.len(),
            vv(ls@) == lines(text@),
            inside == fence_state(lines(text@), i as int).0,
            (match lang {
                Some(l) => Some(l@),
                None => None,
            }) == fence_state(lines(text@), i as int).1,
        decreases ls.len() - i,
    {
        assert(vv(ls@)[i as int] == ls@[i as int]@);
        proof {
            reveal_strlit("```");
        }
        let tl = trim_start_vec(ls[i].as_slice());
        if starts_with_str(tl.as_slice(), "```") {
            inside = !inside;
            if inside {
                let rest = slice_of(tl.as_slice(), 3, tl.len());
                let l = trim_vec(rest.as_slice());
                lang = if l.len() == 0 {
                    None
                } else {
                    Some(l)
                };
            }
        }
        i = i + 1;
    }
    let last = if ls.len() > 0 {
        assert(vv(ls@)[ls.len() - 1] == ls@[ls.len() - 1]@);
        string_of(ls[ls.len() - 1].as_slice())
    } else {
        String::new()
    };
    ContinuationContext {
        inside_fence: inside,
        fence_language: match lang {
            Some(l) => Some(string_of(l.as_slice())),
            None => None,
        },
        last_line: last,
    }
}

/// Language shown for an open fence.
pub open spec fn fence_label(lang: Option<Seq<char>>) -> Seq<char> {
    match lang {
        Some(l) => if l.len() > 0 {
            l
        } else {
            "code"@
        },
        None => "code"@,
    }
}

/// A fence that carries a generated file.
pub open spec fn is_file_fence(lang: Seq<char>) -> bool {
    starts_with(lang, "file "@) || contains(lang, "path="@) || contains(lang, "file="@)
}

/// The user turn that asks the model to continue a cut-off answer.
pub open spec fn continue_prompt(c: (bool, Option<Seq<char>>, Seq<char>)) -> Seq<char> {
    let cursor = if is_blank(c.2) {
        Seq::empty()
    } else {
        "\nThe cut happened after this exact line fragment:\n"@ + c.2 + "\n"@
    };
    let lang = fence_label(c.1);
    if c.0 {
        if is_file_fence(lang) {
            "/no_think\nYour previous assistant message was cut off inside a generated file fence (`"@
                + lang + "`)."@ + cursor
                + "Continue from the very next character of the file content. Do not repeat the fragment. When this file is complete, close the markdown fence with ```; if more generated files are required, continue with the next ```file ... fence. Do not explain or summarize."@
        } else {
            "/no_think\nYour previous assistant message was cut off inside a `"@ + lang
                + "` code block."@ + cursor
                + "Continue from the very next character of the code. Do not repeat the fragment. Close the markdown fence with ``` once the code block is complete. Do not explain or summarize."@
        }
    } else {
        "/no_think\nYour previous assistant message above was cut off."@ + cursor
            + "Continue exactly from the next character where it stopped. Output only the continuation. Do not restart, summarize, explain, add a heading, wrap in a new code fence, or repeat completed text."@
    }
}

/// The user turn that asks the model to continue from the cut.
pub fn continuation_prompt(ctx: &ContinuationContext) -> (r: String)
    ensures
        r@ == continue_prompt(context_view(*ctx)),
{
    let last = chars_of(ctx.last_line.as_str());
    let mut cursor: Vec<char> = Vec::new();
    if !is_blank_exec(last.as_slice()) {
        append_str(&mut cursor, "\nThe cut happened after this exact line fragment:\n");
        append_chars(&mut cursor, last.as_slice());
        append_str(&mut cursor, "\n");
    }
    let mut out: Vec<char> = Vec::new();
    if ctx.inside_fence {
        let lang: Vec<char> = match &ctx.fence_language {
            Some(l) => {
                let lv = chars_of(l.as_str());
                if lv.len() > 0 {
                    lv
                } else {
                    chars_of("code")
                }
            },
            None => chars_of("code"),
        };
        let file_fence = starts_with_str(lang.as_slice(), "file ") || contains_str(
            lang.as_slice(),
            "path=",
        ) || contains_str(lang.as_slice(), "file=");
        if file_fence {
            append_str(
                &mut out,
                "/no_think\nYour previous assistant message was cut off inside a generated file fence (`",
            );
            append_chars(&mut out, lang.as_slice());
            append_str(&mut out, "`).");
            append_chars(&mut out, cursor.as_slice());
            append_str(
                &mut out,
                "Continue from the very next character of the file content. Do not repeat the fragment. When this file is complete, close the markdown fence with ```; if more generated files are required, continue with the next ```file ... fence. Do not explain or summarize.",
            );
        } else {
            append_str(&mut out, "/no_think\nYour previous assistant message was cut off inside a `");
            append_chars(&mut out, lang.as_slice());
            append_str(&mut out, "` code block.");
            append_chars(&mut out, cursor.as_slice());
            append_str(
                &mut out,
                "Continue from the very next character of the code. Do not repeat the fragment. Close the markdown fence with ``` once the code block is complete. Do not explain or summarize.",
            );
        }
    } else {
        append_str(&mut out, "/no_think\nYour previous assistant message above was cut off.");
        append_chars(&mut out, cursor.as_slice());
        append_str(
            &mut out,
            "Continue exactly from the next character where it stopped. Output only the continuation. Do not restart, summarize, explain, add a heading, wrap in a new code fence, or repeat completed text.",
        );
    }
    let r = string_of(out.as_slice());
    assert(r@ =~= continue_prompt(context_view(*ctx)));
    r
}

/// Longest overlap of at least 8 characters, at most `l`, between the end of `suffix` and
/// the start of `prefix` (0 when there is none).
pub open spec fn best_overlap(suffix: Seq<char>, prefix: Seq<char>, l: int) -> int
    decreases l,
{
    if l < 8 {
        0
    } else if tail_of(suffix, l) == take_chars(prefix, l) {
        l
    } else {
        best_overlap(suffix, prefix, l - 1)
    }
}

/// Two parts joined, with a repeated overlap between them written once.
pub open spec fn stitched(acc: Seq<char>, next: Seq<char>) -> Seq<char> {
    if acc.len() == 0 || next.len() == 0 {
        acc + next
    } else {
        let s = tail_of(acc, 2000);
        let p = take_chars(next, 2000);
        let m = if s.len() < p.len() {
            s.len() as int
        } else {
            p.len() as int
        };
        acc + next.subrange(best_overlap(s, p, m), next.len() as int)
    }
}

proof fn lemma_best_overlap_bounds(suffix: Seq<char>, prefix: Seq<char>, l: int)
    ensures
        0 <= best_overlap(suffix, prefix, l),
        l >= 0 ==> best_overlap(suffix, prefix, l) <= l,
    decreases l,
{
    if l >= 8 && tail_of(suffix, l) != take_chars(prefix, l) {
        lemma_best_overlap_bounds(suffix, prefix, l - 1);
    }
}

/// Joins the accumulated text and the next part, dropping an overlap the model repeated.
pub fn stitch_continuation(accumulated: &str, next: &str) -> (r: String)
    ensures
        r@ == stitched(accumulated@, next@),
{
    let a = chars_of(accumulated);
    let n = chars_of(next);
    let mut out = slice_of(a.as_slice(), 0, a.len());
    assert(out@ =~= a@);
    if a.len() == 0 || n.len() == 0 {
        append_chars(&mut out, n.as_slice());
        return string_of(out.as_slice());
    }
    let s = if a.len() <= STITCH_OVERLAP_CHARS {
        slice_of(a.as_slice(), 0, a.len())
    } else {
        slice_of(a.as_slice(), a.len() - STITCH_OVERLAP_CHARS, a.len())
    };
    assert(s@ =~= tail_of(a@, 2000));
    let p = take_vec(n.as_slice(), STITCH_OVERLAP_CHARS);
    let m = if s.len() < p.len() {
        s.len()
    } else {
        p.len()
    };
    let mut l = m;
    let mut k: usize = 0;
    loop
        invariant_except_break
            l <= m,
            best_overlap(s@, p@, m as int) == best_overlap(s@, p@, l as int),
        invariant
            m <= s.len(),
            m <= p.len(),
        ensures
            k == best_overlap(s@, p@, m as int),
        decreases l,
    {
        if l < 8 {
            k = 0;
            break;
        }
        let st = slice_of(s.as_slice(), s.len() - l, s.len());
        let ph = take_vec(p.as_slice(), l);
        assert(st@ =~= tail_of(s@, l as int));
        if seq_eq_exec(st.as_slice(), ph.as_slice()) {
            k = l;
            break;
        }
        l = l - 1;
    }
    proof {
        lemma_best_overlap_bounds(s@, p@, m as int);
    }
    assert(k <= n.len());
    let rest = slice_of(n.as_slice(), k, n.len());
    append_chars(&mut out, rest.as_slice());
    string_of(out.as_slice())
}

/// Continue when the output hit its length limit or stopped inside an open fence.
pub open spec fn wants_continuation(truncated: bool, accumulated: Seq<char>) -> bool {
    truncated || cut_point(accumulated).0
}

/// Whether a completion should be continued automatically.
pub fn should_auto_continue_completion(result: &CompletionResult, accumulated_text: &str) -> (r: bool)
    ensures
        r == wants_continuation(result.output_truncated, accumulated_text@),
{
    if result.output_truncated {
        return true;
    }
    continuation_context(accumulated_text).inside_fence
}

/// The output limit was hit: the vendor said `length`, or the output came within 64 tokens
/// of the requested maximum.
pub open spec fn hit_output_limit(r: CompletionResult, max_output: u32) -> bool {
    ||| r.output_truncated
    ||| (r.finish_reason matches Some(f) && f@ == "length"@)
    ||| (max_output != 0 && r.usage.output_tokens != 0 && r.usage.output_tokens >= (if max_output
        >= 64 {
        max_output - 64
    } else {
        0
    }))
}

/// Marks a completion as truncated when it hit the output limit; nothing else changes.
pub fn apply_output_truncation(result: &mut CompletionResult, max_output: u32)
    ensures
        *final(result) == (CompletionResult {
            output_truncated: hit_output_limit(*old(result), max_output),
            ..*old(result)
        }),
{
    if result.output_truncated {
        return;
    }
    let is_length = match &result.finish_reason {
        Some(f) => crate::text::str_eq(f.as_str(), "length"),
        None => false,
    };
    if is_length {
        result.output_truncated = true;
        return;
    }
    if max_output == 0 || result.usage.output_tokens == 0 {
        return;
    }
    if result.usage.output_tokens >= max_output.saturating_sub(64) {
        result.output_truncated = true;
    }
}

/// `a + b`, saturating at `u32::MAX`.
pub open spec fn sat_add32(a: u32, b: u32) -> u32 {
    if a + b > u32::MAX {
        u32::MAX
    } else {
        (a + b) as u32
    }
}

/// `a + b`, saturating at `u64::MAX`.
pub open spec fn sat_add64(a: u64, b: u64) -> u64 {
    if a + b > u64::MAX {
        u64::MAX
    } else {
        (a + b) as u64
    }
}

/// Folds one more streamed part into the combined result, whose text becomes the
/// accumulated text.
pub fn merge_completion_result(combined: &mut Option<CompletionResult>, part: CompletionResult, accumulated_text: &str)
    ensures
        (*final(combined)) is Some,
        (*final(combined))->0.text@ == accumulated_text@,
        (*old(combined)) is None ==> (*final(combined))->0 == (CompletionResult {
            text: (*final(combined))->0.text,
            ..part
        }),
        (*old(combined)) is Some ==> (*final(combined))->0 == (CompletionResult {
            text: (*final(combined))->0.text,
            latency_ms: sat_add64((*old(combined))->0.latency_ms, part.latency_ms),
            usage: TokenUsage {
                input_tokens: sat_add32((*old(combined))->0.usage.input_tokens, part.usage.input_tokens),
                output_tokens: sat_add32((*old(combined))->0.usage.output_tokens, part.usage.output_tokens),
            },
            stream_incomplete: (*old(combined))->0.stream_incomplete || part.stream_incomplete,
            finish_reason: part.finish_reason,
            output_truncated: part.output_truncated,
            ..(*old(combined))->0
        }),
{
    match combined.take() {
        Some(mut out) => {
            out.text = accumulated_text.to_string();
            out.latency_ms = out.latency_ms.saturating_add(part.latency_ms);
            out.usage.input_tokens = out.usage.input_tokens.saturating_add(part.usage.input_tokens);
            out.usage.output_tokens = out.usage.output_tokens.saturating_add(part.usage.output_tokens);
            out.stream_incomplete = out.stream_incomplete || part.stream_incomplete;
            out.finish_reason = part.finish_reason;
            out.output_truncated = part.output_truncated;
            *combined = Some(out);
        },
        None => {
            let mut p = part;
            p.text = accumulated_text.to_string();
            *combined = Some(p);
        },
    }
}

/// The messages of the next continuation request: the base conversation, the tail of the
/// cut-off answer as an assistant turn, and the continue prompt as a user turn.
pub fn continuation_messages(base: &[ChatMessage], accumulated: &str) -> (r: Vec<ChatMessage>)
    ensures
        views(r@) == views(base@) + seq![
            MessageView { role: "assistant"@, content: tail_of(accumulated@, 6000), images: Seq::empty() },
            MessageView { role: "user"@, content: continue_prompt(cut_point(accumulated@)), images: Seq::empty() },
        ],
{
    let mut messages = crate::models::duplicate_messages(base);
    let ctx = continuation_context(accumulated);
    let ghost m0 = messages@;
    let a = ChatMessage {
        role: "assistant".to_string(),
        content: tail_chars(accumulated, CONTINUATION_TAIL_CHARS),
        images: Vec::new(),
    };
    let u = ChatMessage {
        role: "user".to_string(),
        content: continuation_prompt(&ctx),
        images: Vec::new(),
    };
    proof {
        crate::models::lemma_views_push(m0, a);
        crate::models::lemma_views_push(m0.push(a), u);
    }
    messages.push(a);
    messages.push(u);
    assert(views(messages@) =~= views(base@) + seq![
        MessageView { role: "assistant"@, content: tail_of(accumulated@, 6000), images: Seq::empty() },
        MessageView { role: "user"@, content: continue_prompt(cut_point(accumulated@)), images: Seq::empty() },
    ]);
    messages
}

/// Whether the auto-continue loop asks for another part: the combined result wants a
/// continuation, the last part added visible text, nothing cancelled, and fewer than three
/// continuations were made.
pub fn should_request_next_part(
    continue_idx: usize,
    wants_more: bool,
    visible_progress: bool,
    cancelled: bool,
) -> (r: bool)
    ensures
        r == (wants_more && visible_progress && !cancelled && continue_idx < 3),
{
    wants_more && visible_progress && !cancelled && continue_idx < MAX_AUTO_CONTINUES
}


/// Stitching never rewrites the accumulated text: the result is the accumulated text
/// followed by the next part without a leading overlap of at least 8 characters.
pub proof fn law_stitch_appends(acc: Seq<char>, next: Seq<char>)
    ensures
        exists|k: int| 0 <= k <= next.len() && (k == 0 || k >= 8) && #[trigger] stitched(acc, next) == acc
            + next.subrange(k, next.len() as int),
{
    if acc.len() == 0 || next.len() == 0 {
        assert(stitched(acc, next) == acc + next.subrange(0, next.len() as int));
    } else {
        let s = tail_of(acc, 2000);
        let p = take_chars(next, 2000);
        let m = if s.len() < p.len() {
            s.len() as int
        } else {
            p.len() as int
        };
        lemma_best_overlap_bounds(s, p, m);
        lemma_best_overlap_floor(s, p, m);
        let k = best_overlap(s, p, m);
        assert(stitched(acc, next) == acc + next.subrange(k, next.len() as int));
    }
}

proof fn lemma_best_overlap_floor(suffix: Seq<char>, prefix: Seq<char>, l: int)
    ensures
        best_overlap(suffix, prefix, l) == 0 || best_overlap(suffix, prefix, l) >= 8,
    decreases l,
{
    if l >= 8 && tail_of(suffix, l) != take_chars(prefix, l) {
        lemma_best_overlap_floor(suffix, prefix, l - 1);
    }
}

} // verus!
