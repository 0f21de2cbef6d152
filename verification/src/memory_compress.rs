//! Compression of rolling memory when it nears its cap (keep about 30% of the source).
use vstd::prelude::*;

use crate::context_recovery::{
    context_failure, is_context_overflow_error, looks_like_context_failure, overflow_message,
};
use crate::memory_facts::{
    atom_views, fact_block, facts_of, merge_compressed_memory, merged_memory, narrative_of,
    split_memory_facts,
};
use crate::models::{AppError, CompletionResult};
use crate::session_summary::{
    budget_trimmed, lemma_budget_trimmed_len, summary_budget, summary_budget_chars, summary_cap, tail_trimmed,
    trim_summary_to_budget,
    trim_to_char_budget,
};
use crate::text::{
    char_count, chars_of, contains_any, contains_any_exec, is_blank, is_blank_exec, lower_seq,
    lower_vec, strs_view, trim, trim_string,
};

verus! {

/// About 30% of the source, never below 128 characters.
pub open spec fn compression_target(n: int) -> int {
    let t = (n * 3 + 9) / 10;
    if t < 128 {
        128
    } else {
        t
    }
}

pub fn compression_target_chars(source_char_count: usize) -> (r: usize)
    ensures
        r == compression_target(source_char_count as int),
{
    let t = ((source_char_count as u128) * 3 + 9) / 10;
    if t < 128 {
        128
    } else {
        t as usize
    }
}

pub open spec fn min_int(a: int, b: int) -> int {
    if a <= b {
        a
    } else {
        b
    }
}

pub open spec fn max_int(a: int, b: int) -> int {
    if a >= b {
        a
    } else {
        b
    }
}

/// Rolling memory after a merge, clamped so it does not grow past the prior snapshot.
pub open spec fn shrunk_memory(prior: Seq<char>, candidate: Seq<char>, context_limit: int) -> Seq<
    char,
> {
    let capped = tail_trimmed(candidate, summary_cap(context_limit));
    let prior_n = trim(prior).len() as int;
    if prior_n == 0 || capped.len() <= prior_n {
        capped
    } else {
        let target = min_int(compression_target(prior_n), summary_budget(context_limit));
        budget_trimmed(capped, min_int(max_int(target, 256), prior_n))
    }
}

/// After LLM/fallback merge, never let rolling memory grow vs the prior snapshot.
pub fn enforce_memory_shrink(prior: &str, candidate: &str, context_limit: i64) -> (r: String)
    ensures
        r@ == shrunk_memory(prior@, candidate@, context_limit as int),
        trim(prior@).len() > 0 ==> r@.len() <= trim(prior@).len(),
{
    proof {
        if trim(prior@).len() > 0 {
            law_memory_never_grows(prior@, candidate@, context_limit as int);
        }
    }
    let budget = summary_budget_chars(context_limit);
    let capped = trim_summary_to_budget(candidate, context_limit);
    let p = trim_string(prior);
    let prior_n = char_count(p.as_str());
    let cand_n = char_count(capped.as_str());
    if prior_n == 0 || cand_n <= prior_n {
        return capped;
    }
    let t = compression_target_chars(prior_n);
    let target = if t <= budget {
        t
    } else {
        budget
    };
    let floor = if target >= 256 {
        target
    } else {
        256
    };
    let cap = if floor <= prior_n {
        floor
    } else {
        prior_n
    };
    trim_to_char_budget(capped.as_str(), cap)
}

/// Memory that had content never comes out longer than it was: the result has at
/// most as many characters as the trimmed prior snapshot.
pub proof fn law_memory_never_grows(prior: Seq<char>, candidate: Seq<char>, context_limit: int)
    requires
        trim(prior).len() > 0,
    ensures
        shrunk_memory(prior, candidate, context_limit).len() <= trim(prior).len(),
{
    let capped = tail_trimmed(candidate, summary_cap(context_limit));
    let prior_n = trim(prior).len() as int;
    if capped.len() > prior_n {
        let target = min_int(compression_target(prior_n), summary_budget(context_limit));
        lemma_budget_trimmed_len(capped, min_int(max_int(target, 256), prior_n));
    }
}

/// Rolling memory needs compression at 85% of its budget.
pub open spec fn memory_pressure(memory: Seq<char>, context_limit: int) -> bool {
    let budget = summary_budget(context_limit);
    budget != 0 && trim(memory).len() >= budget * 85 / 100
}

pub fn session_memory_needs_compression(memory: &str, context_limit: i64) -> (r: bool)
    ensures
        r == memory_pressure(memory@, context_limit as int),
{
    let budget = summary_budget_chars(context_limit);
    if budget == 0 {
        return false;
    }
    let t = trim_string(memory);
    let used = char_count(t.as_str());
    (used as u128) >= (budget as u128) * 85 / 100
}

/// Deterministic compression: facts kept first, narrative cut to about 30%, all within budget.
pub open spec fn fallback_compressed(source: Seq<char>, context_limit: int) -> Seq<char> {
    let t = trim(source);
    if t.len() == 0 {
        Seq::empty()
    } else {
        let budget = summary_budget(context_limit);
        let narrative = narrative_of(t);
        let target = min_int(compression_target(narrative.len() as int), budget);
        budget_trimmed(
            merged_memory(fact_block(facts_of(t), context_limit), budget_trimmed(narrative, target)),
            budget,
        )
    }
}

/// Fallback for vector / generic text blobs.
pub fn fallback_compress_text(source: &str, context_limit: i64) -> (r: String)
    ensures
        r@ == fallback_compressed(source@, context_limit as int),
{
    let trimmed = trim_string(source);
    if char_count(trimmed.as_str()) == 0 {
        return String::new();
    }
    let facts = split_memory_facts(trimmed.as_str());
    let budget = summary_budget_chars(context_limit);
    let t = compression_target_chars(char_count(facts.narrative.as_str()));
    let target = if t <= budget {
        t
    } else {
        budget
    };
    let narrative = trim_to_char_budget(facts.narrative.as_str(), target);
    let merged = merge_compressed_memory(&facts, narrative.as_str(), context_limit);
    trim_to_char_budget(merged.as_str(), budget)
}

/// Fallback when all compression LLM attempts fail — hard trim toward the 30% target.
pub fn fallback_compress_session_memory(memory: &str, context_limit: i64) -> (r: String)
    ensures
        r@ == shrunk_memory(
            memory@,
            fallback_compressed(memory@, context_limit as int),
            context_limit as int,
        ),
{
    let c = fallback_compress_text(memory, context_limit);
    enforce_memory_shrink(memory, c.as_str(), context_limit)
}

/// Keep the tail of the source (recent facts) when input must shrink before send.
pub fn truncate_compress_source(source: &str, max_chars: usize) -> (r: String)
    ensures
        r@ == budget_trimmed(source@, max_int(max_chars as int, 256)),
{
    let cap = if max_chars >= 256 {
        max_chars
    } else {
        256
    };
    trim_to_char_budget(source, cap)
}

/// Transport hiccups worth another compression attempt.
pub open spec fn transient_phrases() -> Seq<Seq<char>> {
    seq![
        "timed out"@,
        "timeout"@,
        "empty text"@,
        "retryable"@,
        "connection reset"@,
        "broken pipe"@,
        "unexpected eof"@,
        "incomplete"@,
    ]
}

/// Errors that justify retrying a compression call.
pub open spec fn compress_retryable(msg: Seq<char>) -> bool {
    overflow_message(msg) || contains_any(lower_seq(msg), transient_phrases())
}

pub fn is_compress_retryable_error(err: &AppError) -> (r: bool)
    ensures
        r == compress_retryable(err.spec_message()),
{
    if is_context_overflow_error(err) {
        return true;
    }
    let m = err.message();
    let mv = chars_of(m.as_str());
    let lower = lower_vec(mv.as_slice());
    let phrases: [&str; 8] = [
        "timed out",
        "timeout",
        "empty text",
        "retryable",
        "connection reset",
        "broken pipe",
        "unexpected eof",
        "incomplete",
    ];
    assert(strs_view(phrases@) =~= transient_phrases());
    contains_any_exec(lower.as_slice(), phrases.as_slice())
}

/// Retry a compression attempt on retryable errors, blank replies or cut-off replies.
pub fn should_retry_compress(
    result: Result<&CompletionResult, &AppError>,
    input_estimate: u32,
    context_limit: i64,
) -> (r: bool)
    ensures
        match result {
            Err(e) => r == compress_retryable(e.spec_message()),
            Ok(c) => r == (is_blank(c.text@) || context_failure(
                c.output_truncated,
                c.stream_incomplete,
                c.text@,
                c.usage.input_tokens as int,
                input_estimate as int,
                context_limit as int,
            )),
        },
{
    match result {
        Err(e) => is_compress_retryable_error(e),
        Ok(c) => {
            let tv = chars_of(c.text.as_str());
            if is_blank_exec(tv.as_slice()) {
                return true;
            }
            looks_like_context_failure(c, input_estimate, context_limit)
        },
    }
}


// ------------------------------------------------------------------
// One attempt of the compression retry loop
// ------------------------------------------------------------------

/// Request of one compression attempt.
#[derive(Debug, Clone)]
pub struct CompressAttempt {
    /// User turn sent to the model.
    pub user_body: String,
    /// System prompt of the attempt.
    pub system_prompt: String,
    /// Length the model is asked for, in characters.
    pub target_chars: usize,
    /// Token estimate of the request (system prompt and source excerpt).
    pub input_estimate: u32,
}

/// Target of an attempt: about 30% of its input, at most the final target, at least 128.
pub open spec fn attempt_target(input_chars: int, final_target: int) -> int {
    max_int(min_int(compression_target(input_chars), final_target), 128)
}

/// User turn of an attempt that wraps the source as full memory.
pub open spec fn full_memory_body(excerpt: Seq<char>, total: int, target: int) -> Seq<char> {
    if excerpt.len() >= total {
        "FULL_MEMORY ("@ + crate::text::decimal(excerpt.len()) + " chars, compress to ~"@
            + crate::text::decimal(target as nat) + "):\n"@ + excerpt
    } else {
        "FULL_MEMORY ("@ + crate::text::decimal(excerpt.len()) + " of "@ + crate::text::decimal(
            total as nat,
        ) + " chars, compress to ~"@ + crate::text::decimal(target as nat) + "):\n"@ + excerpt
    }
}

/// The request of one attempt over a trimmed source cut to `max_input` characters.
pub open spec fn attempt_request(source: Seq<char>, max_input: int, final_target: int, system: Seq<char>, wrap: bool) -> (Seq<char>, Seq<char>, int, int) {
    let excerpt = budget_trimmed(source, max_int(max_input, 256));
    let target = attempt_target(excerpt.len() as int, max_int(final_target, 128));
    let body = if wrap {
        full_memory_body(excerpt, trim(source).len() as int, target)
    } else {
        excerpt
    };
    let sys = if wrap {
        crate::text::replace_all(system, "TARGET"@, crate::text::decimal(target as nat))
    } else {
        system
    };
    (body, sys, target, ((system.len() + excerpt.len() + 3) / 4 + 96) as int)
}

/// A cut text is never longer than the trimmed text it was cut from.
pub proof fn lemma_budget_trimmed_shorter(s: Seq<char>, max: int)
    requires
        max >= 0,
    ensures
        budget_trimmed(s, max).len() <= trim(s).len(),
{
    let t = trim(s);
    if t.len() > max {
        if max >= 1 {
            lemma_budget_trimmed_len(s, max);
        } else {
            reveal_strlit("\n\n");
            crate::text::lemma_find_from_sound(t, "\n\n"@, 0);
            let sep = crate::text::find(t, "\n\n"@);
            if crate::text::starts_with(t, "## FACTS"@) && sep is Some && sep->0 + 3 <= max {
            } else {
                assert(crate::session_summary::tail_trimmed(t, max).len() <= 1);
            }
        }
    }
}

/// Builds the request of one attempt: the source cut to `max_input` characters (at least
/// 256), a target of about 30% of that excerpt, and, when the source is wrapped as full
/// memory, a `FULL_MEMORY` header and the target in place of `TARGET` in the system prompt.
pub fn compress_attempt_request(
    source: &str,
    max_input: usize,
    final_target: usize,
    system: &str,
    wrap_as_full_memory: bool,
) -> (r: CompressAttempt)
    requires
        system@.len() + source@.len() <= 0xFFFF_0000,
    ensures
        (r.user_body@, r.system_prompt@, r.target_chars as int, r.input_estimate as int)
            == attempt_request(source@, max_input as int, final_target as int, system@, wrap_as_full_memory),
{
    let final_t = if final_target >= 128 {
        final_target
    } else {
        128
    };
    let excerpt = truncate_compress_source(source, max_input);
    let ev = chars_of(excerpt.as_str());
    let input_chars = ev.len();
    let src = trim_string(source);
    let total = char_count(src.as_str());
    let t = compression_target_chars(input_chars);
    let t1 = if t <= final_t {
        t
    } else {
        final_t
    };
    let target = if t1 >= 128 {
        t1
    } else {
        128
    };
    let sys_chars = char_count(system);
    proof {
        lemma_budget_trimmed_shorter(source@, max_int(max_input as int, 256));
        crate::text::lemma_trim_len(source@);
    }
    let estimate = ((sys_chars + input_chars + 3) / 4) as u32 + 96;
    let body = if wrap_as_full_memory {
        let mut v: Vec<char> = Vec::new();
        crate::text::append_str(&mut v, "FULL_MEMORY (");
        crate::text::push_decimal(&mut v, input_chars as u64);
        if input_chars >= total {
            crate::text::append_str(&mut v, " chars, compress to ~");
        } else {
            crate::text::append_str(&mut v, " of ");
            crate::text::push_decimal(&mut v, total as u64);
            crate::text::append_str(&mut v, " chars, compress to ~");
        }
        crate::text::push_decimal(&mut v, target as u64);
        crate::text::append_str(&mut v, "):\n");
        crate::text::append_chars(&mut v, ev.as_slice());
        crate::text::string_of(v.as_slice())
    } else {
        excerpt
    };
    let sys = if wrap_as_full_memory {
        let mut d: Vec<char> = Vec::new();
        crate::text::push_decimal(&mut d, target as u64);
        let ds = crate::text::string_of(d.as_slice());
        let sv = chars_of(system);
        proof {
            reveal_strlit("TARGET");
        }
        let rep = crate::text::replace_vec(sv.as_slice(), "TARGET", ds.as_str());
        crate::text::string_of(rep.as_slice())
    } else {
        system.to_string()
    };
    CompressAttempt { user_body: body, system_prompt: sys, target_chars: target, input_estimate: estimate }
}

/// What an attempt's outcome means for the retry loop.
#[derive(Debug, Clone)]
pub enum CompressVerdict {
    /// The compressed text, cut to the final target.
    Accept(String),
    /// Try again with a smaller input; the message is kept as the last error.
    Retry(String),
    /// Give up with the attempt's error.
    Abort,
}

/// Judges one attempt: a usable reply is accepted (trimmed and cut to the final target), a
/// blank or cut-off reply and a transient error are retried, any other error aborts.
pub fn compress_attempt_verdict(
    outcome: Result<&CompletionResult, &AppError>,
    input_estimate: u32,
    context_limit: i64,
    final_target: usize,
) -> (r: CompressVerdict)
    ensures
        match outcome {
            Ok(c) => if is_blank(c.text@) || context_failure(
                c.output_truncated,
                c.stream_incomplete,
                c.text@,
                c.usage.input_tokens as int,
                input_estimate as int,
                context_limit as int,
            ) {
                r matches CompressVerdict::Retry(m) && m@ == "memory compression retryable empty/overflow"@
            } else {
                r matches CompressVerdict::Accept(t) && t@ == budget_trimmed(trim(c.text@), final_target as int)
            },
            Err(e) => if compress_retryable(e.spec_message()) {
                r matches CompressVerdict::Retry(m) && m@ == e.spec_message()
            } else {
                r is Abort
            },
        },
{
    match outcome {
        Ok(c) => {
            if should_retry_compress(Ok(c), input_estimate, context_limit) {
                return CompressVerdict::Retry("memory compression retryable empty/overflow".to_string());
            }
            let text = trim_string(c.text.as_str());
            if text.as_str().is_empty() {
                return CompressVerdict::Retry("memory compression returned empty text".to_string());
            }
            CompressVerdict::Accept(trim_to_char_budget(text.as_str(), final_target))
        },
        Err(e) => {
            if is_compress_retryable_error(e) {
                CompressVerdict::Retry(e.message())
            } else {
                CompressVerdict::Abort
            }
        },
    }
}

// ------------------------------------------------------------------
// Session memory, narrative memory and turn notes around a compression call
// ------------------------------------------------------------------

/// Memory shorter than this many characters is kept as it is.
pub const MIN_SOURCE_CHARS: usize = 320;

/// System prompt for compressing narrative memory; `TARGET` stands for the target length.
pub const MEMORY_COMPRESS_SYSTEM: &'static str = "You compress long-term memory for an ongoing session.\nYou receive FULL_MEMORY — narrative memory only. Atomic facts were removed and will be merged back outside the model.\nWrite a shorter narrative keeping topics, names, preferences, open tasks, and bugs.\nDo not invent or restate PLAN_CANONICAL, DECISION, REPO, path, or PLAN_PROGRESS facts.\nDrop filler and repetition. Target length: about TARGET characters (~30% of the input).\nUse the same language as the source. Output ONLY the compressed memory — no markdown, no labels.\n";

/// System prompt for the note the model may write after a tool turn.
pub const TURN_MEMORY_SYSTEM: &'static str = "You extract durable session memory bullets from an assistant turn and tool trace.\nRules:\n- Output 0-3 lines only. Each line MUST start with [bug], [decision], [repo], [note], or [code].\n- Max 400 characters total. No markdown fences. No full file bodies.\n- Record findings, patches applied, and plans — not user chit-chat.\n- If nothing worth remembering, output exactly: NONE";

/// What to do with session memory before a compression call.
#[derive(Debug)]
pub enum SessionCompression {
    /// Nothing to compress; this is the memory.
    Done(String),
    /// Compress the trimmed memory toward the target length.
    Compress { source: String, target_chars: usize },
}

/// Session memory: blank gives nothing, under 320 characters it stays as it is
/// (trimmed), else it is compressed toward 30% of its length within the summary budget.
pub fn plan_session_compression(memory: &str, context_limit: i64) -> (r: SessionCompression)
    ensures
        trim(memory@).len() == 0 ==> (r matches SessionCompression::Done(s) && s@.len() == 0),
        0 < trim(memory@).len() < 320 ==> (r matches SessionCompression::Done(s) && s@ == trim(memory@)),
        trim(memory@).len() >= 320 ==> (r matches SessionCompression::Compress { source, target_chars }
            && source@ == trim(memory@) && target_chars == min_int(
            compression_target(trim(memory@).len() as int),
            summary_budget(context_limit as int),
        )),
{
    let t = trim_string(memory);
    let n = char_count(t.as_str());
    if n == 0 {
        return SessionCompression::Done(String::new());
    }
    if n < MIN_SOURCE_CHARS {
        return SessionCompression::Done(t);
    }
    let budget = summary_budget_chars(context_limit);
    let c = compression_target_chars(n);
    let target = if c <= budget {
        c
    } else {
        budget
    };
    SessionCompression::Compress { source: t, target_chars: target }
}

/// Session memory after the compressor answered: the answer cut to the summary budget,
/// never longer than the memory it replaces (see `shrunk_memory`).
pub fn finish_session_compression(source: &str, compressed: &str, context_limit: i64) -> (r: String)
    ensures
        r@ == shrunk_memory(
            source@,
            budget_trimmed(compressed@, summary_budget(context_limit as int)),
            context_limit as int,
        ),
{
    let budget = summary_budget_chars(context_limit);
    let cut = trim_to_char_budget(compressed, budget);
    enforce_memory_shrink(source, cut.as_str(), context_limit)
}

/// What to send when memory holding structured facts is compressed.
#[derive(Debug)]
pub enum FactsCompression {
    /// No facts: compress the whole source.
    Whole,
    /// Only facts: this is the result, no call needed.
    Done(String),
    /// Compress only this narrative; the facts are merged back afterwards.
    Narrative(String),
}

/// Splits off the structured facts: without facts the whole source is compressed; with
/// facts and no narrative the fact block (within the summary budget) is the result;
/// else only the trimmed narrative goes to the compressor.
pub fn plan_facts_compression(source: &str, context_limit: i64) -> (r: FactsCompression)
    ensures
        facts_of(source@).len() == 0 ==> r is Whole,
        facts_of(source@).len() > 0 && trim(narrative_of(source@)).len() == 0 ==> (r matches FactsCompression::Done(s)
            && s@ == budget_trimmed(
            merged_memory(fact_block(facts_of(source@), context_limit as int), Seq::empty()),
            summary_budget(context_limit as int),
        )),
        facts_of(source@).len() > 0 && trim(narrative_of(source@)).len() > 0 ==> (r matches FactsCompression::Narrative(n)
            && n@ == trim(narrative_of(source@))),
{
    let facts = split_memory_facts(source);
    if facts.atoms.len() == 0 {
        return FactsCompression::Whole;
    }
    let n = trim_string(facts.narrative.as_str());
    if char_count(n.as_str()) == 0 {
        let merged = merge_compressed_memory(&facts, "", context_limit);
        proof {
            reveal_strlit("");
        }
        let budget = summary_budget_chars(context_limit);
        return FactsCompression::Done(trim_to_char_budget(merged.as_str(), budget));
    }
    FactsCompression::Narrative(n)
}

/// Memory with facts after the compressor answered for its narrative: the fact block,
/// then the answer, within the summary budget.
pub fn finish_facts_compression(source: &str, compressed: &str, context_limit: i64) -> (r: String)
    ensures
        r@ == budget_trimmed(
            merged_memory(fact_block(facts_of(source@), context_limit as int), compressed@),
            summary_budget(context_limit as int),
        ),
{
    let facts = split_memory_facts(source);
    let merged = merge_compressed_memory(&facts, compressed, context_limit);
    let budget = summary_budget_chars(context_limit);
    trim_to_char_budget(merged.as_str(), budget)
}

/// Input budget of the turn-note call: 0.42 × 0.35 of the context (at least 4096
/// tokens) at 3.5 characters per token, i.e. 0.5145 characters per token, at most 2800.
pub open spec fn turn_note_budget(context_limit: int) -> int {
    let l = if context_limit < 4096 { 4096 } else { context_limit };
    min_int(l * 5145 / 10000, 2800)
}

/// User turn asking for a note on a tool turn: the assistant's excerpt and the tool
/// trace, each trimmed and cut (keeping its end) to half the budget, at least 256.
pub open spec fn turn_note_body(assistant: Seq<char>, trace: Seq<char>, context_limit: int) -> Seq<char> {
    let half = max_int(turn_note_budget(context_limit) / 2, 256);
    "Assistant excerpt:\n"@ + budget_trimmed(trim(assistant), half) + "\n\nTool trace:\n"@ + budget_trimmed(
        trim(trace),
        half,
    ) + "\n"@
}

/// The request for a turn note, or `None` when both inputs are blank or the request
/// would say less than 24 characters.
pub fn turn_memory_request(assistant_excerpt: &str, tool_trace: &str, context_limit: i64) -> (r: Option<String>)
    ensures
        trim(assistant_excerpt@).len() == 0 && trim(tool_trace@).len() == 0 ==> r is None,
        !(trim(assistant_excerpt@).len() == 0 && trim(tool_trace@).len() == 0) ==> {
            let body = turn_note_body(assistant_excerpt@, tool_trace@, context_limit as int);
            &&& trim(body).len() < 24 ==> r is None
            &&& trim(body).len() >= 24 ==> (r matches Some(b) && b@ == body)
        },
{
    let a = trim_string(assistant_excerpt);
    let t = trim_string(tool_trace);
    if char_count(a.as_str()) == 0 && char_count(t.as_str()) == 0 {
        return None;
    }
    let l: i64 = if context_limit < 4096 {
        4096
    } else {
        context_limit
    };
    let budget: usize = if l >= 5443 {
        2800
    } else {
        let b = (l * 5145 / 10000) as usize;
        if b < 2800 {
            b
        } else {
            2800
        }
    };
    assert(budget == turn_note_budget(context_limit as int));
    let ae = truncate_compress_source(a.as_str(), budget / 2);
    let te = truncate_compress_source(t.as_str(), budget / 2);
    let mut v = chars_of("Assistant excerpt:\n");
    crate::text::append_str(&mut v, ae.as_str());
    crate::text::append_str(&mut v, "\n\nTool trace:\n");
    crate::text::append_str(&mut v, te.as_str());
    crate::text::append_str(&mut v, "\n");
    let tb = crate::text::trim_vec(v.as_slice());
    if tb.len() < 24 {
        return None;
    }
    Some(crate::text::string_of(v.as_slice()))
}

/// The model's note on a tool turn: nothing when it is blank or says `NONE` (any
/// ASCII case), else the trimmed note cut to 420 characters.
pub fn turn_memory_note(reply: &str) -> (r: Option<String>)
    ensures
        (trim(reply@).len() == 0 || lower_seq(trim(reply@)) == "none"@) ==> r is None,
        !(trim(reply@).len() == 0 || lower_seq(trim(reply@)) == "none"@) ==> (r matches Some(n) && n@
            == budget_trimmed(trim(reply@), 420)),
        r matches Some(n) ==> n@.len() <= 420,
{
    let t = trim_string(reply);
    let tv = chars_of(t.as_str());
    let l = lower_vec(tv.as_slice());
    if tv.len() == 0 || crate::text::seq_eq_exec(l.as_slice(), chars_of("none").as_slice()) {
        return None;
    }
    Some(trim_to_char_budget(t.as_str(), 420))
}

/// Output cap of a compression call: a third of the target, between 96 and 900 tokens.
pub fn compress_max_tokens(target_chars: usize) -> (r: u32)
    ensures
        r == (if ((target_chars / 3) as u32) < 96 {
            96
        } else if ((target_chars / 3) as u32) > 900 {
            900
        } else {
            (target_chars / 3) as u32
        }),
{
    let t = (target_chars / 3) as u32;
    if t < 96 {
        96
    } else if t > 900 {
        900
    } else {
        t
    }
}

/// Timeout of a compression request, in seconds: the HTTP timeout, but at least 90 and
/// at most 600 seconds (compression of long memory outlasts a chat reply).
pub fn compress_request_timeout(http_timeout_secs: u64) -> (r: u64)
    ensures
        r == (if http_timeout_secs < 90 {
            90
        } else if http_timeout_secs > 600 {
            600
        } else {
            http_timeout_secs
        }),
{
    if http_timeout_secs < 90 {
        90
    } else if http_timeout_secs > 600 {
        600
    } else {
        http_timeout_secs
    }
}

} // verus!
