//! Detect context-window failures and decide when to retry with tighter compression.
use vstd::prelude::*;

use crate::models::{AppError, CompletionResult};
use crate::text::{
    chars_of, contains, contains_any, contains_any_exec, contains_str, is_blank, lower_seq,
    lower_vec, starts_with, starts_with_str, strs_view, trim, trim_vec, utf8_len, utf8_len_below,
};

verus! {

/// Phrases vendors use when the prompt exceeds the model window.
pub open spec fn overflow_hints() -> Seq<Seq<char>> {
    seq![
        "context length"@,
        "context_length"@,
        "maximum context"@,
        "max context"@,
        "max_context"@,
        "context window"@,
        "context_window"@,
        "token limit"@,
        "tokens exceed"@,
        "exceeds the model"@,
        "exceeds maximum"@,
        "too many tokens"@,
        "prompt is too long"@,
        "prompt too long"@,
        "input length"@,
        "input is too large"@,
        "request too large"@,
        "n_ctx"@,
        "num_ctx"@,
        "context size"@,
        "payload too large"@,
        "reduce the length"@,
        "maximum sequence length"@,
        "max sequence length"@,
        "context length exceeded"@,
        "exceeds context"@,
    ]
}

/// A message reads as a context overflow: an overflow phrase, or HTTP 413 as a status token.
pub open spec fn overflow_message(msg: Seq<char>) -> bool {
    let lower = lower_seq(msg);
    contains_any(lower, overflow_hints()) || contains(lower, "413 payload"@) || contains(
        lower,
        "status 413"@,
    ) || starts_with(lower, "413 "@)
}

/// True when a vendor / transport message likely means the prompt exceeded the model window.
pub fn is_context_overflow_message(msg: &str) -> (r: bool)
    ensures
        r == overflow_message(msg@),
{
    let m = chars_of(msg);
    let lower = lower_vec(m.as_slice());
    let hints: [&str; 26] = [
        "context length",
        "context_length",
        "maximum context",
        "max context",
        "max_context",
        "context window",
        "context_window",
        "token limit",
        "tokens exceed",
        "exceeds the model",
        "exceeds maximum",
        "too many tokens",
        "prompt is too long",
        "prompt too long",
        "input length",
        "input is too large",
        "request too large",
        "n_ctx",
        "num_ctx",
        "context size",
        "payload too large",
        "reduce the length",
        "maximum sequence length",
        "max sequence length",
        "context length exceeded",
        "exceeds context",
    ];
    assert(strs_view(hints@) =~= overflow_hints());
    if contains_any_exec(lower.as_slice(), hints.as_slice()) {
        return true;
    }
    contains_str(lower.as_slice(), "413 payload") || contains_str(lower.as_slice(), "status 413")
        || starts_with_str(lower.as_slice(), "413 ")
}

/// Whether an application error is a context overflow.
pub fn is_context_overflow_error(err: &AppError) -> (r: bool)
    ensures
        r == overflow_message(err.spec_message()),
{
    let m = err.message();
    is_context_overflow_message(m.as_str())
}

/// Heuristic for silent cut-offs (LM Studio OOM, abrupt stream end, empty body).
/// Fractions of the window are exact: `estimate > limit * 55 / 100` and so on.
pub open spec fn context_failure(
    truncated: bool,
    incomplete: bool,
    text: Seq<char>,
    reported_input: int,
    estimate: int,
    context_limit: int,
) -> bool {
    let limit = if context_limit < 8192 {
        8192
    } else {
        context_limit
    };
    let body = trim(text);
    if truncated {
        false
    } else if incomplete && estimate * 100 > limit * 55 {
        true
    } else if body.len() == 0 && estimate * 100 > limit * 45 {
        true
    } else if utf8_len(body) < 24 && estimate * 100 > limit * 70 {
        true
    } else if reported_input > 0 {
        reported_input * 100 > limit * 88
    } else {
        estimate * 100 > limit * 92
    }
}

pub fn looks_like_context_failure(
    result: &CompletionResult,
    input_estimate: u32,
    context_limit: i64,
) -> (r: bool)
    ensures
        r == context_failure(
            result.output_truncated,
            result.stream_incomplete,
            result.text@,
            result.usage.input_tokens as int,
            input_estimate as int,
            context_limit as int,
        ),
{
    if result.output_truncated {
        return false;
    }
    let limit: i128 = if context_limit < 8192 {
        8192
    } else {
        context_limit as i128
    };
    let estimate = input_estimate as i128;
    if result.stream_incomplete && estimate * 100 > limit * 55 {
        return true;
    }
    let text = chars_of(result.text.as_str());
    let body = trim_vec(text.as_slice());
    if body.len() == 0 && estimate * 100 > limit * 45 {
        return true;
    }
    if utf8_len_below(body.as_slice(), 24) && estimate * 100 > limit * 70 {
        return true;
    }
    if result.usage.input_tokens > 0 {
        let used = result.usage.input_tokens as i128;
        used * 100 > limit * 88
    } else {
        estimate * 100 > limit * 92
    }
}

/// Errors retry when they read as overflow; replies retry when they look cut off.
pub fn should_retry_for_context(
    result: Result<&CompletionResult, &AppError>,
    input_estimate: u32,
    context_limit: i64,
) -> (r: bool)
    ensures
        match result {
            Err(e) => r == overflow_message(e.spec_message()),
            Ok(c) => r == context_failure(
                c.output_truncated,
                c.stream_incomplete,
                c.text@,
                c.usage.input_tokens as int,
                input_estimate as int,
                context_limit as int,
            ),
        },
{
    match result {
        Err(e) => is_context_overflow_error(e),
        Ok(c) => looks_like_context_failure(c, input_estimate, context_limit),
    }
}

} // verus!
