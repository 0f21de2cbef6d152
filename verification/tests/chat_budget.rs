use vibe_prompter::completion_recovery::estimate_completion_input_tokens;
use vibe_prompter::context_recovery::{is_context_overflow_message, looks_like_context_failure};
use vibe_prompter::degrade::{apply_message_degrade, collapse_tool_results, preflight_needs_degrade, DegradeLevel};
use vibe_prompter::models::{ChatMessage, CompletionResult, TokenUsage};
use vibe_prompter::retrieval_policy::is_plan_continuation_query;
use vibe_prompter::session_summary::trim_summary_to_budget;
use vibe_prompter::sliding_window::{fallback_merge_memory, plan_sliding_window_with_aggression, WindowAggression};
use vibe_prompter::token_budget::{estimate_message_tokens, preflight_input_tokens};

fn msg(role: &str, content: &str) -> ChatMessage {
    ChatMessage { role: role.into(), content: content.into(), images: Vec::new() }
}

fn result(text: &str, input: u32, incomplete: bool) -> CompletionResult {
    CompletionResult {
        text: text.into(),
        model: "test".into(),
        latency_ms: 0,
        usage: TokenUsage { input_tokens: input, output_tokens: 0 },
        context_window_size: None,
        scoped_text: None,
        session_summary: None,
        memory_compressed: false,
        evicted_turns: None,
        context_recovered: false,
        stream_incomplete: incomplete,
        finish_reason: None,
        output_truncated: false,
        retrieved_memory: None,
        vector_chunks_used: None,
        vector_memory_compressed: false,
    }
}

#[test]
fn tool_results_estimate_denser_than_plain_text() {
    let plain = "hello world ".repeat(100);
    let tool = format!("[Tool result: read_file]\n{}", "x".repeat(4000));
    let plain_t = estimate_message_tokens(&msg("assistant", &plain));
    let tool_t = estimate_message_tokens(&msg("assistant", &tool));
    assert!(tool_t > plain_t);
    assert!(tool_t > (4000 / 4) as u32);
}

#[test]
fn preflight_is_conservative_vs_raw() {
    let raw = 7000u32;
    assert!(preflight_input_tokens(raw) > raw);
}

#[test]
fn preflight_triggers_near_limit() {
    assert!(preflight_needs_degrade(7200, 8192));
    assert!(!preflight_needs_degrade(4000, 8192));
}

#[test]
fn single_turn_keeps_last_user_only() {
    let messages = vec![msg("user", "first"), msg("assistant", "reply"), msg("user", "last goal")];
    let out = apply_message_degrade(messages, DegradeLevel::SingleTurn, None);
    assert_eq!(out.len(), 1);
    assert_eq!(out[0].content, "last goal");
}

#[test]
fn anchor_prepends_task_block() {
    let messages = vec![msg("user", "execute step 2")];
    let out = apply_message_degrade(messages, DegradeLevel::Anchor, Some("Goal: build app"));
    assert!(out[0].content.contains("## Task anchor"));
    assert!(out[0].content.contains("Goal: build app"));
}

#[test]
fn tool_summary_truncates_large_blocks() {
    let huge = "x".repeat(20_000);
    let content = format!("[Tool result: read_file]\n{huge}");
    let collapsed = collapse_tool_results(&content);
    assert!(collapsed.chars().count() < 2_000);
}

#[test]
fn tool_summary_caps_total_across_multiple_blocks() {
    let block = format!("[Tool result: read_file]\n{}", "y".repeat(5_000));
    let content = (0..8).map(|_| block.as_str()).collect::<Vec<_>>().join("\n\n");
    let collapsed = collapse_tool_results(&content);
    assert!(collapsed.chars().count() < 6_000, "collapsed len={}", collapsed.chars().count());
    assert!(collapsed.contains("summarized"));
    assert!(!collapsed.contains(&"y".repeat(5_000)));
}

#[test]
fn anchor_skipped_without_explicit_hint() {
    let messages = vec![msg("user", "execute step 2")];
    let out = apply_message_degrade(messages, DegradeLevel::Anchor, None);
    assert!(!out[0].content.contains("## Task anchor"));
    assert_eq!(out[0].content, "execute step 2");
}

#[test]
fn tool_summary_only_never_expands_tool_payload() {
    let tool = format!(
        "[Tool result: read_file]\n{}\n\n[Tool result: read_file]\n{}",
        "alpha ".repeat(2_000),
        "beta ".repeat(2_000)
    );
    let messages = vec![msg("assistant", "before"), msg("user", &tool)];
    let original_chars: usize = messages.iter().map(|m| m.content.chars().count()).sum();
    let out = apply_message_degrade(messages, DegradeLevel::ToolSummaryOnly, None);
    let degraded_chars: usize = out.iter().map(|m| m.content.chars().count()).sum();
    assert!(degraded_chars < original_chars, "degraded={degraded_chars} original={original_chars}");
}

#[test]
fn degrade_single_turn_drops_prior_secret_even_when_anchor_exists() {
    let messages = vec![
        msg("user", "SECRET_SHOULD_NOT_SURVIVE"),
        msg("assistant", "ok"),
        msg("user", "continue current step"),
    ];
    let out = apply_message_degrade(messages, DegradeLevel::Anchor, Some("Goal: ship"));
    assert_eq!(out.len(), 1);
    assert!(!out[0].content.contains("SECRET_SHOULD_NOT_SURVIVE"));
    assert!(out[0].content.contains("Goal: ship"));
    assert!(out[0].content.contains("continue current step"));
}

#[test]
fn degrade_level_progression() {
    assert_eq!(DegradeLevel::Normal.next(), Some(DegradeLevel::Aggressive));
    assert_eq!(DegradeLevel::Anchor.next(), None);
}

#[test]
fn degrade_level_roundtrips_through_rank() {
    for v in 0u8..7 {
        let level = DegradeLevel::from_u8(v).expect("level");
        assert_eq!(level.as_u8(), v);
    }
    assert_eq!(DegradeLevel::from_u8(7), None);
    assert!(DegradeLevel::NoRetrieved.omit_retrieved());
    assert!(!DegradeLevel::Emergency.omit_retrieved());
    assert!(DegradeLevel::Anchor.single_turn());
    assert_eq!(DegradeLevel::ToolSummaryOnly.label(), "tool results summarized");
}

#[test]
fn keeps_all_when_fits() {
    let messages = vec![msg("user", "hi"), msg("assistant", "hello")];
    let plan = plan_sliding_window_with_aggression(messages.clone(), 8192, "", 1024, WindowAggression::Normal);
    assert!(plan.evicted.is_empty());
    assert_eq!(plan.active.len(), 2);
}

#[test]
fn emergency_window_keeps_only_last_message() {
    let messages = vec![msg("user", "a"), msg("assistant", "b"), msg("user", "c")];
    let plan = plan_sliding_window_with_aggression(messages, 8192, "", 1024, WindowAggression::Emergency);
    assert_eq!(plan.active.len(), 1);
    assert_eq!(plan.active[0].content, "c");
    assert_eq!(plan.evicted.len(), 2);
    assert_eq!(plan.evicted[0].content, "a");
}

#[test]
fn fallback_merge_preserves_decision_from_oldest_evicted() {
    let evicted = vec![
        msg("user", "DECISION: secret code VIBE-7749"),
        msg("assistant", "accepted"),
        msg("user", &"filler ".repeat(300)),
    ];
    let out = fallback_merge_memory("", &evicted, 8192);
    assert!(out.contains("VIBE-7749"));
    assert!(out.contains("## FACTS"));
}

#[test]
fn detects_vendor_overflow_phrases() {
    assert!(is_context_overflow_message("400 · This model's maximum context length is 8192 tokens"));
    assert!(is_context_overflow_message("prompt is too long"));
    assert!(!is_context_overflow_message("connection refused"));
    assert!(!is_context_overflow_message("request took too long"));
}

#[test]
fn detects_empty_reply_near_limit() {
    assert!(looks_like_context_failure(&result("", 7500, false), 7500, 8192));
}

#[test]
fn detects_incomplete_stream() {
    assert!(looks_like_context_failure(&result("partial", 6000, true), 6000, 8192));
}

#[test]
fn detects_russian_and_english_plan_continuations() {
    assert!(is_plan_continuation_query("иди по плану"));
    assert!(is_plan_continuation_query("следующий пункт, пожалуйста"));
    assert!(is_plan_continuation_query("continue the plan"));
    assert!(is_plan_continuation_query("what is the next step?"));
}

#[test]
fn does_not_treat_generic_smalltalk_as_plan_query() {
    assert!(!is_plan_continuation_query("привет, как дела?"));
    assert!(!is_plan_continuation_query("explain this validation error"));
}

#[test]
fn trims_long_summary() {
    let long = "a".repeat(5000);
    let out = trim_summary_to_budget(&long, 8192);
    assert!(out.len() <= 8192 * 3 / 10 * 4 + 2);
    assert!(out.starts_with('…'));
}

#[test]
fn estimate_includes_system_chars() {
    let msgs = vec![ChatMessage { role: "user".into(), content: "hello world".into(), images: vec![] }];
    let base = estimate_completion_input_tokens(&msgs, None);
    let with_sys = estimate_completion_input_tokens(&msgs, Some("x".repeat(400).as_str()));
    assert!(with_sys > base);
}

#[test]
fn plain_text_estimate_is_two_sevenths_rounded_up() {
    assert_eq!(estimate_message_tokens(&msg("user", "abcdefg")), 2);
    assert_eq!(estimate_message_tokens(&msg("user", "")), 0);
    assert_eq!(estimate_message_tokens(&msg("user", "a")), 1);
}

#[test]
fn evicts_oldest_when_over_budget() {
    let messages: Vec<ChatMessage> = (0..8).map(|_| msg("user", &"word ".repeat(400))).collect();
    let plan = plan_sliding_window_with_aggression(messages, 8192, "", 1024, WindowAggression::Normal);
    assert!(!plan.evicted.is_empty());
    assert!(!plan.active.is_empty());
    assert_eq!(plan.evicted.len() + plan.active.len(), 8);
}

#[test]
fn window_with_huge_reserve_still_returns_a_plan() {
    let messages = vec![msg("user", "hi"), msg("assistant", "hello")];
    let plan = plan_sliding_window_with_aggression(messages, 8192, "", 8000, WindowAggression::Normal);
    assert_eq!(plan.evicted.len() + plan.active.len(), 2);
    assert_eq!(plan.active.last().unwrap().content, "hello");
}

#[test]
fn evicted_turns_are_an_unchanged_prefix() {
    let messages: Vec<ChatMessage> = (0..10).map(|i| msg("user", &format!("{i} {}", "x".repeat(3000)))).collect();
    let plan = plan_sliding_window_with_aggression(messages.clone(), 8192, "", 1024, WindowAggression::Normal);
    let n = plan.evicted.len();
    assert!(n > 0);
    for (i, m) in plan.evicted.iter().enumerate() {
        assert_eq!(m.content, messages[i].content);
    }
    for (i, m) in plan.active.iter().enumerate() {
        let orig = messages[n + i].content.trim();
        assert!(m.content == orig || (m.content.ends_with('…') && orig.starts_with(m.content.trim_end_matches('…'))));
    }
}
