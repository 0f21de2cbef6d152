use vibe_prompter::memory_compress::compress_request_timeout;
use vibe_prompter::memory_compress::{
    compress_attempt_request, compress_attempt_verdict, CompressVerdict, compression_target_chars, enforce_memory_shrink, fallback_compress_text,
    is_compress_retryable_error, session_memory_needs_compression, truncate_compress_source,
};
use vibe_prompter::memory_facts::{collect_session_facts, merge_compressed_memory, split_memory_facts, FactKind};
use vibe_prompter::models::{AppError, ChatMessage, CompletionResult, TokenUsage};
use vibe_prompter::session_summary::summary_budget_chars;
use vibe_prompter::sliding_window::{evicted_compression_body, finish_evicted_compression, format_evicted_turns};
use vibe_prompter::memory_compress::{plan_session_compression, SessionCompression};
use vibe_prompter::memory_compress::finish_session_compression;
use vibe_prompter::memory_compress::{finish_facts_compression, plan_facts_compression, FactsCompression};
use vibe_prompter::memory_compress::{turn_memory_note, turn_memory_request};
use vibe_prompter::memory_compress::compress_max_tokens;

#[test]
fn enforce_memory_shrink_clamps_growth() {
    let prior = "a".repeat(2000);
    let bloated = format!("{prior}\n{}", "b".repeat(2500));
    let out = enforce_memory_shrink(&prior, &bloated, 8192);
    assert!(out.chars().count() <= prior.chars().count());
}

#[test]
fn compression_target_is_thirty_percent() {
    assert_eq!(compression_target_chars(1000), 300);
    assert_eq!(compression_target_chars(100), 128);
}

#[test]
fn session_pressure_at_eighty_five_percent_of_budget() {
    let budget = summary_budget_chars(8192);
    let almost_full = "x".repeat((budget as f64 * 0.86) as usize);
    assert!(session_memory_needs_compression(&almost_full, 8192));
    let half = "x".repeat(budget / 2);
    assert!(!session_memory_needs_compression(&half, 8192));
}

#[test]
fn truncate_keeps_tail() {
    let src = format!("HEAD-{}-TAIL", "m".repeat(5000));
    let out = truncate_compress_source(&src, 200);
    assert!(out.starts_with('…'));
    assert!(out.contains("TAIL"));
    assert!(!out.contains("HEAD"));
}

#[test]
fn overflow_errors_are_retryable() {
    assert!(is_compress_retryable_error(&AppError::Validation("prompt is too long".into())));
    assert!(!is_compress_retryable_error(&AppError::Validation("invalid api key".into())));
}

#[test]
fn fallback_compression_keeps_structured_facts_before_trimming_narrative() {
    let source = format!(
        "PLAN_CANONICAL v8\nstep: 8 / 12\nnext: tests\nDECISION: keep local Qwen\n{}",
        "narrative ".repeat(5000)
    );
    let out = fallback_compress_text(&source, 8192);
    assert!(out.contains("PLAN_CANONICAL v8"));
    assert!(out.contains("DECISION: keep local Qwen"));
    assert!(out.contains("## FACTS"));
    assert!(out.chars().count() <= summary_budget_chars(8192));
}

#[test]
fn collect_session_facts_scans_oldest_evicted_turns() {
    let evicted = vec![
        ChatMessage { role: "user".into(), content: "DECISION: secret code VIBE-7749".into(), images: vec![] },
        ChatMessage { role: "assistant".into(), content: "ok".into(), images: vec![] },
        ChatMessage { role: "user".into(), content: "filler ".repeat(200), images: vec![] },
    ];
    let facts = collect_session_facts("", &evicted);
    assert!(facts.atoms.iter().any(|a| a.kind == FactKind::Decision && a.text.contains("VIBE-7749")));
}

#[test]
fn split_keeps_atomic_facts_out_of_narrative() {
    let src = "PLAN_CANONICAL v3\nstep: 3 / 7\nnext: validation\n\nDECISION: use sqlite\nNarrative sentence about the meeting.\nsrc-tauri/src/chat/vector_memory.rs changed";
    let facts = split_memory_facts(src);
    assert!(facts.narrative.contains("Narrative sentence"));
    assert!(!facts.narrative.contains("PLAN_CANONICAL"));
    assert!(!facts.narrative.contains("DECISION:"));
    assert_eq!(facts.atoms[0].kind, FactKind::PlanCanonical);
    assert!(facts.atoms.iter().any(|a| a.text.contains("src-tauri/src/chat/vector_memory.rs")));
}

#[test]
fn merge_preserves_facts_verbatim_before_narrative() {
    let facts = split_memory_facts("DECISION: keep Qwen local\nold narrative");
    let merged = merge_compressed_memory(&facts, "short narrative", 32_768);
    assert!(merged.starts_with("## FACTS"));
    assert!(merged.contains("DECISION: keep Qwen local"));
    assert!(merged.ends_with("short narrative"));
}

#[test]
fn dedupe_keeps_latest_decision_by_position() {
    let facts = split_memory_facts("DECISION: use rolling memory\nnoise\nDECISION: use rolling memory");
    let decisions: Vec<_> = facts.atoms.iter().filter(|a| a.kind == FactKind::Decision).collect();
    assert_eq!(decisions.len(), 1);
    assert_eq!(decisions[0].order, 2);
}

#[test]
fn plan_step_tag_becomes_plan_progress_fact() {
    let src = "<plan-step-summary>\nstep: 4 / 9\ndone: parser\nnext: tests\n</plan-step-summary>";
    let facts = split_memory_facts(src);
    assert!(facts.atoms.iter().any(|a| a.kind == FactKind::PlanProgress && a.text.contains("PLAN_PROGRESS:")));
}

#[test]
fn facts_are_ordered_by_kind_priority() {
    let facts = split_memory_facts("repo: vibe\nDECISION: a\nPLAN_CANONICAL v1\nstep: 1 / 2");
    let kinds: Vec<FactKind> = facts.atoms.iter().map(|a| a.kind).collect();
    assert_eq!(kinds, vec![FactKind::PlanCanonical, FactKind::Decision, FactKind::Repo]);
    assert_eq!(facts.narrative, "");
}

fn reply(text: &str) -> CompletionResult {
    CompletionResult {
        text: text.into(),
        model: "m".into(),
        latency_ms: 0,
        usage: TokenUsage { input_tokens: 0, output_tokens: 0 },
        context_window_size: None,
        scoped_text: None,
        session_summary: None,
        memory_compressed: false,
        evicted_turns: None,
        context_recovered: false,
        stream_incomplete: false,
        finish_reason: None,
        output_truncated: false,
        retrieved_memory: None,
        vector_chunks_used: None,
        vector_memory_compressed: false,
    }
}

#[test]
fn compress_attempt_wraps_full_memory_and_fills_target() {
    let source = "m".repeat(1000);
    let a = compress_attempt_request(&source, 400, 5000, "Compress to TARGET chars.", true);
    assert_eq!(a.target_chars, 128);
    assert_eq!(a.system_prompt, "Compress to 128 chars.");
    assert!(a.user_body.starts_with("FULL_MEMORY (400 of 1000 chars, compress to ~128):\n…"));
    assert_eq!(a.input_estimate, ((25 + 400 + 3) / 4) as u32 + 96);
    let whole = compress_attempt_request("short memory", 4000, 50, "sys TARGET", true);
    assert!(whole.user_body.starts_with("FULL_MEMORY (12 chars, compress to ~128):\nshort memory"));
    let raw = compress_attempt_request("  plain  ", 4000, 500, "sys TARGET", false);
    assert_eq!(raw.user_body, "plain");
    assert_eq!(raw.system_prompt, "sys TARGET");
}

#[test]
fn compress_verdicts() {
    let ok = reply("  compressed text  ");
    match compress_attempt_verdict(Ok(&ok), 100, 8192, 500) {
        CompressVerdict::Accept(t) => assert_eq!(t, "compressed text"),
        other => panic!("unexpected {other:?}"),
    }
    match compress_attempt_verdict(Ok(&reply("   ")), 100, 8192, 500) {
        CompressVerdict::Retry(m) => assert_eq!(m, "memory compression retryable empty/overflow"),
        other => panic!("unexpected {other:?}"),
    }
    let timeout = AppError::Validation("request timed out".into());
    match compress_attempt_verdict(Err(&timeout), 100, 8192, 500) {
        CompressVerdict::Retry(m) => assert_eq!(m, "request timed out"),
        other => panic!("unexpected {other:?}"),
    }
    let denied = AppError::Validation("401 unauthorized".into());
    assert!(matches!(compress_attempt_verdict(Err(&denied), 100, 8192, 500), CompressVerdict::Abort));
}

fn turn(role: &str, content: &str) -> ChatMessage {
    ChatMessage { role: role.into(), content: content.into(), images: Vec::new() }
}

#[test]
fn evicted_turns_are_labelled_and_trimmed() {
    let evicted = vec![turn("user", "  hi  "), turn("assistant", "hello"), turn("system", "note")];
    assert_eq!(format_evicted_turns(&evicted, 8192), "User: hi\n\nAssistant: hello\n\nUser: note");
}

#[test]
fn evicted_turns_keep_the_last_twenty_four() {
    let evicted: Vec<ChatMessage> = (0..30).map(|i| turn("user", &format!("m{i}"))).collect();
    let out = format_evicted_turns(&evicted, 8192);
    assert!(out.starts_with("User: m6\n\n"));
    assert!(out.ends_with("User: m29"));
}

#[test]
fn evicted_turns_are_cut_at_the_body_cap() {
    let evicted: Vec<ChatMessage> = (0..20).map(|_| turn("user", &"x".repeat(1000))).collect();
    let small = format_evicted_turns(&evicted, 8192);
    assert_eq!(small.chars().count(), 11_468 + 1);
    assert!(small.ends_with('…'));
    let large = format_evicted_turns(&evicted, 128_000);
    assert_eq!(large.chars().count(), 12_000 + 1);
    let long_turn = vec![turn("assistant", &"y".repeat(5000))];
    let one = format_evicted_turns(&long_turn, 8192);
    assert_eq!(one, format!("Assistant: {}…", "y".repeat(1200)));
}

#[test]
fn evicted_compression_request_body() {
    assert!(evicted_compression_body("old", &[], 8192).is_none());
    let (body, target) = evicted_compression_body("  ", &[turn("user", "hi")], 8192).unwrap();
    assert_eq!(target, 128);
    assert_eq!(
        body,
        "PRIOR_MEMORY:\n(empty)\n\nEVICTED_TURNS:\nUser: hi\n\nTARGET_LENGTH: ~128 characters (~30% of combined input)"
    );
    let prior = "p".repeat(1000);
    let (body, target) = evicted_compression_body(&prior, &[turn("user", &"q".repeat(990))], 8192).unwrap();
    assert_eq!(target, compression_target_chars(1000 + 996).min(summary_budget_chars(8192)));
    assert!(body.starts_with(&format!("PRIOR_MEMORY:\n{prior}\n\nEVICTED_TURNS:\nUser: ")));
}

#[test]
fn finished_evicted_compression_keeps_facts_before_narrative() {
    let evicted = vec![turn("user", "Decision: use sqlite")];
    let out = finish_evicted_compression("", &evicted, "  we talked about storage  ", 8192);
    assert!(out.ends_with("we talked about storage"));
    assert!(out.contains("use sqlite"));
    assert!(out.find("use sqlite").unwrap() < out.find("we talked").unwrap());
}

#[test]
fn session_compression_plans() {
    assert!(matches!(plan_session_compression("   ", 8192), SessionCompression::Done(s) if s.is_empty()));
    assert!(matches!(plan_session_compression("  short memory ", 8192), SessionCompression::Done(s) if s == "short memory"));
    let long = "m".repeat(1000);
    match plan_session_compression(&format!(" {long} "), 8192) {
        SessionCompression::Compress { source, target_chars } => {
            assert_eq!(source, long);
            assert_eq!(target_chars, compression_target_chars(1000).min(summary_budget_chars(8192)));
        }
        other => panic!("unexpected {other:?}"),
    }
}

#[test]
fn session_compression_never_grows() {
    let source = "s".repeat(400);
    let out = finish_session_compression(&source, &"c".repeat(5000), 8192);
    assert!(out.chars().count() <= 400);
    assert_eq!(finish_session_compression(&source, "  tiny  ", 8192), "tiny");
}

#[test]
fn facts_compression_plans() {
    assert!(matches!(plan_facts_compression("just chatting about the weather", 8192), FactsCompression::Whole));
    match plan_facts_compression("Decision: use sqlite", 8192) {
        FactsCompression::Done(s) => assert!(s.contains("use sqlite")),
        other => panic!("unexpected {other:?}"),
    }
    match plan_facts_compression("Decision: use sqlite\nwe chatted a lot", 8192) {
        FactsCompression::Narrative(n) => assert_eq!(n, "we chatted a lot"),
        other => panic!("unexpected {other:?}"),
    }
    let out = finish_facts_compression("Decision: use sqlite\nwe chatted a lot", "chat", 8192);
    assert!(out.contains("use sqlite"));
    assert!(out.ends_with("chat"));
}

#[test]
fn turn_note_request_and_reply() {
    assert_eq!(turn_memory_request("  ", "\n", 8192), None);
    assert_eq!(
        turn_memory_request(" fixed the parser ", "read_file src/a.rs", 8192).unwrap(),
        "Assistant excerpt:\nfixed the parser\n\nTool trace:\nread_file src/a.rs\n"
    );
    let long = "z".repeat(5000);
    let body = turn_memory_request(&long, "", 4096).unwrap();
    assert_eq!(body.chars().filter(|c| *c == 'z').count(), 4096 * 5145 / 10000 / 2 - 1);
    assert_eq!(turn_memory_note("  NONE "), None);
    assert_eq!(turn_memory_note("   "), None);
    assert_eq!(turn_memory_note(" [bug] parser drops commas ").unwrap(), "[bug] parser drops commas");
    assert_eq!(turn_memory_note(&"n".repeat(1000)).unwrap().chars().count(), 420);
}

#[test]
fn compression_output_caps() {
    assert_eq!(compress_max_tokens(30), 96);
    assert_eq!(compress_max_tokens(900), 300);
    assert_eq!(compress_max_tokens(30_000), 900);
}

#[test]
fn enforce_memory_shrink_never_exceeds_short_prior() {
    let out = enforce_memory_shrink("0123456789", &"c".repeat(1000), 8192);
    assert!(out.chars().count() <= 10);
    assert!(out.starts_with('…'));
}

#[test]
fn compress_timeout_at_least_ninety_seconds_even_when_http_is_thirty() {
    assert_eq!(compress_request_timeout(30), 90);
}

#[test]
fn compress_timeout_respects_higher_user_setting() {
    assert_eq!(compress_request_timeout(180), 180);
    assert_eq!(compress_request_timeout(3600), 600);
}
