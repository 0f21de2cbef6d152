use vibe_prompter::json_value::JsonValue;
use vibe_prompter::models::ChatMessage;
use vibe_prompter::tool_loop::{ToolLoop, ToolLoopStep, MAX_TOOL_ITERATIONS};
use vibe_prompter::tool_results::{
    cap_tool_output_for_followup, format_apply_patch_memory_note, format_tool_followup_user_message,
    format_tool_results_for_user, format_tool_results_trace, should_summarize_turn_memory,
    tool_memory_chunks, tool_memory_entry, turn_summary_note, ToolExecutionResult,
};
use vibe_prompter::vector_memory::chunk_content_hash;

fn s(v: &str) -> JsonValue {
    JsonValue::Str(v.to_string())
}

fn num(n: &str) -> JsonValue {
    JsonValue::Number(n.to_string())
}

fn obj(pairs: Vec<(&str, JsonValue)>) -> JsonValue {
    JsonValue::Object(pairs.into_iter().map(|(k, v)| (k.to_string(), v)).collect())
}

fn ok(name: &str, output: JsonValue, message: &str) -> ToolExecutionResult {
    ToolExecutionResult { name: name.into(), ok: true, output, message: message.into() }
}

fn failed(name: &str, message: &str) -> ToolExecutionResult {
    ToolExecutionResult { name: name.into(), ok: false, output: JsonValue::Null, message: message.into() }
}

#[test]
fn read_file_output_is_capped_with_a_note() {
    let long = "x".repeat(12_005);
    let out = cap_tool_output_for_followup(
        "read_file",
        &obj(vec![("content", s(&long)), ("path", s("a.rs"))]),
        true,
    );
    let content = out.get("content").and_then(|v| v.as_str()).unwrap();
    assert!(content.starts_with(&"x".repeat(12_000)));
    assert!(content.ends_with("… [truncated — use read_file with lines:[start,end] for more]"));
    assert_eq!(out.get("truncated"), Some(&JsonValue::Bool(true)));
    assert_eq!(out.get("path"), Some(&s("a.rs")));
    let short = obj(vec![("content", s("abc"))]);
    assert_eq!(cap_tool_output_for_followup("read_file", &short, true), short);
    assert_eq!(cap_tool_output_for_followup("read_file", &s("raw"), false), s("raw"));
}

#[test]
fn patch_and_write_outputs_are_summarized() {
    let out = cap_tool_output_for_followup(
        "apply_patch",
        &obj(vec![("content_hash", s("h")), ("editsApplied", num("2")), ("path", s("a.rs"))]),
        true,
    );
    assert_eq!(
        out,
        obj(vec![
            ("contentHash", s("h")),
            ("editsApplied", num("2")),
            ("lineCount", JsonValue::Null),
            ("ok", JsonValue::Bool(true)),
            ("path", s("a.rs")),
        ])
    );
    let out = cap_tool_output_for_followup("write_file", &obj(vec![("lineCount", num("3"))]), true);
    assert_eq!(
        out,
        obj(vec![
            ("contentHash", JsonValue::Null),
            ("created", JsonValue::Bool(true)),
            ("lineCount", num("3")),
            ("path", JsonValue::Null),
        ])
    );
}

#[test]
fn generic_output_over_limit_becomes_a_preview() {
    let big = obj(vec![("data", s(&"y".repeat(13_000)))]);
    let out = cap_tool_output_for_followup("list_dir", &big, true);
    assert_eq!(out.get("truncated"), Some(&JsonValue::Bool(true)));
    let preview = out.get("preview").and_then(|v| v.as_str()).unwrap();
    assert_eq!(preview.chars().count(), 12_000);
    assert!(preview.starts_with("{\"data\":\"yyy"));
    assert_eq!(
        out.get("hint"),
        Some(&s("output too large for follow-up — use narrower tool args"))
    );
    let small = obj(vec![("entries", JsonValue::Array(vec![s("a")]))]);
    assert_eq!(cap_tool_output_for_followup("list_dir", &small, true), small);
}

#[test]
fn followup_message_per_format() {
    let results = vec![ok("read_file", obj(vec![("content", s("hi"))]), "read"), failed("list_dir", "no such dir")];
    let plain = format_tool_followup_user_message("openai_messages", &results);
    assert_eq!(
        plain,
        "[Tool result: read_file]\n{\n  \"content\": \"hi\"\n}\n\n[Tool result: list_dir]\nERROR: no such dir\n"
    );
    let gemma = format_tool_followup_user_message("gemma4", &results);
    assert_eq!(
        gemma,
        "<|tool_response>response:read_file{content:<|\"|>hi<|\"|>}<|tool_response|><|tool_response>response:list_dir{error:<|\"|>no such dir<|\"|>,ok:false}<|tool_response|>"
    );
}

#[test]
fn results_for_user_and_trace() {
    let results = vec![ok("read_file", obj(vec![("n", num("1"))]), "read 1 line"), failed("apply_patch", "mismatch")];
    assert_eq!(
        format_tool_results_for_user(&results),
        "[read_file]\n{\n  \"n\": 1\n}\n\n[apply_patch] ERROR: mismatch"
    );
    assert_eq!(format_tool_results_for_user(&[]), "");
    assert_eq!(
        format_tool_results_trace(&results),
        "[read_file] read 1 line\n[apply_patch] ERROR: mismatch"
    );
}

#[test]
fn format_apply_patch_memory_includes_edit_previews() {
    let r = ok(
        "apply_patch",
        obj(vec![
            (
                "memoryEdits",
                JsonValue::Array(vec![
                    obj(vec![("newPreview", s("$uuids")), ("oldPreview", s("$uids"))]),
                    obj(vec![]),
                ]),
            ),
            ("path", s("vp/a.php")),
        ]),
        "Patched vp/a.php",
    );
    assert_eq!(format_apply_patch_memory_note(&r), "PATCH: vp/a.php\n  $uids → $uuids");
    let bare = ok("apply_patch", obj(vec![("path", s("vp/a.php"))]), "Patched vp/a.php (1 edit)");
    assert_eq!(format_apply_patch_memory_note(&bare), "PATCH: vp/a.php\n  vp/a.php (1 edit)");
    let nopath = ok("apply_patch", obj(vec![]), "Patched x");
    assert_eq!(format_apply_patch_memory_note(&nopath), "");
}

#[test]
fn memory_entries_by_tool() {
    let read = ok(
        "read_file",
        obj(vec![
            ("content", s("fn  main()\n{ }")),
            ("lineEnd", num("9")),
            ("lineStart", num("1")),
            ("path", s("src/main.rs")),
        ]),
        "read",
    );
    let (role, text) = tool_memory_entry(&read).unwrap();
    assert_eq!(role, "code-read");
    assert_eq!(text, "CODE: src/main.rs\nLINES: 1-9\n---\nfn main() { }");
    let outline = ok(
        "file_outline",
        obj(vec![("path", s("a.rs")), ("symbols", JsonValue::Array(vec![s("f")]))]),
        "",
    );
    assert_eq!(
        tool_memory_entry(&outline),
        Some(("symbol-index".to_string(), "REPO: a.rs\nSYMBOLS:\n[\"f\"]".to_string()))
    );
    assert_eq!(tool_memory_entry(&failed("read_file", "x")), None);
    assert_eq!(tool_memory_entry(&ok("list_dir", obj(vec![("path", s("."))]), "")), None);
}

#[test]
fn memory_chunks_skip_indexed_hashes_and_blank_sessions() {
    let results = vec![
        ok("file_outline", obj(vec![("path", s("a.rs")), ("symbols", JsonValue::Array(vec![]))]), ""),
        ok("file_outline", obj(vec![("path", s("b.rs"))]), ""),
    ];
    let first_hash = chunk_content_hash("symbol-index", "REPO: a.rs\nSYMBOLS:\n[]");
    let chunks = tool_memory_chunks("s1", &results, &[first_hash]);
    assert_eq!(chunks.len(), 1);
    assert_eq!(chunks[0].1, "REPO: b.rs\nSYMBOLS:\n");
    assert_eq!(chunks[0].2, chunk_content_hash("symbol-index", "REPO: b.rs\nSYMBOLS:\n"));
    assert!(tool_memory_chunks("  ", &results, &[]).is_empty());
}

#[test]
fn turn_summaries_are_gated() {
    let results = vec![failed("read_file", "x")];
    assert!(!should_summarize_turn_memory("s", true, &results, "short"));
    assert!(should_summarize_turn_memory("s", true, &results, &"a".repeat(80)));
    assert!(!should_summarize_turn_memory("s", false, &results, &"a".repeat(80)));
    assert!(should_summarize_turn_memory("s", true, &[ok("read_file", JsonValue::Null, "")], ""));
    assert!(!should_summarize_turn_memory(" ", true, &[ok("read_file", JsonValue::Null, "")], ""));
    assert_eq!(turn_summary_note("  NONE "), None);
    assert_eq!(turn_summary_note("   "), None);
    let (text, hash) = turn_summary_note(" Fixed the bug. ").unwrap();
    assert_eq!(text, "Fixed the bug.");
    assert_eq!(hash, chunk_content_hash("memory-note", "turn-summary\0Fixed the bug."));
}

fn user(text: &str) -> ChatMessage {
    ChatMessage { role: "user".into(), content: text.into(), images: vec![] }
}

#[test]
fn tool_loop_runs_calls_and_takes_the_followup() {
    let mut lp = ToolLoop::new(
        "openai_messages",
        vec![user("read it")],
        "<tool_call>call:read_file{path:a.txt}</tool_call>".into(),
    );
    let calls = match lp.next_step(false) {
        ToolLoopStep::Run(calls) => calls,
        ToolLoopStep::Done(_) => panic!("expected calls"),
    };
    assert_eq!(calls.len(), 1);
    assert_eq!(calls[0].name, "read_file");
    lp.on_results(vec![ok("read_file", obj(vec![("content", s("hello"))]), "read")]);
    assert_eq!(lp.messages.len(), 3);
    assert_eq!(lp.messages[1].role, "assistant");
    assert_eq!(lp.messages[2].content, "[Tool result: read_file]\n{\n  \"content\": \"hello\"\n}\n");
    assert!(lp.on_followup(Some("The file says hello.".into())));
    match lp.next_step(false) {
        ToolLoopStep::Done(answer) => assert_eq!(answer, "The file says hello."),
        ToolLoopStep::Run(_) => panic!("no more calls"),
    }
    assert!(lp.finished);
}

#[test]
fn tool_loop_surfaces_results_and_failures() {
    let mut lp = ToolLoop::new("gemma4", vec![], "call:list_dir{path:x}".into());
    assert!(matches!(lp.next_step(false), ToolLoopStep::Run(_)));
    lp.on_results(vec![failed("list_dir", "missing")]);
    assert!(!lp.on_followup(Some("   ".into())));
    assert_eq!(lp.text, "[list_dir] ERROR: missing");
    match lp.next_step(false) {
        ToolLoopStep::Done(answer) => assert_eq!(answer, "[list_dir] ERROR: missing"),
        ToolLoopStep::Run(_) => panic!("no more calls"),
    }
    let mut lp = ToolLoop::new("gemma4", vec![], "call:list_dir{path:x}".into());
    assert!(matches!(lp.next_step(false), ToolLoopStep::Run(_)));
    lp.on_results(vec![failed("list_dir", "missing")]);
    assert!(lp.on_followup(Some("Could not list it.".into())));
    match lp.next_step(false) {
        ToolLoopStep::Done(answer) => {
            assert_eq!(answer, "[list_dir] ERROR: missing\n\nCould not list it.")
        }
        ToolLoopStep::Run(_) => panic!("no more calls"),
    }
}

#[test]
fn tool_loop_stops_after_six_rounds_or_on_cancel() {
    let mut lp = ToolLoop::new("openai_messages", vec![], "call:read_file{path:a}".into());
    for _ in 0..MAX_TOOL_ITERATIONS {
        assert!(matches!(lp.next_step(false), ToolLoopStep::Run(_)));
        lp.on_results(vec![ok("read_file", JsonValue::Null, "")]);
        assert!(lp.on_followup(Some("ok call:read_file{path:a}".into())));
    }
    match lp.next_step(false) {
        ToolLoopStep::Done(answer) => assert_eq!(answer, "ok call:read_file{path:a}"),
        ToolLoopStep::Run(_) => panic!("limit reached"),
    }
    assert_eq!(lp.iterations, MAX_TOOL_ITERATIONS);
    let mut lp = ToolLoop::new("openai_messages", vec![], "call:read_file{path:a}".into());
    match lp.next_step(true) {
        ToolLoopStep::Done(answer) => assert_eq!(answer, "call:read_file{path:a}"),
        ToolLoopStep::Run(_) => panic!("cancelled"),
    }
}
