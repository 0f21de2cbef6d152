use vibe_prompter::chat_commands::resolve_context_limit;
use vibe_prompter::json_value::JsonValue;
use vibe_prompter::prompt_format::ToolDefinition;
use vibe_prompter::agent_tools::{
    apply_tool_output_truncation, augment_system_for_tools, available_tools_block,
    cap_tool_followup_turn_text, connection_tools_active, scope_enables_tools, scope_path_for_tools,
    should_continue_tool_completion, stitch_tool_continuation, tool_continuation_context,
    tool_continuation_messages, tool_continuation_prompt,
};
use vibe_prompter::chat_commands::{
    append_diagnostic_inspection_protocol, append_file_artifact_protocol, effective_chat_max_tokens,
    image_mime, is_cancelled_err, is_image_ext, is_text_ext, user_requests_diagnosis,
};
use vibe_prompter::continuation::{
    apply_output_truncation, continuation_context, continuation_messages, continuation_prompt,
    merge_completion_result, should_auto_continue_completion, should_request_next_part,
    stitch_continuation, tail_chars,
};
use vibe_prompter::models::{AppError, ChatMessage, CompletionResult, TokenUsage};
use vibe_prompter::prompt_format::{default_format_id, list_formats, resolve};
use vibe_prompter::workspace_scope::{
    augment_messages_with_scope, scope_user_context_block, ChatContextPayload, ChatScope,
};
use vibe_prompter::chat_commands::chat_attachment;

fn completion(text: &str, output_tokens: u32, finish: Option<&str>) -> CompletionResult {
    CompletionResult {
        text: text.into(),
        model: "test".into(),
        latency_ms: 0,
        usage: TokenUsage { input_tokens: 10, output_tokens },
        context_window_size: None,
        scoped_text: None,
        session_summary: None,
        memory_compressed: false,
        evicted_turns: None,
        context_recovered: false,
        stream_incomplete: false,
        finish_reason: finish.map(|s| s.to_string()),
        output_truncated: false,
        retrieved_memory: None,
        vector_chunks_used: None,
        vector_memory_compressed: false,
    }
}

fn folder(path: &str, tree: &str) -> ChatScope {
    ChatScope::Folder {
        path: path.into(),
        tree_summary: tree.into(),
        outline_summary: String::new(),
        files: vec![],
        truncated: false,
    }
}

fn user(content: &str) -> ChatMessage {
    ChatMessage { role: "user".into(), content: content.into(), images: vec![] }
}

#[test]
fn stitches_repeated_continuation_overlap() {
    let a = "function demo() {\n    return 1;\n";
    let b = "    return 1;\n}\n";
    assert_eq!(stitch_continuation(a, b), "function demo() {\n    return 1;\n}\n");
}

#[test]
fn code_fence_continuation_prompt_stays_inside_code() {
    let ctx = continuation_context("```php\n<?php\nfunction demo() {\n");
    let prompt = continuation_prompt(&ctx);
    assert!(prompt.contains("inside a `php` code block"));
    assert!(prompt.contains("Close the markdown fence"));
    assert!(prompt.contains("/no_think"));
}

#[test]
fn incomplete_generated_file_forces_auto_continue_without_length_finish_reason() {
    let mut result = CompletionResult {
        text: String::new(),
        model: "test".into(),
        latency_ms: 0,
        usage: Default::default(),
        context_window_size: None,
        scoped_text: None,
        session_summary: None,
        memory_compressed: false,
        evicted_turns: None,
        context_recovered: false,
        stream_incomplete: false,
        finish_reason: Some("stop".into()),
        output_truncated: false,
        retrieved_memory: None,
        vector_chunks_used: None,
        vector_memory_compressed: false,
    };
    let text = "```file src/app.ts\nexport const unfinished = ";
    assert!(should_auto_continue_completion(&result, text));
    result.output_truncated = true;
    assert!(should_auto_continue_completion(&result, "done"));
}

#[test]
fn generated_file_continuation_prompt_allows_closing_fence() {
    let ctx = continuation_context("```file src/app.ts\nexport const x = ");
    let prompt = continuation_prompt(&ctx);
    assert!(prompt.contains("generated file fence"));
    assert!(prompt.contains("close the markdown fence"));
    assert!(prompt.contains("next ```file"));
}

#[test]
fn diagnostic_folder_request_requires_tool_inspection_before_file_fences() {
    let ctx = ChatContextPayload {
        scope: folder("test", "index.html\njs/snake.js"),
        modifiers: vec!["developer".into()],
        language_id: None,
    };
    let messages = vec![user("не работает, на экране всегда game over, разберись")];
    let mut system = Some("base".to_string());
    append_diagnostic_inspection_protocol(&mut system, &messages, Some(&ctx));
    let system = system.unwrap();
    assert!(system.contains("Diagnostic/debug request in workspace scope"));
    assert!(system.contains("First inspect the relevant files"));
    assert!(system.contains("Do not output generated file fences"));
}

#[test]
fn non_diagnostic_folder_edit_does_not_get_inspection_gate() {
    let ctx = ChatContextPayload {
        scope: folder("test", "index.html"),
        modifiers: vec!["developer".into()],
        language_id: None,
    };
    let messages = vec![user("добавь кнопку рестарта")];
    let mut system = Some("base".to_string());
    append_diagnostic_inspection_protocol(&mut system, &messages, Some(&ctx));
    assert_eq!(system.as_deref(), Some("base"));
}

#[test]
fn file_scope_diagnosis_uses_inline_file_without_extra_gate() {
    let scope = ChatScope::File {
        path: "test/game.js".into(),
        content: "const gameOver = true;".into(),
        content_hash: String::new(),
        line_start: 1,
        line_end: 1,
        language_id: Some("javascript".into()),
    };
    let ctx = ChatContextPayload { scope, modifiers: vec![], language_id: None };
    let messages = vec![user("почему всегда game over?")];
    let mut system = Some("base".to_string());
    append_diagnostic_inspection_protocol(&mut system, &messages, Some(&ctx));
    assert_eq!(system.as_deref(), Some("base"));
}

#[test]
fn folder_scope_enables_tools() {
    let scope = folder("src/app", "");
    assert!(scope_enables_tools(&scope));
    assert_eq!(scope_path_for_tools(&scope).as_deref(), Some("src/app"));
}

#[test]
fn file_scope_parent_path() {
    let scope = ChatScope::File {
        path: "src/lib/foo.ts".into(),
        content: String::new(),
        content_hash: String::new(),
        line_start: 1,
        line_end: 1,
        language_id: None,
    };
    assert!(scope_enables_tools(&scope));
    assert_eq!(scope_path_for_tools(&scope).as_deref(), Some("src/lib"));
}

#[test]
fn tool_protocol_shows_exact_call_syntax() {
    let mut system = Some("base".to_string());
    let scope = folder("src/app", "");
    augment_system_for_tools(&mut system, "openai_messages", &scope, &[]);
    let system = system.unwrap();
    assert!(system.contains("<|tool_call>call:read_file"));
    assert!(system.contains("GOOD — one-line typo fix"));
    assert!(system.contains("BAD — not executed"));
    assert!(system.contains("Do not say \"I will inspect/read/check\""));
}

#[test]
fn tool_followup_detects_output_length_truncation() {
    let mut result = completion("partial", 100, Some("stop"));
    apply_tool_output_truncation(&mut result, 120);
    assert!(result.output_truncated);
    assert!(should_continue_tool_completion(&result, &result.text));
}

#[test]
fn tool_followup_continues_unclosed_file_fence() {
    let text = "```file test/app.js\nexport const x = ";
    let ctx = tool_continuation_context(text);
    let prompt = tool_continuation_prompt(&ctx);
    assert!(ctx.inside_fence);
    assert!(prompt.contains("generated file fence"));
    assert!(prompt.contains("close the markdown fence"));
}

#[test]
fn tool_followup_stitches_repeated_overlap() {
    let a = "function demo() {\n  return ";
    let b = "  return 1;\n}\n";
    assert_eq!(stitch_tool_continuation(a, b), "function demo() {\n  return 1;\n}\n");
}

#[test]
fn ignores_snippet_scope() {
    let scope = ChatScope::Snippet {
        original: "x".into(),
        working: "x".into(),
        path: None,
        line_start: None,
        line_end: None,
        language_id: None,
    };
    assert!(!scope_enables_tools(&scope));
}

#[test]
fn registry_contains_gemma4() {
    let formats = list_formats();
    assert!(formats.iter().any(|f| f.id == "gemma4"));
    assert!(formats.iter().any(|f| f.id == "openai_messages"));
}

#[test]
fn unknown_format_falls_back_to_openai() {
    assert_eq!(resolve("unknown").id(), "openai_messages");
    assert_eq!(resolve("gemma4").id(), "gemma4");
    assert_eq!(default_format_id(), "openai_messages");
    assert!(!resolve("gemma4").uses_wire_messages());
}

#[test]
fn scope_paths_and_tool_activation() {
    assert_eq!(scope_path_for_tools(&folder(" ./ ", "")), None);
    assert_eq!(scope_path_for_tools(&folder("/", "")), None);
    assert_eq!(scope_path_for_tools(&folder("/a/b/", "")).as_deref(), Some("a/b"));
    let top = ChatScope::File {
        path: "main.rs".into(),
        content: String::new(),
        content_hash: String::new(),
        line_start: 1,
        line_end: 2,
        language_id: None,
    };
    assert_eq!(scope_path_for_tools(&top), None);
    let win = ChatScope::File {
        path: "src\\a\\b.rs".into(),
        content: String::new(),
        content_hash: String::new(),
        line_start: 1,
        line_end: 2,
        language_id: None,
    };
    assert_eq!(scope_path_for_tools(&win).as_deref(), Some("src/a"));
    assert!(connection_tools_active(&ChatScope::Workspace { tree_summary: None }, "gemma4"));
    assert!(!connection_tools_active(&ChatScope::Empty, "openai_messages"));
    let mut none: Option<String> = None;
    augment_system_for_tools(&mut none, "openai_messages", &ChatScope::Empty, &[read_tool()]);
    assert!(none.is_none());
    let list = available_tools_block(&[read_tool()]);
    assert_eq!(list, "\n\nAvailable tools:\n- read_file — read a file\n");
    let mut blank = Some("  ".to_string());
    augment_system_for_tools(&mut blank, "openai_messages", &folder("a", ""), &[read_tool()]);
    let blank = blank.unwrap();
    assert!(blank.starts_with("  ## Workspace file tools (active)"));
    assert!(blank.ends_with("- read_file — read a file\n"));
    let mut gemma = None;
    augment_system_for_tools(&mut gemma, "gemma4", &folder("a", ""), &[read_tool()]);
    assert!(gemma.unwrap().ends_with("<|tool>declaration:read_file{description:<|\"|>read a file<|\"|>,parameters:{type:<|\"|>OBJECT<|\"|>}}<|tool|>"));
}

#[test]
fn scope_blocks_attach_to_last_user_message() {
    let file = ChatScope::File {
        path: "a.php".into(),
        content: "<?php echo 1;".into(),
        content_hash: "h".into(),
        line_start: 3,
        line_end: 9,
        language_id: None,
    };
    assert_eq!(scope_user_context_block(&file), "[Attached file: a.php (lines 3-9)]\n```\n<?php echo 1;\n```");
    assert_eq!(scope_user_context_block(&ChatScope::Workspace { tree_summary: Some(String::new()) }), "");
    assert_eq!(
        scope_user_context_block(&ChatScope::Workspace { tree_summary: Some("src/".into()) }),
        "[Workspace tree]\nsrc/"
    );
    let ctx = ChatContextPayload { scope: file, modifiers: vec![], language_id: None };
    let mut messages = vec![user("  fix it  ")];
    augment_messages_with_scope(&mut messages, &ctx);
    assert!(messages[0].content.starts_with("fix it\n\n[Attached file: a.php"));
    let before = messages[0].content.clone();
    augment_messages_with_scope(&mut messages, &ctx);
    assert_eq!(messages[0].content, before);
    let mut assistant_last = vec![user("q"), ChatMessage { role: "assistant".into(), content: "a".into(), images: vec![] }];
    augment_messages_with_scope(&mut assistant_last, &ctx);
    assert_eq!(assistant_last[1].content, "a");
}

#[test]
fn output_truncation_and_merging_of_parts() {
    let mut by_reason = completion("x", 0, Some("length"));
    apply_output_truncation(&mut by_reason, 0);
    assert!(by_reason.output_truncated);
    let mut under = completion("x", 10, Some("stop"));
    apply_output_truncation(&mut under, 200);
    assert!(!under.output_truncated);
    let mut combined: Option<CompletionResult> = None;
    merge_completion_result(&mut combined, completion("a", 5, Some("length")), "a");
    let mut second = completion("b", 7, Some("stop"));
    second.latency_ms = 3;
    second.stream_incomplete = true;
    merge_completion_result(&mut combined, second, "ab");
    let c = combined.unwrap();
    assert_eq!(c.text, "ab");
    assert_eq!(c.usage.output_tokens, 12);
    assert_eq!(c.usage.input_tokens, 20);
    assert_eq!(c.latency_ms, 3);
    assert!(c.stream_incomplete);
    assert_eq!(c.finish_reason.as_deref(), Some("stop"));
    assert!(should_request_next_part(0, true, true, false));
    assert!(!should_request_next_part(3, true, true, false));
    assert!(!should_request_next_part(1, true, false, false));
}

#[test]
fn continuation_requests_and_plain_cut_prompt() {
    let base = vec![user("write it")];
    let acc = "x".repeat(7000);
    let msgs = continuation_messages(&base, &acc);
    assert_eq!(msgs.len(), 3);
    assert_eq!(msgs[1].role, "assistant");
    assert_eq!(msgs[1].content.chars().count(), 6000);
    assert!(msgs[2].content.contains("above was cut off"));
    assert_eq!(tool_continuation_messages(&base, "done").len(), 3);
    let ctx = continuation_context("intro\n```\ncode\n```\nlast words");
    assert!(!ctx.inside_fence);
    assert_eq!(ctx.last_line, "last words");
    assert!(continuation_prompt(&ctx).contains("after this exact line fragment:\nlast words\n"));
    let open = continuation_context("```\nbody");
    assert!(continuation_prompt(&open).contains("inside a `code` code block"));
    assert_eq!(tail_chars("абвгд", 2), "гд");
    assert_eq!(stitch_continuation("", "x"), "x");
    assert_eq!(stitch_continuation("short", "tail"), "shorttail");
    let capped = cap_tool_followup_turn_text("y".repeat(30_000));
    assert!(capped.starts_with(&"y".repeat(24_000)));
    assert!(capped.ends_with("re-read with lines/ranges if needed]"));
}

#[test]
fn attachments_budget_and_cancellation() {
    assert!(is_image_ext("webp"));
    assert!(!is_image_ext("svg"));
    assert!(is_text_ext("toml"));
    assert!(!is_text_ext("exe"));
    assert_eq!(image_mime("jpeg"), "image/jpeg");
    assert_eq!(image_mime("tiff"), "image/png");
    assert_eq!(effective_chat_max_tokens(0, 1000, 8192), 1250);
    assert_eq!(effective_chat_max_tokens(4096, 100, 8192), 4096);
    assert_eq!(effective_chat_max_tokens(0, 8000, 8192), 512);
    assert_eq!(effective_chat_max_tokens(100_000, 10, 1_000_000), 16_000);
    assert!(is_cancelled_err(&AppError::Validation("cancelled".into())));
    assert!(!is_cancelled_err(&AppError::Validation("timeout".into())));
    assert!(user_requests_diagnosis("WHY does it crash"));
    assert!(!user_requests_diagnosis("add a button"));
    let mut sys: Option<String> = None;
    append_file_artifact_protocol(&mut sys);
    assert!(sys.unwrap().starts_with("When the user asks you to create or modify code"));
}

fn read_tool() -> ToolDefinition {
    ToolDefinition {
        name: "read_file".to_string(),
        description: "read a file".to_string(),
        parameters: JsonValue::Null,
    }
}

#[test]
fn dropped_image_is_base64() {
    let f = chat_attachment("pic.PNG", "PNG", b"hello world~".to_vec()).unwrap();
    assert_eq!(f.name, "pic.PNG");
    assert_eq!(f.mime_type, "image/png");
    assert_eq!(f.data_base64.as_deref(), Some("aGVsbG8gd29ybGR+"));
    assert!(f.text.is_none());
    let j = chat_attachment("a.jpeg", "jpeg", vec![0xff, 0xd8]).unwrap();
    assert_eq!(j.mime_type, "image/jpeg");
    assert_eq!(j.data_base64.as_deref(), Some("/9g="));
}

#[test]
fn dropped_text_is_utf8() {
    let f = chat_attachment("notes.md", "md", "héllo".as_bytes().to_vec()).unwrap();
    assert_eq!(f.mime_type, "text/plain");
    assert_eq!(f.text.as_deref(), Some("héllo"));
    assert!(f.data_base64.is_none());
    let bad = chat_attachment("x.txt", "txt", vec![0xff, 0xfe]).unwrap_err();
    assert_eq!(bad.message(), "x.txt: not valid UTF-8 text");
}

#[test]
fn dropped_file_limits_and_kinds() {
    let big_image = chat_attachment("big.gif", "gif", vec![0u8; 4 * 1024 * 1024 + 1]).unwrap_err();
    assert_eq!(big_image.message(), "big.gif: images must be under 4 MB");
    assert!(chat_attachment("ok.gif", "gif", vec![0u8; 4 * 1024 * 1024]).is_ok());
    let big_text = chat_attachment("big.log", "log", vec![b'a'; 512 * 1024 + 1]).unwrap_err();
    assert_eq!(big_text.message(), "big.log: text files must be under 512 KB");
    let other = chat_attachment("song.mp3", "mp3", vec![1, 2, 3]).unwrap_err();
    assert_eq!(other.message(), "Unsupported file: song.mp3 (images or text files only)");
}

#[test]
fn context_limit_prefers_probe_within_configured() {
    assert_eq!(resolve_context_limit(8192, Some(32768)), 8192);
    assert_eq!(resolve_context_limit(65536, Some(32768)), 32768);
    assert_eq!(resolve_context_limit(0, Some(4096)), 4096);
    assert_eq!(resolve_context_limit(16384, None), 16384);
    assert_eq!(resolve_context_limit(-1, None), 8192);
}
