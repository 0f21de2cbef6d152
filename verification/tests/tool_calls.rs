use vibe_prompter::json_value::json_number_text_exec;
use vibe_prompter::relaxed_args::parse_relaxed_value;
use vibe_prompter::gemma4::{
    format_tool_call, format_tool_declarations, format_tool_response, parse_gemma4_tool_calls,
    render_gemma4,
};
use vibe_prompter::json_value::JsonValue;
use vibe_prompter::openai_messages::OpenAiMessagesFormat;
use vibe_prompter::prompt_format::{
    build_context, resolve, CanonicalMessage, CanonicalRole, ChatPromptFormat, ParsedToolCall,
    PromptFormatContext, ToolCall, ToolDefinition, ToolResponse,
};
use vibe_prompter::models::ChatMessage;
use vibe_prompter::tool_call_parse::{
    dedupe_tool_calls, expand_apply_patch_calls, is_tool_call_only, parse_all_tool_calls, parse_bare_call_tool_calls,
    parse_file_edits_fence_tool_calls, parse_inline_file_edits_tool_calls, parse_loose_tool_calls,
    parse_qwen_piped_tool_calls, parse_relaxed_tool_calls,
};

fn arg<'a>(call: &'a ParsedToolCall, key: &str) -> Option<&'a JsonValue> {
    call.arguments.get(key)
}

fn arg_str<'a>(call: &'a ParsedToolCall, key: &str) -> Option<&'a str> {
    arg(call, key).and_then(|v| v.as_str())
}

fn num(n: &str) -> JsonValue {
    JsonValue::Number(n.to_string())
}

fn s(v: &str) -> JsonValue {
    JsonValue::Str(v.to_string())
}

fn obj(pairs: Vec<(&str, JsonValue)>) -> JsonValue {
    JsonValue::Object(pairs.into_iter().map(|(k, v)| (k.to_string(), v)).collect())
}

#[test]
fn parses_qwen_piped_open_close_exact() {
    let calls = parse_all_tool_calls(
        r#"<|tool_call|>call:read_file{path:test/single-page-games/index.html}</|tool_call|>"#,
    );
    assert_eq!(calls.len(), 1);
    assert_eq!(calls[0].name, "read_file");
    assert_eq!(arg_str(&calls[0], "path"), Some("test/single-page-games/index.html"));
}

#[test]
fn parses_gemma_and_qwen_in_one_pass() {
    let calls = parse_all_tool_calls(
        r#"<|tool_call>call:list_dir{path:<|"|>.<|"|>}<|tool_call|>
<|tool_call|>call:read_file{path:a.txt}</|tool_call|>"#,
    );
    assert_eq!(calls.len(), 2);
}

#[test]
fn parses_relaxed_tool_call_blocks() {
    let calls =
        parse_all_tool_calls(r#"<tool_call>call:read_file{path:test/index.html}</tool_call>"#);
    assert_eq!(calls.len(), 1);
    assert_eq!(arg_str(&calls[0], "path"), Some("test/index.html"));
}

#[test]
fn parses_qwen_json_tool_call_blocks() {
    let calls = parse_all_tool_calls(
        r#"<tool_call>
{"name": "read_file", "arguments": {"path": "test/single-page-games/index.html"}}
</tool_call>"#,
    );
    assert_eq!(calls.len(), 1);
    assert_eq!(calls[0].name, "read_file");
    assert_eq!(arg_str(&calls[0], "path"), Some("test/single-page-games/index.html"));
}

#[test]
fn parses_bare_call_without_markers() {
    let calls = parse_all_tool_calls("I will read it.\ncall:read_file{path:test/index.html}\n");
    assert_eq!(calls.len(), 1);
    assert_eq!(calls[0].name, "read_file");
}

#[test]
fn parses_multiline_qwen_piped_close() {
    let calls = parse_all_tool_calls(
        "<|tool_call|>call:read_file{path:test/single-page-games/index.html}\n</|tool_call|>",
    );
    assert_eq!(calls.len(), 1);
    assert_eq!(calls[0].name, "read_file");
}

#[test]
fn parses_apply_patch_with_json_edits_array() {
    let calls = parse_all_tool_calls(
        r#"<|tool_call|>call:apply_patch{path:vp/a.php,edits:[{"old_text":"$a","new_text":"$b"}]}</|tool_call|>"#,
    );
    assert_eq!(calls.len(), 1);
    assert_eq!(calls[0].name, "apply_patch");
    assert_eq!(arg_str(&calls[0], "path"), Some("vp/a.php"));
    assert!(arg(&calls[0], "edits").expect("edits").is_array());
}

#[test]
fn parses_file_fence_with_edits_as_apply_patch() {
    let calls = parse_all_tool_calls(
        r#"Fix:
```file:vp/src/a.php
edits:[{"old_text":"$uids","new_text":"$uuids"}]
```"#,
    );
    assert_eq!(calls.len(), 1);
    assert_eq!(calls[0].name, "apply_patch");
    assert_eq!(arg_str(&calls[0], "path"), Some("vp/src/a.php"));
    let edits = arg(&calls[0], "edits").and_then(|v| v.as_array()).expect("edits");
    assert_eq!(edits[0].get("old_text").and_then(|v| v.as_str()), Some("$uids"));
}

#[test]
fn parses_file_fence_closed_with_xml_file_tag() {
    let calls = parse_all_tool_calls(
        r#"```file:vp/src/a.php
edits:[{"old_text":"foreach ($projectUids as $x)","new_text":"foreach ($projectUuids as $x)"}]</file>"#,
    );
    assert_eq!(calls.len(), 1);
    assert_eq!(calls[0].name, "apply_patch");
    assert_eq!(arg_str(&calls[0], "path"), Some("vp/src/a.php"));
}

#[test]
fn parses_qwen_read_file_lines_array_alias() {
    let calls = parse_all_tool_calls(
        r#"<|tool_call|>call:read_file{path:vp/src/a.php,lines:[75,82]}</|tool_call|>"#,
    );
    assert_eq!(calls.len(), 1);
    assert_eq!(calls[0].name, "read_file");
    assert_eq!(arg(&calls[0], "lines"), Some(&JsonValue::Array(vec![num("75"), num("82")])));
}

#[test]
fn parses_apply_patch_with_escaped_newlines_in_quotes() {
    let calls = parse_all_tool_calls(
        r#"<|tool_call|>call:apply_patch{path:vp/a.php,old_text:"line1\nline2",new_text:"fixed\nline2"}</|tool_call|>"#,
    );
    assert_eq!(calls.len(), 1);
    assert_eq!(arg_str(&calls[0], "old_text"), Some("line1\nline2"));
    assert_eq!(arg_str(&calls[0], "new_text"), Some("fixed\nline2"));
}

#[test]
fn parses_projects_api_style_tool_calls() {
    let text = r#"<|tool_call|>call:read_file{path:vp/src/service/api/Controllers/ProjectsAPI.php,lines:[75,82]}</|tool_call|>

<|tool_call|>call:apply_patch{path:vp/src/service/api/Controllers/ProjectsAPI.php,old_text:"foreach ($projectUids as $projectUuid) {",new_text:"foreach ($projectUuids as $projectUuid) {"}</|tool_call|>"#;
    let calls = parse_all_tool_calls(text);
    assert_eq!(calls.len(), 2);
    assert_eq!(calls[0].name, "read_file");
    assert_eq!(calls[1].name, "apply_patch");
    assert_eq!(
        arg_str(&calls[1], "old_text"),
        Some("foreach ($projectUids as $projectUuid) {")
    );
}

#[test]
fn expands_multi_edit_apply_patch_into_separate_calls() {
    let expanded = expand_apply_patch_calls(vec![ParsedToolCall {
        name: "apply_patch".into(),
        arguments: obj(vec![
            (
                "edits",
                JsonValue::Array(vec![
                    obj(vec![("new_text", s("b")), ("old_text", s("a"))]),
                    obj(vec![("new_text", s("d")), ("old_text", s("c"))]),
                ]),
            ),
            ("path", s("a.php")),
        ]),
    }]);
    assert_eq!(expanded.len(), 2);
    assert_eq!(arg_str(&expanded[0], "old_text"), Some("a"));
    assert_eq!(arg_str(&expanded[1], "old_text"), Some("c"));
}

#[test]
fn parses_tool_call_output() {
    let text = r#"<|tool_call>call:get_current_weather{location:<|"|>Tokyo, JP<|"|>}<|tool_call|>"#;
    let calls = parse_gemma4_tool_calls(text);
    assert_eq!(calls.len(), 1);
    assert_eq!(calls[0].name, "get_current_weather");
    assert_eq!(arg_str(&calls[0], "location"), Some("Tokyo, JP"));
}

#[test]
fn parses_text_tool_call_blocks() {
    let calls = OpenAiMessagesFormat.parse_tool_calls(
        r#"I'll inspect it.
<|tool_call>call:read_file{path:<|"|>test/snake.js<|"|>,start_line:1,end_line:80}<|tool_call|>"#,
    );
    assert_eq!(calls.len(), 1);
    assert_eq!(calls[0].name, "read_file");
    assert_eq!(arg_str(&calls[0], "path"), Some("test/snake.js"));
    assert_eq!(arg(&calls[0], "start_line"), Some(&num("1")));
    assert_eq!(arg(&calls[0], "end_line"), Some(&num("80")));
}

#[test]
fn parses_qwen_relaxed_tool_call_blocks() {
    let calls = OpenAiMessagesFormat.parse_tool_calls(
        r#"Проверю реальный содержимое файлов:

<tool_call>call:read_file{path:test/single-page-games/index.html}</tool_call>"#,
    );
    assert_eq!(calls.len(), 1);
    assert_eq!(calls[0].name, "read_file");
    assert_eq!(arg_str(&calls[0], "path"), Some("test/single-page-games/index.html"));
}

#[test]
fn parses_relaxed_tool_call_with_line_range() {
    let calls = OpenAiMessagesFormat.parse_tool_calls(
        r#"<tool_call>call:read_file{path:"test/js/game.js", start_line: 12, end_line: 40}</tool_call>"#,
    );
    assert_eq!(calls.len(), 1);
    assert_eq!(arg_str(&calls[0], "path"), Some("test/js/game.js"));
    assert_eq!(arg(&calls[0], "start_line"), Some(&num("12")));
    assert_eq!(arg(&calls[0], "end_line"), Some(&num("40")));
}

#[test]
fn repeated_calls_across_formats_are_kept_once() {
    let text = "<|tool_call|>call:read_file{path:a.txt}</|tool_call|>\ncall:read_file{path:a.txt}";
    let calls = parse_all_tool_calls(text);
    assert_eq!(calls.len(), 1);
    assert_eq!(parse_loose_tool_calls(text).len(), 1);
}

#[test]
fn relaxed_values_read_as_json_scalars() {
    let calls = parse_relaxed_tool_calls(
        r#"<tool_call>call:t{a:TRUE,b:null,c:-7,d:1.5,e:'x\'y',f:plain text,,}</tool_call>"#,
    );
    assert_eq!(calls.len(), 1);
    let c = &calls[0];
    assert_eq!(arg(c, "a"), Some(&JsonValue::Bool(true)));
    assert_eq!(arg(c, "b"), Some(&JsonValue::Null));
    assert_eq!(arg(c, "c"), Some(&num("-7")));
    assert_eq!(arg(c, "d"), Some(&num("1.5")));
    assert_eq!(arg_str(c, "e"), Some("x'y"));
    assert_eq!(arg_str(c, "f"), Some("plain text"));
}

#[test]
fn relaxed_object_keys_are_sorted_and_last_wins() {
    let calls = parse_relaxed_tool_calls("<tool_call>call:t{b:1,a:2,b:3}</tool_call>");
    assert_eq!(calls[0].arguments, obj(vec![("a", num("2")), ("b", num("3"))]));
}

#[test]
fn qwen_list_markers_and_json_names() {
    let calls = parse_qwen_piped_tool_calls(
        r#"<|tool_calls|>{"tool": " list_dir ", "args": {"path": "."}}</|tool_calls|>"#,
    );
    assert_eq!(calls.len(), 1);
    assert_eq!(calls[0].name, "list_dir");
    assert_eq!(arg_str(&calls[0], "path"), Some("."));
}

#[test]
fn bare_calls_resume_after_each_call() {
    let calls = parse_bare_call_tool_calls("call:a{x:1} and call:b{y:2} call:{}");
    assert_eq!(calls.len(), 2);
    assert_eq!(calls[0].name, "a");
    assert_eq!(calls[1].name, "b");
}

#[test]
fn fence_without_edits_is_not_a_call() {
    assert!(parse_file_edits_fence_tool_calls("```file:a.rs\nfn main() {}\n```").is_empty());
    assert!(parse_file_edits_fence_tool_calls("```rust\nedits:[]\n```").is_empty());
}

#[test]
fn inline_file_edits_become_apply_patch() {
    let calls = parse_inline_file_edits_tool_calls(
        "FILE: src/a.rs\nedits:[{\"old_text\":\"x\",\"new_text\":\"y\"}]\n",
    );
    assert_eq!(calls.len(), 0);
    let calls = parse_inline_file_edits_tool_calls(
        "file: src/a.rs\nedits:[{\"old_text\":\"x\",\"new_text\":\"y\"}]\n",
    );
    assert_eq!(calls.len(), 1);
    assert_eq!(calls[0].name, "apply_patch");
    assert_eq!(arg_str(&calls[0], "path"), Some("src/a.rs"));
}

#[test]
fn html_entities_are_decoded_before_parsing() {
    let calls = parse_all_tool_calls("&lt;tool_call&gt;call:read_file{path:a&amp;b}&lt;/tool_call&gt;");
    assert_eq!(calls.len(), 1);
    assert_eq!(arg_str(&calls[0], "path"), Some("a&b"));
}

#[test]
fn tool_call_only_text() {
    assert!(is_tool_call_only("<tool_call>call:read_file{path:a}</tool_call>"));
    assert!(is_tool_call_only("<|tool_call|>call:read_file{path:a.txt}</|tool_call|>"));
    assert!(is_tool_call_only("ok <tool_call>call:read_file{path:a}</tool_call>"));
    assert!(!is_tool_call_only("   "));
    assert!(!is_tool_call_only("Here is a long answer without any calls at all."));
}

#[test]
fn gemma_objects_with_a_broken_value_give_empty_arguments() {
    let calls = parse_gemma4_tool_calls("<|tool_call>call:x{a:<|\"|>open}<|tool_call|>");
    assert_eq!(calls.len(), 1);
    assert_eq!(calls[0].arguments, JsonValue::Object(vec![]));
    let calls = parse_gemma4_tool_calls("<|tool_call>call:x{a:[1,<|\"|>s<|\"|>,true],b:{c:null}}<|tool_call|>");
    assert_eq!(
        calls[0].arguments,
        obj(vec![
            ("a", JsonValue::Array(vec![num("1"), s("s"), JsonValue::Bool(true)])),
            ("b", obj(vec![("c", JsonValue::Null)])),
        ])
    );
}

#[test]
fn expand_keeps_single_edit_and_other_calls() {
    let single = ParsedToolCall {
        name: "apply_patch".into(),
        arguments: obj(vec![
            ("edits", JsonValue::Array(vec![obj(vec![("old_text", s("a"))])])),
            ("expected_hash", s("h")),
            ("path", s("p")),
        ]),
    };
    let other = ParsedToolCall { name: "read_file".into(), arguments: obj(vec![("path", s("p"))]) };
    let out = expand_apply_patch_calls(vec![single, other]);
    assert_eq!(out.len(), 2);
    assert_eq!(out[1].name, "read_file");
    let multi = ParsedToolCall {
        name: "apply_patch".into(),
        arguments: obj(vec![
            ("edits", JsonValue::Array(vec![obj(vec![("old_text", s("a"))]), s("junk")])),
            ("expected_hash", s("h")),
            ("path", s("p")),
        ]),
    };
    let out = expand_apply_patch_calls(vec![multi]);
    assert_eq!(out.len(), 2);
    assert_eq!(
        out[0].arguments,
        obj(vec![("expected_hash", s("h")), ("old_text", s("a")), ("path", s("p"))])
    );
    assert_eq!(out[1].arguments, obj(vec![("expected_hash", s("h")), ("path", s("p"))]));
}

#[test]
fn file_line_at_end_of_text_is_not_a_call() {
    assert!(parse_inline_file_edits_tool_calls("see file: b.rs").is_empty());
}

#[test]
fn gemma_strings_keep_commas_and_brackets() {
    let calls = parse_gemma4_tool_calls(
        "<|tool_call>call:w{text:<|\"|>a, [b] {c}<|\"|>,n:2}<|tool_call|>",
    );
    assert_eq!(calls[0].arguments, obj(vec![("n", num("2")), ("text", s("a, [b] {c}"))]));
}

fn user(text: &str) -> CanonicalMessage {
    CanonicalMessage {
        role: CanonicalRole::User,
        content: Some(text.into()),
        tool_calls: vec![],
        tool_responses: vec![],
    }
}

#[test]
fn renders_basic_user_turn() {
    let ctx = PromptFormatContext {
        system: Some("You are helpful.".into()),
        messages: vec![user("Hello")],
        tools: vec![],
        add_generation_prompt: true,
    };
    let rendered = render_gemma4(&ctx);
    assert!(rendered.starts_with("<bos><|turn>system\nYou are helpful.<|turn|>"));
    assert!(rendered.contains("<|turn>user\nHello<|turn|>"));
    assert!(rendered.ends_with("<|turn>model\n"));
}

fn location_tool(name: &str, description: &str, with_description: bool) -> ToolDefinition {
    let mut location = vec![("type", s("string"))];
    if with_description {
        location.insert(0, ("description", s("The city name, e.g. San Francisco")));
    }
    ToolDefinition {
        name: name.into(),
        description: description.into(),
        parameters: obj(vec![
            ("properties", obj(vec![("location", obj(location))])),
            ("required", JsonValue::Array(vec![s("location")])),
            ("type", s("object")),
        ]),
    }
}

#[test]
fn renders_tool_declaration() {
    let ctx = PromptFormatContext {
        system: Some("You are a helpful assistant.".into()),
        messages: vec![user("What's the temperature in London?")],
        tools: vec![location_tool(
            "get_current_temperature",
            "Gets the current temperature for a given location.",
            true,
        )],
        add_generation_prompt: true,
    };
    let rendered = render_gemma4(&ctx);
    assert!(rendered.contains("<|tool>declaration:get_current_temperature{"));
    assert!(rendered.contains("location"));
    assert!(rendered.contains("<|turn>user\nWhat's the temperature in London?<|turn|>"));
}

#[test]
fn renders_assistant_tool_roundtrip() {
    let ctx = PromptFormatContext {
        system: Some("You are a helpful assistant.".into()),
        messages: vec![
            user("Hey, what's the weather in Tokyo right now?"),
            CanonicalMessage {
                role: CanonicalRole::Assistant,
                content: Some("The current weather in Tokyo is 15 degrees Celsius and sunny.".into()),
                tool_calls: vec![ToolCall {
                    name: "get_current_weather".into(),
                    arguments: obj(vec![("location", s("Tokyo, JP"))]),
                }],
                tool_responses: vec![ToolResponse {
                    name: "get_current_weather".into(),
                    response: obj(vec![("temperature", num("15")), ("weather", s("sunny"))]),
                }],
            },
        ],
        tools: vec![location_tool(
            "get_current_weather",
            "Gets the current weather in a given location.",
            false,
        )],
        add_generation_prompt: false,
    };
    let rendered = render_gemma4(&ctx);
    assert!(rendered.contains("<|tool_call>call:get_current_weather{"));
    assert!(rendered.contains("<|tool_response>response:get_current_weather{"));
    assert!(rendered.contains("15 degrees Celsius"));
}

#[test]
fn tool_declaration_text_is_exact() {
    let decl = format_tool_declarations(&[location_tool("w", "Weather <now>", true)]);
    assert_eq!(
        decl,
        "<|tool>declaration:w{description:<|\"|>Weather \\<now><|\"|>,parameters:{properties:{location:{description:<|\"|>The city name, e.g. San Francisco<|\"|>,type:<|\"|>STRING<|\"|>}},required:[<|\"|>location<|\"|>],type:<|\"|>OBJECT<|\"|>}}<|tool|>"
    );
    let bare = format_tool_declarations(&[ToolDefinition {
        name: "t".into(),
        description: "d".into(),
        parameters: JsonValue::Null,
    }]);
    assert_eq!(bare, "<|tool>declaration:t{description:<|\"|>d<|\"|>,parameters:{type:<|\"|>OBJECT<|\"|>}}<|tool|>");
}

#[test]
fn tool_call_and_response_texts_are_exact() {
    let args = obj(vec![
        ("flags", JsonValue::Array(vec![JsonValue::Bool(true), JsonValue::Null, obj(vec![("k", num("1"))])])),
        ("path", s("a<b")),
    ]);
    assert_eq!(
        format_tool_call("read", &args),
        "<|tool_call>call:read{flags:[true,null,{k:1}],path:<|\"|>a\\<b<|\"|>}<|tool_call|>"
    );
    assert_eq!(
        format_tool_response("read", &s("ok")),
        "<|tool_response>response:read{_:<|\"|>ok<|\"|>}<|tool_response|>"
    );
    assert_eq!(format_tool_response("x", &JsonValue::Null), "<|tool_response>response:x{}<|tool_response|>");
}

#[test]
fn rendered_tool_call_reads_back() {
    let args = obj(vec![("path", s("src/a, b.rs")), ("start_line", num("3"))]);
    let text = format_tool_call("read_file", &args);
    let calls = parse_gemma4_tool_calls(&text);
    assert_eq!(calls.len(), 1);
    assert_eq!(calls[0].name, "read_file");
    assert_eq!(calls[0].arguments, args);
}

#[test]
fn render_without_system_or_tools_has_no_system_turn() {
    let ctx = PromptFormatContext {
        system: Some("   ".into()),
        messages: vec![
            CanonicalMessage { role: CanonicalRole::System, content: Some("  rules ".into()), tool_calls: vec![], tool_responses: vec![] },
            user("  hi  "),
        ],
        tools: vec![],
        add_generation_prompt: false,
    };
    assert_eq!(render_gemma4(&ctx), "<bos><|turn>system\nrules<|turn|><|turn>user\nhi<|turn|>");
    let ctx = PromptFormatContext { system: None, messages: vec![user("hi")], tools: vec![], add_generation_prompt: false };
    assert_eq!(render_gemma4(&ctx), "<bos><|turn>user\nhi<|turn|>");
}

#[test]
fn build_context_maps_roles_and_empty_contents() {
    let msgs = vec![
        ChatMessage { role: "system".into(), content: "s".into(), images: vec![] },
        ChatMessage { role: "assistant".into(), content: "".into(), images: vec![] },
        ChatMessage { role: "tool".into(), content: "t".into(), images: vec![] },
    ];
    let ctx = build_context(Some("sys".into()), &msgs, vec![], true);
    assert_eq!(ctx.messages.len(), 3);
    assert_eq!(ctx.messages[0].role, CanonicalRole::System);
    assert_eq!(ctx.messages[1].role, CanonicalRole::Assistant);
    assert_eq!(ctx.messages[1].content, None);
    assert_eq!(ctx.messages[2].role, CanonicalRole::User);
    assert!(ctx.add_generation_prompt);
    assert_eq!(resolve("gemma4").render(&ctx), render_gemma4(&ctx));
    assert_eq!(resolve("other").render(&ctx), "");
}

#[test]
fn dedupe_keeps_first_of_each_call_once() {
    let call = |name: &str, arg: &str| ParsedToolCall {
        name: name.to_string(),
        arguments: JsonValue::Object(vec![("path".to_string(), JsonValue::Str(arg.to_string()))]),
    };
    let pairs = |calls: &[ParsedToolCall]| -> Vec<(String, String)> {
        calls
            .iter()
            .map(|c| (c.name.clone(), c.arguments.get("path").and_then(|v| v.as_str()).unwrap_or("").to_string()))
            .collect()
    };
    let calls = vec![call("read_file", "a"), call("list_dir", "."), call("read_file", "a"), call("read_file", "b")];
    let once = dedupe_tool_calls(calls);
    let first = pairs(&once);
    assert_eq!(
        first,
        vec![
            ("read_file".to_string(), "a".to_string()),
            ("list_dir".to_string(), ".".to_string()),
            ("read_file".to_string(), "b".to_string()),
        ]
    );
    let twice = dedupe_tool_calls(once);
    assert_eq!(pairs(&twice), first);
}

#[test]
fn float_literals_become_json_numbers() {

    let norm = |s: &str| -> String { json_number_text_exec(&s.chars().collect::<Vec<_>>()).into_iter().collect() };
    assert_eq!(norm(".5"), "0.5");
    assert_eq!(norm("+1.5"), "1.5");
    assert_eq!(norm("1."), "1.0");
    assert_eq!(norm("-007.25e+3"), "-7.25e+3");
    assert_eq!(norm("00"), "0");
    for text in [".5", "+1.5", "1.", "-007.25e+3", "1.5"] {
        let n: serde_json::Value = serde_json::from_str(&norm(text)).expect("valid JSON number");
        assert!(n.is_number());
    }
    let v = parse_relaxed_value(&".5".chars().collect::<Vec<_>>(), false);
    assert_eq!(v, JsonValue::Number("0.5".to_string()));
}
