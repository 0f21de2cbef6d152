use vibe_prompter::embeddings::{embed_model_candidates, embedding_model_ids_from_body, looks_like_embedding_model, push_candidate};
use vibe_prompter::inference_gate::InferenceGate;
use vibe_prompter::json_value::JsonValue;
use vibe_prompter::lmstudio::{context_length_from_body, context_probe_urls, extract_context_length, read_context_from_model};
use vibe_prompter::models::ChatMessage;
use vibe_prompter::prompt_format::{render_prompt_format, RenderPromptFormatInput};

#[test]
fn endpoint_key_strips_v1_suffix() {
    assert_eq!(InferenceGate::endpoint_key("http://localhost:1234/v1"), "http://localhost:1234");
}

#[test]
fn endpoint_key_folds_case_and_slashes() {
    assert_eq!(InferenceGate::endpoint_key("  HTTP://LocalHost:1234/V1//  "), "http://localhost:1234");
    assert_eq!(InferenceGate::endpoint_key("https://api.example.com/"), "https://api.example.com");
}

#[test]
fn lm_studio_needs_lock() {
    assert!(InferenceGate::needs_exclusive_lock("http://localhost:1234/v1"));
}

#[test]
fn openai_cloud_skips_lock() {
    assert!(!InferenceGate::needs_exclusive_lock("https://api.openai.com/v1"));
}

#[test]
fn loopback_hosts_need_lock() {
    assert!(InferenceGate::needs_exclusive_lock("http://127.0.0.1:11434"));
    assert!(InferenceGate::needs_exclusive_lock("http://[::1]:8080/v1"));
    assert!(InferenceGate::needs_exclusive_lock("http://0.0.0.0:5000"));
    assert!(InferenceGate::needs_exclusive_lock("http://LOCALHOST:9000"));
}

#[test]
fn context_length_from_model_keys() {
    assert_eq!(context_length_from_body(r#"{"context_length": 8192}"#), Some(8192));
    assert_eq!(context_length_from_body(r#"{"context_length": 0, "maxContextLength": 4096}"#), Some(4096));
    assert_eq!(context_length_from_body(r#"{"context_length": 1.5e3}"#), None);
    assert_eq!(context_length_from_body("not json"), None);
}

#[test]
fn context_length_from_nested_and_listing() {
    let nested = r#"{"id": "m", "loaded_instances": [{"config": {}}, {"context_length": 32768}]}"#;
    assert_eq!(context_length_from_body(nested), Some(32768));
    let listing = r#"{"data": [{"id": "a"}, {"id": "b", "max_context_length": 131072}]}"#;
    assert_eq!(context_length_from_body(listing), Some(131072));
    let array = r#"[{"id": "a"}, {"load_config": {"contextLength": 2048}}]"#;
    assert_eq!(context_length_from_body(array), Some(2048));
    assert_eq!(context_length_from_body(r#"{"data": []}"#), None);
}

#[test]
fn context_length_on_built_values() {
    let model = JsonValue::Object(vec![("contextLength".to_string(), JsonValue::Number("4096".to_string()))]);
    assert_eq!(read_context_from_model(&model), Some(4096));
    let listing = JsonValue::Array(vec![JsonValue::Null, model]);
    assert_eq!(read_context_from_model(&listing), None);
    assert_eq!(extract_context_length(&listing), Some(4096));
}

#[test]
fn probe_urls_only_for_local_lm_studio() {
    assert_eq!(
        context_probe_urls("http://localhost:1234/v1/"),
        vec!["http://localhost:1234/api/v1/models".to_string(), "http://localhost:1234/api/v0/models".to_string()]
    );
    assert!(context_probe_urls("https://api.openai.com/v1").is_empty());
}

#[test]
fn embedding_candidates_explicit_model_alone() {
    assert_eq!(embed_model_candidates(Some("  my-embed  "), "llama", &[]), vec!["my-embed".to_string()]);
}

#[test]
fn embedding_candidates_default_discovered_then_fallbacks() {
    let discovered = vec!["bge-small".to_string(), "nomic-embed-text".to_string(), " ".to_string()];
    assert_eq!(
        embed_model_candidates(Some("   "), "qwen2.5-7b", &discovered),
        vec![
            "text-embedding-nomic-embed-text-v1.5".to_string(),
            "bge-small".to_string(),
            "nomic-embed-text".to_string(),
            "nomic-embed-text:latest".to_string(),
        ]
    );
    assert_eq!(embed_model_candidates(None, "BGE-large", &[])[0], "BGE-large");
}

#[test]
fn push_candidate_skips_blank_and_repeats() {
    let mut out = vec!["a".to_string()];
    push_candidate(&mut out, "  a ");
    push_candidate(&mut out, "   ");
    push_candidate(&mut out, " b ");
    assert_eq!(out, vec!["a".to_string(), "b".to_string()]);
}

#[test]
fn embedding_ids_come_from_the_data_array() {
    let body = r#"{"data": [{"id": "qwen"}, {"id": "text-embedding-bge-m3"}, {"id": 7}, {"id": "Nomic-Embed"}]}"#;
    assert_eq!(
        embedding_model_ids_from_body(body),
        vec!["text-embedding-bge-m3".to_string(), "Nomic-Embed".to_string()]
    );
    assert!(embedding_model_ids_from_body("{}").is_empty());
    assert!(embedding_model_ids_from_body("oops").is_empty());
    assert!(looks_like_embedding_model("mxbai-EMBED-large"));
    assert!(!looks_like_embedding_model("llama3"));
}

#[test]
fn render_preview_for_gemma_and_wire_formats() {
    let input = |id: &str| RenderPromptFormatInput {
        format_id: id.to_string(),
        system: Some("You are helpful.".to_string()),
        messages: vec![ChatMessage { role: "user".into(), content: "Hello".into(), images: vec![] }],
        tools: vec![],
        add_generation_prompt: true,
    };
    let gemma = render_prompt_format(input("gemma4"));
    assert_eq!(gemma.format_id, "gemma4");
    assert!(!gemma.uses_wire_messages);
    assert!(gemma.rendered.starts_with("<bos><|turn>system\nYou are helpful.<|turn|>"));
    assert!(gemma.rendered.ends_with("<|turn>model\n"));
    assert!(gemma.tool_calls.is_empty());
    let wire = render_prompt_format(input("something-else"));
    assert_eq!(wire.format_id, "openai_messages");
    assert!(wire.uses_wire_messages);
    assert!(wire.rendered.is_empty());
}
