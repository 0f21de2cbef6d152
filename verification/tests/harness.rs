use vibe_prompter::harness::{
    check, check_workspace_files, extract_generated_file_fences, workspace_relative_path,
    HarnessDeterministicReport, REACT_SCAFFOLD_DIR,
};
use vibe_prompter::harness_fixtures::{BUGGY_FIXTURE_SOURCE, BUG_NEEDLE, FIX_NEEDLE, PATCH_OLD};
use vibe_prompter::tool_markup::{
    contains_tool_call_markup, strip_assistant_wire_markup, strip_patch_fence_markup,
    strip_tool_call_markup,
};

#[test]
fn react_scaffold_dir_constant() {
    assert!(REACT_SCAFFOLD_DIR.starts_with("test/"));
}

#[test]
fn extracts_generated_file_fence() {
    let text = "```file:test/harness-react/PLAN.md\n# Plan\nstep 2\n```";
    let blocks = extract_generated_file_fences(text);
    assert_eq!(blocks.len(), 1);
    assert_eq!(blocks[0].0, "test/harness-react/PLAN.md");
    assert!(blocks[0].1.contains("# Plan"));
}

#[test]
fn skips_patch_wire_fences() {
    let text = "```file:vp/a.php\nold_text:\nx\nnew_text:\ny\n```";
    assert!(extract_generated_file_fences(text).is_empty());
}

#[test]
fn buggy_fixture_contains_intentional_typo() {
    assert!(BUGGY_FIXTURE_SOURCE.contains(BUG_NEEDLE));
    assert!(BUGGY_FIXTURE_SOURCE.contains("getDolgomerInfo"));
    assert!(BUGGY_FIXTURE_SOURCE.contains(PATCH_OLD));
    assert!(!BUGGY_FIXTURE_SOURCE.contains(&format!("foreach ({FIX_NEEDLE}")));
}

#[test]
fn fence_headers_with_space_and_unclosed_bodies() {
    let text = "intro\n```File docs/a.md\nbody line\n```\n```rust\nfn x() {}\n```\n```file:b.txt\nunclosed tail  ";
    let blocks = extract_generated_file_fences(text);
    assert_eq!(blocks.len(), 2);
    assert_eq!(blocks[0], ("docs/a.md".to_string(), "body line".to_string()));
    assert_eq!(blocks[1], ("b.txt".to_string(), "unclosed tail".to_string()));
    assert!(extract_generated_file_fences("```file:\nx\n```").is_empty());
    assert!(extract_generated_file_fences("```file:a\nedits:[]\n```").is_empty());
}

#[test]
fn reports_and_workspace_checks() {
    let report = HarnessDeterministicReport::from_checks(vec![
        check("a", true, "ok".to_string()),
        check("b", false, "bad".to_string()),
    ]);
    assert!(!report.all_pass);
    assert_eq!(report.checks[1].id, "b");
    assert!(HarnessDeterministicReport::from_checks(vec![check("a", true, String::new())]).all_pass);
    let (present, missing) = check_workspace_files(&["a/x", "b/y", "c/z"], &[true, false, true]);
    assert_eq!(present, vec!["a/x".to_string(), "c/z".to_string()]);
    assert_eq!(missing, vec!["b/y".to_string()]);
    assert_eq!(workspace_relative_path("test/harness-react/PLAN.md"), "test\\harness-react\\PLAN.md");
}

#[test]
fn tool_markup_is_detected_and_stripped() {
    assert!(contains_tool_call_markup("<|TOOL_CALL|>call:read_file{path:a}"));
    assert!(contains_tool_call_markup("```file:a.php\nedits:[]"));
    assert!(!contains_tool_call_markup("plain answer"));
    let qwen = "<|tool_call|>call:apply_patch{path:vp/a.php}</|tool_call|>";
    assert_eq!(strip_tool_call_markup(&format!("Done.\n{qwen}\nAfter")), "Done.\n\nAfter");
    assert_eq!(strip_tool_call_markup(qwen), qwen);
    assert_eq!(strip_tool_call_markup("Text <tool_call>unclosed"), "Text");
    let stripped = strip_assistant_wire_markup(&format!(
        "Done.\n{qwen}\n```file:vp/a.php\nold_text:\nx\nnew_text:\ny\n```"
    ));
    assert!(!stripped.contains("tool_call"));
    assert!(!stripped.contains("old_text:"));
    assert_eq!(stripped, "Done.");
    assert_eq!(strip_patch_fence_markup("a\n```rust\nfn x() {}\n```\nb"), "a\n```rust\nfn x() {}\n```\nb");
    assert_eq!(strip_patch_fence_markup("a\n```file:x.php\nold</FILE>b"), "a\nb");
}

#[test]
fn parser_checks_match_the_parser() {
    let checks = vibe_prompter::harness::parser_checks();
    assert_eq!(checks.len(), 3);
    assert_eq!(checks[0].id, "parser_qwen_apply_patch");
    assert!(checks[0].pass);
    assert_eq!(checks[0].detail, "parsed 1 call(s)");
    assert_eq!(checks[1].id, "parser_old_new_fence");
    assert!(!checks[1].pass);
    assert_eq!(checks[1].detail, "apply_patch from old_text/new_text fence (0 candidate(s))");
    assert_eq!(checks[2].id, "strip_wire_markup");
    assert!(checks[2].pass);
    assert_eq!(checks[2].detail, "Done.");
}

#[test]
fn toolchain_steps_become_harness_checks() {
    let steps = vec![vibe_prompter::toolchain_probe::step("read_file_page", "read_file", true, "ok".to_string())];
    let checks = vibe_prompter::harness::toolchain_checks(&steps);
    assert_eq!(checks[0].id, "toolchain_read_file_page");
    assert!(checks[0].pass);
    assert_eq!(checks[0].detail, "read_file: ok");
}
