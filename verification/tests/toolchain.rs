use vibe_prompter::json_value::JsonValue;
use vibe_prompter::toolchain_probe::{
    answer_preview, deterministic_report, file_check, first_parsed_call, list_dir_step,
    live_report_pass, page_step, parsed_call_outcome, read_file_step, rejection_step, step,
    tool_markers, FileCheck, ToolchainLiveReport, TOOLS_CSS_REL, TOOLS_PAGE_REL,
    WIRE_PATCH_SAMPLE, WIRE_WRITE_SAMPLE,
};

fn s(v: &str) -> JsonValue {
    JsonValue::Str(v.to_string())
}

#[test]
fn wire_samples_parse_to_their_calls() {
    let w = first_parsed_call(WIRE_WRITE_SAMPLE).ok().unwrap();
    assert_eq!(w.name, "write_file");
    assert_eq!(w.arguments.get("path"), Some(&s("test/harness-tools/from-wire.html")));
    assert_eq!(w.arguments.get("content"), Some(&s("<html><body>Wire</body></html>")));
    let p = first_parsed_call(WIRE_PATCH_SAMPLE).ok().unwrap();
    assert_eq!(p.name, "apply_patch");
    assert_eq!(p.arguments.get("new_text"), Some(&s("Title Wire-Patched")));
    let none = first_parsed_call("no calls here").err().unwrap();
    assert_eq!(none, (false, "parse returned 0 calls".to_string()));
}

#[test]
fn rejections_and_parsed_outcomes() {
    let r = rejection_step("write_file_reject_existing", "write_file", Err("exists".into()));
    assert!(r.pass);
    assert_eq!(r.detail, "exists");
    let r = rejection_step("x", "write_file", Ok((true, "Created".into())));
    assert!(!r.pass);
    assert_eq!(r.detail, "Created");
    assert_eq!(
        parsed_call_outcome("write_file", Ok((true, "Created x".into()))),
        (true, "write_file: Created x".to_string())
    );
    assert_eq!(parsed_call_outcome("write_file", Err("boom".into())), (false, "boom".to_string()));
}

#[test]
fn disk_listing_and_read_steps() {
    assert!(page_step("<h1>Title Wire-Patched</h1>").pass);
    let bad = page_step("nothing");
    assert!(!bad.pass);
    assert_eq!(bad.detail, "unexpected body: nothing…");
    let listing = JsonValue::Object(vec![(
        "entries".to_string(),
        JsonValue::Array(vec![
            s("test/harness-tools/from-wire.html"),
            s("test/harness-tools/page.html"),
            s("test/harness-tools/style.css"),
        ]),
    )]);
    let l = list_dir_step(true, &listing);
    assert!(l.pass);
    assert_eq!(
        l.detail,
        "entries: test/harness-tools/from-wire.html, test/harness-tools/page.html, test/harness-tools/style.css"
    );
    assert!(!list_dir_step(false, &listing).pass);
    assert!(!list_dir_step(true, &JsonValue::Null).pass);
    let read = JsonValue::Object(vec![("content".to_string(), s("é Title Wire-Patched"))]);
    let r = read_file_step(true, &read);
    assert!(r.pass);
    assert_eq!(r.detail, "read 21 chars, title OK");
}

#[test]
fn deterministic_report_needs_every_step() {
    let ok = deterministic_report(vec![step("a", "t", true, String::new())]);
    assert!(ok.all_pass);
    let bad = deterministic_report(vec![
        step("a", "t", true, String::new()),
        step("b", "t", false, String::new()),
    ]);
    assert!(!bad.all_pass);
}

fn live(tools_phase: bool, files: Vec<FileCheck>, verify: Option<bool>) -> ToolchainLiveReport {
    ToolchainLiveReport {
        tools_phase,
        answer_preview: answer_preview("done"),
        tool_markers: tool_markers("[Tool result: write_file] Created test/harness-tools/page.html"),
        files,
        verify,
    }
}

#[test]
fn live_report_verdicts() {
    let page = file_check(TOOLS_PAGE_REL, true, Some("Live Done"), "<h1>Live Done</h1>");
    let css = file_check(TOOLS_CSS_REL, true, Some("#333"), "body { color: #333; }");
    assert_eq!(
        live_report_pass(&live(true, vec![page.clone(), css.clone()], Some(true))),
        (true, "live toolchain OK".to_string())
    );
    assert_eq!(
        live_report_pass(&live(false, vec![], None)),
        (false, "tools phase never ran".to_string())
    );
    let stale = file_check(TOOLS_PAGE_REL, true, Some("Live Done"), "<h1>Live Stub</h1>");
    assert_eq!(
        live_report_pass(&live(true, vec![stale, css.clone()], None)),
        (false, "page.html missing or lacks Live Done".to_string())
    );
    assert_eq!(
        live_report_pass(&live(true, vec![page.clone()], None)),
        (false, "style.css not created or lacks #333".to_string())
    );
    assert_eq!(
        live_report_pass(&live(true, vec![page, css], Some(false))),
        (false, "run_verify file_contains failed".to_string())
    );
    let m = tool_markers("[Tool result: write_file] Created test/harness-tools/page.html");
    assert!(m.mentions_write_file && m.mentions_write_created);
    assert!(!m.mentions_apply_patch && !m.mentions_patch_applied);
    let bare = file_check("x", false, None, "");
    assert!(!bare.found && bare.contains.is_none());
}
