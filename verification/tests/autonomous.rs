use vibe_prompter::autonomous_turn::{PlanningStep, PlanningTurn, TurnRetry, TurnStep};
use vibe_prompter::plan_parse::{best_autonomous_plan_from_texts, parse_autonomous_plan, parse_steps_json};
use vibe_prompter::autonomous_plan::{
    count_plan_tag_blocks, extract_all_tag_inners, largest_plan, normalize_plan_json_body,
    parse_all_step_results, parse_step_result, plan_from_steps, AutonomousPlan, PlanStep,
    StepStatus,
};
use vibe_prompter::autonomous_runner::{
    assistant_produced_files, build_degrade_anchor, current_step_id, plan_snapshot, preview,
    resolve_step_status, should_require_spec_compliance, terminal_step_status,
    tool_results_indicate_failure, tool_results_indicate_successful_write, turn_degrade_start,
    wrap_with_protocol,
};
use vibe_prompter::autonomous_prompts::{
    completion_user_message, execution_user_message, plan_block_of, planning_user_message,
    replan_user_message, AutonomousRunConfig, AUTONOMOUS_PROTOCOL,
};
use vibe_prompter::autonomous_run::{single_step_plan_for, AutonomousRun, RunAction};
use vibe_prompter::autonomous_runner::AutonomousPhase;
use vibe_prompter::verify_spec::VerifySpec;

fn step(id: u32, status: StepStatus) -> PlanStep {
    PlanStep { id, title: format!("step {id}"), status, verify: None, note: None }
}

#[test]
fn picks_largest_plan_when_multiple_blocks() {
    let text = r#"<autonomous-plan>[{"id":1,"title":"draft","status":"pending"}]</autonomous-plan>
<autonomous-plan>
[
  {"id": 1, "title": "Design", "status": "pending"},
  {"id": 2, "title": "HTML", "status": "pending"},
  {"id": 3, "title": "CSS", "status": "pending"},
  {"id": 4, "title": "JS", "status": "pending"},
  {"id": 5, "title": "Polish", "status": "pending"},
  {"id": 6, "title": "Verify", "status": "pending"}
]
</autonomous-plan>"#;
    let plan = parse_autonomous_plan(text).expect("plan");
    assert_eq!(plan.steps.len(), 6);
}

#[test]
fn parses_plan_with_trailing_commas_and_fences() {
    let text = r#"<autonomous-plan>
```json
[
  {"id": 1, "title": "A", "status": "pending"},
  {"id": 2, "title": "B", "status": "pending"},
]
```
</autonomous-plan>"#;
    let plan = parse_autonomous_plan(text).expect("plan");
    assert_eq!(plan.steps.len(), 2);
}

#[test]
fn skips_invalid_verify_but_keeps_steps() {
    let text = r#"<autonomous-plan>[
  {"id": 1, "title": "A", "status": "pending", "verify": {"kind": "nope"}},
  {"id": 2, "title": "B", "status": "pending", "verify": {"kind": "file_contains", "path": "a.txt", "needle": "x"}}
]</autonomous-plan>"#;
    let plan = parse_autonomous_plan(text).expect("plan");
    assert_eq!(plan.steps.len(), 2);
    assert!(plan.steps[0].verify.is_none());
    assert!(plan.steps[1].verify.is_some());
}

#[test]
fn parses_plan_json() {
    let text = r#"Here is the plan:
<autonomous-plan>
[
  {"id": 1, "title": "Read file", "status": "pending"},
  {"id": 2, "title": "Patch bug", "status": "pending", "verify": {"kind": "file_not_contains", "path": "a.php", "needle": "bug"}}
]
</autonomous-plan>"#;
    let plan = parse_autonomous_plan(text).expect("plan");
    assert_eq!(plan.steps.len(), 2);
    assert_eq!(plan.steps[1].verify.as_ref().unwrap().kind, "file_not_contains");
}

#[test]
fn parses_step_result() {
    let text = r#"<step-result step="2" status="done">
Patched foreach line.
</step-result>"#;
    let r = parse_step_result(text).expect("tag");
    assert_eq!(r.step_id, 2);
    assert_eq!(r.status, StepStatus::Done);
}

#[test]
fn parses_multiple_step_results() {
    let text = r#"<step-result step="1" status="done">ok</step-result>
<step-result step="2" status="done">ok2</step-result>"#;
    let all = parse_all_step_results(text);
    assert_eq!(all.len(), 2);
    assert_eq!(all[0].step_id, 1);
    assert_eq!(all[1].step_id, 2);
}

#[test]
fn current_step_status_uses_matching_step_not_first_tag() {
    let text = r#"
<step-result step="3" status="done">future</step-result>
<step-result step="2" status="done">current</step-result>
"#;
    assert_eq!(resolve_step_status(text, 2), StepStatus::Done);
}

#[test]
fn current_step_status_uses_last_matching_tag() {
    let text = r#"
<step-result step="2" status="failed">old failure</step-result>
<step-result step="2" status="done">fixed</step-result>
"#;
    assert_eq!(resolve_step_status(text, 2), StepStatus::Done);
}

#[test]
fn infers_done_from_file_fence_without_step_result() {
    let text = "```file:test/index.html\n<!DOCTYPE html>\n<html>body</html>\n```";
    assert_eq!(resolve_step_status(text, 1), StepStatus::Done);
}

#[test]
fn wrong_step_result_without_file_output_fails() {
    let text = r#"<step-result step="9" status="done">wrong</step-result>"#;
    assert_eq!(resolve_step_status(text, 2), StepStatus::Failed);
}

#[test]
fn step_result_summary_is_trimmed_and_words_are_case_insensitive() {
    let r = parse_step_result("<STEP-RESULT Step='4' STATUS=\"Completed\">\n  all good \n</Step-Result>")
        .expect("tag");
    assert_eq!(r.step_id, 4);
    assert_eq!(r.status, StepStatus::Done);
    assert_eq!(r.summary, "all good");
    let skipped = parse_step_result(r#"<step-result step="1" status="skip">x</step-result>"#).unwrap();
    assert_eq!(skipped.status, StepStatus::Skipped);
    let failed = parse_step_result(r#"<step-result step="1" status="error">x</step-result>"#).unwrap();
    assert_eq!(failed.status, StepStatus::Failed);
}

#[test]
fn step_result_rejects_unknown_status_missing_step_or_close() {
    assert!(parse_step_result(r#"<step-result step="1" status="maybe">x</step-result>"#).is_none());
    assert!(parse_step_result(r#"<step-result status="done">x</step-result>"#).is_none());
    assert!(parse_step_result(r#"<step-result step="x1" status="done">x</step-result>"#).is_none());
    assert!(parse_step_result(r#"<step-result step="1" status="done">never closed"#).is_none());
    assert!(parse_step_result("no tags at all").is_none());
}

#[test]
fn mark_updates_first_step_with_id_and_keeps_note_without_new_one() {
    let mut plan = AutonomousPlan { steps: vec![step(1, StepStatus::Pending), step(2, StepStatus::Pending)] };
    plan.mark(2, StepStatus::Done, Some("done it".to_string()));
    assert_eq!(plan.steps[1].status, StepStatus::Done);
    assert_eq!(plan.steps[1].note.as_deref(), Some("done it"));
    plan.mark(2, StepStatus::Failed, None);
    assert_eq!(plan.steps[1].status, StepStatus::Failed);
    assert_eq!(plan.steps[1].note.as_deref(), Some("done it"));
    plan.mark(7, StepStatus::Done, None);
    assert_eq!(plan.steps[0].status, StepStatus::Pending);
}

#[test]
fn plan_queries_follow_statuses() {
    let mut plan = AutonomousPlan {
        steps: vec![step(1, StepStatus::Done), step(2, StepStatus::Pending), step(3, StepStatus::Pending)],
    };
    assert_eq!(plan.next_pending().map(|s| s.id), Some(2));
    assert!(!plan.all_done());
    assert!(!plan.all_terminal());
    assert_eq!(plan.progress_label(), "1/3");
    plan.mark(2, StepStatus::Skipped, None);
    plan.mark(3, StepStatus::Failed, None);
    assert!(plan.all_terminal());
    assert!(!plan.all_done());
    assert_eq!(plan.progress_label(), "2/3");
    assert!(plan.next_pending().is_none());
    assert!(!AutonomousPlan { steps: vec![] }.all_done());
    assert!(AutonomousPlan { steps: vec![] }.all_terminal());
}

#[test]
fn step_mut_reaches_the_step() {
    let mut plan = AutonomousPlan { steps: vec![step(5, StepStatus::Pending)] };
    if let Some(s) = plan.step_mut(5) {
        s.title = "renamed".to_string();
    }
    assert_eq!(plan.steps[0].title, "renamed");
    assert!(plan.step_mut(6).is_none());
}

#[test]
fn current_step_prefers_in_progress() {
    let plan = AutonomousPlan {
        steps: vec![step(1, StepStatus::Pending), step(2, StepStatus::InProgress)],
    };
    assert_eq!(current_step_id(&plan), Some(2));
    let plan2 = AutonomousPlan { steps: vec![step(1, StepStatus::Done), step(4, StepStatus::Pending)] };
    assert_eq!(current_step_id(&plan2), Some(4));
    let snap = plan_snapshot(&plan2, Some("warn"), None, None);
    assert_eq!(snap.progress, "1/2");
    assert_eq!(snap.current_step_id, Some(4));
    assert_eq!(snap.steps.len(), 2);
    assert_eq!(snap.steps[1].id, 4);
    assert_eq!(snap.planning_warning.as_deref(), Some("warn"));
    assert!(snap.spec_path.is_none());
}

#[test]
fn tool_result_headers_decide_failure_and_writes() {
    let failed = "ok\n[Tool result: read_file]\n{\"ok\": false, \"message\": \"missing\"}";
    assert!(tool_results_indicate_failure(failed));
    let error_line = "[Tool result: run_verify]\n   ERROR: lint failed";
    assert!(tool_results_indicate_failure(error_line));
    let body_error = format!("[Tool result: read_file]\n{}\nERROR: in file body", "line\n".repeat(12));
    assert!(!tool_results_indicate_failure(&body_error));
    assert!(!tool_results_indicate_failure("ERROR: outside any tool result"));
    let wrote = "[Tool result: write_file]\n{\"ok\": true}";
    assert!(tool_results_indicate_successful_write(wrote));
    assert!(!tool_results_indicate_successful_write("[Tool result: write_file]\n{\"ok\":false}"));
    assert_eq!(resolve_step_status(wrote, 3), StepStatus::Done);
    assert_eq!(resolve_step_status(failed, 3), StepStatus::Failed);
}

#[test]
fn short_file_fences_do_not_count_as_output() {
    assert!(!assistant_produced_files("```file:a.txt\nshort\n```"));
    assert!(assistant_produced_files("```file:a.txt\nthis body is clearly longer than twenty bytes\n```"));
}

#[test]
fn terminal_status_and_spec_compliance() {
    assert_eq!(terminal_step_status(StepStatus::Done, false, Some(true)), StepStatus::Done);
    assert_eq!(terminal_step_status(StepStatus::Done, true, None), StepStatus::Failed);
    assert_eq!(terminal_step_status(StepStatus::Done, false, Some(false)), StepStatus::Failed);
    assert_eq!(terminal_step_status(StepStatus::Failed, false, None), StepStatus::Failed);
    assert!(should_require_spec_compliance(Some("docs/brief.md"), Some(2), 3));
    assert!(!should_require_spec_compliance(Some("docs/brief.md"), Some(3), 3));
    assert!(should_require_spec_compliance(Some("docs/brief.md"), None, 2));
    assert!(!should_require_spec_compliance(None, None, 5));
}

#[test]
fn protocol_wrapping_anchor_and_preview() {
    assert_eq!(wrap_with_protocol("do it", Some("RULES")), "RULES\n\n---\n\ndo it");
    assert_eq!(wrap_with_protocol("do it", None), "do it");
    assert_eq!(build_degrade_anchor("ship", None), "Goal: ship");
    assert_eq!(build_degrade_anchor("ship", Some("<plan>")), "Goal: ship\n\n<plan>");
    assert_eq!(preview(&"я".repeat(500)).chars().count(), 400);
    assert_eq!(turn_degrade_start(1, true, 0, 0), Some(6));
    assert_eq!(turn_degrade_start(0, true, 2, 30_000), Some(4));
    assert_eq!(turn_degrade_start(0, true, 9, 100), Some(1));
    assert_eq!(turn_degrade_start(0, true, 2, 100), Some(0));
    assert_eq!(turn_degrade_start(0, false, 20, 100_000), None);
}

#[test]
fn plan_tags_are_counted_case_insensitively() {
    assert_eq!(count_plan_tag_blocks("<Autonomous-Plan>[]</autonomous-plan> <autonomous-plan>"), 2);
    assert_eq!(count_plan_tag_blocks("none"), 0);
    let inners = extract_all_tag_inners("<x> a </x><X>b</X><x>open", "x");
    assert_eq!(inners, vec!["a".to_string(), "b".to_string()]);
    assert_eq!(normalize_plan_json_body("```json\n[1,2,]\n```"), "[1,2]");
    assert_eq!(normalize_plan_json_body(" {\"a\":1,} "), "{\"a\":1}");
}

#[test]
fn verify_kinds_are_checked() {
    assert!(VerifySpec::from_fields("vitest".to_string(), None, None, None).is_some());
    assert!(VerifySpec::from_fields("php_lint".to_string(), Some("a.php".to_string()), None, None).is_some());
    assert!(VerifySpec::from_fields("rm -rf".to_string(), None, None, None).is_none());
}

fn config(verify: bool, max_replans: usize) -> AutonomousRunConfig {
    AutonomousRunConfig { max_replans, verify_steps: verify, ..AutonomousRunConfig::default() }
}

#[test]
fn config_defaults_and_clamping() {
    let d = AutonomousRunConfig::default();
    assert_eq!((d.max_steps, d.max_replans, d.max_step_retries), (12, 2, 1));
    assert!(d.planning_enabled && d.verify_steps);
    let c = AutonomousRunConfig { max_steps: 0, max_replans: 99, max_step_retries: 7, ..d }.clamped();
    assert_eq!((c.max_steps, c.max_replans, c.max_step_retries), (1, 8, 3));
    let big = AutonomousRunConfig { max_steps: 500, ..AutonomousRunConfig::default() }.clamped();
    assert_eq!(big.max_steps, 32);
}

#[test]
fn prompts_carry_plan_and_step() {
    let block = plan_block_of("[]");
    assert_eq!(block, "<autonomous-plan>\n[]\n</autonomous-plan>");
    let s = step(3, StepStatus::Pending);
    let exec = execution_user_message(&block, &s);
    assert!(exec.starts_with(&block));
    assert!(exec.contains("Execute **only step 3**: step 3"));
    assert!(exec.contains("<step-result step=\"3\" status=\"done|failed\">"));
    let re = replan_user_message(&block, &s, Some("needle missing"));
    assert!(re.contains("Step 3 (step 3) failed.\nVerification failed: needle missing"));
    assert!(!replan_user_message(&block, &s, None).contains("Verification failed"));
    assert!(planning_user_message("ship it").starts_with("Goal:\nship it\n\nCreate an execution plan only."));
    assert!(completion_user_message(&block).ends_with("what was accomplished."));
    assert!(AUTONOMOUS_PROTOCOL.contains("<step-result step=\"N\" status=\"done|failed\">"));
}

#[test]
fn run_executes_steps_until_done() {
    let plan = AutonomousPlan { steps: vec![step(1, StepStatus::Pending), step(2, StepStatus::Pending)] };
    let mut run = AutonomousRun::new(config(false, 2), plan);
    let first = match run.next_action(false) {
        RunAction::ExecuteStep { step } => step,
        other => panic!("unexpected {other:?}"),
    };
    assert_eq!(first.id, 1);
    assert_eq!(run.plan.steps[0].status, StepStatus::InProgress);
    let action = run.on_turn(first, r#"<step-result step="1" status="done">did it</step-result>"#.to_string());
    assert!(matches!(action, RunAction::Proceed));
    assert_eq!(run.plan.steps[0].status, StepStatus::Done);
    assert_eq!(run.plan.steps[0].note.as_deref(), Some("did it"));
    assert_eq!(run.records.len(), 1);
    assert_eq!(run.records[0].phase, AutonomousPhase::Executing);
    let second = match run.next_action(false) {
        RunAction::ExecuteStep { step } => step,
        other => panic!("unexpected {other:?}"),
    };
    assert_eq!(second.id, 2);
    run.on_turn(second, r#"<step-result step="2" status="done">ok</step-result>"#.to_string());
    assert!(matches!(run.next_action(false), RunAction::Complete));
    assert!(matches!(run.next_action(true), RunAction::Finish { phase: AutonomousPhase::Cancelled }));
    let result = run.into_result(AutonomousPhase::Done);
    assert_eq!(result.steps.len(), 2);
    assert_eq!(result.replans_used, 0);
}

#[test]
fn failed_step_replans_until_the_budget_is_spent() {
    let plan = AutonomousPlan { steps: vec![step(1, StepStatus::Pending)] };
    let mut run = AutonomousRun::new(config(false, 1), plan);
    let s = match run.next_action(false) {
        RunAction::ExecuteStep { step } => step,
        other => panic!("unexpected {other:?}"),
    };
    let action = run.on_turn(s, "no tags, no files".to_string());
    let failed = match action {
        RunAction::Replan { step, verify_message } => {
            assert!(verify_message.is_none());
            step
        },
        other => panic!("unexpected {other:?}"),
    };
    assert_eq!(run.replans_used, 1);
    assert_eq!(run.plan.steps[0].status, StepStatus::Failed);
    let replanned = AutonomousPlan { steps: vec![step(1, StepStatus::Done), step(2, StepStatus::Pending)] };
    assert!(matches!(run.on_replanned(Some(replanned), "new plan".to_string()), RunAction::Proceed));
    let s2 = match run.next_action(false) {
        RunAction::ExecuteStep { step } => step,
        other => panic!("unexpected {other:?}"),
    };
    assert_eq!(s2.id, 2);
    assert!(matches!(run.on_turn(s2, "still nothing".to_string()), RunAction::Finish { phase: AutonomousPhase::Failed }));
    assert_eq!(failed.id, 1);
    assert!(matches!(run.on_replanned(None, String::new()), RunAction::Finish { phase: AutonomousPhase::Failed }));
}

#[test]
fn verification_failure_marks_step_and_asks_for_replan() {
    let mut s = step(1, StepStatus::Pending);
    s.verify = VerifySpec::from_fields("file_contains".to_string(), Some("a.txt".to_string()), Some("x".to_string()), None);
    let mut run = AutonomousRun::new(config(true, 2), AutonomousPlan { steps: vec![s] });
    let s = match run.next_action(false) {
        RunAction::ExecuteStep { step } => step,
        other => panic!("unexpected {other:?}"),
    };
    let action = run.on_turn(s, r#"<step-result step="1" status="done">wrote</step-result>"#.to_string());
    match action {
        RunAction::VerifyStep { step_id, check } => {
            assert_eq!(step_id, 1);
            assert_eq!(check.kind, "file_contains");
        },
        other => panic!("unexpected {other:?}"),
    }
    let action = run.on_verified(Ok((false, "needle not found".to_string())));
    match action {
        RunAction::Replan { step, verify_message } => {
            assert_eq!(step.id, 1);
            assert_eq!(verify_message.as_deref(), Some("needle not found"));
        },
        other => panic!("unexpected {other:?}"),
    }
    assert_eq!(run.plan.steps[0].status, StepStatus::Failed);
    assert_eq!(run.plan.steps[0].note.as_deref(), Some("needle not found"));
    assert_eq!(run.records[0].phase, AutonomousPhase::Verifying);
    assert!(run.awaiting.is_none());
}

#[test]
fn passing_verification_finishes_the_step() {
    let mut s = step(1, StepStatus::Pending);
    s.verify = VerifySpec::from_fields("vitest".to_string(), None, None, None);
    let mut run = AutonomousRun::new(config(true, 2), AutonomousPlan { steps: vec![s] });
    let s = match run.next_action(false) {
        RunAction::ExecuteStep { step } => step,
        other => panic!("unexpected {other:?}"),
    };
    run.on_turn(s, r#"<step-result step="1" status="done">ok</step-result>"#.to_string());
    assert!(matches!(run.on_verified(Ok((true, "passed".to_string()))), RunAction::Proceed));
    assert_eq!(run.plan.steps[0].status, StepStatus::Done);
    assert_eq!(run.records[0].verify_ok, Some(true));
    assert!(matches!(run.next_action(false), RunAction::Complete));
}

#[test]
fn step_limit_and_single_step_plans() {
    let plan = single_step_plan_for("do the thing");
    assert_eq!(plan.steps.len(), 1);
    assert_eq!(plan.steps[0].title, "do the thing");
    let cfg = AutonomousRunConfig { max_steps: 1, verify_steps: false, ..AutonomousRunConfig::default() };
    let mut run = AutonomousRun::new(cfg, AutonomousPlan { steps: vec![step(1, StepStatus::Pending), step(2, StepStatus::Pending)] });
    let s = match run.next_action(false) {
        RunAction::ExecuteStep { step } => step,
        other => panic!("unexpected {other:?}"),
    };
    run.on_turn(s, r#"<step-result step="1" status="done">ok</step-result>"#.to_string());
    assert!(matches!(run.next_action(false), RunAction::Finish { phase: AutonomousPhase::Failed }));
}

#[test]
fn plan_steps_read_every_field() {
    let steps = parse_steps_json(
        r#"[{"id": 3, "title": "Build", "status": "in_progress", "note": "half",
            "verify": {"kind": "cargo_check", "manifest": "Cargo.toml"}, "extra": 1}]"#,
    )
    .expect("steps");
    assert_eq!(steps.len(), 1);
    assert_eq!(steps[0].id, 3);
    assert_eq!(steps[0].title, "Build");
    assert_eq!(steps[0].status, StepStatus::InProgress);
    assert_eq!(steps[0].note.as_deref(), Some("half"));
    let v = steps[0].verify.as_ref().expect("verify");
    assert_eq!(v.kind, "cargo_check");
    assert_eq!(v.manifest.as_deref(), Some("Cargo.toml"));
    assert!(v.path.is_none());
}

#[test]
fn plan_steps_reject_bad_fields() {
    assert!(parse_steps_json(r#"[{"id": -1, "title": "A"}]"#).is_none());
    assert!(parse_steps_json(r#"[{"id": 1.5, "title": "A"}]"#).is_none());
    assert!(parse_steps_json(r#"[{"id": 1}]"#).is_none());
    assert!(parse_steps_json(r#"[{"id": 1, "title": "A", "status": "later"}]"#).is_none());
    assert!(parse_steps_json(r#"[{"id": 1, "title": "A", "note": 5}]"#).is_none());
    assert!(parse_steps_json("[]").is_none());
    assert!(parse_steps_json(r#"{"id": 1, "title": "A"}"#).is_none());
    let s = parse_steps_json(r#"[{"id": 1, "title": "A", "note": null, "verify": null}]"#).expect("steps");
    assert_eq!(s[0].status, StepStatus::Pending);
    assert!(s[0].note.is_none() && s[0].verify.is_none());
}

#[test]
fn best_plan_over_several_turns() {
    let a = r#"<autonomous-plan>[{"id":1,"title":"a"}]</autonomous-plan>"#;
    let b = r#"<autonomous-plan>[{"id":1,"title":"a"},{"id":2,"title":"b"}]</autonomous-plan>"#;
    let c = r#"<autonomous-plan>[{"id":7,"title":"x"},{"id":8,"title":"y"}]</autonomous-plan>"#;
    let plan = best_autonomous_plan_from_texts(&[a, b, "no plan", c]).expect("plan");
    assert_eq!(plan.steps.len(), 2);
    assert_eq!(plan.steps[0].id, 7);
    assert!(best_autonomous_plan_from_texts(&["nothing here"]).is_none());
}

#[test]
fn turn_attempts_retry_with_anchor_and_without_retrieval() {
    let mut t = TurnRetry::new(2);
    match t.next_attempt(false, true, 3, 1000, false) {
        TurnStep::Attempt(a) => {
            assert_eq!(a.attempt, 0);
            assert_eq!(a.degrade_start, Some(0));
            assert!(a.with_anchor && !a.disable_vector_retrieval && a.use_retrieval_override);
        }
        TurnStep::Stop(m) => panic!("stopped: {m}"),
    }
    assert!(t.on_error("context overflow".to_string(), true));
    match t.next_attempt(false, false, 3, 1000, false) {
        TurnStep::Attempt(a) => {
            assert_eq!(a.attempt, 1);
            assert_eq!(a.degrade_start, Some(6));
            assert!(a.with_anchor && a.disable_vector_retrieval && !a.use_retrieval_override);
        }
        TurnStep::Stop(m) => panic!("stopped: {m}"),
    }
    assert!(!t.on_error("bad request".to_string(), false));
    assert!(t.on_error("again".to_string(), true));
    assert!(!t.on_error("last".to_string(), true));
    assert_eq!(t.attempt, 2);
    assert!(matches!(t.next_attempt(true, true, 0, 0, false), TurnStep::Stop(m) if m == "cancelled"));
}

#[test]
fn planning_turn_takes_multistep_plan_or_asks_again() {
    let mut config = AutonomousRunConfig { max_steps: 10, max_replans: 1, planning_enabled: true, verify_steps: true, max_step_retries: 1 };
    let (mut p, step) = PlanningTurn::start(&config, "Build a page");
    assert!(matches!(step, PlanningStep::Ask(m) if m.starts_with(AUTONOMOUS_PROTOCOL) && m.contains("Build a page")));
    let good = r#"<autonomous-plan>[{"id":1,"title":"a"},{"id":2,"title":"b"}]</autonomous-plan>"#;
    assert!(matches!(p.on_reply(good.to_string()), PlanningStep::Ready(plan) if plan.steps.len() == 2));
    let (mut p, _) = PlanningTurn::start(&config, "Build a page");
    let one = r#"<autonomous-plan>[{"id":1,"title":"a"}]</autonomous-plan>"#;
    assert!(matches!(p.on_reply(one.to_string()), PlanningStep::AskStricter));
    assert!(matches!(
        p.on_reply("still none".to_string()),
        PlanningStep::FitBest { plan, second_multistep: false } if plan.steps.len() == 1
    ));
    let (mut p, _) = PlanningTurn::start(&config, "Build a page");
    assert!(matches!(p.on_reply("<autonomous-plan>oops</autonomous-plan>".to_string()), PlanningStep::AskStricter));
    assert!(matches!(p.on_reply("nothing".to_string()), PlanningStep::Synthesize { hinted_blocks: 1 }));
    config.planning_enabled = false;
    let (_, step) = PlanningTurn::start(&config, "Build a page");
    assert!(matches!(step, PlanningStep::Ready(plan) if plan.steps.len() == 1 && plan.steps[0].title == "Build a page"));
}
