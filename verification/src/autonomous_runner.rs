//! Decisions of the autonomous orchestration loop: how a turn's text resolves a step,
//! what the plan snapshot shows, how much a retried turn is degraded.
use vstd::prelude::*;

use crate::autonomous_plan::{
    finished_count, id_index, is_finished, pending_index, pending_index_from, progress_text,
    step_results_from, AutonomousPlan, PlanStep, StepStatus, parse_all_step_results,
};
use crate::harness::{extract_generated_file_fences, fences_from, pair_views};
use crate::text::{
    append_str, chars_of, contains, contains_str, join, join_range, lines, lines_vec, split_on,
    split_vec, starts_with, starts_with_str, string_of, take_chars, take_vec, trim, trim_start,
    trim_start_vec, trim_vec, utf8_len, utf8_len_below, vv,
};
use crate::verify_spec::copy_opt_string;

verus! {

/// Phase of an autonomous run.
#[derive(Debug, Clone, Copy, PartialEq, Eq, Structural)]
pub enum AutonomousPhase {
    Planning,
    Executing,
    Verifying,
    Replanning,
    Completing,
    Done,
    Failed,
    Cancelled,
}

/// What happened in one executed (or verified) step.
#[derive(Debug, Clone)]
pub struct AutonomousStepRecord {
    pub step_id: u32,
    pub title: String,
    pub phase: AutonomousPhase,
    pub assistant_preview: String,
    pub verify_ok: Option<bool>,
    pub verify_message: Option<String>,
}

/// Final state of a run.
#[derive(Debug, Clone)]
pub struct AutonomousRunResult {
    pub phase: AutonomousPhase,
    pub plan: Option<AutonomousPlan>,
    pub steps: Vec<AutonomousStepRecord>,
    pub final_text: String,
    pub replans_used: u32,
    pub vector_chunks_used: Option<u32>,
    pub retrieved_memory: Option<String>,
}

/// One step as shown in a plan snapshot.
#[derive(Debug, Clone)]
pub struct StepSnapshot {
    pub id: u32,
    pub title: String,
    pub status: StepStatus,
}

/// Plan progress as shown to the user.
#[derive(Debug, Clone)]
pub struct AutonomousPlanSnapshot {
    pub progress: String,
    pub current_step_id: Option<u32>,
    pub steps: Vec<StepSnapshot>,
    pub planning_warning: Option<String>,
    pub spec_path: Option<String>,
    pub step_warning: Option<String>,
}

// ------------------------------------------------------------------
// Reading a turn's text
// ------------------------------------------------------------------

/// The first ten lines of a tool-result chunk, joined back with newlines.
pub open spec fn chunk_head(chunk: Seq<char>) -> Seq<char> {
    join(take_lines(lines(chunk), 10), seq!['\n'])
}

/// At most `n` leading lines.
pub open spec fn take_lines(ls: Seq<Seq<char>>, n: int) -> Seq<Seq<char>> {
    if n < ls.len() {
        ls.subrange(0, n)
    } else {
        ls
    }
}

/// A tool-result header that reports a failed call.
pub open spec fn head_reports_failure(head: Seq<char>) -> bool {
    ||| contains(head, "\"ok\": false"@)
    ||| contains(head, "\"ok\":false"@)
    ||| exists|k: int|
        0 <= k < lines(head).len() && starts_with(trim_start(#[trigger] lines(head)[k]), "ERROR:"@)
}

/// A tool-result header of a `write_file` call that reports no failure.
pub open spec fn chunk_reports_write(chunk: Seq<char>) -> bool {
    let head = chunk_head(chunk);
    &&& contains(chunk, "write_file"@)
    &&& !contains(head, "\"ok\": false"@)
    &&& !contains(head, "\"ok\":false"@)
    &&& !contains(head, "ERROR:"@)
}

/// The chunks following each `[Tool result:` marker.
pub open spec fn tool_chunks(text: Seq<char>) -> Seq<Seq<char>> {
    split_on(text, "[Tool result:"@)
}

/// Some tool result of the turn failed (judged by its header only, not the file body).
pub open spec fn turn_tool_failed(text: Seq<char>) -> bool {
    exists|k: int|
        1 <= k < tool_chunks(text).len() && head_reports_failure(chunk_head(#[trigger] tool_chunks(text)[k]))
}

/// Some tool result of the turn is a successful `write_file`.
pub open spec fn turn_wrote_file(text: Seq<char>) -> bool {
    exists|k: int| 1 <= k < tool_chunks(text).len() && chunk_reports_write(#[trigger] tool_chunks(text)[k])
}

/// The turn emitted a generated-file fence with a body of more than 20 bytes.
pub open spec fn turn_produced_files(text: Seq<char>) -> bool {
    exists|k: int|
        0 <= k < fences_from(text, 0).len() && utf8_len(trim(#[trigger] fences_from(text, 0)[k].1)) > 20
}

/// Status of the last result among the first `n` that belongs to the given step.
pub open spec fn last_status_for(rs: Seq<(u32, StepStatus, Seq<char>)>, id: u32, n: int) -> Option<StepStatus>
    decreases n,
{
    if n <= 0 || n > rs.len() {
        None
    } else if rs[n - 1].0 == id {
        Some(rs[n - 1].1)
    } else {
        last_status_for(rs, id, n - 1)
    }
}

/// Outcome of the executing step: its own last `<step-result>`, else a failed tool call,
/// else written files, else failure.
pub open spec fn resolved_status(text: Seq<char>, id: u32) -> StepStatus {
    let rs = step_results_from(text, 0);
    match last_status_for(rs, id, rs.len() as int) {
        Some(st) => st,
        None => if turn_tool_failed(text) {
            StepStatus::Failed
        } else if turn_produced_files(text) || turn_wrote_file(text) {
            StepStatus::Done
        } else {
            StepStatus::Failed
        },
    }
}

/// The first ten lines of a chunk.
fn chunk_head_exec(chunk: &[char]) -> (r: Vec<char>)
    ensures
        r@ == chunk_head(chunk@),
{
    let ls = lines_vec(chunk);
    let n: usize = if ls.len() < 10 {
        ls.len()
    } else {
        10
    };
    let nl: Vec<char> = vec!['\n'];
    assert(nl@ =~= seq!['\n']);
    let r = join_range(ls.as_slice(), 0, n, nl.as_slice());
    assert(vv(ls@).subrange(0, n as int) =~= take_lines(lines(chunk@), 10));
    r
}

/// Whether a header reports a failed call.
fn head_reports_failure_exec(head: &[char]) -> (r: bool)
    ensures
        r == head_reports_failure(head@),
{
    if contains_str(head, "\"ok\": false") || contains_str(head, "\"ok\":false") {
        return true;
    }
    let ls = lines_vec(head);
    let mut k: usize = 0;
    while k < ls.len()
        invariant
            k <= ls.len(),
            vv(ls@) == lines(head@),
            forall|j: int| 0 <= j < k ==> !starts_with(trim_start(#[trigger] lines(head@)[j]), "ERROR:"@),
        decreases ls.len() - k,
    {
        let t = trim_start_vec(ls[k].as_slice());
        assert(vv(ls@)[k as int] == ls@[k as int]@);
        if starts_with_str(t.as_slice(), "ERROR:") {
            return true;
        }
        k = k + 1;
    }
    false
}

/// Some tool result of the turn reports a failed call (header lines only).
pub fn tool_results_indicate_failure(text: &str) -> (r: bool)
    ensures
        r == turn_tool_failed(text@),
{
    let t = chars_of(text);
    proof {
        reveal_strlit("[Tool result:");
    }
    let parts = split_vec(t.as_slice(), "[Tool result:");
    let mut k: usize = 1;
    while k < parts.len()
        invariant
            1 <= k,
            t@ == text@,
            vv(parts@) == tool_chunks(text@),
            forall|j: int| 1 <= j < k && j < parts.len() ==> !head_reports_failure(chunk_head(#[trigger] tool_chunks(text@)[j])),
        decreases parts.len() - k,
    {
        assert(vv(parts@)[k as int] == parts@[k as int]@);
        let head = chunk_head_exec(parts[k].as_slice());
        if head_reports_failure_exec(head.as_slice()) {
            return true;
        }
        k = k + 1;
    }
    false
}

/// Some tool result of the turn is a `write_file` call whose header reports no failure.
pub fn tool_results_indicate_successful_write(text: &str) -> (r: bool)
    ensures
        r == turn_wrote_file(text@),
{
    let t = chars_of(text);
    proof {
        reveal_strlit("[Tool result:");
    }
    let parts = split_vec(t.as_slice(), "[Tool result:");
    let mut k: usize = 1;
    while k < parts.len()
        invariant
            1 <= k,
            t@ == text@,
            vv(parts@) == tool_chunks(text@),
            forall|j: int| 1 <= j < k && j < parts.len() ==> !chunk_reports_write(#[trigger] tool_chunks(text@)[j]),
        decreases parts.len() - k,
    {
        assert(vv(parts@)[k as int] == parts@[k as int]@);
        let chunk = parts[k].as_slice();
        if contains_str(chunk, "write_file") {
            let head = chunk_head_exec(chunk);
            if !contains_str(head.as_slice(), "\"ok\": false") && !contains_str(
                head.as_slice(),
                "\"ok\":false",
            ) && !contains_str(head.as_slice(), "ERROR:") {
                return true;
            }
        }
        k = k + 1;
    }
    false
}

/// The turn emitted a generated-file fence whose trimmed body is longer than 20 bytes.
pub fn assistant_produced_files(text: &str) -> (r: bool)
    ensures
        r == turn_produced_files(text@),
{
    let fences = extract_generated_file_fences(text);
    assert(fences_from(text@, 0).len() == fences@.len()) by {
        assert(pair_views(fences@).len() == fences@.len());
    }
    let mut k: usize = 0;
    while k < fences.len()
        invariant
            k <= fences.len(),
            pair_views(fences@) == fences_from(text@, 0),
            forall|j: int| 0 <= j < k ==> !(utf8_len(trim(#[trigger] fences_from(text@, 0)[j].1)) > 20),
        decreases fences.len() - k,
    {
        assert(pair_views(fences@)[k as int] == (fences@[k as int].0@, fences@[k as int].1@));
        let body = chars_of(fences[k].1.as_str());
        let t = trim_vec(body.as_slice());
        if !utf8_len_below(t.as_slice(), 21) {
            assert(utf8_len(trim(fences_from(text@, 0)[k as int].1)) > 20);
            return true;
        }
        k = k + 1;
    }
    false
}

/// Outcome of the executing step from the turn's text: the last `<step-result>` for this
/// step; else failure when a tool call failed; else done when files were written; else failure.
pub fn resolve_step_status(text: &str, executing_step_id: u32) -> (r: StepStatus)
    ensures
        r == resolved_status(text@, executing_step_id),
{
    let results = parse_all_step_results(text);
    let ghost rs = step_results_from(text@, 0);
    assert(rs.len() == results@.len()) by {
        assert(crate::autonomous_plan::tag_views(results@).len() == results@.len());
    }
    let mut n = results.len();
    while n > 0
        invariant
            n <= results.len(),
            rs.len() == results@.len(),
            rs == step_results_from(text@, 0),
            crate::autonomous_plan::tag_views(results@) == rs,
            last_status_for(rs, executing_step_id, rs.len() as int) == last_status_for(
                rs,
                executing_step_id,
                n as int,
            ),
        decreases n,
    {
        assert(rs[n - 1] == crate::autonomous_plan::tag_view(results@[n - 1]));
        if results[n - 1].step_id == executing_step_id {
            assert(last_status_for(rs, executing_step_id, n as int) == Some(results@[n - 1].status));
            return results[n - 1].status;
        }
        n = n - 1;
    }
    assert(last_status_for(rs, executing_step_id, rs.len() as int) is None);
    assert(resolved_status(text@, executing_step_id) == (if turn_tool_failed(text@) {
            StepStatus::Failed
        } else if turn_produced_files(text@) || turn_wrote_file(text@) {
            StepStatus::Done
        } else {
            StepStatus::Failed
        }));
    if tool_results_indicate_failure(text) {
        return StepStatus::Failed;
    }
    if assistant_produced_files(text) || tool_results_indicate_successful_write(text) {
        return StepStatus::Done;
    }
    StepStatus::Failed
}

/// At most 400 leading characters of a turn.
pub fn preview(text: &str) -> (r: String)
    ensures
        r@ == take_chars(text@, 400),
{
    let t = chars_of(text);
    let p = take_vec(t.as_slice(), 400);
    string_of(p.as_slice())
}

/// Final status of an executed step: failed when the step reported failure, a tool call
/// failed or verification failed; done otherwise.
pub fn terminal_step_status(step_status: StepStatus, tool_failed: bool, verify_ok: Option<bool>) -> (r: StepStatus)
    ensures
        r == (if step_status is Failed || tool_failed || verify_ok == Some(false) {
            StepStatus::Failed
        } else {
            StepStatus::Done
        }),
{
    if step_status == StepStatus::Failed {
        StepStatus::Failed
    } else if tool_failed {
        StepStatus::Failed
    } else if verify_ok == Some(false) {
        StepStatus::Failed
    } else {
        StepStatus::Done
    }
}

/// Steps after the one that introduced the spec document must confirm spec compliance
/// (after step 1 when it is not known which step did).
pub fn should_require_spec_compliance(
    spec_path: Option<&str>,
    spec_step_id: Option<u32>,
    current_step_id: u32,
) -> (r: bool)
    ensures
        r == (spec_path is Some && match spec_step_id {
            Some(id) => current_step_id > id,
            None => current_step_id > 1,
        }),
{
    spec_path.is_some() && match spec_step_id {
        Some(id) => current_step_id > id,
        None => current_step_id > 1,
    }
}

/// Protocol text, a separator, then the user content; the content alone without a protocol.
pub fn wrap_with_protocol(user_content: &str, protocol: Option<&str>) -> (r: String)
    ensures
        protocol matches Some(p) ==> r@ == p@ + "\n\n---\n\n"@ + user_content@,
        protocol is None ==> r@ == user_content@,
{
    match protocol {
        Some(p) => {
            let mut v: Vec<char> = Vec::new();
            append_str(&mut v, p);
            append_str(&mut v, "\n\n---\n\n");
            append_str(&mut v, user_content);
            string_of(v.as_slice())
        },
        None => user_content.to_string(),
    }
}

/// Context kept through degraded retries: the goal, and the rendered plan when there is one.
pub fn build_degrade_anchor(goal: &str, plan_block: Option<&str>) -> (r: String)
    ensures
        plan_block matches Some(b) ==> r@ == "Goal: "@ + goal@ + "\n\n"@ + b@,
        plan_block is None ==> r@ == "Goal: "@ + goal@,
{
    let mut v: Vec<char> = Vec::new();
    append_str(&mut v, "Goal: ");
    append_str(&mut v, goal);
    match plan_block {
        Some(b) => {
            append_str(&mut v, "\n\n");
            append_str(&mut v, b);
        },
        None => {},
    }
    string_of(v.as_slice())
}

/// Starting degrade level (its rank) of an orchestrator turn: anchor mode (6) on retries; on
/// execution turns by conversation size (tool summaries only (4) above 24 000 bytes,
/// aggressive (1) above 8 messages or 12 000 bytes, normal (0) otherwise); none for planning.
pub fn turn_degrade_start(attempt: usize, execution_turn: bool, message_count: usize, content_bytes: usize) -> (r: Option<u8>)
    ensures
        r == (if attempt > 0 {
            Some(6u8)
        } else if execution_turn {
            Some(
                if content_bytes > 24_000 {
                    4u8
                } else if message_count > 8 || content_bytes > 12_000 {
                    1u8
                } else {
                    0u8
                },
            )
        } else {
            None
        }),
{
    if attempt > 0 {
        Some(crate::degrade::DegradeLevel::Anchor.as_u8())
    } else if execution_turn {
        Some(
            if content_bytes > 24_000 {
                crate::degrade::DegradeLevel::ToolSummaryOnly.as_u8()
            } else if message_count > 8 || content_bytes > 12_000 {
                crate::degrade::DegradeLevel::Aggressive.as_u8()
            } else {
                crate::degrade::DegradeLevel::Normal.as_u8()
            },
        )
    } else {
        None
    }
}

// ------------------------------------------------------------------
// Plan snapshots and results
// ------------------------------------------------------------------

/// Id of the step in progress, else of the next pending one.
pub open spec fn current_step(steps: Seq<PlanStep>) -> Option<u32> {
    match in_progress_index(steps, 0) {
        Some(i) => Some(steps[i].id),
        None => match pending_index(steps) {
            Some(i) => Some(steps[i].id),
            None => None,
        },
    }
}

/// First index at or after `i` of a step in progress.
pub open spec fn in_progress_index(steps: Seq<PlanStep>, i: int) -> Option<int>
    decreases steps.len() - i,
{
    if i < 0 || i >= steps.len() {
        None
    } else if steps[i].status is InProgress {
        Some(i)
    } else {
        in_progress_index(steps, i + 1)
    }
}

/// The step in progress, else the next pending one.
pub fn current_step_id(plan: &AutonomousPlan) -> (r: Option<u32>)
    ensures
        r == current_step(plan.steps@),
{
    let mut i: usize = 0;
    while i < plan.steps.len()
        invariant
            i <= plan.steps.len(),
            in_progress_index(plan.steps@, 0) == in_progress_index(plan.steps@, i as int),
        decreases plan.steps.len() - i,
    {
        if plan.steps[i].status == StepStatus::InProgress {
            return Some(plan.steps[i].id);
        }
        i = i + 1;
    }
    match plan.next_pending() {
        Some(s) => Some(s.id),
        None => None,
    }
}

/// View of a step snapshot.
pub open spec fn snapshot_matches(s: StepSnapshot, p: PlanStep) -> bool {
    s.id == p.id && s.title == p.title && s.status == p.status
}

/// Copy of an optional string slice.
fn opt_string(s: Option<&str>) -> (r: Option<String>)
    ensures
        s is None ==> r is None,
        s matches Some(v) ==> r matches Some(w) && w@ == v@,
{
    match s {
        Some(v) => Some(v.to_string()),
        None => None,
    }
}

/// Snapshot of a plan for display: progress label, current step, and each step's id,
/// title and status.
pub fn plan_snapshot(
    plan: &AutonomousPlan,
    planning_warning: Option<&str>,
    spec_path: Option<&str>,
    step_warning: Option<&str>,
) -> (r: AutonomousPlanSnapshot)
    ensures
        r.progress@ == progress_text(plan.steps@),
        r.current_step_id == current_step(plan.steps@),
        r.steps.len() == plan.steps.len(),
        forall|i: int| 0 <= i < plan.steps.len() ==> snapshot_matches(#[trigger] r.steps@[i], plan.steps@[i]),
        planning_warning is None <==> r.planning_warning is None,
        planning_warning matches Some(w) ==> r.planning_warning matches Some(x) && x@ == w@,
        spec_path is None <==> r.spec_path is None,
        spec_path matches Some(w) ==> r.spec_path matches Some(x) && x@ == w@,
        step_warning is None <==> r.step_warning is None,
        step_warning matches Some(w) ==> r.step_warning matches Some(x) && x@ == w@,
{
    let mut steps: Vec<StepSnapshot> = Vec::new();
    let mut i: usize = 0;
    while i < plan.steps.len()
        invariant
            i <= plan.steps.len(),
            steps.len() == i,
            forall|k: int| 0 <= k < i ==> snapshot_matches(#[trigger] steps@[k], plan.steps@[k]),
        decreases plan.steps.len() - i,
    {
        let s = &plan.steps[i];
        steps.push(StepSnapshot { id: s.id, title: s.title.clone(), status: s.status });
        i = i + 1;
    }
    AutonomousPlanSnapshot {
        progress: plan.progress_label(),
        current_step_id: current_step_id(plan),
        steps,
        planning_warning: opt_string(planning_warning),
        spec_path: opt_string(spec_path),
        step_warning: opt_string(step_warning),
    }
}

/// Result of a cancelled run.
pub fn cancelled_result(
    plan: AutonomousPlan,
    steps: Vec<AutonomousStepRecord>,
    final_text: String,
    replans_used: u32,
) -> (r: AutonomousRunResult)
    ensures
        r == (AutonomousRunResult {
            phase: AutonomousPhase::Cancelled,
            plan: Some(plan),
            steps,
            final_text,
            replans_used,
            vector_chunks_used: None,
            retrieved_memory: None,
        }),
{
    AutonomousRunResult {
        phase: AutonomousPhase::Cancelled,
        plan: Some(plan),
        steps,
        final_text,
        replans_used,
        vector_chunks_used: None,
        retrieved_memory: None,
    }
}

/// Result of a failed run.
pub fn failed_result(
    plan: AutonomousPlan,
    steps: Vec<AutonomousStepRecord>,
    final_text: String,
    replans_used: u32,
) -> (r: AutonomousRunResult)
    ensures
        r == (AutonomousRunResult {
            phase: AutonomousPhase::Failed,
            plan: Some(plan),
            steps,
            final_text,
            replans_used,
            vector_chunks_used: None,
            retrieved_memory: None,
        }),
{
    AutonomousRunResult {
        phase: AutonomousPhase::Failed,
        plan: Some(plan),
        steps,
        final_text,
        replans_used,
        vector_chunks_used: None,
        retrieved_memory: None,
    }
}

} // verus!
