//! Limits of autonomous runs and the user turns that drive them.
use vstd::prelude::*;

use crate::autonomous_plan::PlanStep;
use crate::text::{append_str, decimal, push_decimal, string_of};

verus! {

/// Tunable limits of an autonomous run (the outer orchestration loop).
#[derive(Debug, Clone)]
pub struct AutonomousRunConfig {
    /// Most executed plan steps (each step is one chat turn).
    pub max_steps: usize,
    /// How often the orchestrator may ask for a new plan after a failure.
    pub max_replans: usize,
    /// Whether the first turn asks for a structured plan.
    pub planning_enabled: bool,
    /// Whether steps with a `verify` check are verified after they run.
    pub verify_steps: bool,
    /// Outer retries of one turn after inner context recovery gave up.
    pub max_step_retries: usize,
}

impl Default for AutonomousRunConfig {
    fn default() -> (r: Self)
        ensures
            r == (AutonomousRunConfig {
                max_steps: 12,
                max_replans: 2,
                planning_enabled: true,
                verify_steps: true,
                max_step_retries: 1,
            }),
    {
        AutonomousRunConfig {
            max_steps: 12,
            max_replans: 2,
            planning_enabled: true,
            verify_steps: true,
            max_step_retries: 1,
        }
    }
}

/// `v` clamped into `lo..=hi`.
pub open spec fn clamp_int(v: int, lo: int, hi: int) -> int {
    if v < lo {
        lo
    } else if v > hi {
        hi
    } else {
        v
    }
}

/// Clamps `v` into `lo..=hi`.
fn clamp_usize(v: usize, lo: usize, hi: usize) -> (r: usize)
    requires
        lo <= hi,
    ensures
        r as int == clamp_int(v as int, lo as int, hi as int),
{
    if v < lo {
        lo
    } else if v > hi {
        hi
    } else {
        v
    }
}

/// Limits forced into their safe ranges: 1..=32 steps, 0..=8 replans, 0..=3 retries.
pub open spec fn clamped_config(c: AutonomousRunConfig) -> AutonomousRunConfig {
    AutonomousRunConfig {
        max_steps: clamp_int(c.max_steps as int, 1, 32) as usize,
        max_replans: clamp_int(c.max_replans as int, 0, 8) as usize,
        max_step_retries: clamp_int(c.max_step_retries as int, 0, 3) as usize,
        ..c
    }
}

impl AutonomousRunConfig {
    /// The limits forced into their safe ranges: 1..=32 steps, 0..=8 replans, 0..=3 retries.
    pub fn clamped(self) -> (r: Self)
        ensures
            r == clamped_config(self),
    {
        AutonomousRunConfig {
            max_steps: clamp_usize(self.max_steps, 1, 32),
            max_replans: clamp_usize(self.max_replans, 0, 8),
            max_step_retries: clamp_usize(self.max_step_retries, 0, 3),
            ..self
        }
    }
}

/// How the model reports plans and step results during an autonomous run.
pub const AUTONOMOUS_PROTOCOL: &'static str = r#"## Autonomous task mode (active)

You are executing a multi-step plan. The orchestrator runs one step per turn.

**Planning format** (first turn only) — output a JSON array inside this exact tag:
<autonomous-plan>
[
  {"id": 1, "title": "short actionable step", "status": "pending"},
  {"id": 2, "title": "next step", "status": "pending", "verify": {"kind": "file_not_contains", "path": "relative/path", "needle": "bug_text"}}
]
</autonomous-plan>

Verify kinds (optional per step): `file_contains`, `file_not_contains`, `php_lint`, `cargo_check`, `vitest`.
Keep plans to 3–8 concrete steps. Use workspace tools (`read_file`, `apply_patch`, `run_verify`) — not ```file:``` fences for existing files.

**After each step** — end your message with:
<step-result step="N" status="done|failed">
One-line summary of what you did.
</step-result>

Also include (optional, for memory):
<plan-step-summary>
step: N / total
done: what finished
next: next step title or "done"
</plan-step-summary>

If a step fails, set status="failed" and explain briefly. The orchestrator may replan."#;

/// The planning turn for a goal.
pub open spec fn planning_text(goal: Seq<char>) -> Seq<char> {
    "Goal:\n"@ + goal
        + "\n\nCreate an execution plan only. Output `<autonomous-plan>` with a JSON array of steps (ids 1..N). Each step must be small enough for one tool-loop turn. Add `verify` on steps where a deterministic check makes sense. Do not execute tools yet — planning turn only."@
}

/// The user turn that asks for a plan.
pub fn planning_user_message(goal: &str) -> (r: String)
    ensures
        r@ == planning_text(goal@),
{
    let mut v: Vec<char> = Vec::new();
    append_str(&mut v, "Goal:\n");
    append_str(&mut v, goal);
    append_str(
        &mut v,
        "\n\nCreate an execution plan only. Output `<autonomous-plan>` with a JSON array of steps (ids 1..N). Each step must be small enough for one tool-loop turn. Add `verify` on steps where a deterministic check makes sense. Do not execute tools yet — planning turn only.",
    );
    string_of(v.as_slice())
}

/// `<autonomous-plan>` block around the plan's JSON.
pub open spec fn plan_block_text(json: Seq<char>) -> Seq<char> {
    "<autonomous-plan>\n"@ + json + "\n</autonomous-plan>"@
}

/// Frames the plan's JSON in its `<autonomous-plan>` tag for re-injection into prompts.
pub fn plan_block_of(steps_json: &str) -> (r: String)
    ensures
        r@ == plan_block_text(steps_json@),
{
    let mut v: Vec<char> = Vec::new();
    append_str(&mut v, "<autonomous-plan>\n");
    append_str(&mut v, steps_json);
    append_str(&mut v, "\n</autonomous-plan>");
    string_of(v.as_slice())
}

/// The turn that executes one step.
pub open spec fn execution_text(plan_block: Seq<char>, id: u32, title: Seq<char>) -> Seq<char> {
    plan_block + "\n\nExecute **only step "@ + decimal(id as nat) + "**: "@ + title
        + "\nUse workspace tools as needed. When finished, output `<step-result step=\""@
        + decimal(id as nat) + "\" status=\"done|failed\">` with a one-line summary."@
}

/// The user turn that executes one step of the plan.
pub fn execution_user_message(plan_block: &str, step: &PlanStep) -> (r: String)
    ensures
        r@ == execution_text(plan_block@, step.id, step.title@),
{
    let mut v: Vec<char> = Vec::new();
    append_str(&mut v, plan_block);
    append_str(&mut v, "\n\nExecute **only step ");
    push_decimal(&mut v, step.id as u64);
    append_str(&mut v, "**: ");
    append_str(&mut v, step.title.as_str());
    append_str(
        &mut v,
        "\nUse workspace tools as needed. When finished, output `<step-result step=\"",
    );
    push_decimal(&mut v, step.id as u64);
    append_str(&mut v, "\" status=\"done|failed\">` with a one-line summary.");
    string_of(v.as_slice())
}

/// The turn that asks for a new plan after a step failed.
pub open spec fn replan_text(plan_block: Seq<char>, id: u32, title: Seq<char>, verify_message: Option<Seq<char>>) -> Seq<char> {
    let note = match verify_message {
        Some(m) => "\nVerification failed: "@ + m,
        None => Seq::empty(),
    };
    plan_block + "\n\nStep "@ + decimal(id as nat) + " ("@ + title + ") failed."@ + note
        + "\nOutput an **updated** `<autonomous-plan>` JSON array: mark completed steps done, replace or add steps for the remainder. Keep ids stable when possible."@
}

/// The user turn that asks for a new plan after a step failed, with the verification
/// message when a check failed.
pub fn replan_user_message(plan_block: &str, failed_step: &PlanStep, verify_message: Option<&str>) -> (r: String)
    ensures
        r@ == replan_text(plan_block@, failed_step.id, failed_step.title@, match verify_message {
            Some(m) => Some(m@),
            None => None,
        }),
{
    let mut v: Vec<char> = Vec::new();
    append_str(&mut v, plan_block);
    append_str(&mut v, "\n\nStep ");
    push_decimal(&mut v, failed_step.id as u64);
    append_str(&mut v, " (");
    append_str(&mut v, failed_step.title.as_str());
    append_str(&mut v, ") failed.");
    match verify_message {
        Some(m) => {
            append_str(&mut v, "\nVerification failed: ");
            append_str(&mut v, m);
        },
        None => {},
    }
    append_str(
        &mut v,
        "\nOutput an **updated** `<autonomous-plan>` JSON array: mark completed steps done, replace or add steps for the remainder. Keep ids stable when possible.",
    );
    string_of(v.as_slice())
}

/// The turn that asks for the final report.
pub open spec fn completion_text(plan_block: Seq<char>) -> Seq<char> {
    plan_block + "\n\nAll steps are done. Give a brief final report in Russian: what was accomplished."@
}

/// The user turn that asks for the final report once every step is done.
pub fn completion_user_message(plan_block: &str) -> (r: String)
    ensures
        r@ == completion_text(plan_block@),
{
    let mut v: Vec<char> = Vec::new();
    append_str(&mut v, plan_block);
    append_str(&mut v, "\n\nAll steps are done. Give a brief final report in Russian: what was accomplished.");
    string_of(v.as_slice())
}

} // verus!
