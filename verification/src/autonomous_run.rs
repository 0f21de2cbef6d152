//! The autonomous run as a state machine: the caller performs each action (a chat turn, a
//! verification, a replanning turn) and hands its outcome back; the run decides what comes
//! next and keeps the plan, the step records and the replanning budget.
use vstd::prelude::*;

use crate::autonomous_plan::{
    id_index, is_finished, is_terminal, marked_step, marked_steps, parse_all_step_results,
    pending_index, step_results_from, tag_views, AutonomousPlan, PlanStep, StepResultTag,
    StepStatus,
};
use crate::autonomous_prompts::{clamped_config, AutonomousRunConfig};
use crate::autonomous_runner::{
    preview, resolve_step_status, resolved_status, terminal_step_status,
    tool_results_indicate_failure, turn_tool_failed, AutonomousPhase, AutonomousRunResult,
    AutonomousStepRecord,
};
use crate::text::take_chars;
use crate::verify_spec::VerifySpec;

verus! {

/// What the caller does next.
#[derive(Debug, Clone)]
pub enum RunAction {
    /// Run one chat turn for this step, then report it with `on_turn`.
    ExecuteStep { step: PlanStep },
    /// Run this check for the step just executed, then report it with `on_verified`.
    VerifyStep { step_id: u32, check: VerifySpec },
    /// Ask for a new plan after this step failed, then report it with `on_replanned`.
    Replan { step: PlanStep, verify_message: Option<String> },
    /// Ask again with `next_action`.
    Proceed,
    /// Every step is done: ask for the final report, then finish as done.
    Complete,
    /// Stop with this phase (failed or cancelled).
    Finish { phase: AutonomousPhase },
}

/// A step whose turn ran and whose verification is awaited.
#[derive(Debug, Clone)]
pub struct AwaitedCheck {
    pub step: PlanStep,
    pub text: String,
    pub status: StepStatus,
}

/// State of an autonomous run between actions.
#[derive(Debug, Clone)]
pub struct AutonomousRun {
    pub config: AutonomousRunConfig,
    pub plan: AutonomousPlan,
    pub replans_used: u32,
    pub steps_executed: usize,
    pub records: Vec<AutonomousStepRecord>,
    pub final_text: String,
    pub awaiting: Option<AwaitedCheck>,
}

/// A plan of one pending step titled with the goal.
pub open spec fn single_step_plan(goal: Seq<char>, p: AutonomousPlan) -> bool {
    &&& p.steps@.len() == 1
    &&& p.steps@[0].id == 1
    &&& p.steps@[0].title@ == goal
    &&& p.steps@[0].status is Pending
    &&& p.steps@[0].verify is None
    &&& p.steps@[0].note is None
}

/// The plan of a run without a planning turn.
pub fn single_step_plan_for(goal: &str) -> (r: AutonomousPlan)
    ensures
        single_step_plan(goal@, r),
{
    let mut steps: Vec<PlanStep> = Vec::new();
    steps.push(PlanStep { id: 1, title: goal.to_string(), status: StepStatus::Pending, verify: None, note: None });
    AutonomousPlan { steps }
}

/// What comes next in a state: 0 cancelled, 1 complete, 2 failed, 3 execute the first
/// pending step.
pub open spec fn next_kind(run: AutonomousRun, cancelled: bool) -> int {
    let s = run.plan.steps@;
    if cancelled {
        0
    } else if s.len() > 0 && forall|k: int| 0 <= k < s.len() ==> is_finished(#[trigger] s[k].status) {
        1
    } else if run.steps_executed >= run.config.max_steps {
        2
    } else {
        match pending_index(s) {
            Some(i) => 3,
            None => if forall|k: int| 0 <= k < s.len() ==> is_terminal(#[trigger] s[k].status) {
                1
            } else {
                2
            },
        }
    }
}

/// Each of the first `n` step results for the executing step applied to the plan in turn:
/// its status, and its summary as note when the summary is not empty.
pub open spec fn applied_results(steps: Seq<PlanStep>, tags: Seq<StepResultTag>, id: u32, n: int) -> Seq<PlanStep>
    decreases n,
{
    if n <= 0 || n > tags.len() {
        steps
    } else {
        let prev = applied_results(steps, tags, id, n - 1);
        let t = tags[n - 1];
        if t.step_id != id {
            prev
        } else {
            marked_steps(prev, t.step_id, t.status, if t.summary@.len() > 0 {
                Some(t.summary)
            } else {
                None
            })
        }
    }
}

/// A record with this step, phase, text preview and verification outcome.
pub open spec fn is_record(r: AutonomousStepRecord, step: PlanStep, phase: AutonomousPhase, text: Seq<char>, verify_ok: Option<bool>, verify_message: Option<String>) -> bool {
    &&& r.step_id == step.id
    &&& r.title == step.title
    &&& r.phase == phase
    &&& r.assistant_preview@ == take_chars(text, 400)
    &&& r.verify_ok == verify_ok
    &&& r.verify_message == verify_message
}

/// `new` is `old` with one more record at the end.
pub open spec fn pushed_record(old: Seq<AutonomousStepRecord>, new: Seq<AutonomousStepRecord>) -> bool {
    new.len() == old.len() + 1 && new.subrange(0, old.len() as int) == old
}

/// A failed step asks for a new plan while replans are left (using one), and ends the run
/// as failed otherwise.
pub open spec fn replan_or_fail(
    replans: u32,
    max_replans: usize,
    new_replans: u32,
    r: RunAction,
    step: PlanStep,
    verify_message: Option<String>,
) -> bool {
    if (replans as int) < (max_replans as int) && replans < u32::MAX {
        new_replans == replans + 1 && r == (RunAction::Replan { step, verify_message })
    } else {
        new_replans == replans && r == (RunAction::Finish { phase: AutonomousPhase::Failed })
    }
}

/// A step whose checks are known: the plan marks it with its terminal status (failed when it
/// reported failure, a tool call failed or verification failed; done otherwise), a record is
/// added, and a failed step leads to a replan while the budget lasts.
pub open spec fn finished_step(
    steps: Seq<PlanStep>,
    records: Seq<AutonomousStepRecord>,
    replans: u32,
    max_replans: usize,
    new: AutonomousRun,
    r: RunAction,
    step: PlanStep,
    text: Seq<char>,
    status: StepStatus,
    verify_ok: Option<bool>,
    verify_message: Option<String>,
) -> bool {
    let term = if status is Failed || turn_tool_failed(text) || verify_ok == Some(false) {
        StepStatus::Failed
    } else {
        StepStatus::Done
    };
    &&& new.plan.steps@ == marked_steps(steps, step.id, term, None)
    &&& pushed_record(records, new.records@)
    &&& is_record(new.records@.last(), step, AutonomousPhase::Executing, text, verify_ok, verify_message)
    &&& if term is Failed {
        replan_or_fail(replans, max_replans, new.replans_used, r, step, None)
    } else {
        r is Proceed && new.replans_used == replans
    }
}

/// What `on_turn` leads to, given the plan after the turn's step results were applied.
pub open spec fn turn_outcome(old: AutonomousRun, new: AutonomousRun, r: RunAction, step: PlanStep, text: String, applied: Seq<PlanStep>) -> bool {
    let st = resolved_status(text@, step.id);
    if old.config.verify_steps && step.verify is Some {
        &&& new.plan.steps@ == applied
        &&& r == (RunAction::VerifyStep { step_id: step.id, check: step.verify->0 })
        &&& new.awaiting == Some(AwaitedCheck { step, text, status: st })
        &&& new.records == old.records
        &&& new.replans_used == old.replans_used
    } else {
        &&& finished_step(applied, old.records@, old.replans_used, old.config.max_replans, new, r, step, text@, st, None, None)
        &&& new.awaiting == old.awaiting
    }
}

/// What `on_verified` leads to for the awaited step.
pub open spec fn verified_outcome(old: AutonomousRun, new: AutonomousRun, r: RunAction, a: AwaitedCheck, outcome: Result<(bool, String), String>) -> bool {
    match outcome {
        Ok(o) => if !o.0 && !(a.status is Failed) {
            &&& new.plan.steps@ == marked_steps(old.plan.steps@, a.step.id, StepStatus::Failed, Some(o.1))
            &&& pushed_record(old.records@, new.records@)
            &&& is_record(new.records@.last(), a.step, AutonomousPhase::Verifying, a.text@, Some(false), Some(o.1))
            &&& replan_or_fail(old.replans_used, old.config.max_replans, new.replans_used, r, a.step, Some(o.1))
        } else {
            finished_step(old.plan.steps@, old.records@, old.replans_used, old.config.max_replans, new, r, a.step, a.text@, a.status, Some(o.0), Some(o.1))
        },
        Err(e) => finished_step(old.plan.steps@, old.records@, old.replans_used, old.config.max_replans, new, r, a.step, a.text@, a.status, Some(false), Some(e)),
    }
}

impl AutonomousRun {
    /// A run of the given plan under clamped limits.
    pub fn new(config: AutonomousRunConfig, plan: AutonomousPlan) -> (r: AutonomousRun)
        ensures
            r.config == clamped_config(config),
            r.plan == plan,
            r.replans_used == 0,
            r.steps_executed == 0,
            r.records@.len() == 0,
            r.final_text@.len() == 0,
            r.awaiting is None,
    {
        AutonomousRun {
            config: config.clamped(),
            plan,
            replans_used: 0,
            steps_executed: 0,
            records: Vec::new(),
            final_text: String::new(),
            awaiting: None,
        }
    }

    /// What to do at the top of the loop: stop when cancelled, complete when every step is
    /// finished, fail past the step limit, else execute the first pending step (marked in
    /// progress); with nothing pending, complete when all steps are terminal, else fail.
    pub fn next_action(&mut self, cancelled: bool) -> (r: RunAction)
        ensures
            next_kind(*old(self), cancelled) == 0 ==> r == (RunAction::Finish { phase: AutonomousPhase::Cancelled }) && *final(self) == *old(self),
            next_kind(*old(self), cancelled) == 1 ==> r is Complete && *final(self) == *old(self),
            next_kind(*old(self), cancelled) == 2 ==> r == (RunAction::Finish { phase: AutonomousPhase::Failed }) && *final(self) == *old(self),
            next_kind(*old(self), cancelled) == 3 ==> ({
                let i = pending_index(old(self).plan.steps@)->0;
                &&& pending_index(old(self).plan.steps@) is Some
                &&& r == (RunAction::ExecuteStep { step: old(self).plan.steps@[i] })
                &&& final(self).plan.steps@ == marked_steps(old(self).plan.steps@, old(self).plan.steps@[i].id, StepStatus::InProgress, None)
                &&& *final(self) == (AutonomousRun { plan: final(self).plan, ..*old(self) })
            }),
    {
        if cancelled {
            return RunAction::Finish { phase: AutonomousPhase::Cancelled };
        }
        if self.plan.all_done() {
            return RunAction::Complete;
        }
        if self.steps_executed >= self.config.max_steps {
            return RunAction::Finish { phase: AutonomousPhase::Failed };
        }
        let step = match self.plan.next_pending() {
            Some(s) => s.duplicate(),
            None => {
                if self.plan.all_terminal() {
                    return RunAction::Complete;
                }
                return RunAction::Finish { phase: AutonomousPhase::Failed };
            },
        };
        self.plan.mark(step.id, StepStatus::InProgress, None);
        RunAction::ExecuteStep { step }
    }

    /// Asks for a replan while the budget lasts, else fails the run.
    fn replan_or_fail(&mut self, step: PlanStep, verify_message: Option<String>) -> (r: RunAction)
        ensures
            replan_or_fail(old(self).replans_used, old(self).config.max_replans, final(self).replans_used, r, step, verify_message),
            *final(self) == (AutonomousRun { replans_used: final(self).replans_used, ..*old(self) }),
    {
        if (self.replans_used as u64) < (self.config.max_replans as u64) && self.replans_used < u32::MAX {
            self.replans_used = self.replans_used + 1;
            RunAction::Replan { step, verify_message }
        } else {
            RunAction::Finish { phase: AutonomousPhase::Failed }
        }
    }

    /// Marks the step with its terminal status, records it, and decides between the next
    /// step and a replan.
    fn finish_step(
        &mut self,
        step: PlanStep,
        text: &str,
        status: StepStatus,
        verify_ok: Option<bool>,
        verify_message: Option<String>,
    ) -> (r: RunAction)
        ensures
            finished_step(old(self).plan.steps@, old(self).records@, old(self).replans_used, old(self).config.max_replans, *final(self), r, step, text@, status, verify_ok, verify_message),
            final(self).config == old(self).config,
            final(self).steps_executed == old(self).steps_executed,
            final(self).final_text == old(self).final_text,
            final(self).awaiting == old(self).awaiting,
    {
        let tool_failed = tool_results_indicate_failure(text);
        let term = terminal_step_status(status, tool_failed, verify_ok);
        self.plan.mark(step.id, term, None);
        let ghost recs0 = self.records@;
        self.records.push(AutonomousStepRecord {
            step_id: step.id,
            title: step.title.clone(),
            phase: AutonomousPhase::Executing,
            assistant_preview: preview(text),
            verify_ok,
            verify_message,
        });
        assert(self.records@.subrange(0, recs0.len() as int) =~= recs0);
        if term == StepStatus::Failed {
            self.replan_or_fail(step, None)
        } else {
            RunAction::Proceed
        }
    }

    /// Takes in the text of a step's turn: applies its step results for this step, resolves
    /// the step's outcome, and asks for the step's check when verification is on and the step
    /// has one; otherwise finishes the step.
    pub fn on_turn(&mut self, step: PlanStep, text: String) -> (r: RunAction)
        requires
            old(self).steps_executed < usize::MAX,
        ensures
            final(self).final_text == text,
            final(self).steps_executed == old(self).steps_executed + 1,
            final(self).config == old(self).config,
            exists|tags: Seq<StepResultTag>|
                tag_views(tags) == step_results_from(text@, 0) && turn_outcome(
                    *old(self),
                    *final(self),
                    r,
                    step,
                    text,
                    #[trigger] applied_results(old(self).plan.steps@, tags, step.id, tags.len() as int),
                ),
    {
        let mut results = parse_all_step_results(text.as_str());
        let ghost tags = results@;
        let ghost steps0 = self.plan.steps@;
        let mut k: usize = 0;
        let n = results.len();
        while k < n
            invariant
                k <= n,
                n == tags.len(),
                results@ == tags.subrange(k as int, n as int),
                self.plan.steps@ == applied_results(steps0, tags, step.id, k as int),
                self.records == old(self).records,
                self.replans_used == old(self).replans_used,
                self.steps_executed == old(self).steps_executed,
                self.config == old(self).config,
                self.awaiting == old(self).awaiting,
                self.final_text == old(self).final_text,
            decreases n - k,
        {
            let t = results.remove(0);
            assert(t == tags[k as int]);
            if t.step_id == step.id {
                let note = if t.summary.as_str().is_empty() {
                    None
                } else {
                    Some(t.summary)
                };
                self.plan.mark(t.step_id, t.status, note);
            }
            k = k + 1;
            assert(results@ =~= tags.subrange(k as int, n as int));
        }
        let status = resolve_step_status(text.as_str(), step.id);
        self.steps_executed = self.steps_executed + 1;
        let text_copy = text.clone();
        self.final_text = text;
        if self.config.verify_steps && step.verify.is_some() {
            let check = match &step.verify {
                Some(v) => v.duplicate(),
                None => {
                    return RunAction::Proceed;
                },
            };
            let id = step.id;
            self.awaiting = Some(AwaitedCheck { step, text: text_copy, status });
            return RunAction::VerifyStep { step_id: id, check };
        }
        self.finish_step(step, text_copy.as_str(), status, None, None)
    }

    /// Takes in the outcome of the awaited check (`Ok((passed, message))`, or `Err(message)`
    /// when the check could not run). A failed check on a step that had not failed marks it
    /// failed with the message, records it and asks for a replan; otherwise the step finishes
    /// with the check's outcome.
    pub fn on_verified(&mut self, outcome: Result<(bool, String), String>) -> (r: RunAction)
        requires
            old(self).awaiting is Some,
        ensures
            final(self).awaiting is None,
            final(self).final_text == old(self).final_text,
            final(self).steps_executed == old(self).steps_executed,
            final(self).config == old(self).config,
            verified_outcome(*old(self), *final(self), r, old(self).awaiting->0, outcome),
    {
        let a = match self.awaiting.take() {
            Some(a) => a,
            None => {
                return RunAction::Proceed;
            },
        };
        match outcome {
            Ok((ok, msg)) => {
                if !ok && a.status != StepStatus::Failed {
                    self.plan.mark(a.step.id, StepStatus::Failed, Some(msg.clone()));
                    let ghost recs0 = self.records@;
                    self.records.push(AutonomousStepRecord {
                        step_id: a.step.id,
                        title: a.step.title.clone(),
                        phase: AutonomousPhase::Verifying,
                        assistant_preview: preview(a.text.as_str()),
                        verify_ok: Some(false),
                        verify_message: Some(msg.clone()),
                    });
                    assert(self.records@.subrange(0, recs0.len() as int) =~= recs0);
                    self.replan_or_fail(a.step, Some(msg))
                } else {
                    self.finish_step(a.step, a.text.as_str(), a.status, Some(ok), Some(msg))
                }
            },
            Err(e) => self.finish_step(a.step, a.text.as_str(), a.status, Some(false), Some(e)),
        }
    }

    /// Takes in the replanning turn: a parsed plan replaces the current one and the loop
    /// goes on; without one the run fails.
    pub fn on_replanned(&mut self, updated: Option<AutonomousPlan>, text: String) -> (r: RunAction)
        ensures
            updated is Some ==> final(self).plan == updated->0 && r is Proceed,
            updated is None ==> final(self).plan == old(self).plan && r == (RunAction::Finish { phase: AutonomousPhase::Failed }),
            *final(self) == (AutonomousRun { plan: final(self).plan, final_text: text, ..*old(self) }),
    {
        self.final_text = text;
        match updated {
            Some(p) => {
                self.plan = p;
                RunAction::Proceed
            },
            None => RunAction::Finish { phase: AutonomousPhase::Failed },
        }
    }

    /// The run's result in the given final phase.
    pub fn into_result(self, phase: AutonomousPhase) -> (r: AutonomousRunResult)
        ensures
            r == (AutonomousRunResult {
                phase,
                plan: Some(self.plan),
                steps: self.records,
                final_text: self.final_text,
                replans_used: self.replans_used,
                vector_chunks_used: None,
                retrieved_memory: None,
            }),
    {
        AutonomousRunResult {
            phase,
            plan: Some(self.plan),
            steps: self.records,
            final_text: self.final_text,
            replans_used: self.replans_used,
            vector_chunks_used: None,
            retrieved_memory: None,
        }
    }
}


/// A run never uses more replans than its limit allows.
pub proof fn law_replans_within_budget(replans: u32, max_replans: usize, new_replans: u32, r: RunAction, step: PlanStep, verify_message: Option<String>)
    requires
        replans as int <= max_replans as int,
        replan_or_fail(replans, max_replans, new_replans, r, step, verify_message),
    ensures
        new_replans as int <= max_replans as int,
        new_replans == replans || new_replans == replans + 1,
{
}

/// A step is only executed below the step limit and when the run is not cancelled.
pub proof fn law_execution_within_step_limit(run: AutonomousRun, cancelled: bool)
    requires
        next_kind(run, cancelled) == 3,
    ensures
        !cancelled,
        run.steps_executed < run.config.max_steps,
        pending_index(run.plan.steps@) is Some,
{
}

/// Clamping the limits twice changes nothing more.
pub proof fn law_clamping_is_idempotent(c: AutonomousRunConfig)
    ensures
        clamped_config(clamped_config(c)) == clamped_config(c),
{
}

} // verus!
