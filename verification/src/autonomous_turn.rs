//! One chat turn of an autonomous run, as decisions: how each attempt is sent and when a
//! failed attempt is retried, and how the planning turn settles on a plan.
use vstd::prelude::*;

use crate::autonomous_plan::{count_plan_tag_blocks, AutonomousPlan};
use crate::autonomous_prompts::{planning_text, planning_user_message, AutonomousRunConfig, AUTONOMOUS_PROTOCOL};
use crate::autonomous_run::{single_step_plan, single_step_plan_for};
use crate::autonomous_runner::{turn_degrade_start, wrap_with_protocol};
use crate::plan_parse::{best_autonomous_plan_from_texts, best_plan, parse_autonomous_plan, plans_of_texts, steps_view, text_plan};
use crate::text::{count_from, lower_seq};

verus! {

/// Degrade level a turn attempt starts at: the anchor level on a retry; for a plan
/// step, tool-summary-only above 24 000 bytes of history, aggressive above 8 messages or
/// 12 000 bytes, else normal; none for the planning turn.
pub open spec fn degrade_start_for(attempt: int, execution_turn: bool, message_count: int, content_bytes: int) -> Option<u8> {
    if attempt > 0 {
        Some(6u8)
    } else if execution_turn {
        Some(
            if content_bytes > 24_000 {
                4u8
            } else if message_count > 8 || content_bytes > 12_000 {
                1u8
            } else {
                0u8
            },
        )
    } else {
        None
    }
}

/// How one attempt of a turn is sent.
#[derive(Debug, Clone)]
pub struct TurnAttemptPlan {
    /// 0 for the first attempt.
    pub attempt: usize,
    /// Degrade level the request starts at.
    pub degrade_start: Option<u8>,
    /// Whether the goal-and-plan anchor goes with the request.
    pub with_anchor: bool,
    /// Whether vector retrieval is switched off.
    pub disable_vector_retrieval: bool,
    /// Whether the caller's retrieval query override is used.
    pub use_retrieval_override: bool,
}

/// What to do before an attempt.
#[derive(Debug, Clone)]
pub enum TurnStep {
    /// Send this attempt.
    Attempt(TurnAttemptPlan),
    /// Give up with this error message.
    Stop(String),
}

/// Retry state of one turn: up to `max_retries` more attempts after the first.
#[derive(Debug, Clone)]
pub struct TurnRetry {
    pub attempt: usize,
    pub max_retries: usize,
    /// Message of the last retried failure.
    pub last_error: Option<String>,
}

impl TurnRetry {
    /// Attempts never go past the retry budget.
    pub open spec fn wf(&self) -> bool {
        self.attempt <= self.max_retries
    }

    /// A turn before its first attempt.
    pub fn new(max_retries: usize) -> (r: TurnRetry)
        ensures
            r.wf(),
            r.attempt == 0,
            r.max_retries == max_retries,
            r.last_error is None,
    {
        TurnRetry { attempt: 0, max_retries, last_error: None }
    }

    /// The next attempt: a cancelled turn stops with `cancelled`; otherwise the attempt
    /// carries the anchor on a plan step or a retry, switches retrieval off on a retry,
    /// above 20 000 bytes of history or when the run already does, and keeps the
    /// retrieval override only on the first attempt.
    pub fn next_attempt(
        &self,
        cancelled: bool,
        execution_turn: bool,
        message_count: usize,
        content_bytes: usize,
        base_disable_retrieval: bool,
    ) -> (r: TurnStep)
        ensures
            cancelled ==> (r matches TurnStep::Stop(m) && m@ == "cancelled"@),
            !cancelled ==> (r matches TurnStep::Attempt(p) && p.attempt == self.attempt
                && p.degrade_start == degrade_start_for(
                self.attempt as int,
                execution_turn,
                message_count as int,
                content_bytes as int,
            ) && p.with_anchor == (execution_turn || self.attempt > 0) && p.disable_vector_retrieval == (
            base_disable_retrieval || self.attempt > 0 || content_bytes > 20_000)
                && p.use_retrieval_override == (self.attempt == 0)),
    {
        if cancelled {
            return TurnStep::Stop("cancelled".to_string());
        }
        TurnStep::Attempt(
            TurnAttemptPlan {
                attempt: self.attempt,
                degrade_start: turn_degrade_start(self.attempt, execution_turn, message_count, content_bytes),
                with_anchor: execution_turn || self.attempt > 0,
                disable_vector_retrieval: base_disable_retrieval || self.attempt > 0 || content_bytes > 20_000,
                use_retrieval_override: self.attempt == 0,
            },
        )
    }

    /// Takes a failed attempt: it is retried (one more attempt, the message kept) when
    /// retries are left and the error is a retriable one; otherwise the turn fails with
    /// this error and the state stays as it was.
    pub fn on_error(&mut self, message: String, retriable: bool) -> (retry: bool)
        requires
            old(self).wf(),
        ensures
            final(self).wf(),
            final(self).max_retries == old(self).max_retries,
            retry == (old(self).attempt < old(self).max_retries && retriable),
            retry ==> final(self).attempt == old(self).attempt + 1 && final(self).last_error == Some(
                message,
            ),
            !retry ==> *final(self) == *old(self),
    {
        if self.attempt < self.max_retries && retriable {
            self.attempt = self.attempt + 1;
            self.last_error = Some(message);
            true
        } else {
            false
        }
    }
}

// ------------------------------------------------------------------
// The planning turn
// ------------------------------------------------------------------

/// What to do next while planning.
#[derive(Debug, Clone)]
pub enum PlanningStep {
    /// Send this user message and hand the reply to `on_reply`.
    Ask(String),
    /// The first reply held no plan of two or more steps: ask again with a stricter
    /// prompt and hand that reply to `on_reply`.
    AskStricter,
    /// The plan to run.
    Ready(AutonomousPlan),
    /// The best plan of both replies; the caller fits it to the goal. `second_multistep`
    /// tells whether the second reply alone held two or more steps.
    FitBest { plan: AutonomousPlan, second_multistep: bool },
    /// Neither reply held a plan: the caller builds a default one; `hinted_blocks` is the
    /// larger count of plan tags in the two replies.
    Synthesize { hinted_blocks: usize },
}

/// Planning state: the first reply once it has come.
#[derive(Debug, Clone)]
pub struct PlanningTurn {
    pub goal: String,
    pub first_reply: Option<String>,
}

/// Plan tags in a text, ASCII case ignored.
pub open spec fn plan_tags(text: Seq<char>) -> nat {
    count_from(lower_seq(text), "<autonomous-plan>"@, 0)
}

impl PlanningTurn {
    /// How a run starts: with planning on, a planning turn asking for a plan (the
    /// protocol, then the planning request); with planning off, a plan of one pending
    /// step titled with the goal.
    pub fn start(config: &AutonomousRunConfig, goal: &str) -> (r: (PlanningTurn, PlanningStep))
        ensures
            r.0.goal@ == goal@,
            r.0.first_reply is None,
            config.planning_enabled ==> (r.1 matches PlanningStep::Ask(m) && m@ == AUTONOMOUS_PROTOCOL@
                + "\n\n---\n\n"@ + planning_text(goal@)),
            !config.planning_enabled ==> (r.1 matches PlanningStep::Ready(p) && single_step_plan(goal@, p)),
    {
        let t = PlanningTurn { goal: goal.to_string(), first_reply: None };
        if config.planning_enabled {
            let m = planning_user_message(goal);
            (t, PlanningStep::Ask(wrap_with_protocol(m.as_str(), Some(AUTONOMOUS_PROTOCOL))))
        } else {
            (t, PlanningStep::Ready(single_step_plan_for(goal)))
        }
    }

    /// Takes a planning reply. The first reply is taken when its best plan has two or
    /// more steps, else a stricter request follows. After the second reply, the best
    /// plan of both replies is handed back for fitting, or, when neither has one, the
    /// caller synthesizes a plan.
    pub fn on_reply(&mut self, text: String) -> (r: PlanningStep)
        ensures
            final(self).goal == old(self).goal,
            old(self).first_reply is None ==> match best_plan(plans_of_texts(seq![text@])) {
                Some(s) => if s.len() >= 2 {
                    r matches PlanningStep::Ready(p) && steps_view(p.steps@) == s && final(self).first_reply is None
                } else {
                    r is AskStricter && final(self).first_reply == Some(text)
                },
                None => r is AskStricter && final(self).first_reply == Some(text),
            },
            old(self).first_reply matches Some(f) ==> final(self).first_reply == old(self).first_reply && match best_plan(
                plans_of_texts(seq![f@, text@]),
            ) {
                Some(s) => r matches PlanningStep::FitBest { plan, second_multistep } && steps_view(plan.steps@) == s
                    && second_multistep == (text_plan(text@) matches Some(t) && t.len() >= 2),
                None => r matches PlanningStep::Synthesize { hinted_blocks } && hinted_blocks == (if plan_tags(f@)
                    >= plan_tags(text@) {
                    plan_tags(f@)
                } else {
                    plan_tags(text@)
                }),
            },
    {
        match &self.first_reply {
            None => {
                let texts: [&str; 1] = [text.as_str()];
                proof {
                    assert(texts@.map_values(|t: &str| t@) =~= seq![text@]);
                }
                let best = best_autonomous_plan_from_texts(&texts);
                match best {
                    Some(p) => {
                        if p.steps.len() >= 2 {
                            return PlanningStep::Ready(p);
                        }
                    },
                    None => {},
                }
                self.first_reply = Some(text);
                PlanningStep::AskStricter
            },
            Some(f) => {
                let texts: [&str; 2] = [f.as_str(), text.as_str()];
                proof {
                    assert(texts@.map_values(|t: &str| t@) =~= seq![f@, text@]);
                }
                match best_autonomous_plan_from_texts(&texts) {
                    Some(plan) => {
                        let second = parse_autonomous_plan(text.as_str());
                        let second_multistep = match second {
                            Some(p) => p.steps.len() >= 2,
                            None => false,
                        };
                        PlanningStep::FitBest { plan, second_multistep }
                    },
                    None => {
                        let a = count_plan_tag_blocks(f.as_str());
                        let b = count_plan_tag_blocks(text.as_str());
                        PlanningStep::Synthesize { hinted_blocks: if a >= b { a } else { b } }
                    },
                }
            },
        }
    }
}

} // verus!
