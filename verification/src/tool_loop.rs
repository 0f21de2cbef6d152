//! The workspace tool loop of a chat turn as a state machine: read the tool calls of the
//! model's answer, have the driver run them, hand the results back to the model, and repeat
//! until no calls remain or six rounds ran; then shape the final answer.
use vstd::prelude::*;

use crate::json_value::Json;
use crate::models::{lemma_views_push, views, ChatMessage, MessageView};
use crate::openai_messages::openai_calls;
use crate::prompt_format::{calls_view, resolve, resolved_format, ParsedToolCall, PromptFormatKind};
use crate::text::{
    append_chars, append_str, chars_of, contains, contains_str, is_blank, is_blank_exec,
    string_of, trim, trim_vec,
};
use crate::tool_call_parse::{
    all_calls, expand_apply_patch_calls, expand_calls, parse_loose_tool_calls, tool_call_only,
};
use crate::tool_markup::{strip_assistant_wire_markup, wire_stripped};
use crate::tool_results::{
    followup_message, format_tool_followup_user_message, format_tool_results_for_user,
    results_for_user, results_view, ToolExecutionResult, ToolResultView,
};

verus! {

/// Rounds of tool calls one chat turn may run.
pub const MAX_TOOL_ITERATIONS: usize = 6;

/// Calls a format reads in model output.
pub open spec fn format_calls(format_id: Seq<char>, text: Seq<char>) -> Seq<(Seq<char>, Json)> {
    match resolved_format(format_id) {
        PromptFormatKind::Gemma4 => all_calls(text),
        PromptFormatKind::OpenAiMessages => openai_calls(text),
    }
}

/// The calls of one round: what the format reads, or (when it reads none) every wire
/// format, with multi-edit patches split into single edits.
pub open spec fn round_calls(format_id: Seq<char>, text: Seq<char>) -> Seq<(Seq<char>, Json)> {
    let first = format_calls(format_id, text);
    expand_calls(
        if first.len() == 0 {
            all_calls(text)
        } else {
            first
        },
    )
}

/// The failed results of a batch.
pub open spec fn failures(rs: Seq<ToolResultView>) -> Seq<ToolResultView>
    decreases rs.len(),
{
    if rs.len() == 0 {
        Seq::empty()
    } else if rs.last().ok {
        failures(rs.drop_last())
    } else {
        failures(rs.drop_last()).push(rs.last())
    }
}

/// The answer once the loop is over: unchanged when no tool ran; otherwise with wire markup
/// stripped, and, when the last round had failures the answer does not mention, their error
/// block put before it.
pub open spec fn final_answer(text: Seq<char>, tools_executed: nat, last: Seq<ToolResultView>) -> Seq<char> {
    if tools_executed == 0 {
        text
    } else {
        let t = wire_stripped(text);
        let f = failures(last);
        if f.len() > 0 && !contains(t, "ERROR:"@) && !is_blank(results_for_user(f)) {
            results_for_user(f) + "\n\n"@ + trim(t)
        } else {
            t
        }
    }
}

/// What the loop asks its driver to do next.
pub enum ToolLoopStep {
    /// Run these calls, then report their results with `on_results`.
    Run(Vec<ParsedToolCall>),
    /// The loop is over; this is the answer.
    Done(String),
}

/// State of the tool loop of one chat turn.
pub struct ToolLoop {
    /// Prompt format id of the connection.
    pub format_id: String,
    /// The conversation sent with the next follow-up request.
    pub messages: Vec<ChatMessage>,
    /// The model's latest answer.
    pub text: String,
    /// Rounds started.
    pub iterations: usize,
    /// Tool calls run so far.
    pub tools_executed: usize,
    /// Results of the latest round.
    pub last_results: Vec<ToolExecutionResult>,
    /// Results of every round.
    pub all_results: Vec<ToolExecutionResult>,
    /// Whether the loop is over.
    pub finished: bool,
}

impl ToolLoop {
    /// Rounds never exceed the limit.
    pub open spec fn wf(&self) -> bool {
        self.iterations <= MAX_TOOL_ITERATIONS
    }

    /// A loop over the model's first answer to `messages`.
    pub fn new(prompt_format_id: &str, messages: Vec<ChatMessage>, text: String) -> (r: ToolLoop)
        ensures
            r.wf(),
            r.format_id@ == prompt_format_id@,
            views(r.messages@) == views(messages@),
            r.text@ == text@,
            r.iterations == 0,
            r.tools_executed == 0,
            r.last_results@.len() == 0,
            r.all_results@.len() == 0,
            !r.finished,
    {
        let r = ToolLoop {
            format_id: prompt_format_id.to_string(),
            messages,
            text,
            iterations: 0,
            tools_executed: 0,
            last_results: Vec::new(),
            all_results: Vec::new(),
            finished: false,
        };
        r
    }

    /// The answer as it stands if the loop ended now.
    pub fn answer(&self) -> (r: String)
        ensures
            r@ == final_answer(self.text@, self.tools_executed as nat, results_view(self.last_results@)),
    {
        if self.tools_executed == 0 {
            return crate::text::copy_string(&self.text);
        }
        let t = strip_assistant_wire_markup(self.text.as_str());
        let mut f: Vec<ToolExecutionResult> = Vec::new();
        let mut i: usize = 0;
        let ghost lv = results_view(self.last_results@);
        assert(results_view(f@) =~= failures(lv.subrange(0, 0)));
        while i < self.last_results.len()
            invariant
                i <= self.last_results.len(),
                lv == results_view(self.last_results@),
                results_view(f@) == failures(lv.subrange(0, i as int)),
            decreases self.last_results.len() - i,
        {
            let ghost ps = lv.subrange(0, i + 1);
            assert(ps.drop_last() =~= lv.subrange(0, i as int));
            assert(ps.last() == self.last_results@[i as int]@);
            if !self.last_results[i].ok {
                let c = copy_result(&self.last_results[i]);
                let ghost f0 = results_view(f@);
                f.push(c);
                assert(results_view(f@) =~= f0.push(c@));
            }
            i = i + 1;
        }
        assert(lv.subrange(0, self.last_results.len() as int) =~= lv);
        let tv = chars_of(t.as_str());
        if f.len() > 0 && !contains_str(tv.as_slice(), "ERROR:") {
            let err = format_tool_results_for_user(f.as_slice());
            let ev = chars_of(err.as_str());
            if !is_blank_exec(ev.as_slice()) {
                let mut out = ev;
                append_str(&mut out, "\n\n");
                let tt = trim_vec(tv.as_slice());
                append_chars(&mut out, tt.as_slice());
                return string_of(out.as_slice());
            }
        }
        t
    }

    /// Starts the next round: the calls to run, or the final answer when the loop was
    /// cancelled, ran its six rounds, or the answer holds no calls.
    pub fn next_step(&mut self, cancelled: bool) -> (r: ToolLoopStep)
        requires
            old(self).wf(),
        ensures
            final(self).wf(),
            final(self).format_id == old(self).format_id,
            final(self).text == old(self).text,
            final(self).tools_executed == old(self).tools_executed,
            final(self).last_results == old(self).last_results,
            final(self).all_results == old(self).all_results,
            views(final(self).messages@) == views(old(self).messages@),
            match r {
                ToolLoopStep::Done(a) => {
                    &&& a@ == final_answer(
                        old(self).text@,
                        old(self).tools_executed as nat,
                        results_view(old(self).last_results@),
                    )
                    &&& final(self).finished
                    &&& final(self).iterations == old(self).iterations
                    &&& (old(self).finished || cancelled || old(self).iterations >= MAX_TOOL_ITERATIONS
                        || round_calls(old(self).format_id@, old(self).text@).len() == 0)
                },
                ToolLoopStep::Run(calls) => {
                    &&& !old(self).finished
                    &&& !cancelled
                    &&& old(self).iterations < MAX_TOOL_ITERATIONS
                    &&& calls_view(calls@) == round_calls(old(self).format_id@, old(self).text@)
                    &&& calls@.len() > 0
                    &&& final(self).iterations == old(self).iterations + 1
                    &&& !final(self).finished
                },
            },
    {
        if self.finished || cancelled || self.iterations >= MAX_TOOL_ITERATIONS {
            self.finished = true;
            return ToolLoopStep::Done(self.answer());
        }
        let format = resolve(self.format_id.as_str());
        let first = format.parse_tool_calls(self.text.as_str());
        let calls = if first.len() == 0 {
            parse_loose_tool_calls(self.text.as_str())
        } else {
            first
        };
        let calls = expand_apply_patch_calls(calls);
        if calls.len() == 0 {
            self.finished = true;
            return ToolLoopStep::Done(self.answer());
        }
        self.iterations = self.iterations + 1;
        ToolLoopStep::Run(calls)
    }

    /// Takes the results of the round's calls: they are counted and kept, and the answer
    /// and a user turn with the results join the conversation for the follow-up request.
    pub fn on_results(&mut self, results: Vec<ToolExecutionResult>)
        requires
            old(self).tools_executed + results@.len() <= usize::MAX,
        ensures
            final(self).format_id == old(self).format_id,
            final(self).text == old(self).text,
            final(self).iterations == old(self).iterations,
            final(self).finished == old(self).finished,
            final(self).tools_executed == old(self).tools_executed + results@.len(),
            results_view(final(self).last_results@) == results_view(results@),
            results_view(final(self).all_results@) == results_view(old(self).all_results@)
                + results_view(results@),
            views(final(self).messages@) == views(old(self).messages@) + seq![
                MessageView { role: "assistant"@, content: old(self).text@, images: Seq::empty() },
                MessageView {
                    role: "user"@,
                    content: followup_message(old(self).format_id@, results_view(results@)),
                    images: Seq::empty(),
                },
            ],
    {
        let n = results.len();
        let followup = format_tool_followup_user_message(self.format_id.as_str(), results.as_slice());
        let assistant = ChatMessage {
            role: "assistant".to_string(),
            content: crate::text::copy_string(&self.text),
            images: Vec::new(),
        };
        let user = ChatMessage { role: "user".to_string(), content: followup, images: Vec::new() };
        let ghost m0 = views(self.messages@);
        proof {
            lemma_views_push(self.messages@, assistant);
        }
        self.messages.push(assistant);
        proof {
            lemma_views_push(self.messages@, user);
        }
        self.messages.push(user);
        assert(views(self.messages@) =~= m0 + seq![
            MessageView { role: "assistant"@, content: old(self).text@, images: Seq::empty() },
            MessageView {
                role: "user"@,
                content: followup_message(old(self).format_id@, results_view(results@)),
                images: Seq::empty(),
            },
        ]) by {
            reveal_strlit("assistant");
            reveal_strlit("user");
        }
        let mut i: usize = 0;
        let ghost a0 = results_view(self.all_results@);
        let ghost msgs = self.messages@;
        while i < n
            invariant
                i <= n,
                n == results@.len(),
                self.format_id == old(self).format_id,
                self.text == old(self).text,
                self.iterations == old(self).iterations,
                self.finished == old(self).finished,
                self.tools_executed == old(self).tools_executed,
                old(self).tools_executed + results@.len() <= usize::MAX,
                self.messages@ == msgs,
                results_view(self.all_results@) == a0 + results_view(results@).subrange(0, i as int),
            decreases n - i,
        {
            let c = copy_result(&results[i]);
            let ghost before = results_view(self.all_results@);
            self.all_results.push(c);
            assert(results_view(self.all_results@) =~= before.push(c@));
            assert(results_view(results@).subrange(0, i + 1) =~= results_view(results@).subrange(0, i as int).push(results@[i as int]@));
            i = i + 1;
        }
        assert(results_view(results@).subrange(0, n as int) =~= results_view(results@));
        self.tools_executed = self.tools_executed + n;
        self.last_results = results;
    }

    /// Takes the follow-up answer (`None` when its request failed). An empty or tool-only
    /// answer is replaced by the round's results as the user sees them; returns whether
    /// the follow-up answer was taken.
    pub fn on_followup(&mut self, followup: Option<String>) -> (taken: bool)
        ensures
            final(self).format_id == old(self).format_id,
            final(self).iterations == old(self).iterations,
            final(self).finished == old(self).finished,
            final(self).tools_executed == old(self).tools_executed,
            final(self).last_results == old(self).last_results,
            final(self).all_results == old(self).all_results,
            final(self).messages == old(self).messages,
            taken == (followup matches Some(f) && !is_blank(f@) && !tool_call_only(f@)),
            taken ==> final(self).text@ == followup.unwrap()@,
            !taken ==> final(self).text@ == results_for_user(results_view(old(self).last_results@)),
    {
        match followup {
            Some(f) => {
                let fv = chars_of(f.as_str());
                if !is_blank_exec(fv.as_slice()) && !crate::tool_call_parse::is_tool_call_only(f.as_str()) {
                    self.text = f;
                    return true;
                }
            },
            None => {},
        }
        self.text = format_tool_results_for_user(self.last_results.as_slice());
        false
    }
}

/// A copy of a tool result.
pub fn copy_result(r: &ToolExecutionResult) -> (c: ToolExecutionResult)
    ensures
        c@ == r@,
{
    ToolExecutionResult {
        name: crate::text::copy_string(&r.name),
        ok: r.ok,
        output: r.output.deep_clone(),
        message: crate::text::copy_string(&r.message),
    }
}

} // verus!
