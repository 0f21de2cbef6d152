//! Structured plans of autonomous runs: steps, their status, and the tags
//! (`<autonomous-plan>`, `<step-result>`) through which the model reports them.
use vstd::prelude::*;

use crate::text::{
    count_from, count_matches, join, join_range, lines, lines_vec, replace_all, replace_vec,
    starts_with, starts_with_str, append_chars, append_str, chars_of, decimal, eq_ignore_case, find, find_exec, find_from,
    find_from_exec, lemma_find_from_sound, lemma_found, lower_seq, lower_vec, parse_u32,
    parse_u32_exec, push_decimal, slice_of, string_of, trim, trim_char, trim_char_vec, trim_vec,
    words, words_vec, vv,
};
use crate::verify_spec::{copy_opt_string, VerifySpec};

verus! {

/// Lifecycle of one plan step.
#[derive(Debug, Clone, Copy, PartialEq, Eq, Structural)]
pub enum StepStatus {
    Pending,
    InProgress,
    Done,
    Failed,
    Skipped,
}

/// One step of a plan.
#[derive(Debug, Clone)]
pub struct PlanStep {
    pub id: u32,
    pub title: String,
    pub status: StepStatus,
    pub verify: Option<VerifySpec>,
    pub note: Option<String>,
}

/// An ordered list of steps.
#[derive(Debug, Clone)]
pub struct AutonomousPlan {
    pub steps: Vec<PlanStep>,
}

/// A `<step-result>` tag reported by the model.
#[derive(Debug, Clone)]
pub struct StepResultTag {
    pub step_id: u32,
    pub status: StepStatus,
    pub summary: String,
}

/// Done, failed or skipped: the step will not run again.
pub open spec fn is_terminal(s: StepStatus) -> bool {
    s is Done || s is Failed || s is Skipped
}

/// Done or skipped: the step counts as finished.
pub open spec fn is_finished(s: StepStatus) -> bool {
    s is Done || s is Skipped
}

/// First index at or after `i` of a step with the given id.
pub open spec fn id_index_from(steps: Seq<PlanStep>, id: u32, i: int) -> Option<int>
    decreases steps.len() - i,
{
    if i < 0 || i >= steps.len() {
        None
    } else if steps[i].id == id {
        Some(i)
    } else {
        id_index_from(steps, id, i + 1)
    }
}

/// Index of the first step with the given id.
pub open spec fn id_index(steps: Seq<PlanStep>, id: u32) -> Option<int> {
    id_index_from(steps, id, 0)
}

/// First index at or after `i` of a pending step.
pub open spec fn pending_index_from(steps: Seq<PlanStep>, i: int) -> Option<int>
    decreases steps.len() - i,
{
    if i < 0 || i >= steps.len() {
        None
    } else if steps[i].status is Pending {
        Some(i)
    } else {
        pending_index_from(steps, i + 1)
    }
}

/// Index of the first pending step.
pub open spec fn pending_index(steps: Seq<PlanStep>) -> Option<int> {
    pending_index_from(steps, 0)
}

/// Number of finished steps among the first `n`.
pub open spec fn finished_count(steps: Seq<PlanStep>, n: int) -> nat
    decreases n,
{
    if n <= 0 || n > steps.len() {
        0
    } else {
        finished_count(steps, n - 1) + if is_finished(steps[n - 1].status) {
            1nat
        } else {
            0nat
        }
    }
}

/// `done/total` as shown in progress displays.
pub open spec fn progress_text(steps: Seq<PlanStep>) -> Seq<char> {
    decimal(finished_count(steps, steps.len() as int)) + seq!['/'] + decimal(steps.len())
}

/// A step after `mark`: new status, and the new note when one is given.
pub open spec fn marked_step(s: PlanStep, status: StepStatus, note: Option<String>) -> PlanStep {
    PlanStep { status, note: if note is Some { note } else { s.note }, ..s }
}

/// Steps after `mark`: the first step with the id is updated, nothing else changes.
pub open spec fn marked_steps(
    steps: Seq<PlanStep>,
    id: u32,
    status: StepStatus,
    note: Option<String>,
) -> Seq<PlanStep> {
    match id_index(steps, id) {
        Some(i) => steps.update(i, marked_step(steps[i], status, note)),
        None => steps,
    }
}

proof fn lemma_id_index_from_bounds(steps: Seq<PlanStep>, id: u32, i: int)
    ensures
        id_index_from(steps, id, i) matches Some(k) ==> i <= k < steps.len() && steps[k].id == id,
    decreases steps.len() - i,
{
    if 0 <= i < steps.len() && steps[i].id != id {
        lemma_id_index_from_bounds(steps, id, i + 1);
    }
}

proof fn lemma_pending_index_from_bounds(steps: Seq<PlanStep>, i: int)
    requires
        0 <= i,
    ensures
        pending_index_from(steps, i) matches Some(k) ==> i <= k < steps.len()
            && steps[k].status is Pending,
        pending_index_from(steps, i) is None ==> forall|k: int|
            i <= k < steps.len() ==> !(#[trigger] steps[k].status is Pending),
    decreases steps.len() - i,
{
    if 0 <= i < steps.len() && !(steps[i].status is Pending) {
        lemma_pending_index_from_bounds(steps, i + 1);
    }
}

impl StepStatus {
    /// Whether the step will not run again.
    pub fn is_terminal_status(self) -> (r: bool)
        ensures
            r == is_terminal(self),
    {
        match self {
            StepStatus::Done | StepStatus::Failed | StepStatus::Skipped => true,
            _ => false,
        }
    }

    /// Whether the step counts as finished.
    pub fn is_finished_status(self) -> (r: bool)
        ensures
            r == is_finished(self),
    {
        match self {
            StepStatus::Done | StepStatus::Skipped => true,
            _ => false,
        }
    }
}

impl PlanStep {
    /// Field-by-field copy.
    pub fn duplicate(&self) -> (r: PlanStep)
        ensures
            r == *self,
    {
        PlanStep {
            id: self.id,
            title: self.title.clone(),
            status: self.status,
            verify: match &self.verify {
                Some(v) => Some(v.duplicate()),
                None => None,
            },
            note: copy_opt_string(&self.note),
        }
    }
}

impl AutonomousPlan {
    /// Index of the first step with the given id.
    pub fn step_index(&self, id: u32) -> (r: Option<usize>)
        ensures
            r matches Some(i) ==> id_index(self.steps@, id) == Some(i as int),
            r is None ==> id_index(self.steps@, id) is None,
            r matches Some(i) ==> i < self.steps.len() && self.steps@[i as int].id == id,
    {
        let mut i: usize = 0;
        while i < self.steps.len()
            invariant
                i <= self.steps.len(),
                id_index(self.steps@, id) == id_index_from(self.steps@, id, i as int),
            decreases self.steps.len() - i,
        {
            if self.steps[i].id == id {
                return Some(i);
            }
            i = i + 1;
        }
        None
    }

    /// The first pending step, if any.
    pub fn next_pending(&self) -> (r: Option<&PlanStep>)
        ensures
            r matches Some(s) ==> pending_index(self.steps@) matches Some(i) && *s
                == self.steps@[i],
            r is None ==> pending_index(self.steps@) is None,
            r is None <==> forall|k: int|
                0 <= k < self.steps.len() ==> !(#[trigger] self.steps@[k].status is Pending),
    {
        proof {
            lemma_pending_index_from_bounds(self.steps@, 0);
        }
        let mut i: usize = 0;
        while i < self.steps.len()
            invariant
                i <= self.steps.len(),
                pending_index(self.steps@) == pending_index_from(self.steps@, i as int),
            decreases self.steps.len() - i,
        {
            if self.steps[i].status == StepStatus::Pending {
                return Some(&self.steps[i]);
            }
            i = i + 1;
        }
        None
    }

    /// Mutable access to the first step with the given id.
    pub fn step_mut(&mut self, id: u32) -> (r: Option<&mut PlanStep>)
        ensures
            id_index(old(self).steps@, id) is None <==> r is None,
            r is None ==> *final(self) == *old(self),
            r matches Some(s) ==> id_index(old(self).steps@, id) matches Some(i) && *s
                == old(self).steps@[i] && final(self).steps@ == old(self).steps@.update(
                i,
                *final(s),
            ),
    {
        match self.step_index(id) {
            Some(i) => Some(&mut self.steps[i]),
            None => None,
        }
    }

    /// Set the status of the first step with the given id, and its note when one is given.
    pub fn mark(&mut self, id: u32, status: StepStatus, note: Option<String>)
        ensures
            final(self).steps@ == marked_steps(old(self).steps@, id, status, note),
    {
        match self.step_index(id) {
            Some(i) => {
                let mut step = self.steps[i].duplicate();
                step.status = status;
                if note.is_some() {
                    step.note = note;
                }
                self.steps.set(i, step);
            },
            None => {},
        }
    }

    /// Every step is done, failed or skipped.
    pub fn all_terminal(&self) -> (r: bool)
        ensures
            r == forall|k: int|
                0 <= k < self.steps.len() ==> is_terminal(#[trigger] self.steps@[k].status),
    {
        let mut i: usize = 0;
        while i < self.steps.len()
            invariant
                i <= self.steps.len(),
                forall|k: int| 0 <= k < i ==> is_terminal(#[trigger] self.steps@[k].status),
            decreases self.steps.len() - i,
        {
            if !self.steps[i].status.is_terminal_status() {
                return false;
            }
            i = i + 1;
        }
        true
    }

    /// The plan has steps and every one is done or skipped.
    pub fn all_done(&self) -> (r: bool)
        ensures
            r == (self.steps.len() > 0 && forall|k: int|
                0 <= k < self.steps.len() ==> is_finished(#[trigger] self.steps@[k].status)),
    {
        if self.steps.len() == 0 {
            return false;
        }
        let mut i: usize = 0;
        while i < self.steps.len()
            invariant
                i <= self.steps.len(),
                forall|k: int| 0 <= k < i ==> is_finished(#[trigger] self.steps@[k].status),
            decreases self.steps.len() - i,
        {
            if !self.steps[i].status.is_finished_status() {
                return false;
            }
            i = i + 1;
        }
        true
    }

    /// Number of finished (done or skipped) steps.
    pub fn finished_steps(&self) -> (n: usize)
        ensures
            n == finished_count(self.steps@, self.steps.len() as int),
    {
        let mut n: usize = 0;
        let mut i: usize = 0;
        while i < self.steps.len()
            invariant
                i <= self.steps.len(),
                n == finished_count(self.steps@, i as int),
                n <= i,
            decreases self.steps.len() - i,
        {
            if self.steps[i].status.is_finished_status() {
                n = n + 1;
            }
            i = i + 1;
        }
        n
    }

    /// `done/total`, e.g. `2/5`.
    pub fn progress_label(&self) -> (r: String)
        ensures
            r@ == progress_text(self.steps@),
    {
        let done = self.finished_steps();
        let mut out: Vec<char> = Vec::new();
        push_decimal(&mut out, done as u64);
        out.push('/');
        push_decimal(&mut out, self.steps.len() as u64);
        let r = string_of(out.as_slice());
        assert(r@ =~= progress_text(self.steps@));
        r
    }
}


// ------------------------------------------------------------------
// `<step-result step="N" status="...">summary</step-result>`
// ------------------------------------------------------------------

/// Value of `key=value` among the header words after the tag name, quotes stripped.
pub open spec fn attr_in_words(ws: Seq<Seq<char>>, key: Seq<char>, i: int) -> Option<Seq<char>>
    decreases ws.len() - i,
{
    if i < 0 || i >= ws.len() {
        None
    } else {
        let w = ws[i];
        let p = find(w, seq!['=']);
        if p is Some && eq_ignore_case(w.subrange(0, p->0), key) {
            Some(trim_char(trim_char(w.subrange(p->0 + 1, w.len() as int), '"'), '\''))
        } else {
            attr_in_words(ws, key, i + 1)
        }
    }
}

/// Attribute of a tag header such as `<step-result step="2" status="done"`.
pub open spec fn attribute_value(header: Seq<char>, key: Seq<char>) -> Option<Seq<char>> {
    attr_in_words(words(header), key, 1)
}

/// Numeric attribute of a tag header.
pub open spec fn attribute_number(header: Seq<char>, key: Seq<char>) -> Option<u32> {
    match attribute_value(header, key) {
        Some(v) => parse_u32(v),
        None => None,
    }
}

/// The status words a step result may carry (ASCII case ignored).
pub open spec fn status_of_word(w: Seq<char>) -> Option<StepStatus> {
    let l = lower_seq(w);
    if l == "done"@ || l == "complete"@ || l == "completed"@ {
        Some(StepStatus::Done)
    } else if l == "failed"@ || l == "fail"@ || l == "error"@ {
        Some(StepStatus::Failed)
    } else if l == "skipped"@ || l == "skip"@ {
        Some(StepStatus::Skipped)
    } else {
        None
    }
}

/// The first `<step-result>` block of a text: step id, status and trimmed summary.
pub open spec fn step_result_of(text: Seq<char>) -> Option<(u32, StepStatus, Seq<char>)> {
    match find(lower_seq(text), "<step-result"@) {
        None => None,
        Some(open) => {
            let after = text.subrange(open, text.len() as int);
            match find(lower_seq(after), "</step-result>"@) {
                None => None,
                Some(cr) => {
                    let block = after.subrange(0, cr);
                    match find(block, seq!['>']) {
                        None => None,
                        Some(he) => {
                            let header = trim(block.subrange(0, he));
                            let body = trim(block.subrange(he + 1, block.len() as int));
                            match (
                                attribute_number(header, "step"@),
                                attribute_value(header, "status"@),
                            ) {
                                (Some(id), Some(raw)) => match status_of_word(raw) {
                                    Some(st) => Some((id, st, body)),
                                    None => None,
                                },
                                _ => None,
                            }
                        },
                    }
                },
            }
        },
    }
}

/// Every `<step-result` opening at or after `start`, each parsed from its own position.
pub open spec fn step_results_from(text: Seq<char>, start: int) -> Seq<(u32, StepStatus, Seq<char>)>
    decreases text.len() + 1 - start,
{
    if start < 0 || start > text.len() {
        Seq::empty()
    } else {
        match find_from(lower_seq(text), "<step-result"@, start) {
            None => Seq::empty(),
            Some(at) => {
                proof {
                    lemma_find_from_sound(lower_seq(text), "<step-result"@, start);
                    reveal_strlit("<step-result");
                }
                let rest = step_results_from(text, at + "<step-result"@.len());
                match step_result_of(text.subrange(at, text.len() as int)) {
                    Some(r) => seq![r] + rest,
                    None => rest,
                }
            },
        }
    }
}

/// View of a parsed step result.
pub open spec fn tag_view(t: StepResultTag) -> (u32, StepStatus, Seq<char>) {
    (t.step_id, t.status, t.summary@)
}

/// Views of parsed step results.
pub open spec fn tag_views(ts: Seq<StepResultTag>) -> Seq<(u32, StepStatus, Seq<char>)> {
    Seq::new(ts.len(), |i: int| tag_view(ts[i]))
}

/// Value of `key` among the header words from index `i` on.
fn attr_in_words_exec(ws: &Vec<Vec<char>>, key: &str, i: usize) -> (r: Option<Vec<char>>)
    requires
        i <= ws.len(),
    ensures
        r matches Some(v) ==> attr_in_words(vv(ws@), key@, i as int) == Some(v@),
        r is None ==> attr_in_words(vv(ws@), key@, i as int) is None,
{
    let kv = chars_of(key);
    let kl = lower_vec(kv.as_slice());
    let eq: Vec<char> = vec!['='];
    let mut j = i;
    while j < ws.len()
        invariant
            i <= j <= ws.len(),
            kv@ == key@,
            kl@ == lower_seq(key@),
            eq@ == seq!['='],
            attr_in_words(vv(ws@), key@, i as int) == attr_in_words(vv(ws@), key@, j as int),
        decreases ws.len() - j,
    {
        let w = &ws[j];
        assert(vv(ws@)[j as int] == w@);
        match find_exec(w.as_slice(), eq.as_slice()) {
            Some(p) => {
                proof {
                    lemma_found(w@, eq@, p as int);
                    assert(eq@.len() == 1);
                }
                let k = slice_of(w.as_slice(), 0, p);
                let kl2 = lower_vec(k.as_slice());
                if crate::text::seq_eq_exec(kl2.as_slice(), kl.as_slice()) {
                    let wl = w.len();
                    let v = slice_of(w.as_slice(), p + 1, wl);
                    let v1 = trim_char_vec(v.as_slice(), '"');
                    let v2 = trim_char_vec(v1.as_slice(), '\'');
                    return Some(v2);
                }
            },
            None => {},
        }
        j = j + 1;
    }
    None
}

/// Numeric attribute of a header, from its words.
fn attr_number_exec(ws: &Vec<Vec<char>>, key: &str) -> (r: Option<u32>)
    requires
        1 <= ws.len(),
    ensures
        r == (match attr_in_words(vv(ws@), key@, 1) {
            Some(v) => parse_u32(v),
            None => None,
        }),
{
    match attr_in_words_exec(ws, key, 1) {
        Some(v) => parse_u32_exec(v.as_slice()),
        None => None,
    }
}

/// Step status named by a status word.
fn status_of_word_exec(w: &[char]) -> (r: Option<StepStatus>)
    ensures
        r == status_of_word(w@),
{
    let l = lower_vec(w);
    let ls = string_of(l.as_slice());
    let t = ls.as_str();
    if crate::text::str_eq(t, "done") || crate::text::str_eq(t, "complete")
        || crate::text::str_eq(t, "completed") {
        Some(StepStatus::Done)
    } else if crate::text::str_eq(t, "failed") || crate::text::str_eq(t, "fail")
        || crate::text::str_eq(t, "error") {
        Some(StepStatus::Failed)
    } else if crate::text::str_eq(t, "skipped") || crate::text::str_eq(t, "skip") {
        Some(StepStatus::Skipped)
    } else {
        None
    }
}

/// The first step result of a character run.
fn step_result_chars(t: &[char]) -> (r: Option<StepResultTag>)
    ensures
        r matches Some(x) ==> step_result_of(t@) == Some(tag_view(x)),
        r is None ==> step_result_of(t@) is None,
{
    let lower = lower_vec(t);
    let open_tag = chars_of("<step-result");
    let close_tag = chars_of("</step-result>");
    let gt: Vec<char> = vec!['>'];
    assert(gt@ =~= seq!['>']);
    let ghost ts = t@;
    let oo = find_exec(lower.as_slice(), open_tag.as_slice());
    if oo.is_none() {
        assert(step_result_of(ts) is None);
        return None;
    }
    let open = oo.unwrap();
    proof {
        lemma_found(lower@, open_tag@, open as int);
    }
    let after = slice_of(t, open, t.len());
    let after_lower = lower_vec(after.as_slice());
    let co = find_exec(after_lower.as_slice(), close_tag.as_slice());
    if co.is_none() {
        assert(step_result_of(ts) is None);
        return None;
    }
    let cr = co.unwrap();
    proof {
        lemma_found(after_lower@, close_tag@, cr as int);
    }
    let block = slice_of(after.as_slice(), 0, cr);
    let ho = find_exec(block.as_slice(), gt.as_slice());
    if ho.is_none() {
        assert(step_result_of(ts) is None);
        return None;
    }
    let he = ho.unwrap();
    proof {
        lemma_found(block@, gt@, he as int);
    }
    let head_raw = slice_of(block.as_slice(), 0, he);
    let header = trim_vec(head_raw.as_slice());
    let body_raw = slice_of(block.as_slice(), he + 1, block.len());
    let body = trim_vec(body_raw.as_slice());
    let ws = words_vec(header.as_slice());
    let ghost hs = header@;
    assert(step_result_of(ts) == (match (attribute_number(hs, "step"@), attribute_value(hs, "status"@)) {
        (Some(id), Some(raw)) => match status_of_word(raw) {
            Some(st) => Some((id, st, body@)),
            None => None,
        },
        _ => None,
    }));
    if ws.len() < 1 {
        assert(attr_in_words(vv(ws@), "step"@, 1) is None);
        return None;
    }
    let id_o = attr_number_exec(&ws, "step");
    if id_o.is_none() {
        return None;
    }
    let id = id_o.unwrap();
    let raw_o = attr_in_words_exec(&ws, "status", 1);
    if raw_o.is_none() {
        return None;
    }
    let raw = raw_o.unwrap();
    match status_of_word_exec(raw.as_slice()) {
        Some(st) => Some(StepResultTag { step_id: id, status: st, summary: string_of(body.as_slice()) }),
        None => None,
    }
}

/// Parse the first `<step-result step="N" status="done|failed|skipped">…</step-result>` block.
pub fn parse_step_result(text: &str) -> (r: Option<StepResultTag>)
    ensures
        r matches Some(x) ==> step_result_of(text@) == Some(tag_view(x)),
        r is None ==> step_result_of(text@) is None,
{
    let t = chars_of(text);
    step_result_chars(t.as_slice())
}

/// Every `<step-result>` block of a text, in order (the last one for a step wins when applied).
pub fn parse_all_step_results(text: &str) -> (r: Vec<StepResultTag>)
    ensures
        tag_views(r@) == step_results_from(text@, 0),
{
    let t = chars_of(text);
    let lower = lower_vec(t.as_slice());
    let open_tag = chars_of("<step-result");
    proof {
        reveal_strlit("<step-result");
    }
    let mut out: Vec<StepResultTag> = Vec::new();
    let mut start: usize = 0;
    while start <= t.len()
        invariant
            start <= t.len() + 1,
            t@ == text@,
            lower@ == lower_seq(t@),
            open_tag@ == "<step-result"@,
            open_tag@.len() == 12,
            start <= t.len() ==> tag_views(out@) + step_results_from(t@, start as int)
                == step_results_from(t@, 0),
            start > t.len() ==> tag_views(out@) == step_results_from(t@, 0),
        decreases t.len() + 1 - start,
    {
        match find_from_exec(lower.as_slice(), open_tag.as_slice(), start) {
            None => {
                assert(tag_views(out@) + Seq::empty() =~= tag_views(out@));
                return out;
            },
            Some(at) => {
                proof {
                    lemma_find_from_sound(lower@, open_tag@, start as int);
                }
                let rest = slice_of(t.as_slice(), at, t.len());
                let ghost before = out@;
                match step_result_chars(rest.as_slice()) {
                    Some(x) => {
                        out.push(x);
                        assert(tag_views(out@) =~= tag_views(before) + seq![tag_view(x)]);
                    },
                    None => {},
                }
                start = at + 12;
                if start > t.len() {
                    assert(step_results_from(t@, start as int) == Seq::<(u32, StepStatus, Seq<char>)>::empty());
                }
            },
        }
    }
    out
}


// ------------------------------------------------------------------
// `<autonomous-plan>` blocks
// ------------------------------------------------------------------

/// `<tag>`.
pub open spec fn open_tag_of(tag: Seq<char>) -> Seq<char> {
    seq!['<'] + tag + seq!['>']
}

/// `</tag>`.
pub open spec fn close_tag_of(tag: Seq<char>) -> Seq<char> {
    seq!['<', '/'] + tag + seq!['>']
}

/// Trimmed contents of every `open … close` pair at or after `from` (tags matched
/// case-insensitively, contents taken from the original text).
pub open spec fn tag_inners_from(text: Seq<char>, open: Seq<char>, close: Seq<char>, from: int) -> Seq<Seq<char>>
    decreases text.len() + 1 - from,
{
    if open.len() == 0 || from < 0 || from > text.len() {
        Seq::empty()
    } else {
        match find_from(lower_seq(text), open, from) {
            None => Seq::empty(),
            Some(p) => match find_from(lower_seq(text), close, p + open.len()) {
                None => Seq::empty(),
                Some(q) => {
                    proof {
                        lemma_find_from_sound(lower_seq(text), open, from);
                        lemma_find_from_sound(lower_seq(text), close, p + open.len());
                    }
                    seq![trim(text.subrange(p + open.len(), q))] + tag_inners_from(
                        text,
                        open,
                        close,
                        q + close.len(),
                    )
                },
            },
        }
    }
}

/// Contents of all `<tag>…</tag>` blocks of a text, in order.
pub open spec fn tag_inners(text: Seq<char>, tag: Seq<char>) -> Seq<Seq<char>> {
    tag_inners_from(text, open_tag_of(tag), close_tag_of(tag), 0)
}

/// Removes a ```` ``` ```` fence around a whole body (first and last line) when both are there.
pub open spec fn unfenced(s: Seq<char>) -> Seq<char> {
    if starts_with(s, "```"@) {
        let ls = lines(s);
        if ls.len() >= 2 && trim(ls.last()) == "```"@ {
            join(ls.subrange(1, ls.len() - 1), seq!['\n'])
        } else {
            s
        }
    } else {
        s
    }
}

/// From position `i` on, only whitespace comes before a closing `]` or `}`.
pub open spec fn closes_after_ws(s: Seq<char>, i: int) -> bool
    decreases s.len() - i,
{
    if i < 0 || i >= s.len() {
        false
    } else if crate::text::is_ws(s[i]) {
        closes_after_ws(s, i + 1)
    } else {
        s[i] == ']' || s[i] == '}'
    }
}

/// The text from position `i` on without commas that only whitespace separates from a
/// closing bracket or brace.
pub open spec fn drop_trailing_commas_from(s: Seq<char>, i: int) -> Seq<char>
    decreases s.len() - i,
{
    if i < 0 || i >= s.len() {
        Seq::empty()
    } else {
        (if s[i] == ',' && closes_after_ws(s, i + 1) {
            Seq::empty()
        } else {
            seq![s[i]]
        }) + drop_trailing_commas_from(s, i + 1)
    }
}

/// JSON text without trailing commas before `]` or `}`.
pub open spec fn without_trailing_commas(s: Seq<char>) -> Seq<char> {
    drop_trailing_commas_from(s, 0)
}

/// JSON text of a plan block: unfenced, trimmed, commas before a closing bracket removed.
pub open spec fn plan_body(inner: Seq<char>) -> Seq<char> {
    without_trailing_commas(trim(unfenced(trim(inner))))
}

/// Index of the largest plan among the first `n` (the last one on ties).
pub open spec fn largest_upto(c: Seq<AutonomousPlan>, n: int) -> int
    decreases n,
{
    if n <= 1 {
        0
    } else {
        let j = largest_upto(c, n - 1);
        if c[n - 1].steps.len() >= c[j].steps.len() {
            n - 1
        } else {
            j
        }
    }
}

proof fn lemma_largest_upto(c: Seq<AutonomousPlan>, n: int)
    requires
        1 <= n <= c.len(),
    ensures
        0 <= largest_upto(c, n) < n,
        forall|k: int| 0 <= k < n ==> #[trigger] c[k].steps.len() <= c[largest_upto(c, n)].steps.len(),
    decreases n,
{
    if n > 1 {
        lemma_largest_upto(c, n - 1);
    }
}

/// The `<tag>` and `</tag>` character runs.
fn tag_pair(tag: &str) -> (r: (Vec<char>, Vec<char>))
    ensures
        r.0@ == open_tag_of(tag@),
        r.1@ == close_tag_of(tag@),
{
    let mut open: Vec<char> = Vec::new();
    open.push('<');
    append_str(&mut open, tag);
    open.push('>');
    let mut close: Vec<char> = Vec::new();
    close.push('<');
    close.push('/');
    append_str(&mut close, tag);
    close.push('>');
    assert(open@ =~= open_tag_of(tag@));
    assert(close@ =~= close_tag_of(tag@));
    (open, close)
}

/// Trimmed contents of every `<tag>…</tag>` block, in order; an unclosed block ends the scan.
pub fn extract_all_tag_inners(text: &str, tag: &str) -> (r: Vec<String>)
    ensures
        r@.len() == tag_inners(text@, tag@).len(),
        forall|i: int| 0 <= i < r@.len() ==> #[trigger] r@[i]@ == tag_inners(text@, tag@)[i],
{
    let t = chars_of(text);
    let lower = lower_vec(t.as_slice());
    let (open, close) = tag_pair(tag);
    let ghost all = tag_inners(text@, tag@);
    let mut out: Vec<String> = Vec::new();
    let mut from: usize = 0;
    loop
        invariant
            from <= t.len(),
            t@ == text@,
            lower@ == lower_seq(t@),
            open@ == open_tag_of(tag@),
            close@ == close_tag_of(tag@),
            all == tag_inners(text@, tag@),
            out@.len() + tag_inners_from(t@, open@, close@, from as int).len() == all.len(),
            forall|i: int| 0 <= i < out@.len() ==> #[trigger] out@[i]@ == all[i],
            forall|i: int|
                0 <= i < tag_inners_from(t@, open@, close@, from as int).len() ==> #[trigger] tag_inners_from(
                    t@,
                    open@,
                    close@,
                    from as int,
                )[i] == all[out@.len() + i],
        decreases t.len() - from,
    {
        let po = find_from_exec(lower.as_slice(), open.as_slice(), from);
        if po.is_none() {
            return out;
        }
        let p = po.unwrap();
        proof {
            lemma_find_from_sound(lower@, open@, from as int);
        }
        let cs = p + open.len();
        let qo = find_from_exec(lower.as_slice(), close.as_slice(), cs);
        if qo.is_none() {
            return out;
        }
        let q = qo.unwrap();
        proof {
            lemma_find_from_sound(lower@, close@, cs as int);
        }
        let raw = slice_of(t.as_slice(), cs, q);
        let inner = trim_vec(raw.as_slice());
        let ghost cur = tag_inners_from(t@, open@, close@, from as int);
        let ghost next = tag_inners_from(t@, open@, close@, (q + close.len()) as int);
        assert(cur == seq![inner@] + next);
        assert(cur[0] == inner@);
        let s = string_of(inner.as_slice());
        out.push(s);
        assert forall|i: int| 0 <= i < next.len() implies #[trigger] next[i] == all[out@.len() - 1 + 1 + i] by {
            assert(next[i] == cur[i + 1]);
        }
        from = q + close.len();
    }
}

/// JSON text of one plan block: unfenced, trimmed, commas before a closing bracket dropped.
pub fn normalize_plan_json_body(inner: &str) -> (r: String)
    ensures
        r@ == plan_body(inner@),
{
    let iv = chars_of(inner);
    let s = trim_vec(iv.as_slice());
    let mut body = s;
    proof {
        reveal_strlit("```");
    }
    if starts_with_str(body.as_slice(), "```") {
        let ls = lines_vec(body.as_slice());
        if ls.len() >= 2 {
            let last = trim_vec(ls[ls.len() - 1].as_slice());
            assert(vv(ls@).last() == ls@[ls.len() - 1]@);
            if str_eq_chars(last.as_slice(), "```") {
                let nl: Vec<char> = vec!['\n'];
                assert(nl@ =~= seq!['\n']);
                body = join_range(ls.as_slice(), 1, ls.len() - 1, nl.as_slice());
            }
        }
    }
    let t = trim_vec(body.as_slice());
    let b = fix_trailing_commas(t.as_slice());
    string_of(b.as_slice())
}

/// Whether only whitespace separates position `i` from a closing `]` or `}`.
fn closes_after_ws_exec(s: &[char], i: usize) -> (r: bool)
    ensures
        r == closes_after_ws(s@, i as int),
{
    let mut j = i;
    while j < s.len() && crate::text::is_whitespace_char(s[j])
        invariant
            i <= j,
            closes_after_ws(s@, i as int) == closes_after_ws(s@, j as int),
        decreases s.len() - j,
    {
        j = j + 1;
    }
    j < s.len() && (s[j] == ']' || s[j] == '}')
}

/// Drops commas that only whitespace separates from a closing `]` or `}`.
fn fix_trailing_commas(s: &[char]) -> (r: Vec<char>)
    ensures
        r@ == without_trailing_commas(s@),
{
    let mut out: Vec<char> = Vec::new();
    let mut i: usize = 0;
    while i < s.len()
        invariant
            i <= s.len(),
            out@ + drop_trailing_commas_from(s@, i as int) == without_trailing_commas(s@),
        decreases s.len() - i,
    {
        let ghost out0 = out@;
        if !(s[i] == ',' && closes_after_ws_exec(s, i + 1)) {
            out.push(s[i]);
        }
        assert(out@ + drop_trailing_commas_from(s@, i + 1) =~= out0 + drop_trailing_commas_from(s@, i as int));
        i = i + 1;
    }
    assert(out@ + Seq::<char>::empty() =~= out@);
    out
}

/// Equality of a character run and a literal.
fn str_eq_chars(a: &[char], b: &str) -> (r: bool)
    ensures
        r == (a@ == b@),
{
    let bv = chars_of(b);
    crate::text::seq_eq_exec(a, bv.as_slice())
}

/// A plan of the given steps; `None` when there are none.
pub fn plan_from_steps(steps: Vec<PlanStep>) -> (r: Option<AutonomousPlan>)
    ensures
        steps.len() == 0 ==> r is None,
        steps.len() > 0 ==> r == Some(AutonomousPlan { steps }),
{
    if steps.len() == 0 {
        None
    } else {
        Some(AutonomousPlan { steps })
    }
}

/// The plan with the most steps (the last such one on ties); `None` for no candidates.
pub fn largest_plan(cands: Vec<AutonomousPlan>) -> (r: Option<AutonomousPlan>)
    ensures
        cands.len() == 0 ==> r is None,
        cands.len() > 0 ==> r == Some(cands@[largest_upto(cands@, cands.len() as int)]),
        r matches Some(p) ==> forall|k: int|
            0 <= k < cands.len() ==> #[trigger] cands@[k].steps.len() <= p.steps.len(),
{
    if cands.len() == 0 {
        return None;
    }
    proof {
        lemma_largest_upto(cands@, cands.len() as int);
    }
    let mut best: usize = 0;
    let mut i: usize = 1;
    while i < cands.len()
        invariant
            1 <= i <= cands.len(),
            best == largest_upto(cands@, i as int),
            best < i,
        decreases cands.len() - i,
    {
        proof {
            lemma_largest_upto(cands@, i as int);
        }
        if cands[i].steps.len() >= cands[best].steps.len() {
            best = i;
        }
        i = i + 1;
    }
    let mut c = cands;
    let ghost c0 = c@;
    let p = c.remove(best);
    assert(p == c0[best as int]);
    Some(p)
}

/// Number of `<autonomous-plan>` openings in a text (case ignored).
pub fn count_plan_tag_blocks(text: &str) -> (r: usize)
    ensures
        r == count_from(lower_seq(text@), "<autonomous-plan>"@, 0),
{
    let t = chars_of(text);
    let lower = lower_vec(t.as_slice());
    let open = chars_of("<autonomous-plan>");
    proof {
        reveal_strlit("<autonomous-plan>");
    }
    count_matches(lower.as_slice(), open.as_slice())
}


/// A step result always carries a terminal status: done, failed or skipped.
pub proof fn law_step_results_are_terminal(text: Seq<char>, start: int)
    ensures
        forall|k: int| 0 <= k < step_results_from(text, start).len() ==> is_terminal((#[trigger] step_results_from(text, start)[k]).1),
    decreases text.len() + 1 - start,
{
    if start < 0 || start > text.len() {
    } else {
        match find_from(lower_seq(text), "<step-result"@, start) {
            None => {},
            Some(at) => {
                lemma_find_from_sound(lower_seq(text), "<step-result"@, start);
                reveal_strlit("<step-result");
                law_step_results_are_terminal(text, at + "<step-result"@.len());
                let rest = step_results_from(text, at + "<step-result"@.len());
                assert forall|k: int| 0 <= k < step_results_from(text, start).len() implies is_terminal((#[trigger] step_results_from(text, start)[k]).1) by {
                    match step_result_of(text.subrange(at, text.len() as int)) {
                        Some(r) => {
                            if k > 0 {
                                assert(step_results_from(text, start)[k] == rest[k - 1]);
                            }
                        },
                        None => {},
                    }
                }
            },
        }
    }
}

/// `mark` touches at most the first step with the id: the plan keeps its length, every
/// step keeps its id and title, and every other step stays as it was.
pub proof fn law_mark_is_local(steps: Seq<PlanStep>, id: u32, status: StepStatus, note: Option<String>)
    ensures
        marked_steps(steps, id, status, note).len() == steps.len(),
        forall|k: int| 0 <= k < steps.len() ==> (#[trigger] marked_steps(steps, id, status, note)[k]).id == steps[k].id
            && marked_steps(steps, id, status, note)[k].title == steps[k].title,
        forall|k: int| 0 <= k < steps.len() && id_index(steps, id) != Some(k) ==> #[trigger] marked_steps(steps, id, status, note)[k] == steps[k],
        id_index(steps, id) matches Some(i) ==> marked_steps(steps, id, status, note)[i].status == status,
{
    lemma_id_index_from_bounds(steps, id, 0);
}

/// A plan that is all done is also all terminal.
pub proof fn law_done_plan_is_terminal(steps: Seq<PlanStep>)
    requires
        forall|k: int| 0 <= k < steps.len() ==> is_finished(#[trigger] steps[k].status),
    ensures
        forall|k: int| 0 <= k < steps.len() ==> is_terminal(#[trigger] steps[k].status),
{
}

} // verus!
