//! Reading autonomous plans out of `<autonomous-plan>` blocks: each block is a JSON
//! array of steps (`id`, `title`, optional `status`, `verify` and `note`), and the block
//! with the most steps wins.
use vstd::prelude::*;

use crate::autonomous_plan::{
    extract_all_tag_inners, normalize_plan_json_body, plan_body, tag_inners, AutonomousPlan, PlanStep,
    StepStatus,
};
use crate::json_value::{get_key, json_i64, json_parse, jsons_of, lemma_jsons_of, parse_json, Json, JsonValue};
use crate::text::str_eq;
use crate::verify_spec::{known_verify_kind, VerifySpec};

verus! {

/// A plan step as values.
pub struct StepView {
    pub id: u32,
    pub title: Seq<char>,
    pub status: StepStatus,
    pub verify: Option<(Seq<char>, Option<Seq<char>>, Option<Seq<char>>, Option<Seq<char>>)>,
    pub note: Option<Seq<char>>,
}

pub open spec fn opt_view(o: Option<String>) -> Option<Seq<char>> {
    match o {
        Some(s) => Some(s@),
        None => None,
    }
}

pub open spec fn step_view(p: PlanStep) -> StepView {
    StepView {
        id: p.id,
        title: p.title@,
        status: p.status,
        verify: match p.verify {
            Some(v) => Some((v.kind@, opt_view(v.path), opt_view(v.needle), opt_view(v.manifest))),
            None => None,
        },
        note: opt_view(p.note),
    }
}

pub open spec fn steps_view(s: Seq<PlanStep>) -> Seq<StepView> {
    Seq::new(s.len(), |i: int| step_view(s[i]))
}

/// A field that may be absent or `null`, else must be a string; `None` rejects it.
pub open spec fn opt_string_field(v: Option<Json>) -> Option<Option<Seq<char>>> {
    match v {
        None => Some(None),
        Some(Json::Null) => Some(None),
        Some(Json::Str(s)) => Some(Some(s)),
        _ => None,
    }
}

/// The step status: `pending` when absent, else one of the snake-case names.
pub open spec fn status_field(v: Option<Json>) -> Option<StepStatus> {
    match v {
        None => Some(StepStatus::Pending),
        Some(Json::Str(s)) => if s == "pending"@ {
            Some(StepStatus::Pending)
        } else if s == "in_progress"@ {
            Some(StepStatus::InProgress)
        } else if s == "done"@ {
            Some(StepStatus::Done)
        } else if s == "failed"@ {
            Some(StepStatus::Failed)
        } else if s == "skipped"@ {
            Some(StepStatus::Skipped)
        } else {
            None
        },
        _ => None,
    }
}

/// The step id: an integer from 0 to `u32::MAX`.
pub open spec fn id_field(v: Option<Json>) -> Option<u32> {
    match v {
        Some(x) => match json_i64(x) {
            Some(n) => if 0 <= n <= u32::MAX {
                Some(n as u32)
            } else {
                None
            },
            None => None,
        },
        None => None,
    }
}

/// The step's check: an object with a known `kind` and optional string `path`, `needle`
/// and `manifest`; anything else gives no check (the step itself stays).
pub open spec fn verify_field(v: Option<Json>) -> Option<
    (Seq<char>, Option<Seq<char>>, Option<Seq<char>>, Option<Seq<char>>),
> {
    match v {
        Some(o) => match o {
            Json::Object(_) => match get_key(o, "kind"@) {
                Some(Json::Str(k)) => if known_verify_kind(k) {
                    match (
                        opt_string_field(get_key(o, "path"@)),
                        opt_string_field(get_key(o, "needle"@)),
                        opt_string_field(get_key(o, "manifest"@)),
                    ) {
                        (Some(p), Some(n), Some(m)) => Some((k, p, n, m)),
                        _ => None,
                    }
                } else {
                    None
                },
                _ => None,
            },
            _ => None,
        },
        None => None,
    }
}

/// One step read from a JSON object; `None` when a required field is missing or of the
/// wrong type.
pub open spec fn step_of(item: Json) -> Option<StepView> {
    match item {
        Json::Object(_) => match (
            id_field(get_key(item, "id"@)),
            get_key(item, "title"@),
            status_field(get_key(item, "status"@)),
            opt_string_field(get_key(item, "note"@)),
        ) {
            (Some(id), Some(Json::Str(t)), Some(st), Some(note)) => Some(
                StepView { id, title: t, status: st, verify: verify_field(get_key(item, "verify"@)), note },
            ),
            _ => None,
        },
        _ => None,
    }
}

pub open spec fn steps_of_items(items: Seq<Json>) -> Option<Seq<StepView>>
    decreases items.len(),
{
    if items.len() == 0 {
        Some(Seq::empty())
    } else {
        match (steps_of_items(items.drop_last()), step_of(items.last())) {
            (Some(p), Some(s)) => Some(p.push(s)),
            _ => None,
        }
    }
}

/// The steps of a JSON array, every element a step; `None` otherwise.
pub open spec fn steps_of(v: Json) -> Option<Seq<StepView>> {
    match v {
        Json::Array(items) => steps_of_items(items),
        _ => None,
    }
}

fn opt_string_exec(v: Option<&JsonValue>) -> (r: Option<Option<String>>)
    ensures
        match opt_string_field(
            match v {
                Some(x) => Some(x@),
                None => None,
            },
        ) {
            Some(o) => r matches Some(ro) && opt_view(ro) == o,
            None => r is None,
        },
{
    match v {
        None => Some(None),
        Some(JsonValue::Null) => Some(None),
        Some(JsonValue::Str(s)) => Some(Some(s.clone())),
        Some(_) => None,
    }
}

fn status_exec(v: Option<&JsonValue>) -> (r: Option<StepStatus>)
    ensures
        r == status_field(
            match v {
                Some(x) => Some(x@),
                None => None,
            },
        ),
{
    match v {
        None => Some(StepStatus::Pending),
        Some(JsonValue::Str(s)) => {
            if str_eq(s.as_str(), "pending") {
                Some(StepStatus::Pending)
            } else if str_eq(s.as_str(), "in_progress") {
                Some(StepStatus::InProgress)
            } else if str_eq(s.as_str(), "done") {
                Some(StepStatus::Done)
            } else if str_eq(s.as_str(), "failed") {
                Some(StepStatus::Failed)
            } else if str_eq(s.as_str(), "skipped") {
                Some(StepStatus::Skipped)
            } else {
                None
            }
        },
        Some(_) => None,
    }
}

fn id_exec(v: Option<&JsonValue>) -> (r: Option<u32>)
    ensures
        r == id_field(
            match v {
                Some(x) => Some(x@),
                None => None,
            },
        ),
{
    match v {
        Some(x) => match x.as_i64() {
            Some(n) => if 0 <= n && n <= 0xffff_ffff {
                Some(n as u32)
            } else {
                None
            },
            None => None,
        },
        None => None,
    }
}

fn verify_exec(v: Option<&JsonValue>) -> (r: Option<VerifySpec>)
    ensures
        (match r {
            Some(c) => Some((c.kind@, opt_view(c.path), opt_view(c.needle), opt_view(c.manifest))),
            None => None,
        }) == verify_field(
            match v {
                Some(x) => Some(x@),
                None => None,
            },
        ),
{
    let o = match v {
        Some(o) => o,
        None => return None,
    };
    match o {
        JsonValue::Object(_) => {},
        _ => return None,
    }
    let k = match o.get("kind") {
        Some(JsonValue::Str(k)) => k,
        _ => return None,
    };
    if !VerifySpec::is_known_kind(k.as_str()) {
        return None;
    }
    let p = opt_string_exec(o.get("path"));
    let n = opt_string_exec(o.get("needle"));
    let m = opt_string_exec(o.get("manifest"));
    match (p, n, m) {
        (Some(p), Some(n), Some(m)) => Some(VerifySpec { kind: k.clone(), path: p, needle: n, manifest: m }),
        _ => None,
    }
}

/// One plan step read from a JSON object (see `step_of`).
pub fn plan_step_from_json(item: &JsonValue) -> (r: Option<PlanStep>)
    ensures
        match step_of(item@) {
            Some(s) => r matches Some(p) && step_view(p) == s,
            None => r is None,
        },
{
    match item {
        JsonValue::Object(_) => {},
        _ => return None,
    }
    let id = id_exec(item.get("id"));
    let title = match item.get("title") {
        Some(JsonValue::Str(t)) => Some(t),
        _ => None,
    };
    let status = status_exec(item.get("status"));
    let note = opt_string_exec(item.get("note"));
    match (id, title, status, note) {
        (Some(id), Some(t), Some(st), Some(note)) => {
            let verify = verify_exec(item.get("verify"));
            Some(PlanStep { id, title: t.clone(), status: st, verify, note })
        },
        _ => None,
    }
}

proof fn lemma_steps_none_extends(iv: Seq<Json>, j: int, k: int)
    requires
        0 <= j <= k <= iv.len(),
        steps_of_items(iv.subrange(0, j)) is None,
    ensures
        steps_of_items(iv.subrange(0, k)) is None,
    decreases k - j,
{
    if k > j {
        lemma_steps_none_extends(iv, j, k - 1);
        assert(iv.subrange(0, k).drop_last() =~= iv.subrange(0, k - 1));
    }
}

/// The steps of a JSON array of step objects (see `steps_of`).
pub fn plan_steps_from_json(v: &JsonValue) -> (r: Option<Vec<PlanStep>>)
    ensures
        r matches Some(s) ==> steps_of(v@) == Some(steps_view(s@)),
        r is None ==> steps_of(v@) is None,
{
    let items = match v {
        JsonValue::Array(items) => items,
        _ => return None,
    };
    proof {
        lemma_jsons_of(items@);
    }
    let ghost iv = jsons_of(items@);
    let mut out: Vec<PlanStep> = Vec::new();
    let mut i: usize = 0;
    assert(iv.subrange(0, 0) =~= Seq::<Json>::empty());
    assert(steps_view(out@) =~= Seq::<StepView>::empty());
    while i < items.len()
        invariant
            i <= items.len(),
            v@ == Json::Array(iv),
            iv == jsons_of(items@),
            iv.len() == items@.len(),
            forall|t: int| 0 <= t < items@.len() ==> #[trigger] iv[t] == items@[t]@,
            steps_of_items(iv.subrange(0, i as int)) == Some(steps_view(out@)),
        decreases items.len() - i,
    {
        let ghost pre = iv.subrange(0, i + 1);
        assert(pre.drop_last() =~= iv.subrange(0, i as int));
        assert(pre.last() == items@[i as int]@);
        match plan_step_from_json(&items[i]) {
            Some(p) => {
                let ghost o0 = out@;
                out.push(p);
                assert(steps_view(out@) =~= steps_view(o0).push(step_view(p)));
            },
            None => {
                proof {
                    lemma_steps_none_extends(iv, i + 1, items.len() as int);
                    assert(iv.subrange(0, items.len() as int) =~= iv);
                }
                return None;
            },
        }
        i = i + 1;
    }
    assert(iv.subrange(0, items.len() as int) =~= iv);
    Some(out)
}

/// The steps of one plan block: its JSON body read as an array of steps, `None` when it
/// is no JSON, not such an array, or empty.
pub open spec fn block_steps(inner: Seq<char>) -> Option<Seq<StepView>> {
    match json_parse(plan_body(inner)) {
        Some(v) => match steps_of(v) {
            Some(s) => if s.len() > 0 {
                Some(s)
            } else {
                None
            },
            None => None,
        },
        None => None,
    }
}

/// Steps of one plan block (see `block_steps`).
pub fn parse_steps_json(inner: &str) -> (r: Option<Vec<PlanStep>>)
    ensures
        match block_steps(inner@) {
            Some(s) => r matches Some(p) && steps_view(p@) == s,
            None => r is None,
        },
{
    let body = normalize_plan_json_body(inner);
    let v = match parse_json(body.as_str()) {
        Some(v) => v,
        None => return None,
    };
    match plan_steps_from_json(&v) {
        Some(steps) => if steps.len() > 0 {
            Some(steps)
        } else {
            None
        },
        None => None,
    }
}

/// The plans of the given blocks, in order, skipping blocks that hold none.
pub open spec fn plans_of_blocks(inners: Seq<Seq<char>>) -> Seq<Seq<StepView>>
    decreases inners.len(),
{
    if inners.len() == 0 {
        Seq::empty()
    } else {
        let prev = plans_of_blocks(inners.drop_last());
        match block_steps(inners.last()) {
            Some(s) => prev.push(s),
            None => prev,
        }
    }
}

/// Index of the plan with the most steps among the first `n` (the last one on ties).
pub open spec fn best_upto(c: Seq<Seq<StepView>>, n: int) -> int
    decreases n,
{
    if n <= 1 {
        0
    } else {
        let j = best_upto(c, n - 1);
        if c[n - 1].len() >= c[j].len() {
            n - 1
        } else {
            j
        }
    }
}

/// The plan with the most steps (the last one on ties), if any.
pub open spec fn best_plan(c: Seq<Seq<StepView>>) -> Option<Seq<StepView>> {
    if c.len() == 0 {
        None
    } else {
        Some(c[best_upto(c, c.len() as int)])
    }
}

proof fn lemma_best_upto(c: Seq<Seq<StepView>>, n: int)
    requires
        1 <= n <= c.len(),
    ensures
        0 <= best_upto(c, n) < n,
    decreases n,
{
    if n > 1 {
        lemma_best_upto(c, n - 1);
    }
}

/// Picks the plan with the most steps (the last one on ties).
fn pick_best(cands: Vec<Vec<PlanStep>>, Ghost(c): Ghost<Seq<Seq<StepView>>>) -> (r: Option<Vec<PlanStep>>)
    requires
        c.len() == cands@.len(),
        forall|k: int| 0 <= k < c.len() ==> #[trigger] c[k] == steps_view(cands@[k]@),
    ensures
        match best_plan(c) {
            Some(s) => r matches Some(p) && steps_view(p@) == s,
            None => r is None,
        },
{
    if cands.len() == 0 {
        return None;
    }
    let mut best: usize = 0;
    let mut i: usize = 1;
    while i < cands.len()
        invariant
            1 <= i <= cands.len(),
            c.len() == cands@.len(),
            forall|k: int| 0 <= k < c.len() ==> #[trigger] c[k] == steps_view(cands@[k]@),
            best as int == best_upto(c, i as int),
            best < i,
        decreases cands.len() - i,
    {
        assert(c[i as int].len() == cands@[i as int]@.len());
        assert(c[best as int].len() == cands@[best as int]@.len());
        if cands[i].len() >= cands[best].len() {
            best = i;
        }
        i = i + 1;
    }
    let mut cands = cands;
    let p = cands.swap_remove(best);
    Some(p)
}

/// The plan with the most steps among the `<autonomous-plan>` blocks of a text.
pub open spec fn text_plan(text: Seq<char>) -> Option<Seq<StepView>> {
    best_plan(plans_of_blocks(tag_inners(text, "autonomous-plan"@)))
}

fn block_plans(text: &str) -> (r: Vec<Vec<PlanStep>>)
    ensures
        r@.len() == plans_of_blocks(tag_inners(text@, "autonomous-plan"@)).len(),
        forall|k: int| 0 <= k < r@.len() ==> #[trigger] plans_of_blocks(tag_inners(text@, "autonomous-plan"@))[k]
            == steps_view(r@[k]@),
{
    let inners = extract_all_tag_inners(text, "autonomous-plan");
    let ghost ti = tag_inners(text@, "autonomous-plan"@);
    let mut out: Vec<Vec<PlanStep>> = Vec::new();
    let mut i: usize = 0;
    assert(ti.subrange(0, 0) =~= Seq::<Seq<char>>::empty());
    while i < inners.len()
        invariant
            i <= inners.len(),
            inners@.len() == ti.len(),
            ti == tag_inners(text@, "autonomous-plan"@),
            forall|k: int| 0 <= k < inners@.len() ==> #[trigger] inners@[k]@ == ti[k],
            out@.len() == plans_of_blocks(ti.subrange(0, i as int)).len(),
            forall|k: int| 0 <= k < out@.len() ==> #[trigger] plans_of_blocks(ti.subrange(0, i as int))[k]
                == steps_view(out@[k]@),
        decreases inners.len() - i,
    {
        let ghost pre = ti.subrange(0, i + 1);
        assert(pre.drop_last() =~= ti.subrange(0, i as int));
        assert(pre.last() == inners@[i as int]@);
        match parse_steps_json(inners[i].as_str()) {
            Some(steps) => {
                out.push(steps);
            },
            None => {},
        }
        i = i + 1;
    }
    assert(ti.subrange(0, inners.len() as int) =~= ti);
    out
}

/// The plan with the most steps among the `<autonomous-plan>` blocks of a text (see
/// `text_plan`).
pub fn parse_autonomous_plan(text: &str) -> (r: Option<AutonomousPlan>)
    ensures
        match text_plan(text@) {
            Some(s) => r matches Some(p) && steps_view(p.steps@) == s,
            None => r is None,
        },
{
    let cands = block_plans(text);
    let ghost c = plans_of_blocks(tag_inners(text@, "autonomous-plan"@));
    match pick_best(cands, Ghost(c)) {
        Some(steps) => Some(AutonomousPlan { steps }),
        None => None,
    }
}

/// The best plan of each text that has one, in order.
pub open spec fn plans_of_texts(texts: Seq<Seq<char>>) -> Seq<Seq<StepView>>
    decreases texts.len(),
{
    if texts.len() == 0 {
        Seq::empty()
    } else {
        let prev = plans_of_texts(texts.drop_last());
        match text_plan(texts.last()) {
            Some(s) => prev.push(s),
            None => prev,
        }
    }
}

/// Like `parse_autonomous_plan` over several assistant turns (planning retries): the
/// plan with the most steps among the texts' plans, the last one on ties.
pub fn best_autonomous_plan_from_texts(texts: &[&str]) -> (r: Option<AutonomousPlan>)
    ensures
        match best_plan(plans_of_texts(texts@.map_values(|t: &str| t@))) {
            Some(s) => r matches Some(p) && steps_view(p.steps@) == s,
            None => r is None,
        },
{
    let ghost tv = texts@.map_values(|t: &str| t@);
    let mut out: Vec<Vec<PlanStep>> = Vec::new();
    let mut i: usize = 0;
    assert(tv.subrange(0, 0) =~= Seq::<Seq<char>>::empty());
    while i < texts.len()
        invariant
            i <= texts.len(),
            tv == texts@.map_values(|t: &str| t@),
            out@.len() == plans_of_texts(tv.subrange(0, i as int)).len(),
            forall|k: int| 0 <= k < out@.len() ==> #[trigger] plans_of_texts(tv.subrange(0, i as int))[k]
                == steps_view(out@[k]@),
        decreases texts.len() - i,
    {
        let ghost pre = tv.subrange(0, i + 1);
        assert(pre.drop_last() =~= tv.subrange(0, i as int));
        assert(pre.last() == texts@[i as int]@);
        match parse_autonomous_plan(texts[i]) {
            Some(p) => {
                out.push(p.steps);
            },
            None => {},
        }
        i = i + 1;
    }
    assert(tv.subrange(0, texts.len() as int) =~= tv);
    let ghost c = plans_of_texts(tv);
    match pick_best(out, Ghost(c)) {
        Some(steps) => Some(AutonomousPlan { steps }),
        None => None,
    }
}

/// Step statuses read by name: different names never give the same status, every
/// status has a name, and a name that is also a `<step-result>` status word means the
/// same status there.
pub proof fn law_status_names(x: Seq<char>, y: Seq<char>, st: StepStatus)
    ensures
        status_field(Some(Json::Str(x))) is Some && status_field(Some(Json::Str(x))) == status_field(
            Some(Json::Str(y)),
        ) ==> x == y,
        exists|w: Seq<char>| status_field(Some(Json::Str(w))) == Some(st),
        status_field(Some(Json::Str(x))) is Some && crate::autonomous_plan::status_of_word(x) is Some
            ==> status_field(Some(Json::Str(x))) == crate::autonomous_plan::status_of_word(x),
{
    reveal_strlit("pending");
    reveal_strlit("in_progress");
    reveal_strlit("done");
    reveal_strlit("failed");
    reveal_strlit("skipped");
    reveal_strlit("complete");
    reveal_strlit("completed");
    reveal_strlit("fail");
    reveal_strlit("error");
    reveal_strlit("skip");
    assert("skipped"@ != "pending"@) by {
        assert("skipped"@[0] != "pending"@[0]);
    }
    assert("pending"@.len() == 7 && "in_progress"@.len() == 11 && "done"@.len() == 4 && "failed"@.len() == 6
        && "skipped"@.len() == 7 && "complete"@.len() == 8 && "completed"@.len() == 9 && "fail"@.len() == 4
        && "error"@.len() == 5 && "skip"@.len() == 4);
    match st {
        StepStatus::Pending => assert(status_field(Some(Json::Str("pending"@))) == Some(st)),
        StepStatus::InProgress => assert(status_field(Some(Json::Str("in_progress"@))) == Some(st)),
        StepStatus::Done => assert(status_field(Some(Json::Str("done"@))) == Some(st)),
        StepStatus::Failed => assert(status_field(Some(Json::Str("failed"@))) == Some(st)),
        StepStatus::Skipped => assert(status_field(Some(Json::Str("skipped"@))) == Some(st)),
    }
    if status_field(Some(Json::Str(x))) is Some {
        assert(x == "pending"@ || x == "in_progress"@ || x == "done"@ || x == "failed"@ || x == "skipped"@);
        assert(crate::text::lower_seq(x) =~= x);
    }
}

} // verus!
