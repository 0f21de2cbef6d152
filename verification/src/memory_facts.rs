//! Fact-preserving memory compression helpers.
//!
//! Memory text is split into atomic facts (plan snapshots, decisions, repository
//! notes, workspace paths) and free narrative; facts survive compression verbatim.
use vstd::prelude::*;

use crate::models::{views, ChatMessage, MessageView};
use crate::plan_memory::{
    extract_plan_step_summary, format_plan_step_for_memory, plan_step_memory, step_summary_inner,
};
use crate::text::{
    append_chars, append_str, chars_of, compact_whitespace_vec, compact_ws, eq_ignore_case,
    find, find_exec, is_ws, is_whitespace_char, join, join_range, join_vec, lemma_find_from_sound, lemma_found,
    lemma_vv_push, lines, lines_vec, lower_seq, lower_vec, seq_eq_exec, slice_of, starts_with,
    starts_with_any, starts_with_any_exec, starts_with_exec, starts_with_str, string_of,
    strs_view, trim, trim_vec, vv, ends_with, ends_with_str,
};

verus! {

/// Header of the fact block in merged memory.
pub open spec fn facts_header() -> Seq<char> {
    "## FACTS (do not contradict)"@
}

#[derive(Debug, Clone, Copy, PartialEq, Eq, Structural)]
pub enum FactKind {
    PlanCanonical,
    PlanProgress,
    Decision,
    Repo,
    Path,
}

/// Output priority of a fact kind (lower first).
pub open spec fn prio(k: FactKind) -> int {
    match k {
        FactKind::PlanCanonical => 0,
        FactKind::Decision => 1,
        FactKind::Path => 2,
        FactKind::Repo => 3,
        FactKind::PlanProgress => 4,
    }
}

impl FactKind {
    fn priority(&self) -> (r: u8)
        ensures
            r as int == prio(*self),
    {
        match self {
            FactKind::PlanCanonical => 0,
            FactKind::Decision => 1,
            FactKind::Path => 2,
            FactKind::Repo => 3,
            FactKind::PlanProgress => 4,
        }
    }
}

/// One atomic fact and the line where it started.
#[derive(Debug, Clone)]
pub struct FactAtom {
    pub kind: FactKind,
    pub text: String,
    pub order: usize,
}

/// Mathematical view of a fact.
pub struct AtomView {
    pub kind: FactKind,
    pub text: Seq<char>,
    pub order: int,
}

impl View for FactAtom {
    type V = AtomView;

    open spec fn view(&self) -> AtomView {
        AtomView { kind: self.kind, text: self.text@, order: self.order as int }
    }
}

pub open spec fn atom_views(s: Seq<FactAtom>) -> Seq<AtomView> {
    Seq::new(s.len(), |i: int| s[i]@)
}

/// Facts and the remaining narrative of a memory text.
#[derive(Debug, Clone)]
pub struct MemoryFacts {
    pub atoms: Vec<FactAtom>,
    pub narrative: String,
}

// ------------------------------------------------------------------
// Line classification
// ------------------------------------------------------------------

pub open spec fn plan_keys() -> Seq<Seq<char>> {
    seq!["step:"@, "last_done:"@, "done:"@, "next:"@, "source:"@, "updated_at:"@, "why:"@]
}

/// A `key: value` line that continues a plan snapshot.
pub open spec fn is_plan_key(line: Seq<char>) -> bool {
    starts_with_any(lower_seq(line), plan_keys())
}

fn looks_like_plan_key(line: &[char]) -> (r: bool)
    ensures
        r == is_plan_key(line@),
{
    let lower = lower_vec(line);
    let keys: [&str; 7] = ["step:", "last_done:", "done:", "next:", "source:", "updated_at:", "why:"];
    assert(strs_view(keys@) =~= plan_keys());
    starts_with_any_exec(lower.as_slice(), keys.as_slice())
}

pub open spec fn decision_prefixes() -> Seq<Seq<char>> {
    seq!["decision:"@, "decided:"@, "решение:"@, "решили:"@]
}

pub open spec fn is_decision(line: Seq<char>) -> bool {
    starts_with_any(lower_seq(line), decision_prefixes())
}

fn is_decision_line(line: &[char]) -> (r: bool)
    ensures
        r == is_decision(line@),
{
    let lower = lower_vec(line);
    let keys: [&str; 4] = ["decision:", "decided:", "решение:", "решили:"];
    assert(strs_view(keys@) =~= decision_prefixes());
    starts_with_any_exec(lower.as_slice(), keys.as_slice())
}

pub open spec fn repo_prefixes() -> Seq<Seq<char>> {
    seq!["repo:"@, "repo outline:"@, "project:"@, "context-file:"@]
}

pub open spec fn is_repo(line: Seq<char>) -> bool {
    starts_with_any(lower_seq(line), repo_prefixes())
}

fn is_repo_line(line: &[char]) -> (r: bool)
    ensures
        r == is_repo(line@),
{
    let lower = lower_vec(line);
    let keys: [&str; 4] = ["repo:", "repo outline:", "project:", "context-file:"];
    assert(strs_view(keys@) =~= repo_prefixes());
    starts_with_any_exec(lower.as_slice(), keys.as_slice())
}

// ------------------------------------------------------------------
// Workspace paths
// ------------------------------------------------------------------

/// Characters that separate words when looking for paths.
pub open spec fn is_path_sep(c: char) -> bool {
    is_ws(c) || c == '`' || c == '"' || c == '\'' || c == '(' || c == ')' || c == ',' || c == ';'
}

/// `str::split` on the separators: `n` separators give `n + 1` pieces.
pub open spec fn pieces(s: Seq<char>) -> Seq<Seq<char>>
    decreases s.len(),
{
    if s.len() == 0 {
        seq![Seq::<char>::empty()]
    } else {
        let p = pieces(s.drop_last());
        if is_path_sep(s.last()) {
            p.push(Seq::<char>::empty())
        } else {
            p.update(p.len() - 1, p.last().push(s.last()))
        }
    }
}

pub proof fn lemma_pieces_nonempty(s: Seq<char>)
    ensures
        pieces(s).len() >= 1,
    decreases s.len(),
{
    if s.len() > 0 {
        lemma_pieces_nonempty(s.drop_last());
    }
}

/// Punctuation stripped from both ends of a path candidate.
pub open spec fn is_edge_punct(c: char) -> bool {
    c == ':' || c == '.' || c == ']' || c == '['
}

pub open spec fn strip_edge_start(s: Seq<char>) -> Seq<char>
    decreases s.len(),
{
    if s.len() > 0 && is_edge_punct(s[0]) {
        strip_edge_start(s.drop_first())
    } else {
        s
    }
}

pub open spec fn strip_edge_end(s: Seq<char>) -> Seq<char>
    decreases s.len(),
{
    if s.len() > 0 && is_edge_punct(s.last()) {
        strip_edge_end(s.drop_last())
    } else {
        s
    }
}

/// `trim_matches(|c| matches!(c, ':' | '.' | ']' | '['))`.
pub open spec fn strip_edges(s: Seq<char>) -> Seq<char> {
    strip_edge_end(strip_edge_start(s))
}

/// A lower-cased candidate names a workspace file of interest.
pub open spec fn is_workspace_path(lower: Seq<char>) -> bool {
    ||| lower == "plan.md"@
    ||| starts_with(lower, "src/"@)
    ||| starts_with(lower, "src-tauri/"@)
    ||| starts_with(lower, "scripts/"@)
    ||| ends_with(lower, "/plan.md"@)
    ||| ends_with(lower, "\\plan.md"@)
}

/// Backslashes turned into forward slashes.
pub open spec fn forward_slashes(s: Seq<char>) -> Seq<char> {
    Seq::new(s.len(), |i: int| if s[i] == '\\' { '/' } else { s[i] })
}

/// Workspace paths among the pieces, normalized.
pub open spec fn paths_of_pieces(ps: Seq<Seq<char>>) -> Seq<Seq<char>>
    decreases ps.len(),
{
    if ps.len() == 0 {
        Seq::empty()
    } else {
        let rest = paths_of_pieces(ps.drop_last());
        let l = lower_seq(strip_edges(ps.last()));
        if is_workspace_path(l) {
            rest.push(forward_slashes(l))
        } else {
            rest
        }
    }
}

/// Workspace paths mentioned in a line.
pub open spec fn workspace_path_list(line: Seq<char>) -> Seq<Seq<char>> {
    paths_of_pieces(pieces(line))
}

fn is_path_sep_exec(c: char) -> (r: bool)
    ensures
        r == is_path_sep(c),
{
    is_whitespace_char(c) || c == '`' || c == '"' || c == '\'' || c == '(' || c == ')' || c == ','
        || c == ';'
}

fn strip_edges_vec(s: &[char]) -> (r: Vec<char>)
    ensures
        r@ == strip_edges(s@),
{
    let mut a: usize = 0;
    assert(s@.subrange(0, s.len() as int) =~= s@);
    while a < s.len() && (s[a] == ':' || s[a] == '.' || s[a] == ']' || s[a] == '[')
        invariant
            a <= s.len(),
            strip_edge_start(s@) == strip_edge_start(s@.subrange(a as int, s.len() as int)),
        decreases s.len() - a,
    {
        assert(s@.subrange(a as int, s.len() as int).drop_first() =~= s@.subrange(
            a + 1,
            s.len() as int,
        ));
        a = a + 1;
    }
    let mut b = s.len();
    let ghost t = s@.subrange(a as int, s.len() as int);
    while b > a && (s[b - 1] == ':' || s[b - 1] == '.' || s[b - 1] == ']' || s[b - 1] == '[')
        invariant
            a <= b <= s.len(),
            strip_edge_end(t) == strip_edge_end(s@.subrange(a as int, b as int)),
        decreases b,
    {
        assert(s@.subrange(a as int, b as int).drop_last() =~= s@.subrange(a as int, b - 1));
        b = b - 1;
    }
    slice_of(s, a, b)
}

fn forward_slashes_vec(s: &[char]) -> (r: Vec<char>)
    ensures
        r@ == forward_slashes(s@),
{
    let mut out: Vec<char> = Vec::new();
    let mut i: usize = 0;
    while i < s.len()
        invariant
            i <= s.len(),
            out@ =~= forward_slashes(s@).subrange(0, i as int),
        decreases s.len() - i,
    {
        if s[i] == '\\' {
            out.push('/');
        } else {
            out.push(s[i]);
        }
        i = i + 1;
    }
    out
}

fn is_workspace_path_exec(l: &[char]) -> (r: bool)
    ensures
        r == is_workspace_path(l@),
{
    let plan = chars_of("plan.md");
    seq_eq_exec(l, plan.as_slice()) || starts_with_str(l, "src/") || starts_with_str(
        l,
        "src-tauri/",
    ) || starts_with_str(l, "scripts/") || ends_with_str(l, "/plan.md") || ends_with_str(
        l,
        "\\plan.md",
    )
}

/// Split a line into separator-delimited pieces.
fn split_pieces(line: &[char]) -> (r: Vec<Vec<char>>)
    ensures
        vv(r@) == pieces(line@),
{
    let mut done: Vec<Vec<char>> = Vec::new();
    let mut cur: Vec<char> = Vec::new();
    let mut i: usize = 0;
    assert(line@.subrange(0, 0) =~= Seq::<char>::empty());
    assert(vv(done@).push(cur@) =~= pieces(Seq::<char>::empty()));
    while i < line.len()
        invariant
            i <= line.len(),
            vv(done@).push(cur@) == pieces(line@.subrange(0, i as int)),
        decreases line.len() - i,
    {
        let c = line[i];
        let ghost pre = line@.subrange(0, i as int);
        assert(line@.subrange(0, i + 1).drop_last() =~= pre);
        if is_path_sep_exec(c) {
            proof {
                lemma_vv_push(done@, cur);
            }
            done.push(cur);
            cur = Vec::new();
            assert(vv(done@).push(cur@) =~= pieces(pre).push(Seq::<char>::empty()));
        } else {
            let ghost old_cur = cur@;
            cur.push(c);
            assert(vv(done@).push(cur@) =~= pieces(pre).update(
                pieces(pre).len() - 1,
                pieces(pre).last().push(c),
            ));
        }
        i = i + 1;
    }
    proof {
        lemma_vv_push(done@, cur);
    }
    done.push(cur);
    assert(line@.subrange(0, line.len() as int) =~= line@);
    done
}

/// Workspace paths mentioned in a line.
fn workspace_paths(line: &[char]) -> (r: Vec<Vec<char>>)
    ensures
        vv(r@) == workspace_path_list(line@),
{
    let ps = split_pieces(line);
    let mut out: Vec<Vec<char>> = Vec::new();
    let mut i: usize = 0;
    while i < ps.len()
        invariant
            i <= ps.len(),
            vv(ps@) == pieces(line@),
            vv(out@) == paths_of_pieces(vv(ps@).subrange(0, i as int)),
        decreases ps.len() - i,
    {
        assert(vv(ps@).subrange(0, i + 1).drop_last() =~= vv(ps@).subrange(0, i as int));
        let stripped = strip_edges_vec(ps[i].as_slice());
        let lower = lower_vec(stripped.as_slice());
        if is_workspace_path_exec(lower.as_slice()) {
            let p = forward_slashes_vec(lower.as_slice());
            proof {
                lemma_vv_push(out@, p);
            }
            out.push(p);
        }
        i = i + 1;
    }
    assert(vv(ps@).subrange(0, ps.len() as int) =~= vv(ps@));
    out
}

// ------------------------------------------------------------------
// Splitting memory into facts and narrative
// ------------------------------------------------------------------

/// End of the run of plan-key lines starting at `j`.
pub open spec fn keys_end(ls: Seq<Seq<char>>, j: int) -> int
    decreases ls.len() - j,
{
    if j < 0 || j >= ls.len() || !is_plan_key(trim(ls[j])) {
        j
    } else {
        keys_end(ls, j + 1)
    }
}

pub proof fn lemma_keys_end(ls: Seq<Seq<char>>, j: int)
    requires
        0 <= j,
    ensures
        j <= keys_end(ls, j),
        keys_end(ls, j) <= if j <= ls.len() { ls.len() as int } else { j },
    decreases ls.len() - j,
{
    if j < ls.len() && is_plan_key(trim(ls[j])) {
        lemma_keys_end(ls, j + 1);
    }
}

/// Index of the first line at or after `k` that closes a plan-step summary.
pub open spec fn close_index(ls: Seq<Seq<char>>, k: int) -> int
    decreases ls.len() - k,
{
    if k < 0 || k >= ls.len() {
        ls.len() as int
    } else if starts_with(trim(ls[k]), "</plan-step-summary>"@) {
        k
    } else {
        close_index(ls, k + 1)
    }
}

pub proof fn lemma_close_index(ls: Seq<Seq<char>>, k: int)
    requires
        0 <= k <= ls.len(),
    ensures
        k <= close_index(ls, k) <= ls.len(),
    decreases ls.len() - k,
{
    if k < ls.len() && !starts_with(trim(ls[k]), "</plan-step-summary>"@) {
        lemma_close_index(ls, k + 1);
    }
}

/// Lines `a..b`, each followed by a newline.
pub open spec fn lines_nl(ls: Seq<Seq<char>>, a: int, b: int) -> Seq<char>
    decreases b - a,
{
    if b <= a {
        Seq::empty()
    } else {
        lines_nl(ls, a, b - 1) + ls[b - 1] + seq!['\n']
    }
}

/// The plan-step summary block opened at line `i`.
pub open spec fn summary_block(ls: Seq<Seq<char>>, i: int) -> Seq<char> {
    let k = close_index(ls, i);
    lines_nl(ls, i, if k < ls.len() { k + 1 } else { ls.len() as int })
}

/// A trimmed line that stays in the narrative as is.
pub open spec fn is_narrative_marker(t: Seq<char>) -> bool {
    t.len() == 0 || starts_with(t, "COMPRESSED_MEMORY:"@) || starts_with(t, facts_header())
}

/// A fact classified from a single trimmed line.
pub open spec fn line_kind(t: Seq<char>) -> Option<FactKind> {
    if is_decision(t) {
        Some(FactKind::Decision)
    } else if is_repo(t) {
        Some(FactKind::Repo)
    } else if workspace_path_list(t).len() > 0 {
        Some(FactKind::Path)
    } else {
        None
    }
}

/// Facts and narrative lines produced from line `i` onward.
pub open spec fn split_from(ls: Seq<Seq<char>>, i: int) -> (Seq<AtomView>, Seq<Seq<char>>)
    decreases ls.len() + 1 - i,
{
    if i < 0 || i >= ls.len() {
        (Seq::empty(), Seq::empty())
    } else {
        let line = ls[i];
        let t = trim(line);
        if is_narrative_marker(t) {
            let rest = split_from(ls, i + 1);
            (rest.0, seq![line] + rest.1)
        } else if starts_with(t, "PLAN_CANONICAL"@) || starts_with(t, "PLAN_PROGRESS:"@) {
            let j = keys_end(ls, i + 1);
            proof {
                lemma_keys_end(ls, i + 1);
            }
            let kind = if starts_with(t, "PLAN_CANONICAL"@) {
                FactKind::PlanCanonical
            } else {
                FactKind::PlanProgress
            };
            let atom = AtomView { kind, text: trim(join(ls.subrange(i, j), "\n"@)), order: i };
            let rest = split_from(ls, j);
            (seq![atom] + rest.0, rest.1)
        } else {
            let opens = starts_with(t, "<plan-step-summary>"@);
            let k = close_index(ls, i);
            proof {
                lemma_close_index(ls, i);
            }
            if opens && step_summary_inner(summary_block(ls, i)) is Some {
                let inner = step_summary_inner(summary_block(ls, i))->0;
                let atom = AtomView {
                    kind: FactKind::PlanProgress,
                    text: plan_step_memory(inner),
                    order: i,
                };
                let rest = {
                    proof {
                        lemma_close_index(ls, i);
                    }
                    split_from(ls, k + 1)
                };
                (seq![atom] + rest.0, rest.1)
            } else {
                let at = if opens {
                    k
                } else {
                    i
                };
                let rest = {
                    proof {
                        lemma_close_index(ls, i);
                    }
                    split_from(ls, at + 1)
                };
                match line_kind(t) {
                    Some(kind) => (
                        seq![AtomView { kind, text: t, order: at }] + rest.0,
                        rest.1,
                    ),
                    None => (rest.0, seq![line] + rest.1),
                }
            }
        }
    }
}

// ------------------------------------------------------------------
// Fact keys and de-duplication
// ------------------------------------------------------------------

/// `trim_start_matches(p)`: strip every leading copy of `p`.
pub open spec fn strip_all_prefix(s: Seq<char>, p: Seq<char>) -> Seq<char>
    decreases s.len(),
{
    if p.len() > 0 && starts_with(s, p) {
        strip_all_prefix(s.subrange(p.len() as int, s.len() as int), p)
    } else {
        s
    }
}

fn strip_all_prefix_vec(s: &[char], p: &str) -> (r: Vec<char>)
    ensures
        r@ == strip_all_prefix(s@, p@),
{
    let pv = chars_of(p);
    let mut a: usize = 0;
    assert(s@.subrange(0, s.len() as int) =~= s@);
    if pv.len() == 0 {
        return slice_of(s, 0, s.len());
    }
    loop
        invariant
            a <= s.len(),
            pv@ == p@,
            pv@.len() > 0,
            strip_all_prefix(s@, p@) == strip_all_prefix(s@.subrange(a as int, s.len() as int), p@),
        decreases s.len() - a,
    {
        let rest = slice_of(s, a, s.len());
        if !starts_with_exec(rest.as_slice(), pv.as_slice()) {
            return rest;
        }
        assert(rest@.subrange(pv@.len() as int, rest@.len() as int) =~= s@.subrange(
            a + pv@.len(),
            s.len() as int,
        ));
        a = a + pv.len();
    }
}

/// Whitespace-compacted, ASCII-lower-cased text.
pub open spec fn normalize_key(text: Seq<char>) -> Seq<char> {
    lower_seq(compact_ws(text))
}

fn normalize_key_vec(text: &[char]) -> (r: Vec<char>)
    ensures
        r@ == normalize_key(text@),
{
    let c = compact_whitespace_vec(text);
    lower_vec(c.as_slice())
}

/// `split_once(':')` of a text: the parts before and after the first colon.
pub open spec fn split_colon(t: Seq<char>) -> Option<(Seq<char>, Seq<char>)> {
    match find(t, seq![':']) {
        Some(i) => Some((t.subrange(0, i), t.subrange(i + 1, t.len() as int))),
        None => None,
    }
}

/// Value of the first `key: value` line whose key matches (ASCII case-insensitively).
pub open spec fn key_value_from(ls: Seq<Seq<char>>, key: Seq<char>, i: int) -> Option<Seq<char>>
    decreases ls.len() - i,
{
    if i < 0 || i >= ls.len() {
        None
    } else {
        match split_colon(trim(ls[i])) {
            Some((k, v)) if eq_ignore_case(trim(k), key) => Some(trim(v)),
            _ => key_value_from(ls, key, i + 1),
        }
    }
}

fn extract_key_value(text: &[char], key: &str) -> (r: Option<Vec<char>>)
    ensures
        match r {
            Some(v) => key_value_from(lines(text@), key@, 0) == Some(v@),
            None => key_value_from(lines(text@), key@, 0) is None,
        },
{
    let ls = lines_vec(text);
    let kv = chars_of(key);
    let kl = lower_vec(kv.as_slice());
    let colon: Vec<char> = vec![':'];
    let mut i: usize = 0;
    while i < ls.len()
        invariant
            i <= ls.len(),
            vv(ls@) == lines(text@),
            kv@ == key@,
            kl@ == lower_seq(key@),
            colon@ == seq![':'],
            key_value_from(lines(text@), key@, 0) == key_value_from(lines(text@), key@, i as int),
        decreases ls.len() - i,
    {
        let t = trim_vec(ls[i].as_slice());
        match find_exec(t.as_slice(), colon.as_slice()) {
            Some(c) => {
                proof {
                    lemma_found(t@, colon@, c as int);
                }
                let k = slice_of(t.as_slice(), 0, c);
                let kt = trim_vec(k.as_slice());
                let klow = lower_vec(kt.as_slice());
                if seq_eq_exec(klow.as_slice(), kl.as_slice()) {
                    assert(colon@.len() == 1);
                    assert(c + 1 <= t@.len());
                    assert(t@.len() == t.len());
                    let v = slice_of(t.as_slice(), c + 1, t.len());
                    return Some(trim_vec(v.as_slice()));
                }
            },
            None => {},
        }
        i = i + 1;
    }
    None
}

/// De-duplication key of a fact.
pub open spec fn fact_key(a: AtomView) -> Seq<char> {
    match a.kind {
        FactKind::PlanCanonical => "plan-canonical"@,
        FactKind::PlanProgress => "plan-progress:"@ + match key_value_from(
            lines(a.text),
            "step"@,
            0,
        ) {
            Some(v) => v,
            None => Seq::<char>::empty(),
        },
        FactKind::Decision => "decision:"@ + normalize_key(
            trim(strip_all_prefix(strip_all_prefix(a.text, "DECISION:"@), "Decision:"@)),
        ),
        FactKind::Repo => "repo:"@ + normalize_key(a.text),
        FactKind::Path => {
            let ps = workspace_path_list(a.text);
            if ps.len() > 0 {
                ps[0]
            } else {
                normalize_key(a.text)
            }
        },
    }
}

fn fact_key_exec(atom: &FactAtom) -> (r: Vec<char>)
    ensures
        r@ == fact_key(atom@),
{
    let text = chars_of(atom.text.as_str());
    match atom.kind {
        FactKind::PlanCanonical => chars_of("plan-canonical"),
        FactKind::PlanProgress => {
            let mut out = chars_of("plan-progress:");
            match extract_key_value(text.as_slice(), "step") {
                Some(v) => append_chars(&mut out, v.as_slice()),
                None => {},
            }
            out
        },
        FactKind::Decision => {
            let a = strip_all_prefix_vec(text.as_slice(), "DECISION:");
            let b = strip_all_prefix_vec(a.as_slice(), "Decision:");
            let t = trim_vec(b.as_slice());
            let n = normalize_key_vec(t.as_slice());
            let mut out = chars_of("decision:");
            append_chars(&mut out, n.as_slice());
            out
        },
        FactKind::Repo => {
            let n = normalize_key_vec(text.as_slice());
            let mut out = chars_of("repo:");
            append_chars(&mut out, n.as_slice());
            out
        },
        FactKind::Path => {
            let ps = workspace_paths(text.as_slice());
            if ps.len() > 0 {
                let p = slice_of(ps[0].as_slice(), 0, ps[0].len());
                assert(p@ =~= vv(ps@)[0]);
                p
            } else {
                normalize_key_vec(text.as_slice())
            }
        },
    }
}

/// Atom `j` shares atom `k`'s key and comes first in (priority ascending,
/// line descending) order.
pub open spec fn shadows(atoms: Seq<AtomView>, j: int, k: int) -> bool {
    j != k && fact_key(atoms[j]) == fact_key(atoms[k]) && (prio(atoms[j].kind) < prio(
        atoms[k].kind) || (prio(atoms[j].kind) == prio(atoms[k].kind) && atoms[j].order
        > atoms[k].order))
}

/// Atom `k` is the one kept for its key.
pub open spec fn kept(atoms: Seq<AtomView>, k: int) -> bool {
    forall|j: int| 0 <= j < atoms.len() ==> !#[trigger] shadows(atoms, j, k)
}

/// Kept atoms of priority `p` among the first `n`, in input order.
pub open spec fn select(atoms: Seq<AtomView>, p: int, n: int) -> Seq<AtomView>
    decreases n,
{
    if n <= 0 {
        Seq::empty()
    } else {
        select(atoms, p, n - 1) + if prio(atoms[n - 1].kind) == p && kept(atoms, n - 1) {
            seq![atoms[n - 1]]
        } else {
            Seq::<AtomView>::empty()
        }
    }
}

/// One atom per key, grouped by kind priority, each group in input order.
pub open spec fn dedupe(atoms: Seq<AtomView>) -> Seq<AtomView> {
    let n = atoms.len() as int;
    select(atoms, 0, n) + select(atoms, 1, n) + select(atoms, 2, n) + select(atoms, 3, n) + select(
        atoms,
        4,
        n,
    )
}

fn copy_atom(a: &FactAtom) -> (r: FactAtom)
    ensures
        r@ == a@,
{
    FactAtom { kind: a.kind, text: a.text.clone(), order: a.order }
}

proof fn lemma_atom_views_push(s: Seq<FactAtom>, a: FactAtom)
    ensures
        atom_views(s.push(a)) == atom_views(s).push(a@),
{
    assert(atom_views(s.push(a)) =~= atom_views(s).push(a@));
}

fn dedupe_and_prioritize(atoms: &Vec<FactAtom>) -> (r: Vec<FactAtom>)
    ensures
        atom_views(r@) == dedupe(atom_views(atoms@)),
{
    let ghost av = atom_views(atoms@);
    let mut keys: Vec<Vec<char>> = Vec::new();
    let mut i: usize = 0;
    while i < atoms.len()
        invariant
            i <= atoms.len(),
            av == atom_views(atoms@),
            keys@.len() == i,
            forall|j: int| 0 <= j < i ==> #[trigger] keys@[j]@ == fact_key(av[j]),
        decreases atoms.len() - i,
    {
        keys.push(fact_key_exec(&atoms[i]));
        i = i + 1;
    }
    let mut out: Vec<FactAtom> = Vec::new();
    let mut p: u8 = 0;
    while p < 5
        invariant
            p <= 5,
            av == atom_views(atoms@),
            keys@.len() == atoms@.len(),
            forall|j: int| 0 <= j < atoms@.len() ==> #[trigger] keys@[j]@ == fact_key(av[j]),
            atom_views(out@) == if p == 0 {
                Seq::<AtomView>::empty()
            } else if p == 1 {
                select(av, 0, av.len() as int)
            } else if p == 2 {
                select(av, 0, av.len() as int) + select(av, 1, av.len() as int)
            } else if p == 3 {
                select(av, 0, av.len() as int) + select(av, 1, av.len() as int) + select(
                    av,
                    2,
                    av.len() as int,
                )
            } else if p == 4 {
                select(av, 0, av.len() as int) + select(av, 1, av.len() as int) + select(
                    av,
                    2,
                    av.len() as int,
                ) + select(av, 3, av.len() as int)
            } else {
                dedupe(av)
            },
        decreases 5 - p,
    {
        let ghost before = atom_views(out@);
        let mut k: usize = 0;
        while k < atoms.len()
            invariant
                k <= atoms.len(),
                p < 5,
                av == atom_views(atoms@),
                keys@.len() == atoms@.len(),
                forall|j: int| 0 <= j < atoms@.len() ==> #[trigger] keys@[j]@ == fact_key(av[j]),
                atom_views(out@) == before + select(av, p as int, k as int),
            decreases atoms.len() - k,
        {
            let pk = atoms[k].kind.priority();
            if pk == p {
                let mut is_kept = true;
                let mut j: usize = 0;
                while j < atoms.len()
                    invariant
                        j <= atoms.len(),
                        k < atoms.len(),
                        pk as int == prio(av[k as int].kind),
                        av == atom_views(atoms@),
                        keys@.len() == atoms@.len(),
                        forall|m: int|
                            0 <= m < atoms@.len() ==> #[trigger] keys@[m]@ == fact_key(av[m]),
                        is_kept == forall|m: int|
                            0 <= m < j ==> !#[trigger] shadows(av, m, k as int),
                    decreases atoms.len() - j,
                {
                    let mut b = false;
                    let same = seq_eq_exec(keys[j].as_slice(), keys[k].as_slice());
                    assert(same == (fact_key(av[j as int]) == fact_key(av[k as int])));
                    if j != k && same {
                        let pj = atoms[j].kind.priority();
                        assert(pj as int == prio(av[j as int].kind));
                        assert(pk as int == prio(av[k as int].kind));
                        if pj < pk || (pj == pk && atoms[j].order > atoms[k].order) {
                            b = true;
                        }
                    }
                    assert(av[j as int] == atoms@[j as int]@);
                    assert(av[k as int] == atoms@[k as int]@);
                    assert(keys@[j as int]@ == fact_key(av[j as int]));
                    assert(keys@[k as int]@ == fact_key(av[k as int]));
                    assert(b == shadows(av, j as int, k as int));
                    is_kept = is_kept && !b;
                    j = j + 1;
                }
                if is_kept {
                    let c = copy_atom(&atoms[k]);
                    proof {
                        lemma_atom_views_push(out@, c);
                    }
                    out.push(c);
                }
            }
            k = k + 1;
            assert(atom_views(out@) =~= before + select(av, p as int, k as int));
        }
        p = p + 1;
    }
    out
}

// ------------------------------------------------------------------
// The split itself
// ------------------------------------------------------------------

proof fn lemma_lines_nl_step(ls: Seq<Seq<char>>, a: int, b: int)
    requires
        a <= b,
    ensures
        lines_nl(ls, a, b + 1) == lines_nl(ls, a, b) + ls[b] + seq!['\n'],
{
}

fn copy_chars(v: &Vec<char>) -> (r: Vec<char>)
    ensures
        r@ == v@,
{
    slice_of(v.as_slice(), 0, v.len())
}

/// Facts of a memory text, after de-duplication.
pub open spec fn facts_of(source: Seq<char>) -> Seq<AtomView> {
    dedupe(split_from(lines(source), 0).0)
}

/// Narrative of a memory text: the lines that are not facts, trimmed.
pub open spec fn narrative_of(source: Seq<char>) -> Seq<char> {
    trim(join(split_from(lines(source), 0).1, "\n"@))
}

/// Split memory text into atomic facts and the remaining narrative.
pub fn split_memory_facts(source: &str) -> (r: MemoryFacts)
    ensures
        atom_views(r.atoms@) == facts_of(source@),
        r.narrative@ == narrative_of(source@),
        facts_sorted(atom_views(r.atoms@)),
        forall|a: int, b: int|
            0 <= a < b < r.atoms@.len() ==> fact_key(atom_views(r.atoms@)[a]) != fact_key(
                atom_views(r.atoms@)[b],
            ),
{
    proof {
        law_facts_sorted_and_unique(source@);
    }
    let src = chars_of(source);
    let ls = lines_vec(src.as_slice());
    let ghost L = vv(ls@);
    let nl_sep = chars_of("\n");
    let mut atoms: Vec<FactAtom> = Vec::new();
    let mut narrative: Vec<Vec<char>> = Vec::new();
    let mut i: usize = 0;
    while i < ls.len()
        invariant
            L == vv(ls@),
            L == lines(source@),
            nl_sep@ == "\n"@,
            i <= ls.len(),
            atom_views(atoms@) + split_from(L, i as int).0 == split_from(L, 0).0,
            vv(narrative@) + split_from(L, i as int).1 == split_from(L, 0).1,
        decreases ls.len() + 1 - i,
    {
        let cur = i;
        let t = trim_vec(ls[i].as_slice());
        assert(t@ == trim(L[i as int]));
        if t.len() == 0 || starts_with_str(t.as_slice(), "COMPRESSED_MEMORY:") || starts_with_str(
            t.as_slice(),
            "## FACTS (do not contradict)",
        ) {
            let line = copy_chars(&ls[i]);
            proof {
                lemma_vv_push(narrative@, line);
            }
            narrative.push(line);
            i = i + 1;
            continue;
        }
        let canon = starts_with_str(t.as_slice(), "PLAN_CANONICAL");
        if canon || starts_with_str(t.as_slice(), "PLAN_PROGRESS:") {
            let start = i;
            i = i + 1;
            proof {
                lemma_keys_end(L, i as int);
            }
            while i < ls.len() && looks_like_plan_key(trim_vec(ls[i].as_slice()).as_slice())
                invariant
                    L == vv(ls@),
                    start < i <= ls.len(),
                    keys_end(L, start + 1) == keys_end(L, i as int),
                decreases ls.len() - i,
            {
                i = i + 1;
            }
            let joined = join_range(ls.as_slice(), start, i, nl_sep.as_slice());
            let text = trim_vec(joined.as_slice());
            let kind = if canon {
                FactKind::PlanCanonical
            } else {
                FactKind::PlanProgress
            };
            let atom = FactAtom { kind, text: string_of(text.as_slice()), order: start };
            proof {
                lemma_atom_views_push(atoms@, atom);
                assert(L.subrange(start as int, i as int) =~= vv(ls@).subrange(start as int, i as int));
            }
            atoms.push(atom);
            continue;
        }
        let opens = starts_with_str(t.as_slice(), "<plan-step-summary>");
        let mut at = i;
        if opens {
            let start = i;
            let mut block: Vec<char> = Vec::new();
            proof {
                lemma_close_index(L, start as int);
            }
            loop
                invariant_except_break
                    L == vv(ls@),
                    start <= i < ls.len(),
                    close_index(L, start as int) == close_index(L, i as int),
                    block@ == lines_nl(L, start as int, i as int),
                ensures
                    L == vv(ls@),
                    start <= i <= ls.len(),
                    i == close_index(L, start as int),
                    block@ == lines_nl(
                        L,
                        start as int,
                        if i < ls.len() { i + 1 } else { ls.len() as int },
                    ),
                decreases ls.len() - i,
            {
                append_chars(&mut block, ls[i].as_slice());
                block.push('\n');
                proof {
                    lemma_lines_nl_step(L, start as int, i as int);
                }
                let lt = trim_vec(ls[i].as_slice());
                assert(lt@ == trim(L[i as int]));
                if starts_with_str(lt.as_slice(), "</plan-step-summary>") {
                    assert(close_index(L, i as int) == i);
                    break;
                }
                assert(close_index(L, i as int) == close_index(L, i + 1));
                i = i + 1;
                if i == ls.len() {
                    assert(close_index(L, i as int) == ls.len());
                    break;
                }
            }
            match extract_plan_step_summary(block.as_slice()) {
                Some(inner) => {
                    let text = format_plan_step_for_memory(inner.as_slice());
                    let atom = FactAtom {
                        kind: FactKind::PlanProgress,
                        text: string_of(text.as_slice()),
                        order: start,
                    };
                    proof {
                        lemma_atom_views_push(atoms@, atom);
                    }
                    atoms.push(atom);
                    if i < ls.len() {
                        i = i + 1;
                    } else {
                        assert(split_from(L, i + 1) == split_from(L, i as int));
                    }
                    continue;
                },
                None => {},
            }
            at = i;
        }
        let kind: Option<FactKind> = if is_decision_line(t.as_slice()) {
            Some(FactKind::Decision)
        } else if is_repo_line(t.as_slice()) {
            Some(FactKind::Repo)
        } else if workspace_paths(t.as_slice()).len() > 0 {
            Some(FactKind::Path)
        } else {
            None
        };
        match kind {
            Some(k) => {
                let atom = FactAtom { kind: k, text: string_of(t.as_slice()), order: at };
                proof {
                    lemma_atom_views_push(atoms@, atom);
                }
                atoms.push(atom);
            },
            None => {
                let line = copy_chars(&ls[cur]);
                proof {
                    lemma_vv_push(narrative@, line);
                }
                narrative.push(line);
            },
        }
        if at < ls.len() {
            i = at + 1;
        } else {
            assert(split_from(L, at + 1) == split_from(L, at as int));
            i = at;
        }
    }
    let deduped = dedupe_and_prioritize(&atoms);
    let joined = join_vec(narrative.as_slice(), nl_sep.as_slice());
    let text = trim_vec(joined.as_slice());
    assert(atom_views(atoms@) =~= split_from(L, 0).0);
    assert(vv(narrative@) =~= split_from(L, 0).1);
    MemoryFacts { atoms: deduped, narrative: string_of(text.as_slice()) }
}

// ------------------------------------------------------------------
// Merging facts back into memory text
// ------------------------------------------------------------------

/// Every newline of a fact continues with a two-space indent.
pub open spec fn indent_lines(s: Seq<char>) -> Seq<char>
    decreases s.len(),
{
    if s.len() == 0 {
        Seq::empty()
    } else {
        indent_lines(s.drop_last()) + if s.last() == '\n' {
            seq!['\n', ' ', ' ']
        } else {
            seq![s.last()]
        }
    }
}

fn indent_lines_vec(s: &[char]) -> (r: Vec<char>)
    ensures
        r@ == indent_lines(s@),
{
    let mut out: Vec<char> = Vec::new();
    let mut i: usize = 0;
    while i < s.len()
        invariant
            i <= s.len(),
            out@ == indent_lines(s@.subrange(0, i as int)),
        decreases s.len() - i,
    {
        assert(s@.subrange(0, i + 1).drop_last() =~= s@.subrange(0, i as int));
        if s[i] == '\n' {
            out.push('\n');
            out.push(' ');
            out.push(' ');
        } else {
            out.push(s[i]);
        }
        i = i + 1;
        assert(out@ =~= indent_lines(s@.subrange(0, i as int)));
    }
    assert(s@.subrange(0, s.len() as int) =~= s@);
    out
}

/// The bullet line of one fact.
pub open spec fn fact_line(a: AtomView) -> Seq<char> {
    "\n- "@ + indent_lines(trim(a.text))
}

/// Character budget of the fact block: 15% of the window at four characters
/// per token, between 900 and 8000.
pub open spec fn fact_budget(context_limit: int) -> int {
    let ctx = if context_limit < 8192 {
        8192
    } else {
        context_limit
    };
    let b = ctx * 3 / 5;
    if b < 900 {
        900
    } else if b > 8000 {
        8000
    } else {
        b
    }
}

fn fact_char_budget(context_limit: i64) -> (r: usize)
    ensures
        r == fact_budget(context_limit as int),
{
    let ctx: i128 = if context_limit < 8192 {
        8192
    } else {
        context_limit as i128
    };
    let b = ctx * 3 / 5;
    if b < 900 {
        900
    } else if b > 8000 {
        8000
    } else {
        b as usize
    }
}

/// The fact block built from the first `n` facts, with its character count.
/// A fact that would overflow the budget is skipped, except while the block has
/// no fact yet (the header is ASCII, so its byte and character lengths agree).
pub open spec fn fact_block_from(atoms: Seq<AtomView>, n: int, cap: int) -> (Seq<char>, int)
    decreases n,
{
    if n <= 0 {
        (facts_header(), facts_header().len() as int)
    } else {
        let prev = fact_block_from(atoms, n - 1, cap);
        let line = fact_line(atoms[n - 1]);
        if prev.1 + line.len() > cap && prev.1 > facts_header().len() {
            prev
        } else {
            (prev.0 + line, prev.1 + line.len())
        }
    }
}

/// The fact block of a list of facts (empty without facts).
pub open spec fn fact_block(atoms: Seq<AtomView>, context_limit: int) -> Seq<char> {
    if atoms.len() == 0 {
        Seq::empty()
    } else {
        fact_block_from(atoms, atoms.len() as int, fact_budget(context_limit)).0
    }
}

proof fn lemma_fact_block_used(atoms: Seq<AtomView>, n: int, cap: int)
    ensures
        fact_block_from(atoms, n, cap).1 == fact_block_from(atoms, n, cap).0.len(),
    decreases n,
{
    if n > 0 {
        lemma_fact_block_used(atoms, n - 1, cap);
    }
}

fn format_fact_block(atoms: &Vec<FactAtom>, context_limit: i64) -> (r: Vec<char>)
    ensures
        r@ == fact_block(atom_views(atoms@), context_limit as int),
{
    if atoms.len() == 0 {
        return Vec::new();
    }
    let ghost av = atom_views(atoms@);
    let cap = fact_char_budget(context_limit);
    let mut out = chars_of("## FACTS (do not contradict)");
    let header_len = out.len();
    let mut i: usize = 0;
    while i < atoms.len()
        invariant
            i <= atoms.len(),
            av == atom_views(atoms@),
            cap == fact_budget(context_limit as int),
            header_len == facts_header().len(),
            out@ == fact_block_from(av, i as int, cap as int).0,
            out@.len() == fact_block_from(av, i as int, cap as int).1,
        decreases atoms.len() - i,
    {
        proof {
            lemma_fact_block_used(av, i as int, cap as int);
        }
        let text = chars_of(atoms[i].text.as_str());
        let t = trim_vec(text.as_slice());
        let ind = indent_lines_vec(t.as_slice());
        let mut line = chars_of("\n- ");
        append_chars(&mut line, ind.as_slice());
        assert(av[i as int] == atoms@[i as int]@);
        assert(line@ == fact_line(av[i as int]));
        let used = out.len();
        if !(line.len() > cap || used > cap - line.len()) || used <= header_len {
            append_chars(&mut out, line.as_slice());
        }
        i = i + 1;
    }
    out
}

/// Facts first, then the compressed narrative, separated by a blank line.
pub open spec fn merged_memory(block: Seq<char>, narrative: Seq<char>) -> Seq<char> {
    let n = trim(narrative);
    if block.len() == 0 {
        n
    } else if n.len() == 0 {
        block
    } else {
        block + "\n\n"@ + n
    }
}

pub fn merge_compressed_memory(
    facts: &MemoryFacts,
    compressed_narrative: &str,
    context_limit: i64,
) -> (r: String)
    ensures
        r@ == merged_memory(
            fact_block(atom_views(facts.atoms@), context_limit as int),
            compressed_narrative@,
        ),
{
    let block = format_fact_block(&facts.atoms, context_limit);
    let nv = chars_of(compressed_narrative);
    let n = trim_vec(nv.as_slice());
    if block.len() == 0 {
        string_of(n.as_slice())
    } else if n.len() == 0 {
        string_of(block.as_slice())
    } else {
        let mut out = block;
        append_str(&mut out, "\n\n");
        append_chars(&mut out, n.as_slice());
        string_of(out.as_slice())
    }
}

/// Trimmed, non-blank parts of prior memory and evicted turns, in order.
pub open spec fn memory_parts(prior: Seq<char>, evicted: Seq<MessageView>, n: int) -> Seq<Seq<char>>
    decreases n,
{
    if n <= 0 {
        if trim(prior).len() > 0 {
            seq![trim(prior)]
        } else {
            Seq::empty()
        }
    } else {
        let rest = memory_parts(prior, evicted, n - 1);
        let c = trim(evicted[n - 1].content);
        if c.len() > 0 {
            rest.push(c)
        } else {
            rest
        }
    }
}

/// Facts and narrative of prior memory plus evicted turns, joined by blank lines.
pub open spec fn collected_facts(prior: Seq<char>, evicted: Seq<MessageView>) -> (
    Seq<AtomView>,
    Seq<char>,
) {
    let parts = memory_parts(prior, evicted, evicted.len() as int);
    if parts.len() == 0 {
        (Seq::empty(), Seq::empty())
    } else {
        let src = join(parts, "\n\n"@);
        (facts_of(src), narrative_of(src))
    }
}

/// Collect structured facts from rolling memory plus every evicted turn.
pub fn collect_session_facts(prior_memory: &str, evicted: &[ChatMessage]) -> (r: MemoryFacts)
    ensures
        atom_views(r.atoms@) == collected_facts(prior_memory@, views(evicted@)).0,
        r.narrative@ == collected_facts(prior_memory@, views(evicted@)).1,
{
    let mut parts: Vec<Vec<char>> = Vec::new();
    let pv = chars_of(prior_memory);
    let p = trim_vec(pv.as_slice());
    if p.len() > 0 {
        parts.push(p);
    }
    assert(vv(parts@) =~= memory_parts(prior_memory@, views(evicted@), 0));
    let mut i: usize = 0;
    while i < evicted.len()
        invariant
            i <= evicted.len(),
            vv(parts@) == memory_parts(prior_memory@, views(evicted@), i as int),
        decreases evicted.len() - i,
    {
        let cv = chars_of(evicted[i].content.as_str());
        let c = trim_vec(cv.as_slice());
        assert(views(evicted@)[i as int] == evicted@[i as int]@);
        if c.len() > 0 {
            proof {
                lemma_vv_push(parts@, c);
            }
            parts.push(c);
        }
        i = i + 1;
    }
    if parts.len() == 0 {
        let r = MemoryFacts { atoms: Vec::new(), narrative: String::new() };
        assert(atom_views(r.atoms@) =~= Seq::<AtomView>::empty());
        return r;
    }
    let sep = chars_of("\n\n");
    let joined = join_vec(parts.as_slice(), sep.as_slice());
    let s = string_of(joined.as_slice());
    split_memory_facts(s.as_str())
}

// ------------------------------------------------------------------
// Order and uniqueness of the facts
// ------------------------------------------------------------------

/// The facts' source lines strictly increase.
pub open spec fn orders_increasing(atoms: Seq<AtomView>) -> bool {
    forall|a: int, b: int| 0 <= a < b < atoms.len() ==> atoms[a].order < atoms[b].order
}

/// Facts ordered by kind priority, then by source line.
pub open spec fn facts_sorted(s: Seq<AtomView>) -> bool {
    forall|a: int, b: int|
        0 <= a < b < s.len() ==> prio(s[a].kind) < prio(s[b].kind) || (prio(s[a].kind) == prio(
            s[b].kind,
        ) && s[a].order < s[b].order)
}

proof fn lemma_cons_orders(x: AtomView, r: Seq<AtomView>, lo: int)
    requires
        x.order >= lo,
        forall|a: int| 0 <= a < r.len() ==> r[a].order > x.order,
        orders_increasing(r),
    ensures
        orders_increasing(seq![x] + r),
        forall|a: int| 0 <= a < (seq![x] + r).len() ==> (seq![x] + r)[a].order >= lo,
{
    let s = seq![x] + r;
    assert forall|a: int, b: int| 0 <= a < b < s.len() implies s[a].order < s[b].order by {
        assert(s[b] == r[b - 1]);
        if a > 0 {
            assert(s[a] == r[a - 1]);
        }
    }
    assert forall|a: int| 0 <= a < s.len() implies s[a].order >= lo by {
        if a > 0 {
            assert(s[a] == r[a - 1]);
        }
    }
}

/// Facts come out of the lines in the order of their lines.
proof fn lemma_split_orders(ls: Seq<Seq<char>>, i: int)
    requires
        0 <= i,
    ensures
        forall|a: int| 0 <= a < split_from(ls, i).0.len() ==> #[trigger] split_from(ls, i).0[a].order >= i,
        orders_increasing(split_from(ls, i).0),
    decreases ls.len() + 1 - i,
{
    if i < ls.len() {
        let line = ls[i];
        let t = trim(line);
        if is_narrative_marker(t) {
            lemma_split_orders(ls, i + 1);
        } else if starts_with(t, "PLAN_CANONICAL"@) || starts_with(t, "PLAN_PROGRESS:"@) {
            lemma_keys_end(ls, i + 1);
            let j = keys_end(ls, i + 1);
            lemma_split_orders(ls, j);
            let kind = if starts_with(t, "PLAN_CANONICAL"@) {
                FactKind::PlanCanonical
            } else {
                FactKind::PlanProgress
            };
            let atom = AtomView { kind, text: trim(join(ls.subrange(i, j), "\n"@)), order: i };
            lemma_cons_orders(atom, split_from(ls, j).0, i);
        } else {
            let opens = starts_with(t, "<plan-step-summary>"@);
            lemma_close_index(ls, i);
            let k = close_index(ls, i);
            if opens && step_summary_inner(summary_block(ls, i)) is Some {
                let inner = step_summary_inner(summary_block(ls, i))->0;
                let atom = AtomView { kind: FactKind::PlanProgress, text: plan_step_memory(inner), order: i };
                lemma_split_orders(ls, k + 1);
                lemma_cons_orders(atom, split_from(ls, k + 1).0, i);
            } else {
                let at = if opens {
                    k
                } else {
                    i
                };
                lemma_split_orders(ls, at + 1);
                match line_kind(t) {
                    Some(kind) => {
                        lemma_cons_orders(AtomView { kind, text: t, order: at }, split_from(ls, at + 1).0, i);
                    },
                    None => {},
                }
            }
        }
    }
}

/// A fact of `s` is a kept fact of `atoms`.
pub open spec fn from_kept(atoms: Seq<AtomView>, x: AtomView) -> bool {
    exists|m: int| 0 <= m < atoms.len() && kept(atoms, m) && x == #[trigger] atoms[m]
}

/// `x` is one of the first `n` facts.
pub open spec fn among_first(atoms: Seq<AtomView>, n: int, x: AtomView) -> bool {
    exists|m: int| 0 <= m < n && x == #[trigger] atoms[m]
}

proof fn lemma_select(atoms: Seq<AtomView>, p: int, n: int)
    requires
        orders_increasing(atoms),
        0 <= n <= atoms.len(),
    ensures
        forall|a: int| 0 <= a < select(atoms, p, n).len() ==> prio(#[trigger] select(atoms, p, n)[a].kind) == p
            && from_kept(atoms, select(atoms, p, n)[a])
            && among_first(atoms, n, select(atoms, p, n)[a]),
        forall|a: int, b: int|
            0 <= a < b < select(atoms, p, n).len() ==> select(atoms, p, n)[a].order < select(atoms, p, n)[b].order,
    decreases n,
{
    if n > 0 {
        lemma_select(atoms, p, n - 1);
        let prev = select(atoms, p, n - 1);
        let s = select(atoms, p, n);
        if prio(atoms[n - 1].kind) == p && kept(atoms, n - 1) {
            assert(s == prev + seq![atoms[n - 1]]);
            assert forall|a: int| 0 <= a < s.len() implies prio(#[trigger] s[a].kind) == p && from_kept(atoms, s[a])
                && among_first(atoms, n, s[a]) by {
                if a < prev.len() {
                    assert(s[a] == prev[a]);
                    assert(prio(prev[a].kind) == p);
                    let m = choose|m: int| 0 <= m < n - 1 && prev[a] == #[trigger] atoms[m];
                    assert(s[a] == atoms[m]);
                } else {
                    assert(s[a] == atoms[n - 1]);
                }
            }
            assert forall|a: int, b: int| 0 <= a < b < s.len() implies s[a].order < s[b].order by {
                assert(s[a] == prev[a]);
                if b < prev.len() {
                    assert(s[b] == prev[b]);
                } else {
                    assert(prio(prev[a].kind) == p);
                    let m = choose|m: int| 0 <= m < n - 1 && prev[a] == #[trigger] atoms[m];
                    assert(s[b] == atoms[n - 1]);
                }
            }
        } else {
            assert(s =~= prev);
            assert forall|a: int| 0 <= a < s.len() implies among_first(atoms, n, #[trigger] s[a]) by {
                assert(prio(prev[a].kind) == p);
                let m = choose|m: int| 0 <= m < n - 1 && prev[a] == #[trigger] atoms[m];
                assert(s[a] == atoms[m]);
            }
        }
    }
}

/// Facts of `s` are kept facts of `atoms`, sorted, with priorities at most `maxp`.
pub open spec fn good_prefix(atoms: Seq<AtomView>, s: Seq<AtomView>, maxp: int) -> bool {
    &&& facts_sorted(s)
    &&& forall|a: int| 0 <= a < s.len() ==> prio(#[trigger] s[a].kind) <= maxp && from_kept(atoms, s[a])
}

proof fn lemma_good_append(atoms: Seq<AtomView>, x: Seq<AtomView>, p: int)
    requires
        orders_increasing(atoms),
        good_prefix(atoms, x, p - 1),
    ensures
        good_prefix(atoms, x + select(atoms, p, atoms.len() as int), p),
{
    let g = select(atoms, p, atoms.len() as int);
    lemma_select(atoms, p, atoms.len() as int);
    let s = x + g;
    assert forall|a: int| 0 <= a < s.len() implies prio(#[trigger] s[a].kind) <= p && from_kept(atoms, s[a]) by {
        if a < x.len() {
            assert(s[a] == x[a]);
        } else {
            assert(s[a] == g[a - x.len()]);
        }
    }
    assert forall|a: int, b: int| 0 <= a < b < s.len() implies prio(s[a].kind) < prio(s[b].kind) || (prio(
        s[a].kind,
    ) == prio(s[b].kind) && s[a].order < s[b].order) by {
        if b < x.len() {
            assert(s[a] == x[a] && s[b] == x[b]);
        } else if a < x.len() {
            assert(s[a] == x[a] && s[b] == g[b - x.len()]);
            assert(prio(x[a].kind) <= p - 1);
        } else {
            assert(s[a] == g[a - x.len()] && s[b] == g[b - x.len()]);
        }
    }
}

/// The facts of a memory text are ordered by kind priority (canonical plan, decisions,
/// paths, repository facts, plan progress) and then by source line, and no two share a
/// de-duplication key: of facts with one key only the one of the highest priority, and
/// among those the latest line, is kept.
pub proof fn law_facts_sorted_and_unique(source: Seq<char>)
    ensures
        facts_sorted(facts_of(source)),
        forall|a: int, b: int|
            0 <= a < b < facts_of(source).len() ==> fact_key(facts_of(source)[a]) != fact_key(facts_of(source)[b]),
        forall|a: int| 0 <= a < facts_of(source).len() ==> from_kept(
            split_from(lines(source), 0).0,
            #[trigger] facts_of(source)[a],
        ),
{
    let atoms = split_from(lines(source), 0).0;
    lemma_split_orders(lines(source), 0);
    let e = Seq::<AtomView>::empty();
    assert(good_prefix(atoms, e, -1));
    lemma_good_append(atoms, e, 0);
    let n = atoms.len() as int;
    assert(e + select(atoms, 0, n) =~= select(atoms, 0, n));
    lemma_good_append(atoms, select(atoms, 0, n), 1);
    lemma_good_append(atoms, select(atoms, 0, n) + select(atoms, 1, n), 2);
    lemma_good_append(atoms, select(atoms, 0, n) + select(atoms, 1, n) + select(atoms, 2, n), 3);
    lemma_good_append(atoms, select(atoms, 0, n) + select(atoms, 1, n) + select(atoms, 2, n) + select(atoms, 3, n), 4);
    let r = facts_of(source);
    assert(r == dedupe(atoms));
    assert forall|a: int, b: int| 0 <= a < b < r.len() implies fact_key(r[a]) != fact_key(r[b]) by {
        let m1 = choose|m: int| 0 <= m < atoms.len() && kept(atoms, m) && r[a] == atoms[m];
        let m2 = choose|m: int| 0 <= m < atoms.len() && kept(atoms, m) && r[b] == atoms[m];
        if fact_key(r[a]) == fact_key(r[b]) {
            assert(!shadows(atoms, m2, m1));
            assert(!shadows(atoms, m1, m2));
            if m1 != m2 {
                assert(atoms[m1].order != atoms[m2].order);
            }
        }
    }
}

/// Index of the last canonical-plan fact among the first `n`, or -1.
pub open spec fn last_canonical(atoms: Seq<AtomView>, n: int) -> int
    decreases n,
{
    if n <= 0 {
        -1
    } else if atoms[n - 1].kind is PlanCanonical {
        n - 1
    } else {
        last_canonical(atoms, n - 1)
    }
}

proof fn lemma_last_canonical(atoms: Seq<AtomView>, n: int)
    requires
        0 <= n <= atoms.len(),
    ensures
        -1 <= last_canonical(atoms, n) < n,
        last_canonical(atoms, n) >= 0 ==> atoms[last_canonical(atoms, n)].kind is PlanCanonical,
        forall|m: int| 0 <= m < n && atoms[m].kind is PlanCanonical ==> m <= last_canonical(atoms, n),
    decreases n,
{
    if n > 0 {
        lemma_last_canonical(atoms, n - 1);
    }
}

proof fn lemma_select_has(atoms: Seq<AtomView>, p: int, n: int, m: int)
    requires
        0 <= m < n <= atoms.len(),
        prio(atoms[m].kind) == p,
        kept(atoms, m),
    ensures
        exists|a: int| 0 <= a < select(atoms, p, n).len() && #[trigger] select(atoms, p, n)[a] == atoms[m],
    decreases n,
{
    if m < n - 1 {
        lemma_select_has(atoms, p, n - 1, m);
        let a = choose|a: int| 0 <= a < select(atoms, p, n - 1).len() && #[trigger] select(atoms, p, n - 1)[a] == atoms[m];
        let prev = select(atoms, p, n - 1);
        let extra = if prio(atoms[n - 1].kind) == p && kept(atoms, n - 1) {
            seq![atoms[n - 1]]
        } else {
            Seq::<AtomView>::empty()
        };
        assert(select(atoms, p, n) == prev + extra);
        assert((prev + extra)[a] == prev[a]);
    } else {
        let prev = select(atoms, p, n - 1);
        assert(select(atoms, p, n) == prev + seq![atoms[n - 1]]);
        assert((prev + seq![atoms[n - 1]])[prev.len() as int] == atoms[m]);
    }
}

/// Rolling memory keeps one canonical plan: among the facts of a memory text at most one
/// is a canonical-plan snapshot, and when the text holds any `PLAN_CANONICAL` block the
/// kept one is at least as late as every one of them (older snapshots are dropped).
pub proof fn law_one_canonical_plan(source: Seq<char>)
    ensures
        forall|a: int, b: int|
            0 <= a < facts_of(source).len() && 0 <= b < facts_of(source).len() && (#[trigger] facts_of(source)[a]).kind is PlanCanonical
                && (#[trigger] facts_of(source)[b]).kind is PlanCanonical ==> a == b,
        forall|m: int|
            0 <= m < split_from(lines(source), 0).0.len() && (#[trigger] split_from(lines(source), 0).0[m]).kind is PlanCanonical
                ==> exists|a: int|
                0 <= a < facts_of(source).len() && (#[trigger] facts_of(source)[a]).kind is PlanCanonical
                    && split_from(lines(source), 0).0[m].order <= facts_of(source)[a].order,
{
    let atoms = split_from(lines(source), 0).0;
    let f = facts_of(source);
    law_facts_sorted_and_unique(source);
    assert forall|a: int, b: int|
        0 <= a < f.len() && 0 <= b < f.len() && (#[trigger] f[a]).kind is PlanCanonical && (#[trigger] f[b]).kind is PlanCanonical implies a == b by {
        if a < b {
            assert(fact_key(f[a]) == fact_key(f[b]));
        } else if b < a {
            assert(fact_key(f[a]) == fact_key(f[b]));
        }
    }
    lemma_split_orders(lines(source), 0);
    let n = atoms.len() as int;
    lemma_last_canonical(atoms, n);
    let big = last_canonical(atoms, n);
    if big >= 0 {
        assert(kept(atoms, big)) by {
            assert forall|j: int| 0 <= j < atoms.len() implies !#[trigger] shadows(atoms, j, big) by {
                if shadows(atoms, j, big) && prio(atoms[j].kind) == 0 {
                    assert(atoms[j].kind is PlanCanonical);
                    assert(j <= big);
                    if j < big {
                        assert(atoms[j].order < atoms[big].order);
                    }
                }
            }
        }
        lemma_select_has(atoms, 0, n, big);
        let a = choose|a: int| 0 <= a < select(atoms, 0, n).len() && #[trigger] select(atoms, 0, n)[a] == atoms[big];
        let rest = select(atoms, 1, n) + select(atoms, 2, n) + select(atoms, 3, n) + select(atoms, 4, n);
        assert(f == select(atoms, 0, n) + rest) by {
            assert(dedupe(atoms) =~= select(atoms, 0, n) + rest);
        }
        assert(f[a] == atoms[big]);
        assert forall|m: int| 0 <= m < atoms.len() && (#[trigger] atoms[m]).kind is PlanCanonical implies exists|a2: int|
            0 <= a2 < f.len() && (#[trigger] f[a2]).kind is PlanCanonical && atoms[m].order <= f[a2].order by {
            assert(m <= big);
            if m < big {
                assert(atoms[m].order < atoms[big].order);
            }
            assert(f[a].kind is PlanCanonical);
        }
    }
}

} // verus!
