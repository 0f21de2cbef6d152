//! Tool-call wire markup in assistant text: detecting it and stripping it from what the
//! user sees once the tools have run.
use vstd::prelude::*;

use crate::harness::fence_header_path;
use crate::text::{
    append_chars, chars_of, contains, contains_any, contains_any_exec, contains_str, find,
    find_exec, find_from, find_from_exec, is_blank, lemma_find_from_sound, lemma_found, lower_seq,
    lower_vec, slice_of, string_of, strs_view, trim, trim_vec,
};

verus! {

/// Markers that betray raw tool-call markup (checked on the ASCII-lowercased text).
pub open spec fn markup_needles() -> Seq<Seq<char>> {
    seq![
        "tool_call"@,
        "<|tool_call"@,
        "call:read_file{"@,
        "call:list_dir{"@,
        "call:apply_patch{"@,
        "edits:["@,
    ]
}

/// The text shows tool-call wire markup.
pub open spec fn has_tool_markup(text: Seq<char>) -> bool {
    let l = lower_seq(text);
    contains_any(l, markup_needles()) || (contains(l, "file:"@) && contains(l, "edits:"@))
}

/// Whether the text contains tool-call wire markup (any ASCII case).
pub fn contains_tool_call_markup(text: &str) -> (r: bool)
    ensures
        r == has_tool_markup(text@),
{
    let t = chars_of(text);
    let l = lower_vec(t.as_slice());
    let needles: Vec<&str> = vec![
        "tool_call",
        "<|tool_call",
        "call:read_file{",
        "call:list_dir{",
        "call:apply_patch{",
        "edits:[",
    ];
    assert(strs_view(needles@) =~= markup_needles());
    contains_any_exec(l.as_slice(), needles.as_slice()) || (contains_str(l.as_slice(), "file:")
        && contains_str(l.as_slice(), "edits:"))
}

/// Openings of a tool-call block.
pub open spec fn open_markers() -> Seq<Seq<char>> {
    seq!["<|tool_call|>"@, "<|tool_calls|>"@, "<|tool_call>"@, "<tool_call>"@, "<tool_calls>"@]
}

/// Closings of a tool-call block.
pub open spec fn close_markers() -> Seq<Seq<char>> {
    seq![
        "</|tool_call|>"@,
        "</|tool_call>"@,
        "</|tool_calls|>"@,
        "</|tool_calls>"@,
        "<|tool_call|>"@,
        "<|tool_call>"@,
        "</tool_call>"@,
        "</tool_calls>"@,
        "|tool_call|>"@,
    ]
}

/// Every opening marker is non-empty.
pub proof fn lemma_open_markers_nonempty()
    ensures
        forall|j: int| 0 <= j < open_markers().len() ==> (#[trigger] open_markers()[j]).len() > 0,
{
    reveal_strlit("<|tool_call|>");
    reveal_strlit("<|tool_calls|>");
    reveal_strlit("<|tool_call>");
    reveal_strlit("<tool_call>");
    reveal_strlit("<tool_calls>");
}

/// Earliest occurrence among the first `k` markers, as (position, marker length); the
/// earlier marker of the list wins a tie.
pub open spec fn earliest_upto(h: Seq<char>, ms: Seq<Seq<char>>, k: int) -> Option<(int, int)>
    decreases k,
{
    if k <= 0 || k > ms.len() {
        None
    } else {
        let prev = earliest_upto(h, ms, k - 1);
        match find(h, ms[k - 1]) {
            None => prev,
            Some(i) => match prev {
                None => Some((i, ms[k - 1].len() as int)),
                Some(p) => if i < p.0 {
                    Some((i, ms[k - 1].len() as int))
                } else {
                    prev
                },
            },
        }
    }
}

/// Smallest end position (occurrence plus marker length) among the first `k` markers.
pub open spec fn min_end_upto(h: Seq<char>, ms: Seq<Seq<char>>, k: int) -> Option<int>
    decreases k,
{
    if k <= 0 || k > ms.len() {
        None
    } else {
        let prev = min_end_upto(h, ms, k - 1);
        match find(h, ms[k - 1]) {
            None => prev,
            Some(i) => {
                let e = i + ms[k - 1].len();
                match prev {
                    None => Some(e),
                    Some(p) => Some(if e < p {
                        e
                    } else {
                        p
                    }),
                }
            },
        }
    }
}

pub proof fn lemma_earliest_bounds(h: Seq<char>, ms: Seq<Seq<char>>, k: int)
    requires
        forall|j: int| 0 <= j < ms.len() ==> (#[trigger] ms[j]).len() > 0,
    ensures
        earliest_upto(h, ms, k) matches Some(p) ==> 0 <= p.0 && p.0 + p.1 <= h.len() && p.1 > 0,
    decreases k,
{
    if 0 < k <= ms.len() {
        lemma_earliest_bounds(h, ms, k - 1);
        match find(h, ms[k - 1]) {
            Some(i) => {
                lemma_found(h, ms[k - 1], i);
            },
            None => {},
        }
    }
}

pub proof fn lemma_min_end_bounds(h: Seq<char>, ms: Seq<Seq<char>>, k: int)
    ensures
        min_end_upto(h, ms, k) matches Some(e) ==> 0 <= e <= h.len(),
    decreases k,
{
    if 0 < k <= ms.len() {
        lemma_min_end_bounds(h, ms, k - 1);
        match find(h, ms[k - 1]) {
            Some(i) => {
                lemma_found(h, ms[k - 1], i);
            },
            None => {},
        }
    }
}

/// Text with every tool-call block removed: an opening marker through the nearest closing
/// marker; an unclosed block drops everything after its opening.
pub open spec fn strip_calls(rest: Seq<char>) -> Seq<char>
    decreases rest.len(),
{
    if rest.len() == 0 {
        Seq::empty()
    } else {
        match earliest_upto(rest, open_markers(), 5) {
            None => rest,
            Some(p) => {
                let after = rest.subrange(p.0 + p.1, rest.len() as int);
                match min_end_upto(after, close_markers(), 9) {
                    None => rest.subrange(0, p.0),
                    Some(end) => {
                        proof {
                            lemma_open_markers_nonempty();
                            lemma_earliest_bounds(rest, open_markers(), 5);
                            lemma_min_end_bounds(after, close_markers(), 9);
                        }
                        rest.subrange(0, p.0) + strip_calls(after.subrange(end, after.len() as int))
                    },
                }
            },
        }
    }
}

/// Result of stripping tool-call blocks: the trimmed remainder, or the trimmed original
/// when nothing else remains.
pub open spec fn stripped_calls(text: Seq<char>) -> Seq<char> {
    let t = trim(strip_calls(text));
    if t.len() == 0 {
        trim(text)
    } else {
        t
    }
}

/// Earliest marker occurrence in `h`.
pub fn earliest_exec(h: &[char], ms: &[&str]) -> (r: Option<(usize, usize)>)
    ensures
        r matches Some(p) ==> earliest_upto(h@, strs_view(ms@), ms.len() as int) == Some(
            (p.0 as int, p.1 as int),
        ),
        r is None ==> earliest_upto(h@, strs_view(ms@), ms.len() as int) is None,
{
    let mut best: Option<(usize, usize)> = None;
    let mut k: usize = 0;
    while k < ms.len()
        invariant
            k <= ms.len(),
            best matches Some(p) ==> earliest_upto(h@, strs_view(ms@), k as int) == Some(
                (p.0 as int, p.1 as int),
            ),
            best is None ==> earliest_upto(h@, strs_view(ms@), k as int) is None,
        decreases ms.len() - k,
    {
        let m = chars_of(ms[k]);
        assert(strs_view(ms@)[k as int] == m@);
        match find_exec(h, m.as_slice()) {
            None => {},
            Some(i) => {
                match best {
                    None => {
                        best = Some((i, m.len()));
                    },
                    Some(p) => {
                        if i < p.0 {
                            best = Some((i, m.len()));
                        }
                    },
                }
            },
        }
        k = k + 1;
    }
    best
}

/// Smallest end of a marker occurrence in `h`.
fn min_end_exec(h: &[char], ms: &[&str]) -> (r: Option<usize>)
    ensures
        r matches Some(e) ==> min_end_upto(h@, strs_view(ms@), ms.len() as int) == Some(e as int),
        r is None ==> min_end_upto(h@, strs_view(ms@), ms.len() as int) is None,
{
    let mut best: Option<usize> = None;
    let mut k: usize = 0;
    while k < ms.len()
        invariant
            k <= ms.len(),
            best matches Some(e) ==> min_end_upto(h@, strs_view(ms@), k as int) == Some(e as int),
            best is None ==> min_end_upto(h@, strs_view(ms@), k as int) is None,
        decreases ms.len() - k,
    {
        let m = chars_of(ms[k]);
        assert(strs_view(ms@)[k as int] == m@);
        let hl = h.len();
        match find_exec(h, m.as_slice()) {
            None => {},
            Some(i) => {
                proof {
                    lemma_found(h@, m@, i as int);
                }
                let ml = m.len();
                let e = i + ml;
                match best {
                    None => {
                        best = Some(e);
                    },
                    Some(p) => {
                        if e < p {
                            best = Some(e);
                        }
                    },
                }
            },
        }
        k = k + 1;
    }
    best
}

/// Removes tool-call wire markup from assistant-visible text; when nothing but markup
/// is left, the whole trimmed text is kept.
pub fn strip_tool_call_markup(text: &str) -> (r: String)
    ensures
        r@ == stripped_calls(text@),
{
    let t = chars_of(text);
    let out = strip_call_markup_vec(t.as_slice());
    let tr = trim_vec(out.as_slice());
    if tr.len() == 0 {
        let all = trim_vec(t.as_slice());
        string_of(all.as_slice())
    } else {
        string_of(tr.as_slice())
    }
}

/// The text with every tool-call block removed (see `strip_calls`).
pub fn strip_call_markup_vec(t: &[char]) -> (r: Vec<char>)
    ensures
        r@ == strip_calls(t@),
{
    let opens: Vec<&str> = vec!["<|tool_call|>", "<|tool_calls|>", "<|tool_call>", "<tool_call>", "<tool_calls>"];
    let closes: Vec<&str> = vec![
        "</|tool_call|>",
        "</|tool_call>",
        "</|tool_calls|>",
        "</|tool_calls>",
        "<|tool_call|>",
        "<|tool_call>",
        "</tool_call>",
        "</tool_calls>",
        "|tool_call|>",
    ];
    assert(strs_view(opens@) =~= open_markers());
    assert(strs_view(closes@) =~= close_markers());
    let mut out: Vec<char> = Vec::new();
    let mut rest: Vec<char> = slice_of(t, 0, t.len());
    assert(rest@ =~= t@);
    loop
        invariant_except_break
            out@ + strip_calls(rest@) == strip_calls(t@),
        invariant
            strs_view(opens@) == open_markers(),
            strs_view(closes@) == close_markers(),
            opens@.len() == 5,
            closes@.len() == 9,
        ensures
            out@ == strip_calls(t@),
        decreases rest.len(),
    {
        if rest.len() == 0 {
            assert(out@ + Seq::<char>::empty() =~= out@);
            break;
        }
        match earliest_exec(rest.as_slice(), opens.as_slice()) {
            None => {
                append_chars(&mut out, rest.as_slice());
                break;
            },
            Some(p) => {
                proof {
                    lemma_open_markers_nonempty();
                    lemma_earliest_bounds(rest@, open_markers(), 5);
                }
                let (start, open_len) = p;
                let pre = slice_of(rest.as_slice(), 0, start);
                let after = slice_of(rest.as_slice(), start + open_len, rest.len());
                match min_end_exec(after.as_slice(), closes.as_slice()) {
                    None => {
                        append_chars(&mut out, pre.as_slice());
                        break;
                    },
                    Some(end) => {
                        proof {
                            lemma_min_end_bounds(after@, close_markers(), 9);
                        }
                        let ghost out0 = out@;
                        append_chars(&mut out, pre.as_slice());
                        let next = slice_of(after.as_slice(), end, after.len());
                        assert(out@ + strip_calls(next@) =~= out0 + (pre@ + strip_calls(next@)));
                        rest = next;
                    },
                }
            },
        }
    }
    out
}


/// Where a fence body ends: the nearest ```` ``` ```` or `</file>` (ASCII case ignored), as
/// (position, length of the closing mark); the whole slice when neither occurs.
pub open spec fn fence_end(slice: Seq<char>) -> (int, int) {
    let a = find(slice, "```"@);
    let b = find(lower_seq(slice), "</file>"@);
    match (a, b) {
        (Some(i), Some(j)) => if j < i {
            (j, 7)
        } else {
            (i, 3)
        },
        (Some(i), None) => (i, 3),
        (None, Some(j)) => (j, 7),
        (None, None) => (slice.len() as int, 0),
    }
}

pub proof fn lemma_fence_end_bounds(slice: Seq<char>)
    ensures
        0 <= fence_end(slice).0 && fence_end(slice).0 + fence_end(slice).1 <= slice.len(),
{
    reveal_strlit("```");
    reveal_strlit("</file>");
    match find(slice, "```"@) {
        Some(i) => lemma_found(slice, "```"@, i),
        None => {},
    }
    match find(lower_seq(slice), "</file>"@) {
        Some(j) => lemma_found(lower_seq(slice), "</file>"@, j),
        None => {},
    }
}

/// Text from `s` on with every fence whose header names a file removed (other fences kept).
pub open spec fn strip_fences_from(t: Seq<char>, s: int) -> Seq<char>
    decreases t.len() - s,
{
    if s < 0 || s >= t.len() {
        Seq::empty()
    } else {
        match find_from(t, "```"@, s) {
            None => t.subrange(s, t.len() as int),
            Some(fs) => match find_from(t, seq!['\n'], fs + 3) {
                None => t.subrange(s, t.len() as int),
                Some(he) => {
                    proof {
                        reveal_strlit("```");
                        lemma_find_from_sound(t, "```"@, s);
                        lemma_find_from_sound(t, seq!['\n'], fs + 3);
                        lemma_fence_end_bounds(t.subrange(he + 1, t.len() as int));
                    }
                    let header = trim(t.subrange(fs + 3, he));
                    let fe = fence_end(t.subrange(he + 1, t.len() as int));
                    let end = he + 1 + fe.0 + fe.1;
                    if fence_header_path(header) is Some {
                        t.subrange(s, fs) + strip_fences_from(t, end)
                    } else {
                        t.subrange(s, end) + strip_fences_from(t, end)
                    }
                },
            },
        }
    }
}

/// Nearest fence close in `slice`.
pub fn fence_end_exec(slice: &[char]) -> (r: (usize, usize))
    ensures
        r.0 as int == fence_end(slice@).0,
        r.1 as int == fence_end(slice@).1,
{
    proof {
        lemma_fence_end_bounds(slice@);
    }
    let ticks = chars_of("```");
    let close = chars_of("</file>");
    let lower = lower_vec(slice);
    let a = find_exec(slice, ticks.as_slice());
    let b = find_exec(lower.as_slice(), close.as_slice());
    match (a, b) {
        (Some(i), Some(j)) => if j < i {
            (j, 7)
        } else {
            (i, 3)
        },
        (Some(i), None) => (i, 3),
        (None, Some(j)) => (j, 7),
        (None, None) => (slice.len(), 0),
    }
}

/// Removes `file:` patch fences from text, keeping other fences; the result is trimmed.
pub fn strip_patch_fence_markup(text: &str) -> (r: String)
    ensures
        r@ == trim(strip_fences_from(text@, 0)),
{
    let t = chars_of(text);
    let ticks = chars_of("```");
    let nl: Vec<char> = vec!['\n'];
    assert(nl@ =~= seq!['\n']);
    proof {
        reveal_strlit("```");
    }
    let mut out: Vec<char> = Vec::new();
    let mut s: usize = 0;
    while s < t.len()
        invariant
            s <= t.len(),
            t@ == text@,
            ticks@ == "```"@,
            ticks@.len() == 3,
            nl@ == seq!['\n'],
            out@ + strip_fences_from(t@, s as int) == strip_fences_from(t@, 0),
        decreases t.len() - s,
    {
        let ghost out0 = out@;
        let fo = find_from_exec(t.as_slice(), ticks.as_slice(), s);
        if fo.is_none() {
            let tail = slice_of(t.as_slice(), s, t.len());
            append_chars(&mut out, tail.as_slice());
            assert(out@ + strip_fences_from(t@, t.len() as int) =~= out0 + strip_fences_from(t@, s as int));
            s = t.len();
        } else {
            let fs = fo.unwrap();
            proof {
                lemma_find_from_sound(t@, ticks@, s as int);
            }
            let ho = find_from_exec(t.as_slice(), nl.as_slice(), fs + 3);
            if ho.is_none() {
                let tail = slice_of(t.as_slice(), s, t.len());
                append_chars(&mut out, tail.as_slice());
                assert(out@ + strip_fences_from(t@, t.len() as int) =~= out0 + strip_fences_from(t@, s as int));
                s = t.len();
            } else {
                let he = ho.unwrap();
                proof {
                    lemma_find_from_sound(t@, nl@, fs + 3);
                }
                let head_raw = slice_of(t.as_slice(), fs + 3, he);
                let header = trim_vec(head_raw.as_slice());
                let body = slice_of(t.as_slice(), he + 1, t.len());
                proof {
                    lemma_fence_end_bounds(body@);
                }
                let (ce, cl) = fence_end_exec(body.as_slice());
                let end = he + 1 + ce + cl;
                let hp = crate::harness::fence_header_path_exec(header.as_slice());
                if hp.is_some() {
                    let keep = slice_of(t.as_slice(), s, fs);
                    append_chars(&mut out, keep.as_slice());
                    assert(out@ + strip_fences_from(t@, end as int) =~= out0 + strip_fences_from(t@, s as int));
                } else {
                    let keep = slice_of(t.as_slice(), s, end);
                    append_chars(&mut out, keep.as_slice());
                    assert(out@ + strip_fences_from(t@, end as int) =~= out0 + strip_fences_from(t@, s as int));
                }
                s = end;
            }
        }
    }
    assert(out@ + Seq::<char>::empty() =~= out@);
    let r = trim_vec(out.as_slice());
    string_of(r.as_slice())
}

/// Assistant text with tool-call blocks and then `file:` patch fences removed, trimmed.
pub open spec fn wire_stripped(text: Seq<char>) -> Seq<char> {
    trim(strip_fences_from(stripped_calls(text), 0))
}

/// Removes tool-call blocks and then `file:` patch fences from assistant-visible text.
pub fn strip_assistant_wire_markup(text: &str) -> (r: String)
    ensures
        r@ == wire_stripped(text@),
{
    let a = strip_tool_call_markup(text);
    strip_patch_fence_markup(a.as_str())
}

} // verus!
