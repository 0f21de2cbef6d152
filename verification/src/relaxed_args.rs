//! The relaxed argument syntax models write inside tool calls: `{key: value, ...}` with
//! bare, quoted or Gemma-quoted values, and the bracket and quote scanning it rests on.
use vstd::prelude::*;

use crate::json_value::{
    float_literal, json_number_text, json_number_text_exec, i64_literal, insert_member, insert_member_exec, int_text, is_float_literal,
    json_parse, parse_i64_chars, parse_json, push_int_text, Json, JsonValue,
};
use crate::text::{
    append_chars, chars_of, ends_with, ends_with_str, eq_ignore_case, find, find_exec, lower_seq,
    lower_vec, replace_all, replace_vec, seq_eq_exec, slice_of, starts_with, starts_with_str,
    string_of, trim, trim_char, trim_char_end, trim_char_vec, trim_vec, vv,
};

verus! {

// ---------------------------------------------------------------------------------------
// Scanning: quotes, escapes, nesting.
/// Number of backslashes right before position `i`.
pub open spec fn backslashes_before(s: Seq<char>, i: int) -> nat
    decreases i,
{
    if i <= 0 || i > s.len() || s[i - 1] != '\\' {
        0
    } else {
        1 + backslashes_before(s, i - 1)
    }
}

/// The character at `i` is escaped: an odd run of backslashes precedes it.
pub open spec fn escaped_at(s: Seq<char>, i: int) -> bool {
    backslashes_before(s, i) % 2 == 1
}

fn is_json_escape_before(s: &[char], i: usize) -> (r: bool)
    requires
        i <= s.len(),
    ensures
        r == escaped_at(s@, i as int),
{
    let mut n: usize = 0;
    let mut j = i;
    while j > 0 && s[j - 1] == '\\'
        invariant
            j <= i <= s.len(),
            n == i - j,
            backslashes_before(s@, i as int) == n + backslashes_before(s@, j as int),
        decreases j,
    {
        j = j - 1;
        n = n + 1;
    }
    n % 2 == 1
}

/// Top-level comma split: parts between commas outside brackets and (when `quotes`) outside
/// `"`/`'` quotes, each trimmed; a quote preceded by an odd run of backslashes does not
/// close when `esc`. A trailing empty remainder gives no part.
pub open spec fn split_scan(
    s: Seq<char>,
    k: int,
    depth: int,
    quote: Option<char>,
    start: int,
    parts: Seq<Seq<char>>,
    quotes: bool,
    esc: bool,
) -> Seq<Seq<char>>
    decreases s.len() - k,
{
    if k < 0 || k >= s.len() {
        if start < s.len() {
            parts.push(trim(s.subrange(start, s.len() as int)))
        } else {
            parts
        }
    } else {
        let ch = s[k];
        match quote {
            Some(q) => if ch == q && !(esc && escaped_at(s, k)) {
                split_scan(s, k + 1, depth, None, start, parts, quotes, esc)
            } else {
                split_scan(s, k + 1, depth, quote, start, parts, quotes, esc)
            },
            None => if quotes && (ch == '"' || ch == '\'') {
                split_scan(s, k + 1, depth, Some(ch), start, parts, quotes, esc)
            } else if ch == '{' || ch == '[' {
                split_scan(s, k + 1, depth + 1, None, start, parts, quotes, esc)
            } else if ch == '}' || ch == ']' {
                split_scan(s, k + 1, depth - 1, None, start, parts, quotes, esc)
            } else if ch == ',' && depth == 0 {
                split_scan(
                    s,
                    k + 1,
                    depth,
                    None,
                    k + 1,
                    parts.push(trim(s.subrange(start, k))),
                    quotes,
                    esc,
                )
            } else {
                split_scan(s, k + 1, depth, None, start, parts, quotes, esc)
            },
        }
    }
}

pub open spec fn split_top(s: Seq<char>, quotes: bool, esc: bool) -> Seq<Seq<char>> {
    split_scan(s, 0, 0, None, 0, Seq::empty(), quotes, esc)
}

/// Splits `s` at top-level commas (see `split_scan`).
pub fn split_relaxed_top_level(s: &[char], quotes: bool, esc: bool) -> (r: Vec<Vec<char>>)
    ensures
        vv(r@) == split_top(s@, quotes, esc),
{
    let mut parts: Vec<Vec<char>> = Vec::new();
    let mut depth: i128 = 0;
    let mut quote: Option<char> = None;
    let mut start: usize = 0;
    let mut k: usize = 0;
    assert(vv(parts@) =~= Seq::<Seq<char>>::empty());
    while k < s.len()
        invariant
            k <= s.len(),
            start <= k,
            -(k as int) <= depth <= k,
            split_top(s@, quotes, esc) == split_scan(
                s@,
                k as int,
                depth as int,
                quote,
                start as int,
                vv(parts@),
                quotes,
                esc,
            ),
        decreases s.len() - k,
    {
        let ch = s[k];
        match quote {
            Some(q) => {
                if ch == q && !(esc && is_json_escape_before(s, k)) {
                    quote = None;
                }
            },
            None => {
                if quotes && (ch == '"' || ch == '\'') {
                    quote = Some(ch);
                } else if ch == '{' || ch == '[' {
                    depth = depth + 1;
                } else if ch == '}' || ch == ']' {
                    depth = depth - 1;
                } else if ch == ',' && depth == 0 {
                    let piece = slice_of(s, start, k);
                    let p = trim_vec(piece.as_slice());
                    proof {
                        crate::text::lemma_vv_push(parts@, p);
                    }
                    parts.push(p);
                    start = k + 1;
                }
            },
        }
        k = k + 1;
    }
    if start < s.len() {
        let piece = slice_of(s, start, s.len());
        let p = trim_vec(piece.as_slice());
        proof {
            crate::text::lemma_vv_push(parts@, p);
        }
        parts.push(p);
    }
    parts
}


pub proof fn lemma_split_scan_len(
    s: Seq<char>,
    k: int,
    depth: int,
    quote: Option<char>,
    start: int,
    parts: Seq<Seq<char>>,
    quotes: bool,
    esc: bool,
)
    requires
        0 <= start <= k,
        forall|i: int| 0 <= i < parts.len() ==> (#[trigger] parts[i]).len() <= s.len(),
    ensures
        forall|i: int|
            0 <= i < split_scan(s, k, depth, quote, start, parts, quotes, esc).len() ==> (
            #[trigger] split_scan(s, k, depth, quote, start, parts, quotes, esc)[i]).len()
                <= s.len(),
    decreases s.len() - k,
{
    let r = split_scan(s, k, depth, quote, start, parts, quotes, esc);
    if k >= s.len() {
        if start < s.len() {
            crate::text::lemma_trim_len(s.subrange(start, s.len() as int));
            let p1 = parts.push(trim(s.subrange(start, s.len() as int)));
            assert(r == p1);
            assert forall|i: int| 0 <= i < p1.len() implies (#[trigger] p1[i]).len() <= s.len() by {
                if i < parts.len() {
                    assert(p1[i] == parts[i]);
                } else {
                    assert(p1[i] == trim(s.subrange(start, s.len() as int)));
                }
            }
        } else {
            assert(r == parts);
        }
    } else {
        let ch = s[k];
        match quote {
            Some(q) => {
                if ch == q && !(esc && escaped_at(s, k)) {
                    lemma_split_scan_len(s, k + 1, depth, None, start, parts, quotes, esc);
                    assert(r == split_scan(s, k + 1, depth, None, start, parts, quotes, esc));
                } else {
                    lemma_split_scan_len(s, k + 1, depth, quote, start, parts, quotes, esc);
                    assert(r == split_scan(s, k + 1, depth, quote, start, parts, quotes, esc));
                }
            },
            None => {
                if quotes && (ch == '"' || ch == '\'') {
                    lemma_split_scan_len(s, k + 1, depth, Some(ch), start, parts, quotes, esc);
                    assert(r == split_scan(s, k + 1, depth, Some(ch), start, parts, quotes, esc));
                } else if ch == '{' || ch == '[' {
                    lemma_split_scan_len(s, k + 1, depth + 1, None, start, parts, quotes, esc);
                    assert(r == split_scan(s, k + 1, depth + 1, None, start, parts, quotes, esc));
                } else if ch == '}' || ch == ']' {
                    lemma_split_scan_len(s, k + 1, depth - 1, None, start, parts, quotes, esc);
                    assert(r == split_scan(s, k + 1, depth - 1, None, start, parts, quotes, esc));
                } else if ch == ',' && depth == 0 {
                    crate::text::lemma_trim_len(s.subrange(start, k));
                    let p2 = parts.push(trim(s.subrange(start, k)));
                    assert forall|i: int| 0 <= i < p2.len() implies (#[trigger] p2[i]).len()
                        <= s.len() by {
                        if i < parts.len() {
                            assert(p2[i] == parts[i]);
                        } else {
                            assert(p2[i] == trim(s.subrange(start, k)));
                        }
                    }
                    lemma_split_scan_len(s, k + 1, depth, None, k + 1, p2, quotes, esc);
                    assert(r == split_scan(s, k + 1, depth, None, k + 1, p2, quotes, esc));
                } else {
                    lemma_split_scan_len(s, k + 1, depth, None, start, parts, quotes, esc);
                    assert(r == split_scan(s, k + 1, depth, None, start, parts, quotes, esc));
                }
            },
        }
    }
}

/// Every part of a top-level split is at most as long as the text.
pub proof fn lemma_split_top_len(s: Seq<char>, quotes: bool, esc: bool)
    ensures
        forall|i: int|
            0 <= i < split_top(s, quotes, esc).len() ==> (#[trigger] split_top(s, quotes, esc)[i]).len()
                <= s.len(),
{
    lemma_split_scan_len(s, 0, 0, None, 0, Seq::empty(), quotes, esc);
}

/// Scan for the bracket that closes the one opened at the start of `t`: quotes are
/// skipped (an escaped quote does not close), `open` nests and `close` unnests; the result
/// is the position just after the closing bracket.
pub open spec fn close_scan(
    t: Seq<char>,
    k: int,
    depth: int,
    quote: Option<char>,
    open: char,
    close: char,
) -> Option<int>
    decreases t.len() - k,
{
    if k < 0 || k >= t.len() {
        None
    } else {
        let ch = t[k];
        match quote {
            Some(q) => if ch == q && !escaped_at(t, k) {
                close_scan(t, k + 1, depth, None, open, close)
            } else {
                close_scan(t, k + 1, depth, quote, open, close)
            },
            None => if ch == '"' || ch == '\'' {
                close_scan(t, k + 1, depth, Some(ch), open, close)
            } else if ch == open {
                close_scan(t, k + 1, depth + 1, None, open, close)
            } else if ch == close {
                if depth - 1 == 0 {
                    Some(k + 1)
                } else {
                    close_scan(t, k + 1, depth - 1, None, open, close)
                }
            } else {
                close_scan(t, k + 1, depth, None, open, close)
            },
        }
    }
}

/// End (exclusive) of the bracketed run that starts at `open_idx`.
pub open spec fn matching_end(s: Seq<char>, open_idx: int, open: char, close: char) -> Option<
    int,
> {
    if 0 <= open_idx <= s.len() {
        match close_scan(s.subrange(open_idx, s.len() as int), 0, 0, None, open, close) {
            Some(e) => Some(open_idx + e),
            None => None,
        }
    } else {
        None
    }
}

pub proof fn lemma_close_scan_bounds(
    t: Seq<char>,
    k: int,
    depth: int,
    quote: Option<char>,
    open: char,
    close: char,
)
    requires
        0 <= k,
    ensures
        close_scan(t, k, depth, quote, open, close) matches Some(e) ==> k < e <= t.len(),
    decreases t.len() - k,
{
    if k < t.len() {
        let ch = t[k];
        lemma_close_scan_bounds(t, k + 1, depth, None, open, close);
        lemma_close_scan_bounds(t, k + 1, depth, quote, open, close);
        lemma_close_scan_bounds(t, k + 1, depth + 1, None, open, close);
        lemma_close_scan_bounds(t, k + 1, depth - 1, None, open, close);
        lemma_close_scan_bounds(t, k + 1, depth, Some(ch), open, close);
    }
}

/// Where the bracket opened at `open_idx` closes (see `matching_end`).
pub fn matching_close_end(s: &[char], open_idx: usize, open: char, close: char) -> (r: Option<
    usize,
>)
    ensures
        r matches Some(e) ==> matching_end(s@, open_idx as int, open, close) == Some(e as int)
            && open_idx < e <= s.len(),
        r is None ==> matching_end(s@, open_idx as int, open, close) is None,
{
    if open_idx > s.len() {
        return None;
    }
    let t = slice_of(s, open_idx, s.len());
    let mut depth: i128 = 0;
    let mut quote: Option<char> = None;
    let mut k: usize = 0;
    while k < t.len()
        invariant
            k <= t.len(),
            t@ == s@.subrange(open_idx as int, s.len() as int),
            t.len() + open_idx == s.len(),
            -(k as int) <= depth <= k,
            close_scan(t@, 0, 0, None, open, close) == close_scan(
                t@,
                k as int,
                depth as int,
                quote,
                open,
                close,
            ),
        decreases t.len() - k,
    {
        let ch = t[k];
        match quote {
            Some(q) => {
                if ch == q && !is_json_escape_before(t.as_slice(), k) {
                    quote = None;
                }
            },
            None => {
                if ch == '"' || ch == '\'' {
                    quote = Some(ch);
                } else if ch == open {
                    depth = depth + 1;
                } else if ch == close {
                    depth = depth - 1;
                    if depth == 0 {
                        return Some(open_idx + k + 1);
                    }
                }
            },
        }
        k = k + 1;
    }
    None
}

// ---------------------------------------------------------------------------------------
// Relaxed values and arguments.
/// `trim_start_matches` with a non-empty pattern: every leading copy removed.
pub open spec fn strip_all_prefix(s: Seq<char>, p: Seq<char>) -> Seq<char>
    decreases s.len(),
{
    if p.len() > 0 && starts_with(s, p) {
        strip_all_prefix(s.subrange(p.len() as int, s.len() as int), p)
    } else {
        s
    }
}

/// `trim_end_matches` with a non-empty pattern: every trailing copy removed.
pub open spec fn strip_all_suffix(s: Seq<char>, p: Seq<char>) -> Seq<char>
    decreases s.len(),
{
    if p.len() > 0 && ends_with(s, p) {
        strip_all_suffix(s.subrange(0, s.len() - p.len()), p)
    } else {
        s
    }
}

fn strip_all_prefix_exec(s: &[char], p: &str) -> (r: Vec<char>)
    requires
        p@.len() > 0,
    ensures
        r@ == strip_all_prefix(s@, p@),
{
    let pl = chars_of(p).len();
    let mut a: usize = 0;
    assert(s@.subrange(0, s.len() as int) =~= s@);
    loop
        invariant
            a <= s.len(),
            pl == p@.len(),
            pl > 0,
            strip_all_prefix(s@, p@) == strip_all_prefix(s@.subrange(a as int, s.len() as int), p@),
        decreases s.len() - a,
    {
        let rest = slice_of(s, a, s.len());
        if !starts_with_str(rest.as_slice(), p) {
            return rest;
        }
        assert(rest@.subrange(pl as int, rest@.len() as int) =~= s@.subrange(a + pl, s.len() as int));
        a = a + pl;
    }
}

fn strip_all_suffix_exec(s: &[char], p: &str) -> (r: Vec<char>)
    requires
        p@.len() > 0,
    ensures
        r@ == strip_all_suffix(s@, p@),
{
    let pl = chars_of(p).len();
    let mut b: usize = s.len();
    assert(s@.subrange(0, s.len() as int) =~= s@);
    loop
        invariant
            b <= s.len(),
            pl == p@.len(),
            pl > 0,
            strip_all_suffix(s@, p@) == strip_all_suffix(s@.subrange(0, b as int), p@),
        decreases b,
    {
        let rest = slice_of(s, 0, b);
        if !ends_with_str(rest.as_slice(), p) {
            return rest;
        }
        assert(rest@.subrange(0, rest@.len() - pl) =~= s@.subrange(0, b - pl));
        b = b - pl;
    }
}

/// Backslash escapes of relaxed string values: `\n`, `\r`, `\t`, `\"`, `\'` and `\\`
/// decode; any other escape keeps its backslash; a lone trailing backslash stays.
pub open spec fn unescape(s: Seq<char>) -> Seq<char>
    decreases s.len(),
{
    if s.len() == 0 {
        Seq::empty()
    } else if s[0] == '\\' {
        if s.len() == 1 {
            seq!['\\']
        } else {
            let c = s[1];
            let d = if c == 'n' {
                seq!['\n']
            } else if c == 'r' {
                seq!['\r']
            } else if c == 't' {
                seq!['\t']
            } else if c == '"' || c == '\'' || c == '\\' {
                seq![c]
            } else {
                seq!['\\', c]
            };
            d + unescape(s.subrange(2, s.len() as int))
        }
    } else {
        seq![s[0]] + unescape(s.drop_first())
    }
}

fn unescape_relaxed_string(s: &[char]) -> (r: Vec<char>)
    ensures
        r@ == unescape(s@),
{
    let mut out: Vec<char> = Vec::new();
    let mut i: usize = 0;
    assert(s@.subrange(0, s.len() as int) =~= s@);
    while i < s.len()
        invariant
            i <= s.len(),
            out@ + unescape(s@.subrange(i as int, s.len() as int)) == unescape(s@),
        decreases s.len() - i,
    {
        let ghost rest = s@.subrange(i as int, s.len() as int);
        let ghost o0 = out@;
        let ch = s[i];
        if ch == '\\' {
            if i + 1 >= s.len() {
                out.push('\\');
                assert(rest =~= seq!['\\']);
                assert(s@.subrange(i + 1, s.len() as int) =~= Seq::<char>::empty());
                i = i + 1;
                assert(out@ =~= o0 + unescape(rest));
            } else {
                let c = s[i + 1];
                if c == 'n' {
                    out.push('\n');
                } else if c == 'r' {
                    out.push('\r');
                } else if c == 't' {
                    out.push('\t');
                } else if c == '"' || c == '\'' || c == '\\' {
                    out.push(c);
                } else {
                    out.push('\\');
                    out.push(c);
                }
                assert(rest.subrange(2, rest.len() as int) =~= s@.subrange(i + 2, s.len() as int));
                assert(rest[1] == c);
                i = i + 2;
                assert(o0 + unescape(rest) =~= out@ + unescape(s@.subrange(i as int, s.len() as int)));
            }
        } else {
            out.push(ch);
            assert(rest.drop_first() =~= s@.subrange(i + 1, s.len() as int));
            i = i + 1;
            assert(o0 + unescape(rest) =~= out@ + unescape(s@.subrange(i as int, s.len() as int)));
        }
    }
    assert(unescape(s@.subrange(i as int, s.len() as int)) =~= Seq::<char>::empty());
    assert(out@ + Seq::<char>::empty() =~= out@);
    out
}

/// Gemma's string quote mark.
pub open spec fn gemma_q() -> Seq<char> {
    seq!['<', '|', '"', '|', '>']
}

/// A relaxed argument value. `full` is the reading of the shared tool-call parser: JSON
/// arrays and objects are taken as JSON, and quoted strings decode backslash escapes; the
/// plainer reading of the OpenAI-messages format keeps quoted text as written. Trailing
/// commas are dropped first. Integers become numbers; other decimal literals become numbers
/// that keep their text; anything else is a string.
pub open spec fn relaxed_value(raw0: Seq<char>, full: bool) -> Json {
    let raw = trim_char_end(trim(raw0), ',');
    if full && (starts_with(raw, seq!['[']) || starts_with(raw, seq!['{'])) && json_parse(
        raw,
    ) is Some {
        json_parse(raw).unwrap()
    } else if starts_with(raw, gemma_q()) && ends_with(raw, gemma_q()) {
        Json::Str(
            replace_all(
                strip_all_suffix(strip_all_prefix(raw, gemma_q()), gemma_q()),
                seq!['\\', '<'],
                seq!['<'],
            ),
        )
    } else if raw.len() >= 2 && ((raw[0] == '"' && raw.last() == '"') || (raw[0] == '\''
        && raw.last() == '\'')) {
        let inner = raw.subrange(1, raw.len() - 1);
        Json::Str(
            if full {
                unescape(inner)
            } else {
                inner
            },
        )
    } else if eq_ignore_case(raw, "true"@) {
        Json::Bool(true)
    } else if eq_ignore_case(raw, "false"@) {
        Json::Bool(false)
    } else if eq_ignore_case(raw, "null"@) {
        Json::Null
    } else if i64_literal(raw) is Some {
        Json::Number(int_text(i64_literal(raw).unwrap()))
    } else if float_literal(raw) {
        Json::Number(json_number_text(raw))
    } else {
        Json::Str(raw)
    }
}

fn eq_ignore_case_str(h: &[char], w: &str) -> (r: bool)
    ensures
        r == eq_ignore_case(h@, w@),
{
    let a = lower_vec(h);
    let wv = chars_of(w);
    let b = lower_vec(wv.as_slice());
    seq_eq_exec(a.as_slice(), b.as_slice())
}

/// Reads a relaxed argument value (see `relaxed_value`).
pub fn parse_relaxed_value(raw0: &[char], full: bool) -> (r: JsonValue)
    ensures
        r@ == relaxed_value(raw0@, full),
{
    proof {
        reveal_strlit("<|\"|>");
        reveal_strlit("\\<");
        reveal_strlit("<");
        reveal_strlit("[");
        reveal_strlit("{");
    }
    let t = trim_vec(raw0);
    let mut b = t.len();
    assert(t@.subrange(0, t.len() as int) =~= t@);
    while b > 0 && t[b - 1] == ','
        invariant
            b <= t.len(),
            trim_char_end(t@, ',') == trim_char_end(t@.subrange(0, b as int), ','),
        decreases b,
    {
        assert(t@.subrange(0, b as int).drop_last() =~= t@.subrange(0, b - 1));
        b = b - 1;
    }
    assert(t@.subrange(0, t.len() as int) =~= t@);
    let raw = slice_of(t.as_slice(), 0, b);
    assert(b == 0 || raw@.last() != ',');
    assert(trim_char_end(raw@, ',') == raw@);
    let r = raw.as_slice();
    assert("<|\"|>"@ == gemma_q());
    assert("["@ == seq!['[']);
    assert("{"@ == seq!['{']);
    assert("\\<"@ == seq!['\\', '<']);
    assert("<"@ == seq!['<']);
    if full && (starts_with_str(r, "[") || starts_with_str(r, "{")) {
        let text = string_of(r);
        match parse_json(text.as_str()) {
            Some(v) => {
                return v;
            },
            None => {},
        }
    }
    if starts_with_str(r, "<|\"|>") && ends_with_str(r, "<|\"|>") {
        assert(raw@[0] == '<');
        assert(!starts_with(raw@, seq!['[']) && !starts_with(raw@, seq!['{']));
        let a = strip_all_prefix_exec(r, "<|\"|>");
        let c = strip_all_suffix_exec(a.as_slice(), "<|\"|>");
        let d = replace_vec(c.as_slice(), "\\<", "<");
        return JsonValue::Str(string_of(d.as_slice()));
    }
    let n = r.len();
    if n >= 2 && ((r[0] == '"' && r[n - 1] == '"') || (r[0] == '\'' && r[n - 1] == '\'')) {
        let inner = slice_of(r, 1, n - 1);
        if full {
            let u = unescape_relaxed_string(inner.as_slice());
            return JsonValue::Str(string_of(u.as_slice()));
        } else {
            return JsonValue::Str(string_of(inner.as_slice()));
        }
    }
    if eq_ignore_case_str(r, "true") {
        return JsonValue::Bool(true);
    }
    if eq_ignore_case_str(r, "false") {
        return JsonValue::Bool(false);
    }
    if eq_ignore_case_str(r, "null") {
        return JsonValue::Null;
    }
    match parse_i64_chars(r) {
        Some(v) => {
            let mut out: Vec<char> = Vec::new();
            push_int_text(&mut out, v);
            assert(out@ =~= int_text(v as int));
            return JsonValue::Number(string_of(out.as_slice()));
        },
        None => {},
    }
    if is_float_literal(r) {
        let n = json_number_text_exec(r);
        return JsonValue::Number(string_of(n.as_slice()));
    }
    JsonValue::Str(string_of(r))
}

/// `split_once(':')`.
pub open spec fn split_colon(s: Seq<char>) -> Option<(Seq<char>, Seq<char>)> {
    match find(s, seq![':']) {
        Some(i) => Some((s.subrange(0, i), s.subrange(i + 1, s.len() as int))),
        None => None,
    }
}

/// Object members from relaxed `key: value` parts, inserted in order (a later key
/// replaces an earlier one); parts without a colon or with an empty key are skipped.
pub open spec fn relaxed_members(parts: Seq<Seq<char>>, full: bool) -> Seq<(Seq<char>, Json)>
    decreases parts.len(),
{
    if parts.len() == 0 {
        Seq::empty()
    } else {
        let m = relaxed_members(parts.drop_last(), full);
        match split_colon(parts.last()) {
            None => m,
            Some(kv) => {
                let key = trim_char(trim_char(trim(kv.0), '"'), '\'');
                if key.len() == 0 {
                    m
                } else {
                    insert_member(m, key, relaxed_value(trim(kv.1), full))
                }
            },
        }
    }
}

/// Relaxed `{key: value, ...}` arguments; `None` unless the trimmed body is braced.
pub open spec fn relaxed_args(body0: Seq<char>, full: bool) -> Option<Json> {
    let body = trim(body0);
    if body.len() >= 2 && body[0] == '{' && body.last() == '}' {
        Some(
            Json::Object(
                relaxed_members(split_top(body.subrange(1, body.len() - 1), true, full), full),
            ),
        )
    } else {
        None
    }
}

/// Reads relaxed `{key: value, ...}` arguments (see `relaxed_args`).
pub fn parse_relaxed_args(body0: &[char], full: bool) -> (r: Option<JsonValue>)
    ensures
        r matches Some(v) ==> relaxed_args(body0@, full) == Some(v@),
        r is None ==> relaxed_args(body0@, full) is None,
{
    let body = trim_vec(body0);
    let n = body.len();
    if !(n >= 2 && body[0] == '{' && body[n - 1] == '}') {
        return None;
    }
    let inner = slice_of(body.as_slice(), 1, n - 1);
    let parts = split_relaxed_top_level(inner.as_slice(), true, full);
    let mut m: Vec<(String, JsonValue)> = Vec::new();
    let mut i: usize = 0;
    assert(vv(parts@).subrange(0, 0) =~= Seq::<Seq<char>>::empty());
    proof {
        crate::json_value::lemma_members_of(m@);
        assert(crate::json_value::members_of(m@) =~= Seq::<(Seq<char>, Json)>::empty());
    }
    while i < parts.len()
        invariant
            i <= parts.len(),
            crate::json_value::members_of(m@) == relaxed_members(
                vv(parts@).subrange(0, i as int),
                full,
            ),
        decreases parts.len() - i,
    {
        let part = &parts[i];
        let ghost ps = vv(parts@).subrange(0, i + 1);
        assert(ps.drop_last() =~= vv(parts@).subrange(0, i as int));
        assert(ps.last() == part@);
        let colon = vec![':'];
        assert(colon@ =~= seq![':']);
        match find_exec(part.as_slice(), colon.as_slice()) {
            None => {},
            Some(c) => {
                proof {
                    crate::text::lemma_found(part@, colon@, c as int);
                }
                let plen = part.len();
                let kraw = slice_of(part.as_slice(), 0, c);
                let vraw = slice_of(part.as_slice(), c + 1, plen);
                let k1 = trim_vec(kraw.as_slice());
                let k2 = trim_char_vec(k1.as_slice(), '"');
                let key = trim_char_vec(k2.as_slice(), '\'');
                if key.len() > 0 {
                    let vt = trim_vec(vraw.as_slice());
                    let value = parse_relaxed_value(vt.as_slice(), full);
                    insert_member_exec(&mut m, string_of(key.as_slice()), value);
                }
            },
        }
        i = i + 1;
    }
    assert(vv(parts@).subrange(0, parts.len() as int) =~= vv(parts@));
    Some(JsonValue::Object(m))
}

/// Bare `true`, `false` and `null` arguments read as the JSON literals in both
/// readings of the relaxed parser, never as strings.
pub proof fn law_relaxed_literals(b: bool, full: bool)
    ensures
        relaxed_value(if b { "true"@ } else { "false"@ }, full) == Json::Bool(b),
        relaxed_value("null"@, full) == Json::Null,
{
    reveal_strlit("true");
    reveal_strlit("false");
    reveal_strlit("null");
    let w = if b { "true"@ } else { "false"@ };
    crate::text::lemma_trim_start_of_clean(w);
    crate::text::lemma_trim_end_of_clean(w);
    crate::text::lemma_trim_start_of_clean("null"@);
    crate::text::lemma_trim_end_of_clean("null"@);
    assert(crate::text::trim(w) == w);
    assert(crate::text::trim("null"@) == "null"@);
    assert(crate::text::trim_char_end(w, ',') == w);
    assert(crate::text::trim_char_end("null"@, ',') == "null"@);
    assert(w[0] == 't' || w[0] == 'f');
    assert(w.subrange(0, 1)[0] == w[0]);
    assert("null"@.subrange(0, 1)[0] == 'n');
    if w.len() >= 5 {
        assert(w.subrange(0, 5 as int)[0] == w[0]);
    }
    assert(gemma_q()[0] == '<');
    assert(!starts_with(w, seq!['[']) && !starts_with(w, seq!['{']) && !starts_with(w, gemma_q()));
    assert(!starts_with("null"@, seq!['[']) && !starts_with("null"@, seq!['{']) && !starts_with("null"@, gemma_q()));
    assert(crate::text::eq_ignore_case(w, w));
    assert(lower_seq(w).len() == w.len() && lower_seq("true"@).len() == 4 && lower_seq("false"@).len() == 5);
    assert(lower_seq("null"@)[0] == 'n' && lower_seq("true"@)[0] == 't');
    if !b {
        assert(!crate::text::eq_ignore_case(w, "true"@));
    }
    assert(!crate::text::eq_ignore_case("null"@, "true"@) && !crate::text::eq_ignore_case("null"@, "false"@));
    assert(crate::text::eq_ignore_case("null"@, "null"@));
}

/// Integer arguments read as the same number in both readings of the relaxed parser.
pub proof fn law_relaxed_integers(n: i64, full: bool)
    ensures
        relaxed_value(crate::json_value::int_text(n as int), full) == Json::Number(
            crate::json_value::int_text(n as int),
        ),
{
    let t = crate::json_value::int_text(n as int);
    let k: nat = if n < 0 { (-(n as int)) as nat } else { n as nat };
    crate::gemma4::lemma_decimal_digits(k);
    let d = crate::text::decimal(k);
    if n < 0 {
        assert(t == seq!['-'] + d);
        assert(t.drop_first() =~= d);
    }
    assert(t.len() > 0 && (t[0] == '-' || ('0' <= t[0] <= '9')));
    assert('0' <= t.last() <= '9') by {
        if n < 0 {
            assert(t.last() == d.last());
        }
    }
    crate::text::lemma_trim_start_of_clean(t);
    crate::text::lemma_trim_end_of_clean(t);
    assert(trim(t) == t);
    assert(trim_char_end(t, ',') == t);
    assert(crate::json_value::i64_literal(t) == Some(n as int));
    reveal_strlit("true");
    reveal_strlit("false");
    reveal_strlit("null");
    assert(t.subrange(0, 1)[0] == t[0]);
    if t.len() >= 5 {
        assert(t.subrange(0, 5 as int)[0] == t[0]);
    }
    assert(gemma_q()[0] == '<');
    assert(!starts_with(t, seq!['[']) && !starts_with(t, seq!['{']) && !starts_with(t, gemma_q()));
    assert(lower_seq(t)[0] == t[0]);
    assert(lower_seq("true"@)[0] == 't' && lower_seq("false"@)[0] == 'f' && lower_seq("null"@)[0] == 'n');
    assert(!eq_ignore_case(t, "true"@) && !eq_ignore_case(t, "false"@) && !eq_ignore_case(t, "null"@));
}

} // verus!
