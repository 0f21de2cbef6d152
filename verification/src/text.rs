//! Character-level text model: every string is viewed as a `Seq<char>`.
//! The helpers here are the building blocks of all prompt/memory heuristics.
use vstd::prelude::*;

verus! {

broadcast use vstd::string::group_string_axioms;

// ------------------------------------------------------------------
// Specification vocabulary
// ------------------------------------------------------------------

/// Unicode `White_Space` property, the set used by `char::is_whitespace`.
pub open spec fn is_ws(c: char) -> bool {
    let u = c as u32;
    ||| 0x09 <= u <= 0x0D
    ||| u == 0x20
    ||| u == 0x85
    ||| u == 0xA0
    ||| u == 0x1680
    ||| 0x2000 <= u <= 0x200A
    ||| u == 0x2028
    ||| u == 0x2029
    ||| u == 0x202F
    ||| u == 0x205F
    ||| u == 0x3000
}

/// ASCII lower-casing of one character (non-ASCII characters unchanged).
pub open spec fn lower_ascii(c: char) -> char {
    if 'A' <= c <= 'Z' {
        ((c as u32) + 32) as char
    } else {
        c
    }
}

/// `str::to_ascii_lowercase` on the character view.
pub open spec fn lower_seq(s: Seq<char>) -> Seq<char> {
    Seq::new(s.len(), |i: int| lower_ascii(s[i]))
}

/// Number of bytes of one character in UTF-8.
pub open spec fn utf8_width(c: char) -> nat {
    let u = c as u32;
    if u < 0x80 {
        1
    } else if u < 0x800 {
        2
    } else if u < 0x10000 {
        3
    } else {
        4
    }
}

/// Byte length (`str::len`) of a character sequence.
pub open spec fn utf8_len(s: Seq<char>) -> nat
    decreases s.len(),
{
    if s.len() == 0 {
        0
    } else {
        utf8_len(s.drop_last()) + utf8_width(s.last())
    }
}

/// `n` occurs in `h` starting at position `i`.
pub open spec fn matches_at(h: Seq<char>, n: Seq<char>, i: int) -> bool {
    0 <= i && i + n.len() <= h.len() && h.subrange(i, i + n.len()) == n
}

/// First occurrence of `n` in `h` at a position `>= from` (`str::find` on a suffix).
pub open spec fn find_from(h: Seq<char>, n: Seq<char>, from: int) -> Option<int>
    decreases h.len() + 1 - from,
{
    if from < 0 || from > h.len() || from + n.len() > h.len() {
        None
    } else if matches_at(h, n, from) {
        Some(from)
    } else {
        find_from(h, n, from + 1)
    }
}

/// First occurrence of `n` in `h` (`str::find`).
pub open spec fn find(h: Seq<char>, n: Seq<char>) -> Option<int> {
    find_from(h, n, 0)
}

/// `str::contains`.
pub open spec fn contains(h: Seq<char>, n: Seq<char>) -> bool {
    find(h, n) is Some
}

/// `str::starts_with`.
pub open spec fn starts_with(s: Seq<char>, p: Seq<char>) -> bool {
    p.len() <= s.len() && s.subrange(0, p.len() as int) == p
}

/// `str::ends_with`.
pub open spec fn ends_with(s: Seq<char>, p: Seq<char>) -> bool {
    p.len() <= s.len() && s.subrange(s.len() - p.len(), s.len() as int) == p
}

/// `str::trim_start`.
pub open spec fn trim_start(s: Seq<char>) -> Seq<char>
    decreases s.len(),
{
    if s.len() > 0 && is_ws(s[0]) {
        trim_start(s.drop_first())
    } else {
        s
    }
}

/// `str::trim_end`.
pub open spec fn trim_end(s: Seq<char>) -> Seq<char>
    decreases s.len(),
{
    if s.len() > 0 && is_ws(s.last()) {
        trim_end(s.drop_last())
    } else {
        s
    }
}

/// `str::trim`.
pub open spec fn trim(s: Seq<char>) -> Seq<char> {
    trim_end(trim_start(s))
}

/// A text is blank when trimming leaves nothing.
pub open spec fn is_blank(s: Seq<char>) -> bool {
    trim(s).len() == 0
}

/// Keep at most `n` leading characters (`chars().take(n)`).
pub open spec fn take_chars(s: Seq<char>, n: int) -> Seq<char> {
    if n < s.len() {
        s.subrange(0, n)
    } else {
        s
    }
}

// ------------------------------------------------------------------
// Lemmas
// ------------------------------------------------------------------

pub proof fn lemma_trim_start_of_clean(s: Seq<char>)
    requires
        s.len() == 0 || !is_ws(s[0]),
    ensures
        trim_start(s) == s,
{
}

pub proof fn lemma_trim_end_of_clean(s: Seq<char>)
    requires
        s.len() == 0 || !is_ws(s.last()),
    ensures
        trim_end(s) == s,
{
}

/// Trimming never lengthens a text.
pub proof fn lemma_trim_start_len(s: Seq<char>)
    ensures
        trim_start(s).len() <= s.len(),
    decreases s.len(),
{
    if s.len() > 0 && is_ws(s[0]) {
        lemma_trim_start_len(s.drop_first());
    }
}

pub proof fn lemma_trim_end_len(s: Seq<char>)
    ensures
        trim_end(s).len() <= s.len(),
    decreases s.len(),
{
    if s.len() > 0 && is_ws(s.last()) {
        lemma_trim_end_len(s.drop_last());
    }
}

pub proof fn lemma_trim_len(s: Seq<char>)
    ensures
        trim(s).len() <= s.len(),
{
    lemma_trim_start_len(s);
    lemma_trim_end_len(trim_start(s));
}

/// A found position really is an occurrence, and it is the first one after `from`.
pub proof fn lemma_find_from_sound(h: Seq<char>, n: Seq<char>, from: int)
    ensures
        find_from(h, n, from) matches Some(i) ==> from <= i && matches_at(h, n, i),
    decreases h.len() + 1 - from,
{
    if from < 0 || from > h.len() || from + n.len() > h.len() {
    } else if matches_at(h, n, from) {
    } else {
        lemma_find_from_sound(h, n, from + 1);
    }
}

/// A found position is an in-bounds occurrence.
pub proof fn lemma_found(h: Seq<char>, n: Seq<char>, i: int)
    requires
        find(h, n) == Some(i),
    ensures
        0 <= i,
        i + n.len() <= h.len(),
        h.subrange(i, i + n.len()) == n,
{
    lemma_find_from_sound(h, n, 0);
}

/// Any occurrence at or after `from` is found.
pub proof fn lemma_find_from_complete(h: Seq<char>, n: Seq<char>, from: int, j: int)
    requires
        0 <= from <= j,
        matches_at(h, n, j),
    ensures
        find_from(h, n, from) is Some,
    decreases j - from,
{
    if from + n.len() > h.len() {
    } else if matches_at(h, n, from) {
    } else {
        lemma_find_from_complete(h, n, from + 1, j);
    }
}

/// `contains` holds exactly when some occurrence exists.
pub proof fn lemma_contains_iff(h: Seq<char>, n: Seq<char>, j: int)
    requires
        matches_at(h, n, j),
    ensures
        contains(h, n),
{
    lemma_find_from_complete(h, n, 0, j);
}

/// A text that is a prefix-extension of a needle occurrence contains it.
pub proof fn lemma_contains_concat(a: Seq<char>, n: Seq<char>, b: Seq<char>)
    ensures
        contains(a + n + b, n),
{
    let h = a + n + b;
    assert(h.subrange(a.len() as int, (a.len() + n.len()) as int) =~= n);
    lemma_contains_iff(h, n, a.len() as int);
}

/// An occurrence inside a part of a concatenation is an occurrence of the whole.
pub proof fn lemma_contains_left(a: Seq<char>, b: Seq<char>, n: Seq<char>)
    requires
        contains(a, n),
    ensures
        contains(a + b, n),
{
    lemma_find_from_sound(a, n, 0);
    let i = find(a, n)->0;
    assert((a + b).subrange(i, i + n.len()) =~= a.subrange(i, i + n.len()));
    lemma_contains_iff(a + b, n, i);
}

pub proof fn lemma_contains_right(a: Seq<char>, b: Seq<char>, n: Seq<char>)
    requires
        contains(b, n),
    ensures
        contains(a + b, n),
{
    lemma_find_from_sound(b, n, 0);
    let i = find(b, n)->0;
    assert((a + b).subrange(a.len() + i, a.len() + i + n.len()) =~= b.subrange(i, i + n.len()));
    lemma_contains_iff(a + b, n, a.len() + i);
}

/// A text that starts with the needle contains it.
pub proof fn lemma_starts_with_contains(s: Seq<char>, p: Seq<char>)
    requires
        starts_with(s, p),
    ensures
        contains(s, p),
{
    lemma_contains_iff(s, p, 0);
}

pub proof fn lemma_utf8_len_ge_len(s: Seq<char>)
    ensures
        utf8_len(s) >= s.len(),
    decreases s.len(),
{
    if s.len() > 0 {
        lemma_utf8_len_ge_len(s.drop_last());
    }
}

// ------------------------------------------------------------------
// Executable helpers
// ------------------------------------------------------------------

/// `char::is_whitespace`.
pub fn is_whitespace_char(c: char) -> (r: bool)
    ensures
        r == is_ws(c),
{
    let u = c as u32;
    (0x09 <= u && u <= 0x0D) || u == 0x20 || u == 0x85 || u == 0xA0 || u == 0x1680 || (0x2000
        <= u && u <= 0x200A) || u == 0x2028 || u == 0x2029 || u == 0x202F || u == 0x205F || u
        == 0x3000
}

/// `char::to_ascii_lowercase`.
pub fn lower_ascii_char(c: char) -> (r: char)
    ensures
        r == lower_ascii(c),
{
    if 'A' <= c && c <= 'Z' {
        let u = (c as u32) + 32;
        let r = char_from_ascii(u);
        r
    } else {
        c
    }
}

/// Character with a code point known to be ASCII.
fn char_from_ascii(u: u32) -> (r: char)
    requires
        u < 128,
    ensures
        r == u as char,
{
    let b = u as u8;
    b as char
}

/// All characters of a string, in order.
pub fn chars_of(s: &str) -> (v: Vec<char>)
    ensures
        v@ == s@,
{
    let mut v: Vec<char> = Vec::new();
    for c in it: s.chars()
        invariant
            v@ == it.seq().take(it.index() as int),
    {
        v.push(c);
    }
    assert(v@ =~= s@);
    v
}

/// `String::push`: appends one character.
#[verifier::external_body]
fn push_char(s: &mut String, c: char)
    ensures
        final(s)@ == old(s)@.push(c),
{
    s.push(c);
}

/// Appends a run of characters to a string.
pub fn push_chars(s: &mut String, v: &[char])
    ensures
        final(s)@ == old(s)@ + v@,
{
    let ghost s0 = s@;
    let mut i: usize = 0;
    while i < v.len()
        invariant
            i <= v.len(),
            s@ == s0 + v@.subrange(0, i as int),
        decreases v.len() - i,
    {
        push_char(s, v[i]);
        i = i + 1;
        assert(s@ =~= s0 + v@.subrange(0, i as int));
    }
    assert(v@.subrange(0, v.len() as int) =~= v@);
}

/// A fresh string holding the given characters.
pub fn string_of(v: &[char]) -> (s: String)
    ensures
        s@ == v@,
{
    let mut s = String::new();
    push_chars(&mut s, v);
    assert(s@ =~= v@);
    s
}

/// Appends characters to a character buffer.
pub fn append_chars(dst: &mut Vec<char>, src: &[char])
    ensures
        final(dst)@ == old(dst)@ + src@,
{
    let ghost d0 = dst@;
    let mut i: usize = 0;
    while i < src.len()
        invariant
            i <= src.len(),
            dst@ == d0 + src@.subrange(0, i as int),
        decreases src.len() - i,
    {
        dst.push(src[i]);
        i = i + 1;
        assert(dst@ =~= d0 + src@.subrange(0, i as int));
    }
    assert(src@.subrange(0, src.len() as int) =~= src@);
}

/// Appends the characters of a string slice to a character buffer.
pub fn append_str(dst: &mut Vec<char>, s: &str)
    ensures
        final(dst)@ == old(dst)@ + s@,
{
    let v = chars_of(s);
    append_chars(dst, v.as_slice());
}

/// Copy of `h[a..b]`.
pub fn slice_of(h: &[char], a: usize, b: usize) -> (r: Vec<char>)
    requires
        a <= b <= h.len(),
    ensures
        r@ == h@.subrange(a as int, b as int),
{
    let mut r: Vec<char> = Vec::new();
    let mut i = a;
    while i < b
        invariant
            a <= i <= b <= h.len(),
            r@ == h@.subrange(a as int, i as int),
        decreases b - i,
    {
        r.push(h[i]);
        i = i + 1;
        assert(r@ =~= h@.subrange(a as int, i as int));
    }
    r
}

/// ASCII lower-case copy.
pub fn lower_vec(h: &[char]) -> (r: Vec<char>)
    ensures
        r@ == lower_seq(h@),
{
    let mut r: Vec<char> = Vec::new();
    let mut i: usize = 0;
    while i < h.len()
        invariant
            i <= h.len(),
            r@ =~= lower_seq(h@).subrange(0, i as int),
        decreases h.len() - i,
    {
        let c = lower_ascii_char(h[i]);
        r.push(c);
        i = i + 1;
    }
    r
}

/// Whether `n` occurs in `h` at position `i`.
pub fn matches_at_exec(h: &[char], n: &[char], i: usize) -> (r: bool)
    ensures
        r == matches_at(h@, n@, i as int),
{
    if i > h.len() || n.len() > h.len() - i {
        return false;
    }
    let mut k: usize = 0;
    while k < n.len()
        invariant
            i + n.len() <= h.len(),
            k <= n.len(),
            forall|j: int| 0 <= j < k ==> h@[i + j] == n@[j],
        decreases n.len() - k,
    {
        if h[i + k] != n[k] {
            assert(h@.subrange(i as int, i + n.len())[k as int] != n@[k as int]);
            return false;
        }
        k = k + 1;
    }
    assert(h@.subrange(i as int, i + n.len()) =~= n@);
    true
}

/// First occurrence of `n` in `h` at or after `from`.
pub fn find_from_exec(h: &[char], n: &[char], from: usize) -> (r: Option<usize>)
    ensures
        r matches Some(i) ==> find_from(h@, n@, from as int) == Some(i as int),
        r is None ==> find_from(h@, n@, from as int) is None,
{
    let mut i = from;
    loop
        invariant
            from <= i,
            find_from(h@, n@, from as int) == find_from(h@, n@, i as int),
        decreases h.len() + 1 - i,
    {
        if i > h.len() || n.len() > h.len() - i {
            return None;
        }
        if matches_at_exec(h, n, i) {
            return Some(i);
        }
        if i == h.len() {
            assert(find_from(h@, n@, i + 1) is None);
            return None;
        }
        i = i + 1;
    }
}

/// First occurrence of `n` in `h`.
pub fn find_exec(h: &[char], n: &[char]) -> (r: Option<usize>)
    ensures
        r matches Some(i) ==> find(h@, n@) == Some(i as int),
        r is None ==> find(h@, n@) is None,
{
    find_from_exec(h, n, 0)
}

/// Whether `n` occurs in `h`.
pub fn contains_exec(h: &[char], n: &[char]) -> (r: bool)
    ensures
        r == contains(h@, n@),
{
    find_exec(h, n).is_some()
}

/// Whether `h` contains the literal `n`.
pub fn contains_str(h: &[char], n: &str) -> (r: bool)
    ensures
        r == contains(h@, n@),
{
    let nv = chars_of(n);
    contains_exec(h, nv.as_slice())
}

/// Whether `h` starts with `p`.
pub fn starts_with_exec(h: &[char], p: &[char]) -> (r: bool)
    ensures
        r == starts_with(h@, p@),
{
    let r = matches_at_exec(h, p, 0);
    assert(r == starts_with(h@, p@));
    r
}

/// Whether `h` starts with the literal `p`.
pub fn starts_with_str(h: &[char], p: &str) -> (r: bool)
    ensures
        r == starts_with(h@, p@),
{
    let pv = chars_of(p);
    starts_with_exec(h, pv.as_slice())
}

/// Whether `h` ends with `p`.
pub fn ends_with_exec(h: &[char], p: &[char]) -> (r: bool)
    ensures
        r == ends_with(h@, p@),
{
    if p.len() > h.len() {
        return false;
    }
    matches_at_exec(h, p, h.len() - p.len())
}

/// Whether `h` ends with the literal `p`.
pub fn ends_with_str(h: &[char], p: &str) -> (r: bool)
    ensures
        r == ends_with(h@, p@),
{
    let pv = chars_of(p);
    ends_with_exec(h, pv.as_slice())
}

/// Index of the first character that survives `trim_start`.
pub fn trim_start_index(h: &[char]) -> (i: usize)
    ensures
        i <= h.len(),
        trim_start(h@) == h@.subrange(i as int, h.len() as int),
{
    let mut i: usize = 0;
    assert(h@.subrange(0, h.len() as int) =~= h@);
    while i < h.len() && is_whitespace_char(h[i])
        invariant
            i <= h.len(),
            trim_start(h@) == trim_start(h@.subrange(i as int, h.len() as int)),
        decreases h.len() - i,
    {
        assert(h@.subrange(i as int, h.len() as int).drop_first() =~= h@.subrange(
            i + 1,
            h.len() as int,
        ));
        i = i + 1;
    }
    i
}

/// Bounds `[a, b)` of the trimmed text.
pub fn trim_bounds(h: &[char]) -> (r: (usize, usize))
    ensures
        r.0 <= r.1 <= h.len(),
        trim(h@) == h@.subrange(r.0 as int, r.1 as int),
{
    let a = trim_start_index(h);
    let mut b = h.len();
    let ghost t = h@.subrange(a as int, h.len() as int);
    while b > a && is_whitespace_char(h[b - 1])
        invariant
            a <= b <= h.len(),
            trim_end(t) == trim_end(h@.subrange(a as int, b as int)),
        decreases b,
    {
        assert(h@.subrange(a as int, b as int).drop_last() =~= h@.subrange(
            a as int,
            b - 1,
        ));
        b = b - 1;
    }
    (a, b)
}

/// Trimmed copy.
pub fn trim_vec(h: &[char]) -> (r: Vec<char>)
    ensures
        r@ == trim(h@),
{
    let (a, b) = trim_bounds(h);
    slice_of(h, a, b)
}

/// Copy after `trim_start`.
pub fn trim_start_vec(h: &[char]) -> (r: Vec<char>)
    ensures
        r@ == trim_start(h@),
{
    let a = trim_start_index(h);
    slice_of(h, a, h.len())
}

/// Whether a text is blank (empty after trimming).
pub fn is_blank_exec(h: &[char]) -> (r: bool)
    ensures
        r == is_blank(h@),
{
    let (a, b) = trim_bounds(h);
    a == b
}

/// Trimmed string of a string slice.
pub fn trim_string(s: &str) -> (r: String)
    ensures
        r@ == trim(s@),
{
    let v = chars_of(s);
    let t = trim_vec(v.as_slice());
    string_of(t.as_slice())
}

/// At most `n` leading characters.
pub fn take_vec(h: &[char], n: usize) -> (r: Vec<char>)
    ensures
        r@ == take_chars(h@, n as int),
{
    if n < h.len() {
        slice_of(h, 0, n)
    } else {
        let r = slice_of(h, 0, h.len());
        assert(r@ =~= h@);
        r
    }
}

/// Whether the UTF-8 length of `h` is below `cap`.
pub fn utf8_len_below(h: &[char], cap: usize) -> (r: bool)
    ensures
        r == (utf8_len(h@) < cap),
{
    if cap == 0 {
        return false;
    }
    let mut i: usize = 0;
    let mut total: usize = 0;
    assert(h@.subrange(0, 0) =~= Seq::<char>::empty());
    while i < h.len()
        invariant
            i <= h.len(),
            total == utf8_len(h@.subrange(0, i as int)),
            total < cap,
        decreases h.len() - i,
    {
        let c = h[i];
        let u = c as u32;
        let w: usize = if u < 0x80 {
            1
        } else if u < 0x800 {
            2
        } else if u < 0x10000 {
            3
        } else {
            4
        };
        assert(h@.subrange(0, i + 1).drop_last() =~= h@.subrange(0, i as int));
        assert(w == utf8_width(h@[i as int]));
        if w >= cap - total {
            proof {
                lemma_utf8_len_prefix_mono(h@, i + 1);
            }
            return false;
        }
        total = total + w;
        i = i + 1;
    }
    assert(h@.subrange(0, h.len() as int) =~= h@);
    true
}

/// Byte length only grows along prefixes.
pub proof fn lemma_utf8_len_prefix_mono(s: Seq<char>, k: int)
    requires
        0 <= k <= s.len(),
    ensures
        utf8_len(s.subrange(0, k)) <= utf8_len(s),
    decreases s.len() - k,
{
    if k < s.len() {
        lemma_utf8_len_prefix_mono(s, k + 1);
        assert(s.subrange(0, k + 1).drop_last() =~= s.subrange(0, k));
    } else {
        assert(s.subrange(0, k) =~= s);
    }
}

/// Element-wise equality of two character runs.
pub fn seq_eq_exec(a: &[char], b: &[char]) -> (r: bool)
    ensures
        r == (a@ == b@),
{
    if a.len() != b.len() {
        return false;
    }
    let r = matches_at_exec(a, b, 0);
    assert(a@.subrange(0, b.len() as int) =~= a@);
    r
}

/// Equality of two string slices.
pub fn str_eq(a: &str, b: &str) -> (r: bool)
    ensures
        r == (a@ == b@),
{
    let av = chars_of(a);
    let bv = chars_of(b);
    seq_eq_exec(av.as_slice(), bv.as_slice())
}

/// Number of characters (`chars().count()`).
pub fn char_count(s: &str) -> (n: usize)
    ensures
        n == s@.len(),
{
    let v = chars_of(s);
    v.len()
}

/// Copy of a string.
pub fn copy_string(s: &String) -> (r: String)
    ensures
        r@ == s@,
{
    s.clone()
}

/// Views of a list of string slices.
pub open spec fn strs_view(ns: Seq<&str>) -> Seq<Seq<char>> {
    Seq::new(ns.len(), |i: int| ns[i]@)
}

/// Some needle of the list occurs in `h`.
pub open spec fn contains_any(h: Seq<char>, ns: Seq<Seq<char>>) -> bool {
    exists|i: int| 0 <= i < ns.len() && contains(h, #[trigger] ns[i])
}

/// `h` starts with some needle of the list.
pub open spec fn starts_with_any(h: Seq<char>, ns: Seq<Seq<char>>) -> bool {
    exists|i: int| 0 <= i < ns.len() && starts_with(h, #[trigger] ns[i])
}

/// Whether any of the literal needles occurs in `h`.
pub fn contains_any_exec(h: &[char], needles: &[&str]) -> (r: bool)
    ensures
        r == contains_any(h@, strs_view(needles@)),
{
    let mut i: usize = 0;
    while i < needles.len()
        invariant
            i <= needles.len(),
            forall|j: int| 0 <= j < i ==> !contains(h@, #[trigger] strs_view(needles@)[j]),
        decreases needles.len() - i,
    {
        if contains_str(h, needles[i]) {
            assert(contains(h@, strs_view(needles@)[i as int]));
            return true;
        }
        i = i + 1;
    }
    false
}

/// Whether `h` starts with any of the literal needles.
pub fn starts_with_any_exec(h: &[char], needles: &[&str]) -> (r: bool)
    ensures
        r == starts_with_any(h@, strs_view(needles@)),
{
    let mut i: usize = 0;
    while i < needles.len()
        invariant
            i <= needles.len(),
            forall|j: int| 0 <= j < i ==> !starts_with(h@, #[trigger] strs_view(needles@)[j]),
        decreases needles.len() - i,
    {
        if starts_with_str(h, needles[i]) {
            assert(starts_with(h@, strs_view(needles@)[i as int]));
            return true;
        }
        i = i + 1;
    }
    false
}

/// Whitespace squashing: every whitespace run between words becomes one space,
/// leading and trailing whitespace disappears (`split_whitespace().join(" ")`).
/// `pending` records a whitespace run seen since the last word, `started` that a word was emitted.
pub open spec fn squash(s: Seq<char>, pending: bool, started: bool) -> Seq<char>
    decreases s.len(),
{
    if s.len() == 0 {
        Seq::<char>::empty()
    } else if is_ws(s[0]) {
        squash(s.drop_first(), true, started)
    } else {
        (if pending && started {
            seq![' ']
        } else {
            Seq::<char>::empty()
        }) + seq![s[0]] + squash(s.drop_first(), false, true)
    }
}

/// `split_whitespace().join(" ")`.
pub open spec fn compact_ws(s: Seq<char>) -> Seq<char> {
    squash(s, false, false)
}

/// Whitespace-compacted copy.
pub fn compact_whitespace_vec(h: &[char]) -> (r: Vec<char>)
    ensures
        r@ == compact_ws(h@),
{
    let mut out: Vec<char> = Vec::new();
    let mut pending = false;
    let mut started = false;
    let mut i: usize = 0;
    assert(h@.subrange(0, h.len() as int) =~= h@);
    while i < h.len()
        invariant
            i <= h.len(),
            out@ + squash(h@.subrange(i as int, h.len() as int), pending, started) == compact_ws(
                h@,
            ),
        decreases h.len() - i,
    {
        let c = h[i];
        assert(h@.subrange(i as int, h.len() as int).drop_first() =~= h@.subrange(
            i + 1,
            h.len() as int,
        ));
        if is_whitespace_char(c) {
            pending = true;
        } else {
            if pending && started {
                out.push(' ');
            }
            out.push(c);
            pending = false;
            started = true;
        }
        i = i + 1;
    }
    out
}

/// Name of the result of `str::to_lowercase` (full Unicode lower-casing).
pub uninterp spec fn unicode_lowercase(s: Seq<char>) -> Seq<char>;

/// `str::to_lowercase`: Unicode lower-casing.
#[verifier::external_body]
pub fn to_lowercase_string(s: &str) -> (r: String)
    ensures
        r@ == unicode_lowercase(s@),
{
    s.to_lowercase()
}

/// Unicode lower-cased characters of a character run.
pub fn unicode_lower_vec(h: &[char]) -> (r: Vec<char>)
    ensures
        r@ == unicode_lowercase(h@),
{
    let s = string_of(h);
    let l = to_lowercase_string(s.as_str());
    chars_of(l.as_str())
}

/// Views of a list of character buffers.
pub open spec fn vv(s: Seq<Vec<char>>) -> Seq<Seq<char>> {
    Seq::new(s.len(), |i: int| s[i]@)
}

pub proof fn lemma_vv_push(s: Seq<Vec<char>>, v: Vec<char>)
    ensures
        vv(s.push(v)) == vv(s).push(v@),
{
    assert(vv(s.push(v)) =~= vv(s).push(v@));
}

/// A line without a trailing carriage return.
pub open spec fn strip_cr(l: Seq<char>) -> Seq<char> {
    if l.len() > 0 && l.last() == '\r' {
        l.drop_last()
    } else {
        l
    }
}

/// `str::lines`: split at `\n` (dropping a `\r` before it); no final empty line.
pub open spec fn lines(s: Seq<char>) -> Seq<Seq<char>>
    decreases s.len(),
{
    if s.len() == 0 {
        Seq::empty()
    } else {
        match find(s, seq!['\n']) {
            None => seq![s],
            Some(i) => if 0 <= i < s.len() {
                seq![strip_cr(s.subrange(0, i))] + lines(s.subrange(i + 1, s.len() as int))
            } else {
                seq![s]
            },
        }
    }
}

/// Lines of a text.
pub fn lines_vec(h: &[char]) -> (r: Vec<Vec<char>>)
    ensures
        vv(r@) == lines(h@),
{
    let mut out: Vec<Vec<char>> = Vec::new();
    let mut start: usize = 0;
    let nl: Vec<char> = vec!['\n'];
    assert(h@.subrange(0, h.len() as int) =~= h@);
    while start < h.len()
        invariant
            start <= h.len(),
            nl@ == seq!['\n'],
            vv(out@) + lines(h@.subrange(start as int, h.len() as int)) == lines(h@),
        decreases h.len() - start,
    {
        let rest = slice_of(h, start, h.len());
        match find_exec(rest.as_slice(), nl.as_slice()) {
            None => {
                proof {
                    lemma_vv_push(out@, rest);
                }
                out.push(rest);
                assert(vv(out@) =~= lines(h@));
                return out;
            },
            Some(i) => {
                proof {
                    lemma_find_from_sound(rest@, nl@, 0);
                }
                let mut line = slice_of(rest.as_slice(), 0, i);
                if line.len() > 0 && line[line.len() - 1] == '\r' {
                    line.pop();
                    assert(line@ =~= strip_cr(rest@.subrange(0, i as int)));
                }
                proof {
                    lemma_vv_push(out@, line);
                    assert(h@.subrange(start + i + 1, h.len() as int) =~= rest@.subrange(
                        i + 1,
                        rest@.len() as int,
                    ));
                }
                out.push(line);
                start = start + i + 1;
            },
        }
    }
    assert(lines(h@.subrange(start as int, h.len() as int)) =~= Seq::<Seq<char>>::empty());
    assert(vv(out@) =~= lines(h@));
    out
}

/// Join with a separator (`[..].join(sep)`).
pub open spec fn join(parts: Seq<Seq<char>>, sep: Seq<char>) -> Seq<char>
    decreases parts.len(),
{
    if parts.len() == 0 {
        Seq::empty()
    } else if parts.len() == 1 {
        parts[0]
    } else {
        join(parts.drop_last(), sep) + sep + parts.last()
    }
}

/// Joined copy of `parts[a..b]`.
pub fn join_range(parts: &[Vec<char>], a: usize, b: usize, sep: &[char]) -> (r: Vec<char>)
    requires
        a <= b <= parts.len(),
    ensures
        r@ == join(vv(parts@).subrange(a as int, b as int), sep@),
{
    let mut out: Vec<char> = Vec::new();
    let mut i: usize = a;
    while i < b
        invariant
            a <= i <= b <= parts.len(),
            out@ == join(vv(parts@).subrange(a as int, i as int), sep@),
        decreases b - i,
    {
        let ghost before = vv(parts@).subrange(a as int, i as int);
        assert(vv(parts@).subrange(a as int, i + 1).drop_last() =~= before);
        if i > a {
            append_chars(&mut out, sep);
        }
        append_chars(&mut out, parts[i].as_slice());
        i = i + 1;
        assert(vv(parts@).subrange(a as int, i as int).last() == parts@[i - 1]@);
        if i == a + 1 {
            assert(out@ =~= parts@[a as int]@);
        }
    }
    out
}

/// Joined copy.
pub fn join_vec(parts: &[Vec<char>], sep: &[char]) -> (r: Vec<char>)
    ensures
        r@ == join(vv(parts@), sep@),
{
    let r = join_range(parts, 0, parts.len(), sep);
    assert(vv(parts@).subrange(0, parts.len() as int) =~= vv(parts@));
    r
}

/// `Seq` view of an ASCII-lower-cased equality test (`eq_ignore_ascii_case`).
pub open spec fn eq_ignore_case(a: Seq<char>, b: Seq<char>) -> bool {
    lower_seq(a) == lower_seq(b)
}

/// Decimal digit character.
pub open spec fn digit_char(d: int) -> char {
    (48 + d) as char
}

/// Decimal rendering of a number (`to_string` of an unsigned integer).
pub open spec fn decimal(n: nat) -> Seq<char>
    decreases n,
{
    if n < 10 {
        seq![digit_char(n as int)]
    } else {
        decimal(n / 10).push(digit_char((n % 10) as int))
    }
}

/// Appends the decimal rendering of `n`.
pub fn push_decimal(out: &mut Vec<char>, n: u64)
    ensures
        final(out)@ == old(out)@ + decimal(n as nat),
    decreases n,
{
    if n >= 10 {
        push_decimal(out, n / 10);
    }
    let d = (n % 10) as u32;
    let c = char_from_ascii(48 + d);
    out.push(c);
}


/// UTF-8 length of a character run (`str::len` of its string).
pub fn utf8_len_exec(h: &[char]) -> (n: u128)
    ensures
        n == utf8_len(h@),
{
    let mut n: u128 = 0;
    let mut i: usize = 0;
    assert(h@.subrange(0, 0) =~= Seq::<char>::empty());
    while i < h.len()
        invariant
            i <= h.len(),
            n == utf8_len(h@.subrange(0, i as int)),
            n <= 4 * i,
        decreases h.len() - i,
    {
        assert(h@.subrange(0, i + 1).drop_last() =~= h@.subrange(0, i as int));
        let u = h[i] as u32;
        let w: u128 = if u < 0x80 {
            1
        } else if u < 0x800 {
            2
        } else if u < 0x10000 {
            3
        } else {
            4
        };
        n = n + w;
        i = i + 1;
    }
    assert(h@.subrange(0, h.len() as int) =~= h@);
    n
}

/// Appends the decimal rendering of a `u128`.
pub fn push_decimal_u128(out: &mut Vec<char>, n: u128)
    ensures
        final(out)@ == old(out)@ + decimal(n as nat),
    decreases n,
{
    if n >= 10 {
        push_decimal_u128(out, n / 10);
    }
    let d = (n % 10) as u32;
    let c = char_from_ascii(48 + d);
    out.push(c);
}

/// Whitespace-separated words (`split_whitespace`), from the back.
pub open spec fn words(s: Seq<char>) -> Seq<Seq<char>>
    decreases s.len(),
{
    if s.len() == 0 {
        Seq::empty()
    } else {
        let w = words(s.drop_last());
        if is_ws(s.last()) {
            w
        } else if s.len() >= 2 && !is_ws(s[s.len() - 2]) && w.len() > 0 {
            w.update(w.len() - 1, w.last().push(s.last()))
        } else {
            w.push(seq![s.last()])
        }
    }
}

/// The words of a text.
pub fn words_vec(h: &[char]) -> (r: Vec<Vec<char>>)
    ensures
        vv(r@) == words(h@),
{
    let mut out: Vec<Vec<char>> = Vec::new();
    let mut i: usize = 0;
    assert(h@.subrange(0, 0) =~= Seq::<char>::empty());
    while i < h.len()
        invariant
            i <= h.len(),
            vv(out@) == words(h@.subrange(0, i as int)),
            i > 0 && !is_ws(h@[i - 1]) ==> out@.len() > 0,
        decreases h.len() - i,
    {
        let c = h[i];
        let ghost pre = h@.subrange(0, i as int);
        assert(h@.subrange(0, i + 1).drop_last() =~= pre);
        assert(h@.subrange(0, i + 1).last() == c);
        if is_whitespace_char(c) {
        } else if i >= 1 && !is_whitespace_char(h[i - 1]) {
            assert(h@.subrange(0, i + 1)[i - 1] == h@[i - 1]);
            let last = out.len() - 1;
            let mut w = slice_of(out[last].as_slice(), 0, out[last].len());
            assert(w@ == words(pre).last());
            w.push(c);
            let ghost before = out@;
            out.set(last, w);
            assert(vv(out@) =~= vv(before).update(last as int, w@));
            assert(vv(out@) =~= words(pre).update(words(pre).len() - 1, words(pre).last().push(c)));
        } else {
            if i >= 1 {
                assert(h@.subrange(0, i + 1)[i - 1] == h@[i - 1]);
            }
            let mut w: Vec<char> = Vec::new();
            w.push(c);
            proof {
                lemma_vv_push(out@, w);
            }
            out.push(w);
            assert(w@ =~= seq![c]);
        }
        i = i + 1;
    }
    assert(h@.subrange(0, h.len() as int) =~= h@);
    out
}

/// Strip every copy of `c` from both ends (`trim_matches(c)`).
pub open spec fn trim_char_start(s: Seq<char>, c: char) -> Seq<char>
    decreases s.len(),
{
    if s.len() > 0 && s[0] == c {
        trim_char_start(s.drop_first(), c)
    } else {
        s
    }
}

pub open spec fn trim_char_end(s: Seq<char>, c: char) -> Seq<char>
    decreases s.len(),
{
    if s.len() > 0 && s.last() == c {
        trim_char_end(s.drop_last(), c)
    } else {
        s
    }
}

pub open spec fn trim_char(s: Seq<char>, c: char) -> Seq<char> {
    trim_char_end(trim_char_start(s, c), c)
}

pub fn trim_char_vec(h: &[char], c: char) -> (r: Vec<char>)
    ensures
        r@ == trim_char(h@, c),
{
    let mut a: usize = 0;
    assert(h@.subrange(0, h.len() as int) =~= h@);
    while a < h.len() && h[a] == c
        invariant
            a <= h.len(),
            trim_char_start(h@, c) == trim_char_start(h@.subrange(a as int, h.len() as int), c),
        decreases h.len() - a,
    {
        assert(h@.subrange(a as int, h.len() as int).drop_first() =~= h@.subrange(
            a + 1,
            h.len() as int,
        ));
        a = a + 1;
    }
    let mut b = h.len();
    let ghost t = h@.subrange(a as int, h.len() as int);
    while b > a && h[b - 1] == c
        invariant
            a <= b <= h.len(),
            trim_char_end(t, c) == trim_char_end(h@.subrange(a as int, b as int), c),
        decreases b,
    {
        assert(h@.subrange(a as int, b as int).drop_last() =~= h@.subrange(a as int, b - 1));
        b = b - 1;
    }
    slice_of(h, a, b)
}

/// `str::parse::<u32>`: an optional `+`, then one or more ASCII digits, within range.
pub open spec fn digits_value(s: Seq<char>) -> int
    decreases s.len(),
{
    if s.len() == 0 {
        0
    } else {
        digits_value(s.drop_last()) * 10 + ((s.last() as u32) - 48)
    }
}

pub open spec fn all_digits(s: Seq<char>) -> bool {
    forall|i: int| 0 <= i < s.len() ==> '0' <= #[trigger] s[i] <= '9'
}

pub open spec fn parse_u32(s: Seq<char>) -> Option<u32> {
    let d = if s.len() > 0 && s[0] == '+' {
        s.drop_first()
    } else {
        s
    };
    if d.len() > 0 && all_digits(d) && digits_value(d) <= u32::MAX {
        Some(digits_value(d) as u32)
    } else {
        None
    }
}

pub fn parse_u32_exec(s: &[char]) -> (r: Option<u32>)
    ensures
        r == parse_u32(s@),
{
    let start: usize = if s.len() > 0 && s[0] == '+' {
        1
    } else {
        0
    };
    let ghost d = if s@.len() > 0 && s@[0] == '+' {
        s@.drop_first()
    } else {
        s@
    };
    assert(d =~= s@.subrange(start as int, s.len() as int));
    if start >= s.len() {
        return None;
    }
    let mut v: u64 = 0;
    let mut i = start;
    while i < s.len()
        invariant
            start <= i <= s.len(),
            d =~= s@.subrange(start as int, s.len() as int),
            d == (if s@.len() > 0 && s@[0] == '+' {
                s@.drop_first()
            } else {
                s@
            }),
            all_digits(s@.subrange(start as int, i as int)),
            v == digits_value(s@.subrange(start as int, i as int)),
            v <= u32::MAX,
        decreases s.len() - i,
    {
        let c = s[i];
        assert(s@.subrange(start as int, i + 1).drop_last() =~= s@.subrange(start as int, i as int));
        if c < '0' || c > '9' {
            assert(!all_digits(d)) by {
                assert(d[i - start] == c);
            }
            return None;
        }
        let dv = (c as u32 - 48) as u64;
        v = v * 10 + dv;
        if v > 0xffff_ffff {
            proof {
                if all_digits(d) {
                    lemma_digits_value_prefix_mono(d, (i - start + 1) as int);
                    assert(d.subrange(0, (i - start + 1) as int) =~= s@.subrange(start as int, i + 1));
                }
            }
            return None;
        }
        i = i + 1;
    }
    assert(s@.subrange(start as int, s.len() as int) =~= d);
    Some(v as u32)
}


/// A non-empty run of ASCII digits whose value fits `u64`, read as that value.
pub fn parse_digits_u64(s: &[char]) -> (r: Option<u64>)
    ensures
        r matches Some(n) ==> s@.len() > 0 && all_digits(s@) && digits_value(s@) == n,
        r is None ==> !(s@.len() > 0 && all_digits(s@) && digits_value(s@) <= u64::MAX),
{
    if s.len() == 0 {
        return None;
    }
    let mut v: u128 = 0;
    let mut i: usize = 0;
    assert(s@.subrange(0, 0) =~= Seq::<char>::empty());
    while i < s.len()
        invariant
            i <= s.len(),
            all_digits(s@.subrange(0, i as int)),
            v == digits_value(s@.subrange(0, i as int)),
            v <= u64::MAX,
        decreases s.len() - i,
    {
        let c = s[i];
        assert(s@.subrange(0, i + 1).drop_last() =~= s@.subrange(0, i as int));
        if c < '0' || c > '9' {
            assert(!all_digits(s@)) by {
                assert(s@[i as int] == c);
            }
            return None;
        }
        let dv = (c as u32 - 48) as u128;
        v = v * 10 + dv;
        if v > 0xffff_ffff_ffff_ffffu128 {
            proof {
                if all_digits(s@) {
                    lemma_digits_value_prefix_mono(s@, i + 1);
                }
            }
            return None;
        }
        i = i + 1;
    }
    assert(s@.subrange(0, s.len() as int) =~= s@);
    Some(v as u64)
}

/// The value of a digit string only grows along its prefixes.
pub proof fn lemma_digits_value_prefix_mono(s: Seq<char>, k: int)
    requires
        0 <= k <= s.len(),
        all_digits(s),
    ensures
        digits_value(s.subrange(0, k)) <= digits_value(s),
    decreases s.len() - k,
{
    if k < s.len() {
        lemma_digits_value_prefix_mono(s, k + 1);
        assert(s.subrange(0, k + 1).drop_last() =~= s.subrange(0, k));
        assert(s.subrange(0, k + 1).last() == s[k]);
        lemma_digits_value_nonneg(s.subrange(0, k));
    } else {
        assert(s.subrange(0, k) =~= s);
    }
}

pub proof fn lemma_digits_value_nonneg(s: Seq<char>)
    requires
        all_digits(s),
    ensures
        digits_value(s) >= 0,
    decreases s.len(),
{
    if s.len() > 0 {
        assert(all_digits(s.drop_last())) by {
            assert forall|i: int| 0 <= i < s.drop_last().len() implies '0' <= #[trigger] s.drop_last()[i] <= '9' by {
                assert(s.drop_last()[i] == s[i]);
            }
        }
        lemma_digits_value_nonneg(s.drop_last());
        assert('0' <= s[s.len() - 1] <= '9');
    }
}


/// `str::replace` with a non-empty pattern: every non-overlapping occurrence, left to right.
pub open spec fn replace_all(s: Seq<char>, from: Seq<char>, to: Seq<char>) -> Seq<char>
    decreases s.len(),
{
    if from.len() == 0 {
        s
    } else {
        match find(s, from) {
            None => s,
            Some(i) => {
                proof {
                    lemma_find_from_sound(s, from, 0);
                }
                s.subrange(0, i) + to + replace_all(s.subrange(i + from.len(), s.len() as int), from, to)
            },
        }
    }
}

/// Copy of `h` with every occurrence of `from` replaced by `to`.
pub fn replace_vec(h: &[char], from: &str, to: &str) -> (r: Vec<char>)
    requires
        from@.len() > 0,
    ensures
        r@ == replace_all(h@, from@, to@),
{
    let fv = chars_of(from);
    let tv = chars_of(to);
    let mut out: Vec<char> = Vec::new();
    let mut start: usize = 0;
    assert(h@.subrange(0, h.len() as int) =~= h@);
    loop
        invariant
            start <= h.len(),
            fv@ == from@,
            tv@ == to@,
            from@.len() > 0,
            out@ + replace_all(h@.subrange(start as int, h.len() as int), from@, to@)
                == replace_all(h@, from@, to@),
        decreases h.len() - start,
    {
        let rest = slice_of(h, start, h.len());
        match find_exec(rest.as_slice(), fv.as_slice()) {
            None => {
                append_chars(&mut out, rest.as_slice());
                return out;
            },
            Some(i) => {
                proof {
                    lemma_found(rest@, fv@, i as int);
                }
                let ghost out0 = out@;
                let ghost tail = rest@.subrange(i + fv@.len(), rest@.len() as int);
                let pre = slice_of(rest.as_slice(), 0, i);
                append_chars(&mut out, pre.as_slice());
                append_chars(&mut out, tv.as_slice());
                proof {
                    assert(h@.subrange(start + i + fv@.len(), h.len() as int) =~= tail);
                    assert(replace_all(rest@, from@, to@) == pre@ + to@ + replace_all(tail, from@, to@));
                    assert(out@ + replace_all(tail, from@, to@) =~= out0 + (pre@ + to@ + replace_all(tail, from@, to@)));
                }
                start = start + i + fv.len();
            },
        }
    }
}

/// Number of non-overlapping occurrences of a non-empty `n` at or after `from`.
pub open spec fn count_from(h: Seq<char>, n: Seq<char>, from: int) -> nat
    decreases h.len() + 1 - from,
{
    if n.len() == 0 || from < 0 || from > h.len() {
        0
    } else {
        match find_from(h, n, from) {
            None => 0,
            Some(i) => {
                proof {
                    lemma_find_from_sound(h, n, from);
                }
                1 + count_from(h, n, i + n.len())
            },
        }
    }
}

/// `h.matches(n).count()` for a non-empty needle.
pub fn count_matches(h: &[char], n: &[char]) -> (r: usize)
    requires
        n@.len() > 0,
    ensures
        r == count_from(h@, n@, 0),
{
    let mut c: usize = 0;
    let mut from: usize = 0;
    loop
        invariant
            from <= h.len(),
            n@.len() > 0,
            c <= from,
            c + count_from(h@, n@, from as int) == count_from(h@, n@, 0),
        decreases h.len() - from,
    {
        match find_from_exec(h, n, from) {
            None => {
                return c;
            },
            Some(i) => {
                proof {
                    lemma_find_from_sound(h@, n@, from as int);
                }
                c = c + 1;
                from = i + n.len();
                if from > h.len() {
                    return c;
                }
            },
        }
    }
}


/// `str::split` with a non-empty separator: the pieces between occurrences, in order.
pub open spec fn split_on(s: Seq<char>, sep: Seq<char>) -> Seq<Seq<char>>
    decreases s.len(),
{
    if sep.len() == 0 {
        seq![s]
    } else {
        match find(s, sep) {
            None => seq![s],
            Some(i) => {
                proof {
                    lemma_find_from_sound(s, sep, 0);
                }
                seq![s.subrange(0, i)] + split_on(s.subrange(i + sep.len(), s.len() as int), sep)
            },
        }
    }
}

/// The pieces of `h` between occurrences of a non-empty separator.
pub fn split_vec(h: &[char], sep: &str) -> (r: Vec<Vec<char>>)
    requires
        sep@.len() > 0,
    ensures
        vv(r@) == split_on(h@, sep@),
{
    let sv = chars_of(sep);
    let mut out: Vec<Vec<char>> = Vec::new();
    let mut start: usize = 0;
    assert(h@.subrange(0, h.len() as int) =~= h@);
    loop
        invariant
            start <= h.len(),
            sv@ == sep@,
            sep@.len() > 0,
            vv(out@) + split_on(h@.subrange(start as int, h.len() as int), sep@) == split_on(h@, sep@),
        decreases h.len() - start,
    {
        let rest = slice_of(h, start, h.len());
        match find_exec(rest.as_slice(), sv.as_slice()) {
            None => {
                proof {
                    lemma_vv_push(out@, rest);
                }
                out.push(rest);
                return out;
            },
            Some(i) => {
                proof {
                    lemma_found(rest@, sv@, i as int);
                }
                let piece = slice_of(rest.as_slice(), 0, i);
                let ghost out0 = out@;
                let ghost tail = rest@.subrange(i + sv@.len(), rest@.len() as int);
                proof {
                    lemma_vv_push(out@, piece);
                }
                out.push(piece);
                proof {
                    assert(h@.subrange(start + i + sv@.len(), h.len() as int) =~= tail);
                    assert(vv(out@) + split_on(tail, sep@) =~= vv(out0) + (seq![piece@] + split_on(tail, sep@)));
                }
                start = start + i + sv.len();
            },
        }
    }
}

} // verus!
