//! JSON values as the tool-call parsers build and read them: objects keep their members in
//! key order with no key twice, as serde_json's map does.
use vstd::prelude::*;

use crate::text::{
    lower_seq, lower_vec, all_digits, chars_of, decimal, digits_value, lemma_digits_value_nonneg,
    lemma_digits_value_prefix_mono, push_decimal, seq_eq_exec,
};

verus! {

/// Mathematical JSON value.
pub enum Json {
    Null,
    Bool(bool),
    /// A number, by its text.
    Number(Seq<char>),
    Str(Seq<char>),
    Array(Seq<Json>),
    Object(Seq<(Seq<char>, Json)>),
}

/// A JSON value.
#[derive(Debug, PartialEq)]
pub enum JsonValue {
    Null,
    Bool(bool),
    /// A number, held by its text (serde_json's rendering for parsed JSON and integers).
    Number(String),
    Str(String),
    Array(Vec<JsonValue>),
    Object(Vec<(String, JsonValue)>),
}

pub open spec fn json_of(v: JsonValue) -> Json
    decreases v,
{
    match v {
        JsonValue::Null => Json::Null,
        JsonValue::Bool(b) => Json::Bool(b),
        JsonValue::Number(n) => Json::Number(n@),
        JsonValue::Str(s) => Json::Str(s@),
        JsonValue::Array(a) => Json::Array(jsons_of(a@)),
        JsonValue::Object(m) => Json::Object(members_of(m@)),
    }
}

pub open spec fn jsons_of(s: Seq<JsonValue>) -> Seq<Json>
    decreases s,
{
    if s.len() == 0 {
        Seq::empty()
    } else {
        jsons_of(s.drop_last()).push(json_of(s.last()))
    }
}

pub open spec fn members_of(s: Seq<(String, JsonValue)>) -> Seq<(Seq<char>, Json)>
    decreases s,
{
    if s.len() == 0 {
        Seq::empty()
    } else {
        members_of(s.drop_last()).push((s.last().0@, json_of(s.last().1)))
    }
}

impl View for JsonValue {
    type V = Json;

    open spec fn view(&self) -> Json {
        json_of(*self)
    }
}

pub proof fn lemma_jsons_of(s: Seq<JsonValue>)
    ensures
        jsons_of(s).len() == s.len(),
        forall|i: int| 0 <= i < s.len() ==> #[trigger] jsons_of(s)[i] == json_of(s[i]),
    decreases s.len(),
{
    if s.len() > 0 {
        lemma_jsons_of(s.drop_last());
    }
}

pub proof fn lemma_members_of(s: Seq<(String, JsonValue)>)
    ensures
        members_of(s).len() == s.len(),
        forall|i: int|
            0 <= i < s.len() ==> #[trigger] members_of(s)[i] == (s[i].0@, json_of(s[i].1)),
    decreases s.len(),
{
    if s.len() > 0 {
        lemma_members_of(s.drop_last());
    }
}

/// Value of the first member named `k`.
pub open spec fn lookup(m: Seq<(Seq<char>, Json)>, k: Seq<char>) -> Option<Json>
    decreases m.len(),
{
    if m.len() == 0 {
        None
    } else if m[0].0 == k {
        Some(m[0].1)
    } else {
        lookup(m.drop_first(), k)
    }
}

/// `get` on a JSON value: the member named `k` of an object.
pub open spec fn get_key(v: Json, k: Seq<char>) -> Option<Json> {
    match v {
        Json::Object(m) => lookup(m, k),
        _ => None,
    }
}

/// String order of Rust (`<` on `str`): by characters, a proper prefix first.
pub open spec fn key_lt(a: Seq<char>, b: Seq<char>) -> bool
    decreases a.len(),
{
    if b.len() == 0 {
        false
    } else if a.len() == 0 {
        true
    } else if a[0] != b[0] {
        (a[0] as u32) < (b[0] as u32)
    } else {
        key_lt(a.drop_first(), b.drop_first())
    }
}

/// `insert` of serde_json's map: the member replaces one with the same key, or stands
/// before the first member with a greater key.
pub open spec fn insert_member(m: Seq<(Seq<char>, Json)>, k: Seq<char>, v: Json) -> Seq<
    (Seq<char>, Json),
>
    decreases m.len(),
{
    if m.len() == 0 {
        seq![(k, v)]
    } else if m[0].0 == k {
        seq![(k, v)] + m.drop_first()
    } else if key_lt(k, m[0].0) {
        seq![(k, v)] + m
    } else {
        seq![m[0]] + insert_member(m.drop_first(), k, v)
    }
}

/// Members with keys strictly increasing.
pub open spec fn keys_sorted(m: Seq<(Seq<char>, Json)>) -> bool {
    forall|i: int, j: int| 0 <= i < j < m.len() ==> key_lt(#[trigger] m[i].0, #[trigger] m[j].0)
}

/// Character-order comparison of two keys.
pub fn key_lt_exec(a: &[char], b: &[char]) -> (r: bool)
    ensures
        r == key_lt(a@, b@),
{
    let mut i: usize = 0;
    assert(a@.subrange(0, a.len() as int) =~= a@);
    assert(b@.subrange(0, b.len() as int) =~= b@);
    while i < a.len() && i < b.len() && a[i] == b[i]
        invariant
            i <= a.len(),
            i <= b.len(),
            key_lt(a@, b@) == key_lt(a@.subrange(i as int, a.len() as int), b@.subrange(i as int, b.len() as int)),
        decreases a.len() - i,
    {
        assert(a@.subrange(i as int, a.len() as int).drop_first() =~= a@.subrange(i + 1, a.len() as int));
        assert(b@.subrange(i as int, b.len() as int).drop_first() =~= b@.subrange(i + 1, b.len() as int));
        i = i + 1;
    }
    if i >= b.len() {
        false
    } else if i >= a.len() {
        true
    } else {
        (a[i] as u32) < (b[i] as u32)
    }
}

impl JsonValue {
    /// An empty object.
    pub fn empty_object() -> (r: JsonValue)
        ensures
            r@ == Json::Object(Seq::empty()),
    {
        let m: Vec<(String, JsonValue)> = Vec::new();
        proof {
            assert(members_of(m@) =~= Seq::<(Seq<char>, Json)>::empty());
        }
        JsonValue::Object(m)
    }

    /// A string value.
    pub fn string(s: &str) -> (r: JsonValue)
        ensures
            r@ == Json::Str(s@),
    {
        JsonValue::Str(s.to_string())
    }

    /// Whether this is an array (`is_array`).
    pub fn is_array(&self) -> (r: bool)
        ensures
            r == (self@ is Array),
    {
        match self {
            JsonValue::Array(_) => true,
            _ => false,
        }
    }

    /// The member named `key` of an object; `None` for other values (`get` with a key).
    pub fn get(&self, key: &str) -> (r: Option<&JsonValue>)
        ensures
            r matches Some(x) ==> get_key(self@, key@) == Some(x@),
            r is None ==> get_key(self@, key@) is None,
    {
        match self {
            JsonValue::Object(m) => {
                let k = chars_of(key);
                proof {
                    lemma_members_of(m@);
                }
                let mut i: usize = 0;
                assert(members_of(m@).subrange(0, m.len() as int) =~= members_of(m@));
                while i < m.len()
                    invariant
                        i <= m.len(),
                        k@ == key@,
                        self@ == Json::Object(members_of(m@)),
                        members_of(m@).len() == m@.len(),
                        forall|j: int|
                            0 <= j < m@.len() ==> #[trigger] members_of(m@)[j] == (
                                m@[j].0@,
                                json_of(m@[j].1),
                            ),
                        lookup(members_of(m@), k@) == lookup(
                            members_of(m@).subrange(i as int, m.len() as int),
                            k@,
                        ),
                    decreases m.len() - i,
                {
                    let mk = chars_of(m[i].0.as_str());
                    let ghost rest = members_of(m@).subrange(i as int, m.len() as int);
                    assert(rest[0] == members_of(m@)[i as int]);
                    if seq_eq_exec(mk.as_slice(), k.as_slice()) {
                        return Some(&m[i].1);
                    }
                    assert(rest.drop_first() =~= members_of(m@).subrange(i + 1, m.len() as int));
                    i = i + 1;
                }
                None
            },
            _ => None,
        }
    }

    /// The text of a string value (`as_str`).
    pub fn as_str(&self) -> (r: Option<&str>)
        ensures
            r matches Some(s) ==> self@ == Json::Str(s@),
            r is None ==> !(self@ is Str),
    {
        match self {
            JsonValue::Str(s) => Some(s.as_str()),
            _ => None,
        }
    }

    /// The elements of an array (`as_array`).
    pub fn as_array(&self) -> (r: Option<&Vec<JsonValue>>)
        ensures
            r matches Some(a) ==> self@ == Json::Array(jsons_of(a@)),
            r is None ==> !(self@ is Array),
    {
        match self {
            JsonValue::Array(a) => Some(a),
            _ => None,
        }
    }
}


impl JsonValue {
    /// A copy of the whole value.
    pub fn deep_clone(&self) -> (r: JsonValue)
        ensures
            r@ == self@,
        decreases self,
    {
        match self {
            JsonValue::Null => JsonValue::Null,
            JsonValue::Bool(b) => JsonValue::Bool(*b),
            JsonValue::Number(n) => JsonValue::Number(n.clone()),
            JsonValue::Str(s) => JsonValue::Str(s.clone()),
            JsonValue::Array(a) => {
                let mut out: Vec<JsonValue> = Vec::new();
                let mut i: usize = 0;
                proof {
                    lemma_jsons_of(a@);
                }
                while i < a.len()
                    invariant
                        *self == JsonValue::Array(*a),
                        i <= a.len(),
                        jsons_of(a@).len() == a@.len(),
                        forall|j: int| 0 <= j < a@.len() ==> #[trigger] jsons_of(a@)[j] == json_of(a@[j]),
                        jsons_of(out@) =~= jsons_of(a@).subrange(0, i as int),
                    decreases a.len() - i,
                {
                    proof {
                        let ghost e = a@[i as int];
                        assert(decreases_to!(*self => (*self)->Array_0));
                        assert(decreases_to!(*a => a@));
                        assert(decreases_to!(a@ => e));
                        assert(decreases_to!(*self => e));
                    }
                    let x = a[i].deep_clone();
                    let ghost o0 = out@;
                    out.push(x);
                    proof {
                        lemma_jsons_of(o0);
                        lemma_jsons_of(out@);
                        assert(out@.drop_last() == o0);
                    }
                    i = i + 1;
                }
                proof {
                    assert(jsons_of(a@).subrange(0, a.len() as int) =~= jsons_of(a@));
                }
                JsonValue::Array(out)
            },
            JsonValue::Object(m) => {
                let mut out: Vec<(String, JsonValue)> = Vec::new();
                let mut i: usize = 0;
                proof {
                    lemma_members_of(m@);
                }
                while i < m.len()
                    invariant
                        *self == JsonValue::Object(*m),
                        i <= m.len(),
                        members_of(m@).len() == m@.len(),
                        forall|j: int|
                            0 <= j < m@.len() ==> #[trigger] members_of(m@)[j] == (
                                m@[j].0@,
                                json_of(m@[j].1),
                            ),
                        members_of(out@) =~= members_of(m@).subrange(0, i as int),
                    decreases m.len() - i,
                {
                    proof {
                        let ghost e = m@[i as int];
                        assert(decreases_to!(*self => (*self)->Object_0));
                        assert(decreases_to!(*m => m@));
                        assert(decreases_to!(m@ => e));
                        assert(decreases_to!(e => e.1));
                        assert(decreases_to!(*self => e.1));
                    }
                    let x = m[i].1.deep_clone();
                    let k = m[i].0.clone();
                    let ghost o0 = out@;
                    out.push((k, x));
                    proof {
                        lemma_members_of(o0);
                        lemma_members_of(out@);
                        assert(out@.drop_last() == o0);
                    }
                    i = i + 1;
                }
                proof {
                    assert(members_of(m@).subrange(0, m.len() as int) =~= members_of(m@));
                }
                JsonValue::Object(out)
            },
        }
    }
}

/// Whether two values are equal (as values: same variants, texts, elements and members).
pub fn json_eq(a: &JsonValue, b: &JsonValue) -> (r: bool)
    ensures
        r == (a@ == b@),
    decreases a,
{
    match (a, b) {
        (JsonValue::Null, JsonValue::Null) => true,
        (JsonValue::Bool(x), JsonValue::Bool(y)) => *x == *y,
        (JsonValue::Number(x), JsonValue::Number(y)) => crate::text::str_eq(x.as_str(), y.as_str()),
        (JsonValue::Str(x), JsonValue::Str(y)) => crate::text::str_eq(x.as_str(), y.as_str()),
        (JsonValue::Array(x), JsonValue::Array(y)) => {
            proof {
                lemma_jsons_of(x@);
                lemma_jsons_of(y@);
            }
            if x.len() != y.len() {
                return false;
            }
            let mut i: usize = 0;
            while i < x.len()
                invariant
                    *a == JsonValue::Array(*x),
                    *b == JsonValue::Array(*y),
                    i <= x.len(),
                    x.len() == y.len(),
                    jsons_of(x@).len() == x@.len(),
                    jsons_of(y@).len() == y@.len(),
                    forall|j: int| 0 <= j < x@.len() ==> #[trigger] jsons_of(x@)[j] == json_of(x@[j]),
                    forall|j: int| 0 <= j < y@.len() ==> #[trigger] jsons_of(y@)[j] == json_of(y@[j]),
                    forall|j: int| 0 <= j < i ==> json_of(x@[j]) == json_of(y@[j]),
                decreases x.len() - i,
            {
                proof {
                    let ghost e = x@[i as int];
                    assert(decreases_to!(*a => (*a)->Array_0));
                    assert(decreases_to!(*x => x@));
                    assert(decreases_to!(x@ => e));
                    assert(decreases_to!(*a => e));
                }
                if !json_eq(&x[i], &y[i]) {
                    assert(jsons_of(x@)[i as int] != jsons_of(y@)[i as int]);
                    return false;
                }
                i = i + 1;
            }
            assert(jsons_of(x@) =~= jsons_of(y@));
            true
        },
        (JsonValue::Object(x), JsonValue::Object(y)) => {
            proof {
                lemma_members_of(x@);
                lemma_members_of(y@);
            }
            if x.len() != y.len() {
                return false;
            }
            let mut i: usize = 0;
            while i < x.len()
                invariant
                    *a == JsonValue::Object(*x),
                    *b == JsonValue::Object(*y),
                    i <= x.len(),
                    x.len() == y.len(),
                    members_of(x@).len() == x@.len(),
                    members_of(y@).len() == y@.len(),
                    forall|j: int|
                        0 <= j < x@.len() ==> #[trigger] members_of(x@)[j] == (
                            x@[j].0@,
                            json_of(x@[j].1),
                        ),
                    forall|j: int|
                        0 <= j < y@.len() ==> #[trigger] members_of(y@)[j] == (
                            y@[j].0@,
                            json_of(y@[j].1),
                        ),
                    forall|j: int| 0 <= j < i ==> members_of(x@)[j] == members_of(y@)[j],
                decreases x.len() - i,
            {
                let ghost mx = members_of(x@)[i as int];
                let ghost my = members_of(y@)[i as int];
                if !crate::text::str_eq(x[i].0.as_str(), y[i].0.as_str()) {
                    assert(mx.0 != my.0);
                    return false;
                }
                if !json_eq(&x[i].1, &y[i].1) {
                    assert(mx.1 != my.1);
                    return false;
                }
                i = i + 1;
            }
            assert(members_of(x@) =~= members_of(y@));
            true
        },
        _ => false,
    }
}

/// Inserts a member into an object's member list (`Map::insert`).
pub fn insert_member_exec(m: &mut Vec<(String, JsonValue)>, key: String, value: JsonValue)
    ensures
        members_of(final(m)@) == insert_member(members_of(old(m)@), key@, value@),
{
    let k = chars_of(key.as_str());
    proof {
        lemma_members_of(m@);
    }
    let ghost mv = members_of(m@);
    let ghost vv = value@;
    let mut i: usize = 0;
    let mut same = false;
    assert(mv.subrange(0, 0) + mv.subrange(0, mv.len() as int) =~= mv);
    while i < m.len()
        invariant_except_break
            insert_member(mv, k@, vv) == mv.subrange(0, i as int) + insert_member(
                mv.subrange(i as int, mv.len() as int),
                k@,
                vv,
            ),
            !same,
        invariant
            i <= m.len(),
            mv == members_of(m@),
            mv.len() == m@.len(),
            forall|j: int| 0 <= j < m@.len() ==> #[trigger] mv[j] == (m@[j].0@, json_of(m@[j].1)),
            k@ == key@,
        ensures
            i < m.len() ==> insert_member(mv, k@, vv) == mv.subrange(0, i as int) + (if same {
                seq![(k@, vv)] + mv.subrange(i + 1, mv.len() as int)
            } else {
                seq![(k@, vv)] + mv.subrange(i as int, mv.len() as int)
            }),
            i == m.len() ==> insert_member(mv, k@, vv) == mv + seq![(k@, vv)],
            same ==> i < m.len(),
        decreases m.len() - i,
    {
        let mk = chars_of(m[i].0.as_str());
        let ghost rest = mv.subrange(i as int, mv.len() as int);
        assert(rest[0] == mv[i as int]);
        assert(rest.drop_first() =~= mv.subrange(i + 1, mv.len() as int));
        if seq_eq_exec(mk.as_slice(), k.as_slice()) {
            same = true;
            break;
        }
        if key_lt_exec(k.as_slice(), mk.as_slice()) {
            break;
        }
        assert(mv.subrange(0, i as int) + (seq![rest[0]] + insert_member(rest.drop_first(), k@, vv))
            =~= mv.subrange(0, i + 1) + insert_member(rest.drop_first(), k@, vv));
        i = i + 1;
        proof {
            if i == m.len() {
                assert(mv.subrange(i as int, mv.len() as int) =~= Seq::<(Seq<char>, Json)>::empty());
                assert(mv.subrange(0, i as int) =~= mv);
            }
        }
    }
    if i == 0 && m.len() == 0 {
        assert(mv =~= Seq::<(Seq<char>, Json)>::empty());
    }
    if same {
        m.set(i, (key, value));
        proof {
            lemma_members_of(m@);
            assert(members_of(m@) =~= mv.subrange(0, i as int) + (seq![(k@, vv)] + mv.subrange(i + 1, mv.len() as int)));
        }
    } else if i < m.len() {
        m.insert(i, (key, value));
        proof {
            lemma_members_of(m@);
            assert(members_of(m@) =~= mv.subrange(0, i as int) + (seq![(k@, vv)] + mv.subrange(i as int, mv.len() as int)));
        }
    } else {
        m.push((key, value));
        proof {
            lemma_members_of(m@);
            assert(members_of(m@) =~= mv + seq![(k@, vv)]);
        }
    }
}


/// Decimal text of an integer, with a minus sign when negative (`to_string`).
pub open spec fn int_text(n: int) -> Seq<char> {
    if n < 0 {
        seq!['-'] + decimal((-n) as nat)
    } else {
        decimal(n as nat)
    }
}

/// `str::parse::<i64>`: an optional sign, then one or more ASCII digits, within range.
pub open spec fn i64_literal(s: Seq<char>) -> Option<int> {
    let neg = s.len() > 0 && s[0] == '-';
    let d = if s.len() > 0 && (s[0] == '-' || s[0] == '+') {
        s.drop_first()
    } else {
        s
    };
    let v = if neg {
        -digits_value(d)
    } else {
        digits_value(d)
    };
    if d.len() > 0 && all_digits(d) && i64::MIN <= v <= i64::MAX {
        Some(v)
    } else {
        None
    }
}

/// Parses an `i64` literal.
pub fn parse_i64_chars(s: &[char]) -> (r: Option<i64>)
    ensures
        r matches Some(n) ==> i64_literal(s@) == Some(n as int),
        r is None ==> i64_literal(s@) is None,
{
    let neg = s.len() > 0 && s[0] == '-';
    let start: usize = if s.len() > 0 && (s[0] == '-' || s[0] == '+') {
        1
    } else {
        0
    };
    let ghost d = if s@.len() > 0 && (s@[0] == '-' || s@[0] == '+') {
        s@.drop_first()
    } else {
        s@
    };
    assert(d =~= s@.subrange(start as int, s.len() as int));
    if start >= s.len() {
        return None;
    }
    let mut v: u128 = 0;
    let mut i = start;
    while i < s.len()
        invariant
            start <= i <= s.len(),
            d =~= s@.subrange(start as int, s.len() as int),
            d == (if s@.len() > 0 && (s@[0] == '-' || s@[0] == '+') {
                s@.drop_first()
            } else {
                s@
            }),
            all_digits(s@.subrange(start as int, i as int)),
            v == digits_value(s@.subrange(start as int, i as int)),
            v <= 9223372036854775808u128,
        decreases s.len() - i,
    {
        let c = s[i];
        assert(s@.subrange(start as int, i + 1).drop_last() =~= s@.subrange(start as int, i as int));
        if c < '0' || c > '9' {
            assert(!all_digits(d)) by {
                assert(d[i - start] == c);
            }
            return None;
        }
        let dv = (c as u32 - 48) as u128;
        v = v * 10 + dv;
        if v > 9223372036854775808u128 {
            proof {
                if all_digits(d) {
                    lemma_digits_value_prefix_mono(d, (i - start + 1) as int);
                    assert(d.subrange(0, (i - start + 1) as int) =~= s@.subrange(start as int, i + 1));
                }
            }
            return None;
        }
        i = i + 1;
    }
    assert(s@.subrange(start as int, s.len() as int) =~= d);
    if neg {
        if v == 9223372036854775808u128 {
            Some(-9223372036854775807i64 - 1)
        } else {
            let w = v as i64;
            Some(-w)
        }
    } else {
        if v > 9223372036854775807u128 {
            None
        } else {
            Some(v as i64)
        }
    }
}

/// Appends the decimal text of an `i64`.
pub fn push_int_text(out: &mut Vec<char>, n: i64)
    ensures
        final(out)@ == old(out)@ + int_text(n as int),
{
    if n < 0 {
        out.push('-');
        let m: u64 = if n == -9223372036854775807i64 - 1 {
            9223372036854775808u64
        } else {
            let p = -n;
            p as u64
        };
        let ghost o1 = out@;
        push_decimal(out, m);
        assert(out@ =~= old(out)@ + (seq!['-'] + decimal(m as nat)));
    } else {
        push_decimal(out, n as u64);
    }
}

pub open spec fn is_digit(c: char) -> bool {
    '0' <= c <= '9'
}

/// Number of ASCII digits in a row from `from`.
pub open spec fn digit_run(s: Seq<char>, from: int) -> int
    decreases s.len() - from,
{
    if from < 0 || from >= s.len() || !is_digit(s[from]) {
        0
    } else {
        1 + digit_run(s, from + 1)
    }
}

/// Position after an optional `+` or `-` at `at`.
pub open spec fn after_sign(s: Seq<char>, at: int) -> int {
    if 0 <= at < s.len() && (s[at] == '+' || s[at] == '-') {
        at + 1
    } else {
        at
    }
}

/// A decimal literal that `str::parse::<f64>` accepts as a finite-looking number: optional
/// sign, digits with an optional fraction (digits on at least one side of the point), and an
/// optional exponent (`e` or `E`, optional sign, digits).
pub open spec fn float_literal(s: Seq<char>) -> bool {
    let a = after_sign(s, 0);
    let i = a + digit_run(s, a);
    let frac = if i < s.len() && s[i] == '.' {
        digit_run(s, i + 1)
    } else {
        0
    };
    let j = if i < s.len() && s[i] == '.' {
        i + 1 + frac
    } else {
        i
    };
    let b = after_sign(s, j + 1);
    &&& (i - a > 0 || frac > 0)
    &&& (j == s.len() || (j < s.len() && (s[j] == 'e' || s[j] == 'E') && digit_run(s, b) > 0
        && b + digit_run(s, b) == s.len()))
}

pub proof fn lemma_digit_run_bounds(s: Seq<char>, from: int)
    ensures
        0 <= digit_run(s, from),
        0 <= from ==> from + digit_run(s, from) <= s.len() || digit_run(s, from) == 0,
    decreases s.len() - from,
{
    if 0 <= from < s.len() && is_digit(s[from]) {
        lemma_digit_run_bounds(s, from + 1);
    }
}

/// Counts digits in a row from `from`.
fn digit_run_exec(s: &[char], from: usize) -> (r: usize)
    ensures
        r == digit_run(s@, from as int),
        from + r <= s.len() || r == 0,
{
    let mut i = from;
    while i < s.len() && '0' <= s[i] && s[i] <= '9'
        invariant
            from <= i,
            i <= s.len() || i == from,
            digit_run(s@, from as int) == (i - from) + digit_run(s@, i as int),
        decreases s.len() - i,
    {
        i = i + 1;
    }
    proof {
        lemma_digit_run_bounds(s@, from as int);
    }
    i - from
}

/// Whether the text is a decimal float literal (see `float_literal`).
pub fn is_float_literal(s: &[char]) -> (r: bool)
    ensures
        r == float_literal(s@),
{
    let a: usize = if s.len() > 0 && (s[0] == '+' || s[0] == '-') {
        1
    } else {
        0
    };
    let intd = digit_run_exec(s, a);
    let i = a + intd;
    let (frac, j) = if i < s.len() && s[i] == '.' {
        let f = digit_run_exec(s, i + 1);
        (f, i + 1 + f)
    } else {
        (0, i)
    };
    if !(intd > 0 || frac > 0) {
        return false;
    }
    if j == s.len() {
        return true;
    }
    if j > s.len() || !(s[j] == 'e' || s[j] == 'E') {
        return false;
    }
    let b: usize = if j + 1 < s.len() && (s[j + 1] == '+' || s[j + 1] == '-') {
        j + 2
    } else {
        j + 1
    };
    let e = digit_run_exec(s, b);
    e > 0 && b + e == s.len()
}


/// The infinity and not-a-number words that `str::parse::<f64>` also accepts (any ASCII
/// case, optional sign); serde_json has no number for them.
pub open spec fn float_special(s: Seq<char>) -> bool {
    let t = lower_seq(s.subrange(after_sign(s, 0), s.len() as int));
    t == "inf"@ || t == "infinity"@ || t == "nan"@
}

/// Whether the text is one of the float words of `float_special`.
pub fn is_float_special(s: &[char]) -> (r: bool)
    ensures
        r == float_special(s@),
{
    let a: usize = if s.len() > 0 && (s[0] == '+' || s[0] == '-') {
        1
    } else {
        0
    };
    let mut t: Vec<char> = Vec::new();
    let mut i = a;
    while i < s.len()
        invariant
            a <= i <= s.len(),
            t@ == s@.subrange(a as int, i as int),
        decreases s.len() - i,
    {
        t.push(s[i]);
        assert(t@ =~= s@.subrange(a as int, i + 1));
        i = i + 1;
    }
    let l = lower_vec(t.as_slice());
    crate::text::seq_eq_exec(l.as_slice(), chars_of("inf").as_slice())
        || crate::text::seq_eq_exec(l.as_slice(), chars_of("infinity").as_slice())
        || crate::text::seq_eq_exec(l.as_slice(), chars_of("nan").as_slice())
}

/// `as_i64`: the integer of an integral number that fits in `i64`.
pub open spec fn json_i64(v: Json) -> Option<int> {
    match v {
        Json::Number(t) => i64_literal(t),
        _ => None,
    }
}

impl JsonValue {
    /// The integer an integral number holds when it fits in `i64` (`as_i64`).
    pub fn as_i64(&self) -> (r: Option<i64>)
        ensures
            r matches Some(n) ==> json_i64(self@) == Some(n as int),
            r is None ==> json_i64(self@) is None,
    {
        match self {
            JsonValue::Number(t) => {
                let c = chars_of(t.as_str());
                parse_i64_chars(c.as_slice())
            },
            _ => None,
        }
    }
}

/// Digits without leading zeros; a lone `0` when nothing else is left.
pub open spec fn without_leading_zeros(d: Seq<char>) -> Seq<char>
    decreases d.len(),
{
    if d.len() == 0 {
        seq!['0']
    } else if d[0] == '0' && d.len() > 1 {
        without_leading_zeros(d.drop_first())
    } else {
        d
    }
}

/// A float literal (see `float_literal`) in JSON's number grammar, with the same value:
/// no `+` sign, no leading zeros in the integer part (`0` when it is empty), at least one
/// digit after a decimal point; the exponent is kept.
pub open spec fn json_number_text(s: Seq<char>) -> Seq<char> {
    let a = after_sign(s, 0);
    let i = a + digit_run(s, a);
    let sign = if a == 1 && s[0] == '-' { seq!['-'] } else { Seq::empty() };
    let int_part = without_leading_zeros(s.subrange(a, i));
    if i < s.len() && s[i] == '.' {
        let frac = digit_run(s, i + 1);
        let j = i + 1 + frac;
        let fd = if frac == 0 { seq!['0'] } else { s.subrange(i + 1, j) };
        sign + int_part + seq!['.'] + fd + s.subrange(j, s.len() as int)
    } else {
        sign + int_part + s.subrange(i, s.len() as int)
    }
}

fn without_leading_zeros_vec(d: &[char]) -> (r: Vec<char>)
    ensures
        r@ == without_leading_zeros(d@),
{
    if d.len() == 0 {
        return vec!['0'];
    }
    let mut k: usize = 0;
    assert(d@.subrange(0, d.len() as int) =~= d@);
    while k + 1 < d.len() && d[k] == '0'
        invariant
            k < d.len(),
            without_leading_zeros(d@) == without_leading_zeros(d@.subrange(k as int, d.len() as int)),
        decreases d.len() - k,
    {
        assert(d@.subrange(k as int, d.len() as int).drop_first() =~= d@.subrange(k + 1, d.len() as int));
        k = k + 1;
    }
    let r = crate::text::slice_of(d, k, d.len());
    r
}

/// Rewrites a float literal into JSON's number grammar (see `json_number_text`).
pub fn json_number_text_exec(s: &[char]) -> (r: Vec<char>)
    requires
        float_literal(s@),
    ensures
        r@ == json_number_text(s@),
{
    proof {
        lemma_digit_run_bounds(s@, after_sign(s@, 0));
    }
    let a: usize = if s.len() > 0 && (s[0] == '+' || s[0] == '-') {
        1
    } else {
        0
    };
    let intd = digit_run_exec(s, a);
    let i = a + intd;
    let mut out: Vec<char> = Vec::new();
    if a == 1 && s[0] == '-' {
        out.push('-');
    }
    let digits = crate::text::slice_of(s, a, i);
    let ip = without_leading_zeros_vec(digits.as_slice());
    crate::text::append_chars(&mut out, ip.as_slice());
    if i < s.len() && s[i] == '.' {
        proof {
            lemma_digit_run_bounds(s@, i + 1);
        }
        let f = digit_run_exec(s, i + 1);
        let j = i + 1 + f;
        out.push('.');
        if f == 0 {
            out.push('0');
        } else {
            let fd = crate::text::slice_of(s, i + 1, j);
            crate::text::append_chars(&mut out, fd.as_slice());
        }
        let rest = crate::text::slice_of(s, j, s.len());
        crate::text::append_chars(&mut out, rest.as_slice());
    } else {
        let rest = crate::text::slice_of(s, i, s.len());
        crate::text::append_chars(&mut out, rest.as_slice());
    }
    proof {
        let ghost sign = if a == 1 && s@[0] == '-' { seq!['-'] } else { Seq::<char>::empty() };
        assert(out@ =~= json_number_text(s@));
    }
    out
}

/// What `serde_json::from_str::<Value>` yields for a text, as a mathematical value.
pub uninterp spec fn json_parse(text: Seq<char>) -> Option<Json>;

#[verifier::external_type_specification]
#[verifier::external_body]
pub struct ExSerdeJsonValue(serde_json::Value);

/// Converts a parsed serde_json value, member for member and element for element.
#[verifier::external_body]
fn from_serde(v: serde_json::Value) -> JsonValue {
    match v {
        serde_json::Value::Null => JsonValue::Null,
        serde_json::Value::Bool(b) => JsonValue::Bool(b),
        serde_json::Value::Number(n) => JsonValue::Number(n.to_string()),
        serde_json::Value::String(s) => JsonValue::Str(s),
        serde_json::Value::Array(a) => JsonValue::Array(a.into_iter().map(from_serde).collect()),
        serde_json::Value::Object(o) => JsonValue::Object(
            o.into_iter().map(|(k, x)| (k, from_serde(x))).collect(),
        ),
    }
}

/// `serde_json::from_str::<serde_json::Value>`: the value a JSON text denotes, or `None`
/// when serde_json rejects it. The result is named by `json_parse`; nothing more of the
/// JSON grammar is stated here.
#[verifier::external_body]
pub(crate) fn parse_json(text: &str) -> (r: Option<JsonValue>)
    ensures
        r matches Some(v) ==> json_parse(text@) == Some(v@),
        r is None ==> json_parse(text@) is None,
{
    serde_json::from_str::<serde_json::Value>(text).ok().map(from_serde)
}

} // verus!
