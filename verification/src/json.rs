//! A JSON document model.
//!
//! `JsonValue` holds a parsed JSON document as plain values.  Objects keep
//! their entries sorted by key with no key twice, the order in which a JSON
//! map without insertion-order preservation walks its keys.  Specifications
//! speak of a value through `JsonView`, its mathematical counterpart.
use vstd::prelude::*;
use crate::text::{seq_lt, lemma_seq_lt_irreflexive, lemma_seq_lt_asymmetric,
    lemma_seq_lt_transitive, lemma_seq_lt_total, str_order, str_eq, to_owned_string, CharClass,
    chars_of, split_by, split_chars, parse_unsigned, parse_unsigned_chars, string_from_chars, push_char};

verus! {

/// A JSON number: a non-negative integer, a negative integer, or any other
/// number kept as its decimal text.
pub enum JsonNumber {
    PosInt(u64),
    NegInt(i64),
    Decimal(String),
}

pub enum JsonValue {
    Null,
    Bool(bool),
    Number(JsonNumber),
    String(String),
    Array(Vec<JsonValue>),
    Object(Vec<(String, JsonValue)>),
}

pub enum NumberView {
    PosInt(u64),
    NegInt(i64),
    Decimal(Seq<char>),
}

pub enum JsonView {
    Null,
    Bool(bool),
    Number(NumberView),
    Str(Seq<char>),
    Array(Seq<JsonView>),
    Object(Seq<(Seq<char>, JsonView)>),
}

impl JsonNumber {
    pub open spec fn view_of(self) -> NumberView {
        match self {
            JsonNumber::PosInt(u) => NumberView::PosInt(u),
            JsonNumber::NegInt(i) => NumberView::NegInt(i),
            JsonNumber::Decimal(s) => NumberView::Decimal(s@),
        }
    }
}

impl JsonValue {
    pub open spec fn view_of(self) -> JsonView
        decreases self,
    {
        match self {
            JsonValue::Null => JsonView::Null,
            JsonValue::Bool(b) => JsonView::Bool(b),
            JsonValue::Number(n) => JsonView::Number(n.view_of()),
            JsonValue::String(s) => JsonView::Str(s@),
            JsonValue::Array(items) => JsonView::Array(
                Seq::new(
                    items@.len(),
                    |i: int|
                        if 0 <= i < items@.len() {
                            items@[i].view_of()
                        } else {
                            JsonView::Null
                        },
                ),
            ),
            JsonValue::Object(entries) => JsonView::Object(
                Seq::new(
                    entries@.len(),
                    |i: int|
                        if 0 <= i < entries@.len() {
                            (entries@[i].0@, entries@[i].1.view_of())
                        } else {
                            (Seq::empty(), JsonView::Null)
                        },
                ),
            ),
        }
    }
}

impl View for JsonValue {
    type V = JsonView;

    open spec fn view(&self) -> JsonView {
        self.view_of()
    }
}

/// The views of a list of entries.
pub open spec fn entries_view(es: Seq<(String, JsonValue)>) -> Seq<(Seq<char>, JsonView)> {
    Seq::new(es.len(), |i: int| (es[i].0@, es[i].1@))
}

/// The views of a list of values.
pub open spec fn items_view(xs: Seq<JsonValue>) -> Seq<JsonView> {
    Seq::new(xs.len(), |i: int| xs[i]@)
}

pub proof fn lemma_object_view(entries: Vec<(String, JsonValue)>)
    ensures
        JsonValue::Object(entries)@ == JsonView::Object(entries_view(entries@)),
{
    let f = |i: int|
        if 0 <= i < entries@.len() {
            (entries@[i].0@, entries@[i].1.view_of())
        } else {
            (Seq::<char>::empty(), JsonView::Null)
        };
    let v = JsonValue::Object(entries).view_of();
    assert(v is Object);
    assert(entries_view(entries@) =~= v->Object_0);
}

pub proof fn lemma_array_view(items: Vec<JsonValue>)
    ensures
        JsonValue::Array(items)@ == JsonView::Array(items_view(items@)),
{
    let f = |i: int|
        if 0 <= i < items@.len() {
            items@[i].view_of()
        } else {
            JsonView::Null
        };
    let v = JsonValue::Array(items).view_of();
    assert(v is Array);
    assert(items_view(items@) =~= v->Array_0);
}

/// The value stored under `key`: that of the first entry with this key.
pub open spec fn obj_get(es: Seq<(Seq<char>, JsonView)>, key: Seq<char>) -> Option<JsonView>
    decreases es.len(),
{
    if es.len() == 0 {
        None
    } else if es[0].0 == key {
        Some(es[0].1)
    } else {
        obj_get(es.drop_first(), key)
    }
}

/// Inserting `key` into an object kept in key order: an entry with the same
/// key has its value replaced; otherwise the entry goes before the first
/// greater key.
pub open spec fn obj_insert(es: Seq<(Seq<char>, JsonView)>, key: Seq<char>, v: JsonView) -> Seq<
    (Seq<char>, JsonView),
>
    decreases es.len(),
{
    if es.len() == 0 {
        seq![(key, v)]
    } else if es[0].0 == key {
        seq![(key, v)] + es.drop_first()
    } else if seq_lt(key, es[0].0) {
        seq![(key, v)] + es
    } else {
        seq![es[0]] + obj_insert(es.drop_first(), key, v)
    }
}

/// Keys strictly increase along the entries.
pub open spec fn obj_sorted(es: Seq<(Seq<char>, JsonView)>) -> bool {
    forall|i: int, j: int| 0 <= i < j < es.len() ==> seq_lt(#[trigger] es[i].0, #[trigger] es[j].0)
}

/// The `u64` a JSON value holds, if it is a non-negative integer.
pub open spec fn view_as_u64(v: JsonView) -> Option<u64> {
    match v {
        JsonView::Number(NumberView::PosInt(u)) => Some(u),
        _ => None,
    }
}

/// `as_u64` of the value stored under `key` in an object; `None` for a
/// missing key or a value that is not an object.
pub open spec fn field_u64(v: JsonView, key: Seq<char>) -> Option<u64> {
    match v {
        JsonView::Object(es) => match obj_get(es, key) {
            Some(x) => view_as_u64(x),
            None => None,
        },
        _ => None,
    }
}

/// The text a JSON value holds, if it is a string.
pub open spec fn view_as_str(v: JsonView) -> Option<Seq<char>> {
    match v {
        JsonView::Str(s) => Some(s),
        _ => None,
    }
}

impl JsonNumber {
    pub fn clone_number(&self) -> (r: JsonNumber)
        ensures
            r.view_of() == self.view_of(),
    {
        match self {
            JsonNumber::PosInt(u) => JsonNumber::PosInt(*u),
            JsonNumber::NegInt(i) => JsonNumber::NegInt(*i),
            JsonNumber::Decimal(s) => JsonNumber::Decimal(to_owned_string(s.as_str())),
        }
    }
}

impl JsonValue {
    /// A deep copy.
    pub fn clone_value(&self) -> (r: JsonValue)
        ensures
            r@ == self@,
        decreases self,
    {
        match self {
            JsonValue::Null => JsonValue::Null,
            JsonValue::Bool(b) => JsonValue::Bool(*b),
            JsonValue::Number(n) => JsonValue::Number(n.clone_number()),
            JsonValue::String(s) => JsonValue::String(to_owned_string(s.as_str())),
            JsonValue::Array(items) => {
                let mut out: Vec<JsonValue> = Vec::new();
                let mut i: usize = 0;
                while i < items.len()
                    invariant
                        *self == JsonValue::Array(*items),
                        i <= items@.len(),
                        out@.len() == i,
                        forall|k: int| 0 <= k < i ==> #[trigger] out@[k]@ == items@[k]@,
                    decreases items.len() - i,
                {
                    proof {
                        assert(decreases_to!(*self => (*self)->Array_0));
                        assert(decreases_to!(*items => items@[i as int]));
                    }
                    let x = items[i].clone_value();
                    out.push(x);
                    i = i + 1;
                }
                proof {
                    lemma_array_view(out);
                    lemma_array_view(*items);
                    assert(items_view(out@) =~= items_view(items@));
                }
                JsonValue::Array(out)
            },
            JsonValue::Object(entries) => {
                let mut out: Vec<(String, JsonValue)> = Vec::new();
                let mut i: usize = 0;
                while i < entries.len()
                    invariant
                        *self == JsonValue::Object(*entries),
                        i <= entries@.len(),
                        out@.len() == i,
                        forall|k: int|
                            0 <= k < i ==> #[trigger] out@[k].0@ == entries@[k].0@ && out@[k].1@
                                == entries@[k].1@,
                    decreases entries.len() - i,
                {
                    let k = to_owned_string(entries[i].0.as_str());
                    proof {
                        assert(decreases_to!(*self => (*self)->Object_0));
                        assert(decreases_to!(*entries => entries@[i as int]));
                        assert(decreases_to!(entries@[i as int] => entries@[i as int].1));
                    }
                    let x = entries[i].1.clone_value();
                    out.push((k, x));
                    i = i + 1;
                }
                proof {
                    lemma_object_view(out);
                    lemma_object_view(*entries);
                    assert(entries_view(out@) =~= entries_view(entries@));
                }
                JsonValue::Object(out)
            },
        }
    }

    /// The value stored under `key`, when `self` is an object.
    pub fn get(&self, key: &str) -> (r: Option<&JsonValue>)
        ensures
            match self@ {
                JsonView::Object(es) => match r {
                    Some(x) => obj_get(es, key@) == Some(x@),
                    None => obj_get(es, key@) is None,
                },
                _ => r is None,
            },
    {
        match self {
            JsonValue::Object(entries) => {
                proof {
                    lemma_object_view(*entries);
                }
                let ghost es = entries_view(entries@);
                let mut i: usize = 0;
                assert(es.subrange(0, es.len() as int) =~= es);
                while i < entries.len()
                    invariant
                        self@ == JsonView::Object(es),
                        i <= entries@.len(),
                        es == entries_view(entries@),
                        obj_get(es, key@) == obj_get(es.subrange(i as int, es.len() as int), key@),
                    decreases entries.len() - i,
                {
                    let ghost rest = es.subrange(i as int, es.len() as int);
                    assert(rest[0] == es[i as int]);
                    assert(rest.drop_first() =~= es.subrange(i + 1, es.len() as int));
                    if str_eq(entries[i].0.as_str(), key) {
                        assert(obj_get(rest, key@) == Some(rest[0].1));
                        assert(es[i as int].1 == entries@[i as int].1@);
                        return Some(&entries[i].1);
                    }
                    i = i + 1;
                }
                assert(es.subrange(i as int, es.len() as int).len() == 0);
                None
            },
            _ => None,
        }
    }

    /// `Value::as_u64`: the integer, if `self` is a non-negative integer.
    pub fn as_u64(&self) -> (r: Option<u64>)
        ensures
            r == view_as_u64(self@),
    {
        match self {
            JsonValue::Number(JsonNumber::PosInt(u)) => Some(*u),
            _ => None,
        }
    }

    /// `Value::as_str`: the text, if `self` is a string.
    pub fn as_str(&self) -> (r: Option<&str>)
        ensures
            match r {
                Some(s) => view_as_str(self@) == Some(s@),
                None => view_as_str(self@) is None,
            },
    {
        match self {
            JsonValue::String(s) => Some(s.as_str()),
            _ => None,
        }
    }

    /// The `u64` stored under `key`, if `self` is an object holding a
    /// non-negative integer there.
    pub fn get_u64(&self, key: &str) -> (r: Option<u64>)
        ensures
            r == field_u64(self@, key@),
    {
        match self.get(key) {
            Some(x) => x.as_u64(),
            None => None,
        }
    }

    /// A JSON string holding `s`.
    pub fn from_text(s: &str) -> (r: JsonValue)
        ensures
            r@ == JsonView::Str(s@),
    {
        JsonValue::String(to_owned_string(s))
    }

    /// An object with no entries.
    pub fn empty_object() -> (r: JsonValue)
        ensures
            r@ == JsonView::Object(Seq::empty()),
    {
        let v: Vec<(String, JsonValue)> = Vec::new();
        proof {
            lemma_object_view(v);
            assert(entries_view(v@) =~= Seq::empty());
        }
        JsonValue::Object(v)
    }

    /// Inserts `key` with `value` when `self` is an object (as a JSON map
    /// does: an existing key gets the new value); other values are left as
    /// they are and `false` is returned.
    pub fn insert(&mut self, key: String, value: JsonValue) -> (ok: bool)
        ensures
            ok == (old(self)@ is Object),
            match old(self)@ {
                JsonView::Object(es) => final(self)@ == JsonView::Object(
                    obj_insert(es, key@, value@),
                ),
                _ => final(self)@ == old(self)@,
            },
    {
        match self {
            JsonValue::Object(entries) => {
                proof {
                    lemma_object_view(*entries);
                }
                insert_entry(entries, key, value);
                proof {
                    lemma_object_view(*entries);
                }
                true
            },
            _ => false,
        }
    }
}

/// Replaces each occurrence of the pair `a b` by `c`, scanning from the left.
pub open spec fn replace_pair(s: Seq<char>, a: char, b: char, c: char) -> Seq<char>
    decreases s.len(),
{
    if s.len() < 2 {
        s
    } else if s[0] == a && s[1] == b {
        seq![c] + replace_pair(s.subrange(2, s.len() as int), a, b, c)
    } else {
        seq![s[0]] + replace_pair(s.drop_first(), a, b, c)
    }
}

/// A pointer token with `~1` read as `/` and then `~0` as `~`.
pub open spec fn unescape_token(t: Seq<char>) -> Seq<char> {
    replace_pair(replace_pair(t, '~', '1', '/'), '~', '0', '~')
}

pub fn replace_pair_chars(s: &Vec<char>, a: char, b: char, c: char) -> (r: Vec<char>)
    ensures
        r@ == replace_pair(s@, a, b, c),
{
    let mut out: Vec<char> = Vec::new();
    let mut i: usize = 0;
    let n = s.len();
    assert(s@.subrange(0, n as int) =~= s@);
    assert(out@ + s@ =~= s@);
    while i < n
        invariant
            i <= n == s@.len(),
            out@ + replace_pair(s@.subrange(i as int, n as int), a, b, c) == replace_pair(s@, a, b, c),
        decreases n - i,
    {
        let ghost rest = s@.subrange(i as int, n as int);
        if i + 1 < n && s[i] == a && s[i + 1] == b {
            assert(rest.subrange(2, rest.len() as int) =~= s@.subrange(i + 2, n as int));
            assert(out@.push(c) + replace_pair(s@.subrange(i + 2, n as int), a, b, c) =~= out@ + (
            seq![c] + replace_pair(s@.subrange(i + 2, n as int), a, b, c)));
            out.push(c);
            i = i + 2;
        } else {
            let x = s[i];
            if i + 1 < n {
                assert(rest.drop_first() =~= s@.subrange(i + 1, n as int));
                assert(out@.push(x) + replace_pair(s@.subrange(i + 1, n as int), a, b, c) =~= out@ + (
                seq![x] + replace_pair(s@.subrange(i + 1, n as int), a, b, c)));
            } else {
                assert(rest =~= seq![x]);
                assert(s@.subrange(i + 1, n as int) =~= Seq::<char>::empty());
                assert(out@.push(x) =~= out@ + seq![x]);
            }
            out.push(x);
            i = i + 1;
        }
    }
    assert(s@.subrange(n as int, n as int) =~= Seq::<char>::empty());
    assert(out@ + Seq::<char>::empty() =~= out@);
    out
}

/// The reference tokens of a JSON pointer; `None` for a pointer that is
/// neither empty nor starts with `/`.
pub open spec fn pointer_tokens(p: Seq<char>) -> Option<Seq<Seq<char>>> {
    if p.len() == 0 {
        Some(Seq::empty())
    } else if p[0] != '/' {
        None
    } else {
        Some(split_by(p.drop_first(), CharClass::One('/')).map_values(|t: Seq<char>| unescape_token(t)))
    }
}

/// An array index token: digits without a sign or a leading zero.
pub open spec fn index_token(t: Seq<char>) -> Option<nat> {
    if t.len() > 0 && t[0] == '+' {
        None
    } else if t.len() > 0 && t[0] == '0' && t.len() != 1 {
        None
    } else {
        parse_unsigned(t, usize::MAX as nat)
    }
}

/// One step of a pointer: an object's member or an array's item.
pub open spec fn pointer_step(v: JsonView, t: Seq<char>) -> Option<JsonView> {
    match v {
        JsonView::Object(es) => obj_get(es, t),
        JsonView::Array(xs) => match index_token(t) {
            Some(i) => if i < xs.len() {
                Some(xs[i as int])
            } else {
                None
            },
            None => None,
        },
        _ => None,
    }
}

pub open spec fn pointer_walk(v: JsonView, ts: Seq<Seq<char>>) -> Option<JsonView>
    decreases ts.len(),
{
    if ts.len() == 0 {
        Some(v)
    } else {
        match pointer_step(v, ts[0]) {
            Some(x) => pointer_walk(x, ts.drop_first()),
            None => None,
        }
    }
}

/// `Value::pointer`: the value a JSON pointer designates.
pub open spec fn pointer_spec(v: JsonView, p: Seq<char>) -> Option<JsonView> {
    match pointer_tokens(p) {
        Some(ts) => pointer_walk(v, ts),
        None => None,
    }
}

/// The tokens of a pointer, unescaped.
pub fn pointer_token_list(path: &str) -> (r: Option<Vec<Vec<char>>>)
    ensures
        match r {
            Some(ts) => pointer_tokens(path@) matches Some(spec_ts) && ts@.len() == spec_ts.len()
                && forall|i: int| 0 <= i < ts@.len() ==> #[trigger] ts@[i]@ == spec_ts[i],
            None => pointer_tokens(path@) is None,
        },
{
    let cs = chars_of(path);
    if cs.len() == 0 {
        return Some(Vec::new());
    }
    if cs[0] != '/' {
        return None;
    }
    let mut rest: Vec<char> = Vec::new();
    let mut i: usize = 1;
    while i < cs.len()
        invariant
            1 <= i <= cs@.len(),
            rest@ == cs@.subrange(1, i as int),
        decreases cs.len() - i,
    {
        rest.push(cs[i]);
        i = i + 1;
    }
    assert(rest@ =~= path@.drop_first());
    let parts = split_chars(&rest, CharClass::One('/'));
    let ghost ps = split_by(path@.drop_first(), CharClass::One('/'));
    let mut out: Vec<Vec<char>> = Vec::new();
    let mut k: usize = 0;
    while k < parts.len()
        invariant
            k <= parts@.len() == ps.len(),
            forall|j: int| 0 <= j < parts@.len() ==> #[trigger] parts@[j]@ == ps[j],
            out@.len() == k,
            forall|j: int| 0 <= j < k ==> #[trigger] out@[j]@ == unescape_token(ps[j]),
        decreases parts.len() - k,
    {
        let once = replace_pair_chars(&parts[k], '~', '1', '/');
        let twice = replace_pair_chars(&once, '~', '0', '~');
        out.push(twice);
        k = k + 1;
    }
    Some(out)
}

fn index_of_token(t: &Vec<char>) -> (r: Option<usize>)
    ensures
        match r {
            Some(i) => index_token(t@) == Some(i as nat),
            None => index_token(t@) is None,
        },
{
    if t.len() > 0 && t[0] == '+' {
        return None;
    }
    if t.len() > 0 && t[0] == '0' && t.len() != 1 {
        return None;
    }
    match parse_unsigned_chars(t, usize::MAX as u64) {
        Some(v) => Some(v as usize),
        None => None,
    }
}

impl JsonValue {
    /// `Value::pointer`: the value at a JSON pointer, if there is one.
    pub fn pointer(&self, path: &str) -> (r: Option<&JsonValue>)
        ensures
            match r {
                Some(x) => pointer_spec(self@, path@) == Some(x@),
                None => pointer_spec(self@, path@) is None,
            },
    {
        let tokens = match pointer_token_list(path) {
            Some(ts) => ts,
            None => return None,
        };
        let ghost ts = pointer_tokens(path@)->0;
        let mut cur: &JsonValue = self;
        let mut k: usize = 0;
        assert(ts.subrange(0, ts.len() as int) =~= ts);
        while k < tokens.len()
            invariant
                k <= tokens@.len() == ts.len(),
                pointer_tokens(path@) == Some(ts),
                forall|j: int| 0 <= j < tokens@.len() ==> #[trigger] tokens@[j]@ == ts[j],
                pointer_walk(self@, ts) == pointer_walk(cur@, ts.subrange(k as int, ts.len() as int)),
            decreases tokens.len() - k,
        {
            let ghost rest = ts.subrange(k as int, ts.len() as int);
            assert(rest[0] == ts[k as int]);
            assert(rest.drop_first() =~= ts.subrange(k + 1, ts.len() as int));
            let tok = string_from_chars(&tokens[k]);
            let next: Option<&JsonValue> = match cur {
                JsonValue::Object(_) => cur.get(tok.as_str()),
                JsonValue::Array(items) => {
                    proof {
                        lemma_array_view(*items);
                    }
                    match index_of_token(&tokens[k]) {
                        Some(i) => if i < items.len() {
                            Some(&items[i])
                        } else {
                            None
                        },
                        None => None,
                    }
                },
                _ => None,
            };
            match next {
                Some(x) => {
                    assert(pointer_step(cur@, ts[k as int]) == Some(x@));
                    cur = x;
                },
                None => {
                    assert(pointer_step(cur@, ts[k as int]) is None);
                    return None;
                },
            }
            k = k + 1;
        }
        assert(ts.subrange(k as int, ts.len() as int).len() == 0);
        Some(cur)
    }
}

/// The position of the first entry with key `key`.
pub open spec fn obj_index(es: Seq<(Seq<char>, JsonView)>, key: Seq<char>) -> Option<int>
    decreases es.len(),
{
    if es.len() == 0 {
        None
    } else if es[0].0 == key {
        Some(0)
    } else {
        match obj_index(es.drop_first(), key) {
            Some(i) => Some(i + 1),
            None => None,
        }
    }
}

/// `v` with the value at the pointer tokens `ts` replaced by `new`; `None`
/// when the pointer designates nothing.
pub open spec fn replace_walk(v: JsonView, ts: Seq<Seq<char>>, new: JsonView) -> Option<JsonView>
    decreases ts.len(),
{
    if ts.len() == 0 {
        Some(new)
    } else {
        match v {
            JsonView::Object(es) => match obj_index(es, ts[0]) {
                Some(i) => if 0 <= i < es.len() {
                    match replace_walk(es[i].1, ts.drop_first(), new) {
                        Some(c) => Some(JsonView::Object(es.update(i, (es[i].0, c)))),
                        None => None,
                    }
                } else {
                    None
                },
                None => None,
            },
            JsonView::Array(xs) => match index_token(ts[0]) {
                Some(i) => if i < xs.len() {
                    match replace_walk(xs[i as int], ts.drop_first(), new) {
                        Some(c) => Some(JsonView::Array(xs.update(i as int, c))),
                        None => None,
                    }
                } else {
                    None
                },
                None => None,
            },
            _ => None,
        }
    }
}

/// Setting through a JSON pointer: the document with the designated value
/// replaced, or `None` when the pointer designates nothing.
pub open spec fn pointer_set_spec(v: JsonView, p: Seq<char>, new: JsonView) -> Option<JsonView> {
    match pointer_tokens(p) {
        Some(ts) => replace_walk(v, ts, new),
        None => None,
    }
}

pub(crate) fn find_entry(entries: &Vec<(String, JsonValue)>, key: &Vec<char>) -> (r: Option<usize>)
    ensures
        match r {
            Some(i) => obj_index(entries_view(entries@), key@) == Some(i as int) && i < entries@.len(),
            None => obj_index(entries_view(entries@), key@) is None,
        },
{
    let ghost es = entries_view(entries@);
    let k = string_from_chars(key);
    let mut i: usize = 0;
    while i < entries.len()
        invariant
            i <= entries@.len(),
            es == entries_view(entries@),
            k@ == key@,
            forall|j: int| 0 <= j < i ==> #[trigger] es[j].0 != key@,
        decreases entries.len() - i,
    {
        if str_eq(entries[i].0.as_str(), k.as_str()) {
            proof {
                lemma_obj_index_first(es, key@, i as int);
            }
            return Some(i);
        }
        i = i + 1;
    }
    proof {
        lemma_obj_index_absent(es, key@);
    }
    None
}

proof fn lemma_obj_index_first(es: Seq<(Seq<char>, JsonView)>, key: Seq<char>, i: int)
    requires
        0 <= i < es.len(),
        es[i].0 == key,
        forall|j: int| 0 <= j < i ==> #[trigger] es[j].0 != key,
    ensures
        obj_index(es, key) == Some(i),
    decreases i,
{
    if i > 0 {
        let rest = es.drop_first();
        assert forall|j: int| 0 <= j < i - 1 implies #[trigger] rest[j].0 != key by {
            assert(rest[j] == es[j + 1]);
        }
        lemma_obj_index_first(rest, key, i - 1);
    }
}

proof fn lemma_obj_index_absent(es: Seq<(Seq<char>, JsonView)>, key: Seq<char>)
    requires
        forall|j: int| 0 <= j < es.len() ==> #[trigger] es[j].0 != key,
    ensures
        obj_index(es, key) is None,
    decreases es.len(),
{
    if es.len() > 0 {
        let rest = es.drop_first();
        assert forall|j: int| 0 <= j < rest.len() implies #[trigger] rest[j].0 != key by {
            assert(rest[j] == es[j + 1]);
        }
        lemma_obj_index_absent(rest, key);
    }
}

/// A copy of `v` with the value at `ts[k..]` replaced by `new`.
fn replace_from(v: &JsonValue, ts: &Vec<Vec<char>>, k: usize, new: JsonValue) -> (r: Option<JsonValue>)
    requires
        k <= ts@.len(),
    ensures
        match r {
            Some(x) => replace_walk(v@, Seq::new((ts@.len() - k) as nat, |j: int| ts@[k + j]@), new@)
                == Some(x@),
            None => replace_walk(v@, Seq::new((ts@.len() - k) as nat, |j: int| ts@[k + j]@), new@)
                is None,
        },
    decreases ts@.len() - k,
{
    let ghost rest = Seq::new((ts@.len() - k) as nat, |j: int| ts@[k + j]@);
    if k == ts.len() {
        return Some(new);
    }
    proof {
        assert(rest[0] == ts@[k as int]@);
        assert(rest.drop_first() =~= Seq::new((ts@.len() - (k + 1)) as nat, |j: int| ts@[k + 1 + j]@));
    }
    match v {
        JsonValue::Object(entries) => {
            proof {
                lemma_object_view(*entries);
            }
            match find_entry(entries, &ts[k]) {
                Some(i) => {
                    match replace_from(&entries[i].1, ts, k + 1, new) {
                        Some(c) => {
                            let mut out: Vec<(String, JsonValue)> = Vec::new();
                            let mut j: usize = 0;
                            while j < entries.len()
                                invariant
                                    j <= entries@.len(),
                                    i < entries@.len(),
                                    out@.len() == j,
                                    forall|x: int|
                                        0 <= x < j && x != i ==> #[trigger] out@[x].0@ == entries@[x].0@ && out@[x].1@
                                            == entries@[x].1@,
                                    j > i ==> out@[i as int].0@ == entries@[i as int].0@,
                                decreases entries.len() - j,
                            {
                                let key = to_owned_string(entries[j].0.as_str());
                                let ghost before = out@;
                                if j == i {
                                    out.push((key, JsonValue::Null));
                                } else {
                                    let cv = entries[j].1.clone_value();
                                    out.push((key, cv));
                                }
                                proof {
                                    assert forall|x: int| 0 <= x < j + 1 && x != i implies #[trigger] out@[x].0@
                                        == entries@[x].0@ && out@[x].1@ == entries@[x].1@ by {
                                        if x < j {
                                            assert(out@[x] == before[x]);
                                        }
                                    }
                                }
                                j = j + 1;
                            }
                            let key_i = to_owned_string(entries[i].0.as_str());
                            out.set(i, (key_i, c));
                            proof {
                                lemma_object_view(out);
                                let es = entries_view(entries@);
                                assert(entries_view(out@) =~= es.update(i as int, (es[i as int].0, x_view(&out@[i as int].1))));
                            }
                            Some(JsonValue::Object(out))
                        },
                        None => None,
                    }
                },
                None => None,
            }
        },
        JsonValue::Array(items) => {
            proof {
                lemma_array_view(*items);
            }
            match index_of_token(&ts[k]) {
                Some(i) => {
                    if i < items.len() {
                        match replace_from(&items[i], ts, k + 1, new) {
                            Some(c) => {
                                let mut out: Vec<JsonValue> = Vec::new();
                                let mut j: usize = 0;
                                while j < items.len()
                                    invariant
                                        j <= items@.len(),
                                        out@.len() == j,
                                        forall|x: int| 0 <= x < j && x != i ==> #[trigger] out@[x]@ == items@[x]@,
                                    decreases items.len() - j,
                                {
                                    if j == i {
                                        out.push(JsonValue::Null);
                                    } else {
                                        out.push(items[j].clone_value());
                                    }
                                    j = j + 1;
                                }
                                out.set(i, c);
                                proof {
                                    lemma_array_view(out);
                                    let xs = items_view(items@);
                                    assert(items_view(out@) =~= xs.update(i as int, out@[i as int]@));
                                }
                                Some(JsonValue::Array(out))
                            },
                            None => None,
                        }
                    } else {
                        None
                    }
                },
                None => None,
            }
        },
        _ => None,
    }
}

pub open spec fn x_view(v: &JsonValue) -> JsonView {
    v@
}

impl JsonValue {
    /// Replaces the value at a JSON pointer; `false`, and no change, when the
    /// pointer designates nothing.
    pub fn set_pointer_value(&mut self, path: &str, value: JsonValue) -> (done: bool)
        ensures
            match pointer_set_spec(old(self)@, path@, value@) {
                Some(v) => done && final(self)@ == v,
                None => !done && final(self)@ == old(self)@,
            },
    {
        let tokens = match pointer_token_list(path) {
            Some(ts) => ts,
            None => return false,
        };
        proof {
            let ts = pointer_tokens(path@)->0;
            assert(Seq::new((tokens@.len() - 0) as nat, |j: int| tokens@[0 + j]@) =~= ts);
        }
        match replace_from(self, &tokens, 0, value) {
            Some(v) => {
                *self = v;
                true
            },
            None => false,
        }
    }
}

// ---------------------------------------------------------------------------
// Length of the compact text form
// ---------------------------------------------------------------------------

/// Characters a string character takes in JSON text: two for the short
/// escapes, six for other control characters, one otherwise.
pub open spec fn char_text_len(c: char) -> nat {
    if c == '"' || c == '\\' || c == '\u{8}' || c == '\u{c}' || c == '\n' || c == '\r' || c == '\t' {
        2
    } else if '\u{1f}' >= c {
        6
    } else {
        1
    }
}

/// Characters of a quoted, escaped JSON string.
pub open spec fn chars_text_len(s: Seq<char>) -> nat
    decreases s.len(),
{
    if s.len() == 0 {
        0
    } else {
        chars_text_len(s.drop_last()) + char_text_len(s.last())
    }
}

pub open spec fn string_text_len(s: Seq<char>) -> nat {
    chars_text_len(s) + 2
}

pub open spec fn number_text_len(n: NumberView) -> nat {
    match n {
        NumberView::PosInt(u) => crate::text::decimal(u as nat).len(),
        NumberView::NegInt(i) => if i < 0 {
            1 + crate::text::decimal((-i) as nat).len()
        } else {
            crate::text::decimal(i as nat).len()
        },
        NumberView::Decimal(t) => t.len(),
    }
}

/// Characters of the compact JSON text of `v` (no spaces, as
/// `serde_json::to_string` writes it).
pub open spec fn text_len(v: JsonView) -> nat
    decreases v,
{
    match v {
        JsonView::Null => 4,
        JsonView::Bool(b) => if b {
            4
        } else {
            5
        },
        JsonView::Number(n) => number_text_len(n),
        JsonView::Str(s) => string_text_len(s),
        JsonView::Array(xs) => 2 + items_text_len(xs),
        JsonView::Object(es) => 2 + entries_text_len(es),
    }
}

/// The items of an array with the commas between them.
pub open spec fn items_text_len(xs: Seq<JsonView>) -> nat
    decreases xs,
{
    if xs.len() == 0 {
        0
    } else {
        items_text_len(xs.drop_last()) + text_len(xs.last()) + if xs.len() > 1 {
            1nat
        } else {
            0nat
        }
    }
}

/// The members of an object (`"key":value`) with the commas between them.
pub open spec fn entries_text_len(es: Seq<(Seq<char>, JsonView)>) -> nat
    decreases es,
{
    if es.len() == 0 {
        0
    } else {
        entries_text_len(es.drop_last()) + string_text_len(es.last().0) + 1 + text_len(es.last().1)
            + if es.len() > 1 {
            1nat
        } else {
            0nat
        }
    }
}

pub open spec fn sat_usize(x: nat) -> nat {
    if x > usize::MAX {
        usize::MAX as nat
    } else {
        x
    }
}

fn add_sat(a: usize, b: usize) -> (r: usize)
    ensures
        r == sat_usize((a + b) as nat),
{
    a.saturating_add(b)
}

proof fn lemma_sat_usize_add(x: nat, y: nat)
    ensures
        sat_usize(sat_usize(x) + y) == sat_usize(x + y),
{
}

fn decimal_len(n: u64) -> (r: usize)
    ensures
        r == sat_usize(crate::text::decimal(n as nat).len()),
    decreases n,
{
    if n < 10 {
        1
    } else {
        let k = decimal_len(n / 10);
        proof {
            lemma_sat_usize_add(crate::text::decimal((n / 10) as nat).len(), 1);
        }
        add_sat(k, 1)
    }
}

fn char_len_exec(c: char) -> (r: usize)
    ensures
        r == char_text_len(c),
{
    if c == '"' || c == '\\' || c == '\u{8}' || c == '\u{c}' || c == '\n' || c == '\r' || c == '\t' {
        2
    } else if '\u{1f}' >= c {
        6
    } else {
        1
    }
}

/// Characters of the JSON text of a string.
pub fn string_text_len_exec(s: &str) -> (r: usize)
    ensures
        r == sat_usize(string_text_len(s@)),
{
    let cs = chars_of(s);
    let mut total: usize = 2;
    let mut i: usize = 0;
    while i < cs.len()
        invariant
            i <= cs@.len(),
            cs@ == s@,
            total == sat_usize(chars_text_len(cs@.subrange(0, i as int)) + 2),
        decreases cs.len() - i,
    {
        proof {
            let pre = cs@.subrange(0, i + 1);
            assert(pre.drop_last() =~= cs@.subrange(0, i as int));
            lemma_sat_usize_add(chars_text_len(cs@.subrange(0, i as int)) + 2, char_text_len(cs@[i as int]));
        }
        total = add_sat(total, char_len_exec(cs[i]));
        i = i + 1;
    }
    assert(cs@.subrange(0, cs@.len() as int) =~= cs@);
    total
}

impl JsonValue {
    /// Characters of the compact JSON text of `self` (saturating at the
    /// largest `usize`).
    pub fn text_len_exec(&self) -> (r: usize)
        ensures
            r == sat_usize(text_len(self@)),
        decreases self,
    {
        match self {
            JsonValue::Null => 4,
            JsonValue::Bool(b) => if *b {
                4
            } else {
                5
            },
            JsonValue::Number(JsonNumber::PosInt(u)) => decimal_len(*u),
            JsonValue::Number(JsonNumber::NegInt(i)) => {
                if *i < 0 {
                    let m: u64 = if *i == i64::MIN {
                        9223372036854775808u64
                    } else {
                        (-*i) as u64
                    };
                    let d = decimal_len(m);
                    proof {
                        lemma_sat_usize_add(crate::text::decimal(m as nat).len(), 1);
                    }
                    add_sat(d, 1)
                } else {
                    decimal_len(*i as u64)
                }
            },
            JsonValue::Number(JsonNumber::Decimal(t)) => {
                let cs = chars_of(t.as_str());
                cs.len()
            },
            JsonValue::String(t) => string_text_len_exec(t.as_str()),
            JsonValue::Array(items) => {
                proof {
                    lemma_array_view(*items);
                }
                let ghost xs = items_view(items@);
                let mut total: usize = 2;
                let mut i: usize = 0;
                while i < items.len()
                    invariant
                        *self == JsonValue::Array(*items),
                        xs == items_view(items@),
                        i <= items@.len(),
                        total == sat_usize(2 + items_text_len(xs.subrange(0, i as int))),
                    decreases items.len() - i,
                {
                    proof {
                        assert(decreases_to!(*self => (*self)->Array_0));
                        assert(decreases_to!(*items => items@[i as int]));
                        let pre = xs.subrange(0, i + 1);
                        assert(pre.drop_last() =~= xs.subrange(0, i as int));
                        assert(pre.last() == items@[i as int]@);
                    }
                    let l = items[i].text_len_exec();
                    let sep: usize = if i > 0 {
                        1
                    } else {
                        0
                    };
                    proof {
                        lemma_sat_usize_add(2 + items_text_len(xs.subrange(0, i as int)), text_len(items@[i as int]@));
                        lemma_sat_usize_add(2 + items_text_len(xs.subrange(0, i as int)) + text_len(items@[i as int]@), sep as nat);
                    }
                    total = add_sat(add_sat(total, l), sep);
                    proof {
                        assert(sat_usize(sat_usize(2 + items_text_len(xs.subrange(0, i as int))) + sat_usize(text_len(items@[i as int]@))) == sat_usize(2 + items_text_len(xs.subrange(0, i as int)) + text_len(items@[i as int]@)));
                    }
                    i = i + 1;
                }
                assert(xs.subrange(0, xs.len() as int) =~= xs);
                total
            },
            JsonValue::Object(entries) => {
                proof {
                    lemma_object_view(*entries);
                }
                let ghost es = entries_view(entries@);
                let mut total: usize = 2;
                let mut i: usize = 0;
                while i < entries.len()
                    invariant
                        *self == JsonValue::Object(*entries),
                        es == entries_view(entries@),
                        i <= entries@.len(),
                        total == sat_usize(2 + entries_text_len(es.subrange(0, i as int))),
                    decreases entries.len() - i,
                {
                    proof {
                        assert(decreases_to!(*self => (*self)->Object_0));
                        assert(decreases_to!(*entries => entries@[i as int]));
                        assert(decreases_to!(entries@[i as int] => entries@[i as int].1));
                        let pre = es.subrange(0, i + 1);
                        assert(pre.drop_last() =~= es.subrange(0, i as int));
                        assert(pre.last() == (entries@[i as int].0@, entries@[i as int].1@));
                    }
                    let kl = string_text_len_exec(entries[i].0.as_str());
                    let vl = entries[i].1.text_len_exec();
                    let sep: usize = if i > 0 {
                        1
                    } else {
                        0
                    };
                    let ghost base = 2 + entries_text_len(es.subrange(0, i as int));
                    let ghost k = string_text_len(entries@[i as int].0@);
                    let ghost v = text_len(entries@[i as int].1@);
                    proof {
                        lemma_sat_usize_add(base, k);
                        lemma_sat_usize_add(base + k, 1);
                        lemma_sat_usize_add(base + k + 1, v);
                        lemma_sat_usize_add(base + k + 1 + v, sep as nat);
                        assert(sat_usize(sat_usize(base) + sat_usize(k)) == sat_usize(base + k));
                        assert(sat_usize(sat_usize(base + k + 1) + sat_usize(v)) == sat_usize(base + k + 1 + v));
                    }
                    total = add_sat(add_sat(add_sat(add_sat(total, kl), 1), vl), sep);
                    i = i + 1;
                }
                assert(es.subrange(0, es.len() as int) =~= es);
                total
            },
        }
    }
}

/// Inserts into a list of entries kept in key order (see `obj_insert`).
pub fn insert_entry(entries: &mut Vec<(String, JsonValue)>, key: String, value: JsonValue)
    ensures
        entries_view(final(entries)@) == obj_insert(entries_view(old(entries)@), key@, value@),
{
    let ghost es = entries_view(entries@);
    let mut i: usize = 0;
    let mut found = false;
    while i < entries.len() && !found
        invariant
            i <= entries@.len(),
            es == entries_view(entries@),
            entries@ == old(entries)@,
            forall|k: int| 0 <= k < i ==> #[trigger] es[k].0 != key@ && !seq_lt(key@, es[k].0),
            found ==> i < es.len() && (es[i as int].0 == key@ || seq_lt(key@, es[i as int].0)),
        decreases (entries.len() - i) * 2 + (if found { 0int } else { 1int }),
    {
        let o = str_order(key.as_str(), entries[i].0.as_str());
        if o <= 0 {
            found = true;
        } else {
            proof {
                lemma_seq_lt_asymmetric(es[i as int].0, key@);
            }
            i = i + 1;
        }
    }
    proof {
        lemma_obj_insert_at(es, key@, value@, i as int);
    }
    if i < entries.len() && str_eq(entries[i].0.as_str(), key.as_str()) {
        entries.set(i, (key, value));
    } else {
        entries.insert(i, (key, value));
    }
    proof {
        let ne = entries_view(entries@);
        let goal = obj_insert(es, key@, value@);
        assert(ne.len() == goal.len());
        assert forall|k: int| 0 <= k < ne.len() implies ne[k] == goal[k] by {
        }
        assert(ne =~= goal);
    }
}

/// Where `obj_insert` puts the new entry: after every entry whose key is
/// smaller, replacing an entry with the same key.
proof fn lemma_obj_insert_at(es: Seq<(Seq<char>, JsonView)>, key: Seq<char>, v: JsonView, i: int)
    requires
        0 <= i <= es.len(),
        forall|k: int| 0 <= k < i ==> #[trigger] es[k].0 != key && !seq_lt(key, es[k].0),
        i < es.len() ==> es[i].0 == key || seq_lt(key, es[i].0),
    ensures
        i < es.len() && es[i].0 == key ==> obj_insert(es, key, v) == es.update(i, (key, v)),
        !(i < es.len() && es[i].0 == key) ==> obj_insert(es, key, v) == es.insert(i, (key, v)),
    decreases i,
{
    if i == 0 {
        if es.len() == 0 {
            assert(es.insert(0, (key, v)) =~= seq![(key, v)]);
        } else if es[0].0 == key {
            assert(seq![(key, v)] + es.drop_first() =~= es.update(0, (key, v)));
        } else {
            assert(seq![(key, v)] + es =~= es.insert(0, (key, v)));
        }
    } else {
        let rest = es.drop_first();
        assert forall|k: int| 0 <= k < i - 1 implies #[trigger] rest[k].0 != key && !seq_lt(
            key,
            rest[k].0,
        ) by {
            assert(rest[k] == es[k + 1]);
        }
        lemma_obj_insert_at(rest, key, v, i - 1);
        assert(es[0].0 != key && !seq_lt(key, es[0].0));
        if i < es.len() && es[i].0 == key {
            assert(seq![es[0]] + rest.update(i - 1, (key, v)) =~= es.update(i, (key, v)));
        } else {
            assert(seq![es[0]] + rest.insert(i - 1, (key, v)) =~= es.insert(i, (key, v)));
        }
    }
}

/// After inserting `key`, a lookup of `key` finds the new value and a lookup
/// of any other key finds what it found before.
pub proof fn lemma_obj_get_insert(es: Seq<(Seq<char>, JsonView)>, key: Seq<char>, v: JsonView, k: Seq<char>)
    ensures
        obj_get(obj_insert(es, key, v), k) == if k == key {
            Some(v)
        } else {
            obj_get(es, k)
        },
    decreases es.len(),
{
    let r = obj_insert(es, key, v);
    if es.len() == 0 {
        assert(r[0] == (key, v));
        assert(r.drop_first() =~= Seq::<(Seq<char>, JsonView)>::empty());
        assert(obj_get(r.drop_first(), k) is None);
    } else if es[0].0 == key {
        assert(r[0] == (key, v));
        assert(r.drop_first() =~= es.drop_first());
        if k != key {
            assert(obj_get(r, k) == obj_get(r.drop_first(), k));
            assert(obj_get(es, k) == obj_get(es.drop_first(), k));
        }
    } else if seq_lt(key, es[0].0) {
        assert(r[0] == (key, v));
        assert(r.drop_first() =~= es);
    } else {
        lemma_obj_get_insert(es.drop_first(), key, v, k);
        assert(r[0] == es[0]);
        assert(r.drop_first() =~= obj_insert(es.drop_first(), key, v));
    }
}

/// Inserting into an object whose keys increase keeps them increasing.
pub proof fn lemma_obj_insert_sorted(es: Seq<(Seq<char>, JsonView)>, key: Seq<char>, v: JsonView)
    requires
        obj_sorted(es),
    ensures
        obj_sorted(obj_insert(es, key, v)),
        obj_get(obj_insert(es, key, v), key) == Some(v),
    decreases es.len(),
{
    let r = obj_insert(es, key, v);
    if es.len() == 0 {
    } else if es[0].0 == key {
        assert forall|i: int, j: int| 0 <= i < j < r.len() implies seq_lt(
            #[trigger] r[i].0,
            #[trigger] r[j].0,
        ) by {
            assert(r[j] == es[j]);
            if i > 0 {
                assert(r[i] == es[i]);
            }
        }
    } else if seq_lt(key, es[0].0) {
        assert forall|i: int, j: int| 0 <= i < j < r.len() implies seq_lt(
            #[trigger] r[i].0,
            #[trigger] r[j].0,
        ) by {
            assert(r[j] == es[j - 1]);
            if i > 0 {
                assert(r[i] == es[i - 1]);
            } else if j - 1 > 0 {
                lemma_seq_lt_transitive(key, es[0].0, es[j - 1].0);
            }
        }
    } else {
        let rest = es.drop_first();
        assert(obj_sorted(rest)) by {
            assert forall|i: int, j: int| 0 <= i < j < rest.len() implies seq_lt(
                #[trigger] rest[i].0,
                #[trigger] rest[j].0,
            ) by {
                assert(rest[i] == es[i + 1] && rest[j] == es[j + 1]);
            }
        }
        lemma_obj_insert_sorted(rest, key, v);
        let t = obj_insert(rest, key, v);
        lemma_seq_lt_total(key, es[0].0);
        lemma_obj_insert_keys(rest, key, v);
        assert forall|i: int, j: int| 0 <= i < j < r.len() implies seq_lt(
            #[trigger] r[i].0,
            #[trigger] r[j].0,
        ) by {
            assert(r[j] == t[j - 1]);
            if i > 0 {
                assert(r[i] == t[i - 1]);
            } else {
                assert(r[0] == es[0]);
                let kj = t[j - 1].0;
                if kj != key {
                    let w = choose|m: int| 0 <= m < rest.len() && rest[m].0 == kj;
                    assert(rest[w] == es[w + 1]);
                }
            }
        }
        assert(r[0].0 != key);
        assert(r.drop_first() =~= t);
    }
}

/// Every key of `obj_insert(es, key, v)` is `key` or a key of `es`.
pub proof fn lemma_obj_insert_keys(es: Seq<(Seq<char>, JsonView)>, key: Seq<char>, v: JsonView)
    ensures
        forall|j: int|
            0 <= j < obj_insert(es, key, v).len() ==> #[trigger] obj_insert(es, key, v)[j].0
                == key || exists|m: int| 0 <= m < es.len() && es[m].0 == obj_insert(
                es,
                key,
                v,
            )[j].0,
    decreases es.len(),
{
    let r = obj_insert(es, key, v);
    if es.len() == 0 {
    } else if es[0].0 == key {
        assert forall|j: int| 0 <= j < r.len() implies #[trigger] r[j].0 == key || exists|m: int|
            0 <= m < es.len() && es[m].0 == r[j].0 by {
            if j > 0 {
                assert(r[j] == es[j]);
            }
        }
    } else if seq_lt(key, es[0].0) {
        assert forall|j: int| 0 <= j < r.len() implies #[trigger] r[j].0 == key || exists|m: int|
            0 <= m < es.len() && es[m].0 == r[j].0 by {
            if j > 0 {
                assert(r[j] == es[j - 1]);
            }
        }
    } else {
        let rest = es.drop_first();
        lemma_obj_insert_keys(rest, key, v);
        let t = obj_insert(rest, key, v);
        assert forall|j: int| 0 <= j < r.len() implies #[trigger] r[j].0 == key || exists|m: int|
            0 <= m < es.len() && es[m].0 == r[j].0 by {
            if j > 0 {
                assert(r[j] == t[j - 1]);
                if t[j - 1].0 != key {
                    let w = choose|m: int| 0 <= m < rest.len() && rest[m].0 == t[j - 1].0;
                    assert(rest[w] == es[w + 1]);
                }
            } else {
                assert(es[0].0 == r[0].0);
            }
        }
    }
}

// ---------------------------------------------------------------------------
// Writing JSON text
// ---------------------------------------------------------------------------

/// A lower-case hexadecimal digit.
pub open spec fn hex_digit(d: nat) -> char {
    if d < 10 {
        crate::text::digit_char(d)
    } else if d == 10 {
        'a'
    } else if d == 11 {
        'b'
    } else if d == 12 {
        'c'
    } else if d == 13 {
        'd'
    } else if d == 14 {
        'e'
    } else {
        'f'
    }
}

/// A character as it appears inside a JSON string: quote, backslash and the
/// control characters escaped, the latter as `\u00xx` unless they have a
/// short escape.
pub open spec fn escape_char(c: char) -> Seq<char> {
    if c == '"' {
        seq!['\\', '"']
    } else if c == '\\' {
        seq!['\\', '\\']
    } else if c == '\u{8}' {
        seq!['\\', 'b']
    } else if c == '\u{c}' {
        seq!['\\', 'f']
    } else if c == '\n' {
        seq!['\\', 'n']
    } else if c == '\r' {
        seq!['\\', 'r']
    } else if c == '\t' {
        seq!['\\', 't']
    } else if '\u{1f}' >= c {
        seq!['\\', 'u', '0', '0', hex_digit((c as nat) / 16), hex_digit((c as nat) % 16)]
    } else {
        seq![c]
    }
}

pub open spec fn escape_chars(s: Seq<char>) -> Seq<char>
    decreases s.len(),
{
    if s.len() == 0 {
        Seq::empty()
    } else {
        escape_chars(s.drop_last()) + escape_char(s.last())
    }
}

/// A JSON string literal.
pub open spec fn string_text(s: Seq<char>) -> Seq<char> {
    seq!['"'] + escape_chars(s) + seq!['"']
}

pub open spec fn number_text(n: NumberView) -> Seq<char> {
    match n {
        NumberView::PosInt(u) => crate::text::decimal(u as nat),
        NumberView::NegInt(i) => if i < 0 {
            seq!['-'] + crate::text::decimal((-i) as nat)
        } else {
            crate::text::decimal(i as nat)
        },
        NumberView::Decimal(t) => t,
    }
}

/// The compact JSON text of `v`, as `serde_json::to_string` writes it.
pub open spec fn json_text(v: JsonView) -> Seq<char>
    decreases v,
{
    match v {
        JsonView::Null => "null"@,
        JsonView::Bool(b) => if b {
            "true"@
        } else {
            "false"@
        },
        JsonView::Number(n) => number_text(n),
        JsonView::Str(s) => string_text(s),
        JsonView::Array(xs) => seq!['['] + items_text(xs) + seq![']'],
        JsonView::Object(es) => seq!['{'] + entries_text(es) + seq!['}'],
    }
}

/// The items of an array, comma-separated.
pub open spec fn items_text(xs: Seq<JsonView>) -> Seq<char>
    decreases xs,
{
    if xs.len() == 0 {
        Seq::empty()
    } else {
        items_text(xs.drop_last()) + (if xs.len() > 1 {
            seq![',']
        } else {
            Seq::empty()
        }) + json_text(xs.last())
    }
}

/// The members of an object, `"key":value`, comma-separated.
pub open spec fn entries_text(es: Seq<(Seq<char>, JsonView)>) -> Seq<char>
    decreases es,
{
    if es.len() == 0 {
        Seq::empty()
    } else {
        entries_text(es.drop_last()) + (if es.len() > 1 {
            seq![',']
        } else {
            Seq::empty()
        }) + string_text(es.last().0) + seq![':'] + json_text(es.last().1)
    }
}

fn hex_digit_exec(d: u32) -> (c: char)
    requires
        d < 16,
    ensures
        c == hex_digit(d as nat),
{
    if d < 10 {
        crate::text::digit_char_exec(d as u64)
    } else if d == 10 {
        'a'
    } else if d == 11 {
        'b'
    } else if d == 12 {
        'c'
    } else if d == 13 {
        'd'
    } else if d == 14 {
        'e'
    } else {
        'f'
    }
}

fn push_escaped(out: &mut String, c: char)
    ensures
        final(out)@ == old(out)@ + escape_char(c),
{
    let ghost start = out@;
    if c == '"' {
        push_char(out, '\\');
        push_char(out, '"');
    } else if c == '\\' {
        push_char(out, '\\');
        push_char(out, '\\');
    } else if c == '\u{8}' {
        push_char(out, '\\');
        push_char(out, 'b');
    } else if c == '\u{c}' {
        push_char(out, '\\');
        push_char(out, 'f');
    } else if c == '\n' {
        push_char(out, '\\');
        push_char(out, 'n');
    } else if c == '\r' {
        push_char(out, '\\');
        push_char(out, 'r');
    } else if c == '\t' {
        push_char(out, '\\');
        push_char(out, 't');
    } else if '\u{1f}' >= c {
        let n = c as u32;
        push_char(out, '\\');
        push_char(out, 'u');
        push_char(out, '0');
        push_char(out, '0');
        push_char(out, hex_digit_exec(n / 16));
        push_char(out, hex_digit_exec(n % 16));
    } else {
        push_char(out, c);
    }
    assert(out@ =~= start + escape_char(c));
}

fn push_string_text(out: &mut String, s: &str)
    ensures
        final(out)@ == old(out)@ + string_text(s@),
{
    let ghost start = out@;
    let cs = chars_of(s);
    push_char(out, '"');
    let mut i: usize = 0;
    while i < cs.len()
        invariant
            i <= cs@.len(),
            cs@ == s@,
            out@ == start + seq!['"'] + escape_chars(cs@.subrange(0, i as int)),
        decreases cs.len() - i,
    {
        let ghost pre = cs@.subrange(0, i + 1);
        assert(pre.drop_last() =~= cs@.subrange(0, i as int));
        push_escaped(out, cs[i]);
        assert(out@ =~= start + seq!['"'] + escape_chars(pre));
        i = i + 1;
    }
    assert(cs@.subrange(0, cs@.len() as int) =~= cs@);
    push_char(out, '"');
    assert(out@ =~= start + string_text(s@));
}

impl JsonValue {
    /// Appends the compact JSON text of `self`.
    pub fn write_text(&self, out: &mut String)
        ensures
            final(out)@ == old(out)@ + json_text(self@),
        decreases self,
    {
        let ghost start = out@;
        match self {
            JsonValue::Null => {
                crate::text::push_str(out, "null");
            },
            JsonValue::Bool(b) => {
                if *b {
                    crate::text::push_str(out, "true");
                } else {
                    crate::text::push_str(out, "false");
                }
            },
            JsonValue::Number(JsonNumber::PosInt(u)) => {
                crate::text::push_decimal(out, *u);
            },
            JsonValue::Number(JsonNumber::NegInt(i)) => {
                if *i < 0 {
                    let m: u64 = if *i == i64::MIN {
                        9223372036854775808u64
                    } else {
                        (-*i) as u64
                    };
                    push_char(out, '-');
                    crate::text::push_decimal(out, m);
                    assert(out@ =~= start + number_text(NumberView::NegInt(*i)));
                } else {
                    crate::text::push_decimal(out, *i as u64);
                }
            },
            JsonValue::Number(JsonNumber::Decimal(t)) => {
                crate::text::push_str(out, t.as_str());
            },
            JsonValue::String(t) => {
                push_string_text(out, t.as_str());
            },
            JsonValue::Array(items) => {
                proof {
                    lemma_array_view(*items);
                }
                let ghost xs = items_view(items@);
                push_char(out, '[');
                let mut i: usize = 0;
                while i < items.len()
                    invariant
                        *self == JsonValue::Array(*items),
                        xs == items_view(items@),
                        i <= items@.len(),
                        out@ == start + seq!['['] + items_text(xs.subrange(0, i as int)),
                    decreases items.len() - i,
                {
                    proof {
                        assert(decreases_to!(*self => (*self)->Array_0));
                        assert(decreases_to!(*items => items@[i as int]));
                        let pre = xs.subrange(0, i + 1);
                        assert(pre.drop_last() =~= xs.subrange(0, i as int));
                        assert(pre.last() == items@[i as int]@);
                    }
                    let ghost before = out@;
                    if i > 0 {
                        push_char(out, ',');
                    }
                    items[i].write_text(out);
                    assert(out@ =~= start + seq!['['] + items_text(xs.subrange(0, i + 1)));
                    i = i + 1;
                }
                assert(xs.subrange(0, xs.len() as int) =~= xs);
                push_char(out, ']');
                assert(out@ =~= start + json_text(self@));
            },
            JsonValue::Object(entries) => {
                proof {
                    lemma_object_view(*entries);
                }
                let ghost es = entries_view(entries@);
                push_char(out, '{');
                let mut i: usize = 0;
                while i < entries.len()
                    invariant
                        *self == JsonValue::Object(*entries),
                        es == entries_view(entries@),
                        i <= entries@.len(),
                        out@ == start + seq!['{'] + entries_text(es.subrange(0, i as int)),
                    decreases entries.len() - i,
                {
                    proof {
                        assert(decreases_to!(*self => (*self)->Object_0));
                        assert(decreases_to!(*entries => entries@[i as int]));
                        assert(decreases_to!(entries@[i as int] => entries@[i as int].1));
                        let pre = es.subrange(0, i + 1);
                        assert(pre.drop_last() =~= es.subrange(0, i as int));
                        assert(pre.last() == (entries@[i as int].0@, entries@[i as int].1@));
                    }
                    if i > 0 {
                        push_char(out, ',');
                    }
                    push_string_text(out, entries[i].0.as_str());
                    push_char(out, ':');
                    entries[i].1.write_text(out);
                    assert(out@ =~= start + seq!['{'] + entries_text(es.subrange(0, i + 1)));
                    i = i + 1;
                }
                assert(es.subrange(0, es.len() as int) =~= es);
                push_char(out, '}');
                assert(out@ =~= start + json_text(self@));
            },
        }
    }

    /// The compact JSON text of `self`.
    pub fn to_text(&self) -> (r: String)
        ensures
            r@ == json_text(self@),
    {
        let mut out = String::new();
        assert(out@ =~= Seq::<char>::empty());
        self.write_text(&mut out);
        assert(out@ =~= json_text(self@));
        out
    }
}

/// The length that `text_len` counts is that of the text `json_text`
/// writes.
pub proof fn lemma_text_len_is_text_length(v: JsonView)
    ensures
        json_text(v).len() == text_len(v),
    decreases v,
{
    match v {
        JsonView::Str(s) => {
            lemma_escape_chars_len(s);
            assert(json_text(v) == string_text(s));
            assert(string_text(s).len() == escape_chars(s).len() + 2);
        },
        JsonView::Array(xs) => {
            lemma_items_text_len(xs);
        },
        JsonView::Object(es) => {
            lemma_entries_text_len(es);
        },
        _ => {
            reveal_strlit("null");
            reveal_strlit("true");
            reveal_strlit("false");
        },
    }
}

proof fn lemma_escape_chars_len(s: Seq<char>)
    ensures
        escape_chars(s).len() == chars_text_len(s),
    decreases s.len(),
{
    if s.len() > 0 {
        lemma_escape_chars_len(s.drop_last());
    }
}

proof fn lemma_items_text_len(xs: Seq<JsonView>)
    ensures
        items_text(xs).len() == items_text_len(xs),
    decreases xs,
{
    if xs.len() > 0 {
        assert(decreases_to!(xs => xs.drop_last())) by {
            assert(xs.drop_last() =~= xs.subrange(0, xs.len() - 1));
        }
        lemma_items_text_len(xs.drop_last());
        lemma_text_len_is_text_length(xs.last());
    }
}

proof fn lemma_entries_text_len(es: Seq<(Seq<char>, JsonView)>)
    ensures
        entries_text(es).len() == entries_text_len(es),
    decreases es,
{
    if es.len() > 0 {
        assert(decreases_to!(es => es.drop_last())) by {
            assert(es.drop_last() =~= es.subrange(0, es.len() - 1));
        }
        assert(decreases_to!(es => es.last()));
        lemma_entries_text_len(es.drop_last());
        lemma_escape_chars_len(es.last().0);
        lemma_text_len_is_text_length(es.last().1);
    }
}


/// JSON strings of the given texts.
pub open spec fn str_items(xs: Seq<Seq<char>>) -> Seq<JsonView> {
    xs.map_values(|k: Seq<char>| JsonView::Str(k))
}

/// A JSON array of the given strings, in order.
pub fn string_array(xs: &Vec<String>) -> (r: JsonValue)
    ensures
        r@ == JsonView::Array(str_items(xs@.map_values(|s: String| s@))),
{
    let ghost target = str_items(xs@.map_values(|s: String| s@));
    let mut items: Vec<JsonValue> = Vec::new();
    let mut j: usize = 0;
    while j < xs.len()
        invariant
            j <= xs@.len(),
            target == str_items(xs@.map_values(|s: String| s@)),
            items_view(items@) == target.subrange(0, j as int),
        decreases xs.len() - j,
    {
        let ghost prev = items_view(items@);
        assert(target[j as int] == JsonView::Str(xs@[j as int]@));
        items.push(JsonValue::String(crate::text::to_owned_string(xs[j].as_str())));
        assert(items_view(items@) =~= prev.push(JsonView::Str(xs@[j as int]@)));
        assert(items_view(items@) =~= target.subrange(0, j + 1));
        j = j + 1;
    }
    proof {
        lemma_array_view(items);
    }
    assert(target.subrange(0, xs@.len() as int) =~= target);
    JsonValue::Array(items)
}

/// A JSON number holding `n`.
pub fn count_value(n: usize) -> (r: JsonValue)
    ensures
        r@ == JsonView::Number(NumberView::PosInt(n as u64)),
{
    JsonValue::Number(JsonNumber::PosInt(n as u64))
}


/// The value under `key` in a list of object entries (the first such).
pub fn entry_get<'a>(entries: &'a Vec<(String, JsonValue)>, key: &str) -> (r: Option<&'a JsonValue>)
    ensures
        match r {
            Some(x) => obj_get(entries_view(entries@), key@) == Some(x@),
            None => obj_get(entries_view(entries@), key@) is None,
        },
{
    let ghost es = entries_view(entries@);
    let mut i: usize = 0;
    assert(es.subrange(0, es.len() as int) =~= es);
    while i < entries.len()
        invariant
            i <= entries@.len(),
            es == entries_view(entries@),
            obj_get(es, key@) == obj_get(es.subrange(i as int, es.len() as int), key@),
        decreases entries.len() - i,
    {
        let ghost rest = es.subrange(i as int, es.len() as int);
        assert(rest[0] == es[i as int]);
        assert(rest.drop_first() =~= es.subrange(i + 1, es.len() as int));
        if str_eq(entries[i].0.as_str(), key) {
            assert(obj_get(rest, key@) == Some(rest[0].1));
            assert(es[i as int].1 == entries@[i as int].1@);
            return Some(&entries[i].1);
        }
        i = i + 1;
    }
    assert(es.subrange(i as int, es.len() as int).len() == 0);
    None
}

impl JsonValue {
    /// Structural equality of two JSON values (`==` of `serde_json::Value`
    /// on objects whose keys are kept in order).
    pub fn same_as(&self, other: &JsonValue) -> (r: bool)
        ensures
            r == (self@ == other@),
        decreases self,
    {
        match (self, other) {
            (JsonValue::Null, JsonValue::Null) => true,
            (JsonValue::Bool(a), JsonValue::Bool(b)) => *a == *b,
            (JsonValue::Number(a), JsonValue::Number(b)) => match (a, b) {
                (JsonNumber::PosInt(x), JsonNumber::PosInt(y)) => *x == *y,
                (JsonNumber::NegInt(x), JsonNumber::NegInt(y)) => *x == *y,
                (JsonNumber::Decimal(x), JsonNumber::Decimal(y)) => str_eq(x.as_str(), y.as_str()),
                _ => false,
            },
            (JsonValue::String(a), JsonValue::String(b)) => str_eq(a.as_str(), b.as_str()),
            (JsonValue::Array(xs), JsonValue::Array(ys)) => {
                proof {
                    lemma_array_view(*xs);
                    lemma_array_view(*ys);
                }
                let ghost xv = items_view(xs@);
                let ghost yv = items_view(ys@);
                if xs.len() != ys.len() {
                    assert(xv.len() != yv.len());
                    return false;
                }
                let mut i: usize = 0;
                while i < xs.len()
                    invariant
                        *self == JsonValue::Array(*xs),
                        *other == JsonValue::Array(*ys),
                        self@ == JsonView::Array(xv),
                        other@ == JsonView::Array(yv),
                        xv == items_view(xs@),
                        yv == items_view(ys@),
                        xs@.len() == ys@.len(),
                        i <= xs@.len(),
                        forall|k: int| 0 <= k < i ==> xv[k] == yv[k],
                    decreases xs.len() - i,
                {
                    proof {
                        assert(decreases_to!(*self => (*self)->Array_0));
                        assert(decreases_to!(*xs => xs@[i as int]));
                    }
                    if !xs[i].same_as(&ys[i]) {
                        assert(xv[i as int] == xs@[i as int]@);
                        assert(yv[i as int] == ys@[i as int]@);
                        assert(xv[i as int] != yv[i as int]);
                        return false;
                    }
                    i = i + 1;
                }
                assert(xv =~= yv);
                true
            },
            (JsonValue::Object(xs), JsonValue::Object(ys)) => {
                proof {
                    lemma_object_view(*xs);
                    lemma_object_view(*ys);
                }
                let ghost xv = entries_view(xs@);
                let ghost yv = entries_view(ys@);
                if xs.len() != ys.len() {
                    assert(xv.len() != yv.len());
                    return false;
                }
                let mut i: usize = 0;
                while i < xs.len()
                    invariant
                        *self == JsonValue::Object(*xs),
                        *other == JsonValue::Object(*ys),
                        self@ == JsonView::Object(xv),
                        other@ == JsonView::Object(yv),
                        xv == entries_view(xs@),
                        yv == entries_view(ys@),
                        xs@.len() == ys@.len(),
                        i <= xs@.len(),
                        forall|k: int| 0 <= k < i ==> xv[k] == yv[k],
                    decreases xs.len() - i,
                {
                    proof {
                        assert(decreases_to!(*self => (*self)->Object_0));
                        assert(decreases_to!(*xs => xs@[i as int]));
                        assert(decreases_to!(xs@[i as int] => xs@[i as int].1));
                    }
                    assert(xv[i as int] == (xs@[i as int].0@, xs@[i as int].1@));
                    assert(yv[i as int] == (ys@[i as int].0@, ys@[i as int].1@));
                    if !str_eq(xs[i].0.as_str(), ys[i].0.as_str()) {
                        assert(xv[i as int].0 != yv[i as int].0);
                        return false;
                    }
                    if !xs[i].1.same_as(&ys[i].1) {
                        assert(xv[i as int].1 != yv[i as int].1);
                        return false;
                    }
                    i = i + 1;
                }
                assert(xv =~= yv);
                true
            },
            _ => false,
        }
    }
}


/// A lookup finds something exactly when some entry has the key.
pub proof fn lemma_obj_get_some(es: Seq<(Seq<char>, JsonView)>, k: Seq<char>)
    ensures
        (obj_get(es, k) is Some) == (exists|i: int| 0 <= i < es.len() && (#[trigger] es[i]).0 == k),
    decreases es.len(),
{
    if es.len() > 0 {
        lemma_obj_get_some(es.drop_first(), k);
        if exists|i: int| 0 <= i < es.len() && (#[trigger] es[i]).0 == k {
            let i = choose|i: int| 0 <= i < es.len() && (#[trigger] es[i]).0 == k;
            if i > 0 && es[0].0 != k {
                assert(es.drop_first()[i - 1] == es[i]);
            }
        }
        if exists|i: int| 0 <= i < es.drop_first().len() && (#[trigger] es.drop_first()[i]).0 == k {
            let i = choose|i: int| 0 <= i < es.drop_first().len() && (#[trigger] es.drop_first()[i]).0 == k;
            assert(es[i + 1] == es.drop_first()[i]);
        }
    }
}

/// The object without its first entry under `key`.
pub open spec fn obj_remove(es: Seq<(Seq<char>, JsonView)>, key: Seq<char>) -> Seq<(Seq<char>, JsonView)>
    decreases es.len(),
{
    if es.len() == 0 {
        es
    } else if es[0].0 == key {
        es.drop_first()
    } else {
        seq![es[0]] + obj_remove(es.drop_first(), key)
    }
}

proof fn lemma_obj_remove_at(es: Seq<(Seq<char>, JsonView)>, key: Seq<char>, i: int)
    requires
        0 <= i < es.len(),
        es[i].0 == key,
        forall|k: int| 0 <= k < i ==> #[trigger] es[k].0 != key,
    ensures
        obj_remove(es, key) == es.remove(i),
        obj_get(es, key) == Some(es[i].1),
    decreases i,
{
    if i > 0 {
        let rest = es.drop_first();
        assert forall|k: int| 0 <= k < i - 1 implies #[trigger] rest[k].0 != key by {
            assert(rest[k] == es[k + 1]);
        }
        lemma_obj_remove_at(rest, key, i - 1);
        assert(es.remove(i) =~= seq![es[0]] + rest.remove(i - 1));
    } else {
        assert(es.remove(0) =~= es.drop_first());
    }
}

proof fn lemma_obj_remove_absent(es: Seq<(Seq<char>, JsonView)>, key: Seq<char>)
    requires
        forall|k: int| 0 <= k < es.len() ==> #[trigger] es[k].0 != key,
    ensures
        obj_remove(es, key) == es,
        obj_get(es, key) is None,
    decreases es.len(),
{
    if es.len() > 0 {
        let rest = es.drop_first();
        assert forall|k: int| 0 <= k < rest.len() implies #[trigger] rest[k].0 != key by {
            assert(rest[k] == es[k + 1]);
        }
        lemma_obj_remove_absent(rest, key);
        assert(seq![es[0]] + rest =~= es);
    }
}

/// Removes the entry under `key`, handing back its value.
pub fn remove_entry(entries: &mut Vec<(String, JsonValue)>, key: &str) -> (r: Option<JsonValue>)
    ensures
        entries_view(final(entries)@) == obj_remove(entries_view(old(entries)@), key@),
        match r {
            Some(v) => obj_get(entries_view(old(entries)@), key@) == Some(v@),
            None => obj_get(entries_view(old(entries)@), key@) is None,
        },
{
    let ghost es = entries_view(entries@);
    let mut i: usize = 0;
    while i < entries.len()
        invariant
            i <= entries@.len(),
            es == entries_view(entries@),
            entries@ == old(entries)@,
            forall|k: int| 0 <= k < i ==> #[trigger] es[k].0 != key@,
        decreases entries.len() - i,
    {
        if str_eq(entries[i].0.as_str(), key) {
            proof {
                lemma_obj_remove_at(es, key@, i as int);
            }
            let (_, v) = entries.remove(i);
            assert(entries_view(entries@) =~= es.remove(i as int));
            return Some(v);
        }
        i = i + 1;
    }
    proof {
        lemma_obj_remove_absent(es, key@);
    }
    None
}

} // verus!
