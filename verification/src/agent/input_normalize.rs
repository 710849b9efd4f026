//! Canonical names of input slots.
//!
//! A slot key such as `" runtime.inputs.token_address "` names the slot
//! `token.address`: prefixes and surrounding blanks are dropped, aliases are
//! resolved, and the dotted segments are trimmed with empty ones removed.
use vstd::prelude::*;
use crate::text::{lemma_split_pieces_clean, lemma_trim_chars, lemma_trim_idempotent, lead_len, lemma_join_ends,
    lemma_join_front, lemma_split_join, lemma_trim_plain, lemma_trimmed_ends, CharClass, chars_of, contains, join, join_strings, split_by, split_chars,
    starts_with, str_eq, str_strip_prefix, strip_prefix, string_from_chars, to_owned_string, trim,
    trim_str, lower, to_ascii_lowercase, str_contains, str_starts_with, ends_with, str_ends_with,
    trim_by, trim_str_by, rsplit_once_spec, str_rsplit_once, strip_suffix, str_strip_suffix};
use crate::json::{JsonValue, JsonView, entries_view, items_view, lemma_object_view, lemma_array_view, pointer_spec,
    obj_get, obj_insert, insert_entry, entry_get};
use crate::agent::candidates::{key_list, sorted_keys, sorted_strings, string_items, strings_of, views};

verus! {

/// First segments that can never name an input slot.
pub open spec fn is_prohibited_prefix(s: Seq<char>) -> bool {
    s == "nodes"@ || s == "facts"@ || s == "agent"@ || s == "runtime"@ || s == "workspace"@ || s
        == "input"@
}

pub fn is_prohibited_prefix_exec(s: &str) -> (r: bool)
    ensures
        r == is_prohibited_prefix(s@),
{
    str_eq(s, "nodes") || str_eq(s, "facts") || str_eq(s, "agent") || str_eq(s, "runtime")
        || str_eq(s, "workspace") || str_eq(s, "input")
}

/// The alias table of slot names.
pub open spec fn alias_of(s: Seq<char>) -> Seq<char> {
    if s == "token_address"@ {
        "token.address"@
    } else if s == "token_decimals"@ {
        "token.decimals"@
    } else if s == "recipient_address"@ {
        "recipient"@
    } else {
        s
    }
}

/// A slot key without its `runtime.inputs.` or `inputs.` prefix, trimmed,
/// and with aliases resolved.
pub open spec fn grounding_key_spec(raw: Seq<char>) -> Seq<char> {
    let t = trim(raw);
    let stripped = match strip_prefix(t, "runtime.inputs."@) {
        Some(rest) => trim(rest),
        None => match strip_prefix(t, "inputs."@) {
            Some(rest) => trim(rest),
            None => t,
        },
    };
    alias_of(stripped)
}

pub fn normalize_grounding_input_key(raw_key: &str) -> (r: String)
    ensures
        r@ == grounding_key_spec(raw_key@),
{
    let trimmed = trim_str(raw_key);
    let stripped = match str_strip_prefix(trimmed.as_str(), "runtime.inputs.") {
        Some(rest) => trim_str(rest.as_str()),
        None => match str_strip_prefix(trimmed.as_str(), "inputs.") {
            Some(rest) => trim_str(rest.as_str()),
            None => trimmed,
        },
    };
    if str_eq(stripped.as_str(), "token_address") {
        return to_owned_string("token.address");
    }
    if str_eq(stripped.as_str(), "token_decimals") {
        return to_owned_string("token.decimals");
    }
    if str_eq(stripped.as_str(), "recipient_address") {
        return to_owned_string("recipient");
    }
    stripped
}

pub fn canonical_input_slot_key(key: &str) -> (r: String)
    ensures
        r@ == grounding_key_spec(key@),
{
    normalize_grounding_input_key(key)
}

/// The trimmed, non-empty parts, in order.
pub open spec fn clean_segments(parts: Seq<Seq<char>>) -> Seq<Seq<char>>
    decreases parts.len(),
{
    if parts.len() == 0 {
        Seq::empty()
    } else {
        let rest = clean_segments(parts.drop_last());
        if trim(parts.last()).len() == 0 {
            rest
        } else {
            rest.push(trim(parts.last()))
        }
    }
}

/// The dotted segments of `s`, trimmed, without empty ones.
pub open spec fn dotted_segments(s: Seq<char>) -> Seq<Seq<char>> {
    clean_segments(split_by(s, CharClass::One('.')))
}

pub open spec fn texts(v: Seq<String>) -> Seq<Seq<char>> {
    v.map_values(|x: String| x@)
}

/// The dotted segments of `s`, trimmed, without empty ones.
pub fn segments_of(s: &str) -> (r: Vec<String>)
    ensures
        texts(r@) == dotted_segments(s@),
{
    let cs = chars_of(s);
    let parts = split_chars(&cs, CharClass::One('.'));
    let ghost ps = split_by(s@, CharClass::One('.'));
    let mut out: Vec<String> = Vec::new();
    let mut i: usize = 0;
    while i < parts.len()
        invariant
            i <= parts@.len(),
            parts@.len() == ps.len(),
            forall|k: int| 0 <= k < parts@.len() ==> #[trigger] parts@[k]@ == ps[k],
            texts(out@) == clean_segments(ps.subrange(0, i as int)),
        decreases parts.len() - i,
    {
        let piece = string_from_chars(&parts[i]);
        let t = trim_str(piece.as_str());
        proof {
            let pre = ps.subrange(0, i + 1);
            assert(pre.drop_last() =~= ps.subrange(0, i as int));
            assert(pre.last() == ps[i as int]);
        }
        if !t.as_str().is_empty() {
            let ghost before = out@;
            out.push(t);
            proof {
                assert(texts(out@) =~= texts(before).push(trim(ps[i as int])));
            }
        }
        i = i + 1;
    }
    assert(ps.subrange(0, ps.len() as int) =~= ps);
    out
}

/// The canonical slot name of a key: `None` when it is empty or its first
/// segment is reserved.
pub open spec fn slot_key_spec(raw: Seq<char>) -> Option<Seq<char>> {
    let canonical = grounding_key_spec(raw);
    let segs = dotted_segments(canonical);
    if canonical.len() == 0 || segs.len() == 0 || is_prohibited_prefix(segs[0]) {
        None
    } else {
        Some(join(segs, "."@))
    }
}

pub fn normalize_input_slot_key(raw_key: &str) -> (r: Option<String>)
    ensures
        match r {
            Some(s) => slot_key_spec(raw_key@) == Some(s@),
            None => slot_key_spec(raw_key@) is None,
        },
{
    let canonical = canonical_input_slot_key(raw_key);
    if canonical.as_str().is_empty() {
        return None;
    }
    let segments = segments_of(canonical.as_str());
    if segments.len() == 0 {
        return None;
    }
    if is_prohibited_prefix_exec(segments[0].as_str()) {
        return None;
    }
    Some(join_strings(&segments, "."))
}

/// A slot name whose segments hold no `/` or `~`.
pub open spec fn input_key_spec(raw: Seq<char>) -> Option<Seq<char>> {
    match slot_key_spec(raw) {
        Some(c) => if exists|i: int|
            0 <= i < dotted_segments(c).len() && (contains(#[trigger] dotted_segments(c)[i], "/"@)
                || contains(dotted_segments(c)[i], "~"@)) {
            None
        } else {
            Some(c)
        },
        None => None,
    }
}

pub fn normalize_input_key(raw_key: &str) -> (r: Option<String>)
    ensures
        match r {
            Some(s) => input_key_spec(raw_key@) == Some(s@),
            None => input_key_spec(raw_key@) is None,
        },
{
    let c = match normalize_input_slot_key(raw_key) {
        Some(c) => c,
        None => return None,
    };
    let segs = segments_of(c.as_str());
    let mut i: usize = 0;
    while i < segs.len()
        invariant
            i <= segs@.len(),
            slot_key_spec(raw_key@) == Some(c@),
            texts(segs@) == dotted_segments(c@),
            forall|k: int|
                0 <= k < i ==> !(contains(#[trigger] dotted_segments(c@)[k], "/"@) || contains(
                    dotted_segments(c@)[k],
                    "~"@,
                )),
        decreases segs.len() - i,
    {
        assert(texts(segs@)[i as int] == segs@[i as int]@);
        if str_contains(segs[i].as_str(), "/") || str_contains(segs[i].as_str(), "~") {
            assert(contains(dotted_segments(c@)[i as int], "/"@) || contains(
                dotted_segments(c@)[i as int],
                "~"@,
            ));
            return None;
        }
        i = i + 1;
    }
    Some(c)
}

/// The canonical reference of an input slot.
pub struct InputRef {
    canonical: String,
}

impl InputRef {
    pub closed spec fn canonical_spec(&self) -> Seq<char> {
        self.canonical@
    }

    /// The reference of `raw_key`'s slot, if the key names one.
    pub fn new(raw_key: &str) -> (r: Option<InputRef>)
        ensures
            match r {
                Some(x) => slot_key_spec(raw_key@) == Some(x.canonical_spec()),
                None => slot_key_spec(raw_key@) is None,
            },
    {
        match normalize_input_slot_key(raw_key) {
            Some(canonical) => Some(InputRef { canonical }),
            None => None,
        }
    }

    pub fn as_str(&self) -> (r: &str)
        ensures
            r@ == self.canonical_spec(),
    {
        self.canonical.as_str()
    }

    /// A reference from text that is already canonical; `None` otherwise.
    pub fn from_canonical(canonical: String) -> (r: Option<InputRef>)
        ensures
            match r {
                Some(x) => x.canonical_spec() == canonical@ && trim(canonical@).len() != 0
                    && input_key_spec(canonical@) == Some(canonical@),
                None => trim(canonical@).len() == 0 || input_key_spec(canonical@) != Some(
                    canonical@,
                ),
            },
    {
        let t = trim_str(canonical.as_str());
        if t.as_str().is_empty() {
            return None;
        }
        match normalize_input_key(canonical.as_str()) {
            Some(n) => {
                if str_eq(n.as_str(), canonical.as_str()) {
                    Some(InputRef { canonical })
                } else {
                    None
                }
            },
            None => None,
        }
    }
}

/// The reference a missing-input message names: the text trimmed of blanks
/// and quoting, the part after its last `=`, without a `runtime.` prefix or
/// a `.value` suffix, with dots trimmed; none when nothing is left.
pub open spec fn missing_ref_source_spec(raw: Seq<char>) -> Option<Seq<char>> {
    let t = trim_by(raw, CharClass::RefPunct);
    let right = match rsplit_once_spec(t, "="@) {
        Some((_, b)) => b,
        None => t,
    };
    let a = match strip_prefix(right, "runtime."@) {
        Some(x) => x,
        None => right,
    };
    let b = match strip_suffix(a, ".value"@) {
        Some(x) => x,
        None => a,
    };
    let n = trim_by(b, CharClass::One('.'));
    if t.len() == 0 || n.len() == 0 {
        None
    } else {
        Some(n)
    }
}

pub fn normalized_missing_ref_source(raw: &str) -> (r: Option<String>)
    ensures
        match r {
            Some(s) => missing_ref_source_spec(raw@) == Some(s@),
            None => missing_ref_source_spec(raw@) is None,
        },
{
    let t = trim_str_by(raw, CharClass::RefPunct);
    if t.as_str().unicode_len() == 0 {
        return None;
    }
    let right = match str_rsplit_once(t.as_str(), "=") {
        Some((_, b)) => b,
        None => t,
    };
    let a = match str_strip_prefix(right.as_str(), "runtime.") {
        Some(x) => x,
        None => right,
    };
    let b = match str_strip_suffix(a.as_str(), ".value") {
        Some(x) => x,
        None => a,
    };
    let n = trim_str_by(b.as_str(), CharClass::One('.'));
    if n.as_str().unicode_len() == 0 {
        return None;
    }
    Some(n)
}


// ---------------------------------------------------------------------------
// Field hints of a missing input
// ---------------------------------------------------------------------------

/// The places in a ref's metadata that list the fields it still misses.
pub open spec fn hint_pointers() -> Seq<Seq<char>> {
    seq![
        "/missing_ref_fields"@,
        "/missing_ref_expansions"@,
        "/required_fields"@,
        "/required_object_fields"@,
        "/missing_fields"@,
        "/missing_object_fields"@,
        "/object_fields"@,
        "/metadata/missing_ref_fields"@,
        "/metadata/missing_ref_expansions"@,
        "/metadata/required_fields"@,
        "/metadata/required_object_fields"@,
        "/metadata/missing_fields"@,
        "/metadata/missing_object_fields"@,
        "/metadata/object_fields"@,
    ]
}

/// The trimmed strings, without the blank ones, in order.
pub open spec fn trimmed_nonblank(xs: Seq<Seq<char>>) -> Seq<Seq<char>>
    decreases xs.len(),
{
    if xs.len() == 0 {
        Seq::empty()
    } else {
        let rest = trimmed_nonblank(xs.drop_last());
        if trim(xs.last()).len() == 0 {
            rest
        } else {
            rest.push(trim(xs.last()))
        }
    }
}

pub proof fn lemma_trimmed_nonblank_concat(a: Seq<Seq<char>>, b: Seq<Seq<char>>)
    ensures
        trimmed_nonblank(a + b) == trimmed_nonblank(a) + trimmed_nonblank(b),
    decreases b.len(),
{
    if b.len() == 0 {
        assert(a + b =~= a);
        assert(trimmed_nonblank(b) =~= Seq::<Seq<char>>::empty());
        assert(trimmed_nonblank(a) + trimmed_nonblank(b) =~= trimmed_nonblank(a));
    } else {
        lemma_trimmed_nonblank_concat(a, b.drop_last());
        assert((a + b).drop_last() =~= a + b.drop_last());
        assert((a + b).last() == b.last());
        if trim(b.last()).len() != 0 {
            assert(trimmed_nonblank(a) + trimmed_nonblank(b) =~= (trimmed_nonblank(a) + trimmed_nonblank(
                b.drop_last(),
            )).push(trim(b.last())));
        }
    }
}

/// The strings of the array at `p`, if there is one.
pub open spec fn array_strings_at(m: JsonView, p: Seq<char>) -> Seq<Seq<char>> {
    match pointer_spec(m, p) {
        Some(JsonView::Array(items)) => string_items(items),
        _ => Seq::empty(),
    }
}

/// The keys of the object at `p`, if there is one.
pub open spec fn object_keys_at(m: JsonView, p: Seq<char>) -> Seq<Seq<char>> {
    match pointer_spec(m, p) {
        Some(JsonView::Object(es)) => key_list(es),
        _ => Seq::empty(),
    }
}

pub open spec fn listed_hints(m: JsonView, ps: Seq<Seq<char>>) -> Seq<Seq<char>>
    decreases ps.len(),
{
    if ps.len() == 0 {
        Seq::empty()
    } else {
        listed_hints(m, ps.drop_last()) + array_strings_at(m, ps.last())
    }
}

/// Every field that a ref's metadata names as missing or required, before
/// trimming: the listed fields, then the schema's properties and required
/// fields, each at the top level and under `metadata`.
pub open spec fn raw_missing_ref_hints(m: JsonView) -> Seq<Seq<char>> {
    listed_hints(m, hint_pointers()) + object_keys_at(m, "/schema/properties"@) + object_keys_at(
        m,
        "/metadata/schema/properties"@,
    ) + array_strings_at(m, "/schema/required"@) + array_strings_at(m, "/metadata/schema/required"@)
}

/// Appends the trimmed non-blank strings of `xs`.
fn push_trimmed(acc: &mut Vec<String>, xs: &Vec<String>)
    ensures
        views(final(acc)@) == views(old(acc)@) + trimmed_nonblank(views(xs@)),
{
    let ghost start = views(acc@);
    let mut i: usize = 0;
    assert(views(xs@).subrange(0, 0) =~= Seq::<Seq<char>>::empty());
    assert(views(acc@) =~= start + trimmed_nonblank(views(xs@).subrange(0, 0)));
    while i < xs.len()
        invariant
            i <= xs@.len(),
            views(acc@) == start + trimmed_nonblank(views(xs@).subrange(0, i as int)),
        decreases xs.len() - i,
    {
        let ghost pre = views(xs@).subrange(0, i + 1);
        assert(pre.drop_last() =~= views(xs@).subrange(0, i as int));
        assert(pre.last() == xs@[i as int]@);
        let t = trim_str(xs[i].as_str());
        if t.as_str().unicode_len() != 0 {
            let ghost before = views(acc@);
            acc.push(t);
            assert(views(acc@) =~= before.push(trim(xs@[i as int]@)));
        }
        i = i + 1;
    }
    assert(views(xs@).subrange(0, xs@.len() as int) =~= views(xs@));
}

/// The strings of the array at `p`.
fn array_strings_of(m: &JsonValue, p: &str) -> (r: Vec<String>)
    ensures
        views(r@) == array_strings_at(m@, p@),
{
    match m.pointer(p) {
        Some(JsonValue::Array(items)) => {
            proof {
                lemma_array_view(*items);
            }
            strings_of(items)
        },
        Some(v) => {
            assert(!(v@ is Array)) by {
                match v {
                    JsonValue::Object(es) => lemma_object_view(*es),
                    _ => {},
                }
            }
            Vec::new()
        },
        None => Vec::new(),
    }
}

/// The keys of the object at `p`.
fn object_keys_of(m: &JsonValue, p: &str) -> (r: Vec<String>)
    ensures
        views(r@) == object_keys_at(m@, p@),
{
    match m.pointer(p) {
        Some(JsonValue::Object(es)) => {
            proof {
                lemma_object_view(*es);
            }
            let mut out: Vec<String> = Vec::new();
            let mut i: usize = 0;
            while i < es.len()
                invariant
                    i <= es@.len(),
                    views(out@) == key_list(entries_view(es@)).subrange(0, i as int),
                decreases es.len() - i,
            {
                let ghost before = views(out@);
                out.push(to_owned_string(es[i].0.as_str()));
                assert(entries_view(es@)[i as int].0 == es@[i as int].0@);
                assert(key_list(entries_view(es@))[i as int] == es@[i as int].0@);
                assert(views(out@) =~= before.push(es@[i as int].0@));
                assert(views(out@) =~= key_list(entries_view(es@)).subrange(0, i + 1));
                i = i + 1;
            }
            assert(key_list(entries_view(es@)).subrange(0, es@.len() as int) =~= key_list(entries_view(es@)));
            out
        },
        Some(v) => {
            assert(!(v@ is Object)) by {
                match v {
                    JsonValue::Array(items) => lemma_array_view(*items),
                    _ => {},
                }
            }
            Vec::new()
        },
        None => Vec::new(),
    }
}

/// The fields that a ref's metadata names as missing or required, trimmed,
/// without blanks, sorted, each once.
pub fn missing_ref_hints_from_metadata(metadata: &JsonValue) -> (r: Vec<String>)
    ensures
        views(r@) == key_list(sorted_keys(trimmed_nonblank(raw_missing_ref_hints(metadata@)))),
{
    let ghost m = metadata@;
    let pointers: Vec<&str> = vec![
        "/missing_ref_fields",
        "/missing_ref_expansions",
        "/required_fields",
        "/required_object_fields",
        "/missing_fields",
        "/missing_object_fields",
        "/object_fields",
        "/metadata/missing_ref_fields",
        "/metadata/missing_ref_expansions",
        "/metadata/required_fields",
        "/metadata/required_object_fields",
        "/metadata/missing_fields",
        "/metadata/missing_object_fields",
        "/metadata/object_fields",
    ];
    assert(pointers@.map_values(|s: &str| s@) =~= hint_pointers());
    let mut acc: Vec<String> = Vec::new();
    let mut i: usize = 0;
    assert(hint_pointers().subrange(0, 0) =~= Seq::<Seq<char>>::empty());
    assert(views(acc@) =~= trimmed_nonblank(listed_hints(m, hint_pointers().subrange(0, 0))));
    while i < pointers.len()
        invariant
            i <= pointers@.len(),
            m == metadata@,
            pointers@.map_values(|s: &str| s@) == hint_pointers(),
            views(acc@) == trimmed_nonblank(listed_hints(m, hint_pointers().subrange(0, i as int))),
        decreases pointers.len() - i,
    {
        let ghost ps = hint_pointers().subrange(0, i + 1);
        assert(ps.drop_last() =~= hint_pointers().subrange(0, i as int));
        assert(ps.last() == pointers@[i as int]@);
        let strs = array_strings_of(metadata, pointers[i]);
        push_trimmed(&mut acc, &strs);
        proof {
            lemma_trimmed_nonblank_concat(
                listed_hints(m, hint_pointers().subrange(0, i as int)),
                array_strings_at(m, pointers@[i as int]@),
            );
        }
        i = i + 1;
    }
    assert(hint_pointers().subrange(0, 14) =~= hint_pointers());
    let ghost l0 = listed_hints(m, hint_pointers());
    let k1 = object_keys_of(metadata, "/schema/properties");
    push_trimmed(&mut acc, &k1);
    let k2 = object_keys_of(metadata, "/metadata/schema/properties");
    push_trimmed(&mut acc, &k2);
    let r1 = array_strings_of(metadata, "/schema/required");
    push_trimmed(&mut acc, &r1);
    let r2 = array_strings_of(metadata, "/metadata/schema/required");
    push_trimmed(&mut acc, &r2);
    proof {
        let a1 = object_keys_at(m, "/schema/properties"@);
        let a2 = object_keys_at(m, "/metadata/schema/properties"@);
        let a3 = array_strings_at(m, "/schema/required"@);
        let a4 = array_strings_at(m, "/metadata/schema/required"@);
        lemma_trimmed_nonblank_concat(l0, a1);
        lemma_trimmed_nonblank_concat(l0 + a1, a2);
        lemma_trimmed_nonblank_concat(l0 + a1 + a2, a3);
        lemma_trimmed_nonblank_concat(l0 + a1 + a2 + a3, a4);
    }
    sorted_strings(&acc)
}


// ---------------------------------------------------------------------------
// Writing an input into a runtime
// ---------------------------------------------------------------------------

/// `v` set at `path` inside the object `es`. A leaf that must hold
/// sub-slots moves under `_value` of a new object; a value set on an object
/// goes to its `_value`.
pub open spec fn set_nested_keep_leaf(es: Seq<(Seq<char>, JsonView)>, path: Seq<Seq<char>>, v: JsonView) -> Seq<
    (Seq<char>, JsonView),
>
    decreases path.len(),
{
    if path.len() == 0 {
        es
    } else if path.len() == 1 {
        match obj_get(es, path[0]) {
            Some(JsonView::Object(c)) => obj_insert(es, path[0], JsonView::Object(obj_insert(c, "_value"@, v))),
            _ => obj_insert(es, path[0], v),
        }
    } else {
        let child = match obj_get(es, path[0]) {
            Some(JsonView::Object(c)) => c,
            Some(other) => obj_insert(Seq::empty(), "_value"@, other),
            None => Seq::empty(),
        };
        obj_insert(es, path[0], JsonView::Object(set_nested_keep_leaf(child, path.drop_first(), v)))
    }
}

fn set_nested_object_value(root: &mut Vec<(String, JsonValue)>, path: &Vec<String>, idx: usize, value: JsonValue)
    requires
        idx <= path@.len(),
    ensures
        entries_view(final(root)@) == set_nested_keep_leaf(
            entries_view(old(root)@),
            texts(path@).subrange(idx as int, path@.len() as int),
            value@,
        ),
    decreases path.len() - idx,
{
    let ghost rest = texts(path@).subrange(idx as int, path@.len() as int);
    if idx == path.len() {
        return;
    }
    assert(rest[0] == path@[idx as int]@);
    let existing: Option<JsonValue> = match entry_get(root, path[idx].as_str()) {
        Some(x) => Some(x.clone_value()),
        None => None,
    };
    if idx + 1 == path.len() {
        match existing {
            Some(JsonValue::Object(c)) => {
                proof {
                    lemma_object_view(c);
                }
                let mut c2 = c;
                insert_entry(&mut c2, to_owned_string("_value"), value);
                proof {
                    lemma_object_view(c2);
                }
                insert_entry(root, to_owned_string(path[idx].as_str()), JsonValue::Object(c2));
            },
            Some(other) => {
                assert(!(other@ is Object)) by {
                    match other {
                        JsonValue::Array(items) => lemma_array_view(items),
                        _ => {},
                    }
                }
                insert_entry(root, to_owned_string(path[idx].as_str()), value);
            },
            None => {
                insert_entry(root, to_owned_string(path[idx].as_str()), value);
            },
        }
        return;
    }
    assert(rest.drop_first() =~= texts(path@).subrange(idx + 1, path@.len() as int));
    let mut child: Vec<(String, JsonValue)> = match existing {
        Some(JsonValue::Object(d)) => {
            proof {
                lemma_object_view(d);
            }
            d
        },
        Some(other) => {
            assert(!(other@ is Object)) by {
                match other {
                    JsonValue::Array(items) => lemma_array_view(items),
                    _ => {},
                }
            }
            let mut d: Vec<(String, JsonValue)> = Vec::new();
            assert(entries_view(d@) =~= Seq::<(Seq<char>, JsonView)>::empty());
            insert_entry(&mut d, to_owned_string("_value"), other);
            d
        },
        None => {
            let d: Vec<(String, JsonValue)> = Vec::new();
            assert(entries_view(d@) =~= Seq::<(Seq<char>, JsonView)>::empty());
            d
        },
    };
    set_nested_object_value(&mut child, path, idx + 1, value);
    proof {
        lemma_object_view(child);
    }
    insert_entry(root, to_owned_string(path[idx].as_str()), JsonValue::Object(child));
}

/// The runtime after writing `v` to the input slot `key`: the runtime and
/// its `inputs` become objects if they are not, and the value lands at the
/// slot's dotted path, unless the slot name is empty.
pub open spec fn runtime_input_spec(rt: JsonView, key: Seq<char>, v: JsonView) -> JsonView {
    let es = match rt {
        JsonView::Object(es) => es,
        _ => Seq::empty(),
    };
    let inputs = match obj_get(es, "inputs"@) {
        Some(JsonView::Object(c)) => c,
        _ => Seq::empty(),
    };
    let segs = dotted_segments(grounding_key_spec(key));
    let updated = if segs.len() == 0 {
        inputs
    } else {
        set_nested_keep_leaf(inputs, segs, v)
    };
    JsonView::Object(obj_insert(es, "inputs"@, JsonView::Object(updated)))
}

/// Writes `value` to the input slot `key` of a runtime.
pub fn set_runtime_input_value(runtime: &mut JsonValue, key: &str, value: JsonValue)
    ensures
        final(runtime)@ == runtime_input_spec(old(runtime)@, key@, value@),
{
    let mut root: Vec<(String, JsonValue)> = match runtime {
        JsonValue::Object(es) => {
            proof {
                lemma_object_view(*es);
            }
            let mut out: Vec<(String, JsonValue)> = Vec::new();
            std::mem::swap(&mut out, es);
            out
        },
        JsonValue::Array(items) => {
            proof {
                lemma_array_view(*items);
            }
            let d: Vec<(String, JsonValue)> = Vec::new();
            assert(entries_view(d@) =~= Seq::<(Seq<char>, JsonView)>::empty());
            d
        },
        _ => {
            let d: Vec<(String, JsonValue)> = Vec::new();
            assert(entries_view(d@) =~= Seq::<(Seq<char>, JsonView)>::empty());
            d
        },
    };
    assert(entries_view(root@) == match old(runtime)@ {
        JsonView::Object(es) => es,
        _ => Seq::<(Seq<char>, JsonView)>::empty(),
    });
    let mut inputs: Vec<(String, JsonValue)> = match entry_get(&root, "inputs") {
        Some(x) => match x.clone_value() {
            JsonValue::Object(d) => {
                proof {
                    lemma_object_view(d);
                }
                d
            },
            other => {
                assert(!(other@ is Object)) by {
                    match other {
                        JsonValue::Array(items) => lemma_array_view(items),
                        _ => {},
                    }
                }
                let d: Vec<(String, JsonValue)> = Vec::new();
                assert(entries_view(d@) =~= Seq::<(Seq<char>, JsonView)>::empty());
                d
            },
        },
        None => {
            let d: Vec<(String, JsonValue)> = Vec::new();
            assert(entries_view(d@) =~= Seq::<(Seq<char>, JsonView)>::empty());
            d
        },
    };
    let canonical = canonical_input_slot_key(key);
    let segments = segments_of(canonical.as_str());
    if segments.len() != 0 {
        assert(texts(segments@).subrange(0, segments@.len() as int) =~= texts(segments@));
        set_nested_object_value(&mut inputs, &segments, 0, value);
    }
    proof {
        lemma_object_view(inputs);
    }
    insert_entry(&mut root, to_owned_string("inputs"), JsonValue::Object(inputs));
    proof {
        lemma_object_view(root);
    }
    *runtime = JsonValue::Object(root);
}


proof fn lemma_clean_segments_shape(parts: Seq<Seq<char>>)
    requires
        forall|k: int, j: int| 0 <= k < parts.len() && 0 <= j < parts[k].len() ==> #[trigger] parts[k][j] != '.',
    ensures
        forall|i: int|
            0 <= i < clean_segments(parts).len() ==> (#[trigger] clean_segments(parts)[i]).len() > 0 && trim(
                clean_segments(parts)[i],
            ) == clean_segments(parts)[i] && forall|j: int|
                0 <= j < clean_segments(parts)[i].len() ==> clean_segments(parts)[i][j] != '.',
    decreases parts.len(),
{
    if parts.len() > 0 {
        let init = parts.drop_last();
        assert forall|k: int, j: int| 0 <= k < init.len() && 0 <= j < init[k].len() implies #[trigger] init[k][j]
            != '.' by {
            assert(init[k] == parts[k]);
        }
        lemma_clean_segments_shape(init);
        let p = parts.last();
        lemma_trim_idempotent(p);
        lemma_trim_chars(p);
        let c = clean_segments(parts);
        if trim(p).len() != 0 {
            assert forall|i: int| 0 <= i < c.len() implies (#[trigger] c[i]).len() > 0 && trim(c[i]) == c[i]
                && forall|j: int| 0 <= j < c[i].len() ==> c[i][j] != '.' by {
                if i == c.len() - 1 {
                    assert(c[i] == trim(p));
                    assert forall|j: int| 0 <= j < c[i].len() implies c[i][j] != '.' by {
                        assert(trim(p)[j] == p[lead_len(p, CharClass::Whitespace) + j]);
                        assert(p == parts[parts.len() - 1]);
                    }
                } else {
                    assert(c[i] == clean_segments(init)[i]);
                }
            }
        } else {
            assert(c == clean_segments(init));
        }
    }
}

/// Every key accepted as an input slot names a canonical slot: the
/// dot-joined segments of its canonical name, at least one, each non-empty,
/// trimmed and without a dot, and the first not a reserved root (`nodes`,
/// `facts`, `agent`, `runtime`, `workspace`, `input`).
pub proof fn lemma_slot_key_shape(raw: Seq<char>)
    requires
        slot_key_spec(raw) is Some,
    ensures
        ({
            let segs = dotted_segments(grounding_key_spec(raw));
            &&& slot_key_spec(raw) == Some(join(segs, "."@))
            &&& segs.len() > 0
            &&& !is_prohibited_prefix(segs[0])
            &&& forall|i: int|
                0 <= i < segs.len() ==> (#[trigger] segs[i]).len() > 0 && trim(segs[i]) == segs[i] && forall|j: int|
                    0 <= j < segs[i].len() ==> segs[i][j] != '.'
        }),
{
    let g = grounding_key_spec(raw);
    let parts = split_by(g, CharClass::One('.'));
    lemma_split_pieces_clean(g, CharClass::One('.'));
    assert forall|k: int, j: int| 0 <= k < parts.len() && 0 <= j < parts[k].len() implies #[trigger] parts[k][j]
        != '.' by {
        assert(!CharClass::One('.').has(parts[k][j]));
    }
    lemma_clean_segments_shape(parts);
}

proof fn lemma_clean_segments_plain(segs: Seq<Seq<char>>)
    requires
        forall|i: int| 0 <= i < segs.len() ==> (#[trigger] segs[i]).len() > 0 && trim(segs[i]) == segs[i],
    ensures
        clean_segments(segs) == segs,
    decreases segs.len(),
{
    if segs.len() > 0 {
        let init = segs.drop_last();
        assert forall|i: int| 0 <= i < init.len() implies (#[trigger] init[i]).len() > 0 && trim(init[i]) == init[i] by {
            assert(init[i] == segs[i]);
        }
        lemma_clean_segments_plain(init);
        assert(segs.last() == segs[segs.len() - 1]);
        assert(init.push(segs.last()) =~= segs);
    }
}

/// The text before the first segment's end is that segment; after it comes
/// a dot when more segments follow.
proof fn lemma_join_head(segs: Seq<Seq<char>>)
    requires
        segs.len() > 0,
    ensures
        join(segs, "."@).len() >= segs[0].len(),
        join(segs, "."@).subrange(0, segs[0].len() as int) == segs[0],
        segs.len() > 1 ==> join(segs, "."@).len() > segs[0].len() && join(segs, "."@)[segs[0].len() as int] == '.',
        segs.len() == 1 ==> join(segs, "."@) == segs[0],
{
    reveal_strlit(".");
    if segs.len() > 1 {
        let rest = segs.drop_first();
        assert(seq![segs[0]] + rest =~= segs);
        lemma_join_front(segs[0], rest, "."@);
        let c = join(segs, "."@);
        assert(c == segs[0] + "."@ + join(rest, "."@));
        assert(c.subrange(0, segs[0].len() as int) =~= segs[0]);
        assert(c[segs[0].len() as int] == '.');
    }
}

/// A canonical slot name reads back as itself: given as a key, it names
/// the same slot, unless it starts with `inputs.` or is one of the alias
/// keys (`token_address`, `token_decimals`, `recipient_address`).
pub proof fn lemma_slot_key_idempotent(raw: Seq<char>)
    requires
        slot_key_spec(raw) is Some,
        !starts_with(slot_key_spec(raw)->0, "inputs."@),
        alias_of(slot_key_spec(raw)->0) == slot_key_spec(raw)->0,
    ensures
        slot_key_spec(slot_key_spec(raw)->0) == slot_key_spec(raw),
{
    reveal_strlit(".");
    lemma_slot_key_shape(raw);
    let segs = dotted_segments(grounding_key_spec(raw));
    let c = join(segs, "."@);
    assert(c == slot_key_spec(raw)->0);
    let s0 = segs[0];
    let sl = segs[segs.len() - 1];
    lemma_join_ends(segs, "."@);
    lemma_trimmed_ends(s0);
    lemma_trimmed_ends(sl);
    lemma_trim_plain(c);
    lemma_join_head(segs);
    if starts_with(c, "runtime.inputs."@) {
        reveal_strlit("runtime.inputs.");
        reveal_strlit("runtime");
        let p = "runtime.inputs."@;
        assert(c.subrange(0, p.len() as int) == p);
        assert(forall|k: int| 0 <= k < p.len() ==> c[k] == #[trigger] p[k]);
        if s0.len() >= 8 {
            assert(c[7] == s0[7]);
            assert(c[7] == p[7]);
            assert(s0[7] != '.');
        } else if s0.len() == 7 {
            assert forall|k: int| 0 <= k < 7 implies s0[k] == #[trigger] "runtime"@[k] by {
                assert(c[k] == s0[k]);
                assert(c[k] == p[k]);
            }
            assert(s0 =~= "runtime"@);
        } else {
            if segs.len() == 1 {
                assert(c.len() == s0.len());
            } else {
                let k = s0.len() as int;
                assert(c[k] == '.');
                assert(c[k] == p[k]);
            }
        }
    }
    assert(strip_prefix(trim(c), "runtime.inputs."@) is None);
    assert(strip_prefix(trim(c), "inputs."@) is None);
    assert(grounding_key_spec(c) == c);
    assert forall|i: int, j: int| 0 <= i < segs.len() && 0 <= j < segs[i].len() implies #[trigger] segs[i][j]
        != '.' by {
    }
    assert("."@ =~= seq!['.']);
    lemma_split_join(segs, '.');
    assert forall|i: int| 0 <= i < segs.len() implies (#[trigger] segs[i]).len() > 0 && trim(segs[i]) == segs[i] by {
    }
    lemma_clean_segments_plain(segs);
    assert(dotted_segments(c) == segs);
}

/// The canonical name of an input reference: not empty; split at its dots,
/// every piece is non-empty and trimmed and the first is not a reserved
/// root (`nodes`, `facts`, `agent`, `runtime`, `workspace`, `input`); and,
/// unless it starts with `inputs.` or is an alias key (`token_address`,
/// `token_decimals`, `recipient_address`), it names the same reference when
/// given as a key again.
pub proof fn lemma_input_ref_canonical_form(raw: Seq<char>)
    requires
        slot_key_spec(raw) is Some,
    ensures
        ({
            let c = slot_key_spec(raw)->0;
            let pieces = split_by(c, CharClass::One('.'));
            &&& c.len() > 0
            &&& pieces.len() > 0
            &&& forall|i: int| 0 <= i < pieces.len() ==> (#[trigger] pieces[i]).len() > 0 && trim(pieces[i]) == pieces[i]
            &&& !is_prohibited_prefix(pieces[0])
            &&& (!starts_with(c, "inputs."@) && c != "token_address"@ && c != "token_decimals"@ && c
                != "recipient_address"@) ==> slot_key_spec(c) == Some(c)
        }),
{
    reveal_strlit(".");
    lemma_slot_key_shape(raw);
    let segs = dotted_segments(grounding_key_spec(raw));
    let c = join(segs, "."@);
    lemma_join_head(segs);
    assert("."@ =~= seq!['.']);
    assert forall|i: int, j: int| 0 <= i < segs.len() && 0 <= j < segs[i].len() implies #[trigger] segs[i][j]
        != '.' by {
    }
    lemma_split_join(segs, '.');
    assert(split_by(c, CharClass::One('.')) == segs);
    if !starts_with(c, "inputs."@) && c != "token_address"@ && c != "token_decimals"@ && c != "recipient_address"@ {
        assert(alias_of(c) == c);
        lemma_slot_key_idempotent(raw);
    }
}
} // verus!
