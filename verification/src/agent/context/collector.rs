//! Ordering and naming the input slots that the planner context shows.
use vstd::prelude::*;
use crate::agent::candidates::{field, field_str, key_list, sorted_keys, sorted_strings, views};
use crate::agent::input_store::{get_projected_spec, lists_in_order, projected_model, InputStore, InputStoreEntry};
use crate::json::{entry_get, insert_entry, obj_get, obj_sorted, JsonNumber, JsonValue, JsonView, NumberView, field_u64, view_as_str, count_value, entries_view, items_view, json_text, lemma_array_view,
    lemma_object_view, obj_insert, pointer_spec, str_items, string_array};
use crate::text::{
    contains, ends_with, rsplit_once_spec, seq_lt, starts_with, str_contains, str_ends_with, str_eq, str_order,
    str_rsplit_once, str_starts_with, str_strip_prefix, strip_prefix, to_ascii_lowercase, to_owned_string, trim,
    trim_str, lower, concat,
};

verus! {

/// Slot names shown first.
pub open spec fn priority_slot(s: Seq<char>) -> bool {
    s == "owner"@ || s == "wallet.default"@ || s == "chain"@ || s == "chain_id"@ || s == "chain_ref"@ || s
        == "network"@ || s == "recipient"@ || s == "to"@ || s == "from"@ || s == "sender"@ || s == "token"@ || s
        == "token.address"@ || s == "asset"@ || s == "asset.address"@ || s == "amount"@ || s == "amount.human"@
        || s == "amount.atomic"@
}

/// The priority slot names, in their listed order.
pub open spec fn priority_slots() -> Seq<Seq<char>> {
    seq![
        "owner"@, "wallet.default"@, "chain"@, "chain_id"@, "chain_ref"@, "network"@, "recipient"@, "to"@,
        "from"@, "sender"@, "token"@, "token.address"@, "asset"@, "asset.address"@, "amount"@, "amount.human"@,
        "amount.atomic"@,
    ]
}

pub open spec fn matches_priority(lowered: Seq<char>) -> bool {
    exists|i: int|
        0 <= i < priority_slots().len() && (lowered == #[trigger] priority_slots()[i] || ends_with(
            lowered,
            priority_slots()[i],
        ))
}

/// Words that mark a slot as an account, asset, amount or chain.
pub open spec fn names_key_entity(lowered: Seq<char>) -> bool {
    contains(lowered, "owner"@) || contains(lowered, "wallet"@) || contains(lowered, "recipient"@) || contains(
        lowered,
        "token"@,
    ) || contains(lowered, "asset"@) || contains(lowered, "amount"@) || contains(lowered, "chain"@)
}

/// The rank of a slot: 0 for a priority slot (or one ending in a priority
/// name), 1 for one naming an account, asset, amount or chain, 2 for others.
pub open spec fn slot_rank(slot: Seq<char>) -> u8 {
    let lowered = lower(slot);
    if matches_priority(lowered) {
        0
    } else if names_key_entity(lowered) {
        1
    } else {
        2
    }
}

fn priority_slot_at(i: usize) -> (r: &'static str)
    requires
        i < 17,
    ensures
        r@ == priority_slots()[i as int],
{
    if i == 0 {
        "owner"
    } else if i == 1 {
        "wallet.default"
    } else if i == 2 {
        "chain"
    } else if i == 3 {
        "chain_id"
    } else if i == 4 {
        "chain_ref"
    } else if i == 5 {
        "network"
    } else if i == 6 {
        "recipient"
    } else if i == 7 {
        "to"
    } else if i == 8 {
        "from"
    } else if i == 9 {
        "sender"
    } else if i == 10 {
        "token"
    } else if i == 11 {
        "token.address"
    } else if i == 12 {
        "asset"
    } else if i == 13 {
        "asset.address"
    } else if i == 14 {
        "amount"
    } else if i == 15 {
        "amount.human"
    } else {
        "amount.atomic"
    }
}

pub fn slot_sort_key(slot: &str) -> (r: u8)
    ensures
        r == slot_rank(slot@),
{
    let lowered = to_ascii_lowercase(slot);
    let l = lowered.as_str();
    let mut i: usize = 0;
    while i < 17
        invariant
            i <= 17,
            l@ == lower(slot@),
            forall|k: int|
                0 <= k < i ==> !(l@ == #[trigger] priority_slots()[k] || ends_with(l@, priority_slots()[k])),
        decreases 17 - i,
    {
        let p = priority_slot_at(i);
        if str_eq(l, p) || str_ends_with(l, p) {
            return 0;
        }
        i = i + 1;
    }
    if str_contains(l, "owner") || str_contains(l, "wallet") || str_contains(l, "recipient") || str_contains(l, "token")
        || str_contains(l, "asset") || str_contains(l, "amount") || str_contains(l, "chain") {
        return 1;
    }
    2
}

/// Slot `a` is shown before slot `b`: by rank, then by text.
pub open spec fn slot_before(a: Seq<char>, b: Seq<char>) -> bool {
    slot_rank(a) < slot_rank(b) || (slot_rank(a) == slot_rank(b) && seq_lt(a, b))
}

/// Inserting `x` into a list ordered by `slot_before`, once.
pub open spec fn ranked_insert(s: Seq<Seq<char>>, x: Seq<char>) -> Seq<Seq<char>>
    decreases s.len(),
{
    if s.len() == 0 {
        seq![x]
    } else if s[0] == x {
        s
    } else if slot_before(x, s[0]) {
        seq![x] + s
    } else {
        seq![s[0]] + ranked_insert(s.drop_first(), x)
    }
}

/// The slots ordered by `slot_before`, each once.
pub open spec fn ranked(xs: Seq<Seq<char>>) -> Seq<Seq<char>>
    decreases xs.len(),
{
    if xs.len() == 0 {
        Seq::empty()
    } else {
        ranked_insert(ranked(xs.drop_last()), xs.last())
    }
}

fn slot_before_exec(a: &str, b: &str) -> (r: bool)
    ensures
        r == slot_before(a@, b@),
{
    let ra = slot_sort_key(a);
    let rb = slot_sort_key(b);
    ra < rb || (ra == rb && str_order(a, b) < 0)
}

fn insert_ranked(v: &mut Vec<String>, x: String)
    ensures
        views(final(v)@) == ranked_insert(views(old(v)@), x@),
{
    let ghost s = views(v@);
    let mut i: usize = 0;
    assert(s.subrange(0, s.len() as int) =~= s);
    assert(s.subrange(0, 0) + ranked_insert(s, x@) =~= ranked_insert(s, x@));
    while i < v.len() && !str_eq(v[i].as_str(), x.as_str()) && !slot_before_exec(x.as_str(), v[i].as_str())
        invariant
            i <= v@.len(),
            s == views(v@),
            v@ == old(v)@,
            s.subrange(0, i as int) + ranked_insert(s.subrange(i as int, s.len() as int), x@) == ranked_insert(s, x@),
        decreases v.len() - i,
    {
        proof {
            let rest = s.subrange(i as int, s.len() as int);
            assert(rest[0] == s[i as int]);
            assert(rest.drop_first() =~= s.subrange(i + 1, s.len() as int));
            assert(s.subrange(0, i + 1) + ranked_insert(s.subrange(i + 1, s.len() as int), x@) =~= s.subrange(
                0,
                i as int,
            ) + ranked_insert(rest, x@));
        }
        i = i + 1;
    }
    let ghost rest = s.subrange(i as int, s.len() as int);
    if i < v.len() && str_eq(v[i].as_str(), x.as_str()) {
        assert(rest[0] == x@);
        assert(s.subrange(0, i as int) + rest =~= s);
    } else {
        if i < v.len() {
            assert(rest[0] == s[i as int]);
        }
        v.insert(i, x);
        assert(views(v@) =~= s.subrange(0, i as int) + (seq![x@] + rest));
    }
}

/// The slot keys ordered by rank and then text, each once, at most
/// `max_entries` of them (at least one kept).
pub fn prioritize_keys(keys: Vec<String>, max_entries: usize) -> (r: Vec<String>)
    ensures
        views(r@) == ({
            let all = ranked(views(keys@));
            let n = if max_entries < 1 {
                1
            } else {
                max_entries as int
            };
            if all.len() > n {
                all.subrange(0, n)
            } else {
                all
            }
        }),
{
    let ghost kv = views(keys@);
    let mut out: Vec<String> = Vec::new();
    let mut i: usize = 0;
    assert(views(out@) =~= Seq::<Seq<char>>::empty());
    while i < keys.len()
        invariant
            i <= keys@.len(),
            kv == views(keys@),
            views(out@) == ranked(kv.subrange(0, i as int)),
        decreases keys.len() - i,
    {
        let ghost pre = kv.subrange(0, i + 1);
        assert(pre.drop_last() =~= kv.subrange(0, i as int));
        assert(pre.last() == keys@[i as int]@);
        insert_ranked(&mut out, to_owned_string(keys[i].as_str()));
        i = i + 1;
    }
    assert(kv.subrange(0, kv.len() as int) =~= kv);
    let n: usize = if max_entries < 1 {
        1
    } else {
        max_entries
    };
    out.truncate(n);
    proof {
        let all = ranked(kv);
        assert(views(out@) =~= if all.len() > n as int {
            all.subrange(0, n as int)
        } else {
            all
        });
    }
    out
}

/// The step id a node id suggests: the part after its last `__`, else
/// after its last `/`, when that part is not blank; else the trimmed id;
/// `step` for a blank id.
pub open spec fn step_hint_spec(node_id: Seq<char>) -> Seq<char> {
    let t = trim(node_id);
    if t.len() == 0 {
        "step"@
    } else {
        let by_sep = |p: Seq<char>|
            match rsplit_once_spec(t, p) {
                Some((_, b)) => if trim(b).len() > 0 {
                    Some(trim(b))
                } else {
                    None
                },
                None => None,
            };
        match by_sep("__"@) {
            Some(x) => x,
            None => match by_sep("/"@) {
                Some(x) => x,
                None => t,
            },
        }
    }
}

fn suffix_after(t: &str, sep: &str) -> (r: Option<String>)
    ensures
        match r {
            Some(x) => (match rsplit_once_spec(t@, sep@) {
                Some((_, b)) => trim(b).len() > 0 && x@ == trim(b),
                None => false,
            }),
            None => (match rsplit_once_spec(t@, sep@) {
                Some((_, b)) => trim(b).len() == 0,
                None => true,
            }),
        },
{
    match str_rsplit_once(t, sep) {
        Some((_, b)) => {
            let s = trim_str(b.as_str());
            if s.as_str().unicode_len() > 0 {
                Some(s)
            } else {
                None
            }
        },
        None => None,
    }
}

pub fn node_step_id_hint(node_id: &str) -> (r: String)
    ensures
        r@ == step_hint_spec(node_id@),
{
    let t = trim_str(node_id);
    if t.as_str().unicode_len() == 0 {
        return to_owned_string("step");
    }
    match suffix_after(t.as_str(), "__") {
        Some(x) => return x,
        None => {},
    }
    match suffix_after(t.as_str(), "/") {
        Some(x) => return x,
        None => {},
    }
    t
}

/// The last dotted segment of a slot.
pub open spec fn slot_leaf_spec(slot: Seq<char>) -> Seq<char> {
    match rsplit_once_spec(slot, "."@) {
        Some((_, b)) => b,
        None => slot,
    }
}

pub fn slot_leaf(slot: &str) -> (r: String)
    ensures
        r@ == slot_leaf_spec(slot@),
{
    match str_rsplit_once(slot, ".") {
        Some((_, b)) => b,
        None => to_owned_string(slot),
    }
}

/// The input slot a required fact names: the trimmed name after `inputs.`
/// (none if blank); none for facts, transactions, nodes and queries; else
/// the trimmed name itself; none when blank.
pub open spec fn slot_id_spec(required_fact: Seq<char>) -> Option<Seq<char>> {
    let t = trim(required_fact);
    if t.len() == 0 {
        None
    } else {
        match strip_prefix(t, "inputs."@) {
            Some(rest) => if trim(rest).len() == 0 {
                None
            } else {
                Some(trim(rest))
            },
            None => if starts_with(t, "facts."@) || starts_with(t, "tx."@) || starts_with(t, "nodes."@) || starts_with(
                t,
                "query."@,
            ) {
                None
            } else {
                Some(t)
            },
        }
    }
}

pub fn to_slot_id(required_fact: &str) -> (r: Option<String>)
    ensures
        match r {
            Some(s) => slot_id_spec(required_fact@) == Some(s@),
            None => slot_id_spec(required_fact@) is None,
        },
{
    let t = trim_str(required_fact);
    if t.as_str().unicode_len() == 0 {
        return None;
    }
    match str_strip_prefix(t.as_str(), "inputs.") {
        Some(rest) => {
            let slot = trim_str(rest.as_str());
            if slot.as_str().unicode_len() == 0 {
                return None;
            }
            return Some(slot);
        },
        None => {},
    }
    let s = t.as_str();
    if str_starts_with(s, "facts.") || str_starts_with(s, "tx.") || str_starts_with(s, "nodes.") || str_starts_with(
        s,
        "query.",
    ) {
        return None;
    }
    Some(t)
}

/// Where a registry entry goes: missing ones first, then resolved, then
/// others; then by the rank of its slot (its `id`, else its `ref`); then by
/// its `ref`.
pub open spec fn registry_key_spec(entry: crate::json::JsonView) -> (u8, u8, Seq<char>) {
    let status_rank: u8 = match field_str(entry, "status"@) {
        Some(s) => if s == "missing"@ {
            0
        } else if s == "resolved"@ {
            1
        } else {
            2
        },
        None => 2,
    };
    let slot = match field_str(entry, "id"@) {
        Some(s) => s,
        None => match field_str(entry, "ref"@) {
            Some(s) => s,
            None => Seq::empty(),
        },
    };
    let reference = match field_str(entry, "ref"@) {
        Some(s) => s,
        None => Seq::empty(),
    };
    (status_rank, slot_rank(slot), reference)
}

fn str_field<'a>(v: &'a JsonValue, key: &str) -> (r: Option<&'a str>)
    ensures
        match r {
            Some(s) => field_str(v@, key@) == Some(s@),
            None => field_str(v@, key@) is None,
        },
{
    match v.get(key) {
        Some(x) => x.as_str(),
        None => None,
    }
}

pub fn registry_order_key(entry: &JsonValue) -> (r: (u8, u8, String))
    ensures
        (r.0, r.1, r.2@) == registry_key_spec(entry@),
{
    let status_rank: u8 = match str_field(entry, "status") {
        Some(s) => if str_eq(s, "missing") {
            0
        } else if str_eq(s, "resolved") {
            1
        } else {
            2
        },
        None => 2,
    };
    proof {
        reveal_strlit("");
    }
    let slot: &str = match str_field(entry, "id") {
        Some(s) => s,
        None => match str_field(entry, "ref") {
            Some(s) => s,
            None => "",
        },
    };
    let reference: &str = match str_field(entry, "ref") {
        Some(s) => s,
        None => "",
    };
    let rank = slot_sort_key(slot);
    let text = to_owned_string(reference);
    assert(slot@ =~= match field_str(entry@, "id"@) {
        Some(s) => s,
        None => match field_str(entry@, "ref"@) {
            Some(s) => s,
            None => Seq::empty(),
        },
    });
    assert(text@ =~= match field_str(entry@, "ref"@) {
        Some(s) => s,
        None => Seq::empty(),
    });
    (status_rank, rank, text)
}


// ---------------------------------------------------------------------------
// Readable output fields of executed nodes
// ---------------------------------------------------------------------------

/// Whether a runtime value says anything: not null, not an empty array or
/// object.
pub open spec fn readable_spec(v: JsonView) -> bool {
    match v {
        JsonView::Null => false,
        JsonView::Array(xs) => xs.len() > 0,
        JsonView::Object(es) => es.len() > 0,
        _ => true,
    }
}

pub fn runtime_value_readable(value: &JsonValue) -> (r: bool)
    ensures
        r == readable_spec(value@),
{
    match value {
        JsonValue::Null => false,
        JsonValue::Array(items) => {
            proof {
                lemma_array_view(*items);
            }
            items.len() > 0
        },
        JsonValue::Object(entries) => {
            proof {
                lemma_object_view(*entries);
            }
            entries.len() > 0
        },
        _ => true,
    }
}

/// The name of a value's JSON type.
pub open spec fn type_hint_spec(v: JsonView) -> Seq<char> {
    match v {
        JsonView::Null => "null"@,
        JsonView::Bool(_) => "boolean"@,
        JsonView::Number(_) => "number"@,
        JsonView::Str(_) => "string"@,
        JsonView::Array(_) => "array"@,
        JsonView::Object(_) => "object"@,
    }
}

pub fn value_type_hint(value: &JsonValue) -> (r: &'static str)
    ensures
        r@ == type_hint_spec(value@),
{
    match value {
        JsonValue::Null => "null",
        JsonValue::Bool(_) => "boolean",
        JsonValue::Number(_) => "number",
        JsonValue::String(_) => "string",
        JsonValue::Array(_) => "array",
        JsonValue::Object(_) => "object",
    }
}

/// `prefix.key`, or `key` under an empty prefix.
pub open spec fn join_path(prefix: Seq<char>, key: Seq<char>) -> Seq<char> {
    if prefix.len() == 0 {
        key
    } else {
        prefix + "."@ + key
    }
}

/// Every dotted path to a readable leaf of `v` under `prefix`, in the order
/// of the object entries; below depth three the path itself stands for the
/// whole value.
pub open spec fn field_paths(v: JsonView, prefix: Seq<char>, depth: nat) -> Seq<Seq<char>>
    decreases v, 0nat,
{
    if depth > 3 {
        if prefix.len() > 0 {
            seq![prefix]
        } else {
            Seq::empty()
        }
    } else {
        match v {
            JsonView::Object(es) => entry_paths(es, prefix, depth),
            _ => if prefix.len() > 0 && readable_spec(v) {
                seq![prefix]
            } else {
                Seq::empty()
            },
        }
    }
}

/// The paths of the entries of one object, in order.
pub open spec fn entry_paths(es: Seq<(Seq<char>, JsonView)>, prefix: Seq<char>, depth: nat) -> Seq<Seq<char>>
    decreases es, 0nat,
{
    if es.len() == 0 {
        Seq::empty()
    } else {
        entry_paths(es.drop_last(), prefix, depth) + entry_step(es.last().0, es.last().1, prefix, depth)
    }
}

/// The paths of one entry: a nested object is walked, another readable
/// value gives its own path; a blank key gives none.
pub open spec fn entry_step(key: Seq<char>, nested: JsonView, prefix: Seq<char>, depth: nat) -> Seq<Seq<char>>
    decreases nested, 1nat,
{
    let k = trim(key);
    if k.len() == 0 {
        Seq::empty()
    } else {
        match nested {
            JsonView::Object(_) => field_paths(nested, join_path(prefix, k), depth + 1),
            _ => if readable_spec(nested) {
                seq![join_path(prefix, k)]
            } else {
                Seq::empty()
            },
        }
    }
}

/// `acc` followed by as many of `more` as fit under `max`.
pub open spec fn fill(acc: Seq<Seq<char>>, more: Seq<Seq<char>>, max: nat) -> Seq<Seq<char>> {
    if acc.len() >= max {
        acc
    } else if acc.len() + more.len() <= max {
        acc + more
    } else {
        acc + more.subrange(0, max - acc.len())
    }
}

proof fn lemma_fill_append(acc: Seq<Seq<char>>, x: Seq<Seq<char>>, y: Seq<Seq<char>>, max: nat)
    ensures
        fill(fill(acc, x, max), y, max) == fill(acc, x + y, max),
{
    if acc.len() >= max {
    } else if acc.len() + x.len() <= max {
        if acc.len() + x.len() + y.len() <= max {
            assert(acc + x + y =~= acc + (x + y));
        } else if acc.len() + x.len() < max {
            assert((acc + x) + y.subrange(0, max - (acc + x).len()) =~= acc + (x + y).subrange(0, max - acc.len()));
        } else {
            assert(acc + x =~= acc + (x + y).subrange(0, max - acc.len()));
        }
    } else {
        assert(acc + x.subrange(0, max - acc.len()) =~= acc + (x + y).subrange(0, max - acc.len()));
    }
}

proof fn lemma_fill_empty(acc: Seq<Seq<char>>, max: nat)
    ensures
        fill(acc, Seq::empty(), max) == acc,
{
    assert(acc + Seq::<Seq<char>>::empty() =~= acc);
}

fn push_limited(out: &mut Vec<String>, path: String, max_fields: usize)
    requires
        old(out)@.len() < max_fields,
    ensures
        views(final(out)@) == fill(views(old(out)@), seq![path@], max_fields as nat),
{
    let ghost before = views(out@);
    out.push(path);
    assert(views(out@) =~= before + seq![path@]);
}

/// The paths of one object entry, added as far as they fit.
fn collect_entry_paths(
    key: &str,
    nested: &JsonValue,
    prefix: &str,
    depth: usize,
    max_fields: usize,
    out: &mut Vec<String>,
)
    requires
        depth <= 3,
    ensures
        views(final(out)@) == fill(
            views(old(out)@),
            entry_step(key@, nested@, prefix@, depth as nat),
            max_fields as nat,
        ),
    decreases nested, 1nat,
{
    if out.len() >= max_fields {
        return;
    }
    let k = trim_str(key);
    if k.unicode_len() == 0 {
        proof {
            lemma_fill_empty(views(out@), max_fields as nat);
        }
        return;
    }
    let path = if prefix.unicode_len() == 0 {
        k
    } else {
        let dotted = concat(prefix, ".");
        concat(dotted.as_str(), k.as_str())
    };
    match nested {
        JsonValue::Object(_) => {
            collect_output_field_paths_inner(nested, path.as_str(), depth + 1, max_fields, out);
        },
        _ => {
            if runtime_value_readable(nested) {
                push_limited(out, path, max_fields);
            } else {
                proof {
                    lemma_fill_empty(views(out@), max_fields as nat);
                }
            }
        },
    }
}

fn collect_output_field_paths_inner(
    value: &JsonValue,
    prefix: &str,
    depth: usize,
    max_fields: usize,
    out: &mut Vec<String>,
)
    requires
        depth <= 4,
    ensures
        views(final(out)@) == fill(views(old(out)@), field_paths(value@, prefix@, depth as nat), max_fields as nat),
    decreases value, 0nat,
{
    if out.len() >= max_fields {
        return;
    }
    if depth > 3 {
        if prefix.unicode_len() > 0 {
            push_limited(out, to_owned_string(prefix), max_fields);
        } else {
            proof {
                lemma_fill_empty(views(out@), max_fields as nat);
            }
        }
        return;
    }
    match value {
        JsonValue::Object(entries) => {
            proof {
                lemma_object_view(*entries);
            }
            let ghost es = entries_view(entries@);
            let ghost base = views(out@);
            let mut i: usize = 0;
            assert(es.subrange(0, 0) =~= Seq::<(Seq<char>, JsonView)>::empty());
            proof {
                lemma_fill_empty(base, max_fields as nat);
            }
            while i < entries.len()
                invariant
                    *value == JsonValue::Object(*entries),
                    es == entries_view(entries@),
                    i <= entries@.len(),
                    depth <= 3,
                    views(out@) == fill(base, entry_paths(es.subrange(0, i as int), prefix@, depth as nat), max_fields as nat),
                decreases entries.len() - i,
            {
                proof {
                    assert(decreases_to!(*value => (*value)->Object_0));
                    assert(decreases_to!(*entries => entries@[i as int]));
                    assert(decreases_to!(entries@[i as int] => entries@[i as int].1));
                    let cur = es.subrange(0, i + 1);
                    assert(cur.drop_last() =~= es.subrange(0, i as int));
                    assert(cur.last() == (entries@[i as int].0@, entries@[i as int].1@));
                    lemma_fill_append(
                        base,
                        entry_paths(es.subrange(0, i as int), prefix@, depth as nat),
                        entry_step(entries@[i as int].0@, entries@[i as int].1@, prefix@, depth as nat),
                        max_fields as nat,
                    );
                }
                collect_entry_paths(entries[i].0.as_str(), &entries[i].1, prefix, depth, max_fields, out);
                i = i + 1;
            }
            assert(es.subrange(0, es.len() as int) =~= es);
        },
        _ => {
            if prefix.unicode_len() > 0 && runtime_value_readable(value) {
                push_limited(out, to_owned_string(prefix), max_fields);
            } else {
                proof {
                    lemma_fill_empty(views(out@), max_fields as nat);
                }
            }
        },
    }
}

/// The readable output paths of `v`, at most `max_fields` of them (at least
/// one) in walking order, then sorted, each once.
pub open spec fn output_field_paths(v: JsonView, max_fields: nat) -> Seq<Seq<char>> {
    let n: nat = if max_fields < 1 {
        1
    } else {
        max_fields
    };
    key_list(sorted_keys(fill(Seq::empty(), field_paths(v, Seq::empty(), 0), n)))
}

pub fn collect_output_field_paths(value: &JsonValue, max_fields: usize) -> (r: Vec<String>)
    ensures
        views(r@) == output_field_paths(value@, max_fields as nat),
{
    let mut out: Vec<String> = Vec::new();
    let n: usize = if max_fields < 1 {
        1
    } else {
        max_fields
    };
    assert(views(out@) =~= Seq::<Seq<char>>::empty());
    assert(""@ =~= Seq::<char>::empty()) by {
        reveal_strlit("");
    }
    collect_output_field_paths_inner(value, "", 0, n, &mut out);
    sorted_strings(&out)
}


// ---------------------------------------------------------------------------
// References to the outputs of executed nodes
// ---------------------------------------------------------------------------

/// `nodes.<step>.outputs.<path>`.
pub open spec fn output_ref(step: Seq<char>, path: Seq<char>) -> Seq<char> {
    "nodes."@ + step + ".outputs."@ + path
}

/// The (step, reference) pairs one node gives: none without outputs or with
/// null outputs; else one for each of its first twenty-four readable
/// output paths.
pub open spec fn node_pairs_of(node_id: Seq<char>, node: JsonView) -> Seq<(Seq<char>, Seq<char>)> {
    match field(node, "outputs"@) {
        Some(o) => if o is Null {
            Seq::empty()
        } else {
            let step = step_hint_spec(node_id);
            output_field_paths(o, 24).map_values(|p: Seq<char>| (step, output_ref(step, p)))
        },
        None => Seq::empty(),
    }
}

/// The pairs of all nodes, in node order.
pub open spec fn node_ref_pairs(es: Seq<(Seq<char>, JsonView)>) -> Seq<(Seq<char>, Seq<char>)>
    decreases es.len(),
{
    if es.len() == 0 {
        Seq::empty()
    } else {
        node_ref_pairs(es.drop_last()) + node_pairs_of(es.last().0, es.last().1)
    }
}

/// The references of the pairs of one step, in order.
pub open spec fn refs_for(ps: Seq<(Seq<char>, Seq<char>)>, step: Seq<char>) -> Seq<Seq<char>>
    decreases ps.len(),
{
    if ps.len() == 0 {
        Seq::empty()
    } else {
        refs_for(ps.drop_last(), step) + if ps.last().0 == step {
            seq![ps.last().1]
        } else {
            Seq::<Seq<char>>::empty()
        }
    }
}

pub open spec fn pair_firsts(ps: Seq<(Seq<char>, Seq<char>)>) -> Seq<Seq<char>> {
    ps.map_values(|p: (Seq<char>, Seq<char>)| p.0)
}

pub open spec fn pair_seconds(ps: Seq<(Seq<char>, Seq<char>)>) -> Seq<Seq<char>> {
    ps.map_values(|p: (Seq<char>, Seq<char>)| p.1)
}

/// The entry of one step: its id and its references, sorted, each once.
pub open spec fn step_entry(ps: Seq<(Seq<char>, Seq<char>)>, step: Seq<char>) -> JsonView {
    let e0 = obj_insert(Seq::empty(), "step_id"@, JsonView::Str(step));
    JsonView::Object(
        obj_insert(e0, "refs"@, JsonView::Array(str_items(key_list(sorted_keys(refs_for(ps, step)))))),
    )
}

/// Inserting `x` after every value its compact text does not precede (by
/// slot rank, then by text).
pub open spec fn text_ranked_insert(s: Seq<JsonView>, x: JsonView) -> Seq<JsonView>
    decreases s.len(),
{
    if s.len() == 0 {
        seq![x]
    } else if slot_before(json_text(x), json_text(s[0])) {
        seq![x] + s
    } else {
        seq![s[0]] + text_ranked_insert(s.drop_first(), x)
    }
}

/// The values stably sorted by the slot rank and then the text of their
/// compact JSON text.
pub open spec fn text_ranked(xs: Seq<JsonView>) -> Seq<JsonView>
    decreases xs.len(),
{
    if xs.len() == 0 {
        Seq::empty()
    } else {
        text_ranked_insert(text_ranked(xs.drop_last()), xs.last())
    }
}

pub open spec fn refs_record(entries: Seq<JsonView>, known: Seq<Seq<char>>, steps: nat) -> JsonView {
    let c0 = obj_insert(Seq::empty(), "steps"@, JsonView::Number(NumberView::PosInt(steps as u64)));
    let c1 = obj_insert(c0, "entries"@, JsonView::Number(NumberView::PosInt(entries.len() as u64)));
    let c2 = obj_insert(c1, "known_refs"@, JsonView::Number(NumberView::PosInt(known.len() as u64)));
    let e0 = obj_insert(Seq::empty(), "schema"@, JsonView::Str("ais-agent-node-output-refs/0.0.1"@));
    let e1 = obj_insert(e0, "entries"@, JsonView::Array(entries));
    let e2 = obj_insert(e1, "known_refs"@, JsonView::Array(str_items(known)));
    JsonView::Object(obj_insert(e2, "counts"@, JsonView::Object(c2)))
}

/// The readable outputs of the executed nodes, grouped by step: one entry
/// per step that has any, ordered by the rank and text of its compact JSON
/// text, and every reference once, sorted.
pub open spec fn node_output_refs_spec(runtime: JsonView) -> JsonView {
    match pointer_spec(runtime, "/nodes"@) {
        Some(JsonView::Object(es)) => {
            let ps = node_ref_pairs(es);
            let steps = key_list(sorted_keys(pair_firsts(ps)));
            let entries = text_ranked(steps.map_values(|st: Seq<char>| step_entry(ps, st)));
            refs_record(entries, key_list(sorted_keys(pair_seconds(ps))), steps.len())
        },
        _ => refs_record(Seq::empty(), Seq::empty(), 0),
    }
}

pub open spec fn pair_views(ps: Seq<(String, String)>) -> Seq<(Seq<char>, Seq<char>)> {
    ps.map_values(|p: (String, String)| (p.0@, p.1@))
}

fn node_pairs_exec(entries: &Vec<(String, JsonValue)>) -> (r: Vec<(String, String)>)
    ensures
        pair_views(r@) == node_ref_pairs(entries_view(entries@)),
{
    let ghost es = entries_view(entries@);
    let mut out: Vec<(String, String)> = Vec::new();
    let mut i: usize = 0;
    assert(pair_views(out@) =~= node_ref_pairs(es.subrange(0, 0)));
    while i < entries.len()
        invariant
            i <= entries@.len(),
            es == entries_view(entries@),
            pair_views(out@) == node_ref_pairs(es.subrange(0, i as int)),
        decreases entries.len() - i,
    {
        let ghost cur = es.subrange(0, i + 1);
        assert(cur.drop_last() =~= es.subrange(0, i as int));
        assert(cur.last() == (entries@[i as int].0@, entries@[i as int].1@));
        let ghost before = pair_views(out@);
        let ghost add = node_pairs_of(entries@[i as int].0@, entries@[i as int].1@);
        match entries[i].1.get("outputs") {
            Some(o) => {
                if !matches!(o, JsonValue::Null) {
                    let step = node_step_id_hint(entries[i].0.as_str());
                    let fields = collect_output_field_paths(o, 24);
                    let mut j: usize = 0;
                    while j < fields.len()
                        invariant
                            j <= fields@.len(),
                            i < entries@.len(),
                            step@ == step_hint_spec(entries@[i as int].0@),
                            views(fields@) == output_field_paths(o@, 24),
                            add == views(fields@).map_values(|p: Seq<char>| (step@, output_ref(step@, p))),
                            pair_views(out@) == before + add.subrange(0, j as int),
                        decreases fields.len() - j,
                    {
                        let a = concat("nodes.", step.as_str());
                        let b = concat(a.as_str(), ".outputs.");
                        let r = concat(b.as_str(), fields[j].as_str());
                        let ghost fj = fields@[j as int]@;
                        assert(views(fields@)[j as int] == fj);
                        assert(add[j as int] == (step@, output_ref(step@, fj)));
                        assert(r@ == output_ref(step@, fj));
                        let ghost prev = pair_views(out@);
                        out.push((to_owned_string(step.as_str()), r));
                        assert(pair_views(out@) =~= prev.push((step@, output_ref(step@, fj))));
                        assert(pair_views(out@) =~= before + add.subrange(0, j + 1));
                        j = j + 1;
                    }
                    assert(add.subrange(0, add.len() as int) =~= add);
                } else {
                    assert(pair_views(out@) =~= before + add);
                }
            },
            None => {
                assert(pair_views(out@) =~= before + add);
            },
        }
        i = i + 1;
    }
    assert(es.subrange(0, es.len() as int) =~= es);
    out
}

fn refs_for_exec(ps: &Vec<(String, String)>, step: &str) -> (r: Vec<String>)
    ensures
        views(r@) == refs_for(pair_views(ps@), step@),
{
    let ghost pv = pair_views(ps@);
    let mut out: Vec<String> = Vec::new();
    let mut i: usize = 0;
    assert(views(out@) =~= refs_for(pv.subrange(0, 0), step@));
    while i < ps.len()
        invariant
            i <= ps@.len(),
            pv == pair_views(ps@),
            views(out@) == refs_for(pv.subrange(0, i as int), step@),
        decreases ps.len() - i,
    {
        let ghost cur = pv.subrange(0, i + 1);
        assert(cur.drop_last() =~= pv.subrange(0, i as int));
        assert(cur.last() == (ps@[i as int].0@, ps@[i as int].1@));
        let ghost before = views(out@);
        if str_eq(ps[i].0.as_str(), step) {
            out.push(to_owned_string(ps[i].1.as_str()));
            assert(views(out@) =~= before.push(ps@[i as int].1@));
        } else {
            assert(views(out@) =~= before + Seq::<Seq<char>>::empty());
        }
        i = i + 1;
    }
    assert(pv.subrange(0, pv.len() as int) =~= pv);
    out
}

fn firsts_exec(ps: &Vec<(String, String)>, second: bool) -> (r: Vec<String>)
    ensures
        views(r@) == if second {
            pair_seconds(pair_views(ps@))
        } else {
            pair_firsts(pair_views(ps@))
        },
{
    let ghost target = if second {
        pair_seconds(pair_views(ps@))
    } else {
        pair_firsts(pair_views(ps@))
    };
    let mut out: Vec<String> = Vec::new();
    let mut i: usize = 0;
    while i < ps.len()
        invariant
            i <= ps@.len(),
            target == (if second {
                pair_seconds(pair_views(ps@))
            } else {
                pair_firsts(pair_views(ps@))
            }),
            views(out@) == target.subrange(0, i as int),
        decreases ps.len() - i,
    {
        let ghost prev = views(out@);
        assert(target[i as int] == (if second {
            ps@[i as int].1@
        } else {
            ps@[i as int].0@
        }));
        if second {
            out.push(to_owned_string(ps[i].1.as_str()));
        } else {
            out.push(to_owned_string(ps[i].0.as_str()));
        }
        assert(views(out@) =~= prev.push(target[i as int]));
        assert(views(out@) =~= target.subrange(0, i + 1));
        i = i + 1;
    }
    assert(target.subrange(0, target.len() as int) =~= target);
    out
}

pub open spec fn text_pairs_ok(v: Seq<(String, JsonValue)>) -> bool {
    forall|k: int| 0 <= k < v.len() ==> (#[trigger] v[k]).0@ == json_text(v[k].1@)
}

pub open spec fn second_views(v: Seq<(String, JsonValue)>) -> Seq<JsonView> {
    v.map_values(|e: (String, JsonValue)| e.1@)
}

fn insert_by_text(v: &mut Vec<(String, JsonValue)>, x: JsonValue)
    requires
        text_pairs_ok(old(v)@),
    ensures
        text_pairs_ok(final(v)@),
        second_views(final(v)@) == text_ranked_insert(second_views(old(v)@), x@),
{
    let text = x.to_text();
    let ghost s = second_views(v@);
    let mut i: usize = 0;
    assert(s.subrange(0, s.len() as int) =~= s);
    assert(s.subrange(0, 0) + text_ranked_insert(s, x@) =~= text_ranked_insert(s, x@));
    while i < v.len() && !slot_before_exec(text.as_str(), v[i].0.as_str())
        invariant
            i <= v@.len(),
            s == second_views(v@),
            v@ == old(v)@,
            text_pairs_ok(v@),
            text@ == json_text(x@),
            s.subrange(0, i as int) + text_ranked_insert(s.subrange(i as int, s.len() as int), x@)
                == text_ranked_insert(s, x@),
        decreases v.len() - i,
    {
        proof {
            let rest = s.subrange(i as int, s.len() as int);
            assert(rest[0] == s[i as int]);
            assert(v@[i as int].0@ == json_text(s[i as int]));
            assert(rest.drop_first() =~= s.subrange(i + 1, s.len() as int));
            assert(s.subrange(0, i + 1) + text_ranked_insert(s.subrange(i + 1, s.len() as int), x@) =~= s.subrange(
                0,
                i as int,
            ) + text_ranked_insert(rest, x@));
        }
        i = i + 1;
    }
    let ghost rest = s.subrange(i as int, s.len() as int);
    if i < v.len() {
        assert(rest[0] == s[i as int]);
        assert(v@[i as int].0@ == json_text(s[i as int]));
    }
    v.insert(i, (text, x));
    assert(second_views(v@) =~= s.subrange(0, i as int) + (seq![x@] + rest));
}

pub fn build_node_output_refs_projection(runtime: &JsonValue) -> (r: JsonValue)
    ensures
        r@ == node_output_refs_spec(runtime@),
{
    match runtime.pointer("/nodes") {
        Some(JsonValue::Object(nodes)) => {
            proof {
                lemma_object_view(*nodes);
            }
            let ps = node_pairs_exec(nodes);
            let ghost pv = pair_views(ps@);
            let steps = sorted_strings(&firsts_exec(&ps, false));
            let ghost st = views(steps@);
            let mut ranked: Vec<(String, JsonValue)> = Vec::new();
            let mut j: usize = 0;
            assert(second_views(ranked@) =~= text_ranked(st.map_values(|x: Seq<char>| step_entry(pv, x)).subrange(0, 0)));
            while j < steps.len()
                invariant
                    j <= steps@.len(),
                    st == views(steps@),
                    pv == pair_views(ps@),
                    text_pairs_ok(ranked@),
                    second_views(ranked@) == text_ranked(
                        st.map_values(|x: Seq<char>| step_entry(pv, x)).subrange(0, j as int),
                    ),
                decreases steps.len() - j,
            {
                let ghost all = st.map_values(|x: Seq<char>| step_entry(pv, x));
                let ghost cur = all.subrange(0, j + 1);
                assert(cur.drop_last() =~= all.subrange(0, j as int));
                let refs = sorted_strings(&refs_for_exec(&ps, steps[j].as_str()));
                let mut e = JsonValue::empty_object();
                e.insert(to_owned_string("step_id"), JsonValue::String(to_owned_string(steps[j].as_str())));
                e.insert(to_owned_string("refs"), string_array(&refs));
                assert(st[j as int] == steps@[j as int]@);
                assert(e@ == step_entry(pv, st[j as int]));
                assert(cur.last() == e@);
                insert_by_text(&mut ranked, e);
                j = j + 1;
            }
            let ghost all = st.map_values(|x: Seq<char>| step_entry(pv, x));
            assert(all.subrange(0, all.len() as int) =~= all);
            let mut out: Vec<JsonValue> = Vec::new();
            let mut k: usize = 0;
            while k < ranked.len()
                invariant
                    k <= ranked@.len(),
                    items_view(out@) == second_views(ranked@).subrange(0, k as int),
                decreases ranked.len() - k,
            {
                let ghost prev = items_view(out@);
                assert(second_views(ranked@)[k as int] == ranked@[k as int].1@);
                out.push(ranked[k].1.clone_value());
                assert(items_view(out@) =~= prev.push(ranked@[k as int].1@));
                assert(items_view(out@) =~= second_views(ranked@).subrange(0, k + 1));
                k = k + 1;
            }
            assert(second_views(ranked@).subrange(0, ranked@.len() as int) =~= second_views(ranked@));
            let known = sorted_strings(&firsts_exec(&ps, true));
            refs_record_exec(out, &known, steps.len())
        },
        _ => {
            let out: Vec<JsonValue> = Vec::new();
            let known: Vec<String> = Vec::new();
            assert(items_view(out@) =~= Seq::<JsonView>::empty());
            assert(views(known@) =~= Seq::<Seq<char>>::empty());
            refs_record_exec(out, &known, 0)
        },
    }
}

fn refs_record_exec(entries: Vec<JsonValue>, known: &Vec<String>, steps_len: usize) -> (r: JsonValue)
    ensures
        r@ == refs_record(items_view(entries@), views(known@), steps_len as nat),
{
    let mut counts = JsonValue::empty_object();
    counts.insert(to_owned_string("steps"), count_value(steps_len));
    counts.insert(to_owned_string("entries"), count_value(entries.len()));
    counts.insert(to_owned_string("known_refs"), count_value(known.len()));
    let mut o = JsonValue::empty_object();
    o.insert(to_owned_string("schema"), JsonValue::String(to_owned_string("ais-agent-node-output-refs/0.0.1")));
    let entries_len = entries.len();
    proof {
        lemma_array_view(entries);
    }
    o.insert(to_owned_string("entries"), JsonValue::Array(entries));
    o.insert(to_owned_string("known_refs"), string_array(&known));
    o.insert(to_owned_string("counts"), counts);
    assert(known@.map_values(|s: String| s@) =~= views(known@));
    o
}


// ---------------------------------------------------------------------------
// The input registry
// ---------------------------------------------------------------------------

/// `inputs.<slot>`.
pub open spec fn input_ref(slot: Seq<char>) -> Seq<char> {
    "inputs."@ + slot
}

/// The registry entry of a resolved slot.
pub open spec fn resolved_entry(slot: Seq<char>, value: JsonView) -> JsonView {
    let e0 = obj_insert(Seq::empty(), "id"@, JsonView::Str(slot));
    let e1 = obj_insert(e0, "ref"@, JsonView::Str(input_ref(slot)));
    let e2 = obj_insert(e1, "status"@, JsonView::Str("resolved"@));
    let e3 = obj_insert(e2, "type_hint"@, JsonView::Str(type_hint_spec(value)));
    JsonView::Object(obj_insert(e3, "example"@, value))
}

/// The registry entry of a missing slot.
pub open spec fn missing_entry(slot: Seq<char>) -> JsonView {
    let e0 = obj_insert(Seq::empty(), "id"@, JsonView::Str(slot));
    let e1 = obj_insert(e0, "ref"@, JsonView::Str(input_ref(slot)));
    let e2 = obj_insert(e1, "status"@, JsonView::Str("missing"@));
    JsonView::Object(obj_insert(e2, "required"@, JsonView::Bool(true)))
}

/// The `ref` text of an entry, empty without one.
pub open spec fn entry_ref(e: JsonView) -> Seq<char> {
    match field_str(e, "ref"@) {
        Some(r) => r,
        None => Seq::empty(),
    }
}

/// Inserting `x` after every entry whose reference does not come after its own.
pub open spec fn ref_insert(s: Seq<JsonView>, x: JsonView) -> Seq<JsonView>
    decreases s.len(),
{
    if s.len() == 0 {
        seq![x]
    } else if seq_lt(entry_ref(x), entry_ref(s[0])) {
        seq![x] + s
    } else {
        seq![s[0]] + ref_insert(s.drop_first(), x)
    }
}

/// The entries stably sorted by their reference.
pub open spec fn ref_sorted(xs: Seq<JsonView>) -> Seq<JsonView>
    decreases xs.len(),
{
    if xs.len() == 0 {
        Seq::empty()
    } else {
        ref_insert(ref_sorted(xs.drop_last()), xs.last())
    }
}

/// The input registry: an entry per resolved slot (with its type and value)
/// and per missing slot, sorted by reference; the known references are those
/// of the resolved slots, sorted, each once.
pub open spec fn registry_spec(resolved: Seq<(Seq<char>, JsonView)>, missing: Seq<Seq<char>>) -> JsonView {
    let all = resolved.map_values(|e: (Seq<char>, JsonView)| resolved_entry(e.0, e.1)) + missing.map_values(
        |m: Seq<char>| missing_entry(m),
    );
    let known = key_list(sorted_keys(resolved.map_values(|e: (Seq<char>, JsonView)| input_ref(e.0))));
    let c0 = obj_insert(Seq::empty(), "known_refs"@, JsonView::Number(NumberView::PosInt(known.len() as u64)));
    let c1 = obj_insert(c0, "resolved"@, JsonView::Number(NumberView::PosInt(resolved.len() as u64)));
    let c2 = obj_insert(c1, "missing"@, JsonView::Number(NumberView::PosInt(missing.len() as u64)));
    let e0 = obj_insert(Seq::empty(), "schema"@, JsonView::Str("ais-agent-input-registry/0.0.1"@));
    let e1 = obj_insert(e0, "entries"@, JsonView::Array(ref_sorted(all)));
    let e2 = obj_insert(e1, "known_refs"@, JsonView::Array(str_items(known)));
    JsonView::Object(obj_insert(e2, "counts"@, JsonView::Object(c2)))
}

proof fn lemma_ref_of_resolved(slot: Seq<char>, value: JsonView)
    ensures
        entry_ref(resolved_entry(slot, value)) == input_ref(slot),
{
    reveal_strlit("id");
    reveal_strlit("ref");
    reveal_strlit("status");
    reveal_strlit("type_hint");
    reveal_strlit("example");
    let e0 = obj_insert(Seq::empty(), "id"@, JsonView::Str(slot));
    let e1 = obj_insert(e0, "ref"@, JsonView::Str(input_ref(slot)));
    let e2 = obj_insert(e1, "status"@, JsonView::Str("resolved"@));
    let e3 = obj_insert(e2, "type_hint"@, JsonView::Str(type_hint_spec(value)));
    crate::json::lemma_obj_get_insert(e0, "ref"@, JsonView::Str(input_ref(slot)), "ref"@);
    crate::json::lemma_obj_get_insert(e1, "status"@, JsonView::Str("resolved"@), "ref"@);
    crate::json::lemma_obj_get_insert(e2, "type_hint"@, JsonView::Str(type_hint_spec(value)), "ref"@);
    crate::json::lemma_obj_get_insert(e3, "example"@, value, "ref"@);
}

proof fn lemma_ref_of_missing(slot: Seq<char>)
    ensures
        entry_ref(missing_entry(slot)) == input_ref(slot),
{
    reveal_strlit("id");
    reveal_strlit("ref");
    reveal_strlit("status");
    reveal_strlit("required");
    let e0 = obj_insert(Seq::empty(), "id"@, JsonView::Str(slot));
    let e1 = obj_insert(e0, "ref"@, JsonView::Str(input_ref(slot)));
    let e2 = obj_insert(e1, "status"@, JsonView::Str("missing"@));
    crate::json::lemma_obj_get_insert(e0, "ref"@, JsonView::Str(input_ref(slot)), "ref"@);
    crate::json::lemma_obj_get_insert(e1, "status"@, JsonView::Str("missing"@), "ref"@);
    crate::json::lemma_obj_get_insert(e2, "required"@, JsonView::Bool(true), "ref"@);
}

pub open spec fn refs_ok(v: Seq<(String, JsonValue)>) -> bool {
    forall|k: int| 0 <= k < v.len() ==> (#[trigger] v[k]).0@ == entry_ref(v[k].1@)
}

fn insert_by_ref(v: &mut Vec<(String, JsonValue)>, reference: String, x: JsonValue)
    requires
        refs_ok(old(v)@),
        reference@ == entry_ref(x@),
    ensures
        refs_ok(final(v)@),
        second_views(final(v)@) == ref_insert(second_views(old(v)@), x@),
{
    let ghost s = second_views(v@);
    let mut i: usize = 0;
    assert(s.subrange(0, s.len() as int) =~= s);
    assert(s.subrange(0, 0) + ref_insert(s, x@) =~= ref_insert(s, x@));
    while i < v.len() && !(str_order(reference.as_str(), v[i].0.as_str()) < 0)
        invariant
            i <= v@.len(),
            s == second_views(v@),
            v@ == old(v)@,
            refs_ok(v@),
            reference@ == entry_ref(x@),
            s.subrange(0, i as int) + ref_insert(s.subrange(i as int, s.len() as int), x@) == ref_insert(s, x@),
        decreases v.len() - i,
    {
        proof {
            let rest = s.subrange(i as int, s.len() as int);
            assert(rest[0] == s[i as int]);
            assert(v@[i as int].0@ == entry_ref(s[i as int]));
            assert(rest.drop_first() =~= s.subrange(i + 1, s.len() as int));
            assert(s.subrange(0, i + 1) + ref_insert(s.subrange(i + 1, s.len() as int), x@) =~= s.subrange(
                0,
                i as int,
            ) + ref_insert(rest, x@));
        }
        i = i + 1;
    }
    let ghost rest = s.subrange(i as int, s.len() as int);
    if i < v.len() {
        assert(rest[0] == s[i as int]);
        assert(v@[i as int].0@ == entry_ref(s[i as int]));
    }
    v.insert(i, (reference, x));
    assert(second_views(v@) =~= s.subrange(0, i as int) + (seq![x@] + rest));
}

fn with_prefix(prefix: &str, s: &str) -> (r: String)
    ensures
        r@ == prefix@ + s@,
{
    concat(prefix, s)
}

pub fn build_input_registry_projection(resolved: &Vec<(String, JsonValue)>, missing: &Vec<String>) -> (r: JsonValue)
    ensures
        r@ == registry_spec(entries_view(resolved@), views(missing@)),
{
    let ghost rv = entries_view(resolved@);
    let ghost mv = views(missing@);
    let ghost all = rv.map_values(|e: (Seq<char>, JsonView)| resolved_entry(e.0, e.1)) + mv.map_values(
        |m: Seq<char>| missing_entry(m),
    );
    let ghost nr = rv.len();
    let mut sorted: Vec<(String, JsonValue)> = Vec::new();
    let mut refs: Vec<String> = Vec::new();
    let mut i: usize = 0;
    assert(second_views(sorted@) =~= ref_sorted(all.subrange(0, 0)));
    while i < resolved.len()
        invariant
            i <= resolved@.len(),
            rv == entries_view(resolved@),
            mv == views(missing@),
            nr == rv.len(),
            all == rv.map_values(|e: (Seq<char>, JsonView)| resolved_entry(e.0, e.1)) + mv.map_values(
                |m: Seq<char>| missing_entry(m),
            ),
            refs_ok(sorted@),
            second_views(sorted@) == ref_sorted(all.subrange(0, i as int)),
            views(refs@) == rv.subrange(0, i as int).map_values(|e: (Seq<char>, JsonView)| input_ref(e.0)),
        decreases resolved.len() - i,
    {
        let ghost cur = all.subrange(0, i + 1);
        assert(cur.drop_last() =~= all.subrange(0, i as int));
        let slot = resolved[i].0.as_str();
        let reference = with_prefix("inputs.", slot);
        let mut e = JsonValue::empty_object();
        e.insert(to_owned_string("id"), JsonValue::String(to_owned_string(slot)));
        e.insert(to_owned_string("ref"), JsonValue::String(to_owned_string(reference.as_str())));
        e.insert(to_owned_string("status"), JsonValue::String(to_owned_string("resolved")));
        e.insert(to_owned_string("type_hint"), JsonValue::String(to_owned_string(value_type_hint(&resolved[i].1))));
        e.insert(to_owned_string("example"), resolved[i].1.clone_value());
        assert(rv[i as int] == (resolved@[i as int].0@, resolved@[i as int].1@));
        assert(e@ == resolved_entry(rv[i as int].0, rv[i as int].1));
        assert(cur.last() == e@);
        proof {
            lemma_ref_of_resolved(slot@, resolved@[i as int].1@);
        }
        let ghost prev = views(refs@);
        refs.push(to_owned_string(reference.as_str()));
        assert(views(refs@) =~= prev.push(input_ref(rv[i as int].0)));
        assert(views(refs@) =~= rv.subrange(0, i + 1).map_values(|e: (Seq<char>, JsonView)| input_ref(e.0)));
        insert_by_ref(&mut sorted, reference, e);
        i = i + 1;
    }
    assert(rv.subrange(0, rv.len() as int) =~= rv);
    let mut j: usize = 0;
    while j < missing.len()
        invariant
            j <= missing@.len(),
            rv == entries_view(resolved@),
            mv == views(missing@),
            nr == rv.len(),
            all == rv.map_values(|e: (Seq<char>, JsonView)| resolved_entry(e.0, e.1)) + mv.map_values(
                |m: Seq<char>| missing_entry(m),
            ),
            refs_ok(sorted@),
            second_views(sorted@) == ref_sorted(all.subrange(0, nr + j)),
        decreases missing.len() - j,
    {
        let ghost cur = all.subrange(0, nr + j + 1);
        assert(cur.drop_last() =~= all.subrange(0, nr + j));
        let slot = missing[j].as_str();
        let reference = with_prefix("inputs.", slot);
        let mut e = JsonValue::empty_object();
        e.insert(to_owned_string("id"), JsonValue::String(to_owned_string(slot)));
        e.insert(to_owned_string("ref"), JsonValue::String(to_owned_string(reference.as_str())));
        e.insert(to_owned_string("status"), JsonValue::String(to_owned_string("missing")));
        e.insert(to_owned_string("required"), JsonValue::Bool(true));
        assert(mv[j as int] == missing@[j as int]@);
        assert(e@ == missing_entry(mv[j as int]));
        assert(cur.last() == e@);
        proof {
            lemma_ref_of_missing(slot@);
        }
        insert_by_ref(&mut sorted, reference, e);
        j = j + 1;
    }
    assert(all.subrange(0, all.len() as int) =~= all);
    let mut entries: Vec<JsonValue> = Vec::new();
    let mut k: usize = 0;
    while k < sorted.len()
        invariant
            k <= sorted@.len(),
            items_view(entries@) == second_views(sorted@).subrange(0, k as int),
        decreases sorted.len() - k,
    {
        let ghost prev = items_view(entries@);
        assert(second_views(sorted@)[k as int] == sorted@[k as int].1@);
        entries.push(sorted[k].1.clone_value());
        assert(items_view(entries@) =~= prev.push(sorted@[k as int].1@));
        k = k + 1;
    }
    assert(second_views(sorted@).subrange(0, sorted@.len() as int) =~= second_views(sorted@));
    let known = sorted_strings(&refs);
    let mut counts = JsonValue::empty_object();
    counts.insert(to_owned_string("known_refs"), count_value(known.len()));
    counts.insert(to_owned_string("resolved"), count_value(resolved.len()));
    counts.insert(to_owned_string("missing"), count_value(missing.len()));
    let mut o = JsonValue::empty_object();
    o.insert(to_owned_string("schema"), JsonValue::String(to_owned_string("ais-agent-input-registry/0.0.1")));
    proof {
        lemma_array_view(entries);
    }
    o.insert(to_owned_string("entries"), JsonValue::Array(entries));
    o.insert(to_owned_string("known_refs"), string_array(&known));
    o.insert(to_owned_string("counts"), counts);
    assert(known@.map_values(|s: String| s@) =~= views(known@));
    o
}


// ---------------------------------------------------------------------------
// The canonical context: chains, accounts, assets and amounts among the
// resolved slots
// ---------------------------------------------------------------------------

/// The last dotted segment of a slot, lowercased.
pub open spec fn leaf_lower(slot: Seq<char>) -> Seq<char> {
    lower(slot_leaf_spec(slot))
}

/// The trimmed text of a string value, when not blank.
pub open spec fn trimmed_text(v: JsonView) -> Option<Seq<char>> {
    match view_as_str(v) {
        Some(s) => if trim(s).len() > 0 {
            Some(trim(s))
        } else {
            None
        },
        None => None,
    }
}

pub open spec fn opt_trimmed(o: Option<JsonView>) -> Option<Seq<char>> {
    match o {
        Some(v) => trimmed_text(v),
        None => None,
    }
}

/// The value under `a`, else the one under `b`.
pub open spec fn first_field(v: JsonView, a: Seq<char>, b: Seq<char>) -> Option<JsonView> {
    match field(v, a) {
        Some(x) => Some(x),
        None => field(v, b),
    }
}

/// A chain slot (`chain`, `chain_id`, `chain_ref`, `network`) holding text.
pub open spec fn chain_ref_spec(slot: Seq<char>, value: JsonView) -> Option<Seq<char>> {
    let leaf = leaf_lower(slot);
    if leaf == "chain"@ || leaf == "chain_id"@ || leaf == "chain_ref"@ || leaf == "network"@ {
        trimmed_text(value)
    } else {
        None
    }
}

/// A slot named like an account holder.
pub open spec fn account_hint(leaf: Seq<char>) -> bool {
    ends_with(leaf, "owner"@) || ends_with(leaf, "from"@) || ends_with(leaf, "sender"@) || ends_with(
        leaf,
        "recipient"@,
    ) || ends_with(leaf, "to"@) || ends_with(leaf, "wallet"@) || ends_with(leaf, "account"@) || ends_with(
        leaf,
        "payer"@,
    ) || ends_with(leaf, "authority"@)
}

/// An account slot holding text.
pub open spec fn account_ref_spec(slot: Seq<char>, value: JsonView) -> Option<Seq<char>> {
    if account_hint(leaf_lower(slot)) {
        trimmed_text(value)
    } else {
        None
    }
}

/// An asset object: its address (or mint), and its chain, symbol and
/// decimals where given.
pub open spec fn asset_ref_spec(value: JsonView) -> Option<Seq<(Seq<char>, JsonView)>> {
    match value {
        JsonView::Object(_) => match opt_trimmed(first_field(value, "address"@, "mint"@)) {
            Some(addr) => {
                let m0 = obj_insert(Seq::empty(), "address"@, JsonView::Str(addr));
                let m1 = match opt_trimmed(first_field(value, "chain_ref"@, "chain_id"@)) {
                    Some(c) => obj_insert(m0, "chain_ref"@, JsonView::Str(c)),
                    None => m0,
                };
                let m2 = match opt_trimmed(field(value, "symbol"@)) {
                    Some(sym) => obj_insert(m1, "symbol"@, JsonView::Str(sym)),
                    None => m1,
                };
                let m3 = match field_u64(value, "decimals"@) {
                    Some(d) => obj_insert(m2, "decimals"@, JsonView::Number(NumberView::PosInt(d))),
                    None => m2,
                };
                Some(m3)
            },
            None => None,
        },
        _ => None,
    }
}

/// A slot named like an amount.
pub open spec fn amount_slot(leaf: Seq<char>) -> bool {
    contains(leaf, "amount"@) || leaf == "value"@ || leaf == "qty"@ || leaf == "quantity"@ || leaf == "size"@
}

/// An amount slot's value: the human and atomic parts of an object, else
/// the whole value; none for null or a boolean.
pub open spec fn amount_ref_spec(slot: Seq<char>, value: JsonView) -> Option<Seq<(Seq<char>, JsonView)>> {
    if !amount_slot(leaf_lower(slot)) {
        None
    } else {
        match value {
            JsonView::Null => None,
            JsonView::Bool(_) => None,
            JsonView::Object(_) => {
                let m0 = match field(value, "human"@) {
                    Some(h) => obj_insert(Seq::empty(), "amount_human"@, h),
                    None => Seq::empty(),
                };
                let m1 = match field(value, "atomic"@) {
                    Some(a) => obj_insert(m0, "amount_atomic"@, a),
                    None => m0,
                };
                if m1.len() == 0 {
                    Some(obj_insert(Seq::empty(), "amount_ref"@, value))
                } else {
                    Some(m1)
                }
            },
            _ => Some(obj_insert(Seq::empty(), "amount_ref"@, value)),
        }
    }
}

/// `m` with the slot's id and reference added.
pub open spec fn with_id_ref(slot: Seq<char>, m: Seq<(Seq<char>, JsonView)>) -> JsonView {
    JsonView::Object(obj_insert(obj_insert(m, "id"@, JsonView::Str(slot)), "ref"@, JsonView::Str(input_ref(slot))))
}

/// The item a resolved slot gives to one of the four lists: chains (0),
/// accounts (1), assets (2) and amounts (3).
pub open spec fn canon_item(kind: nat, slot: Seq<char>, value: JsonView) -> Option<JsonView> {
    if kind == 0 {
        match chain_ref_spec(slot, value) {
            Some(c) => Some(with_id_ref(slot, obj_insert(Seq::empty(), "chain_ref"@, JsonView::Str(c)))),
            None => None,
        }
    } else if kind == 1 {
        match account_ref_spec(slot, value) {
            Some(a) => Some(
                with_id_ref(
                    slot,
                    obj_insert(
                        obj_insert(Seq::empty(), "role"@, JsonView::Str(slot_leaf_spec(slot))),
                        "account_ref"@,
                        JsonView::Str(a),
                    ),
                ),
            ),
            None => None,
        }
    } else if kind == 2 {
        match asset_ref_spec(value) {
            Some(m) => Some(with_id_ref(slot, m)),
            None => None,
        }
    } else {
        match amount_ref_spec(slot, value) {
            Some(m) => Some(with_id_ref(slot, m)),
            None => None,
        }
    }
}

/// The items of one list, in slot order.
pub open spec fn canon_items(rs: Seq<(Seq<char>, JsonView)>, kind: nat) -> Seq<JsonView>
    decreases rs.len(),
{
    if rs.len() == 0 {
        Seq::empty()
    } else {
        canon_items(rs.drop_last(), kind) + match canon_item(kind, rs.last().0, rs.last().1) {
            Some(x) => seq![x],
            None => Seq::<JsonView>::empty(),
        }
    }
}

/// The canonical context of the resolved slots (one entry per slot): the
/// four lists and their sizes.
pub open spec fn canonical_spec(rs: Seq<(Seq<char>, JsonView)>) -> JsonView {
    let c = canon_items(rs, 0);
    let a = canon_items(rs, 1);
    let s = canon_items(rs, 2);
    let m = canon_items(rs, 3);
    let n0 = obj_insert(Seq::empty(), "chain_refs"@, JsonView::Number(NumberView::PosInt(c.len() as u64)));
    let n1 = obj_insert(n0, "account_refs"@, JsonView::Number(NumberView::PosInt(a.len() as u64)));
    let n2 = obj_insert(n1, "asset_refs"@, JsonView::Number(NumberView::PosInt(s.len() as u64)));
    let n3 = obj_insert(n2, "amount_refs"@, JsonView::Number(NumberView::PosInt(m.len() as u64)));
    let e0 = obj_insert(Seq::empty(), "chain_refs"@, JsonView::Array(c));
    let e1 = obj_insert(e0, "account_refs"@, JsonView::Array(a));
    let e2 = obj_insert(e1, "asset_refs"@, JsonView::Array(s));
    let e3 = obj_insert(e2, "amount_refs"@, JsonView::Array(m));
    JsonView::Object(obj_insert(e3, "counts"@, JsonView::Object(n3)))
}

pub open spec fn opt_text(o: Option<String>) -> Option<Seq<char>> {
    match o {
        Some(s) => Some(s@),
        None => None,
    }
}

fn trimmed_text_exec(v: &JsonValue) -> (r: Option<String>)
    ensures
        opt_text(r) == trimmed_text(v@),
{
    match v.as_str() {
        Some(s) => {
            let t = trim_str(s);
            if t.unicode_len() > 0 {
                Some(t)
            } else {
                None
            }
        },
        None => None,
    }
}

fn opt_trimmed_exec(o: Option<&JsonValue>) -> (r: Option<String>)
    ensures
        opt_text(r) == opt_trimmed(match o {
            Some(v) => Some(v@),
            None => None,
        }),
{
    match o {
        Some(v) => trimmed_text_exec(v),
        None => None,
    }
}

fn first_field_exec<'a>(v: &'a JsonValue, a: &str, b: &str) -> (r: Option<&'a JsonValue>)
    ensures
        match r {
            Some(x) => first_field(v@, a@, b@) == Some(x@),
            None => first_field(v@, a@, b@) is None,
        },
{
    match v.get(a) {
        Some(x) => Some(x),
        None => v.get(b),
    }
}

fn leaf_lower_exec(slot: &str) -> (r: String)
    ensures
        r@ == leaf_lower(slot@),
{
    let leaf = slot_leaf(slot);
    to_ascii_lowercase(leaf.as_str())
}

pub fn extract_chain_ref(slot: &str, value: &JsonValue) -> (r: Option<String>)
    ensures
        opt_text(r) == chain_ref_spec(slot@, value@),
{
    let leaf = leaf_lower_exec(slot);
    let l = leaf.as_str();
    if str_eq(l, "chain") || str_eq(l, "chain_id") || str_eq(l, "chain_ref") || str_eq(l, "network") {
        trimmed_text_exec(value)
    } else {
        None
    }
}

pub fn extract_account_ref(slot: &str, value: &JsonValue) -> (r: Option<String>)
    ensures
        opt_text(r) == account_ref_spec(slot@, value@),
{
    let leaf = leaf_lower_exec(slot);
    let l = leaf.as_str();
    let hint = str_ends_with(l, "owner") || str_ends_with(l, "from") || str_ends_with(l, "sender") || str_ends_with(
        l,
        "recipient",
    ) || str_ends_with(l, "to") || str_ends_with(l, "wallet") || str_ends_with(l, "account") || str_ends_with(
        l,
        "payer",
    ) || str_ends_with(l, "authority");
    if hint {
        trimmed_text_exec(value)
    } else {
        None
    }
}

pub open spec fn opt_object(o: Option<JsonValue>) -> Option<Seq<(Seq<char>, JsonView)>> {
    match o {
        Some(v) => match v@ {
            JsonView::Object(es) => Some(es),
            _ => None,
        },
        None => None,
    }
}

pub fn extract_asset_ref(value: &JsonValue) -> (r: Option<JsonValue>)
    ensures
        match r {
            Some(m) => m@ is Object && asset_ref_spec(value@) == opt_object(r),
            None => asset_ref_spec(value@) is None,
        },
{
    match value {
        JsonValue::Object(_) => {},
        _ => {
            return None;
        },
    }
    let address = match opt_trimmed_exec(first_field_exec(value, "address", "mint")) {
        Some(a) => a,
        None => {
            return None;
        },
    };
    let mut out = JsonValue::empty_object();
    out.insert(to_owned_string("address"), JsonValue::String(address));
    match opt_trimmed_exec(first_field_exec(value, "chain_ref", "chain_id")) {
        Some(c) => {
            out.insert(to_owned_string("chain_ref"), JsonValue::String(c));
        },
        None => {},
    }
    match opt_trimmed_exec(value.get("symbol")) {
        Some(sym) => {
            out.insert(to_owned_string("symbol"), JsonValue::String(sym));
        },
        None => {},
    }
    match value.get_u64("decimals") {
        Some(d) => {
            out.insert(to_owned_string("decimals"), JsonValue::Number(JsonNumber::PosInt(d)));
        },
        None => {},
    }
    Some(out)
}

pub fn extract_amount_ref(slot: &str, value: &JsonValue) -> (r: Option<JsonValue>)
    ensures
        match r {
            Some(m) => m@ is Object && amount_ref_spec(slot@, value@) == opt_object(r),
            None => amount_ref_spec(slot@, value@) is None,
        },
{
    let leaf = leaf_lower_exec(slot);
    let l = leaf.as_str();
    if !(str_contains(l, "amount") || str_eq(l, "value") || str_eq(l, "qty") || str_eq(l, "quantity") || str_eq(
        l,
        "size",
    )) {
        return None;
    }
    match value {
        JsonValue::Null => None,
        JsonValue::Bool(_) => None,
        JsonValue::Object(_) => {
            let mut out = JsonValue::empty_object();
            let mut any = false;
            match value.get("human") {
                Some(h) => {
                    out.insert(to_owned_string("amount_human"), h.clone_value());
                    any = true;
                },
                None => {},
            }
            match value.get("atomic") {
                Some(a) => {
                    out.insert(to_owned_string("amount_atomic"), a.clone_value());
                    any = true;
                },
                None => {},
            }
            if !any {
                let mut whole = JsonValue::empty_object();
                whole.insert(to_owned_string("amount_ref"), value.clone_value());
                Some(whole)
            } else {
                Some(out)
            }
        },
        _ => {
            let mut whole = JsonValue::empty_object();
            whole.insert(to_owned_string("amount_ref"), value.clone_value());
            Some(whole)
        },
    }
}

fn add_id_ref(m: &mut JsonValue, slot: &str)
    requires
        old(m)@ is Object,
    ensures
        final(m)@ == with_id_ref(slot@, old(m)@->Object_0),
{
    m.insert(to_owned_string("id"), JsonValue::String(to_owned_string(slot)));
    m.insert(to_owned_string("ref"), JsonValue::String(with_prefix("inputs.", slot)));
}

fn canon_item_exec(kind: u8, slot: &str, value: &JsonValue) -> (r: Option<JsonValue>)
    requires
        kind < 4,
    ensures
        match r {
            Some(x) => canon_item(kind as nat, slot@, value@) == Some(x@),
            None => canon_item(kind as nat, slot@, value@) is None,
        },
{
    if kind == 0 {
        match extract_chain_ref(slot, value) {
            Some(c) => {
                let mut m = JsonValue::empty_object();
                m.insert(to_owned_string("chain_ref"), JsonValue::String(c));
                add_id_ref(&mut m, slot);
                Some(m)
            },
            None => None,
        }
    } else if kind == 1 {
        match extract_account_ref(slot, value) {
            Some(a) => {
                let mut m = JsonValue::empty_object();
                m.insert(to_owned_string("role"), JsonValue::String(slot_leaf(slot)));
                m.insert(to_owned_string("account_ref"), JsonValue::String(a));
                add_id_ref(&mut m, slot);
                Some(m)
            },
            None => None,
        }
    } else if kind == 2 {
        match extract_asset_ref(value) {
            Some(mut m) => {
                add_id_ref(&mut m, slot);
                Some(m)
            },
            None => None,
        }
    } else {
        match extract_amount_ref(slot, value) {
            Some(mut m) => {
                add_id_ref(&mut m, slot);
                Some(m)
            },
            None => None,
        }
    }
}

fn canon_items_exec(resolved: &Vec<(String, JsonValue)>, kind: u8) -> (r: Vec<JsonValue>)
    requires
        kind < 4,
    ensures
        items_view(r@) == canon_items(entries_view(resolved@), kind as nat),
{
    let ghost rv = entries_view(resolved@);
    let mut out: Vec<JsonValue> = Vec::new();
    let mut i: usize = 0;
    assert(items_view(out@) =~= canon_items(rv.subrange(0, 0), kind as nat));
    while i < resolved.len()
        invariant
            i <= resolved@.len(),
            kind < 4,
            rv == entries_view(resolved@),
            items_view(out@) == canon_items(rv.subrange(0, i as int), kind as nat),
        decreases resolved.len() - i,
    {
        let ghost cur = rv.subrange(0, i + 1);
        assert(cur.drop_last() =~= rv.subrange(0, i as int));
        assert(cur.last() == (resolved@[i as int].0@, resolved@[i as int].1@));
        let ghost prev = items_view(out@);
        match canon_item_exec(kind, resolved[i].0.as_str(), &resolved[i].1) {
            Some(x) => {
                let ghost xv = x@;
                out.push(x);
                assert(items_view(out@) =~= prev + seq![xv]);
            },
            None => {
                assert(items_view(out@) =~= prev + Seq::<JsonView>::empty());
            },
        }
        i = i + 1;
    }
    assert(rv.subrange(0, rv.len() as int) =~= rv);
    out
}

/// The chains, accounts, assets and amounts among the resolved slots.
pub fn build_canonical_context_projection(resolved: &Vec<(String, JsonValue)>) -> (r: JsonValue)
    ensures
        r@ == canonical_spec(entries_view(resolved@)),
{
    let c = canon_items_exec(resolved, 0);
    let a = canon_items_exec(resolved, 1);
    let s = canon_items_exec(resolved, 2);
    let m = canon_items_exec(resolved, 3);
    let mut counts = JsonValue::empty_object();
    counts.insert(to_owned_string("chain_refs"), count_value(c.len()));
    counts.insert(to_owned_string("account_refs"), count_value(a.len()));
    counts.insert(to_owned_string("asset_refs"), count_value(s.len()));
    counts.insert(to_owned_string("amount_refs"), count_value(m.len()));
    proof {
        lemma_array_view(c);
        lemma_array_view(a);
        lemma_array_view(s);
        lemma_array_view(m);
    }
    let mut o = JsonValue::empty_object();
    o.insert(to_owned_string("chain_refs"), JsonValue::Array(c));
    o.insert(to_owned_string("account_refs"), JsonValue::Array(a));
    o.insert(to_owned_string("asset_refs"), JsonValue::Array(s));
    o.insert(to_owned_string("amount_refs"), JsonValue::Array(m));
    o.insert(to_owned_string("counts"), counts);
    o
}


// ---------------------------------------------------------------------------
// The input slots: what the store resolves and what the current todo still
// needs
// ---------------------------------------------------------------------------

/// The resolved and missing input slots, with their planner-facing value.
pub struct InputSlotProjection {
    pub value: JsonValue,
    pub resolved: Vec<(String, JsonValue)>,
    pub missing: Vec<String>,
}

/// The value the projection shows under `key`.
pub open spec fn projected_value(es: Seq<(String, InputStoreEntry)>, key: Seq<char>) -> Option<JsonView> {
    match get_projected_spec(es, key) {
        Some(e) => Some(e.value),
        None => None,
    }
}

/// `rv` is, in key order, every projected key of the store with the value
/// it reads (none without a store).
pub open spec fn store_slots_spec(rv: Seq<(Seq<char>, JsonView)>, store: Option<&InputStore>) -> bool {
    match store {
        None => rv.len() == 0,
        Some(st) => obj_sorted(rv) && forall|k: Seq<char>|
            #[trigger] obj_get(rv, k) == if projected_model(st.entries_spec()).dom().contains(k) {
                projected_value(st.entries_spec(), k)
            } else {
                None
            },
    }
}

/// The slots of the required facts that name one.
pub open spec fn required_slot_ids(items: Seq<JsonView>) -> Seq<Seq<char>>
    decreases items.len(),
{
    if items.len() == 0 {
        Seq::empty()
    } else {
        required_slot_ids(items.drop_last()) + match view_as_str(items.last()) {
            Some(s) => match slot_id_spec(s) {
                Some(id) => seq![id],
                None => Seq::<Seq<char>>::empty(),
            },
            None => Seq::<Seq<char>>::empty(),
        }
    }
}

/// The trimmed, non-blank ids of the questions.
pub open spec fn question_ids(items: Seq<JsonView>) -> Seq<Seq<char>>
    decreases items.len(),
{
    if items.len() == 0 {
        Seq::empty()
    } else {
        question_ids(items.drop_last()) + match field_str(items.last(), "id"@) {
            Some(s) => if trim(s).len() > 0 {
                seq![trim(s)]
            } else {
                Seq::<Seq<char>>::empty()
            },
            None => Seq::<Seq<char>>::empty(),
        }
    }
}

/// The slots among `xs` that are not resolved.
pub open spec fn unresolved(xs: Seq<Seq<char>>, rv: Seq<(Seq<char>, JsonView)>) -> Seq<Seq<char>>
    decreases xs.len(),
{
    if xs.len() == 0 {
        Seq::empty()
    } else {
        unresolved(xs.drop_last(), rv) + if obj_get(rv, xs.last()) is None {
            seq![xs.last()]
        } else {
            Seq::<Seq<char>>::empty()
        }
    }
}

pub open spec fn array_at(v: JsonView, path: Seq<char>) -> Seq<JsonView> {
    match pointer_spec(v, path) {
        Some(JsonView::Array(items)) => items,
        _ => Seq::empty(),
    }
}

/// The missing slots, sorted, each once: those the current todo requires
/// and those the missing-input questions ask, that are not resolved.
pub open spec fn missing_slots_spec(runtime: JsonView, rv: Seq<(Seq<char>, JsonView)>) -> Seq<Seq<char>> {
    let req = required_slot_ids(array_at(runtime, "/agent/todo_progress/current_todo/required_facts"@));
    let qs = question_ids(array_at(runtime, "/agent/missing_required_input/questions"@));
    key_list(sorted_keys(unresolved(req + qs, rv)))
}

pub open spec fn resolved_item(slot: Seq<char>, value: JsonView) -> JsonView {
    let e0 = obj_insert(Seq::empty(), "id"@, JsonView::Str(slot));
    let e1 = obj_insert(e0, "ref"@, JsonView::Str(input_ref(slot)));
    JsonView::Object(obj_insert(e1, "value"@, value))
}

pub open spec fn missing_item(slot: Seq<char>) -> JsonView {
    let e0 = obj_insert(Seq::empty(), "id"@, JsonView::Str(slot));
    JsonView::Object(obj_insert(e0, "ref"@, JsonView::Str(input_ref(slot))))
}

/// Each resolved slot's reference, as an object.
pub open spec fn canonical_refs_of(rv: Seq<(Seq<char>, JsonView)>) -> Seq<(Seq<char>, JsonView)>
    decreases rv.len(),
{
    if rv.len() == 0 {
        Seq::empty()
    } else {
        obj_insert(canonical_refs_of(rv.drop_last()), rv.last().0, JsonView::Str(input_ref(rv.last().0)))
    }
}

/// The planner-facing value: the resolved slots with their values, the
/// missing ones, each resolved slot's reference and the two counts.
pub open spec fn slots_value_spec(rv: Seq<(Seq<char>, JsonView)>, missing: Seq<Seq<char>>) -> JsonView {
    let c0 = obj_insert(Seq::empty(), "resolved"@, JsonView::Number(NumberView::PosInt(rv.len() as u64)));
    let c1 = obj_insert(c0, "missing"@, JsonView::Number(NumberView::PosInt(missing.len() as u64)));
    let e0 = obj_insert(
        Seq::empty(),
        "resolved"@,
        JsonView::Array(rv.map_values(|e: (Seq<char>, JsonView)| resolved_item(e.0, e.1))),
    );
    let e1 = obj_insert(e0, "missing"@, JsonView::Array(missing.map_values(|m: Seq<char>| missing_item(m))));
    let e2 = obj_insert(e1, "canonical_refs"@, JsonView::Object(canonical_refs_of(rv)));
    JsonView::Object(obj_insert(e2, "counts"@, JsonView::Object(c1)))
}

fn collect_input_store_input_slots(store: &InputStore) -> (r: Vec<(String, JsonValue)>)
    requires
        store.wf(),
    ensures
        store_slots_spec(entries_view(r@), Some(store)),
{
    let ghost es = store.entries_spec();
    let ghost d = projected_model(es).dom();
    let ks = store.list_projected_ref_strings();
    let ghost kv = ks@.map_values(|s: String| s@);
    let mut out: Vec<(String, JsonValue)> = Vec::new();
    let mut i: usize = 0;
    while i < ks.len()
        invariant
            i <= ks@.len(),
            kv == ks@.map_values(|s: String| s@),
            es == store.entries_spec(),
            store.wf(),
            lists_in_order(kv, d),
            d == projected_model(es).dom(),
            obj_sorted(entries_view(out@)),
            forall|k: Seq<char>|
                #[trigger] obj_get(entries_view(out@), k) == if exists|j: int| 0 <= j < i && kv[j] == k {
                    projected_value(es, k)
                } else {
                    None
                },
        decreases ks.len() - i,
    {
        let ghost before = entries_view(out@);
        let ghost ki = kv[i as int];
        assert(ks@[i as int]@ == ki);
        match store.get_projected(ks[i].as_str()) {
            Some(entry) => {
                let ghost v = entry.value@;
                insert_entry(&mut out, to_owned_string(ks[i].as_str()), entry.value);
                proof {
                    crate::json::lemma_obj_insert_sorted(before, ki, v);
                    assert forall|k: Seq<char>| #[trigger] obj_get(entries_view(out@), k) == if exists|j: int|
                        0 <= j < i + 1 && kv[j] == k {
                        projected_value(es, k)
                    } else {
                        None
                    } by {
                        crate::json::lemma_obj_get_insert(before, ki, v, k);
                        if k == ki {
                            assert(kv[i as int] == k);
                        } else {
                            if exists|j: int| 0 <= j < i + 1 && kv[j] == k {
                                let j = choose|j: int| 0 <= j < i + 1 && kv[j] == k;
                                assert(j < i);
                            }
                        }
                    }
                }
            },
            None => {
                proof {
                    assert forall|k: Seq<char>| #[trigger] obj_get(entries_view(out@), k) == if exists|j: int|
                        0 <= j < i + 1 && kv[j] == k {
                        projected_value(es, k)
                    } else {
                        None
                    } by {
                        if k == ki {
                            assert(kv[i as int] == k);
                            if exists|j: int| 0 <= j < i && kv[j] == k {
                                let j = choose|j: int| 0 <= j < i && kv[j] == k;
                                crate::text::lemma_seq_lt_irreflexive(k);
                                assert(seq_lt(kv[j], kv[i as int]));
                            }
                        } else {
                            if exists|j: int| 0 <= j < i + 1 && kv[j] == k {
                                let j = choose|j: int| 0 <= j < i + 1 && kv[j] == k;
                                assert(j < i);
                            }
                        }
                    }
                }
            },
        }
        i = i + 1;
    }
    proof {
        assert forall|k: Seq<char>| #[trigger] obj_get(entries_view(out@), k) == if d.contains(k) {
            projected_value(es, k)
        } else {
            None
        } by {
            if d.contains(k) {
                let j = choose|j: int| 0 <= j < kv.len() && kv[j] == k;
            }
            if exists|j: int| 0 <= j < kv.len() && kv[j] == k {
                let j = choose|j: int| 0 <= j < kv.len() && kv[j] == k;
                assert(d.contains(kv[j]));
            }
        }
    }
    out
}

fn push_required_slots(out: &mut Vec<String>, runtime: &JsonValue)
    ensures
        views(final(out)@) == views(old(out)@) + required_slot_ids(
            array_at(runtime@, "/agent/todo_progress/current_todo/required_facts"@),
        ),
{
    let ghost base = views(out@);
    match runtime.pointer("/agent/todo_progress/current_todo/required_facts") {
        Some(JsonValue::Array(items)) => {
            proof {
                lemma_array_view(*items);
            }
            let ghost iv = items_view(items@);
            let mut i: usize = 0;
            assert(iv.subrange(0, 0) =~= Seq::<JsonView>::empty());
            assert(views(out@) =~= base + Seq::<Seq<char>>::empty());
            while i < items.len()
                invariant
                    i <= items@.len(),
                    iv == items_view(items@),
                    views(out@) == base + required_slot_ids(iv.subrange(0, i as int)),
                decreases items.len() - i,
            {
                let ghost cur = iv.subrange(0, i + 1);
                assert(cur.drop_last() =~= iv.subrange(0, i as int));
                assert(cur.last() == items@[i as int]@);
                let ghost prev = views(out@);
                match items[i].as_str() {
                    Some(s) => match to_slot_id(s) {
                        Some(id) => {
                            let ghost idv = id@;
                            out.push(id);
                            assert(views(out@) =~= prev + seq![idv]);
                        },
                        None => {
                            assert(views(out@) =~= prev + Seq::<Seq<char>>::empty());
                        },
                    },
                    None => {
                        assert(views(out@) =~= prev + Seq::<Seq<char>>::empty());
                    },
                }
                i = i + 1;
            }
            assert(iv.subrange(0, iv.len() as int) =~= iv);
        },
        _ => {
            assert(views(out@) =~= base + Seq::<Seq<char>>::empty());
        },
    }
}

fn push_question_ids(out: &mut Vec<String>, runtime: &JsonValue)
    ensures
        views(final(out)@) == views(old(out)@) + question_ids(
            array_at(runtime@, "/agent/missing_required_input/questions"@),
        ),
{
    let ghost base = views(out@);
    match runtime.pointer("/agent/missing_required_input/questions") {
        Some(JsonValue::Array(items)) => {
            proof {
                lemma_array_view(*items);
            }
            let ghost iv = items_view(items@);
            let mut i: usize = 0;
            assert(iv.subrange(0, 0) =~= Seq::<JsonView>::empty());
            assert(views(out@) =~= base + Seq::<Seq<char>>::empty());
            while i < items.len()
                invariant
                    i <= items@.len(),
                    iv == items_view(items@),
                    views(out@) == base + question_ids(iv.subrange(0, i as int)),
                decreases items.len() - i,
            {
                let ghost cur = iv.subrange(0, i + 1);
                assert(cur.drop_last() =~= iv.subrange(0, i as int));
                assert(cur.last() == items@[i as int]@);
                let ghost prev = views(out@);
                match str_field(&items[i], "id") {
                    Some(s) => {
                        let t = trim_str(s);
                        if t.unicode_len() > 0 {
                            let ghost tv = t@;
                            out.push(t);
                            assert(views(out@) =~= prev + seq![tv]);
                        } else {
                            assert(views(out@) =~= prev + Seq::<Seq<char>>::empty());
                        }
                    },
                    None => {
                        assert(views(out@) =~= prev + Seq::<Seq<char>>::empty());
                    },
                }
                i = i + 1;
            }
            assert(iv.subrange(0, iv.len() as int) =~= iv);
        },
        _ => {
            assert(views(out@) =~= base + Seq::<Seq<char>>::empty());
        },
    }
}

pub fn build_input_slots_projection(runtime: &JsonValue, input_store: Option<&InputStore>) -> (r: InputSlotProjection)
    requires
        match input_store {
            Some(st) => st.wf(),
            None => true,
        },
    ensures
        store_slots_spec(entries_view(r.resolved@), input_store),
        views(r.missing@) == missing_slots_spec(runtime@, entries_view(r.resolved@)),
        r.value@ == slots_value_spec(entries_view(r.resolved@), views(r.missing@)),
{
    let resolved: Vec<(String, JsonValue)> = match input_store {
        Some(st) => collect_input_store_input_slots(st),
        None => {
            let v: Vec<(String, JsonValue)> = Vec::new();
            assert(entries_view(v@) =~= Seq::<(Seq<char>, JsonView)>::empty());
            v
        },
    };
    let ghost rv = entries_view(resolved@);
    let mut wanted: Vec<String> = Vec::new();
    assert(views(wanted@) =~= Seq::<Seq<char>>::empty());
    push_required_slots(&mut wanted, runtime);
    push_question_ids(&mut wanted, runtime);
    let ghost all = views(wanted@);
    assert(all =~= required_slot_ids(array_at(runtime@, "/agent/todo_progress/current_todo/required_facts"@))
        + question_ids(array_at(runtime@, "/agent/missing_required_input/questions"@)));
    let mut open: Vec<String> = Vec::new();
    let mut i: usize = 0;
    assert(views(open@) =~= unresolved(all.subrange(0, 0), rv));
    while i < wanted.len()
        invariant
            i <= wanted@.len(),
            all == views(wanted@),
            rv == entries_view(resolved@),
            views(open@) == unresolved(all.subrange(0, i as int), rv),
        decreases wanted.len() - i,
    {
        let ghost cur = all.subrange(0, i + 1);
        assert(cur.drop_last() =~= all.subrange(0, i as int));
        assert(cur.last() == wanted@[i as int]@);
        let ghost prev = views(open@);
        if entry_get(&resolved, wanted[i].as_str()).is_none() {
            open.push(to_owned_string(wanted[i].as_str()));
            assert(views(open@) =~= prev + seq![wanted@[i as int]@]);
        } else {
            assert(views(open@) =~= prev + Seq::<Seq<char>>::empty());
        }
        i = i + 1;
    }
    assert(all.subrange(0, all.len() as int) =~= all);
    let missing = sorted_strings(&open);
    let mut resolved_items: Vec<JsonValue> = Vec::new();
    let mut refs: Vec<(String, JsonValue)> = Vec::new();
    let mut k: usize = 0;
    assert(entries_view(refs@) =~= canonical_refs_of(rv.subrange(0, 0)));
    while k < resolved.len()
        invariant
            k <= resolved@.len(),
            rv == entries_view(resolved@),
            items_view(resolved_items@) == rv.subrange(0, k as int).map_values(
                |e: (Seq<char>, JsonView)| resolved_item(e.0, e.1),
            ),
            entries_view(refs@) == canonical_refs_of(rv.subrange(0, k as int)),
        decreases resolved.len() - k,
    {
        let ghost cur = rv.subrange(0, k + 1);
        assert(cur.drop_last() =~= rv.subrange(0, k as int));
        assert(cur.last() == (resolved@[k as int].0@, resolved@[k as int].1@));
        let slot = resolved[k].0.as_str();
        let reference = with_prefix("inputs.", slot);
        let mut item = JsonValue::empty_object();
        item.insert(to_owned_string("id"), JsonValue::String(to_owned_string(slot)));
        item.insert(to_owned_string("ref"), JsonValue::String(to_owned_string(reference.as_str())));
        item.insert(to_owned_string("value"), resolved[k].1.clone_value());
        let ghost prev = items_view(resolved_items@);
        let ghost iv = item@;
        resolved_items.push(item);
        assert(items_view(resolved_items@) =~= prev.push(iv));
        assert(items_view(resolved_items@) =~= rv.subrange(0, k + 1).map_values(
            |e: (Seq<char>, JsonView)| resolved_item(e.0, e.1),
        ));
        insert_entry(&mut refs, to_owned_string(slot), JsonValue::String(reference));
        k = k + 1;
    }
    assert(rv.subrange(0, rv.len() as int) =~= rv);
    let ghost mv = views(missing@);
    let mut missing_items: Vec<JsonValue> = Vec::new();
    let mut m: usize = 0;
    while m < missing.len()
        invariant
            m <= missing@.len(),
            mv == views(missing@),
            items_view(missing_items@) == mv.subrange(0, m as int).map_values(|x: Seq<char>| missing_item(x)),
        decreases missing.len() - m,
    {
        let slot = missing[m].as_str();
        let mut item = JsonValue::empty_object();
        item.insert(to_owned_string("id"), JsonValue::String(to_owned_string(slot)));
        item.insert(to_owned_string("ref"), JsonValue::String(with_prefix("inputs.", slot)));
        let ghost prev = items_view(missing_items@);
        let ghost iv = item@;
        assert(mv[m as int] == slot@);
        missing_items.push(item);
        assert(items_view(missing_items@) =~= prev.push(iv));
        assert(items_view(missing_items@) =~= mv.subrange(0, m + 1).map_values(|x: Seq<char>| missing_item(x)));
        m = m + 1;
    }
    assert(mv.subrange(0, mv.len() as int) =~= mv);
    let mut counts = JsonValue::empty_object();
    counts.insert(to_owned_string("resolved"), count_value(resolved.len()));
    counts.insert(to_owned_string("missing"), count_value(missing_items.len()));
    proof {
        lemma_array_view(resolved_items);
        lemma_array_view(missing_items);
        lemma_object_view(refs);
    }
    let mut value = JsonValue::empty_object();
    value.insert(to_owned_string("resolved"), JsonValue::Array(resolved_items));
    value.insert(to_owned_string("missing"), JsonValue::Array(missing_items));
    value.insert(to_owned_string("canonical_refs"), JsonValue::Object(refs));
    value.insert(to_owned_string("counts"), counts);
    InputSlotProjection { value, resolved, missing }
}

} // verus!
