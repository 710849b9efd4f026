//! Projections of the runtime state into the planner's state summary:
//! recovery diagnostics and the grounded intent slots.
use vstd::prelude::*;
use crate::agent::candidates::{field, field_str, key_list, sorted_keys, sorted_strings, views};
use crate::agent::input_normalize::{grounding_key_spec, normalize_grounding_input_key, normalize_input_slot_key,
    slot_key_spec};
use crate::json::{JsonNumber, JsonValue, JsonView, NumberView, entries_view, insert_entry, items_view, lemma_array_view,
    lemma_object_view, obj_insert, pointer_spec, view_as_str, view_as_u64};
use crate::text::{concat, contains, lower, starts_with, str_contains, str_eq, str_starts_with, to_ascii_lowercase,
    to_owned_string, trim, trim_str};

verus! {

/// Whether a slot can be bound to an input: no `:` in it, and not a fact.
pub open spec fn bindable_slot_spec(slot: Seq<char>) -> bool {
    let l = lower(slot);
    !contains(slot, ":"@) && !starts_with(l, "facts."@) && !starts_with(l, "fact."@) && !starts_with(l, "fact:"@)
}

pub fn is_bindable_input_slot(slot: &str) -> (b: bool)
    ensures
        b == bindable_slot_spec(slot@),
{
    let lowered = to_ascii_lowercase(slot);
    let l = lowered.as_str();
    !str_contains(slot, ":") && !str_starts_with(l, "facts.") && !str_starts_with(l, "fact.") && !str_starts_with(
        l,
        "fact:",
    )
}


// ---------------------------------------------------------------------------
// Recovery diagnostics
// ---------------------------------------------------------------------------

pub open spec fn opt_ptr(v: Option<JsonView>, path: Seq<char>) -> Option<JsonView> {
    match v {
        Some(x) => pointer_spec(x, path),
        None => None,
    }
}

pub open spec fn opt_field_str(v: Option<JsonView>, key: Seq<char>) -> Option<Seq<char>> {
    match v {
        Some(x) => field_str(x, key),
        None => None,
    }
}

pub open spec fn array_items(v: Option<JsonView>) -> Option<Seq<JsonView>> {
    match v {
        Some(JsonView::Array(items)) => Some(items),
        _ => None,
    }
}

/// The strings among `items`, trimmed, blank ones left out, each with
/// `prefix` in front.
pub open spec fn trimmed_keys(items: Seq<JsonView>, prefix: Seq<char>) -> Seq<Seq<char>>
    decreases items.len(),
{
    if items.len() == 0 {
        Seq::empty()
    } else {
        let rest = trimmed_keys(items.drop_last(), prefix);
        match view_as_str(items.last()) {
            Some(s) => if trim(s).len() > 0 {
                rest.push(prefix + trim(s))
            } else {
                rest
            },
            None => rest,
        }
    }
}

/// The keys an autofill attempt adds: its status, its query ref and its
/// missing ref, each when present (the refs when not blank).
pub open spec fn one_attempt_keys(a: JsonView) -> Seq<Seq<char>> {
    let s = match field_str(a, "status"@) {
        Some(m) => seq!["attempt_status:"@ + m],
        None => Seq::empty(),
    };
    let q = match field_str(a, "query_ref"@) {
        Some(r) => if trim(r).len() > 0 {
            seq!["query_ref:"@ + r]
        } else {
            Seq::empty()
        },
        None => Seq::empty(),
    };
    let m = match field_str(a, "missing_ref"@) {
        Some(r) => if trim(r).len() > 0 {
            seq!["missing_ref:"@ + r]
        } else {
            Seq::empty()
        },
        None => Seq::empty(),
    };
    s + q + m
}

pub open spec fn attempt_keys(items: Seq<JsonView>) -> Seq<Seq<char>>
    decreases items.len(),
{
    if items.len() == 0 {
        Seq::empty()
    } else {
        attempt_keys(items.drop_last()) + one_attempt_keys(items.last())
    }
}

/// The last eight attempts.
pub open spec fn recent(items: Seq<JsonView>) -> Seq<JsonView> {
    if items.len() > 8 {
        items.subrange(items.len() - 8, items.len() as int)
    } else {
        items
    }
}

/// Every attempt key, in the order they are gathered.
pub open spec fn gathered_keys(runtime: JsonView, previous_error: Option<JsonView>) -> Seq<Seq<char>> {
    let from_history = match array_items(opt_ptr(previous_error, "/autofill_history/attempt_keys"@)) {
        Some(items) => trimmed_keys(items, Seq::empty()),
        None => Seq::empty(),
    };
    let from_attempts = match array_items(pointer_spec(runtime, "/agent/missing_input_autofill/query_attempts"@)) {
        Some(items) => attempt_keys(recent(items)),
        None => Seq::empty(),
    };
    let from_mode = match opt_ptr(previous_error, "/autofill/mode"@) {
        Some(v) => match view_as_str(v) {
            Some(m) => seq!["mode:"@ + m],
            None => Seq::empty(),
        },
        None => Seq::empty(),
    };
    let from_selected = match array_items(opt_ptr(previous_error, "/autofill/selected_query_refs"@)) {
        Some(items) => trimmed_keys(items, "query_ref:"@),
        None => Seq::empty(),
    };
    from_history + from_attempts + from_mode + from_selected
}

pub open spec fn text_or_null(o: Option<Seq<char>>) -> JsonView {
    match o {
        Some(s) => JsonView::Str(s),
        None => JsonView::Null,
    }
}

pub open spec fn value_or_null(o: Option<JsonView>) -> JsonView {
    match o {
        Some(v) => v,
        None => JsonView::Null,
    }
}

/// Recovery diagnostics: the last query autofill round, the last eight
/// attempts, the last error's code and reason, whether candidates remain,
/// and every attempt key seen, sorted; none when there is nothing to show.
pub open spec fn recovery_spec(runtime: JsonView, previous_error: Option<JsonView>) -> Option<JsonView> {
    let round = pointer_spec(runtime, "/agent/missing_input_autofill/query_autofill_round"@);
    let attempts = match array_items(pointer_spec(runtime, "/agent/missing_input_autofill/query_attempts"@)) {
        Some(items) => Some(JsonView::Array(recent(items))),
        None => None,
    };
    let keys = key_list(sorted_keys(gathered_keys(runtime, previous_error)));
    let code = opt_field_str(previous_error, "reason_code"@);
    let reason = match opt_field_str(previous_error, "message"@) {
        Some(m) => Some(m),
        None => opt_field_str(previous_error, "sub_reason_code"@),
    };
    let remaining = match opt_field_str(round, "terminal_reason"@) {
        Some(r) => r != "no_query_candidates"@ && r != "router_unavailable"@,
        None => false,
    };
    if round is None && attempts is None && keys.len() == 0 && code is None && reason is None {
        None
    } else {
        let e0 = obj_insert(Seq::empty(), "schema"@, JsonView::Str("ais-agent-recovery-diagnostics/0.0.1"@));
        let e1 = obj_insert(e0, "recent_query_autofill_round"@, value_or_null(round));
        let e2 = obj_insert(e1, "recent_attempts"@, value_or_null(attempts));
        let e3 = obj_insert(e2, "last_error_code"@, text_or_null(code));
        let e4 = obj_insert(e3, "last_error_reason"@, text_or_null(reason));
        let e5 = obj_insert(e4, "recoverable_candidates_remaining"@, JsonView::Bool(remaining));
        Some(
            JsonView::Object(
                obj_insert(
                    e5,
                    "available_attempt_keys"@,
                    JsonView::Array(keys.map_values(|k: Seq<char>| JsonView::Str(k))),
                ),
            ),
        )
    }
}

fn items_at<'a>(v: Option<&'a JsonValue>, path: &str) -> (r: Option<&'a Vec<JsonValue>>)
    ensures
        match r {
            Some(a) => array_items(opt_ptr(opt_json(v), path@)) == Some(items_view(a@)),
            None => array_items(opt_ptr(opt_json(v), path@)) is None,
        },
{
    match v {
        Some(x) => match x.pointer(path) {
            Some(JsonValue::Array(items)) => {
                proof {
                    lemma_array_view(*items);
                }
                Some(items)
            },
            _ => None,
        },
        None => None,
    }
}

pub open spec fn opt_json(v: Option<&JsonValue>) -> Option<JsonView> {
    match v {
        Some(x) => Some(x@),
        None => None,
    }
}

fn push_trimmed_keys(out: &mut Vec<String>, items: &Vec<JsonValue>, prefix: &str)
    ensures
        views(final(out)@) == views(old(out)@) + trimmed_keys(items_view(items@), prefix@),
{
    let ghost base = views(out@);
    let ghost iv = items_view(items@);
    let mut i: usize = 0;
    while i < items.len()
        invariant
            i <= items@.len(),
            iv == items_view(items@),
            views(out@) == base + trimmed_keys(iv.subrange(0, i as int), prefix@),
        decreases items.len() - i,
    {
        let ghost pre = iv.subrange(0, i + 1);
        assert(pre.drop_last() =~= iv.subrange(0, i as int));
        assert(pre.last() == items@[i as int]@);
        match items[i].as_str() {
            Some(s) => {
                let t = trim_str(s);
                if t.as_str().unicode_len() > 0 {
                    let k = concat(prefix, t.as_str());
                    let ghost before = views(out@);
                    out.push(k);
                    assert(views(out@) =~= before.push(prefix@ + trim(s@)));
                }
            },
            None => {},
        }
        i = i + 1;
    }
    assert(iv.subrange(0, iv.len() as int) =~= iv);
}

fn str_field<'a>(v: &'a JsonValue, key: &str) -> (r: Option<&'a str>)
    ensures
        match r {
            Some(s) => field_str(v@, key@) == Some(s@),
            None => field_str(v@, key@) is None,
        },
{
    match v.get(key) {
        Some(x) => x.as_str(),
        None => None,
    }
}

fn push_attempt_keys(out: &mut Vec<String>, a: &JsonValue)
    ensures
        views(final(out)@) == views(old(out)@) + one_attempt_keys(a@),
{
    let ghost base = views(out@);
    let mut added: Vec<String> = Vec::new();
    match str_field(a, "status") {
        Some(m) => {
            added.push(concat("attempt_status:", m));
        },
        None => {},
    }
    let ghost after_status = views(added@);
    match str_field(a, "query_ref") {
        Some(r) => {
            if !crate::text::is_blank(r) {
                added.push(concat("query_ref:", r));
            }
        },
        None => {},
    }
    let ghost after_query = views(added@);
    match str_field(a, "missing_ref") {
        Some(r) => {
            if !crate::text::is_blank(r) {
                added.push(concat("missing_ref:", r));
            }
        },
        None => {},
    }
    assert(views(added@) =~= one_attempt_keys(a@));
    let mut i: usize = 0;
    while i < added.len()
        invariant
            i <= added@.len(),
            views(out@) == base + views(added@).subrange(0, i as int),
        decreases added.len() - i,
    {
        let ghost before = views(out@);
        out.push(to_owned_string(added[i].as_str()));
        assert(views(added@)[i as int] == added@[i as int]@);
        assert(views(out@) =~= before.push(added@[i as int]@));
        assert(views(out@) =~= base + views(added@).subrange(0, i + 1));
        i = i + 1;
    }
    assert(views(added@).subrange(0, added@.len() as int) =~= views(added@));
}

/// The last eight query attempts of the runtime's autofill, when it has a
/// list of them.
fn recent_attempts(runtime: &JsonValue) -> (r: Option<Vec<JsonValue>>)
    ensures
        match r {
            Some(l) => array_items(pointer_spec(runtime@, "/agent/missing_input_autofill/query_attempts"@)) matches Some(
                items,
            ) && items_view(l@) == recent(items),
            None => array_items(pointer_spec(runtime@, "/agent/missing_input_autofill/query_attempts"@)) is None,
        },
{
    let mut attempts: Option<Vec<JsonValue>> = None;
    match runtime.pointer("/agent/missing_input_autofill/query_attempts") {
        Some(JsonValue::Array(items)) => {
            proof {
                lemma_array_view(*items);
            }
            let keep: usize = if items.len() > 8 {
                items.len() - 8
            } else {
                0
            };
            let mut kept: Vec<JsonValue> = Vec::new();
            let mut i: usize = keep;
            while i < items.len()
                invariant
                    keep <= i <= items@.len(),
                    keep == (if items@.len() > 8 {
                        items@.len() - 8
                    } else {
                        0
                    }),
                    items_view(kept@) == items_view(items@).subrange(keep as int, i as int),
                decreases items.len() - i,
            {
                let ghost before = items_view(kept@);
                kept.push(items[i].clone_value());
                assert(items_view(items@)[i as int] == items@[i as int]@);
                assert(items_view(kept@) =~= before.push(items@[i as int]@));
                assert(items_view(kept@) =~= items_view(items@).subrange(keep as int, i + 1));
                i = i + 1;
            }
            assert(items_view(kept@) =~= recent(items_view(items@)));
            attempts = Some(kept);
        },
        Some(other) => {
            proof {
                match other {
                    JsonValue::Object(es) => lemma_object_view(*es),
                    _ => {},
                }
            }
        },
        None => {},
    }
    attempts
}

/// Every attempt key, gathered in order.
#[verifier::spinoff_prover]
#[verifier::rlimit(40)]
fn gather_keys(runtime: &JsonValue, previous_error: Option<&JsonValue>, attempts: &Option<Vec<JsonValue>>) -> (r:
    Vec<String>)
    requires
        match attempts {
            Some(l) => array_items(pointer_spec(runtime@, "/agent/missing_input_autofill/query_attempts"@)) matches Some(
                items,
            ) && items_view(l@) == recent(items),
            None => array_items(pointer_spec(runtime@, "/agent/missing_input_autofill/query_attempts"@)) is None,
        },
    ensures
        views(r@) == gathered_keys(runtime@, opt_json(previous_error)),
{
    let mut keys: Vec<String> = Vec::new();
    match items_at(previous_error, "/autofill_history/attempt_keys") {
        Some(items) => {
            proof {
                reveal_strlit("");
                assert(""@ =~= Seq::<char>::empty());
            }
            let ghost before = views(keys@);
            push_trimmed_keys(&mut keys, items, "");
            assert(views(keys@) =~= trimmed_keys(items_view(items@), Seq::empty()));
        },
        None => {
            assert(views(keys@) =~= Seq::<Seq<char>>::empty());
        },
    }
    let ghost k1 = views(keys@);
    match attempts {
        Some(list) => {
            let ghost lv = items_view(list@);
            let mut i: usize = 0;
            while i < list.len()
                invariant
                    i <= list@.len(),
                    lv == items_view(list@),
                    views(keys@) == k1 + attempt_keys(lv.subrange(0, i as int)),
                decreases list.len() - i,
            {
                let ghost pre = lv.subrange(0, i + 1);
                assert(pre.drop_last() =~= lv.subrange(0, i as int));
                assert(pre.last() == list@[i as int]@);
                push_attempt_keys(&mut keys, &list[i]);
                assert(views(keys@) =~= k1 + attempt_keys(pre));
                i = i + 1;
            }
            assert(lv.subrange(0, lv.len() as int) =~= lv);
        },
        None => {
            assert(views(keys@) =~= k1 + Seq::<Seq<char>>::empty());
        },
    }
    let ghost k2 = views(keys@);
    let mode = match previous_error {
        Some(p) => match p.pointer("/autofill/mode") {
            Some(v) => v.as_str(),
            None => None,
        },
        None => None,
    };
    match mode {
        Some(m) => {
            keys.push(concat("mode:", m));
            assert(views(keys@) =~= k2 + seq!["mode:"@ + m@]);
        },
        None => {
            assert(views(keys@) =~= k2 + Seq::<Seq<char>>::empty());
        },
    }
    let ghost k3 = views(keys@);
    match items_at(previous_error, "/autofill/selected_query_refs") {
        Some(items) => {
            push_trimmed_keys(&mut keys, items, "query_ref:");
        },
        None => {
            assert(views(keys@) =~= k3 + Seq::<Seq<char>>::empty());
        },
    }
    assert(views(keys@) =~= gathered_keys(runtime@, opt_json(previous_error)));
    keys
}

#[verifier::spinoff_prover]
#[verifier::rlimit(60)]
pub fn build_recovery_diagnostics_projection(runtime: &JsonValue, previous_error: Option<&JsonValue>) -> (r: Option<
    JsonValue,
>)
    ensures
        match r {
            Some(v) => recovery_spec(runtime@, opt_json(previous_error)) == Some(v@),
            None => recovery_spec(runtime@, opt_json(previous_error)) is None,
        },
{
    let round = match runtime.pointer("/agent/missing_input_autofill/query_autofill_round") {
        Some(x) => Some(x.clone_value()),
        None => None,
    };
    let attempts = recent_attempts(runtime);
    let keys = gather_keys(runtime, previous_error, &attempts);
    let sorted = sorted_strings(&keys);
    let code = match previous_error {
        Some(p) => str_field(p, "reason_code"),
        None => None,
    };
    let reason = match previous_error {
        Some(p) => match str_field(p, "message") {
            Some(m) => Some(m),
            None => str_field(p, "sub_reason_code"),
        },
        None => None,
    };
    let remaining = match &round {
        Some(rv) => match str_field(rv, "terminal_reason") {
            Some(t) => !str_eq(t, "no_query_candidates") && !str_eq(t, "router_unavailable"),
            None => false,
        },
        None => false,
    };
    if round.is_none() && attempts.is_none() && sorted.len() == 0 && code.is_none() && reason.is_none() {
        return None;
    }
    let mut o = JsonValue::empty_object();
    o.insert(to_owned_string("schema"), JsonValue::String(to_owned_string("ais-agent-recovery-diagnostics/0.0.1")));
    let round_value = match round {
        Some(v) => v,
        None => JsonValue::Null,
    };
    o.insert(to_owned_string("recent_query_autofill_round"), round_value);
    let attempts_value = match attempts {
        Some(list) => {
            proof {
                lemma_array_view(list);
            }
            JsonValue::Array(list)
        },
        None => JsonValue::Null,
    };
    o.insert(to_owned_string("recent_attempts"), attempts_value);
    let code_value = match code {
        Some(c) => JsonValue::String(to_owned_string(c)),
        None => JsonValue::Null,
    };
    o.insert(to_owned_string("last_error_code"), code_value);
    let reason_value = match reason {
        Some(c) => JsonValue::String(to_owned_string(c)),
        None => JsonValue::Null,
    };
    o.insert(to_owned_string("last_error_reason"), reason_value);
    o.insert(to_owned_string("recoverable_candidates_remaining"), JsonValue::Bool(remaining));
    let mut list: Vec<JsonValue> = Vec::new();
    let mut j: usize = 0;
    while j < sorted.len()
        invariant
            j <= sorted@.len(),
            items_view(list@) == views(sorted@).subrange(0, j as int).map_values(|k: Seq<char>| JsonView::Str(k)),
        decreases sorted.len() - j,
    {
        let ghost before = items_view(list@);
        list.push(JsonValue::String(to_owned_string(sorted[j].as_str())));
        assert(views(sorted@)[j as int] == sorted@[j as int]@);
        assert(items_view(list@) =~= before.push(JsonView::Str(sorted@[j as int]@)));
        assert(items_view(list@) =~= views(sorted@).subrange(0, j + 1).map_values(|k: Seq<char>| JsonView::Str(k)));
        j = j + 1;
    }
    assert(views(sorted@).subrange(0, sorted@.len() as int) =~= views(sorted@));
    proof {
        lemma_array_view(list);
    }
    o.insert(to_owned_string("available_attempt_keys"), JsonValue::Array(list));
    Some(o)
}

// ---------------------------------------------------------------------------
// Intent slots
// ---------------------------------------------------------------------------

/// The input slot a grounding key names, when it is one that can be bound.
pub open spec fn bindable_slot_of(key: Seq<char>) -> Option<Seq<char>> {
    match slot_key_spec(grounding_key_spec(key)) {
        Some(slot) => if bindable_slot_spec(slot) {
            Some(slot)
        } else {
            None
        },
        None => None,
    }
}

/// The resolved inputs by slot: each entry whose key names a bindable
/// slot, under that slot (a later entry for the same slot wins).
pub open spec fn resolved_entries(es: Seq<(Seq<char>, JsonView)>) -> Seq<(Seq<char>, JsonView)>
    decreases es.len(),
{
    if es.len() == 0 {
        Seq::empty()
    } else {
        let rest = resolved_entries(es.drop_last());
        match bindable_slot_of(es.last().0) {
            Some(slot) => obj_insert(rest, slot, es.last().1),
            None => rest,
        }
    }
}

/// The input refs of those slots, in entry order.
pub open spec fn resolved_refs(es: Seq<(Seq<char>, JsonView)>) -> Seq<Seq<char>>
    decreases es.len(),
{
    if es.len() == 0 {
        Seq::empty()
    } else {
        let rest = resolved_refs(es.drop_last());
        match bindable_slot_of(es.last().0) {
            Some(slot) => rest.push("inputs."@ + slot),
            None => rest,
        }
    }
}

fn bindable_slot(key: &str) -> (r: Option<String>)
    ensures
        match r {
            Some(s) => bindable_slot_of(key@) == Some(s@),
            None => bindable_slot_of(key@) is None,
        },
{
    let canonical = normalize_grounding_input_key(key);
    match normalize_input_slot_key(canonical.as_str()) {
        Some(slot) => {
            if is_bindable_input_slot(slot.as_str()) {
                Some(slot)
            } else {
                None
            }
        },
        None => None,
    }
}

pub open spec fn opt_entries(o: Option<&Vec<(String, JsonValue)>>) -> Seq<(Seq<char>, JsonView)> {
    match o {
        Some(es) => entries_view(es@),
        None => Seq::empty(),
    }
}

/// The resolved inputs by bindable slot, and their input refs sorted.
pub fn normalize_resolved_inputs_for_projection(resolved_inputs: Option<&Vec<(String, JsonValue)>>) -> (r: (
    Vec<(String, JsonValue)>,
    Vec<String>,
))
    ensures
        entries_view(r.0@) == resolved_entries(opt_entries(resolved_inputs)),
        views(r.1@) == (match resolved_inputs {
            Some(_) => key_list(sorted_keys(resolved_refs(opt_entries(resolved_inputs)))),
            None => Seq::empty(),
        }),
{
    let mut normalized: Vec<(String, JsonValue)> = Vec::new();
    let mut refs: Vec<String> = Vec::new();
    let es = match resolved_inputs {
        Some(es) => es,
        None => {
            assert(entries_view(normalized@) =~= Seq::<(Seq<char>, JsonView)>::empty());
            assert(views(refs@) =~= Seq::<Seq<char>>::empty());
            return (normalized, refs);
        },
    };
    let ghost ev = entries_view(es@);
    assert(entries_view(normalized@) =~= Seq::<(Seq<char>, JsonView)>::empty());
    assert(views(refs@) =~= Seq::<Seq<char>>::empty());
    let mut i: usize = 0;
    while i < es.len()
        invariant
            i <= es@.len(),
            ev == entries_view(es@),
            entries_view(normalized@) == resolved_entries(ev.subrange(0, i as int)),
            views(refs@) == resolved_refs(ev.subrange(0, i as int)),
        decreases es.len() - i,
    {
        let ghost pre = ev.subrange(0, i + 1);
        assert(pre.drop_last() =~= ev.subrange(0, i as int));
        assert(pre.last() == (es@[i as int].0@, es@[i as int].1@));
        match bindable_slot(es[i].0.as_str()) {
            Some(slot) => {
                let r = concat("inputs.", slot.as_str());
                insert_entry(&mut normalized, slot, es[i].1.clone_value());
                let ghost before = views(refs@);
                refs.push(r);
                assert(views(refs@) =~= before.push(r@));
            },
            None => {},
        }
        i = i + 1;
    }
    assert(ev.subrange(0, ev.len() as int) =~= ev);
    let sorted = sorted_strings(&refs);
    (normalized, sorted)
}

/// The confidence of each bindable input slot: entries holding a
/// non-negative integer, under `inputs.` and their slot; `fact:` keys and
/// keys naming no bindable slot are left out.
pub open spec fn confidence_entries(es: Seq<(Seq<char>, JsonView)>) -> Seq<(Seq<char>, JsonView)>
    decreases es.len(),
{
    if es.len() == 0 {
        Seq::empty()
    } else {
        let rest = confidence_entries(es.drop_last());
        let (k, v) = es.last();
        match view_as_u64(v) {
            Some(u) => if starts_with(k, "fact:"@) {
                rest
            } else {
                match bindable_slot_of(k) {
                    Some(slot) => obj_insert(rest, "inputs."@ + slot, JsonView::Number(NumberView::PosInt(u))),
                    None => rest,
                }
            },
            None => rest,
        }
    }
}

pub fn normalize_grounding_confidence_for_projection(confidence: Option<&Vec<(String, JsonValue)>>) -> (r: Vec<
    (String, JsonValue),
>)
    ensures
        entries_view(r@) == confidence_entries(opt_entries(confidence)),
{
    let mut out: Vec<(String, JsonValue)> = Vec::new();
    assert(entries_view(out@) =~= Seq::<(Seq<char>, JsonView)>::empty());
    let es = match confidence {
        Some(es) => es,
        None => return out,
    };
    let ghost ev = entries_view(es@);
    let mut i: usize = 0;
    while i < es.len()
        invariant
            i <= es@.len(),
            ev == entries_view(es@),
            entries_view(out@) == confidence_entries(ev.subrange(0, i as int)),
        decreases es.len() - i,
    {
        let ghost pre = ev.subrange(0, i + 1);
        assert(pre.drop_last() =~= ev.subrange(0, i as int));
        assert(pre.last() == (es@[i as int].0@, es@[i as int].1@));
        match es[i].1.as_u64() {
            Some(u) => {
                if !str_starts_with(es[i].0.as_str(), "fact:") {
                    match bindable_slot(es[i].0.as_str()) {
                        Some(slot) => {
                            let key = concat("inputs.", slot.as_str());
                            insert_entry(&mut out, key, JsonValue::Number(JsonNumber::PosInt(u)));
                        },
                        None => {},
                    }
                }
            },
            None => {},
        }
        i = i + 1;
    }
    assert(ev.subrange(0, ev.len() as int) =~= ev);
    out
}

pub open spec fn object_entries(v: Option<JsonView>) -> Option<Seq<(Seq<char>, JsonView)>> {
    match v {
        Some(JsonView::Object(es)) => Some(es),
        _ => None,
    }
}

/// The grounded intent slots: null without grounding, the grounding itself
/// when it is not an object; otherwise its resolved inputs by bindable
/// slot with their refs, the confidence of each, and the note that these
/// are not bindable themselves.
pub open spec fn intent_slots_spec(runtime: JsonView) -> JsonView {
    match pointer_spec(runtime, "/agent/intent_grounding"@) {
        None => JsonView::Null,
        Some(g) => match g {
            JsonView::Object(ges) => {
                let resolved = object_entries(field(g, "resolved_inputs"@));
                let confidence = object_entries(field(g, "confidence"@));
                let res_es = match resolved {
                    Some(es) => resolved_entries(es),
                    None => Seq::empty(),
                };
                let refs = match resolved {
                    Some(es) => key_list(sorted_keys(resolved_refs(es))),
                    None => Seq::empty(),
                };
                let conf = match confidence {
                    Some(es) => confidence_entries(es),
                    None => Seq::empty(),
                };
                let b0 = obj_insert(Seq::empty(), "role"@, JsonView::Str("grounding_intermediate"@));
                let b1 = obj_insert(b0, "bindable"@, JsonView::Bool(false));
                let binding = obj_insert(b1, "source_of_truth"@, JsonView::Str("state_summary.input_store"@));
                let e0 = obj_insert(Seq::empty(), "resolved_inputs"@, JsonView::Object(res_es));
                let e1 = obj_insert(
                    e0,
                    "resolved_input_refs"@,
                    JsonView::Array(refs.map_values(|k: Seq<char>| JsonView::Str(k))),
                );
                let e2 = obj_insert(
                    e1,
                    "confidence"@,
                    JsonView::Object(obj_insert(Seq::empty(), "inputs"@, JsonView::Object(conf))),
                );
                JsonView::Object(obj_insert(e2, "input_binding"@, JsonView::Object(binding)))
            },
            _ => g,
        },
    }
}

fn object_field<'a>(v: &'a JsonValue, key: &str) -> (r: Option<&'a Vec<(String, JsonValue)>>)
    ensures
        match r {
            Some(es) => object_entries(field(v@, key@)) == Some(entries_view(es@)),
            None => object_entries(field(v@, key@)) is None,
        },
{
    match v.get(key) {
        Some(JsonValue::Object(es)) => {
            proof {
                lemma_object_view(*es);
            }
            Some(es)
        },
        _ => None,
    }
}

pub fn build_intent_slots_projection(runtime: &JsonValue) -> (r: JsonValue)
    ensures
        r@ == intent_slots_spec(runtime@),
{
    let grounding = match runtime.pointer("/agent/intent_grounding") {
        Some(g) => g,
        None => return JsonValue::Null,
    };
    match grounding {
        JsonValue::Object(_) => {},
        _ => return grounding.clone_value(),
    }
    let resolved = object_field(grounding, "resolved_inputs");
    let (res_es, refs) = normalize_resolved_inputs_for_projection(resolved);
    let conf = normalize_grounding_confidence_for_projection(object_field(grounding, "confidence"));
    let mut out = JsonValue::empty_object();
    proof {
        lemma_object_view(res_es);
    }
    out.insert(to_owned_string("resolved_inputs"), JsonValue::Object(res_es));
    let mut list: Vec<JsonValue> = Vec::new();
    let mut j: usize = 0;
    while j < refs.len()
        invariant
            j <= refs@.len(),
            items_view(list@) == views(refs@).subrange(0, j as int).map_values(|k: Seq<char>| JsonView::Str(k)),
        decreases refs.len() - j,
    {
        let ghost before = items_view(list@);
        list.push(JsonValue::String(to_owned_string(refs[j].as_str())));
        assert(views(refs@)[j as int] == refs@[j as int]@);
        assert(items_view(list@) =~= before.push(JsonView::Str(refs@[j as int]@)));
        assert(items_view(list@) =~= views(refs@).subrange(0, j + 1).map_values(|k: Seq<char>| JsonView::Str(k)));
        j = j + 1;
    }
    assert(views(refs@).subrange(0, refs@.len() as int) =~= views(refs@));
    proof {
        lemma_array_view(list);
        lemma_object_view(conf);
    }
    out.insert(to_owned_string("resolved_input_refs"), JsonValue::Array(list));
    let mut c = JsonValue::empty_object();
    c.insert(to_owned_string("inputs"), JsonValue::Object(conf));
    out.insert(to_owned_string("confidence"), c);
    let mut binding = JsonValue::empty_object();
    binding.insert(to_owned_string("role"), JsonValue::String(to_owned_string("grounding_intermediate")));
    binding.insert(to_owned_string("bindable"), JsonValue::Bool(false));
    binding.insert(to_owned_string("source_of_truth"), JsonValue::String(to_owned_string("state_summary.input_store")));
    out.insert(to_owned_string("input_binding"), binding);
    out
}

} // verus!
