//! Reading stored input values for reuse.
use vstd::prelude::*;
use crate::agent::input_store::{InputStore, InputValueStability, VolatileInputSignal, input_signal_matches,
    valid_keys, volatile_signal_matches_key};
use crate::agent::input_normalize::slot_key_spec;
use crate::agent::candidates::{field, field_str, key_list, sorted_keys, sorted_strings, views};
use crate::json::{JsonValue, JsonView, json_text, obj_get, pointer_spec, view_as_str};
use crate::keyed::key_seq;
use crate::text::{CharClass, chars_of, concat, split_by, split_chars, str_eq, string_from_chars, strip_prefix,
    str_strip_prefix, to_owned_string, trim, trim_str};

verus! {

/// The stability a stored value declares: `stable` or `volatile` once
/// trimmed, unknown otherwise.
pub open spec fn stability_spec(raw: Seq<char>) -> InputValueStability {
    if trim(raw) == "stable"@ {
        InputValueStability::Stable
    } else if trim(raw) == "volatile"@ {
        InputValueStability::Volatile
    } else {
        InputValueStability::Unknown
    }
}

pub fn parse_stability(raw: &str) -> (r: InputValueStability)
    ensures
        r == stability_spec(raw@),
{
    let t = trim_str(raw);
    if str_eq(t.as_str(), "stable") {
        InputValueStability::Stable
    } else if str_eq(t.as_str(), "volatile") {
        InputValueStability::Volatile
    } else {
        InputValueStability::Unknown
    }
}

/// A stored value can be reused when it is not volatile, or when it was
/// observed at most `max_age_ms` before `now_ms` (a time after `now_ms`
/// counts as age zero).
pub open spec fn reusable_spec(
    stability: InputValueStability,
    observed_at_ms: Option<u64>,
    now_ms: u64,
    max_age_ms: u64,
) -> bool {
    match stability {
        InputValueStability::Volatile => match observed_at_ms {
            Some(t) => (if now_ms >= t {
                now_ms - t
            } else {
                0
            }) <= max_age_ms,
            None => false,
        },
        _ => true,
    }
}

pub fn is_reusable(stability: InputValueStability, observed_at_ms: Option<u64>, now_ms: u64, max_age_ms: u64) -> (b:
    bool)
    ensures
        b == reusable_spec(stability, observed_at_ms, now_ms, max_age_ms),
{
    match stability {
        InputValueStability::Volatile => match observed_at_ms {
            Some(t) => now_ms.saturating_sub(t) <= max_age_ms,
            None => false,
        },
        _ => true,
    }
}


// ---------------------------------------------------------------------------
// Reading values of a run
// ---------------------------------------------------------------------------

/// What the views read of an engine run: its runtime document and the
/// nodes it has completed and approved.
pub struct RunnerStateView {
    pub runtime: JsonValue,
    pub completed_node_ids: Vec<String>,
    pub approved_node_ids: Vec<String>,
}

/// The non-empty parts in order.
pub open spec fn nonempty_parts(ps: Seq<Seq<char>>) -> Seq<Seq<char>>
    decreases ps.len(),
{
    if ps.len() == 0 {
        Seq::empty()
    } else {
        let rest = nonempty_parts(ps.drop_last());
        if ps.last().len() == 0 {
            rest
        } else {
            rest.push(ps.last())
        }
    }
}

/// The non-empty parts of `s` between dots.
pub open spec fn dot_parts(s: Seq<char>) -> Seq<Seq<char>> {
    nonempty_parts(split_by(s, CharClass::One('.')))
}

/// The value reached from `v` through the object keys `ks`.
pub open spec fn walk_fields(v: JsonView, ks: Seq<Seq<char>>) -> Option<JsonView>
    decreases ks.len(),
{
    if ks.len() == 0 {
        Some(v)
    } else {
        match field(v, ks[0]) {
            Some(x) => walk_fields(x, ks.drop_first()),
            None => None,
        }
    }
}

pub open spec fn dotted_value(v: JsonView, dotted: Seq<char>) -> Option<JsonView> {
    walk_fields(v, dot_parts(dotted))
}

fn dot_parts_of(s: &str) -> (r: Vec<String>)
    ensures
        views(r@) == dot_parts(s@),
{
    let cs = chars_of(s);
    let parts = split_chars(&cs, CharClass::One('.'));
    let ghost ps = split_by(s@, CharClass::One('.'));
    let mut out: Vec<String> = Vec::new();
    let mut i: usize = 0;
    while i < parts.len()
        invariant
            i <= parts@.len(),
            parts@.len() == ps.len(),
            forall|k: int| 0 <= k < parts@.len() ==> #[trigger] parts@[k]@ == ps[k],
            views(out@) == nonempty_parts(ps.subrange(0, i as int)),
        decreases parts.len() - i,
    {
        let piece = string_from_chars(&parts[i]);
        proof {
            let pre = ps.subrange(0, i + 1);
            assert(pre.drop_last() =~= ps.subrange(0, i as int));
            assert(pre.last() == ps[i as int]);
        }
        if piece.as_str().unicode_len() != 0 {
            let ghost before = views(out@);
            out.push(piece);
            assert(views(out@) =~= before.push(ps[i as int]));
        }
        i = i + 1;
    }
    assert(ps.subrange(0, ps.len() as int) =~= ps);
    out
}

fn walk_from<'a>(v: &'a JsonValue, ks: &Vec<String>, idx: usize) -> (r: Option<&'a JsonValue>)
    requires
        idx <= ks@.len(),
    ensures
        match r {
            Some(x) => walk_fields(v@, views(ks@).subrange(idx as int, ks@.len() as int)) == Some(x@),
            None => walk_fields(v@, views(ks@).subrange(idx as int, ks@.len() as int)) is None,
        },
    decreases ks.len() - idx,
{
    let ghost rest = views(ks@).subrange(idx as int, ks@.len() as int);
    if idx == ks.len() {
        return Some(v);
    }
    assert(rest[0] == ks@[idx as int]@);
    assert(rest.drop_first() =~= views(ks@).subrange(idx + 1, ks@.len() as int));
    match v.get(ks[idx].as_str()) {
        Some(x) => walk_from(x, ks, idx + 1),
        None => None,
    }
}

/// The value at the dotted path `dotted` (empty parts skipped) under `root`.
pub fn value_at_dotted_path<'a>(root: &'a JsonValue, dotted: &str) -> (r: Option<&'a JsonValue>)
    ensures
        match r {
            Some(x) => dotted_value(root@, dotted@) == Some(x@),
            None => dotted_value(root@, dotted@) is None,
        },
{
    let ks = dot_parts_of(dotted);
    assert(views(ks@).subrange(0, ks@.len() as int) =~= views(ks@));
    walk_from(root, &ks, 0)
}

/// The value at a dotted path that names at least one key of the object
/// `root`.
pub open spec fn dotted_value_in_object(root: JsonView, dotted: Seq<char>) -> Option<JsonView> {
    if dot_parts(dotted).len() == 0 {
        None
    } else {
        walk_fields(root, dot_parts(dotted))
    }
}

pub fn value_at_dotted_path_object<'a>(root: &'a JsonValue, dotted: &str) -> (r: Option<&'a JsonValue>)
    requires
        root@ is Object,
    ensures
        match r {
            Some(x) => dotted_value_in_object(root@, dotted@) == Some(x@),
            None => dotted_value_in_object(root@, dotted@) is None,
        },
{
    let ks = dot_parts_of(dotted);
    if ks.len() == 0 {
        return None;
    }
    assert(views(ks@).subrange(0, ks@.len() as int) =~= views(ks@));
    walk_from(root, &ks, 0)
}

/// The metadata of a slot: the entry under its full name, else the one at
/// its dotted path.
pub open spec fn meta_for_slot_spec(meta: JsonView, slot: Seq<char>) -> Option<JsonView> {
    match field(meta, slot) {
        Some(x) => Some(x),
        None => dotted_value_in_object(meta, slot),
    }
}

pub fn meta_for_slot<'a>(meta: &'a JsonValue, slot: &str) -> (r: Option<&'a JsonValue>)
    requires
        meta@ is Object,
    ensures
        match r {
            Some(x) => meta_for_slot_spec(meta@, slot@) == Some(x@),
            None => meta_for_slot_spec(meta@, slot@) is None,
        },
{
    match meta.get(slot) {
        Some(x) => Some(x),
        None => value_at_dotted_path_object(meta, slot),
    }
}

/// The text shown for a value: a string as it is, a number or a boolean as
/// JSON text; nothing for the rest.
pub open spec fn value_text_spec(v: JsonView) -> Option<Seq<char>> {
    match v {
        JsonView::Str(s) => Some(s),
        JsonView::Number(_) => Some(json_text(v)),
        JsonView::Bool(_) => Some(json_text(v)),
        _ => None,
    }
}

pub fn value_to_text(value: &JsonValue) -> (r: Option<String>)
    ensures
        match r {
            Some(t) => value_text_spec(value@) == Some(t@),
            None => value_text_spec(value@) is None,
        },
{
    match value {
        JsonValue::String(s) => Some(to_owned_string(s.as_str())),
        JsonValue::Number(_) => Some(value.to_text()),
        JsonValue::Bool(_) => Some(value.to_text()),
        JsonValue::Null => None,
        JsonValue::Array(items) => {
            proof {
                crate::json::lemma_array_view(*items);
            }
            None
        },
        JsonValue::Object(es) => {
            proof {
                crate::json::lemma_object_view(*es);
            }
            None
        },
    }
}

pub open spec fn opt_text(o: Option<JsonView>) -> Option<Seq<char>> {
    match o {
        Some(v) => value_text_spec(v),
        None => None,
    }
}

pub open spec fn opt_dotted(o: Option<JsonView>, key: Seq<char>) -> Option<Seq<char>> {
    match o {
        Some(v) => opt_text(dotted_value(v, key)),
        None => None,
    }
}

/// `s` with every `.` turned into `/`.
pub open spec fn dots_to_slashes(s: Seq<char>) -> Seq<char> {
    s.map_values(|c: char| if c == '.' { '/' } else { c })
}

fn replace_dots(s: &str) -> (r: String)
    ensures
        r@ == dots_to_slashes(s@),
{
    let cs = chars_of(s);
    let mut out: Vec<char> = Vec::new();
    let mut i: usize = 0;
    while i < cs.len()
        invariant
            i <= cs@.len(),
            cs@ == s@,
            out@ == dots_to_slashes(s@).subrange(0, i as int),
        decreases cs.len() - i,
    {
        let c = cs[i];
        out.push(if c == '.' { '/' } else { c });
        assert(out@ =~= dots_to_slashes(s@).subrange(0, i + 1));
        i = i + 1;
    }
    assert(dots_to_slashes(s@).subrange(0, cs@.len() as int) =~= dots_to_slashes(s@));
    string_from_chars(&out)
}

/// How an input ref `inputs.<key>` reads in a run: the runtime input at the
/// key's path, else the resolved intent input, else the stored input.
pub open spec fn input_display_spec(runtime: JsonView, reference: Seq<char>) -> Option<Seq<char>> {
    match strip_prefix(reference, "inputs."@) {
        None => None,
        Some(key) => match opt_text(pointer_spec(runtime, "/inputs/"@ + dots_to_slashes(key))) {
            Some(t) => Some(t),
            None => match opt_dotted(pointer_spec(runtime, "/agent/state_summary/intent_slots/resolved_inputs"@), key) {
                Some(t) => Some(t),
                None => opt_dotted(pointer_spec(runtime, "/agent/state_summary/input_store/facts"@), key),
            },
        },
    }
}

fn text_of(o: Option<&JsonValue>) -> (r: Option<String>)
    ensures
        match r {
            Some(t) => opt_text(match o {
                Some(v) => Some(v@),
                None => None,
            }) == Some(t@),
            None => opt_text(match o {
                Some(v) => Some(v@),
                None => None,
            }) is None,
        },
{
    match o {
        Some(v) => value_to_text(v),
        None => None,
    }
}

fn dotted_text_of(o: Option<&JsonValue>, key: &str) -> (r: Option<String>)
    ensures
        match r {
            Some(t) => opt_dotted(match o {
                Some(v) => Some(v@),
                None => None,
            }, key@) == Some(t@),
            None => opt_dotted(match o {
                Some(v) => Some(v@),
                None => None,
            }, key@) is None,
        },
{
    match o {
        Some(v) => match value_at_dotted_path(v, key) {
            Some(x) => value_to_text(x),
            None => None,
        },
        None => None,
    }
}

/// Reads of a run, when there is one.
pub struct ExecutionView<'a> {
    pub state: Option<&'a RunnerStateView>,
}

impl<'a> ExecutionView<'a> {
    pub fn new(state: Option<&'a RunnerStateView>) -> (r: ExecutionView<'a>)
        ensures
            r.state == state,
    {
        ExecutionView { state }
    }

    /// The completed nodes, sorted, each once.
    pub fn completed_node_ids(&self) -> (r: Vec<String>)
        ensures
            views(r@) == match self.state {
                Some(s) => key_list(sorted_keys(views(s.completed_node_ids@))),
                None => Seq::empty(),
            },
    {
        match self.state {
            Some(s) => sorted_strings(&s.completed_node_ids),
            None => {
                let out: Vec<String> = Vec::new();
                assert(views(out@) =~= Seq::<Seq<char>>::empty());
                out
            },
        }
    }

    /// The approved nodes, sorted, each once.
    pub fn approved_node_ids(&self) -> (r: Vec<String>)
        ensures
            views(r@) == match self.state {
                Some(s) => key_list(sorted_keys(views(s.approved_node_ids@))),
                None => Seq::empty(),
            },
    {
        match self.state {
            Some(s) => sorted_strings(&s.approved_node_ids),
            None => {
                let out: Vec<String> = Vec::new();
                assert(views(out@) =~= Seq::<Seq<char>>::empty());
                out
            },
        }
    }

    /// How the input ref `reference` reads in the run.
    pub fn resolve_input_reference_display(&self, reference: &str) -> (r: Option<String>)
        ensures
            match self.state {
                None => r is None,
                Some(s) => match r {
                    Some(t) => input_display_spec(s.runtime@, reference@) == Some(t@),
                    None => input_display_spec(s.runtime@, reference@) is None,
                },
            },
    {
        let state = match self.state {
            Some(s) => s,
            None => return None,
        };
        let key = match str_strip_prefix(reference, "inputs.") {
            Some(k) => k,
            None => return None,
        };
        let path = concat("/inputs/", replace_dots(key.as_str()).as_str());
        match text_of(state.runtime.pointer(path.as_str())) {
            Some(t) => return Some(t),
            None => {},
        }
        match dotted_text_of(
            state.runtime.pointer("/agent/state_summary/intent_slots/resolved_inputs"),
            key.as_str(),
        ) {
            Some(t) => return Some(t),
            None => {},
        }
        dotted_text_of(state.runtime.pointer("/agent/state_summary/input_store/facts"), key.as_str())
    }
}

/// A ref as shown: how it reads in the run, else `ref:` and the ref.
pub open spec fn ref_display(runtime: Option<JsonView>, reference: Seq<char>) -> Seq<char> {
    match runtime {
        Some(rt) => match input_display_spec(rt, reference) {
            Some(t) => t,
            None => "ref:"@ + reference,
        },
        None => "ref:"@ + reference,
    }
}

/// The address ref of an `object` value, if it has one.
pub open spec fn address_ref_spec(inner: JsonView) -> Option<Seq<char>> {
    match field(inner, "address"@) {
        Some(a) => field_str(a, "ref"@),
        None => None,
    }
}

/// How a step parameter reads for a confirmation: text as it is, numbers
/// and booleans as JSON text; of an object, its literal, the display of its
/// ref or of its object's address ref, the object's text, `computed(cel)`
/// for an expression, else its JSON text; nothing for null or an array.
pub open spec fn param_display_spec(runtime: Option<JsonView>, v: JsonView) -> Option<Seq<char>> {
    match v {
        JsonView::Str(s) => Some(s),
        JsonView::Number(_) => Some(json_text(v)),
        JsonView::Bool(_) => Some(json_text(v)),
        JsonView::Object(es) => match obj_get(es, "lit"@) {
            Some(l) => Some(
                match l {
                    JsonView::Str(t) => t,
                    _ => json_text(l),
                },
            ),
            None => match field_str(v, "ref"@) {
                Some(r) => Some(ref_display(runtime, r)),
                None => {
                    let inner = obj_get(es, "object"@);
                    let from_object = match inner {
                        Some(i) => match address_ref_spec(i) {
                            Some(a) => Some(ref_display(runtime, a)),
                            None => view_as_str(i),
                        },
                        None => None,
                    };
                    match from_object {
                        Some(t) => Some(t),
                        None => if obj_get(es, "cel"@) is Some {
                            Some("computed(cel)"@)
                        } else {
                            Some(json_text(v))
                        },
                    }
                },
            },
        },
        _ => None,
    }
}

/// Reads of a run for the confirmation of a step.
pub struct ConfirmationView<'a> {
    pub execution: ExecutionView<'a>,
}

impl<'a> ConfirmationView<'a> {
    pub fn new(state: Option<&'a RunnerStateView>) -> (r: ConfirmationView<'a>)
        ensures
            r.execution.state == state,
    {
        ConfirmationView { execution: ExecutionView::new(state) }
    }

    pub fn completed_node_ids(&self) -> (r: Vec<String>)
        ensures
            views(r@) == match self.execution.state {
                Some(s) => key_list(sorted_keys(views(s.completed_node_ids@))),
                None => Seq::empty(),
            },
    {
        self.execution.completed_node_ids()
    }

    pub fn approved_node_ids(&self) -> (r: Vec<String>)
        ensures
            views(r@) == match self.execution.state {
                Some(s) => key_list(sorted_keys(views(s.approved_node_ids@))),
                None => Seq::empty(),
            },
    {
        self.execution.approved_node_ids()
    }

    fn ref_text(&self, reference: &str) -> (r: String)
        ensures
            r@ == ref_display(
                match self.execution.state {
                    Some(s) => Some(s.runtime@),
                    None => None,
                },
                reference@,
            ),
    {
        match self.execution.resolve_input_reference_display(reference) {
            Some(t) => t,
            None => concat("ref:", reference),
        }
    }

    /// How a step parameter reads for a confirmation.
    pub fn render_param_value(&self, value: &JsonValue) -> (r: Option<String>)
        ensures
            match r {
                Some(t) => param_display_spec(
                    match self.execution.state {
                        Some(s) => Some(s.runtime@),
                        None => None,
                    },
                    value@,
                ) == Some(t@),
                None => param_display_spec(
                    match self.execution.state {
                        Some(s) => Some(s.runtime@),
                        None => None,
                    },
                    value@,
                ) is None,
            },
    {
        match value {
            JsonValue::String(s) => return Some(to_owned_string(s.as_str())),
            JsonValue::Number(_) => return Some(value.to_text()),
            JsonValue::Bool(_) => return Some(value.to_text()),
            JsonValue::Null => return None,
            JsonValue::Array(items) => {
                proof {
                    crate::json::lemma_array_view(*items);
                }
                return None;
            },
            JsonValue::Object(es) => {
                proof {
                    crate::json::lemma_object_view(*es);
                }
            },
        }
        match value.get("lit") {
            Some(l) => {
                return match l.as_str() {
                    Some(t) => Some(to_owned_string(t)),
                    None => Some(l.to_text()),
                };
            },
            None => {},
        }
        match value.get("ref") {
            Some(x) => match x.as_str() {
                Some(reference) => return Some(self.ref_text(reference)),
                None => {},
            },
            None => {},
        }
        match value.get("object") {
            Some(inner) => {
                let address_ref = match inner.get("address") {
                    Some(a) => match a.get("ref") {
                        Some(x) => x.as_str(),
                        None => None,
                    },
                    None => None,
                };
                match address_ref {
                    Some(a) => return Some(self.ref_text(a)),
                    None => {},
                }
                match inner.as_str() {
                    Some(t) => return Some(to_owned_string(t)),
                    None => {},
                }
            },
            None => {},
        }
        if value.get("cel").is_some() {
            return Some(to_owned_string("computed(cel)"));
        }
        Some(value.to_text())
    }
}

/// Whether a stored true input (one under a valid slot name) is a volatile
/// value of the signal, observed at most `max_age_ms` before `now_ms`.
pub open spec fn fresh_true_input(
    store: InputStore,
    key: Seq<char>,
    signal: VolatileInputSignal,
    max_age_ms: u64,
    now_ms: u64,
) -> bool {
    match slot_key_spec(key) {
        Some(c) => store.model().dom().contains(c) && store.model()[c].meta.stability
            == InputValueStability::Volatile && input_signal_matches(signal, key) && match store.model()[
            c].meta.observed_at_ms {
            Some(t) => (if now_ms >= t {
                now_ms - t
            } else {
                0
            }) <= max_age_ms,
            None => false,
        },
        None => false,
    }
}

pub fn input_store_has_fresh_true_input_signal(
    store: &InputStore,
    signal: VolatileInputSignal,
    max_age_ms: u64,
    now_ms: u64,
) -> (r: bool)
    requires
        store.wf(),
    ensures
        r == exists|i: int|
            0 <= i < valid_keys(key_seq(store.entries_spec())).len() && fresh_true_input(
                *store,
                #[trigger] valid_keys(key_seq(store.entries_spec()))[i],
                signal,
                max_age_ms,
                now_ms,
            ),
{
    let slots = store.list_semantic_ref_strings();
    let ghost ks = valid_keys(key_seq(store.entries_spec()));
    assert(views(slots@) == ks);
    let mut i: usize = 0;
    while i < slots.len()
        invariant
            i <= slots@.len(),
            store.wf(),
            views(slots@) == ks,
            ks == valid_keys(key_seq(store.entries_spec())),
            forall|k: int| 0 <= k < i ==> !fresh_true_input(*store, #[trigger] ks[k], signal, max_age_ms, now_ms),
        decreases slots.len() - i,
    {
        assert(ks[i as int] == slots@[i as int]@);
        let hit = match store.get_semantic(slots[i].as_str()) {
            Some(entry) => {
                let fresh = match entry.meta.observed_at_ms {
                    Some(t) => now_ms.saturating_sub(t) <= max_age_ms,
                    None => false,
                };
                entry.meta.stability == InputValueStability::Volatile && volatile_signal_matches_key(
                    signal,
                    slots[i].as_str(),
                ) && fresh
            },
            None => false,
        };
        if hit {
            assert(fresh_true_input(*store, ks[i as int], signal, max_age_ms, now_ms));
            return true;
        }
        i = i + 1;
    }
    false
}

} // verus!
