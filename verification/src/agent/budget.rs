//! Bounding the size of a JSON document before it is shown to a model.
//!
//! Compaction cuts a document at a depth, keeps the first entries of each
//! object and array and the first characters of each string, and leaves a
//! marker where something was cut.
use vstd::prelude::*;
use crate::json::{JsonValue, JsonView, NumberView, entries_view, items_view, obj_insert,
    insert_entry, lemma_object_view, lemma_array_view};
use crate::text::{decimal, push_decimal, push_str, to_owned_string, chars_of, string_from_range};

verus! {

/// Limits applied by JSON compaction.
#[derive(Clone, Copy)]
pub struct JsonBudgetOptions {
    pub max_depth: usize,
    pub max_object_entries: usize,
    pub max_array_items: usize,
    pub max_string_chars: usize,
}

impl Default for JsonBudgetOptions {
    fn default() -> (r: Self)
        ensures
            r.max_depth == 5,
            r.max_object_entries == 24,
            r.max_array_items == 24,
            r.max_string_chars == 240,
    {
        JsonBudgetOptions {
            max_depth: 5,
            max_object_entries: 24,
            max_array_items: 24,
            max_string_chars: 240,
        }
    }
}

pub open spec fn depth_marker() -> Seq<char> {
    "[TRUNCATED_DEPTH]"@
}

pub open spec fn entries_marker_key() -> Seq<char> {
    "_truncated_object_entries"@
}

/// The marker that replaces the items of an array past the limit.
pub open spec fn array_marker(dropped: nat) -> Seq<char> {
    "[TRUNCATED_ARRAY_ITEMS:"@ + decimal(dropped) + "]"@
}

pub open spec fn ellipsis() -> Seq<char> {
    "..."@
}

pub open spec fn min_nat(a: nat, b: nat) -> nat {
    if a <= b {
        a
    } else {
        b
    }
}

/// Each entry of an object with its value compacted at depth `depth`.
pub open spec fn compact_entries(es: Seq<(Seq<char>, JsonView)>, o: JsonBudgetOptions, depth: nat)
    -> Seq<(Seq<char>, JsonView)>
    decreases es,
{
    Seq::new(
        es.len(),
        |i: int|
            if 0 <= i < es.len() {
                (es[i].0, compact_view(es[i].1, o, depth))
            } else {
                (Seq::<char>::empty(), JsonView::Null)
            },
    )
}

/// Each item of an array compacted at depth `depth`.
pub open spec fn compact_items(xs: Seq<JsonView>, o: JsonBudgetOptions, depth: nat) -> Seq<
    JsonView,
>
    decreases xs,
{
    Seq::new(
        xs.len(),
        |i: int|
            if 0 <= i < xs.len() {
                compact_view(xs[i], o, depth)
            } else {
                JsonView::Null
            },
    )
}

/// What compaction makes of `v` found at nesting depth `depth`.
pub open spec fn compact_view(v: JsonView, o: JsonBudgetOptions, depth: nat) -> JsonView
    decreases v,
{
    if depth >= o.max_depth {
        JsonView::Str(depth_marker())
    } else {
        match v {
            JsonView::Object(es) => {
                let kept = compact_entries(es, o, depth + 1).take(
                    min_nat(es.len(), o.max_object_entries as nat) as int,
                );
                if es.len() > o.max_object_entries {
                    JsonView::Object(
                        obj_insert(
                            kept,
                            entries_marker_key(),
                            JsonView::Str(decimal((es.len() - o.max_object_entries) as nat)),
                        ),
                    )
                } else {
                    JsonView::Object(kept)
                }
            },
            JsonView::Array(xs) => {
                let kept = compact_items(xs, o, depth + 1).take(
                    min_nat(xs.len(), o.max_array_items as nat) as int,
                );
                if xs.len() > o.max_array_items {
                    JsonView::Array(
                        kept.push(
                            JsonView::Str(array_marker((xs.len() - o.max_array_items) as nat)),
                        ),
                    )
                } else {
                    JsonView::Array(kept)
                }
            },
            JsonView::Str(s) => {
                if s.len() <= o.max_string_chars {
                    JsonView::Str(s)
                } else {
                    JsonView::Str(s.take(o.max_string_chars as int) + ellipsis())
                }
            },
            _ => v,
        }
    }
}

/// `v`, found at depth `depth`, is within every limit of `o`.
pub open spec fn within_budget(v: JsonView, o: JsonBudgetOptions, depth: nat) -> bool
    decreases v,
{
    depth < o.max_depth && match v {
        JsonView::Object(es) => es.len() <= o.max_object_entries && forall|i: int|
            0 <= i < es.len() ==> within_budget(#[trigger] es[i].1, o, depth + 1),
        JsonView::Array(xs) => xs.len() <= o.max_array_items && forall|i: int|
            0 <= i < xs.len() ==> within_budget(#[trigger] xs[i], o, depth + 1),
        JsonView::Str(s) => s.len() <= o.max_string_chars,
        _ => true,
    }
}

/// Compaction changes nothing in a document that is already within its
/// limits.
pub proof fn lemma_compact_within_budget_is_identity(v: JsonView, o: JsonBudgetOptions, depth: nat)
    requires
        within_budget(v, o, depth),
    ensures
        compact_view(v, o, depth) == v,
    decreases v,
{
    match v {
        JsonView::Object(es) => {
            let r = compact_view(v, o, depth);
            assert forall|i: int| 0 <= i < es.len() implies compact_view(es[i].1, o, depth + 1)
                == es[i].1 by {
                assert(within_budget(es[i].1, o, depth + 1));
                lemma_compact_within_budget_is_identity(es[i].1, o, depth + 1);
            }
            assert(compact_entries(es, o, depth + 1).take(es.len() as int) =~= es);
        },
        JsonView::Array(xs) => {
            let r = compact_view(v, o, depth);
            assert forall|i: int| 0 <= i < xs.len() implies compact_view(xs[i], o, depth + 1)
                == xs[i] by {
                assert(within_budget(xs[i], o, depth + 1));
                lemma_compact_within_budget_is_identity(xs[i], o, depth + 1);
            }
            assert(compact_items(xs, o, depth + 1).take(xs.len() as int) =~= xs);
        },
        JsonView::Str(s) => {},
        _ => {},
    }
}

/// `compact_json_for_llm`: compaction with the default limits.
pub fn compact_json_for_llm(value: &JsonValue) -> (r: JsonValue)
    ensures
        r@ == compact_view(value@, JsonBudgetOptions::default_spec(), 0),
{
    let o = JsonBudgetOptions::default();
    compact_json_with_options(value, &o)
}

impl JsonBudgetOptions {
    pub open spec fn default_spec() -> JsonBudgetOptions {
        JsonBudgetOptions {
            max_depth: 5,
            max_object_entries: 24,
            max_array_items: 24,
            max_string_chars: 240,
        }
    }
}

/// Compacts `value` under the limits `options`.
pub fn compact_json_with_options(value: &JsonValue, options: &JsonBudgetOptions) -> (r: JsonValue)
    ensures
        r@ == compact_view(value@, *options, 0),
{
    compact_inner(value, options, 0)
}

fn compact_inner(value: &JsonValue, options: &JsonBudgetOptions, depth: usize) -> (r: JsonValue)
    ensures
        r@ == compact_view(value@, *options, depth as nat),
    decreases value,
{
    if depth >= options.max_depth {
        return JsonValue::String(to_owned_string("[TRUNCATED_DEPTH]"));
    }
    match value {
        JsonValue::Object(entries) => {
            proof {
                lemma_object_view(*entries);
            }
            let ghost es = entries_view(entries@);
            let n = entries.len();
            let mut out: Vec<(String, JsonValue)> = Vec::new();
            let mut i: usize = 0;
            while i < n && i < options.max_object_entries
                invariant
                    *value == JsonValue::Object(*entries),
                    n == entries@.len(),
                    es == entries_view(entries@),
                    depth < options.max_depth,
                    i <= n,
                    i <= options.max_object_entries,
                    out@.len() == i,
                    forall|k: int|
                        0 <= k < i ==> #[trigger] entries_view(out@)[k] == (
                            es[k].0,
                            compact_view(es[k].1, *options, (depth + 1) as nat),
                        ),
                decreases n - i,
            {
                proof {
                    assert(decreases_to!(*value => (*value)->Object_0));
                    assert(decreases_to!(*entries => entries@[i as int]));
                    assert(decreases_to!(entries@[i as int] => entries@[i as int].1));
                }
                let key = to_owned_string(entries[i].0.as_str());
                let item = compact_inner(&entries[i].1, options, depth + 1);
                let ghost before = out@;
                out.push((key, item));
                proof {
                    assert forall|k: int| 0 <= k < i + 1 implies #[trigger] entries_view(out@)[k]
                        == (es[k].0, compact_view(es[k].1, *options, (depth + 1) as nat)) by {
                        if k < i {
                            assert(out@[k] == before[k]);
                            assert(entries_view(before)[k] == entries_view(out@)[k]);
                        }
                    }
                }
                i = i + 1;
            }
            let ghost kept = entries_view(out@);
            if n > options.max_object_entries {
                let mut text = String::new();
                push_decimal(&mut text, (n - options.max_object_entries) as u64);
                assert(text@ =~= decimal((n - options.max_object_entries) as nat));
                let marker = JsonValue::String(text);
                let mkey = to_owned_string("_truncated_object_entries");
                assert(mkey@ == entries_marker_key());
                assert(marker@ == JsonView::Str(decimal((n - options.max_object_entries) as nat)));
                insert_entry(&mut out, mkey, marker);
            }
            proof {
                lemma_object_view(out);
                let target = compact_view(value@, *options, depth as nat);
                let k = min_nat(es.len(), options.max_object_entries as nat);
                let spec_kept = compact_entries(es, *options, depth as nat + 1).take(k as int);
                assert(kept =~= spec_kept);
                if n > options.max_object_entries {
                    assert(entries_view(out@) == obj_insert(
                        spec_kept,
                        entries_marker_key(),
                        JsonView::Str(decimal((es.len() - options.max_object_entries) as nat)),
                    ));
                } else {
                    assert(entries_view(out@) == spec_kept);
                }
                assert(JsonValue::Object(out)@ == target);
            }
            JsonValue::Object(out)
        },
        JsonValue::Array(items) => {
            proof {
                lemma_array_view(*items);
            }
            let ghost xs = items_view(items@);
            let n = items.len();
            let mut out: Vec<JsonValue> = Vec::new();
            let mut i: usize = 0;
            while i < n && i < options.max_array_items
                invariant
                    *value == JsonValue::Array(*items),
                    n == items@.len(),
                    xs == items_view(items@),
                    depth < options.max_depth,
                    i <= n,
                    i <= options.max_array_items,
                    out@.len() == i,
                    forall|k: int|
                        0 <= k < i ==> #[trigger] out@[k]@ == compact_view(
                            xs[k],
                            *options,
                            (depth + 1) as nat,
                        ),
                decreases n - i,
            {
                proof {
                    assert(decreases_to!(*value => (*value)->Array_0));
                    assert(decreases_to!(*items => items@[i as int]));
                }
                let item = compact_inner(&items[i], options, depth + 1);
                out.push(item);
                i = i + 1;
            }
            let ghost kept = items_view(out@);
            if n > options.max_array_items {
                let mut text = to_owned_string("[TRUNCATED_ARRAY_ITEMS:");
                push_decimal(&mut text, (n - options.max_array_items) as u64);
                push_str(&mut text, "]");
                out.push(JsonValue::String(text));
            }
            proof {
                lemma_array_view(out);
                let k = min_nat(xs.len(), options.max_array_items as nat);
                let spec_kept = compact_items(xs, *options, depth as nat + 1).take(k as int);
                assert(kept =~= spec_kept);
                if n > options.max_array_items {
                    assert(items_view(out@) =~= kept.push(
                        JsonView::Str(array_marker((xs.len() - options.max_array_items) as nat)),
                    ));
                } else {
                    assert(items_view(out@) =~= kept);
                }
            }
            JsonValue::Array(out)
        },
        JsonValue::String(text) => {
            let cs = chars_of(text.as_str());
            if cs.len() <= options.max_string_chars {
                return JsonValue::String(to_owned_string(text.as_str()));
            }
            let mut clipped = string_from_range(&cs, 0, options.max_string_chars);
            push_str(&mut clipped, "...");
            assert(cs@.subrange(0, options.max_string_chars as int) =~= cs@.take(
                options.max_string_chars as int,
            ));
            JsonValue::String(clipped)
        },
        _ => value.clone_value(),
    }
}

} // verus!
