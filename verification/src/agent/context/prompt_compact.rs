//! The compact form of the state summary shown in prompts.
use vstd::prelude::*;
use crate::json::{JsonValue, JsonView, obj_insert, pointer_spec, view_as_str};
use crate::text::{decimal, push_decimal, push_str, to_owned_string};

verus! {

/// The value at `path`, or null.
pub open spec fn at_or_null(v: JsonView, path: Seq<char>) -> JsonView {
    match pointer_spec(v, path) {
        Some(x) => x,
        None => JsonView::Null,
    }
}

fn value_at(v: &JsonValue, path: &str) -> (r: JsonValue)
    ensures
        r@ == at_or_null(v@, path@),
{
    match v.pointer(path) {
        Some(x) => x.clone_value(),
        None => JsonValue::Null,
    }
}

/// The packing record cut down to the pressure mode, the overflow reason
/// and the block counters.
pub open spec fn compact_budget_spec(summary: JsonView) -> JsonView {
    let diag = at_or_null(summary, "/context_budget/pack_diagnostics"@);
    let d0 = obj_insert(Seq::empty(), "packed_blocks_total"@, at_or_null(diag, "/packed_blocks_total"@));
    let d1 = obj_insert(d0, "packed_blocks_included"@, at_or_null(diag, "/packed_blocks_included"@));
    let d2 = obj_insert(d1, "packed_blocks_evicted"@, at_or_null(diag, "/packed_blocks_evicted"@));
    let d3 = obj_insert(d2, "compressed_blocks_total"@, at_or_null(diag, "/compressed_blocks_total"@));
    let e0 = obj_insert(Seq::empty(), "pressure_mode"@, at_or_null(summary, "/context_budget/pressure_mode"@));
    let e1 = obj_insert(e0, "pack_overflow_reason"@, at_or_null(summary, "/context_budget/pack_overflow_reason"@));
    JsonView::Object(obj_insert(e1, "pack_diagnostics"@, JsonView::Object(d3)))
}

pub fn compact_context_budget(summary: &JsonValue) -> (r: JsonValue)
    ensures
        r@ == compact_budget_spec(summary@),
{
    let diagnostics = value_at(summary, "/context_budget/pack_diagnostics");
    let mut d = JsonValue::empty_object();
    d.insert(to_owned_string("packed_blocks_total"), value_at(&diagnostics, "/packed_blocks_total"));
    d.insert(to_owned_string("packed_blocks_included"), value_at(&diagnostics, "/packed_blocks_included"));
    d.insert(to_owned_string("packed_blocks_evicted"), value_at(&diagnostics, "/packed_blocks_evicted"));
    d.insert(to_owned_string("compressed_blocks_total"), value_at(&diagnostics, "/compressed_blocks_total"));
    let mut o = JsonValue::empty_object();
    o.insert(to_owned_string("pressure_mode"), value_at(summary, "/context_budget/pressure_mode"));
    o.insert(to_owned_string("pack_overflow_reason"), value_at(summary, "/context_budget/pack_overflow_reason"));
    o.insert(to_owned_string("pack_diagnostics"), d);
    o
}

pub open spec fn str_at(v: JsonView, path: Seq<char>) -> Option<Seq<char>> {
    match pointer_spec(v, path) {
        Some(x) => view_as_str(x),
        None => None,
    }
}

/// The one-line summary: the current todo's title (else its id, else `-`),
/// the number of missing inputs, the previous error's reason code (else
/// `none`) and the pressure mode (else `normal`).
pub open spec fn summary_text_spec(summary: JsonView) -> Seq<char> {
    let title = match str_at(summary, "/todo_state/current_todo/title"@) {
        Some(t) => t,
        None => match str_at(summary, "/todo_state/current_todo/id"@) {
            Some(t) => t,
            None => "-"@,
        },
    };
    let missing: nat = match pointer_spec(summary, "/input_slots/missing"@) {
        Some(JsonView::Array(items)) => items.len(),
        _ => 0,
    };
    let previous = match str_at(summary, "/previous_error/reason_code"@) {
        Some(t) => t,
        None => "none"@,
    };
    let mode = match str_at(summary, "/context_budget/pressure_mode"@) {
        Some(t) => t,
        None => "normal"@,
    };
    "todo="@ + title + "; missing_inputs="@ + decimal(missing) + "; previous_error="@ + previous
        + "; pressure_mode="@ + mode
}

fn str_at_exec<'a>(v: &'a JsonValue, path: &str) -> (r: Option<&'a str>)
    ensures
        match r {
            Some(s) => str_at(v@, path@) == Some(s@),
            None => str_at(v@, path@) is None,
        },
{
    match v.pointer(path) {
        Some(x) => x.as_str(),
        None => None,
    }
}

pub fn build_summary_text(summary: &JsonValue) -> (r: String)
    ensures
        r@ == summary_text_spec(summary@),
{
    let title = match str_at_exec(summary, "/todo_state/current_todo/title") {
        Some(t) => t,
        None => match str_at_exec(summary, "/todo_state/current_todo/id") {
            Some(t) => t,
            None => "-",
        },
    };
    let missing: usize = match summary.pointer("/input_slots/missing") {
        Some(JsonValue::Array(items)) => {
            proof {
                crate::json::lemma_array_view(*items);
            }
            items.len()
        },
        _ => 0,
    };
    let previous = match str_at_exec(summary, "/previous_error/reason_code") {
        Some(t) => t,
        None => "none",
    };
    let mode = match str_at_exec(summary, "/context_budget/pressure_mode") {
        Some(t) => t,
        None => "normal",
    };
    let mut out = to_owned_string("todo=");
    push_str(&mut out, title);
    push_str(&mut out, "; missing_inputs=");
    push_decimal(&mut out, missing as u64);
    push_str(&mut out, "; previous_error=");
    push_str(&mut out, previous);
    push_str(&mut out, "; pressure_mode=");
    push_str(&mut out, mode);
    out
}

/// The prompt's view of the state summary: its schema, the parts the
/// planner reads (null where missing), the cut-down packing record and the
/// one-line summary.
pub open spec fn prompt_compact_spec(summary: JsonView) -> JsonView {
    let e0 = obj_insert(Seq::empty(), "schema"@, JsonView::Str("ais-agent-state-summary-prompt-compact/0.0.1"@));
    let e1 = obj_insert(e0, "todo_state"@, at_or_null(summary, "/todo_state"@));
    let e2 = obj_insert(e1, "input_registry"@, at_or_null(summary, "/input_registry"@));
    let e3 = obj_insert(e2, "input_slots"@, at_or_null(summary, "/input_slots"@));
    let e4 = obj_insert(e3, "canonical_context"@, at_or_null(summary, "/canonical_context"@));
    let e5 = obj_insert(e4, "intent_slots"@, at_or_null(summary, "/intent_slots"@));
    let e6 = obj_insert(e5, "intent_context"@, at_or_null(summary, "/intent_context"@));
    let e7 = obj_insert(e6, "input_store"@, at_or_null(summary, "/input_store"@));
    let e8 = obj_insert(e7, "node_output_refs"@, at_or_null(summary, "/node_output_refs"@));
    let e9 = obj_insert(e8, "tool_memory_projection"@, at_or_null(summary, "/tool_memory_projection"@));
    let e10 = obj_insert(e9, "previous_error"@, at_or_null(summary, "/previous_error"@));
    let e11 = obj_insert(e10, "context_budget"@, compact_budget_spec(summary));
    JsonView::Object(obj_insert(e11, "summary_text"@, JsonView::Str(summary_text_spec(summary))))
}

pub fn build_prompt_compact(summary: &JsonValue) -> (r: JsonValue)
    ensures
        r@ == prompt_compact_spec(summary@),
{
    let mut o = JsonValue::empty_object();
    o.insert(
        to_owned_string("schema"),
        JsonValue::String(to_owned_string("ais-agent-state-summary-prompt-compact/0.0.1")),
    );
    o.insert(to_owned_string("todo_state"), value_at(summary, "/todo_state"));
    o.insert(to_owned_string("input_registry"), value_at(summary, "/input_registry"));
    o.insert(to_owned_string("input_slots"), value_at(summary, "/input_slots"));
    o.insert(to_owned_string("canonical_context"), value_at(summary, "/canonical_context"));
    o.insert(to_owned_string("intent_slots"), value_at(summary, "/intent_slots"));
    o.insert(to_owned_string("intent_context"), value_at(summary, "/intent_context"));
    o.insert(to_owned_string("input_store"), value_at(summary, "/input_store"));
    o.insert(to_owned_string("node_output_refs"), value_at(summary, "/node_output_refs"));
    o.insert(to_owned_string("tool_memory_projection"), value_at(summary, "/tool_memory_projection"));
    o.insert(to_owned_string("previous_error"), value_at(summary, "/previous_error"));
    o.insert(to_owned_string("context_budget"), compact_context_budget(summary));
    o.insert(to_owned_string("summary_text"), JsonValue::String(build_summary_text(summary)));
    o
}

} // verus!
