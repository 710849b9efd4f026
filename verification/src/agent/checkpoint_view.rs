//! Tidying a run's runtime document before it is checkpointed.
use vstd::prelude::*;
use crate::json::{JsonValue, JsonView, entry_get, insert_entry, lemma_array_view, lemma_object_view, obj_get,
    obj_insert, obj_remove, pointer_spec, remove_entry, entries_view};
use crate::text::{str_eq, to_owned_string};

verus! {

/// Grounding is ready when its resolution state is `ready` or it is ready
/// for todos.
pub open spec fn grounding_ready_spec(rt: JsonView) -> bool {
    pointer_spec(rt, "/agent/intent_grounding/resolution_state"@) == Some(JsonView::Str("ready"@))
        || pointer_spec(rt, "/agent/intent_grounding/ready_for_todos"@) == Some(JsonView::Bool(true))
}

/// The runtime after archiving: once grounding is ready, a pending
/// `agent.missing_input_autofill` moves to
/// `agent.recovery_history.missing_input_autofill` (the history becomes an
/// object if it is not one); otherwise nothing changes.
pub open spec fn archive_autofill_spec(rt: JsonView) -> JsonView {
    if !grounding_ready_spec(rt) {
        rt
    } else {
        match rt {
            JsonView::Object(es) => match obj_get(es, "agent"@) {
                Some(JsonView::Object(a)) => match obj_get(a, "missing_input_autofill"@) {
                    Some(stale) => {
                        let a1 = obj_remove(a, "missing_input_autofill"@);
                        let history = match obj_get(a1, "recovery_history"@) {
                            Some(JsonView::Object(h)) => h,
                            _ => Seq::empty(),
                        };
                        let a2 = obj_insert(
                            a1,
                            "recovery_history"@,
                            JsonView::Object(obj_insert(history, "missing_input_autofill"@, stale)),
                        );
                        JsonView::Object(obj_insert(es, "agent"@, JsonView::Object(a2)))
                    },
                    None => rt,
                },
                _ => rt,
            },
            _ => rt,
        }
    }
}

fn grounding_ready(runtime: &JsonValue) -> (r: bool)
    ensures
        r == grounding_ready_spec(runtime@),
{
    let by_state = match runtime.pointer("/agent/intent_grounding/resolution_state") {
        Some(v) => match v.as_str() {
            Some(s) => str_eq(s, "ready"),
            None => false,
        },
        None => false,
    };
    if by_state {
        return true;
    }
    match runtime.pointer("/agent/intent_grounding/ready_for_todos") {
        Some(v) => match v {
            JsonValue::Bool(b) => *b,
            JsonValue::Array(items) => {
                proof {
                    lemma_array_view(*items);
                }
                false
            },
            JsonValue::Object(es) => {
                proof {
                    lemma_object_view(*es);
                }
                false
            },
            _ => false,
        },
        None => false,
    }
}

/// Moves a stale missing-input autofill into the recovery history once
/// grounding is ready.
pub fn archive_stale_missing_input_autofill(runtime: &mut JsonValue)
    ensures
        final(runtime)@ == archive_autofill_spec(old(runtime)@),
{
    if !grounding_ready(runtime) {
        return;
    }
    let mut agent: Vec<(String, JsonValue)> = match runtime.get("agent") {
        Some(x) => match x.clone_value() {
            JsonValue::Object(a) => {
                proof {
                    lemma_object_view(a);
                }
                a
            },
            other => {
                assert(!(other@ is Object)) by {
                    match other {
                        JsonValue::Array(items) => lemma_array_view(items),
                        _ => {},
                    }
                }
                return;
            },
        },
        None => return,
    };
    assert(runtime@ is Object) by {
        match *runtime {
            JsonValue::Array(items) => lemma_array_view(items),
            _ => {},
        }
    }
    let ghost a = entries_view(agent@);
    let stale = match remove_entry(&mut agent, "missing_input_autofill") {
        Some(v) => v,
        None => return,
    };
    let mut history: Vec<(String, JsonValue)> = match entry_get(&agent, "recovery_history") {
        Some(x) => match x.clone_value() {
            JsonValue::Object(h) => {
                proof {
                    lemma_object_view(h);
                }
                h
            },
            other => {
                assert(!(other@ is Object)) by {
                    match other {
                        JsonValue::Array(items) => lemma_array_view(items),
                        _ => {},
                    }
                }
                let h: Vec<(String, JsonValue)> = Vec::new();
                assert(entries_view(h@) =~= Seq::<(Seq<char>, JsonView)>::empty());
                h
            },
        },
        None => {
            let h: Vec<(String, JsonValue)> = Vec::new();
            assert(entries_view(h@) =~= Seq::<(Seq<char>, JsonView)>::empty());
            h
        },
    };
    insert_entry(&mut history, to_owned_string("missing_input_autofill"), stale);
    proof {
        lemma_object_view(history);
    }
    insert_entry(&mut agent, to_owned_string("recovery_history"), JsonValue::Object(history));
    proof {
        lemma_object_view(agent);
    }
    runtime.insert(to_owned_string("agent"), JsonValue::Object(agent));
}

} // verus!
