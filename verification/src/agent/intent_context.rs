//! The intent context: the facts a planning session is grounded in.
use vstd::prelude::*;
use crate::agent::candidates::{key_list, sorted_keys, sorted_strings, views};
use crate::json::{JsonNumber, JsonValue, JsonView, NumberView, entries_view, entry_get, insert_entry, lemma_object_view,
    obj_get, obj_insert, pointer_spec, view_as_u64};
use crate::text::{str_strip_prefix, strip_prefix, to_owned_string};

verus! {

/// The fact keys of a state summary: the keys of the object at
/// `/intent_context/facts`, sorted, each once; none when there is no such
/// object.
pub open spec fn grounding_fact_keys_spec(summary: Option<JsonView>) -> Seq<Seq<char>> {
    match summary {
        Some(v) => match pointer_spec(v, "/intent_context/facts"@) {
            Some(JsonView::Object(es)) => key_list(sorted_keys(key_list(es))),
            _ => Seq::empty(),
        },
        None => Seq::empty(),
    }
}

pub fn grounding_fact_keys_from_state_summary(state_summary: Option<&JsonValue>) -> (r: Vec<String>)
    ensures
        views(r@) == grounding_fact_keys_spec(
            match state_summary {
                Some(v) => Some(v@),
                None => None,
            },
        ),
{
    let mut names: Vec<String> = Vec::new();
    match state_summary {
        Some(v) => match v.pointer("/intent_context/facts") {
            Some(JsonValue::Object(es)) => {
                proof {
                    crate::json::lemma_object_view(*es);
                }
                let ghost ev = entries_view(es@);
                let mut i: usize = 0;
                while i < es.len()
                    invariant
                        i <= es@.len(),
                        ev == entries_view(es@),
                        views(names@) == key_list(ev).subrange(0, i as int),
                    decreases es.len() - i,
                {
                    let ghost before = views(names@);
                    names.push(to_owned_string(es[i].0.as_str()));
                    assert(ev[i as int].0 == es@[i as int].0@);
                    assert(key_list(ev)[i as int] == es@[i as int].0@);
                    assert(views(names@) =~= before.push(es@[i as int].0@));
                    assert(views(names@) =~= key_list(ev).subrange(0, i + 1));
                    i = i + 1;
                }
                assert(key_list(ev).subrange(0, ev.len() as int) =~= key_list(ev));
            },
            _ => {},
        },
        None => {},
    }
    sorted_strings(&names)
}


/// The grounding fields the intent context carries over.
pub open spec fn grounding_keys() -> Seq<Seq<char>> {
    seq!["status"@, "summary"@, "ready_for_todos"@, "reason_code"@, "message"@, "issues"@, "questions"@, "answers"@]
}

fn grounding_key_at(i: usize) -> (r: &'static str)
    requires
        i < 8,
    ensures
        r@ == grounding_keys()[i as int],
{
    if i == 0 {
        "status"
    } else if i == 1 {
        "summary"
    } else if i == 2 {
        "ready_for_todos"
    } else if i == 3 {
        "reason_code"
    } else if i == 4 {
        "message"
    } else if i == 5 {
        "issues"
    } else if i == 6 {
        "questions"
    } else {
        "answers"
    }
}

/// The first `n` grounding fields present, copied.
pub open spec fn carried_fields(es: Seq<(Seq<char>, JsonView)>, n: nat) -> Seq<(Seq<char>, JsonView)>
    decreases n,
{
    if n == 0 {
        Seq::empty()
    } else {
        let prev = carried_fields(es, (n - 1) as nat);
        let k = grounding_keys()[n - 1];
        match obj_get(es, k) {
            Some(v) => obj_insert(prev, k, v),
            None => prev,
        }
    }
}

/// The fact confidences: the non-negative integer scores under `fact:`
/// keys, by fact key.
pub open spec fn fact_confidence_entries(cs: Seq<(Seq<char>, JsonView)>) -> Seq<(Seq<char>, JsonView)>
    decreases cs.len(),
{
    if cs.len() == 0 {
        Seq::empty()
    } else {
        let prev = fact_confidence_entries(cs.drop_last());
        match (view_as_u64(cs.last().1), strip_prefix(cs.last().0, "fact:"@)) {
            (Some(u), Some(k)) => obj_insert(prev, k, JsonView::Number(NumberView::PosInt(u))),
            _ => prev,
        }
    }
}

pub open spec fn fact_confidence_spec(confidence: Option<JsonView>) -> Seq<(Seq<char>, JsonView)> {
    match confidence {
        Some(JsonView::Object(cs)) => fact_confidence_entries(cs),
        _ => Seq::empty(),
    }
}

/// The intent context of a runtime: the grounding's status fields, its
/// intent facts (an empty object without them) and its fact confidences;
/// none without a grounding object.
pub open spec fn intent_context_spec(runtime: JsonView) -> Option<JsonView> {
    match pointer_spec(runtime, "/agent/intent_grounding"@) {
        Some(JsonView::Object(es)) => {
            let base = carried_fields(es, 8);
            let facts = match obj_get(es, "intent_facts"@) {
                Some(v) => v,
                None => JsonView::Object(Seq::empty()),
            };
            let conf = JsonView::Object(
                obj_insert(Seq::empty(), "facts"@, JsonView::Object(fact_confidence_spec(obj_get(es, "confidence"@)))),
            );
            Some(JsonView::Object(obj_insert(obj_insert(base, "facts"@, facts), "confidence"@, conf)))
        },
        _ => None,
    }
}

pub fn normalize_fact_confidence(confidence: Option<&JsonValue>) -> (r: Vec<(String, JsonValue)>)
    ensures
        entries_view(r@) == fact_confidence_spec(
            match confidence {
                Some(v) => Some(v@),
                None => None,
            },
        ),
{
    let mut out: Vec<(String, JsonValue)> = Vec::new();
    assert(entries_view(out@) =~= Seq::<(Seq<char>, JsonView)>::empty());
    let cs = match confidence {
        Some(JsonValue::Object(cs)) => cs,
        _ => {
            return out;
        },
    };
    proof {
        lemma_object_view(*cs);
    }
    let ghost cv = entries_view(cs@);
    let mut i: usize = 0;
    assert(cv.subrange(0, 0) =~= Seq::<(Seq<char>, JsonView)>::empty());
    while i < cs.len()
        invariant
            i <= cs@.len(),
            cv == entries_view(cs@),
            entries_view(out@) == fact_confidence_entries(cv.subrange(0, i as int)),
        decreases cs.len() - i,
    {
        let ghost cur = cv.subrange(0, i + 1);
        assert(cur.drop_last() =~= cv.subrange(0, i as int));
        assert(cur.last() == (cs@[i as int].0@, cs@[i as int].1@));
        match (cs[i].1.as_u64(), str_strip_prefix(cs[i].0.as_str(), "fact:")) {
            (Some(u), Some(k)) => {
                insert_entry(&mut out, k, JsonValue::Number(JsonNumber::PosInt(u)));
            },
            _ => {},
        }
        i = i + 1;
    }
    assert(cv.subrange(0, cv.len() as int) =~= cv);
    out
}

/// The non-input context a planning session is grounded in.
pub struct IntentContext {
    projection: JsonValue,
}

impl IntentContext {
    pub closed spec fn projection_spec(&self) -> JsonView {
        self.projection@
    }

    pub fn from_runtime(runtime: &JsonValue) -> (r: Option<IntentContext>)
        ensures
            match r {
                Some(c) => intent_context_spec(runtime@) == Some(c.projection_spec()),
                None => intent_context_spec(runtime@) is None,
            },
    {
        let entries = match runtime.pointer("/agent/intent_grounding") {
            Some(JsonValue::Object(es)) => es,
            _ => {
                return None;
            },
        };
        proof {
            lemma_object_view(*entries);
        }
        let ghost es = entries_view(entries@);
        let mut out: Vec<(String, JsonValue)> = Vec::new();
        let mut i: usize = 0;
        assert(entries_view(out@) =~= carried_fields(es, 0));
        while i < 8
            invariant
                i <= 8,
                es == entries_view(entries@),
                entries_view(out@) == carried_fields(es, i as nat),
            decreases 8 - i,
        {
            let key = grounding_key_at(i);
            match entry_get(entries, key) {
                Some(v) => {
                    insert_entry(&mut out, to_owned_string(key), v.clone_value());
                },
                None => {},
            }
            i = i + 1;
        }
        let facts = match entry_get(entries, "intent_facts") {
            Some(v) => v.clone_value(),
            None => JsonValue::empty_object(),
        };
        insert_entry(&mut out, to_owned_string("facts"), facts);
        let fc = normalize_fact_confidence(entry_get(entries, "confidence"));
        proof {
            lemma_object_view(fc);
        }
        let mut conf = JsonValue::empty_object();
        conf.insert(to_owned_string("facts"), JsonValue::Object(fc));
        insert_entry(&mut out, to_owned_string("confidence"), conf);
        proof {
            lemma_object_view(out);
        }
        Some(IntentContext { projection: JsonValue::Object(out) })
    }

    pub fn projection(&self) -> (r: &JsonValue)
        ensures
            r@ == self.projection_spec(),
    {
        &self.projection
    }
}

} // verus!
