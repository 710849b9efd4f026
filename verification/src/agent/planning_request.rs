//! The requests of the segmented planner's sessions, and the payload of the
//! prompt that begins one.
use vstd::prelude::*;
use crate::json::{JsonValue, JsonView, entries_view, entry_get, insert_entry, lemma_array_view, lemma_object_view,
    obj_get, obj_insert, string_array, str_items};
use crate::text::to_owned_string;

verus! {

/// What a planning session begins from.
pub struct SegmentBeginRequest {
    pub intent: String,
    pub snapshot_hash: String,
    pub pack_snapshot_hash: String,
    pub catalog_hash: String,
    pub chain_scope: Vec<String>,
}

/// A planning session as the planner began it.
pub struct SegmentPlanningSession {
    pub session_id: String,
    pub snapshot_hash: String,
    pub cursor: String,
    pub max_rounds: u8,
    pub max_segments: u8,
}

/// `patch` merged into `base`: objects merge key by key, recursively; any
/// other patch value replaces the base.
pub open spec fn merge_patch(base: JsonView, patch: JsonView) -> JsonView
    decreases patch, 0nat,
{
    match patch {
        JsonView::Object(p) => match base {
            JsonView::Object(b) => JsonView::Object(merge_entries(b, p)),
            _ => patch,
        },
        _ => patch,
    }
}

/// The entries of `p` merged into the object `b`, in order.
pub open spec fn merge_entries(b: Seq<(Seq<char>, JsonView)>, p: Seq<(Seq<char>, JsonView)>) -> Seq<
    (Seq<char>, JsonView),
>
    decreases p, 0nat,
{
    if p.len() == 0 {
        b
    } else {
        merge_entry(merge_entries(b, p.drop_last()), p.last().0, p.last().1)
    }
}

/// One patch entry merged into the object `b`.
pub open spec fn merge_entry(b: Seq<(Seq<char>, JsonView)>, key: Seq<char>, v: JsonView) -> Seq<
    (Seq<char>, JsonView),
>
    decreases v, 1nat,
{
    match obj_get(b, key) {
        Some(x) => obj_insert(b, key, merge_patch(x, v)),
        None => obj_insert(b, key, v),
    }
}

/// Merges `patch` into `base`.
pub fn merge_json_patch(base: &mut JsonValue, patch: &JsonValue)
    ensures
        final(base)@ == merge_patch(old(base)@, patch@),
    decreases patch,
{
    match patch {
        JsonValue::Object(ps) => {
            proof {
                lemma_object_view(*ps);
            }
            let mut b: Vec<(String, JsonValue)> = match base {
                JsonValue::Object(es) => {
                    proof {
                        lemma_object_view(*es);
                    }
                    let mut out: Vec<(String, JsonValue)> = Vec::new();
                    std::mem::swap(&mut out, es);
                    out
                },
                _ => {
                    assert(!(old(base)@ is Object)) by {
                        match *old(base) {
                            JsonValue::Array(items) => lemma_array_view(items),
                            _ => {},
                        }
                    }
                    *base = patch.clone_value();
                    return;
                },
            };
            let ghost b0 = entries_view(b@);
            let ghost pv = entries_view(ps@);
            let mut i: usize = 0;
            assert(pv.subrange(0, 0) =~= Seq::<(Seq<char>, JsonView)>::empty());
            while i < ps.len()
                invariant
                    i <= ps@.len(),
                    pv == entries_view(ps@),
                    *patch == JsonValue::Object(*ps),
                    entries_view(b@) == merge_entries(b0, pv.subrange(0, i as int)),
                decreases ps.len() - i,
            {
                let ghost cur = pv.subrange(0, i + 1);
                assert(cur.drop_last() =~= pv.subrange(0, i as int));
                assert(cur.last() == (ps@[i as int].0@, ps@[i as int].1@));
                assert(merge_entries(b0, cur) == merge_entry(merge_entries(b0, pv.subrange(0, i as int)), ps@[i as int].0@, ps@[i as int].1@));
                let key = ps[i].0.as_str();
                let existing: Option<JsonValue> = match entry_get(&b, key) {
                    Some(x) => Some(x.clone_value()),
                    None => None,
                };
                match existing {
                    Some(x) => {
                        let mut merged = x;
                        proof {
                            assert(decreases_to!(*patch => (*patch)->Object_0));
                            assert(decreases_to!(*ps => ps@[i as int]));
                            assert(decreases_to!(ps@[i as int] => ps@[i as int].1));
                        }
                        merge_json_patch(&mut merged, &ps[i].1);
                        insert_entry(&mut b, to_owned_string(key), merged);
                        assert(entries_view(b@) == merge_entry(merge_entries(b0, pv.subrange(0, i as int)), ps@[i as int].0@, ps@[i as int].1@));
                    },
                    None => {
                        insert_entry(&mut b, to_owned_string(key), ps[i].1.clone_value());
                        assert(entries_view(b@) == merge_entry(merge_entries(b0, pv.subrange(0, i as int)), ps@[i as int].0@, ps@[i as int].1@));
                    },
                }
                i = i + 1;
            }
            assert(pv.subrange(0, pv.len() as int) =~= pv);
            proof {
                lemma_object_view(b);
            }
            *base = JsonValue::Object(b);
        },
        _ => {
            proof {
                match patch {
                    JsonValue::Array(items) => lemma_array_view(*items),
                    _ => {},
                }
            }
            *base = patch.clone_value();
        },
    }
}

/// The payload of the prompt that begins a session, before the operator's
/// patch.
pub open spec fn begin_payload_spec(r: SegmentBeginRequest) -> JsonView {
    let contract = obj_insert(
        obj_insert(
            obj_insert(
                obj_insert(
                    Seq::empty(),
                    "required_fields"@,
                    JsonView::Array(str_items(seq![
                        "session_id"@,
                        "snapshot_hash"@,
                        "cursor"@,
                        "limits.max_rounds"@,
                        "limits.max_segments"@,
                    ])),
                ),
                "cursor_type"@,
                JsonView::Str("string_or_number"@),
            ),
            "snapshot_hash_rule"@,
            JsonView::Str("must echo the provided snapshot_hash exactly"@),
        ),
        "note"@,
        JsonView::Str("cursor will be normalized to string by runner"@),
    );
    let e0 = obj_insert(Seq::empty(), "schema"@, JsonView::Str("ais-agent-intent/0.0.1"@));
    let e1 = obj_insert(e0, "intent"@, JsonView::Str(r.intent@));
    let e2 = obj_insert(e1, "begin_contract"@, JsonView::Object(contract));
    let e3 = obj_insert(e2, "snapshot_hash"@, JsonView::Str(r.snapshot_hash@));
    let e4 = obj_insert(e3, "pack_snapshot_hash"@, JsonView::Str(r.pack_snapshot_hash@));
    let e5 = obj_insert(e4, "catalog_hash"@, JsonView::Str(r.catalog_hash@));
    let e6 = obj_insert(
        e5,
        "chain_scope"@,
        JsonView::Array(str_items(r.chain_scope@.map_values(|s: String| s@))),
    );
    JsonView::Object(obj_insert(e6, "goal"@, JsonView::Str("call plan.begin"@)))
}

/// The payload of the prompt that begins a session, with the operator's
/// patch merged in.
pub fn begin_prompt_payload(request: &SegmentBeginRequest, patch: Option<&JsonValue>) -> (r: JsonValue)
    ensures
        r@ == match patch {
            Some(p) => merge_patch(begin_payload_spec(*request), p@),
            None => begin_payload_spec(*request),
        },
{
    let fields: Vec<String> = vec![
        to_owned_string("session_id"),
        to_owned_string("snapshot_hash"),
        to_owned_string("cursor"),
        to_owned_string("limits.max_rounds"),
        to_owned_string("limits.max_segments"),
    ];
    assert(fields@.map_values(|s: String| s@) =~= seq![
        "session_id"@,
        "snapshot_hash"@,
        "cursor"@,
        "limits.max_rounds"@,
        "limits.max_segments"@,
    ]);
    let mut contract = JsonValue::empty_object();
    contract.insert(to_owned_string("required_fields"), string_array(&fields));
    contract.insert(to_owned_string("cursor_type"), JsonValue::String(to_owned_string("string_or_number")));
    contract.insert(
        to_owned_string("snapshot_hash_rule"),
        JsonValue::String(to_owned_string("must echo the provided snapshot_hash exactly")),
    );
    contract.insert(
        to_owned_string("note"),
        JsonValue::String(to_owned_string("cursor will be normalized to string by runner")),
    );
    let mut o = JsonValue::empty_object();
    o.insert(to_owned_string("schema"), JsonValue::String(to_owned_string("ais-agent-intent/0.0.1")));
    o.insert(to_owned_string("intent"), JsonValue::String(to_owned_string(request.intent.as_str())));
    o.insert(to_owned_string("begin_contract"), contract);
    o.insert(to_owned_string("snapshot_hash"), JsonValue::String(to_owned_string(request.snapshot_hash.as_str())));
    o.insert(
        to_owned_string("pack_snapshot_hash"),
        JsonValue::String(to_owned_string(request.pack_snapshot_hash.as_str())),
    );
    o.insert(to_owned_string("catalog_hash"), JsonValue::String(to_owned_string(request.catalog_hash.as_str())));
    o.insert(to_owned_string("chain_scope"), string_array(&request.chain_scope));
    o.insert(to_owned_string("goal"), JsonValue::String(to_owned_string("call plan.begin")));
    match patch {
        Some(p) => merge_json_patch(&mut o, p),
        None => {},
    }
    o
}

} // verus!
