//! Packing the planner context into a token budget.
//!
//! The optional blocks of the context summary can each be shown in full, as
//! a compacted summary, or as a skeleton, and can finally be dropped.  While
//! the summary is over budget, packing compresses low and stale blocks
//! first, then drops stale and low blocks, then compresses and finally drops
//! the medium ones, recording every step.
use vstd::prelude::*;
use crate::agent::budget::{compact_json_with_options, compact_view, JsonBudgetOptions};
use crate::agent::context::budget_policy::{
    ContextCompactionPolicy, ContextPressureMode, ToolMemoryBudgetPolicy, adaptive_limit_spec,
    compaction_options_spec, min_int, pressure_mode_spec, recipe_level_spec, recipe_summary_spec,
    remaining_key, sat_mul, sat_mul_u64, soft_limit_key, usage_field_spec, usage_field_u64,
};
use crate::agent::context::packing::{
    ContextBlockPriority, ContextCompressLevel, ContextPackBlockId, PackAction, PackDecision,
    PackDiagnostics, PackTrace, count_of, counts_wf, lemma_count_push,
};
use crate::json::{JsonNumber, JsonValue, JsonView, NumberView, entries_view, lemma_object_view,
    obj_get, obj_insert, obj_sorted, lemma_obj_get_insert, lemma_obj_insert_sorted, pointer_set_spec, pointer_spec, sat_usize, text_len, view_as_u64};
use crate::text::{starts_with, str_starts_with, to_owned_string, trim, is_blank};

verus! {

pub const CHARS_PER_TOKEN_ESTIMATE: usize = 4;

/// The estimated tokens of a document: its compact text length divided by
/// four, rounded up.
pub open spec fn estimate_spec(v: JsonView) -> u64 {
    (sat_usize(sat_usize(text_len(v)) + 3) / 4) as u64
}

pub fn estimate_tokens_json(value: &JsonValue) -> (r: u64)
    ensures
        r == estimate_spec(value@),
{
    let chars = value.text_len_exec();
    (chars.saturating_add(3) / 4) as u64
}

/// One optional block of the context and the forms it can take.
pub struct PackBlock {
    pub id: ContextPackBlockId,
    pub selected: ContextCompressLevel,
    pub dropped: bool,
    pub full: JsonValue,
    pub summary: Option<JsonValue>,
    pub skeleton: JsonValue,
}

/// A block as plain values.
pub struct BlockView {
    pub id: ContextPackBlockId,
    pub selected: ContextCompressLevel,
    pub dropped: bool,
    pub full: JsonView,
    pub summary: Option<JsonView>,
    pub skeleton: JsonView,
}

pub open spec fn block_view(b: PackBlock) -> BlockView {
    BlockView {
        id: b.id,
        selected: b.selected,
        dropped: b.dropped,
        full: b.full@,
        summary: match b.summary {
            Some(x) => Some(x@),
            None => None,
        },
        skeleton: b.skeleton@,
    }
}

pub open spec fn blocks_view(bs: Seq<PackBlock>) -> Seq<BlockView> {
    bs.map_values(|b: PackBlock| block_view(b))
}

/// The form of the block at its selected level.
pub open spec fn selected_view(b: BlockView) -> JsonView {
    match b.selected {
        ContextCompressLevel::Full => b.full,
        ContextCompressLevel::Summary => match b.summary {
            Some(x) => x,
            None => b.full,
        },
        ContextCompressLevel::Skeleton => b.skeleton,
    }
}

/// The facts object keeping only the owner and default wallet.
pub open spec fn minimal_facts_spec(full: JsonView) -> JsonView {
    match full {
        JsonView::Object(es) => {
            let a = match obj_get(es, "owner"@) {
                Some(v) => obj_insert(Seq::empty(), "owner"@, v),
                None => Seq::empty(),
            };
            let b = match obj_get(es, "wallet.default"@) {
                Some(v) => obj_insert(a, "wallet.default"@, v),
                None => a,
            };
            JsonView::Object(b)
        },
        _ => JsonView::Object(Seq::empty()),
    }
}

pub fn minimal_input_store_facts(full: &JsonValue) -> (r: JsonValue)
    ensures
        r@ == minimal_facts_spec(full@),
{
    let mut out = JsonValue::empty_object();
    match full {
        JsonValue::Object(_) => {},
        _ => return out,
    }
    match full.get("owner") {
        Some(v) => {
            out.insert(to_owned_string("owner"), v.clone_value());
        },
        None => {},
    }
    match full.get("wallet.default") {
        Some(v) => {
            out.insert(to_owned_string("wallet.default"), v.clone_value());
        },
        None => {},
    }
    out
}

/// `v` with the value at `path` replaced, or unchanged when there is none.
pub open spec fn set_or_keep(v: JsonView, path: Seq<char>, new: JsonView) -> JsonView {
    match pointer_set_spec(v, path, new) {
        Some(x) => x,
        None => v,
    }
}

/// The skeleton of a block, from its full form.
pub open spec fn skeleton_spec(id: ContextPackBlockId, full: JsonView) -> JsonView {
    match id {
        ContextPackBlockId::ToolMemoryProjection => JsonView::Null,
        ContextPackBlockId::InputStoreFacts => minimal_facts_spec(full),
        ContextPackBlockId::PreviousErrorLastFailedFinalize => set_or_keep(
            full,
            "/assistant_content"@,
            JsonView::Null,
        ),
        ContextPackBlockId::CapabilityViewProtocols => JsonView::Array(Seq::empty()),
        ContextPackBlockId::PreviousError => JsonView::Null,
        ContextPackBlockId::PreviousErrorAutofillHistory => JsonView::Null,
        ContextPackBlockId::RecoveryDiagnostics => JsonView::Null,
    }
}

/// The block of `id` prepared from the summary: its full form is what the
/// summary holds at its path (null when nothing), its summary form the full
/// form compacted under the recipe (or the full form), and its level the
/// recipe's preferred one.
pub open spec fn prepared_spec(id: ContextPackBlockId, summary: JsonView, mode: ContextPressureMode) -> BlockView {
    let full = match pointer_spec(summary, id.path_spec()) {
        Some(x) => x,
        None => JsonView::Null,
    };
    BlockView {
        id,
        selected: recipe_level_spec(id, mode),
        dropped: false,
        full,
        summary: Some(
            match recipe_summary_spec(id, mode) {
                Some(o) => compact_view(full, o, 0),
                None => full,
            },
        ),
        skeleton: skeleton_spec(id, full),
    }
}

impl PackBlock {
    /// The block of `id`, prepared from `summary` for pressure `mode`.
    pub fn prepare(id: ContextPackBlockId, summary: &JsonValue, mode: ContextPressureMode) -> (r: PackBlock)
        ensures
            block_view(r) == prepared_spec(id, summary@, mode),
    {
        let full = match summary.pointer(id.path()) {
            Some(x) => x.clone_value(),
            None => JsonValue::Null,
        };
        let recipe = ToolMemoryBudgetPolicy::context_pack_block_recipe(id, mode);
        let compacted = match recipe.summary_compact_options {
            Some(o) => compact_json_with_options(&full, &o),
            None => full.clone_value(),
        };
        let skeleton = match id {
            ContextPackBlockId::ToolMemoryProjection => JsonValue::Null,
            ContextPackBlockId::InputStoreFacts => minimal_input_store_facts(&full),
            ContextPackBlockId::PreviousErrorLastFailedFinalize => {
                let mut s = full.clone_value();
                let _ = s.set_pointer_value("/assistant_content", JsonValue::Null);
                s
            },
            ContextPackBlockId::CapabilityViewProtocols => {
                let v: Vec<JsonValue> = Vec::new();
                proof {
                    crate::json::lemma_array_view(v);
                    assert(crate::json::items_view(v@) =~= Seq::<JsonView>::empty());
                }
                JsonValue::Array(v)
            },
            ContextPackBlockId::PreviousError => JsonValue::Null,
            ContextPackBlockId::PreviousErrorAutofillHistory => JsonValue::Null,
            ContextPackBlockId::RecoveryDiagnostics => JsonValue::Null,
        };
        PackBlock {
            id,
            selected: recipe.preferred_level,
            dropped: false,
            full,
            summary: Some(compacted),
            skeleton,
        }
    }

    /// The next level down, if the block can still be compressed.
    pub fn has_next_compress_level(&self) -> (r: Option<ContextCompressLevel>)
        ensures
            r == next_level_spec(block_view(*self)),
    {
        match self.selected {
            ContextCompressLevel::Full => {
                if self.summary.is_some() {
                    Some(ContextCompressLevel::Summary)
                } else {
                    Some(ContextCompressLevel::Skeleton)
                }
            },
            ContextCompressLevel::Summary => Some(ContextCompressLevel::Skeleton),
            ContextCompressLevel::Skeleton => None,
        }
    }

    /// Writes the block's selected form into the summary.
    pub fn apply_selected(&self, summary: &mut JsonValue)
        ensures
            final(summary)@ == apply_spec(block_view(*self), old(summary)@),
    {
        let value = match self.selected {
            ContextCompressLevel::Full => self.full.clone_value(),
            ContextCompressLevel::Summary => match &self.summary {
                Some(x) => x.clone_value(),
                None => self.full.clone_value(),
            },
            ContextCompressLevel::Skeleton => self.skeleton.clone_value(),
        };
        let _ = summary.set_pointer_value(self.id.path(), value);
        if self.id == ContextPackBlockId::InputStoreFacts {
            reconcile_input_store_meta(summary);
        }
        if self.id == ContextPackBlockId::CapabilityViewProtocols && self.selected
            == ContextCompressLevel::Skeleton {
            reset_capability_counts(summary);
        }
    }
}

pub open spec fn next_level_spec(b: BlockView) -> Option<ContextCompressLevel> {
    match b.selected {
        ContextCompressLevel::Full => if b.summary is Some {
            Some(ContextCompressLevel::Summary)
        } else {
            Some(ContextCompressLevel::Skeleton)
        },
        ContextCompressLevel::Summary => Some(ContextCompressLevel::Skeleton),
        ContextCompressLevel::Skeleton => None,
    }
}

/// The summary after writing a block's selected form into it.
pub open spec fn apply_spec(b: BlockView, s: JsonView) -> JsonView {
    let s1 = set_or_keep(s, b.id.path_spec(), selected_view(b));
    let s2 = if b.id == ContextPackBlockId::InputStoreFacts {
        reconcile_spec(s1)
    } else {
        s1
    };
    if b.id == ContextPackBlockId::CapabilityViewProtocols && b.selected
        == ContextCompressLevel::Skeleton {
        counts_spec(s2)
    } else {
        s2
    }
}

/// The entries of `meta` whose key is a fact key not starting with `_`.
pub open spec fn retain_fact_keys(
    meta: Seq<(Seq<char>, JsonView)>,
    facts: Seq<(Seq<char>, JsonView)>,
) -> Seq<(Seq<char>, JsonView)>
    decreases meta.len(),
{
    if meta.len() == 0 {
        Seq::empty()
    } else {
        let r = retain_fact_keys(meta.drop_last(), facts);
        if is_fact_key(facts, meta.last().0) {
            r.push(meta.last())
        } else {
            r
        }
    }
}

pub open spec fn is_fact_key(facts: Seq<(Seq<char>, JsonView)>, k: Seq<char>) -> bool {
    obj_get(facts, k) is Some && !starts_with(k, "_"@)
}

/// The input-store metadata keeps only entries for the facts present.
pub open spec fn reconcile_spec(s: JsonView) -> JsonView {
    match pointer_spec(s, "/input_store/facts"@) {
        Some(JsonView::Object(facts)) => match pointer_spec(s, "/input_store/meta"@) {
            Some(JsonView::Object(meta)) => set_or_keep(
                s,
                "/input_store/meta"@,
                JsonView::Object(retain_fact_keys(meta, facts)),
            ),
            _ => s,
        },
        _ => s,
    }
}

pub open spec fn counts_object(topics: nat) -> JsonView {
    JsonView::Object(
        obj_insert(
            obj_insert(
                obj_insert(
                    obj_insert(Seq::empty(), "protocols"@, JsonView::Number(NumberView::PosInt(0))),
                    "actions"@,
                    JsonView::Number(NumberView::PosInt(0)),
                ),
                "queries"@,
                JsonView::Number(NumberView::PosInt(0)),
            ),
            "topics"@,
            JsonView::Number(NumberView::PosInt(topics as u64)),
        ),
    )
}

/// With the protocols dropped, the capability counts show zero protocols,
/// actions and queries, and the number of topics.
pub open spec fn counts_spec(s: JsonView) -> JsonView {
    let topics: nat = match pointer_spec(s, "/capability_view/topics"@) {
        Some(JsonView::Array(xs)) => xs.len(),
        _ => 0,
    };
    set_or_keep(s, "/capability_view/counts"@, counts_object(topics))
}

fn num0() -> (r: JsonValue)
    ensures
        r@ == JsonView::Number(NumberView::PosInt(0)),
{
    JsonValue::Number(JsonNumber::PosInt(0))
}

fn reset_capability_counts(summary: &mut JsonValue)
    ensures
        final(summary)@ == counts_spec(old(summary)@),
{
    let topics: usize = match summary.pointer("/capability_view/topics") {
        Some(JsonValue::Array(xs)) => {
            proof {
                crate::json::lemma_array_view(*xs);
            }
            xs.len()
        },
        _ => 0,
    };
    let mut counts = JsonValue::empty_object();
    counts.insert(to_owned_string("protocols"), num0());
    counts.insert(to_owned_string("actions"), num0());
    counts.insert(to_owned_string("queries"), num0());
    counts.insert(to_owned_string("topics"), JsonValue::Number(JsonNumber::PosInt(topics as u64)));
    let _ = summary.set_pointer_value("/capability_view/counts", counts);
}

fn reconcile_input_store_meta(summary: &mut JsonValue)
    ensures
        final(summary)@ == reconcile_spec(old(summary)@),
{
    let facts = match summary.pointer("/input_store/facts") {
        Some(x) => match x {
            JsonValue::Object(es) => es,
            _ => return,
        },
        None => return,
    };
    let meta = match summary.pointer("/input_store/meta") {
        Some(x) => match x {
            JsonValue::Object(es) => es,
            _ => return,
        },
        None => return,
    };
    proof {
        lemma_object_view(*facts);
        lemma_object_view(*meta);
    }
    let ghost fv = entries_view(facts@);
    let ghost mv = entries_view(meta@);
    let mut kept: Vec<(String, JsonValue)> = Vec::new();
    let mut i: usize = 0;
    let fe = clone_entries(facts);
    proof {
        lemma_object_view(fe);
    }
    let fobj = JsonValue::Object(fe);
    while i < meta.len()
        invariant
            i <= meta@.len(),
            mv == entries_view(meta@),
            fobj@ == JsonView::Object(fv),
            entries_view(kept@) == retain_fact_keys(mv.subrange(0, i as int), fv),
        decreases meta.len() - i,
    {
        let key = meta[i].0.as_str();
        let present = fobj.get(key).is_some();
        let ghost before = kept@;
        proof {
            let pre = mv.subrange(0, i + 1);
            assert(pre.drop_last() =~= mv.subrange(0, i as int));
            assert(pre.last() == mv[i as int]);
        }
        if present && !str_starts_with(key, "_") {
            kept.push((to_owned_string(key), meta[i].1.clone_value()));
            proof {
                assert(entries_view(kept@) =~= entries_view(before).push(mv[i as int]));
            }
        }
        i = i + 1;
    }
    assert(mv.subrange(0, mv.len() as int) =~= mv);
    proof {
        lemma_object_view(kept);
    }
    let _ = summary.set_pointer_value("/input_store/meta", JsonValue::Object(kept));
}

fn clone_entries(es: &Vec<(String, JsonValue)>) -> (r: Vec<(String, JsonValue)>)
    ensures
        entries_view(r@) == entries_view(es@),
{
    let mut out: Vec<(String, JsonValue)> = Vec::new();
    let mut i: usize = 0;
    while i < es.len()
        invariant
            i <= es@.len(),
            out@.len() == i,
            forall|k: int| 0 <= k < i ==> #[trigger] out@[k].0@ == es@[k].0@ && out@[k].1@ == es@[k].1@,
        decreases es.len() - i,
    {
        out.push((to_owned_string(es[i].0.as_str()), es[i].1.clone_value()));
        i = i + 1;
    }
    assert(entries_view(out@) =~= entries_view(es@));
    out
}

/// A value worth keeping: anything but null, an empty array or object, or a
/// blank string.
pub open spec fn has_payload_spec(v: Option<JsonView>) -> bool {
    match v {
        None => false,
        Some(JsonView::Null) => false,
        Some(JsonView::Array(xs)) => xs.len() > 0,
        Some(JsonView::Object(es)) => es.len() > 0,
        Some(JsonView::Str(t)) => trim(t).len() > 0,
        Some(_) => true,
    }
}

pub fn pointer_has_payload(summary: &JsonValue, path: &str) -> (r: bool)
    ensures
        r == has_payload_spec(pointer_spec(summary@, path@)),
{
    match summary.pointer(path) {
        None => false,
        Some(v) => match v {
            JsonValue::Null => false,
            JsonValue::Array(xs) => {
                proof {
                    crate::json::lemma_array_view(*xs);
                }
                xs.len() > 0
            },
            JsonValue::Object(es) => {
                proof {
                    lemma_object_view(*es);
                }
                es.len() > 0
            },
            JsonValue::String(t) => !is_blank(t.as_str()),
            _ => true,
        },
    }
}

// ---------------------------------------------------------------------------
// Choosing the next step
// ---------------------------------------------------------------------------

/// The block can be compressed one level further.
pub open spec fn can_compress(b: BlockView) -> bool {
    next_level_spec(b) is Some && b.selected != ContextCompressLevel::Skeleton
}

/// The block can be dropped: it is at its skeleton and still included.
pub open spec fn can_drop(b: BlockView) -> bool {
    !b.dropped && b.selected == ContextCompressLevel::Skeleton
}

/// The first block from `i` of priority `p` that can be compressed (or,
/// with `drop`, dropped).
pub open spec fn first_from(bs: Seq<BlockView>, p: ContextBlockPriority, drop: bool, i: int) -> Option<int>
    decreases bs.len() - i,
{
    if i < 0 || i >= bs.len() {
        None
    } else if bs[i].id.priority_spec() == p && (if drop {
        can_drop(bs[i])
    } else {
        can_compress(bs[i])
    }) {
        Some(i)
    } else {
        first_from(bs, p, drop, i + 1)
    }
}

/// The first block, by the priorities in order, that can be compressed (or
/// dropped).
pub open spec fn select_spec(bs: Seq<BlockView>, ps: Seq<ContextBlockPriority>, drop: bool) -> Option<int>
    decreases ps.len(),
{
    if ps.len() == 0 {
        None
    } else {
        match first_from(bs, ps[0], drop, 0) {
            Some(i) => Some(i),
            None => select_spec(bs, ps.drop_first(), drop),
        }
    }
}

fn first_block(blocks: &Vec<PackBlock>, p: ContextBlockPriority, drop: bool) -> (r: Option<usize>)
    ensures
        match r {
            Some(i) => first_from(blocks_view(blocks@), p, drop, 0) == Some(i as int),
            None => first_from(blocks_view(blocks@), p, drop, 0) is None,
        },
{
    let mut i: usize = 0;
    while i < blocks.len()
        invariant
            i <= blocks@.len(),
            first_from(blocks_view(blocks@), p, drop, 0) == first_from(blocks_view(blocks@), p, drop, i as int),
        decreases blocks.len() - i,
    {
        let b = &blocks[i];
        assert(blocks_view(blocks@)[i as int] == block_view(blocks@[i as int]));
        let ok = if drop {
            !b.dropped && b.selected == ContextCompressLevel::Skeleton
        } else {
            b.has_next_compress_level().is_some() && b.selected != ContextCompressLevel::Skeleton
        };
        if b.id.default_priority() == p && ok {
            return Some(i);
        }
        i = i + 1;
    }
    None
}

/// The next block to compress: its index and level.
pub fn select_next_compress(blocks: &Vec<PackBlock>, priorities: &Vec<ContextBlockPriority>) -> (r: Option<
    (usize, ContextCompressLevel),
>)
    ensures
        match r {
            Some((i, l)) => select_spec(blocks_view(blocks@), priorities@, false) == Some(i as int) && i
                < blocks@.len() && next_level_spec(block_view(blocks@[i as int])) == Some(l),
            None => select_spec(blocks_view(blocks@), priorities@, false) is None,
        },
{
    let mut k: usize = 0;
    assert(priorities@.subrange(0, priorities@.len() as int) =~= priorities@);
    while k < priorities.len()
        invariant
            k <= priorities@.len(),
            select_spec(blocks_view(blocks@), priorities@, false) == select_spec(
                blocks_view(blocks@),
                priorities@.subrange(k as int, priorities@.len() as int),
                false,
            ),
        decreases priorities.len() - k,
    {
        let ghost rest = priorities@.subrange(k as int, priorities@.len() as int);
        assert(rest[0] == priorities@[k as int]);
        assert(rest.drop_first() =~= priorities@.subrange(k + 1, priorities@.len() as int));
        match first_block(blocks, priorities[k], false) {
            Some(i) => {
                proof {
                    lemma_first_from_bounds(blocks_view(blocks@), priorities@[k as int], false, 0);
                    assert(blocks_view(blocks@)[i as int] == block_view(blocks@[i as int]));
                }
                let l = match blocks[i].has_next_compress_level() {
                    Some(l) => l,
                    None => ContextCompressLevel::Skeleton,
                };
                return Some((i, l));
            },
            None => {},
        }
        k = k + 1;
    }
    assert(priorities@.subrange(k as int, priorities@.len() as int).len() == 0);
    None
}

/// The next block to drop.
pub fn select_next_drop(blocks: &Vec<PackBlock>, priorities: &Vec<ContextBlockPriority>) -> (r: Option<usize>)
    ensures
        match r {
            Some(i) => select_spec(blocks_view(blocks@), priorities@, true) == Some(i as int) && i < blocks@.len(),
            None => select_spec(blocks_view(blocks@), priorities@, true) is None,
        },
{
    let mut k: usize = 0;
    assert(priorities@.subrange(0, priorities@.len() as int) =~= priorities@);
    while k < priorities.len()
        invariant
            k <= priorities@.len(),
            select_spec(blocks_view(blocks@), priorities@, true) == select_spec(
                blocks_view(blocks@),
                priorities@.subrange(k as int, priorities@.len() as int),
                true,
            ),
        decreases priorities.len() - k,
    {
        let ghost rest = priorities@.subrange(k as int, priorities@.len() as int);
        assert(rest[0] == priorities@[k as int]);
        assert(rest.drop_first() =~= priorities@.subrange(k + 1, priorities@.len() as int));
        match first_block(blocks, priorities[k], true) {
            Some(i) => {
                proof {
                    lemma_first_from_bounds(blocks_view(blocks@), priorities@[k as int], true, 0);
                }
                return Some(i);
            },
            None => {},
        }
        k = k + 1;
    }
    assert(priorities@.subrange(k as int, priorities@.len() as int).len() == 0);
    None
}

// ---------------------------------------------------------------------------
// The packing run
// ---------------------------------------------------------------------------

/// A trace entry as plain values.
pub struct DecisionView {
    pub block_id: Seq<char>,
    pub action: PackAction,
    pub reason: Seq<char>,
    pub before: Option<ContextCompressLevel>,
    pub after: Option<ContextCompressLevel>,
}

pub open spec fn decision_view(d: PackDecision) -> DecisionView {
    DecisionView {
        block_id: d.block_id@,
        action: d.action,
        reason: d.reason@,
        before: d.before_level,
        after: d.after_level,
    }
}

pub open spec fn decisions_view(ds: Seq<PackDecision>) -> Seq<DecisionView> {
    ds.map_values(|d: PackDecision| decision_view(d))
}

/// The next step of packing: compress a low or stale block, else drop a
/// stale or low block, else compress a medium block, else drop a medium
/// block.
pub open spec fn policy_spec(bs: Seq<BlockView>) -> Option<(int, PackAction, ContextCompressLevel)> {
    match select_spec(bs, seq![ContextBlockPriority::Low, ContextBlockPriority::Stale], false) {
        Some(i) => Some((i, PackAction::Compress, next_level_spec(bs[i])->0)),
        None => match select_spec(bs, seq![ContextBlockPriority::Stale, ContextBlockPriority::Low], true) {
            Some(i) => Some((i, PackAction::Drop, ContextCompressLevel::Skeleton)),
            None => match select_spec(bs, seq![ContextBlockPriority::Medium], false) {
                Some(i) => Some((i, PackAction::Compress, next_level_spec(bs[i])->0)),
                None => match select_spec(bs, seq![ContextBlockPriority::Medium], true) {
                    Some(i) => Some((i, PackAction::Drop, ContextCompressLevel::Skeleton)),
                    None => None,
                },
            },
        },
    }
}

pub open spec fn stepped(b: BlockView, action: PackAction, level: ContextCompressLevel) -> BlockView {
    BlockView {
        id: b.id,
        selected: level,
        dropped: b.dropped || action == PackAction::Drop,
        full: b.full,
        summary: b.summary,
        skeleton: b.skeleton,
    }
}

pub open spec fn keep_decision(reason: Seq<char>) -> DecisionView {
    DecisionView {
        block_id: "state_summary"@,
        action: PackAction::Keep,
        reason,
        before: None,
        after: None,
    }
}

/// Only the must-keep parts are left: every block is dropped or at its
/// skeleton, and some must-keep part holds a payload.
pub open spec fn must_keep_only_spec(bs: Seq<BlockView>, s: JsonView) -> bool {
    (forall|i: int| 0 <= i < bs.len() ==> #[trigger] bs[i].dropped || bs[i].selected
        == ContextCompressLevel::Skeleton) && (has_payload_spec(pointer_spec(s, "/todo_state"@))
        || has_payload_spec(pointer_spec(s, "/input_registry/known_refs"@)) || has_payload_spec(
        pointer_spec(s, "/previous_error"@),
    ))
}

pub struct PackOutcome {
    pub summary: JsonView,
    pub blocks: Seq<BlockView>,
    pub decisions: Seq<DecisionView>,
    pub reason: Option<Seq<char>>,
}

pub open spec fn step_reason(a: PackAction) -> Seq<char> {
    if a == PackAction::Compress {
        "pack_compress"@
    } else {
        "pack_drop"@
    }
}

/// Packing from round `iter` on: stop within budget; else take the policy's
/// step and go on, for at most 64 rounds; stop when no step is left.
pub open spec fn pack_run(s: JsonView, bs: Seq<BlockView>, budget: u64, iter: nat) -> PackOutcome
    decreases 64 - iter,
{
    if iter >= 64 {
        PackOutcome {
            summary: s,
            blocks: bs,
            decisions: seq![keep_decision("budget_exceeded_pack_loop_limit"@)],
            reason: Some("budget_exceeded_pack_loop_limit"@),
        }
    } else if estimate_spec(s) <= budget {
        PackOutcome { summary: s, blocks: bs, decisions: Seq::empty(), reason: None }
    } else {
        match policy_spec(bs) {
            Some((i, a, l)) => {
                let b2 = bs.update(i, stepped(bs[i], a, l));
                let s2 = apply_spec(b2[i], s);
                let d = step_decision(bs[i], a, l);
                let rest = pack_run(s2, b2, budget, iter + 1);
                PackOutcome {
                    summary: rest.summary,
                    blocks: rest.blocks,
                    decisions: seq![d] + rest.decisions,
                    reason: rest.reason,
                }
            },
            None => {
                let reason = if must_keep_only_spec(bs, s) {
                    "must_keep_only_exceeds_budget"@
                } else {
                    "budget_exceeded_no_further_actions"@
                };
                PackOutcome { summary: s, blocks: bs, decisions: seq![keep_decision(reason)], reason: Some(reason) }
            },
        }
    }
}

/// The blocks prepared from the summary, in packing order.
pub open spec fn initial_blocks(s: JsonView, mode: ContextPressureMode) -> Seq<BlockView> {
    Seq::new(7, |i: int| prepared_spec(ContextPackBlockId::optional_blocks_spec()[i], s, mode))
}

/// The summary with the first `n` blocks written into it, in order.
pub open spec fn apply_all(bs: Seq<BlockView>, s: JsonView, n: nat) -> JsonView
    decreases n,
{
    if n == 0 {
        s
    } else {
        apply_spec(bs[n - 1], apply_all(bs, s, (n - 1) as nat))
    }
}

/// Packing a summary: the blocks are prepared and written in at their
/// preferred levels; if that is within budget the summary is kept whole,
/// else packing runs.
pub open spec fn pack_spec(s: JsonView, budget: u64, mode: ContextPressureMode) -> PackOutcome {
    let bs0 = initial_blocks(s, mode);
    let s0 = apply_all(bs0, s, 7);
    if estimate_spec(s0) <= budget {
        PackOutcome { summary: s0, blocks: bs0, decisions: seq![keep_decision("within_budget_full"@)], reason: None }
    } else {
        pack_run(s0, bs0, budget, 0)
    }
}

fn next_action(blocks: &Vec<PackBlock>) -> (r: Option<(usize, PackAction, ContextCompressLevel)>)
    ensures
        match r {
            Some((i, a, l)) => policy_spec(blocks_view(blocks@)) == Some((i as int, a, l)) && i
                < blocks@.len(),
            None => policy_spec(blocks_view(blocks@)) is None,
        },
{
    let low_stale = vec![ContextBlockPriority::Low, ContextBlockPriority::Stale];
    assert(low_stale@ =~= seq![ContextBlockPriority::Low, ContextBlockPriority::Stale]);
    match select_next_compress(blocks, &low_stale) {
        Some((i, l)) => return Some((i, PackAction::Compress, l)),
        None => {},
    }
    let stale_low = vec![ContextBlockPriority::Stale, ContextBlockPriority::Low];
    assert(stale_low@ =~= seq![ContextBlockPriority::Stale, ContextBlockPriority::Low]);
    match select_next_drop(blocks, &stale_low) {
        Some(i) => return Some((i, PackAction::Drop, ContextCompressLevel::Skeleton)),
        None => {},
    }
    let medium = vec![ContextBlockPriority::Medium];
    assert(medium@ =~= seq![ContextBlockPriority::Medium]);
    match select_next_compress(blocks, &medium) {
        Some((i, l)) => return Some((i, PackAction::Compress, l)),
        None => {},
    }
    match select_next_drop(blocks, &medium) {
        Some(i) => Some((i, PackAction::Drop, ContextCompressLevel::Skeleton)),
        None => None,
    }
}

fn must_keep_only(blocks: &Vec<PackBlock>, summary: &JsonValue) -> (r: bool)
    ensures
        r == must_keep_only_spec(blocks_view(blocks@), summary@),
{
    let mut all = true;
    let mut i: usize = 0;
    while i < blocks.len()
        invariant
            i <= blocks@.len(),
            all == forall|k: int|
                0 <= k < i ==> #[trigger] blocks@[k].dropped || blocks@[k].selected
                    == ContextCompressLevel::Skeleton,
        decreases blocks.len() - i,
    {
        if !(blocks[i].dropped || blocks[i].selected == ContextCompressLevel::Skeleton) {
            all = false;
        }
        i = i + 1;
    }
    proof {
        let bv = blocks_view(blocks@);
        assert forall|k: int| 0 <= k < bv.len() implies (#[trigger] bv[k]).dropped == blocks@[k].dropped
            && bv[k].selected == blocks@[k].selected by {
            assert(bv[k] == block_view(blocks@[k]));
        }
    }
    let a = pointer_has_payload(summary, "/todo_state");
    let b = pointer_has_payload(summary, "/input_registry/known_refs");
    let c = pointer_has_payload(summary, "/previous_error");
    proof {
        let bv = blocks_view(blocks@);
        if !all {
            let k = choose|k: int|
                0 <= k < blocks@.len() && !(#[trigger] blocks@[k].dropped || blocks@[k].selected
                    == ContextCompressLevel::Skeleton);
            assert(bv[k] == block_view(blocks@[k]));
        }
    }
    all && (a || b || c)
}

fn keep(reason: &'static str) -> (d: PackDecision)
    ensures
        decision_view(d) == keep_decision(reason@),
{
    PackDecision {
        block_id: to_owned_string("state_summary"),
        action: PackAction::Keep,
        reason,
        before_level: None,
        after_level: None,
    }
}

/// Saturating count of the trace entries with `action`.
pub open spec fn action_count(ds: Seq<DecisionView>, action: PackAction) -> nat
    decreases ds.len(),
{
    if ds.len() == 0 {
        0
    } else {
        let c = action_count(ds.drop_last(), action);
        if ds.last().action == action {
            crate::agent::context::packing::sat_inc(c)
        } else {
            c
        }
    }
}

/// Saturating count of the trace entries with `action` and `reason`.
pub open spec fn reason_count(ds: Seq<DecisionView>, action: PackAction, reason: Seq<char>) -> nat
    decreases ds.len(),
{
    if ds.len() == 0 {
        0
    } else {
        let c = reason_count(ds.drop_last(), action, reason);
        if ds.last().action == action && ds.last().reason == reason {
            crate::agent::context::packing::sat_inc(c)
        } else {
            c
        }
    }
}

pub open spec fn dropped_count(bs: Seq<BlockView>, dropped: bool) -> nat
    decreases bs.len(),
{
    if bs.len() == 0 {
        0
    } else {
        dropped_count(bs.drop_last(), dropped) + if bs.last().dropped == dropped {
            1nat
        } else {
            0nat
        }
    }
}

/// Counters of a packing run, from the blocks and the whole trace.
pub fn pack_diagnostics_from_blocks(blocks: &Vec<PackBlock>, trace: &PackTrace) -> (d: PackDiagnostics)
    ensures
        d.wf(),
        d.packed_blocks_total == blocks@.len(),
        d.packed_blocks_included == dropped_count(blocks_view(blocks@), false),
        d.packed_blocks_evicted == dropped_count(blocks_view(blocks@), true),
        d.compressed_blocks_total == action_count(decisions_view(trace.decisions@), PackAction::Compress),
        forall|r: Seq<char>|
            #![trigger crate::agent::context::packing::count_of(d.compressed_by_reason@, r)]
            crate::agent::context::packing::count_of(d.compressed_by_reason@, r) == reason_count(
                decisions_view(trace.decisions@),
                PackAction::Compress,
                r,
            ),
        forall|r: Seq<char>|
            #![trigger crate::agent::context::packing::count_of(d.evicted_by_reason@, r)]
            crate::agent::context::packing::count_of(d.evicted_by_reason@, r) == reason_count(
                decisions_view(trace.decisions@),
                PackAction::Drop,
                r,
            ),
{
    let mut d = PackDiagnostics::new();
    let mut included: u64 = 0;
    let mut evicted: u64 = 0;
    let mut i: usize = 0;
    while i < blocks.len()
        invariant
            i <= blocks@.len(),
            included == dropped_count(blocks_view(blocks@).subrange(0, i as int), false),
            evicted == dropped_count(blocks_view(blocks@).subrange(0, i as int), true),
            included + evicted == i,
        decreases blocks.len() - i,
    {
        proof {
            let pre = blocks_view(blocks@).subrange(0, i + 1);
            assert(pre.drop_last() =~= blocks_view(blocks@).subrange(0, i as int));
            assert(pre.last() == block_view(blocks@[i as int]));
        }
        if blocks[i].dropped {
            evicted = evicted + 1;
        } else {
            included = included + 1;
        }
        i = i + 1;
    }
    assert(blocks_view(blocks@).subrange(0, blocks@.len() as int) =~= blocks_view(blocks@));
    d.packed_blocks_total = blocks.len() as u64;
    d.packed_blocks_included = included;
    d.packed_blocks_evicted = evicted;
    let ghost ds = decisions_view(trace.decisions@);
    let mut k: usize = 0;
    while k < trace.decisions.len()
        invariant
            k <= trace.decisions@.len(),
            ds == decisions_view(trace.decisions@),
            d.wf(),
            d.packed_blocks_total == blocks@.len(),
            d.packed_blocks_included == included,
            d.packed_blocks_evicted == evicted,
            d.compressed_blocks_total == action_count(ds.subrange(0, k as int), PackAction::Compress),
            forall|r: Seq<char>|
                #![trigger crate::agent::context::packing::count_of(d.compressed_by_reason@, r)]
                crate::agent::context::packing::count_of(d.compressed_by_reason@, r) == reason_count(
                    ds.subrange(0, k as int),
                    PackAction::Compress,
                    r,
                ),
            forall|r: Seq<char>|
                #![trigger crate::agent::context::packing::count_of(d.evicted_by_reason@, r)]
                crate::agent::context::packing::count_of(d.evicted_by_reason@, r) == reason_count(
                    ds.subrange(0, k as int),
                    PackAction::Drop,
                    r,
                ),
        decreases trace.decisions.len() - k,
    {
        proof {
            let pre = ds.subrange(0, k + 1);
            assert(pre.drop_last() =~= ds.subrange(0, k as int));
            assert(pre.last() == decision_view(trace.decisions@[k as int]));
        }
        d.observe_decision(&trace.decisions[k]);
        k = k + 1;
    }
    assert(ds.subrange(0, ds.len() as int) =~= ds);
    d
}

/// What packing gives: the reason it stopped over budget, if it did, and
/// its counters.
pub struct PackBlocksResult {
    pub overflow_reason: Option<&'static str>,
    pub diagnostics: PackDiagnostics,
}

/// The trace entry of one policy step on block `b`.
pub open spec fn step_decision(b: BlockView, a: PackAction, l: ContextCompressLevel) -> DecisionView {
    DecisionView {
        block_id: b.id.name_spec(),
        action: a,
        reason: step_reason(a),
        before: Some(b.selected),
        after: Some(l),
    }
}

/// Takes one step of the policy on block `i`: sets its level (dropping it
/// for a drop), writes it into the summary and records the step.
fn take_step(
    blocks: &mut Vec<PackBlock>,
    i: usize,
    a: PackAction,
    l: ContextCompressLevel,
    summary: &mut JsonValue,
    trace: &mut PackTrace,
)
    requires
        i < old(blocks)@.len(),
    ensures
        blocks_view(final(blocks)@) == blocks_view(old(blocks)@).update(
            i as int,
            stepped(blocks_view(old(blocks)@)[i as int], a, l),
        ),
        final(summary)@ == apply_spec(stepped(blocks_view(old(blocks)@)[i as int], a, l), old(summary)@),
        decisions_view(final(trace).decisions@) == decisions_view(old(trace).decisions@).push(
            step_decision(blocks_view(old(blocks)@)[i as int], a, l),
        ),
{
    let ghost bv0 = blocks_view(blocks@);
    let ghost t0 = trace.decisions@;
    let ob = blocks.remove(i);
    assert(bv0[i as int] == block_view(ob));
    let before = ob.selected;
    let id = ob.id;
    let nb = PackBlock {
        id: ob.id,
        selected: l,
        dropped: ob.dropped || a == PackAction::Drop,
        full: ob.full,
        summary: ob.summary,
        skeleton: ob.skeleton,
    };
    assert(block_view(nb) == stepped(bv0[i as int], a, l));
    nb.apply_selected(summary);
    blocks.insert(i, nb);
    assert(blocks_view(blocks@) =~= bv0.update(i as int, stepped(bv0[i as int], a, l)));
    let reason = if a == PackAction::Compress {
        "pack_compress"
    } else {
        "pack_drop"
    };
    let d = PackDecision {
        block_id: to_owned_string(id.as_str()),
        action: a,
        reason,
        before_level: Some(before),
        after_level: Some(l),
    };
    assert(decision_view(d) == step_decision(bv0[i as int], a, l));
    trace.push(d);
    assert(decisions_view(trace.decisions@) =~= decisions_view(t0).push(decision_view(d)));
}

/// Packs the optional blocks of `summary` into `token_budget` tokens,
/// recording each step in `trace`.
pub fn pack_blocks(
    summary: &mut JsonValue,
    token_budget: u64,
    mode: ContextPressureMode,
    trace: &mut PackTrace,
) -> (r: PackBlocksResult)
    ensures
        r.diagnostics.wf(),
        final(summary)@ == pack_spec(old(summary)@, token_budget, mode).summary,
        decisions_view(final(trace).decisions@) == decisions_view(old(trace).decisions@) + pack_spec(
            old(summary)@,
            token_budget,
            mode,
        ).decisions,
        match r.overflow_reason {
            Some(x) => pack_spec(old(summary)@, token_budget, mode).reason == Some(x@),
            None => pack_spec(old(summary)@, token_budget, mode).reason is None,
        },
        r.diagnostics.packed_blocks_total == 7,
        r.diagnostics.packed_blocks_included == dropped_count(
            pack_spec(old(summary)@, token_budget, mode).blocks,
            false,
        ),
        r.diagnostics.packed_blocks_evicted == dropped_count(
            pack_spec(old(summary)@, token_budget, mode).blocks,
            true,
        ),
        r.diagnostics.compressed_blocks_total == action_count(
            decisions_view(final(trace).decisions@),
            PackAction::Compress,
        ),
        forall|x: Seq<char>|
            #![trigger crate::agent::context::packing::count_of(r.diagnostics.compressed_by_reason@, x)]
            crate::agent::context::packing::count_of(r.diagnostics.compressed_by_reason@, x)
                == reason_count(decisions_view(final(trace).decisions@), PackAction::Compress, x),
        forall|x: Seq<char>|
            #![trigger crate::agent::context::packing::count_of(r.diagnostics.evicted_by_reason@, x)]
            crate::agent::context::packing::count_of(r.diagnostics.evicted_by_reason@, x)
                == reason_count(decisions_view(final(trace).decisions@), PackAction::Drop, x),
{
    let ghost s_in = summary@;
    let ghost t_in = decisions_view(trace.decisions@);
    let ids = ContextPackBlockId::optional_pack_blocks();
    let mut blocks: Vec<PackBlock> = Vec::new();
    let mut i: usize = 0;
    while i < ids.len()
        invariant
            i <= ids@.len(),
            ids@ == ContextPackBlockId::optional_blocks_spec(),
            summary@ == s_in,
            blocks@.len() == i,
            forall|k: int|
                0 <= k < i ==> #[trigger] block_view(blocks@[k]) == prepared_spec(ids@[k], s_in, mode),
        decreases ids.len() - i,
    {
        let b = PackBlock::prepare(ids[i], summary, mode);
        blocks.push(b);
        i = i + 1;
    }
    proof {
        assert forall|k: int| 0 <= k < 7 implies blocks_view(blocks@)[k] == initial_blocks(s_in, mode)[k] by {
            assert(blocks_view(blocks@)[k] == block_view(blocks@[k]));
        }
        assert(blocks_view(blocks@) =~= initial_blocks(s_in, mode));
    }
    let ghost bs0 = blocks_view(blocks@);
    let mut j: usize = 0;
    while j < blocks.len()
        invariant
            j <= blocks@.len(),
            blocks@.len() == 7,
            bs0 == blocks_view(blocks@),
            summary@ == apply_all(bs0, s_in, j as nat),
        decreases blocks.len() - j,
    {
        assert(bs0[j as int] == block_view(blocks@[j as int]));
        blocks[j].apply_selected(summary);
        j = j + 1;
    }
    let ghost s0 = summary@;
    if estimate_tokens_json(summary) <= token_budget {
        trace.push(keep("within_budget_full"));
        assert(decisions_view(trace.decisions@) =~= t_in + seq![keep_decision("within_budget_full"@)]);
        let diagnostics = pack_diagnostics_from_blocks(&blocks, trace);
        return PackBlocksResult { overflow_reason: None, diagnostics };
    }
    let ghost target = pack_run(s0, bs0, token_budget, 0);
    let mut iter: u64 = 0;
    while iter < 64
        invariant
            iter <= 64,
            blocks@.len() == 7,
            target == pack_run(s0, bs0, token_budget, 0),
            bs0 == initial_blocks(s_in, mode),
            s_in == old(summary)@,
            t_in == decisions_view(old(trace).decisions@),
            s0 == apply_all(bs0, s_in, 7),
            estimate_spec(s0) > token_budget,
            pack_run(summary@, blocks_view(blocks@), token_budget, iter as nat).summary == target.summary,
            pack_run(summary@, blocks_view(blocks@), token_budget, iter as nat).blocks == target.blocks,
            pack_run(summary@, blocks_view(blocks@), token_budget, iter as nat).reason == target.reason,
            t_in + target.decisions == decisions_view(trace.decisions@) + pack_run(
                summary@,
                blocks_view(blocks@),
                token_budget,
                iter as nat,
            ).decisions,
        decreases 64 - iter,
    {
        let ghost cur = pack_run(summary@, blocks_view(blocks@), token_budget, iter as nat);
        let ghost tr = decisions_view(trace.decisions@);
        if estimate_tokens_json(summary) <= token_budget {
            assert(cur.decisions =~= Seq::<DecisionView>::empty());
            assert(tr + cur.decisions =~= tr);
            let diagnostics = pack_diagnostics_from_blocks(&blocks, trace);
            return PackBlocksResult { overflow_reason: None, diagnostics };
        }
        match next_action(&blocks) {
            Some((k, a, l)) => {
                let ghost bv = blocks_view(blocks@);
                let ghost d = step_decision(bv[k as int], a, l);
                take_step(&mut blocks, k, a, l, summary, trace);
                proof {
                    let rest = pack_run(summary@, blocks_view(blocks@), token_budget, (iter + 1) as nat);
                    assert(cur.decisions == seq![d] + rest.decisions);
                    assert(tr + (seq![d] + rest.decisions) =~= tr.push(d) + rest.decisions);
                }
            },
            None => {
                let only = must_keep_only(&blocks, summary);
                let reason = if only {
                    "must_keep_only_exceeds_budget"
                } else {
                    "budget_exceeded_no_further_actions"
                };
                trace.push(keep(reason));
                assert(decisions_view(trace.decisions@) =~= tr + cur.decisions);
                let diagnostics = pack_diagnostics_from_blocks(&blocks, trace);
                return PackBlocksResult { overflow_reason: Some(reason), diagnostics };
            },
        }
        iter = iter + 1;
    }
    let ghost tr = decisions_view(trace.decisions@);
    trace.push(keep("budget_exceeded_pack_loop_limit"));
    assert(decisions_view(trace.decisions@) =~= tr + seq![keep_decision("budget_exceeded_pack_loop_limit"@)]);
    let diagnostics = pack_diagnostics_from_blocks(&blocks, trace);
    PackBlocksResult { overflow_reason: Some("budget_exceeded_pack_loop_limit"), diagnostics }
}

// ---------------------------------------------------------------------------
// The context budget record
// ---------------------------------------------------------------------------

pub open spec fn num_view(x: u64) -> JsonView {
    JsonView::Number(NumberView::PosInt(x))
}

/// What a map from reason to count holds for a reason counted `n` times:
/// the count, or nothing when it is zero.
pub open spec fn count_entry(n: nat) -> Option<JsonView> {
    if n > 0 {
        Some(num_view(n as u64))
    } else {
        None
    }
}

/// `c` is the object of the reasons of `action` in the trace `ds`: keys
/// increase, and each reason maps to the number of its entries.
pub open spec fn reason_object(c: Seq<(Seq<char>, JsonView)>, ds: Seq<DecisionView>, action: PackAction) -> bool {
    obj_sorted(c) && forall|k: Seq<char>| #[trigger] obj_get(c, k) == count_entry(reason_count(ds, action, k))
}

fn num_value(x: u64) -> (r: JsonValue)
    ensures
        r@ == num_view(x),
{
    JsonValue::Number(JsonNumber::PosInt(x))
}

/// A list of reason counts as a JSON object.
fn counts_json(m: &Vec<(String, u64)>) -> (r: JsonValue)
    requires
        counts_wf(m@),
    ensures
        r@ is Object,
        obj_sorted(r@->Object_0),
        forall|k: Seq<char>| #[trigger] obj_get(r@->Object_0, k) == count_entry(count_of(m@, k)),
{
    let mut out = JsonValue::empty_object();
    let mut i: usize = 0;
    while i < m.len()
        invariant
            i <= m@.len(),
            counts_wf(m@),
            out@ is Object,
            obj_sorted(out@->Object_0),
            forall|k: Seq<char>|
                #[trigger] obj_get(out@->Object_0, k) == count_entry(count_of(m@.subrange(0, i as int), k)),
        decreases m.len() - i,
    {
        let ghost c = out@->Object_0;
        let ghost sub = m@.subrange(0, i as int);
        let ghost e = m@[i as int];
        let key = to_owned_string(m[i].0.as_str());
        let n = m[i].1;
        out.insert(key, num_value(n));
        proof {
            assert(m@.subrange(0, i + 1) =~= sub.push(e));
            assert forall|j: int| 0 <= j < sub.len() implies #[trigger] sub[j].0@ != e.0@ by {
                assert(sub[j] == m@[j]);
            }
            lemma_count_push(sub, e);
            lemma_obj_insert_sorted(c, e.0@, num_view(n));
            assert forall|k: Seq<char>|
                #[trigger] obj_get(out@->Object_0, k) == count_entry(count_of(m@.subrange(0, i + 1), k)) by {
                lemma_obj_get_insert(c, e.0@, num_view(n), k);
            }
        }
        i = i + 1;
    }
    assert(m@.subrange(0, m@.len() as int) =~= m@);
    out
}

pub open spec fn level_json(l: Option<ContextCompressLevel>) -> JsonView {
    match l {
        Some(x) => JsonView::Str(x.name_spec()),
        None => JsonView::Null,
    }
}

/// A trace entry as a JSON object.
pub open spec fn decision_json_spec(d: DecisionView) -> JsonView {
    let e0 = obj_insert(Seq::empty(), "block_id"@, JsonView::Str(d.block_id));
    let e1 = obj_insert(e0, "action"@, JsonView::Str(d.action.name_spec()));
    let e2 = obj_insert(e1, "reason"@, JsonView::Str(d.reason));
    let e3 = obj_insert(e2, "before_level"@, level_json(d.before));
    JsonView::Object(obj_insert(e3, "after_level"@, level_json(d.after)))
}

fn level_value(l: Option<ContextCompressLevel>) -> (r: JsonValue)
    ensures
        r@ == level_json(l),
{
    match l {
        Some(x) => JsonValue::String(to_owned_string(x.as_str())),
        None => JsonValue::Null,
    }
}

fn decision_json(d: &PackDecision) -> (r: JsonValue)
    ensures
        r@ == decision_json_spec(decision_view(*d)),
{
    let mut o = JsonValue::empty_object();
    o.insert(to_owned_string("block_id"), JsonValue::String(to_owned_string(d.block_id.as_str())));
    o.insert(to_owned_string("action"), JsonValue::String(to_owned_string(d.action.as_str())));
    o.insert(to_owned_string("reason"), JsonValue::String(to_owned_string(d.reason)));
    o.insert(to_owned_string("before_level"), level_value(d.before_level));
    o.insert(to_owned_string("after_level"), level_value(d.after_level));
    o
}

/// The trace as a JSON array.
pub open spec fn trace_json(ds: Seq<DecisionView>) -> JsonView {
    JsonView::Array(ds.map_values(|d: DecisionView| decision_json_spec(d)))
}

fn trace_value(trace: &PackTrace) -> (r: JsonValue)
    ensures
        r@ == trace_json(decisions_view(trace.decisions@)),
{
    let mut items: Vec<JsonValue> = Vec::new();
    let mut k: usize = 0;
    while k < trace.decisions.len()
        invariant
            k <= trace.decisions@.len(),
            items@.len() == k,
            forall|j: int|
                0 <= j < k ==> #[trigger] items@[j]@ == decision_json_spec(decision_view(trace.decisions@[j])),
        decreases trace.decisions.len() - k,
    {
        items.push(decision_json(&trace.decisions[k]));
        k = k + 1;
    }
    proof {
        crate::json::lemma_array_view(items);
        assert(crate::json::items_view(items@) =~= decisions_view(trace.decisions@).map_values(
            |d: DecisionView| decision_json_spec(d),
        ));
    }
    JsonValue::Array(items)
}

/// The packing counters as a JSON object, with the objects `c` and `e` of
/// compression and eviction reasons.
pub open spec fn diagnostics_json_spec(
    total: u64,
    included: u64,
    evicted: u64,
    compressed: u64,
    c: Seq<(Seq<char>, JsonView)>,
    e: Seq<(Seq<char>, JsonView)>,
) -> JsonView {
    let e0 = obj_insert(Seq::empty(), "packed_blocks_total"@, num_view(total));
    let e1 = obj_insert(e0, "packed_blocks_included"@, num_view(included));
    let e2 = obj_insert(e1, "packed_blocks_evicted"@, num_view(evicted));
    let e3 = obj_insert(e2, "compressed_blocks_total"@, num_view(compressed));
    let e4 = obj_insert(e3, "compressed_by_reason"@, JsonView::Object(c));
    JsonView::Object(obj_insert(e4, "evicted_by_reason"@, JsonView::Object(e)))
}

/// The record that packing leaves under `context_budget`.
pub open spec fn budget_record(
    p: PackOutcome,
    mode: ContextPressureMode,
    c: Seq<(Seq<char>, JsonView)>,
    e: Seq<(Seq<char>, JsonView)>,
) -> JsonView {
    let diag = diagnostics_json_spec(
        7,
        dropped_count(p.blocks, false) as u64,
        dropped_count(p.blocks, true) as u64,
        action_count(p.decisions, PackAction::Compress) as u64,
        c,
        e,
    );
    let e0 = obj_insert(Seq::empty(), "pressure_mode"@, JsonView::Str(mode.name_spec()));
    let e1 = obj_insert(
        e0,
        "pack_overflow_reason"@,
        match p.reason {
            Some(x) => JsonView::Str(x),
            None => JsonView::Null,
        },
    );
    let e2 = obj_insert(e1, "pack_diagnostics"@, diag);
    JsonView::Object(obj_insert(e2, "pack_trace"@, trace_json(p.decisions)))
}

/// `c` and `e` are the objects of compression and eviction reasons of `p`.
pub open spec fn reasons_of(p: PackOutcome, c: Seq<(Seq<char>, JsonView)>, e: Seq<(Seq<char>, JsonView)>) -> bool {
    reason_object(c, p.decisions, PackAction::Compress) && reason_object(e, p.decisions, PackAction::Drop)
}

/// The budget that an adaptive planner budget lets packing use.
pub open spec fn pack_limit(b: AdaptivePlannerBudget) -> u64 {
    if b.effective_token_limit < 1 {
        1
    } else {
        b.effective_token_limit as u64
    }
}

/// The summary packed into the budget, with the packing record under
/// `context_budget` when it is an object.
pub open spec fn budgeted_spec(
    base: JsonView,
    b: AdaptivePlannerBudget,
    mode: ContextPressureMode,
    c: Seq<(Seq<char>, JsonView)>,
    e: Seq<(Seq<char>, JsonView)>,
) -> JsonView {
    let p = pack_spec(base, pack_limit(b), mode);
    match p.summary {
        JsonView::Object(es) => JsonView::Object(obj_insert(es, "context_budget"@, budget_record(p, mode, c, e))),
        other => other,
    }
}

/// The token budget of the planner context and what it was derived from.
#[derive(Clone, Copy)]
pub struct AdaptivePlannerBudget {
    pub effective_token_limit: usize,
    pub remaining_tokens: Option<u64>,
    pub usage_ratio_bps: Option<u64>,
}

/// The pressure mode and the compaction that goes with it.
#[derive(Clone, Copy)]
pub struct ContextCompactionStrategy {
    pub mode: ContextPressureMode,
    pub policy: ContextCompactionPolicy,
}

/// Packs `base` and records the packing in it; says as well whether the
/// record reports an overflow.
fn budget_context(mut base: JsonValue, budget: AdaptivePlannerBudget, strategy: ContextCompactionStrategy) -> (r: (
    JsonValue,
    bool,
))
    ensures
        exists|c: Seq<(Seq<char>, JsonView)>, e: Seq<(Seq<char>, JsonView)>|
            #[trigger] reasons_of(pack_spec(base@, pack_limit(budget), strategy.mode), c, e) && r.0@
                == budgeted_spec(base@, budget, strategy.mode, c, e),
        r.1 == (pack_spec(base@, pack_limit(budget), strategy.mode).summary is Object && pack_spec(
            base@,
            pack_limit(budget),
            strategy.mode,
        ).reason is Some),
{
    let ghost b0 = base@;
    let limit: u64 = if budget.effective_token_limit < 1 {
        1
    } else {
        budget.effective_token_limit as u64
    };
    let mut trace = PackTrace::new();
    let pack = pack_blocks(&mut base, limit, strategy.mode, &mut trace);
    let ghost p = pack_spec(b0, limit, strategy.mode);
    assert(decisions_view(trace.decisions@) =~= p.decisions);
    let compressed = counts_json(&pack.diagnostics.compressed_by_reason);
    let evicted = counts_json(&pack.diagnostics.evicted_by_reason);
    let ghost c = compressed@->Object_0;
    let ghost e = evicted@->Object_0;
    let mut diag = JsonValue::empty_object();
    diag.insert(to_owned_string("packed_blocks_total"), num_value(pack.diagnostics.packed_blocks_total));
    diag.insert(to_owned_string("packed_blocks_included"), num_value(pack.diagnostics.packed_blocks_included));
    diag.insert(to_owned_string("packed_blocks_evicted"), num_value(pack.diagnostics.packed_blocks_evicted));
    diag.insert(to_owned_string("compressed_blocks_total"), num_value(pack.diagnostics.compressed_blocks_total));
    diag.insert(to_owned_string("compressed_by_reason"), compressed);
    diag.insert(to_owned_string("evicted_by_reason"), evicted);
    let mut record = JsonValue::empty_object();
    record.insert(to_owned_string("pressure_mode"), JsonValue::String(to_owned_string(strategy.mode.as_str())));
    let reason = match pack.overflow_reason {
        Some(x) => JsonValue::String(to_owned_string(x)),
        None => JsonValue::Null,
    };
    record.insert(to_owned_string("pack_overflow_reason"), reason);
    record.insert(to_owned_string("pack_diagnostics"), diag);
    record.insert(to_owned_string("pack_trace"), trace_value(&trace));
    proof {
        assert(reasons_of(p, c, e));
        assert(record@ == budget_record(p, strategy.mode, c, e));
    }
    let inserted = base.insert(to_owned_string("context_budget"), record);
    (base, inserted && pack.overflow_reason.is_some())
}

/// Packs `base` into the adapted budget and records the packing under
/// `context_budget`.
pub fn apply_planner_context_budget(
    base: JsonValue,
    budget: AdaptivePlannerBudget,
    strategy: ContextCompactionStrategy,
) -> (r: JsonValue)
    ensures
        exists|c: Seq<(Seq<char>, JsonView)>, e: Seq<(Seq<char>, JsonView)>|
            #[trigger] reasons_of(pack_spec(base@, pack_limit(budget), strategy.mode), c, e) && r@
                == budgeted_spec(base@, budget, strategy.mode, c, e),
{
    let (r, _) = budget_context(base, budget, strategy);
    r
}

/// The share of the soft limit in use, in basis points, from the window's
/// input tokens.
pub open spec fn window_ratio_spec(window: Option<u64>, soft_limit: Option<u64>) -> Option<u64> {
    match (window, soft_limit) {
        (Some(w), Some(s)) => if s > 0 {
            Some((sat_mul(w as int, 10000, u64::MAX as int) / s as int) as u64)
        } else {
            None
        },
        _ => None,
    }
}

/// The share of the soft limit in use, in basis points, from the remaining
/// tokens (those beyond the soft limit count as none used).
pub open spec fn remaining_ratio_spec(remaining: Option<u64>, soft_limit: Option<u64>) -> Option<u64> {
    match (remaining, soft_limit) {
        (Some(r), Some(s)) => if s > 0 {
            Some((sat_mul(s - min_int(r as int, s as int), 10000, u64::MAX as int) / s as int) as u64)
        } else {
            None
        },
        _ => None,
    }
}

/// The larger of two optional ratios, or the one there is.
pub open spec fn max_ratio_spec(a: Option<u64>, b: Option<u64>) -> Option<u64> {
    match (a, b) {
        (Some(x), Some(y)) => Some(if x < y {
            y
        } else {
            x
        }),
        (Some(x), None) => Some(x),
        (None, y) => y,
    }
}

pub fn usage_ratio_bps_from_remaining_tokens(remaining_tokens: Option<u64>, soft_limit_tokens: Option<u64>) -> (r:
    Option<u64>)
    ensures
        r == remaining_ratio_spec(remaining_tokens, soft_limit_tokens),
{
    match (remaining_tokens, soft_limit_tokens) {
        (Some(remaining), Some(soft_limit)) => {
            if soft_limit > 0 {
                let used = soft_limit - if remaining < soft_limit {
                    remaining
                } else {
                    soft_limit
                };
                Some(sat_mul_u64(used, 10000) / soft_limit)
            } else {
                None
            }
        },
        _ => None,
    }
}

/// The usage record the runtime keeps under `/agent/llm_usage`.
pub open spec fn runtime_usage(runtime: JsonView) -> Option<JsonView> {
    pointer_spec(runtime, "/agent/llm_usage"@)
}

/// The planner budget adapted to the runtime's usage record: the usage
/// ratio is the larger of those from the window and from the remaining
/// tokens, and the token limit is adapted to it.
pub open spec fn adaptive_budget_spec(runtime: JsonView, base_token_limit: usize) -> AdaptivePlannerBudget {
    let usage = runtime_usage(runtime);
    let window = usage_field_spec(usage, "context_window_input_tokens"@);
    let remaining = usage_field_spec(usage, remaining_key());
    let soft = usage_field_spec(usage, soft_limit_key());
    let ratio = max_ratio_spec(window_ratio_spec(window, soft), remaining_ratio_spec(remaining, soft));
    AdaptivePlannerBudget {
        effective_token_limit: adaptive_limit_spec(base_token_limit as int, ratio) as usize,
        remaining_tokens: remaining,
        usage_ratio_bps: ratio,
    }
}

pub fn derive_adaptive_planner_budget(runtime: &JsonValue, base_token_limit: usize) -> (r: AdaptivePlannerBudget)
    ensures
        r == adaptive_budget_spec(runtime@, base_token_limit),
        ({
            let usage = runtime_usage(runtime@);
            let soft = usage_field_spec(usage, soft_limit_key());
            let w = window_ratio_spec(usage_field_spec(usage, "context_window_input_tokens"@), soft);
            let rr = remaining_ratio_spec(usage_field_spec(usage, remaining_key()), soft);
            &&& w matches Some(x) ==> r.usage_ratio_bps matches Some(z) && x <= z
            &&& rr matches Some(y) ==> r.usage_ratio_bps matches Some(z) && y <= z
        }),
{
    let usage = runtime.pointer("/agent/llm_usage");
    let window = usage_field_u64(usage, "context_window_input_tokens");
    let remaining = usage_field_u64(usage, "context_remaining_tokens");
    let soft_limit = usage_field_u64(usage, "context_soft_limit_tokens");
    let from_window = match (window, soft_limit) {
        (Some(w), Some(s)) => {
            if s > 0 {
                Some(sat_mul_u64(w, 10000) / s)
            } else {
                None
            }
        },
        _ => None,
    };
    let from_remaining = usage_ratio_bps_from_remaining_tokens(remaining, soft_limit);
    let ratio = match (from_window, from_remaining) {
        (Some(x), Some(y)) => Some(if x < y {
            y
        } else {
            x
        }),
        (Some(x), None) => Some(x),
        (None, y) => y,
    };
    let (effective, _) = ToolMemoryBudgetPolicy::derive_adaptive_effective_token_limit(base_token_limit, ratio);
    AdaptivePlannerBudget { effective_token_limit: effective, remaining_tokens: remaining, usage_ratio_bps: ratio }
}

/// The usage ratio of the adapted budget is the larger of the two ratios
/// that the usage record gives: the window's input tokens over the soft
/// limit, and the tokens used up to the soft limit (the soft limit less the
/// remaining tokens) over it.  It is known exactly when one of them is, is
/// never below either, and is one of them.
pub proof fn lemma_adaptive_ratio_is_larger(runtime: JsonView, base_token_limit: usize)
    ensures
        ({
            let usage = runtime_usage(runtime);
            let soft = usage_field_spec(usage, soft_limit_key());
            let window = usage_field_spec(usage, "context_window_input_tokens"@);
            let remaining = usage_field_spec(usage, remaining_key());
            let from_window: Option<int> = match (window, soft) {
                (Some(w), Some(s)) => if s > 0 {
                    Some(min_int(w * 10000, u64::MAX as int) / (s as int))
                } else {
                    None
                },
                _ => None,
            };
            let from_remaining: Option<int> = match (remaining, soft) {
                (Some(r), Some(s)) => if s > 0 {
                    Some(min_int((s - min_int(r as int, s as int)) * 10000, u64::MAX as int) / (s as int))
                } else {
                    None
                },
                _ => None,
            };
            let ratio = adaptive_budget_spec(runtime, base_token_limit).usage_ratio_bps;
            &&& ratio is Some <==> (from_window is Some || from_remaining is Some)
            &&& from_window matches Some(x) ==> ratio matches Some(z) && x <= z
            &&& from_remaining matches Some(y) ==> ratio matches Some(z) && y <= z
            &&& ratio matches Some(z) ==> (from_window == Some(z as int) || from_remaining == Some(z as int))
        }),
{
}

pub fn resolve_context_compaction_strategy(budget: AdaptivePlannerBudget) -> (r: ContextCompactionStrategy)
    ensures
        r.mode == pressure_mode_spec(budget.usage_ratio_bps, budget.remaining_tokens),
        r.policy.final_compact_options == compaction_options_spec(r.mode),
{
    let mode = ToolMemoryBudgetPolicy::derive_context_pressure_mode(budget.usage_ratio_bps, budget.remaining_tokens);
    ContextCompactionStrategy { mode, policy: ToolMemoryBudgetPolicy::context_compaction_policy(mode) }
}

/// The budgeted summary after the final step: compacted with `opts` when
/// packing overflowed, and with `final_compact_applied` in its record.
pub open spec fn finish_spec(v: JsonView, overflow: bool, opts: JsonBudgetOptions) -> JsonView {
    let w = if overflow {
        compact_view(v, opts, 0)
    } else {
        v
    };
    match w {
        JsonView::Object(es) => match obj_get(es, "context_budget"@) {
            Some(JsonView::Object(cb)) => JsonView::Object(
                obj_insert(
                    es,
                    "context_budget"@,
                    JsonView::Object(obj_insert(cb, "final_compact_applied"@, JsonView::Bool(overflow))),
                ),
            ),
            _ => w,
        },
        _ => w,
    }
}

/// The planner context summary fitted to the budget: packed under the
/// budget adapted to the runtime's usage, compacted once more when packing
/// overflowed, with the packing recorded under `context_budget`.
pub fn budget_and_compact_summary(base: JsonValue, runtime: &JsonValue, token_budget: usize) -> (r: JsonValue)
    ensures
        ({
            let ab = adaptive_budget_spec(runtime@, token_budget);
            let mode = pressure_mode_spec(ab.usage_ratio_bps, ab.remaining_tokens);
            let p = pack_spec(base@, pack_limit(ab), mode);
            exists|c: Seq<(Seq<char>, JsonView)>, e: Seq<(Seq<char>, JsonView)>|
                #[trigger] reasons_of(p, c, e) && r@ == finish_spec(
                    budgeted_spec(base@, ab, mode, c, e),
                    p.summary is Object && p.reason is Some,
                    compaction_options_spec(mode),
                )
        }),
{
    let adaptive = derive_adaptive_planner_budget(runtime, token_budget);
    let strategy = resolve_context_compaction_strategy(adaptive);
    let (mut budgeted, overflow) = budget_context(base, adaptive, strategy);
    if overflow {
        budgeted = compact_json_with_options(&budgeted, &strategy.policy.final_compact_options);
    }
    let record = match budgeted.get("context_budget") {
        Some(x) => Some(x.clone_value()),
        None => None,
    };
    match record {
        Some(mut cb) => {
            if cb.insert(to_owned_string("final_compact_applied"), JsonValue::Bool(overflow)) {
                budgeted.insert(to_owned_string("context_budget"), cb);
            }
        },
        None => {},
    }
    budgeted
}

/// Packing leaves the summary within the budget unless it reports why it
/// could not.
pub proof fn lemma_pack_within_budget_unless_overflow(s: JsonView, budget: u64, mode: ContextPressureMode)
    ensures
        pack_spec(s, budget, mode).reason is None ==> estimate_spec(pack_spec(s, budget, mode).summary)
            <= budget,
{
    let bs0 = initial_blocks(s, mode);
    let s0 = apply_all(bs0, s, 7);
    if estimate_spec(s0) > budget {
        lemma_pack_run_within_budget(s0, bs0, budget, 0);
    }
}

proof fn lemma_pack_run_within_budget(s: JsonView, bs: Seq<BlockView>, budget: u64, iter: nat)
    ensures
        pack_run(s, bs, budget, iter).reason is None ==> estimate_spec(pack_run(s, bs, budget, iter).summary)
            <= budget,
    decreases 64 - iter,
{
    if iter < 64 && estimate_spec(s) > budget {
        match policy_spec(bs) {
            Some((i, a, l)) => {
                let b2 = bs.update(i, stepped(bs[i], a, l));
                lemma_pack_run_within_budget(apply_spec(b2[i], s), b2, budget, iter + 1);
            },
            None => {},
        }
    }
}

/// How far a block can still be packed: its level above skeleton, and one
/// more while it is included.
spec fn block_potential(b: BlockView) -> nat {
    (match b.selected {
        ContextCompressLevel::Full => 2nat,
        ContextCompressLevel::Summary => 1nat,
        ContextCompressLevel::Skeleton => 0nat,
    }) + if b.dropped {
        0nat
    } else {
        1nat
    }
}

spec fn blocks_potential(bs: Seq<BlockView>) -> nat
    decreases bs.len(),
{
    if bs.len() == 0 {
        0
    } else {
        blocks_potential(bs.drop_last()) + block_potential(bs.last())
    }
}

proof fn lemma_blocks_potential_bound(bs: Seq<BlockView>)
    ensures
        blocks_potential(bs) <= 3 * bs.len(),
    decreases bs.len(),
{
    if bs.len() > 0 {
        lemma_blocks_potential_bound(bs.drop_last());
    }
}

proof fn lemma_blocks_potential_update(bs: Seq<BlockView>, i: int, b: BlockView)
    requires
        0 <= i < bs.len(),
    ensures
        blocks_potential(bs.update(i, b)) + block_potential(bs[i]) == blocks_potential(bs) + block_potential(b),
    decreases bs.len(),
{
    let u = bs.update(i, b);
    if i == bs.len() - 1 {
        assert(u.drop_last() =~= bs.drop_last());
    } else {
        assert(u.drop_last() =~= bs.drop_last().update(i, b));
        lemma_blocks_potential_update(bs.drop_last(), i, b);
    }
}

proof fn lemma_select_bounds(bs: Seq<BlockView>, ps: Seq<ContextBlockPriority>, drop: bool)
    ensures
        select_spec(bs, ps, drop) matches Some(j) ==> 0 <= j < bs.len() && (if drop {
            can_drop(bs[j])
        } else {
            can_compress(bs[j])
        }),
    decreases ps.len(),
{
    if ps.len() > 0 {
        lemma_first_from_bounds(bs, ps[0], drop, 0);
        lemma_select_bounds(bs, ps.drop_first(), drop);
    }
}

/// Each step of the packing policy lowers the potential of the block it
/// touches.
proof fn lemma_policy_step_lowers(bs: Seq<BlockView>)
    ensures
        policy_spec(bs) matches Some((i, a, l)) ==> 0 <= i < bs.len() && block_potential(stepped(bs[i], a, l))
            < block_potential(bs[i]),
{
    lemma_select_bounds(bs, seq![ContextBlockPriority::Low, ContextBlockPriority::Stale], false);
    lemma_select_bounds(bs, seq![ContextBlockPriority::Stale, ContextBlockPriority::Low], true);
    lemma_select_bounds(bs, seq![ContextBlockPriority::Medium], false);
    lemma_select_bounds(bs, seq![ContextBlockPriority::Medium], true);
}

proof fn lemma_pack_run_overflow_over_budget(s: JsonView, bs: Seq<BlockView>, budget: u64, iter: nat)
    requires
        iter + blocks_potential(bs) < 64,
    ensures
        pack_run(s, bs, budget, iter).reason is Some ==> estimate_spec(pack_run(s, bs, budget, iter).summary)
            > budget,
    decreases 64 - iter,
{
    if estimate_spec(s) > budget {
        match policy_spec(bs) {
            Some((i, a, l)) => {
                lemma_policy_step_lowers(bs);
                let b2 = bs.update(i, stepped(bs[i], a, l));
                lemma_blocks_potential_update(bs, i, stepped(bs[i], a, l));
                lemma_pack_run_overflow_over_budget(apply_spec(b2[i], s), b2, budget, iter + 1);
            },
            None => {},
        }
    }
}

/// Packing reports an overflow exactly when the packed summary is still
/// over the budget: the packing loop always ends by running out of steps,
/// never by its iteration limit.
pub proof fn lemma_pack_overflow_iff_over_budget(s: JsonView, budget: u64, mode: ContextPressureMode)
    ensures
        pack_spec(s, budget, mode).reason is Some <==> estimate_spec(pack_spec(s, budget, mode).summary) > budget,
{
    lemma_pack_within_budget_unless_overflow(s, budget, mode);
    let bs0 = initial_blocks(s, mode);
    let s0 = apply_all(bs0, s, 7);
    if estimate_spec(s0) > budget {
        lemma_blocks_potential_bound(bs0);
        lemma_pack_run_overflow_over_budget(s0, bs0, budget, 0);
    }
}

/// An empty object has nothing at a non-empty pointer, and nothing there to
/// replace.
proof fn lemma_empty_object_pointer(p: Seq<char>, new: JsonView)
    requires
        p.len() > 0,
    ensures
        pointer_set_spec(JsonView::Object(Seq::empty()), p, new) is None,
        pointer_spec(JsonView::Object(Seq::empty()), p) is None,
{
    if p[0] == '/' {
        let t = crate::text::split_by(p.drop_first(), crate::text::CharClass::One('/'));
        assert(t.len() >= 1);
    }
}

proof fn lemma_apply_keeps_empty(b: BlockView)
    ensures
        apply_spec(b, JsonView::Object(Seq::empty())) == JsonView::Object(Seq::empty()),
{
    reveal_strlit("/previous_error");
    reveal_strlit("/previous_error/autofill_history");
    reveal_strlit("/recovery_diagnostics");
    reveal_strlit("/tool_memory_projection");
    reveal_strlit("/input_store/facts");
    reveal_strlit("/capability_view/protocols");
    reveal_strlit("/previous_error/last_failed_finalize");
    reveal_strlit("/capability_view/counts");
    reveal_strlit("/capability_view/topics");
    let e = JsonView::Object(Seq::empty());
    lemma_empty_object_pointer(b.id.path_spec(), selected_view(b));
    lemma_empty_object_pointer("/input_store/facts"@, e);
    lemma_empty_object_pointer("/capability_view/counts"@, counts_object(0));
    lemma_empty_object_pointer("/capability_view/topics"@, e);
}

proof fn lemma_apply_all_keeps_empty(bs: Seq<BlockView>, n: nat)
    ensures
        apply_all(bs, JsonView::Object(Seq::empty()), n) == JsonView::Object(Seq::empty()),
    decreases n,
{
    if n > 0 {
        lemma_apply_all_keeps_empty(bs, (n - 1) as nat);
        lemma_apply_keeps_empty(bs[n - 1]);
    }
}

proof fn lemma_pack_run_empty(bs: Seq<BlockView>, iter: nat)
    requires
        iter + blocks_potential(bs) < 64,
    ensures
        pack_run(JsonView::Object(Seq::empty()), bs, 0, iter).summary == JsonView::Object(Seq::empty()),
        pack_run(JsonView::Object(Seq::empty()), bs, 0, iter).reason == Some(
            "budget_exceeded_no_further_actions"@,
        ),
    decreases 64 - iter,
{
    let e = JsonView::Object(Seq::empty());
    assert(text_len(e) == 2);
    assert(estimate_spec(e) == 1);
    match policy_spec(bs) {
        Some((i, a, l)) => {
            lemma_policy_step_lowers(bs);
            let b2 = bs.update(i, stepped(bs[i], a, l));
            lemma_blocks_potential_update(bs, i, stepped(bs[i], a, l));
            lemma_apply_keeps_empty(b2[i]);
            lemma_pack_run_empty(b2, iter + 1);
        },
        None => {
            reveal_strlit("/todo_state");
            reveal_strlit("/input_registry/known_refs");
            reveal_strlit("/previous_error");
            lemma_empty_object_pointer("/todo_state"@, e);
            lemma_empty_object_pointer("/input_registry/known_refs"@, e);
            lemma_empty_object_pointer("/previous_error"@, e);
            assert(!must_keep_only_spec(bs, e));
        },
    }
}

/// Packing an empty summary leaves it empty: within any budget of at least
/// one token it is kept whole, and with no budget it overflows for want of
/// further actions.
pub proof fn lemma_pack_empty_summary(budget: u64, mode: ContextPressureMode)
    ensures
        pack_spec(JsonView::Object(Seq::empty()), budget, mode).summary == JsonView::Object(Seq::empty()),
        budget >= 1 ==> pack_spec(JsonView::Object(Seq::empty()), budget, mode).reason is None
            && pack_spec(JsonView::Object(Seq::empty()), budget, mode).decisions == seq![
            keep_decision("within_budget_full"@),
        ],
        budget == 0 ==> pack_spec(JsonView::Object(Seq::empty()), budget, mode).reason == Some(
            "budget_exceeded_no_further_actions"@,
        ),
{
    let e = JsonView::Object(Seq::empty());
    let bs0 = initial_blocks(e, mode);
    lemma_apply_all_keeps_empty(bs0, 7);
    assert(text_len(e) == 2);
    assert(estimate_spec(e) == 1);
    if budget == 0 {
        lemma_blocks_potential_bound(bs0);
        lemma_pack_run_empty(bs0, 0);
    }
}

proof fn lemma_first_from_bounds(bs: Seq<BlockView>, p: ContextBlockPriority, drop: bool, i: int)
    ensures
        first_from(bs, p, drop, i) matches Some(j) ==> 0 <= j < bs.len() && (if drop {
            can_drop(bs[j])
        } else {
            can_compress(bs[j])
        }),
    decreases bs.len() - i,
{
    if 0 <= i < bs.len() {
        lemma_first_from_bounds(bs, p, drop, i + 1);
    }
}

} // verus!
