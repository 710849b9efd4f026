//! Vocabulary of the input store: how a stored input value was obtained, how
//! stable it is, and the slot-name tests the store applies.
use vstd::prelude::*;
use crate::agent::candidates::opt_view;
use crate::agent::input_normalize::{dotted_segments, input_key_spec, normalize_input_key, segments_of, slot_key_spec, texts, InputRef, runtime_input_spec, set_runtime_input_value};
use crate::keyed::{find_key, key_seq, keys_sorted, lookup, put};
use crate::json::{JsonNumber, JsonValue, JsonView, NumberView, entries_view, entry_get, find_entry, insert_entry,
    lemma_object_view, obj_get, obj_index, obj_insert, obj_sorted};
use crate::text::{concat, parse_u64, seq_lt, str_strip_prefix, parse_unsigned, CharClass, chars_of, contains, lower, split_by, split_chars, starts_with, ends_with,
    str_contains, str_eq, str_starts_with, str_ends_with, string_from_chars, to_ascii_lowercase,
    to_owned_string, trim, trim_str};

verus! {

#[derive(Clone, Copy, PartialEq, Eq, Structural)]
pub enum InputValueLayer {
    Seed,
    Observed,
    Derived,
    Unknown,
}

impl Default for InputValueLayer {
    fn default() -> (r: Self)
        ensures
            r == InputValueLayer::Unknown,
    {
        InputValueLayer::Unknown
    }
}

#[derive(Clone, Copy, PartialEq, Eq, Structural)]
pub enum InputValueStability {
    Stable,
    Volatile,
    Unknown,
}

impl Default for InputValueStability {
    fn default() -> (r: Self)
        ensures
            r == InputValueStability::Unknown,
    {
        InputValueStability::Unknown
    }
}

#[derive(Clone, Copy, PartialEq, Eq, Structural)]
pub enum InputStoreUpsertResult {
    Inserted,
    Replaced,
    Ignored,
    Rejected,
}

#[derive(Clone, Copy, PartialEq, Eq, Structural)]
pub enum VolatileInputSignal {
    Balance,
    Allowance,
}

#[derive(Clone, Copy, PartialEq, Eq, Structural)]
pub struct VolatileSignalObservation {
    pub observed_at_ms: u64,
}

/// How a leaf value of a slot is normalised.
#[derive(Clone, Copy, PartialEq, Eq, Structural)]
pub enum LeafValueContract {
    IntegerLike,
    Passthrough,
}

/// An incoming observation replaces a stored one when it is later, or when
/// only the incoming one has a time.
pub fn is_newer_observation(incoming: Option<u64>, existing: Option<u64>) -> (r: bool)
    ensures
        r == match (incoming, existing) {
            (Some(a), Some(b)) => a > b,
            (Some(_), None) => true,
            _ => false,
        },
{
    match (incoming, existing) {
        (Some(a), Some(b)) => a > b,
        (Some(_), None) => true,
        _ => false,
    }
}

pub open spec fn input_signal_matches(signal: VolatileInputSignal, key: Seq<char>) -> bool {
    match signal {
        VolatileInputSignal::Balance => contains(lower(key), "balance"@),
        VolatileInputSignal::Allowance => contains(lower(key), "allowance"@),
    }
}

/// The key names the signal's quantity, ignoring ASCII case.
pub fn volatile_signal_matches_key(signal: VolatileInputSignal, key: &str) -> (r: bool)
    ensures
        r == input_signal_matches(signal, key@),
{
    let lowered = to_ascii_lowercase(key);
    match signal {
        VolatileInputSignal::Balance => str_contains(lowered.as_str(), "balance"),
        VolatileInputSignal::Allowance => str_contains(lowered.as_str(), "allowance"),
    }
}

pub fn volatile_signal_matches_any_key(key: &str) -> (r: bool)
    ensures
        r == (input_signal_matches(VolatileInputSignal::Balance, key@) || input_signal_matches(
            VolatileInputSignal::Allowance,
            key@,
        )),
{
    volatile_signal_matches_key(VolatileInputSignal::Balance, key)
        || volatile_signal_matches_key(VolatileInputSignal::Allowance, key)
}

/// The text after the last `.` (the whole text when there is none).
pub open spec fn last_segment(s: Seq<char>) -> Seq<char> {
    split_by(s, CharClass::One('.')).last()
}

proof fn lemma_split_nonempty(s: Seq<char>, sep: CharClass)
    ensures
        split_by(s, sep).len() > 0,
{
}

pub fn last_segment_of(s: &str) -> (r: String)
    ensures
        r@ == last_segment(s@),
{
    let cs = chars_of(s);
    let parts = split_chars(&cs, CharClass::One('.'));
    proof {
        lemma_split_nonempty(s@, CharClass::One('.'));
    }
    string_from_chars(&parts[parts.len() - 1])
}

pub open spec fn is_decimals_slot_spec(key: Seq<char>) -> bool {
    last_segment(key) == "decimals"@
}

pub fn is_decimals_slot(canonical_key: &str) -> (r: bool)
    ensures
        r == is_decimals_slot_spec(canonical_key@),
{
    let last = last_segment_of(canonical_key);
    str_eq(last.as_str(), "decimals")
}

pub open spec fn is_integer_like_slot_spec(key: Seq<char>) -> bool {
    let seg = last_segment(key);
    seg == "nonce"@ || seg == "deadline"@ || seg == "retry_limit"@ || seg == "max_retries"@ || seg
        == "bps"@ || ends_with(seg, "_bps"@)
}

pub fn is_integer_like_slot(canonical_key: &str) -> (r: bool)
    ensures
        r == is_integer_like_slot_spec(canonical_key@),
{
    let seg = last_segment_of(canonical_key);
    let s = seg.as_str();
    str_eq(s, "nonce") || str_eq(s, "deadline") || str_eq(s, "retry_limit") || str_eq(s, "max_retries")
        || str_eq(s, "bps") || str_ends_with(s, "_bps")
}

pub fn leaf_value_contract(canonical_key: &str) -> (r: LeafValueContract)
    ensures
        r == if is_decimals_slot_spec(canonical_key@) || is_integer_like_slot_spec(canonical_key@) {
            LeafValueContract::IntegerLike
        } else {
            LeafValueContract::Passthrough
        },
{
    if is_decimals_slot(canonical_key) || is_integer_like_slot(canonical_key) {
        return LeafValueContract::IntegerLike;
    }
    LeafValueContract::Passthrough
}

/// A source names a query observation: `query`, `query.*` or `host.query*`,
/// ignoring surrounding blanks and ASCII case.
pub open spec fn is_query_source_spec(source: Seq<char>) -> bool {
    let l = lower(trim(source));
    l == "query"@ || starts_with(l, "query."@) || starts_with(l, "host.query"@)
}

pub fn is_query_observation_source(source: &str) -> (r: bool)
    ensures
        r == is_query_source_spec(source@),
{
    let t = trim_str(source);
    let l = to_ascii_lowercase(t.as_str());
    str_eq(l.as_str(), "query") || str_starts_with(l.as_str(), "query.") || str_starts_with(
        l.as_str(),
        "host.query",
    )
}

/// Keys under an asset root.
pub open spec fn under_token_root(key: Seq<char>) -> bool {
    key == "token"@ || starts_with(key, "token."@)
}

/// The asset roots (`token`) that some key lies under.
pub fn derived_asset_roots(keys: &Vec<String>) -> (r: Vec<String>)
    ensures
        (exists|i: int| 0 <= i < keys@.len() && under_token_root(#[trigger] keys@[i]@)) ==> r@.len() == 1
            && r@[0]@ == "token"@,
        !(exists|i: int| 0 <= i < keys@.len() && under_token_root(#[trigger] keys@[i]@)) ==> r@.len()
            == 0,
{
    let mut found = false;
    let mut i: usize = 0;
    while i < keys.len()
        invariant
            i <= keys@.len(),
            found == exists|k: int| 0 <= k < i && under_token_root(#[trigger] keys@[k]@),
        decreases keys.len() - i,
    {
        let k = keys[i].as_str();
        if str_eq(k, "token") || str_starts_with(k, "token.") {
            found = true;
        }
        i = i + 1;
    }
    let mut out: Vec<String> = Vec::new();
    if found {
        out.push(to_owned_string("token"));
    }
    out
}

/// The wall clock in milliseconds since the Unix epoch, for stamping
/// observations.
pub fn current_time_ms() -> u64 {
    crate::agent::facts::current_unix_ms()
}


// ---------------------------------------------------------------------------
// Entries and their metadata
// ---------------------------------------------------------------------------

/// Where a stored value came from and how far it can be trusted.  The
/// confidence is kept as the JSON number it is written as.
pub struct InputValueMeta {
    pub source: String,
    pub source_priority: u32,
    pub provenance: Option<String>,
    pub confidence: Option<JsonNumber>,
    pub layer: InputValueLayer,
    pub stability: InputValueStability,
    pub observed_at_ms: Option<u64>,
}

pub struct MetaView {
    pub source: Seq<char>,
    pub source_priority: u32,
    pub provenance: Option<Seq<char>>,
    pub confidence: Option<NumberView>,
    pub layer: InputValueLayer,
    pub stability: InputValueStability,
    pub observed_at_ms: Option<u64>,
}

pub open spec fn opt_number_view(o: Option<JsonNumber>) -> Option<NumberView> {
    match o {
        Some(n) => Some(n.view_of()),
        None => None,
    }
}

impl View for InputValueMeta {
    type V = MetaView;

    open spec fn view(&self) -> MetaView {
        MetaView {
            source: self.source@,
            source_priority: self.source_priority,
            provenance: opt_view(self.provenance),
            confidence: opt_number_view(self.confidence),
            layer: self.layer,
            stability: self.stability,
            observed_at_ms: self.observed_at_ms,
        }
    }
}

/// The metadata of a value of unknown origin.
pub open spec fn default_meta() -> MetaView {
    MetaView {
        source: "unknown"@,
        source_priority: 0,
        provenance: None,
        confidence: None,
        layer: InputValueLayer::Unknown,
        stability: InputValueStability::Unknown,
        observed_at_ms: None,
    }
}

impl Default for InputValueMeta {
    fn default() -> (r: Self)
        ensures
            r@ == default_meta(),
    {
        InputValueMeta {
            source: to_owned_string("unknown"),
            source_priority: 0,
            provenance: None,
            confidence: None,
            layer: InputValueLayer::Unknown,
            stability: InputValueStability::Unknown,
            observed_at_ms: None,
        }
    }
}

fn copy_opt_string(o: &Option<String>) -> (r: Option<String>)
    ensures
        opt_view(r) == opt_view(*o),
{
    match o {
        Some(s) => Some(to_owned_string(s.as_str())),
        None => None,
    }
}

impl InputValueMeta {
    /// A copy of the metadata.
    pub fn copy(&self) -> (r: InputValueMeta)
        ensures
            r@ == self@,
    {
        InputValueMeta {
            source: to_owned_string(self.source.as_str()),
            source_priority: self.source_priority,
            provenance: copy_opt_string(&self.provenance),
            confidence: match &self.confidence {
                Some(n) => Some(n.clone_number()),
                None => None,
            },
            layer: self.layer,
            stability: self.stability,
            observed_at_ms: self.observed_at_ms,
        }
    }
}

/// A stored value with its metadata.
pub struct InputStoreEntry {
    pub value: JsonValue,
    pub meta: InputValueMeta,
}

pub struct EntryView {
    pub value: JsonView,
    pub meta: MetaView,
}

impl View for InputStoreEntry {
    type V = EntryView;

    open spec fn view(&self) -> EntryView {
        EntryView { value: self.value@, meta: self.meta@ }
    }
}

impl InputStoreEntry {
    pub fn copy(&self) -> (r: InputStoreEntry)
        ensures
            r@ == self@,
    {
        InputStoreEntry { value: self.value.clone_value(), meta: self.meta.copy() }
    }
}

/// The metadata as stored under `key`: a decimals slot is stable; a
/// balance or allowance slot observed by a query is volatile, and a
/// volatile one without an observation time is stamped with `now`.
pub open spec fn store_meta_spec(key: Seq<char>, m: MetaView, now: u64) -> MetaView {
    if is_decimals_slot_spec(key) {
        MetaView { stability: InputValueStability::Stable, ..m }
    } else if input_signal_matches(VolatileInputSignal::Balance, key) || input_signal_matches(
        VolatileInputSignal::Allowance,
        key,
    ) {
        let m1 = if is_query_source_spec(m.source) {
            MetaView { stability: InputValueStability::Volatile, ..m }
        } else {
            m
        };
        if m1.stability == InputValueStability::Volatile && m1.observed_at_ms is None {
            MetaView { observed_at_ms: Some(now), ..m1 }
        } else {
            m1
        }
    } else {
        m
    }
}

/// The metadata under `key`, with `now_ms` as the time of an unstamped
/// volatile observation.
pub fn normalize_store_entry_meta_at(key: &str, meta: &InputValueMeta, now_ms: u64) -> (r: InputValueMeta)
    ensures
        r@ == store_meta_spec(key@, meta@, now_ms),
{
    let mut normalized = meta.copy();
    if is_decimals_slot(key) {
        normalized.stability = InputValueStability::Stable;
        return normalized;
    }
    if volatile_signal_matches_any_key(key) {
        if is_query_observation_source(normalized.source.as_str()) {
            normalized.stability = InputValueStability::Volatile;
        }
        if normalized.stability == InputValueStability::Volatile && normalized.observed_at_ms.is_none() {
            normalized.observed_at_ms = Some(now_ms);
        }
    }
    normalized
}

/// The metadata under `key`, stamped with the clock where needed.
pub fn normalize_store_entry_meta(key: &str, meta: &InputValueMeta) -> (r: InputValueMeta)
    ensures
        exists|t: u64| r@ == #[trigger] store_meta_spec(key@, meta@, t),
{
    let now = current_time_ms();
    normalize_store_entry_meta_at(key, meta, now)
}

/// An integer-like value: a string holding an unsigned integer becomes that
/// number; an object with a `value` field becomes that field, normalised;
/// anything else is kept.
pub open spec fn integer_like_spec(v: JsonView) -> JsonView
    decreases v,
{
    match v {
        JsonView::Str(raw) => match parse_unsigned(trim(raw), u64::MAX as nat) {
            Some(n) => JsonView::Number(NumberView::PosInt(n as u64)),
            None => v,
        },
        JsonView::Object(es) => match obj_index(es, "value"@) {
            Some(i) => if 0 <= i < es.len() {
                integer_like_spec(es[i].1)
            } else {
                v
            },
            None => v,
        },
        _ => v,
    }
}

pub fn normalize_integer_like_value(value: &JsonValue) -> (r: JsonValue)
    ensures
        r@ == integer_like_spec(value@),
    decreases value,
{
    match value {
        JsonValue::String(raw) => {
            let t = trim_str(raw.as_str());
            match parse_u64(t.as_str()) {
                Some(n) => JsonValue::Number(JsonNumber::PosInt(n)),
                None => value.clone_value(),
            }
        },
        JsonValue::Object(entries) => {
            proof {
                lemma_object_view(*entries);
            }
            let key: Vec<char> = chars_of("value");
            proof {
                reveal_strlit("value");
            }
            match find_entry(entries, &key) {
                Some(i) => {
                    proof {
                        assert(decreases_to!(*value => (*value)->Object_0));
                        assert(decreases_to!(*entries => entries@[i as int]));
                        assert(decreases_to!(entries@[i as int] => entries@[i as int].1));
                        assert(entries_view(entries@)[i as int].1 == entries@[i as int].1@);
                    }
                    normalize_integer_like_value(&entries[i].1)
                },
                None => value.clone_value(),
            }
        },
        _ => value.clone_value(),
    }
}

/// A leaf value as stored: integer-like for decimals and integer slots.
pub open spec fn leaf_value_spec(key: Seq<char>, v: JsonView) -> JsonView {
    if is_decimals_slot_spec(key) || is_integer_like_slot_spec(key) {
        integer_like_spec(v)
    } else {
        v
    }
}

pub fn normalize_leaf_value(canonical_key: &str, value: &JsonValue) -> (r: JsonValue)
    ensures
        r@ == leaf_value_spec(canonical_key@, value@),
{
    match leaf_value_contract(canonical_key) {
        LeafValueContract::Passthrough => value.clone_value(),
        LeafValueContract::IntegerLike => normalize_integer_like_value(value),
    }
}

pub fn normalize_leaf_meta(canonical_key: &str, meta: &InputValueMeta, now_ms: u64) -> (r: InputValueMeta)
    ensures
        r@ == store_meta_spec(canonical_key@, meta@, now_ms),
{
    normalize_store_entry_meta_at(canonical_key, meta, now_ms)
}

/// What one stored leaf is: its key, value and metadata.
pub type LeafView = (Seq<char>, JsonView, MetaView);

/// The leaves of an asset object under `root`: one per field with a
/// non-blank name that makes a valid key `root.field`.
pub open spec fn object_leaves(es: Seq<(Seq<char>, JsonView)>, root: Seq<char>, m: MetaView, now: u64) -> Seq<LeafView>
    decreases es.len(),
{
    if es.len() == 0 {
        Seq::empty()
    } else {
        let f = trim(es.last().0);
        object_leaves(es.drop_last(), root, m, now) + if f.len() == 0 {
            Seq::<LeafView>::empty()
        } else {
            match input_key_spec(root + "."@ + f) {
                Some(cf) => seq![(cf, leaf_value_spec(cf, es.last().1), store_meta_spec(cf, m, now))],
                None => Seq::empty(),
            }
        }
    }
}

/// The leaves an asset root (`token`) value stands for: a string is the
/// asset's address; an object gives one leaf per field.
pub open spec fn decompose_spec(key: Seq<char>, v: JsonView, m: MetaView, now: u64) -> Option<Seq<LeafView>> {
    if key != "token"@ {
        None
    } else {
        match v {
            JsonView::Str(_) => Some(seq![(key + ".address"@, v, m)]),
            JsonView::Object(es) => {
                let out = object_leaves(es, key, m, now);
                if out.len() > 0 {
                    Some(out)
                } else {
                    None
                }
            },
            _ => None,
        }
    }
}

/// The leaves a semantic upsert stores: none for an invalid key; the parts
/// of an asset root; else the one normalised leaf.
pub open spec fn semantic_entries_spec(raw: Seq<char>, v: JsonView, m: MetaView, now: u64) -> Seq<LeafView> {
    match input_key_spec(raw) {
        None => Seq::empty(),
        Some(c) => match decompose_spec(c, v, m, now) {
            Some(es) => es,
            None => seq![(c, leaf_value_spec(c, v), store_meta_spec(c, m, now))],
        },
    }
}

pub open spec fn leaf_views(v: Seq<(String, JsonValue, InputValueMeta)>) -> Seq<LeafView> {
    v.map_values(|x: (String, JsonValue, InputValueMeta)| (x.0@, x.1@, x.2@))
}

pub fn decompose_asset_root_entry(
    canonical_key: &str,
    value: &JsonValue,
    meta: &InputValueMeta,
    now_ms: u64,
) -> (r: Option<Vec<(String, JsonValue, InputValueMeta)>>)
    ensures
        match r {
            Some(out) => decompose_spec(canonical_key@, value@, meta@, now_ms) == Some(leaf_views(out@)),
            None => decompose_spec(canonical_key@, value@, meta@, now_ms) is None,
        },
{
    if !str_eq(canonical_key, "token") {
        return None;
    }
    match value {
        JsonValue::String(_) => {
            let mut out: Vec<(String, JsonValue, InputValueMeta)> = Vec::new();
            out.push((concat(canonical_key, ".address"), value.clone_value(), meta.copy()));
            assert(leaf_views(out@) =~= seq![(canonical_key@ + ".address"@, value@, meta@)]);
            Some(out)
        },
        JsonValue::Object(entries) => {
            proof {
                lemma_object_view(*entries);
            }
            let ghost es = entries_view(entries@);
            let mut out: Vec<(String, JsonValue, InputValueMeta)> = Vec::new();
            let mut i: usize = 0;
            assert(leaf_views(out@) =~= object_leaves(es.subrange(0, 0), canonical_key@, meta@, now_ms));
            while i < entries.len()
                invariant
                    i <= entries@.len(),
                    es == entries_view(entries@),
                    leaf_views(out@) == object_leaves(es.subrange(0, i as int), canonical_key@, meta@, now_ms),
                decreases entries.len() - i,
            {
                let ghost cur = es.subrange(0, i + 1);
                assert(cur.drop_last() =~= es.subrange(0, i as int));
                assert(cur.last() == (entries@[i as int].0@, entries@[i as int].1@));
                let ghost prev = leaf_views(out@);
                let field = trim_str(entries[i].0.as_str());
                if field.unicode_len() > 0 {
                    let dotted = concat(canonical_key, ".");
                    let full = concat(dotted.as_str(), field.as_str());
                    match normalize_input_key(full.as_str()) {
                        Some(cf) => {
                            let v = normalize_leaf_value(cf.as_str(), &entries[i].1);
                            let m = normalize_leaf_meta(cf.as_str(), meta, now_ms);
                            let ghost item = (cf@, v@, m@);
                            out.push((cf, v, m));
                            assert(leaf_views(out@) =~= prev + seq![item]);
                        },
                        None => {
                            assert(leaf_views(out@) =~= prev + Seq::<LeafView>::empty());
                        },
                    }
                } else {
                    assert(leaf_views(out@) =~= prev + Seq::<LeafView>::empty());
                }
                i = i + 1;
            }
            assert(es.subrange(0, es.len() as int) =~= es);
            if out.len() > 0 {
                Some(out)
            } else {
                None
            }
        },
        _ => None,
    }
}

/// The leaves a semantic upsert of `raw_key` stores.
pub fn normalize_semantic_entries(raw_key: &str, value: &JsonValue, meta: &InputValueMeta, now_ms: u64) -> (r: Vec<
    (String, JsonValue, InputValueMeta),
>)
    ensures
        leaf_views(r@) == semantic_entries_spec(raw_key@, value@, meta@, now_ms),
{
    let canonical = match normalize_input_key(raw_key) {
        Some(c) => c,
        None => {
            let out: Vec<(String, JsonValue, InputValueMeta)> = Vec::new();
            assert(leaf_views(out@) =~= Seq::<LeafView>::empty());
            return out;
        },
    };
    match decompose_asset_root_entry(canonical.as_str(), value, meta, now_ms) {
        Some(entries) => entries,
        None => {
            let v = normalize_leaf_value(canonical.as_str(), value);
            let m = normalize_leaf_meta(canonical.as_str(), meta, now_ms);
            let mut out: Vec<(String, JsonValue, InputValueMeta)> = Vec::new();
            let ghost item = (canonical@, v@, m@);
            out.push((canonical, v, m));
            assert(leaf_views(out@) =~= seq![item]);
            out
        },
    }
}


// ---------------------------------------------------------------------------
// The store
// ---------------------------------------------------------------------------

/// Stored inputs by canonical slot key, in key order.
pub struct InputStore {
    entries: Vec<(String, InputStoreEntry)>,
}

/// The entries as a map from key to entry.
pub open spec fn model_of(es: Seq<(String, InputStoreEntry)>) -> Map<Seq<char>, EntryView> {
    Map::new(|k: Seq<char>| lookup(es, k) is Some, |k: Seq<char>| lookup(es, k).unwrap()@)
}

/// A later observation, or one where only the incoming has a time.
pub open spec fn newer_spec(incoming: Option<u64>, existing: Option<u64>) -> bool {
    match (incoming, existing) {
        (Some(a), Some(b)) => a > b,
        (Some(_), None) => true,
        _ => false,
    }
}

/// An incoming entry of equal priority replaces the stored one when it is
/// a newer observation, or an observation of the same time that differs in
/// value or in any of its metadata.
pub open spec fn refresh_spec(existing: EntryView, incoming: EntryView) -> bool {
    newer_spec(incoming.meta.observed_at_ms, existing.meta.observed_at_ms) || (incoming.meta.observed_at_ms
        == existing.meta.observed_at_ms && (incoming.value != existing.value || incoming.meta.source
        != existing.meta.source || incoming.meta.provenance != existing.meta.provenance
        || incoming.meta.confidence != existing.meta.confidence || incoming.meta.layer != existing.meta.layer
        || incoming.meta.stability != existing.meta.stability))
}

/// Storing one leaf under its canonical key: rejected for a key that names
/// no slot; inserted under a new key; replacing an entry of lower priority,
/// or of equal priority when refreshed; ignored otherwise.
pub open spec fn canonical_put(
    m: Map<Seq<char>, EntryView>,
    key: Seq<char>,
    value: JsonView,
    meta: MetaView,
    now: u64,
) -> (Map<Seq<char>, EntryView>, InputStoreUpsertResult) {
    match slot_key_spec(key) {
        None => (m, InputStoreUpsertResult::Rejected),
        Some(c) => {
            let inc = EntryView { value, meta: store_meta_spec(c, meta, now) };
            if m.dom().contains(c) {
                let e = m[c];
                if inc.meta.source_priority < e.meta.source_priority || (inc.meta.source_priority
                    == e.meta.source_priority && !refresh_spec(e, inc)) {
                    (m, InputStoreUpsertResult::Ignored)
                } else {
                    (m.insert(c, inc), InputStoreUpsertResult::Replaced)
                }
            } else {
                (m.insert(c, inc), InputStoreUpsertResult::Inserted)
            }
        },
    }
}

/// Storing the leaves in order: the final map, and whether any leaf was
/// inserted, replaced an entry, or was ignored.
pub open spec fn put_leaves(m: Map<Seq<char>, EntryView>, leaves: Seq<LeafView>, now: u64) -> (
    Map<Seq<char>, EntryView>,
    bool,
    bool,
    bool,
)
    decreases leaves.len(),
{
    if leaves.len() == 0 {
        (m, false, false, false)
    } else {
        let prev = put_leaves(m, leaves.drop_last(), now);
        let step = canonical_put(prev.0, leaves.last().0, leaves.last().1, leaves.last().2, now);
        (
            step.0,
            prev.1 || step.1 == InputStoreUpsertResult::Inserted,
            prev.2 || step.1 == InputStoreUpsertResult::Replaced,
            prev.3 || step.1 == InputStoreUpsertResult::Ignored,
        )
    }
}

/// `rt` with each stored value written to its runtime input slot in turn.
pub open spec fn runtime_projection_spec(rt: JsonView, es: Seq<(String, InputStoreEntry)>) -> JsonView
    decreases es.len(),
{
    if es.len() == 0 {
        rt
    } else {
        runtime_input_spec(runtime_projection_spec(rt, es.drop_last()), es.last().0@, es.last().1.value@)
    }
}

/// The model after upserting each entry of `es` in turn, the i-th at the
/// time `ts[i]`.
pub open spec fn merged_model(m: Map<Seq<char>, EntryView>, es: Seq<(String, InputStoreEntry)>, ts: Seq<u64>) -> Map<
    Seq<char>,
    EntryView,
>
    decreases es.len(),
{
    if es.len() == 0 {
        m
    } else {
        semantic_put(
            merged_model(m, es.drop_last(), ts.drop_last()),
            es.last().0@,
            es.last().1.value@,
            es.last().1.meta@,
            ts.last(),
        ).0
    }
}

/// A semantic upsert: each leaf the key and value stand for is stored; the
/// result is `Replaced` if any leaf replaced an entry, else `Inserted` if
/// any was inserted, else `Ignored` if any was ignored, else `Rejected`.
pub open spec fn semantic_put(
    m: Map<Seq<char>, EntryView>,
    raw: Seq<char>,
    value: JsonView,
    meta: MetaView,
    now: u64,
) -> (Map<Seq<char>, EntryView>, InputStoreUpsertResult) {
    let leaves = semantic_entries_spec(raw, value, meta, now);
    if leaves.len() == 0 {
        (m, InputStoreUpsertResult::Rejected)
    } else {
        let done = put_leaves(m, leaves, now);
        (
            done.0,
            if done.2 {
                InputStoreUpsertResult::Replaced
            } else if done.1 {
                InputStoreUpsertResult::Inserted
            } else if done.3 {
                InputStoreUpsertResult::Ignored
            } else {
                InputStoreUpsertResult::Rejected
            },
        )
    }
}

fn opt_string_same(a: &Option<String>, b: &Option<String>) -> (r: bool)
    ensures
        r == (opt_view(*a) == opt_view(*b)),
{
    match (a, b) {
        (Some(x), Some(y)) => str_eq(x.as_str(), y.as_str()),
        (None, None) => true,
        _ => false,
    }
}

fn opt_number_same(a: &Option<JsonNumber>, b: &Option<JsonNumber>) -> (r: bool)
    ensures
        r == (opt_number_view(*a) == opt_number_view(*b)),
{
    match (a, b) {
        (Some(x), Some(y)) => {
            let l = JsonValue::Number(x.clone_number());
            let rr = JsonValue::Number(y.clone_number());
            l.same_as(&rr)
        },
        (None, None) => true,
        _ => false,
    }
}

pub fn should_refresh_equal_priority(existing: &InputStoreEntry, incoming: &InputStoreEntry) -> (r: bool)
    ensures
        r == refresh_spec(existing@, incoming@),
{
    if is_newer_observation(incoming.meta.observed_at_ms, existing.meta.observed_at_ms) {
        return true;
    }
    let same_time = incoming.meta.observed_at_ms == existing.meta.observed_at_ms;
    same_time && (!incoming.value.same_as(&existing.value) || !str_eq(
        incoming.meta.source.as_str(),
        existing.meta.source.as_str(),
    ) || !opt_string_same(&incoming.meta.provenance, &existing.meta.provenance) || !opt_number_same(
        &incoming.meta.confidence,
        &existing.meta.confidence,
    ) || incoming.meta.layer != existing.meta.layer || incoming.meta.stability != existing.meta.stability)
}

impl InputStore {
    pub closed spec fn entries_spec(&self) -> Seq<(String, InputStoreEntry)> {
        self.entries@
    }

    pub open spec fn wf(&self) -> bool {
        keys_sorted(self.entries_spec())
    }

    /// The stored entries by key.
    pub open spec fn model(&self) -> Map<Seq<char>, EntryView> {
        model_of(self.entries_spec())
    }

    pub fn new() -> (r: InputStore)
        ensures
            r.wf(),
            r.model() == Map::<Seq<char>, EntryView>::empty(),
    {
        let r = InputStore { entries: Vec::new() };
        assert(r.model() =~= Map::<Seq<char>, EntryView>::empty());
        r
    }

    /// Stores one leaf under the canonical key of `key`.
    pub fn upsert_canonical_entry(&mut self, key: &str, value: JsonValue, meta: &InputValueMeta, now_ms: u64) -> (r:
        InputStoreUpsertResult)
        requires
            old(self).wf(),
        ensures
            final(self).wf(),
            final(self).model() == canonical_put(old(self).model(), key@, value@, meta@, now_ms).0,
            r == canonical_put(old(self).model(), key@, value@, meta@, now_ms).1,
    {
        let canonical_ref = match InputRef::new(key) {
            Some(r) => r,
            None => {
                return InputStoreUpsertResult::Rejected;
            },
        };
        let canonical = to_owned_string(canonical_ref.as_str());
        let entry = InputStoreEntry {
            value,
            meta: normalize_store_entry_meta_at(canonical.as_str(), meta, now_ms),
        };
        let ghost before = self.entries@;
        let ghost inc = entry@;
        match find_key(&self.entries, canonical.as_str()) {
            Ok(i) => {
                let existing = &self.entries[i].1;
                assert(self.model().dom().contains(canonical@));
                assert(self.model()[canonical@] == existing@);
                if entry.meta.source_priority < existing.meta.source_priority {
                    return InputStoreUpsertResult::Ignored;
                }
                if entry.meta.source_priority == existing.meta.source_priority && !should_refresh_equal_priority(
                    existing,
                    &entry,
                ) {
                    return InputStoreUpsertResult::Ignored;
                }
                let ghost c = canonical@;
                put(&mut self.entries, canonical, entry);
                assert(self.model() =~= model_of(before).insert(c, inc));
                InputStoreUpsertResult::Replaced
            },
            Err(_) => {
                assert(!self.model().dom().contains(canonical@));
                let ghost c = canonical@;
                put(&mut self.entries, canonical, entry);
                assert(self.model() =~= model_of(before).insert(c, inc));
                InputStoreUpsertResult::Inserted
            },
        }
    }

    /// Stores the leaves that `key` and `value` stand for, with `now_ms` as
    /// the time of unstamped volatile observations.
    pub fn upsert_semantic_at(&mut self, key: &str, value: &JsonValue, meta: &InputValueMeta, now_ms: u64) -> (r:
        InputStoreUpsertResult)
        requires
            old(self).wf(),
        ensures
            final(self).wf(),
            final(self).model() == semantic_put(old(self).model(), key@, value@, meta@, now_ms).0,
            r == semantic_put(old(self).model(), key@, value@, meta@, now_ms).1,
    {
        let normalized = normalize_semantic_entries(key, value, meta, now_ms);
        let ghost leaves = leaf_views(normalized@);
        let ghost m0 = self.model();
        if normalized.len() == 0 {
            return InputStoreUpsertResult::Rejected;
        }
        let mut saw_inserted = false;
        let mut saw_replaced = false;
        let mut saw_ignored = false;
        let mut i: usize = 0;
        assert(leaves.subrange(0, 0) =~= Seq::<LeafView>::empty());
        while i < normalized.len()
            invariant
                i <= normalized@.len(),
                leaves == leaf_views(normalized@),
                self.wf(),
                self.model() == put_leaves(m0, leaves.subrange(0, i as int), now_ms).0,
                saw_inserted == put_leaves(m0, leaves.subrange(0, i as int), now_ms).1,
                saw_replaced == put_leaves(m0, leaves.subrange(0, i as int), now_ms).2,
                saw_ignored == put_leaves(m0, leaves.subrange(0, i as int), now_ms).3,
            decreases normalized.len() - i,
        {
            let ghost cur = leaves.subrange(0, i + 1);
            assert(cur.drop_last() =~= leaves.subrange(0, i as int));
            assert(cur.last() == (normalized@[i as int].0@, normalized@[i as int].1@, normalized@[i as int].2@));
            let r = self.upsert_canonical_entry(
                normalized[i].0.as_str(),
                normalized[i].1.clone_value(),
                &normalized[i].2,
                now_ms,
            );
            match r {
                InputStoreUpsertResult::Inserted => {
                    saw_inserted = true;
                },
                InputStoreUpsertResult::Replaced => {
                    saw_replaced = true;
                },
                InputStoreUpsertResult::Ignored => {
                    saw_ignored = true;
                },
                InputStoreUpsertResult::Rejected => {},
            }
            i = i + 1;
        }
        assert(leaves.subrange(0, leaves.len() as int) =~= leaves);
        if saw_replaced {
            InputStoreUpsertResult::Replaced
        } else if saw_inserted {
            InputStoreUpsertResult::Inserted
        } else if saw_ignored {
            InputStoreUpsertResult::Ignored
        } else {
            InputStoreUpsertResult::Rejected
        }
    }

    /// Stores the leaves that `key` and `value` stand for; unstamped volatile
    /// observations get the clock's time.
    pub fn upsert_semantic(&mut self, key: &str, value: &JsonValue, meta: &InputValueMeta) -> (r:
        InputStoreUpsertResult)
        requires
            old(self).wf(),
        ensures
            final(self).wf(),
            exists|t: u64|
                final(self).model() == #[trigger] semantic_put(old(self).model(), key@, value@, meta@, t).0 && r
                    == semantic_put(old(self).model(), key@, value@, meta@, t).1,
    {
        let now = current_time_ms();
        self.upsert_semantic_at(key, value, meta, now)
    }

    pub fn upsert(&mut self, key: &str, value: &JsonValue, meta: &InputValueMeta) -> (r: InputStoreUpsertResult)
        requires
            old(self).wf(),
        ensures
            final(self).wf(),
            exists|t: u64|
                final(self).model() == #[trigger] semantic_put(old(self).model(), key@, value@, meta@, t).0 && r
                    == semantic_put(old(self).model(), key@, value@, meta@, t).1,
    {
        self.upsert_semantic(key, value, meta)
    }

    /// Stores a value given by the run's seed.
    pub fn upsert_seed(&mut self, key: &str, value: &JsonValue, provenance: &str) -> (r: InputStoreUpsertResult)
        requires
            old(self).wf(),
        ensures
            final(self).wf(),
            exists|t: u64|
                final(self).model() == #[trigger] semantic_put(
                    old(self).model(),
                    key@,
                    value@,
                    seed_meta(provenance@),
                    t,
                ).0 && r == semantic_put(old(self).model(), key@, value@, seed_meta(provenance@), t).1,
    {
        let meta = InputValueMeta {
            source: to_owned_string("seed"),
            source_priority: 10,
            provenance: Some(to_owned_string(provenance)),
            confidence: None,
            layer: InputValueLayer::Seed,
            stability: InputValueStability::Unknown,
            observed_at_ms: None,
        };
        self.upsert_semantic(key, value, &meta)
    }

    /// Stores a value the user gave.
    pub fn upsert_user(&mut self, key: &str, value: &JsonValue, provenance: &str) -> (r: InputStoreUpsertResult)
        requires
            old(self).wf(),
        ensures
            final(self).wf(),
            exists|t: u64|
                final(self).model() == #[trigger] semantic_put(
                    old(self).model(),
                    key@,
                    value@,
                    user_meta(provenance@),
                    t,
                ).0 && r == semantic_put(old(self).model(), key@, value@, user_meta(provenance@), t).1,
    {
        let meta = InputValueMeta {
            source: to_owned_string("user"),
            source_priority: 100,
            provenance: Some(to_owned_string(provenance)),
            confidence: None,
            layer: InputValueLayer::Observed,
            stability: InputValueStability::Unknown,
            observed_at_ms: None,
        };
        self.upsert_semantic(key, value, &meta)
    }

    /// The entry stored under the canonical key of `key`.
    pub fn get(&self, key: &str) -> (r: Option<&InputStoreEntry>)
        requires
            self.wf(),
        ensures
            match r {
                Some(e) => exists|c: Seq<char>|
                    slot_key_spec(key@) == Some(c) && #[trigger] self.model().dom().contains(c) && self.model()[c]
                        == e@,
                None => match slot_key_spec(key@) {
                    Some(c) => !self.model().dom().contains(c),
                    None => true,
                },
            },
    {
        let r = match InputRef::new(key) {
            Some(r) => r,
            None => {
                return None;
            },
        };
        match find_key(&self.entries, r.as_str()) {
            Ok(i) => {
                assert(self.model().dom().contains(r.canonical_spec()));
                Some(&self.entries[i].1)
            },
            Err(_) => None,
        }
    }

    pub fn get_semantic(&self, key: &str) -> (r: Option<&InputStoreEntry>)
        requires
            self.wf(),
        ensures
            match r {
                Some(e) => exists|c: Seq<char>|
                    slot_key_spec(key@) == Some(c) && #[trigger] self.model().dom().contains(c) && self.model()[c]
                        == e@,
                None => match slot_key_spec(key@) {
                    Some(c) => !self.model().dom().contains(c),
                    None => true,
                },
            },
    {
        self.get(key)
    }
}

/// The metadata of a seed value.
pub open spec fn seed_meta(provenance: Seq<char>) -> MetaView {
    MetaView {
        source: "seed"@,
        source_priority: 10,
        provenance: Some(provenance),
        confidence: None,
        layer: InputValueLayer::Seed,
        stability: InputValueStability::Unknown,
        observed_at_ms: None,
    }
}

/// The metadata of a value the user gave.
pub open spec fn user_meta(provenance: Seq<char>) -> MetaView {
    MetaView {
        source: "user"@,
        source_priority: 100,
        provenance: Some(provenance),
        confidence: None,
        layer: InputValueLayer::Observed,
        stability: InputValueStability::Unknown,
        observed_at_ms: None,
    }
}


proof fn lemma_put_leaves_keeps_priority(m: Map<Seq<char>, EntryView>, leaves: Seq<LeafView>, now: u64, k: Seq<char>)
    requires
        m.dom().contains(k),
    ensures
        put_leaves(m, leaves, now).0.dom().contains(k),
        put_leaves(m, leaves, now).0[k].meta.source_priority >= m[k].meta.source_priority,
    decreases leaves.len(),
{
    if leaves.len() > 0 {
        lemma_put_leaves_keeps_priority(m, leaves.drop_last(), now, k);
    }
}

proof fn lemma_put_leaves_unchanged(m: Map<Seq<char>, EntryView>, leaves: Seq<LeafView>, now: u64)
    ensures
        !put_leaves(m, leaves, now).1 && !put_leaves(m, leaves, now).2 ==> put_leaves(m, leaves, now).0 == m,
    decreases leaves.len(),
{
    if leaves.len() > 0 {
        lemma_put_leaves_unchanged(m, leaves.drop_last(), now);
    }
}

/// An upsert never lowers the source priority of what is stored under a
/// key: a stored key stays, with an entry of at least the same priority.
pub proof fn lemma_upsert_never_lowers_priority(
    m: Map<Seq<char>, EntryView>,
    raw: Seq<char>,
    value: JsonView,
    meta: MetaView,
    now: u64,
    k: Seq<char>,
)
    requires
        m.dom().contains(k),
    ensures
        semantic_put(m, raw, value, meta, now).0.dom().contains(k),
        semantic_put(m, raw, value, meta, now).0[k].meta.source_priority >= m[k].meta.source_priority,
{
    lemma_put_leaves_keeps_priority(m, semantic_entries_spec(raw, value, meta, now), now, k);
}

/// An upsert that is ignored or rejected leaves the store as it was.
pub proof fn lemma_unsuccessful_upsert_changes_nothing(
    m: Map<Seq<char>, EntryView>,
    raw: Seq<char>,
    value: JsonView,
    meta: MetaView,
    now: u64,
)
    ensures
        semantic_put(m, raw, value, meta, now).1 == InputStoreUpsertResult::Ignored || semantic_put(
            m,
            raw,
            value,
            meta,
            now,
        ).1 == InputStoreUpsertResult::Rejected ==> semantic_put(m, raw, value, meta, now).0 == m,
{
    lemma_put_leaves_unchanged(m, semantic_entries_spec(raw, value, meta, now), now);
}

/// After a leaf is inserted or replaces an entry, its key reads back the
/// value stored.
pub proof fn lemma_canonical_put_reads_back(
    m: Map<Seq<char>, EntryView>,
    key: Seq<char>,
    value: JsonView,
    meta: MetaView,
    now: u64,
)
    requires
        slot_key_spec(key) is Some,
        canonical_put(m, key, value, meta, now).1 == InputStoreUpsertResult::Inserted || canonical_put(
            m,
            key,
            value,
            meta,
            now,
        ).1 == InputStoreUpsertResult::Replaced,
    ensures
        canonical_put(m, key, value, meta, now).0[slot_key_spec(key).unwrap()].value == value,
{
}


// ---------------------------------------------------------------------------
// Listing and projecting the store
// ---------------------------------------------------------------------------

/// A stored key that is already canonical.
pub open spec fn canonical_ok(k: Seq<char>) -> bool {
    trim(k).len() != 0 && input_key_spec(k) == Some(k)
}

/// The canonical keys among `ks`, in order.
pub open spec fn valid_keys(ks: Seq<Seq<char>>) -> Seq<Seq<char>>
    decreases ks.len(),
{
    if ks.len() == 0 {
        Seq::empty()
    } else {
        valid_keys(ks.drop_last()) + if canonical_ok(ks.last()) {
            seq![ks.last()]
        } else {
            Seq::<Seq<char>>::empty()
        }
    }
}

/// `value` set at the path `segs` inside the object `es`: the objects on
/// the way are kept, and anything else on the way becomes an empty object.
pub open spec fn set_nested(es: Seq<(Seq<char>, JsonView)>, segs: Seq<Seq<char>>, v: JsonView) -> Seq<
    (Seq<char>, JsonView),
>
    decreases segs.len(),
{
    if segs.len() == 0 {
        es
    } else if segs.len() == 1 {
        obj_insert(es, segs[0], v)
    } else {
        let child = match obj_get(es, segs[0]) {
            Some(JsonView::Object(c)) => c,
            _ => Seq::empty(),
        };
        obj_insert(es, segs[0], JsonView::Object(set_nested(child, segs.drop_first(), v)))
    }
}

fn set_nested_from(obj: &mut Vec<(String, JsonValue)>, segs: &Vec<String>, idx: usize, value: JsonValue)
    requires
        idx <= segs@.len(),
    ensures
        entries_view(final(obj)@) == set_nested(
            entries_view(old(obj)@),
            texts(segs@).subrange(idx as int, segs@.len() as int),
            value@,
        ),
    decreases segs.len() - idx,
{
    let ghost rest = texts(segs@).subrange(idx as int, segs@.len() as int);
    if idx == segs.len() {
        return;
    }
    assert(rest[0] == segs@[idx as int]@);
    if idx + 1 == segs.len() {
        insert_entry(obj, to_owned_string(segs[idx].as_str()), value);
        return;
    }
    assert(rest.drop_first() =~= texts(segs@).subrange(idx + 1, segs@.len() as int));
    let mut child: Vec<(String, JsonValue)> = match entry_get(obj, segs[idx].as_str()) {
        Some(x) => match x.clone_value() {
            JsonValue::Object(d) => {
                proof {
                    lemma_object_view(d);
                }
                d
            },
            _ => Vec::new(),
        },
        None => Vec::new(),
    };
    assert(entries_view(child@) == match obj_get(entries_view(obj@), rest[0]) {
        Some(JsonView::Object(c)) => c,
        _ => Seq::<(Seq<char>, JsonView)>::empty(),
    });
    set_nested_from(&mut child, segs, idx + 1, value);
    proof {
        lemma_object_view(child);
    }
    insert_entry(obj, to_owned_string(segs[idx].as_str()), JsonValue::Object(child));
}


/// Sets `value` at the dotted path `key` (blank segments dropped) inside
/// the object `obj`.
pub fn set_nested_projected_value(obj: &mut Vec<(String, JsonValue)>, key: &str, value: JsonValue)
    ensures
        entries_view(final(obj)@) == set_nested(entries_view(old(obj)@), dotted_segments(key@), value@),
{
    let segs = segments_of(key);
    assert(texts(segs@).subrange(0, segs@.len() as int) =~= texts(segs@));
    set_nested_from(obj, &segs, 0, value);
}

/// The entries whose key starts with `prefix`, in key order.
pub open spec fn children_of(es: Seq<(String, InputStoreEntry)>, prefix: Seq<char>) -> Seq<(Seq<char>, EntryView)>
    decreases es.len(),
{
    if es.len() == 0 {
        Seq::empty()
    } else {
        children_of(es.drop_last(), prefix) + if starts_with(es.last().0@, prefix) {
            seq![(es.last().0@, es.last().1@)]
        } else {
            Seq::<(Seq<char>, EntryView)>::empty()
        }
    }
}

/// The children's values set, in order, at the dotted paths that follow the
/// first `plen` characters of their keys.
pub open spec fn nested_from(cs: Seq<(Seq<char>, EntryView)>, plen: nat) -> Seq<(Seq<char>, JsonView)>
    decreases cs.len(),
{
    if cs.len() == 0 {
        Seq::empty()
    } else {
        set_nested(
            nested_from(cs.drop_last(), plen),
            dotted_segments(cs.last().0.subrange(plen as int, cs.last().0.len() as int)),
            cs.last().1.value,
        )
    }
}

/// The highest source priority among the children (zero for none).
pub open spec fn max_priority(cs: Seq<(Seq<char>, EntryView)>) -> u32
    decreases cs.len(),
{
    if cs.len() == 0 {
        0
    } else {
        let p = max_priority(cs.drop_last());
        let q = cs.last().1.meta.source_priority;
        if q > p {
            q
        } else {
            p
        }
    }
}

/// The latest observation time among the children that have one.
pub open spec fn max_observed(cs: Seq<(Seq<char>, EntryView)>) -> Option<u64>
    decreases cs.len(),
{
    if cs.len() == 0 {
        None
    } else {
        match (max_observed(cs.drop_last()), cs.last().1.meta.observed_at_ms) {
            (Some(a), Some(b)) => Some(
                if b > a {
                    b
                } else {
                    a
                },
            ),
            (None, x) => x,
            (a, None) => a,
        }
    }
}

pub open spec fn any_stability(cs: Seq<(Seq<char>, EntryView)>, st: InputValueStability) -> bool {
    exists|i: int| 0 <= i < cs.len() && (#[trigger] cs[i]).1.meta.stability == st
}

/// The entry a root stands for: without children, the entry stored under
/// it; with children, an object of their values, derived from them with
/// their highest priority, their latest observation time, and volatile if
/// any is (else stable if any is).
pub open spec fn projected_entry_spec(es: Seq<(String, InputStoreEntry)>, root: Seq<char>) -> Option<EntryView> {
    let prefix = root + "."@;
    let cs = children_of(es, prefix);
    if cs.len() == 0 {
        match lookup(es, root) {
            Some(e) => Some(e@),
            None => None,
        }
    } else {
        Some(
            EntryView {
                value: JsonView::Object(nested_from(cs, prefix.len())),
                meta: MetaView {
                    source: "derived"@,
                    source_priority: max_priority(cs),
                    provenance: Some("input_store.projected."@ + root),
                    confidence: None,
                    layer: InputValueLayer::Derived,
                    stability: if any_stability(cs, InputValueStability::Volatile) {
                        InputValueStability::Volatile
                    } else if any_stability(cs, InputValueStability::Stable) {
                        InputValueStability::Stable
                    } else {
                        InputValueStability::Unknown
                    },
                    observed_at_ms: max_observed(cs),
                },
            },
        )
    }
}

/// Some key lies under the asset root `token`.
pub open spec fn has_token_root(es: Seq<(String, InputStoreEntry)>) -> bool {
    exists|i: int| 0 <= i < es.len() && under_token_root((#[trigger] es[i]).0@)
}

/// The entries with the asset root `token` replaced by its projection.
pub open spec fn projected_model(es: Seq<(String, InputStoreEntry)>) -> Map<Seq<char>, EntryView> {
    if has_token_root(es) {
        match projected_entry_spec(es, "token"@) {
            Some(e) => model_of(es).insert("token"@, e),
            None => model_of(es),
        }
    } else {
        model_of(es)
    }
}

impl InputStore {
    /// The entry `root` stands for in the projection.
    pub fn build_projected_asset_entry(&self, root: &str) -> (r: Option<InputStoreEntry>)
        requires
            self.wf(),
        ensures
            match r {
                Some(e) => projected_entry_spec(self.entries_spec(), root@) == Some(e@),
                None => projected_entry_spec(self.entries_spec(), root@) is None,
            },
    {
        let ghost es = self.entries@;
        let prefix = concat(root, ".");
        let mut object: Vec<(String, JsonValue)> = Vec::new();
        let mut any_child = false;
        let mut priority: u32 = 0;
        let mut observed: Option<u64> = None;
        let mut any_volatile = false;
        let mut any_stable = false;
        let mut i: usize = 0;
        assert(es.subrange(0, 0) =~= Seq::<(String, InputStoreEntry)>::empty());
        while i < self.entries.len()
            invariant
                i <= es.len(),
                es == self.entries@,
                prefix@ == root@ + "."@,
                any_child == (children_of(es.subrange(0, i as int), prefix@).len() > 0),
                entries_view(object@) == nested_from(children_of(es.subrange(0, i as int), prefix@), prefix@.len()),
                priority == max_priority(children_of(es.subrange(0, i as int), prefix@)),
                observed == max_observed(children_of(es.subrange(0, i as int), prefix@)),
                any_volatile == any_stability(
                    children_of(es.subrange(0, i as int), prefix@),
                    InputValueStability::Volatile,
                ),
                any_stable == any_stability(children_of(es.subrange(0, i as int), prefix@), InputValueStability::Stable),
            decreases self.entries.len() - i,
        {
            let ghost cur = es.subrange(0, i + 1);
            let ghost pre_cs = children_of(es.subrange(0, i as int), prefix@);
            assert(cur.drop_last() =~= es.subrange(0, i as int));
            assert(cur.last() == es[i as int]);
            let key = self.entries[i].0.as_str();
            if str_starts_with(key, prefix.as_str()) {
                let ghost item = (es[i as int].0@, es[i as int].1@);
                let ghost cs = pre_cs + seq![item];
                assert(children_of(cur, prefix@) == cs);
                assert(cs.drop_last() =~= pre_cs);
                assert(cs.last() == item);
                let entry = &self.entries[i].1;
                match str_strip_prefix(key, prefix.as_str()) {
                    Some(suffix) => {
                        set_nested_projected_value(&mut object, suffix.as_str(), entry.value.clone_value());
                    },
                    None => {},
                }
                if entry.meta.source_priority > priority {
                    priority = entry.meta.source_priority;
                }
                match (observed, entry.meta.observed_at_ms) {
                    (Some(a), Some(b)) => {
                        if b > a {
                            observed = Some(b);
                        }
                    },
                    (None, x) => {
                        observed = x;
                    },
                    (_, None) => {},
                }
                proof {
                    if any_stability(cs, InputValueStability::Volatile) {
                        let w = choose|k: int|
                            0 <= k < cs.len() && (#[trigger] cs[k]).1.meta.stability == InputValueStability::Volatile;
                        if w < pre_cs.len() {
                            assert(pre_cs[w] == cs[w]);
                        }
                    }
                    if any_stability(cs, InputValueStability::Stable) {
                        let w = choose|k: int|
                            0 <= k < cs.len() && (#[trigger] cs[k]).1.meta.stability == InputValueStability::Stable;
                        if w < pre_cs.len() {
                            assert(pre_cs[w] == cs[w]);
                        }
                    }
                    if any_volatile {
                        let w = choose|k: int|
                            0 <= k < pre_cs.len() && (#[trigger] pre_cs[k]).1.meta.stability
                                == InputValueStability::Volatile;
                        assert(cs[w] == pre_cs[w]);
                    }
                    if any_stable {
                        let w = choose|k: int|
                            0 <= k < pre_cs.len() && (#[trigger] pre_cs[k]).1.meta.stability
                                == InputValueStability::Stable;
                        assert(cs[w] == pre_cs[w]);
                    }
                    assert(cs[pre_cs.len() as int] == item);
                }
                if entry.meta.stability == InputValueStability::Volatile {
                    any_volatile = true;
                }
                if entry.meta.stability == InputValueStability::Stable {
                    any_stable = true;
                }
                any_child = true;
            } else {
                assert(children_of(cur, prefix@) =~= pre_cs);
            }
            i = i + 1;
        }
        assert(es.subrange(0, es.len() as int) =~= es);
        if !any_child {
            return match find_key(&self.entries, root) {
                Ok(k) => Some(self.entries[k].1.copy()),
                Err(_) => None,
            };
        }
        let stability = if any_volatile {
            InputValueStability::Volatile
        } else if any_stable {
            InputValueStability::Stable
        } else {
            InputValueStability::Unknown
        };
        proof {
            lemma_object_view(object);
        }
        Some(
            InputStoreEntry {
                value: JsonValue::Object(object),
                meta: InputValueMeta {
                    source: to_owned_string("derived"),
                    source_priority: priority,
                    provenance: Some(concat("input_store.projected.", root)),
                    confidence: None,
                    layer: InputValueLayer::Derived,
                    stability,
                    observed_at_ms: observed,
                },
            },
        )
    }
}


proof fn lemma_lookup_same(a: Seq<(String, InputStoreEntry)>, b: Seq<(String, InputStoreEntry)>, k: Seq<char>)
    requires
        a.len() == b.len(),
        forall|j: int| 0 <= j < a.len() ==> (#[trigger] a[j]).0@ == b[j].0@ && a[j].1@ == b[j].1@,
    ensures
        (lookup(a, k) is Some) == (lookup(b, k) is Some),
        lookup(a, k) is Some ==> lookup(a, k).unwrap()@ == lookup(b, k).unwrap()@,
    decreases a.len(),
{
    if a.len() > 0 {
        let a1 = a.drop_first();
        let b1 = b.drop_first();
        assert forall|j: int| 0 <= j < a1.len() implies (#[trigger] a1[j]).0@ == b1[j].0@ && a1[j].1@ == b1[j].1@ by {
            assert(a1[j] == a[j + 1]);
            assert(b1[j] == b[j + 1]);
        }
        assert(a[0].0@ == b[0].0@);
        lemma_lookup_same(a1, b1, k);
    }
}

proof fn lemma_lookup_some_index(es: Seq<(String, InputStoreEntry)>, k: Seq<char>)
    requires
        lookup(es, k) is Some,
    ensures
        exists|i: int| 0 <= i < es.len() && (#[trigger] es[i]).0@ == k,
    decreases es.len(),
{
    if es[0].0@ != k {
        lemma_lookup_some_index(es.drop_first(), k);
        let i = choose|i: int| 0 <= i < es.drop_first().len() && (#[trigger] es.drop_first()[i]).0@ == k;
        assert(es[i + 1] == es.drop_first()[i]);
    }
}

/// `ks` lists the set `d` in increasing order.
pub open spec fn lists_in_order(ks: Seq<Seq<char>>, d: Set<Seq<char>>) -> bool {
    &&& forall|i: int, j: int| 0 <= i < j < ks.len() ==> seq_lt(#[trigger] ks[i], #[trigger] ks[j])
    &&& forall|i: int| 0 <= i < ks.len() ==> d.contains(#[trigger] ks[i])
    &&& forall|k: Seq<char>| #[trigger] d.contains(k) ==> exists|i: int| 0 <= i < ks.len() && ks[i] == k
}

/// The entry a key reads in the projection: the stored one, else the one
/// its children stand for.
pub open spec fn get_projected_spec(es: Seq<(String, InputStoreEntry)>, key: Seq<char>) -> Option<EntryView> {
    match slot_key_spec(key) {
        None => None,
        Some(c) => match lookup(es, c) {
            Some(e) => Some(e@),
            None => projected_entry_spec(es, c),
        },
    }
}

pub open spec fn opt_entry_view(o: Option<InputStoreEntry>) -> Option<EntryView> {
    match o {
        Some(e) => Some(e@),
        None => None,
    }
}

impl InputStore {
    /// The entries with each asset root replaced by what it stands for.
    pub fn projected_entries(&self) -> (r: Vec<(String, InputStoreEntry)>)
        requires
            self.wf(),
        ensures
            keys_sorted(r@),
            model_of(r@) == projected_model(self.entries_spec()),
    {
        let ghost es = self.entries@;
        let mut out: Vec<(String, InputStoreEntry)> = Vec::new();
        let mut keys: Vec<String> = Vec::new();
        let mut i: usize = 0;
        while i < self.entries.len()
            invariant
                i <= es.len(),
                es == self.entries@,
                out@.len() == i,
                keys@.len() == i,
                forall|j: int| 0 <= j < i ==> (#[trigger] out@[j]).0@ == es[j].0@ && out@[j].1@ == es[j].1@,
                forall|j: int| 0 <= j < i ==> (#[trigger] keys@[j])@ == es[j].0@,
            decreases self.entries.len() - i,
        {
            out.push((to_owned_string(self.entries[i].0.as_str()), self.entries[i].1.copy()));
            keys.push(to_owned_string(self.entries[i].0.as_str()));
            i = i + 1;
        }
        proof {
            assert forall|k: Seq<char>| true implies (lookup(es, k) is Some) == (lookup(out@, k) is Some) && (lookup(
                es,
                k,
            ) is Some ==> lookup(es, k).unwrap()@ == lookup(out@, k).unwrap()@) by {
                lemma_lookup_same(es, out@, k);
            }
            assert(model_of(out@) =~= model_of(es));
            assert(keys_sorted(out@)) by {
                assert forall|a: int, b: int| 0 <= a < b < out@.len() implies seq_lt(
                    #[trigger] out@[a].0@,
                    #[trigger] out@[b].0@,
                ) by {
                    assert(out@[a].0@ == es[a].0@);
                    assert(out@[b].0@ == es[b].0@);
                }
            }
            assert(has_token_root(es) == exists|j: int| 0 <= j < keys@.len() && under_token_root(#[trigger] keys@[j]@))
                by {
                if has_token_root(es) {
                    let j = choose|j: int| 0 <= j < es.len() && under_token_root((#[trigger] es[j]).0@);
                    assert(keys@[j]@ == es[j].0@);
                }
                if exists|j: int| 0 <= j < keys@.len() && under_token_root(#[trigger] keys@[j]@) {
                    let j = choose|j: int| 0 <= j < keys@.len() && under_token_root(#[trigger] keys@[j]@);
                    assert(keys@[j]@ == es[j].0@);
                }
            }
        }
        let roots = derived_asset_roots(&keys);
        if roots.len() > 0 {
            let root = roots[0].as_str();
            match self.build_projected_asset_entry(root) {
                Some(entry) => {
                    let ghost before = out@;
                    let ghost ev = entry@;
                    put(&mut out, to_owned_string(root), entry);
                    proof {
                        assert forall|k: Seq<char>| k != "token"@ implies lookup(out@, k) == lookup(before, k) by {}
                        assert(model_of(out@) =~= model_of(before).insert("token"@, ev));
                    }
                },
                None => {},
            }
        }
        out
    }

    /// The entry `key` reads in the projection.
    pub fn get_projected(&self, key: &str) -> (r: Option<InputStoreEntry>)
        requires
            self.wf(),
        ensures
            opt_entry_view(r) == get_projected_spec(self.entries_spec(), key@),
    {
        let canonical = match InputRef::new(key) {
            Some(r) => to_owned_string(r.as_str()),
            None => {
                return None;
            },
        };
        match find_key(&self.entries, canonical.as_str()) {
            Ok(i) => Some(self.entries[i].1.copy()),
            Err(_) => self.build_projected_asset_entry(canonical.as_str()),
        }
    }

    /// The keys of the projection, in order.
    pub fn list_projected_ref_strings(&self) -> (r: Vec<String>)
        requires
            self.wf(),
        ensures
            lists_in_order(r@.map_values(|s: String| s@), projected_model(self.entries_spec()).dom()),
    {
        let p = self.projected_entries();
        let mut out: Vec<String> = Vec::new();
        let mut i: usize = 0;
        while i < p.len()
            invariant
                i <= p@.len(),
                out@.len() == i,
                forall|j: int| 0 <= j < i ==> (#[trigger] out@[j])@ == p@[j].0@,
            decreases p.len() - i,
        {
            out.push(to_owned_string(p[i].0.as_str()));
            i = i + 1;
        }
        proof {
            let ks = out@.map_values(|s: String| s@);
            let d = projected_model(self.entries_spec()).dom();
            assert forall|a: int| 0 <= a < ks.len() implies d.contains(#[trigger] ks[a]) by {
                crate::keyed::lemma_lookup_sorted_at(p@, a);
            }
            assert forall|k: Seq<char>| #[trigger] d.contains(k) implies exists|a: int| 0 <= a < ks.len() && ks[a] == k by {
                lemma_lookup_some_index(p@, k);
                let a = choose|a: int| 0 <= a < p@.len() && (#[trigger] p@[a]).0@ == k;
                assert(ks[a] == k);
            }
            assert forall|a: int, b: int| 0 <= a < b < ks.len() implies seq_lt(#[trigger] ks[a], #[trigger] ks[b]) by {
                assert(ks[a] == p@[a].0@);
                assert(ks[b] == p@[b].0@);
            }
        }
        out
    }
}


impl InputValueLayer {
    pub open spec fn name_spec(self) -> Seq<char> {
        match self {
            InputValueLayer::Seed => "seed"@,
            InputValueLayer::Observed => "observed"@,
            InputValueLayer::Derived => "derived"@,
            InputValueLayer::Unknown => "unknown"@,
        }
    }

    pub fn as_str(self) -> (r: &'static str)
        ensures
            r@ == self.name_spec(),
    {
        match self {
            InputValueLayer::Seed => "seed",
            InputValueLayer::Observed => "observed",
            InputValueLayer::Derived => "derived",
            InputValueLayer::Unknown => "unknown",
        }
    }
}

impl InputValueStability {
    pub open spec fn name_spec(self) -> Seq<char> {
        match self {
            InputValueStability::Stable => "stable"@,
            InputValueStability::Volatile => "volatile"@,
            InputValueStability::Unknown => "unknown"@,
        }
    }

    pub fn as_str(self) -> (r: &'static str)
        ensures
            r@ == self.name_spec(),
    {
        match self {
            InputValueStability::Stable => "stable",
            InputValueStability::Volatile => "volatile",
            InputValueStability::Unknown => "unknown",
        }
    }
}

/// The metadata as written in the planning projection.
pub open spec fn meta_json(m: MetaView) -> JsonView {
    let e0 = obj_insert(Seq::empty(), "layer"@, JsonView::Str(m.layer.name_spec()));
    let e1 = obj_insert(e0, "source"@, JsonView::Str(m.source));
    let e2 = obj_insert(e1, "source_priority"@, JsonView::Number(NumberView::PosInt(m.source_priority as u64)));
    let e3 = obj_insert(
        e2,
        "provenance"@,
        match m.provenance {
            Some(p) => JsonView::Str(p),
            None => JsonView::Null,
        },
    );
    let e4 = obj_insert(e3, "stability"@, JsonView::Str(m.stability.name_spec()));
    let e5 = obj_insert(
        e4,
        "observed_at_ms"@,
        match m.observed_at_ms {
            Some(t) => JsonView::Number(NumberView::PosInt(t)),
            None => JsonView::Null,
        },
    );
    JsonView::Object(
        obj_insert(
            e5,
            "confidence"@,
            match m.confidence {
                Some(c) => JsonView::Number(c),
                None => JsonView::Null,
            },
        ),
    )
}

fn meta_json_exec(m: &InputValueMeta) -> (r: JsonValue)
    ensures
        r@ == meta_json(m@),
{
    let mut o = JsonValue::empty_object();
    o.insert(to_owned_string("layer"), JsonValue::String(to_owned_string(m.layer.as_str())));
    o.insert(to_owned_string("source"), JsonValue::String(to_owned_string(m.source.as_str())));
    o.insert(to_owned_string("source_priority"), JsonValue::Number(JsonNumber::PosInt(m.source_priority as u64)));
    o.insert(
        to_owned_string("provenance"),
        match &m.provenance {
            Some(p) => JsonValue::String(to_owned_string(p.as_str())),
            None => JsonValue::Null,
        },
    );
    o.insert(to_owned_string("stability"), JsonValue::String(to_owned_string(m.stability.as_str())));
    o.insert(
        to_owned_string("observed_at_ms"),
        match m.observed_at_ms {
            Some(t) => JsonValue::Number(JsonNumber::PosInt(t)),
            None => JsonValue::Null,
        },
    );
    o.insert(
        to_owned_string("confidence"),
        match &m.confidence {
            Some(c) => JsonValue::Number(c.clone_number()),
            None => JsonValue::Null,
        },
    );
    o
}

/// An object, in key order, whose keys are those of `m` and whose value
/// under each is `f` of its entry.
pub open spec fn object_of(obj: Seq<(Seq<char>, JsonView)>, m: Map<Seq<char>, EntryView>, f: spec_fn(EntryView) -> JsonView) -> bool {
    &&& obj_sorted(obj)
    &&& forall|k: Seq<char>|
        #[trigger] obj_get(obj, k) == if m.dom().contains(k) {
            Some(f(m[k]))
        } else {
            None
        }
}

/// The planning projection: `facts` (the values) and `meta` (their
/// metadata), each keyed as the projection is.
pub open spec fn planning_value_spec(v: JsonView, pm: Map<Seq<char>, EntryView>) -> bool {
    match v {
        JsonView::Object(top) => top.len() == 2 && top[0].0 == "facts"@ && top[1].0 == "meta"@ && match (
            top[0].1,
            top[1].1,
        ) {
            (JsonView::Object(f), JsonView::Object(m)) => object_of(f, pm, |e: EntryView| e.value) && object_of(
                m,
                pm,
                |e: EntryView| meta_json(e.meta),
            ),
            _ => false,
        },
        _ => false,
    }
}

impl InputStore {
    /// The projection as the planner reads it.
    pub fn to_projected_planning_value(&self) -> (r: JsonValue)
        requires
            self.wf(),
        ensures
            planning_value_spec(r@, projected_model(self.entries_spec())),
    {
        let p = self.projected_entries();
        let ghost ps = p@;
        let mut facts: Vec<(String, JsonValue)> = Vec::new();
        let mut meta: Vec<(String, JsonValue)> = Vec::new();
        let mut i: usize = 0;
        while i < p.len()
            invariant
                i <= ps.len(),
                ps == p@,
                keys_sorted(ps),
                obj_sorted(entries_view(facts@)),
                obj_sorted(entries_view(meta@)),
                forall|k: Seq<char>|
                    #[trigger] obj_get(entries_view(facts@), k) == match lookup(ps.subrange(0, i as int), k) {
                        Some(e) => Some(e@.value),
                        None => None,
                    },
                forall|k: Seq<char>|
                    #[trigger] obj_get(entries_view(meta@), k) == match lookup(ps.subrange(0, i as int), k) {
                        Some(e) => Some(meta_json(e@.meta)),
                        None => None,
                    },
            decreases p.len() - i,
        {
            let ghost pre = ps.subrange(0, i as int);
            let ghost x = ps[i as int];
            assert(ps.subrange(0, i + 1) =~= pre.push(x));
            proof {
                assert forall|j: int| 0 <= j < pre.len() implies #[trigger] pre[j].0@ != x.0@ by {
                    assert(pre[j] == ps[j]);
                    crate::text::lemma_seq_lt_irreflexive(x.0@);
                }
                crate::keyed::lemma_lookup_absent(pre, x.0@);
            }
            let ghost fb = entries_view(facts@);
            let ghost mb = entries_view(meta@);
            insert_entry(&mut facts, to_owned_string(p[i].0.as_str()), p[i].1.value.clone_value());
            insert_entry(&mut meta, to_owned_string(p[i].0.as_str()), meta_json_exec(&p[i].1.meta));
            proof {
                crate::json::lemma_obj_insert_sorted(fb, x.0@, x.1@.value);
                crate::json::lemma_obj_insert_sorted(mb, x.0@, meta_json(x.1@.meta));
                assert forall|k: Seq<char>| #[trigger] obj_get(entries_view(facts@), k) == match lookup(pre.push(x), k) {
                    Some(e) => Some(e@.value),
                    None => None,
                } by {
                    crate::json::lemma_obj_get_insert(fb, x.0@, x.1@.value, k);
                    crate::keyed::lemma_lookup_push(pre, x, k);
                }
                assert forall|k: Seq<char>| #[trigger] obj_get(entries_view(meta@), k) == match lookup(pre.push(x), k) {
                    Some(e) => Some(meta_json(e@.meta)),
                    None => None,
                } by {
                    crate::json::lemma_obj_get_insert(mb, x.0@, meta_json(x.1@.meta), k);
                    crate::keyed::lemma_lookup_push(pre, x, k);
                }
            }
            i = i + 1;
        }
        assert(ps.subrange(0, ps.len() as int) =~= ps);
        proof {
            lemma_object_view(facts);
            lemma_object_view(meta);
        }
        let ghost fv = entries_view(facts@);
        let ghost mv = entries_view(meta@);
        let mut top: Vec<(String, JsonValue)> = Vec::new();
        top.push((to_owned_string("facts"), JsonValue::Object(facts)));
        top.push((to_owned_string("meta"), JsonValue::Object(meta)));
        proof {
            lemma_object_view(top);
            let pm = projected_model(self.entries_spec());
            assert(pm == model_of(ps));
            assert forall|k: Seq<char>| #[trigger] obj_get(fv, k) == if pm.dom().contains(k) {
                Some((|e: EntryView| e.value)(pm[k]))
            } else {
                None
            } by {}
            assert forall|k: Seq<char>| #[trigger] obj_get(mv, k) == if pm.dom().contains(k) {
                Some((|e: EntryView| meta_json(e.meta))(pm[k]))
            } else {
                None
            } by {}
        }
        JsonValue::Object(top)
    }
}


/// A volatile query observation of the signal's quantity.
pub open spec fn signal_entry(k: Seq<char>, e: EntryView, signal: VolatileInputSignal) -> bool {
    e.meta.stability == InputValueStability::Volatile && is_query_source_spec(e.meta.source) && input_signal_matches(
        signal,
        k,
    )
}

/// An entry invalidated by one of the signals: a timed volatile query
/// observation of one of their quantities.
pub open spec fn invalidated_by(k: Seq<char>, e: EntryView, signals: Seq<VolatileInputSignal>) -> bool {
    e.meta.stability == InputValueStability::Volatile && is_query_source_spec(e.meta.source)
        && e.meta.observed_at_ms is Some && exists|j: int|
        0 <= j < signals.len() && input_signal_matches(#[trigger] signals[j], k)
}

/// The entry with its observation time cleared.
pub open spec fn without_time(e: EntryView) -> EntryView {
    EntryView { value: e.value, meta: MetaView { observed_at_ms: None, ..e.meta } }
}

/// The keys of the entries the signals invalidate, in order.
pub open spec fn invalidated_keys(es: Seq<(String, InputStoreEntry)>, signals: Seq<VolatileInputSignal>) -> Seq<Seq<char>>
    decreases es.len(),
{
    if es.len() == 0 {
        Seq::empty()
    } else {
        invalidated_keys(es.drop_last(), signals) + if invalidated_by(es.last().0@, es.last().1@, signals) {
            seq![es.last().0@]
        } else {
            Seq::<Seq<char>>::empty()
        }
    }
}

/// How the facts of a planning projection load: each fact, in key order,
/// is upserted with its parsed metadata (the default where it has none),
/// except facts whose metadata says they were derived.
pub open spec fn load_facts(
    m: Map<Seq<char>, EntryView>,
    fs: Seq<(Seq<char>, JsonView)>,
    parsed: Seq<(String, InputValueMeta)>,
    now: u64,
) -> Map<Seq<char>, EntryView>
    decreases fs.len(),
{
    if fs.len() == 0 {
        m
    } else {
        let m1 = load_facts(m, fs.drop_last(), parsed, now);
        let meta = match lookup(parsed, fs.last().0) {
            Some(x) => x@,
            None => default_meta(),
        };
        if meta.layer == InputValueLayer::Derived {
            m1
        } else {
            semantic_put(m1, fs.last().0, fs.last().1, meta, now).0
        }
    }
}

/// The store a planning projection loads into; none when its `facts` is
/// not an object.
pub open spec fn loaded_from(value: JsonView, parsed: Seq<(String, InputValueMeta)>, now: u64) -> Option<
    Map<Seq<char>, EntryView>,
> {
    match crate::agent::candidates::field(value, "facts"@) {
        Some(JsonView::Object(fs)) => Some(load_facts(Map::empty(), fs, parsed, now)),
        _ => None,
    }
}

impl InputStore {
    /// The canonical stored keys, in order.
    pub fn list_refs(&self) -> (r: Vec<InputRef>)
        ensures
            r@.map_values(|x: InputRef| x.canonical_spec()) == valid_keys(key_seq(self.entries_spec())),
    {
        let ghost ks = key_seq(self.entries@);
        let mut out: Vec<InputRef> = Vec::new();
        let mut i: usize = 0;
        assert(out@.map_values(|x: InputRef| x.canonical_spec()) =~= valid_keys(ks.subrange(0, 0)));
        while i < self.entries.len()
            invariant
                i <= self.entries@.len(),
                ks == key_seq(self.entries@),
                out@.map_values(|x: InputRef| x.canonical_spec()) == valid_keys(ks.subrange(0, i as int)),
            decreases self.entries.len() - i,
        {
            let ghost cur = ks.subrange(0, i + 1);
            assert(cur.drop_last() =~= ks.subrange(0, i as int));
            assert(cur.last() == self.entries@[i as int].0@);
            let ghost prev = out@.map_values(|x: InputRef| x.canonical_spec());
            match InputRef::from_canonical(to_owned_string(self.entries[i].0.as_str())) {
                Some(r) => {
                    let ghost c = r.canonical_spec();
                    out.push(r);
                    assert(out@.map_values(|x: InputRef| x.canonical_spec()) =~= prev + seq![c]);
                },
                None => {
                    assert(out@.map_values(|x: InputRef| x.canonical_spec()) =~= prev + Seq::<Seq<char>>::empty());
                },
            }
            i = i + 1;
        }
        assert(ks.subrange(0, ks.len() as int) =~= ks);
        out
    }

    pub fn list_semantic_refs(&self) -> (r: Vec<InputRef>)
        ensures
            r@.map_values(|x: InputRef| x.canonical_spec()) == valid_keys(key_seq(self.entries_spec())),
    {
        self.list_refs()
    }

    pub fn list_semantic_ref_strings(&self) -> (r: Vec<String>)
        ensures
            r@.map_values(|s: String| s@) == valid_keys(key_seq(self.entries_spec())),
    {
        let refs = self.list_semantic_refs();
        let mut out: Vec<String> = Vec::new();
        let mut i: usize = 0;
        while i < refs.len()
            invariant
                i <= refs@.len(),
                out@.map_values(|s: String| s@) == refs@.map_values(|x: InputRef| x.canonical_spec()).subrange(
                    0,
                    i as int,
                ),
            decreases refs.len() - i,
        {
            let ghost prev = out@.map_values(|s: String| s@);
            out.push(to_owned_string(refs[i].as_str()));
            assert(out@.map_values(|s: String| s@) =~= prev.push(refs@[i as int].canonical_spec()));
            assert(out@.map_values(|s: String| s@) =~= refs@.map_values(|x: InputRef| x.canonical_spec()).subrange(
                0,
                i + 1,
            ));
            i = i + 1;
        }
        assert(refs@.map_values(|x: InputRef| x.canonical_spec()).subrange(0, refs@.len() as int)
            =~= refs@.map_values(|x: InputRef| x.canonical_spec()));
        out
    }

    pub fn list_ref_strings(&self) -> (r: Vec<String>)
        ensures
            r@.map_values(|s: String| s@) == valid_keys(key_seq(self.entries_spec())),
    {
        self.list_semantic_ref_strings()
    }

    /// Some volatile query observation of the signal's quantity is at most
    /// `max_age_ms` old at `now_ms`.
    pub fn has_fresh_volatile_signal(&self, signal: VolatileInputSignal, max_age_ms: u64, now_ms: u64) -> (r: bool)
        ensures
            r == exists|i: int|
                0 <= i < self.entries_spec().len() && signal_entry(
                    (#[trigger] self.entries_spec()[i]).0@,
                    self.entries_spec()[i].1@,
                    signal,
                ) && match self.entries_spec()[i].1@.meta.observed_at_ms {
                    Some(t) => (if now_ms >= t {
                        now_ms - t
                    } else {
                        0
                    }) <= max_age_ms,
                    None => false,
                },
    {
        let ghost es = self.entries@;
        let mut i: usize = 0;
        while i < self.entries.len()
            invariant
                i <= es.len(),
                es == self.entries@,
                forall|j: int|
                    0 <= j < i ==> !(signal_entry((#[trigger] es[j]).0@, es[j].1@, signal) && match es[j].1@.meta.observed_at_ms {
                        Some(t) => (if now_ms >= t {
                            now_ms - t
                        } else {
                            0
                        }) <= max_age_ms,
                        None => false,
                    }),
            decreases self.entries.len() - i,
        {
            let e = &self.entries[i].1;
            if e.meta.stability == InputValueStability::Volatile && is_query_observation_source(e.meta.source.as_str())
                && volatile_signal_matches_key(signal, self.entries[i].0.as_str()) {
                match e.meta.observed_at_ms {
                    Some(t) => {
                        let age = if now_ms >= t {
                            now_ms - t
                        } else {
                            0
                        };
                        if age <= max_age_ms {
                            return true;
                        }
                    },
                    None => {},
                }
            }
            i = i + 1;
        }
        false
    }

    /// The latest observation time of a volatile query observation of the
    /// signal's quantity.
    pub fn newest_volatile_signal_observation(&self, signal: VolatileInputSignal) -> (r: Option<
        VolatileSignalObservation,
    >)
        ensures
            match r {
                Some(o) => (exists|i: int|
                    0 <= i < self.entries_spec().len() && signal_entry(
                        (#[trigger] self.entries_spec()[i]).0@,
                        self.entries_spec()[i].1@,
                        signal,
                    ) && self.entries_spec()[i].1@.meta.observed_at_ms == Some(o.observed_at_ms)) && (forall|i: int|
                    0 <= i < self.entries_spec().len() && signal_entry(
                        (#[trigger] self.entries_spec()[i]).0@,
                        self.entries_spec()[i].1@,
                        signal,
                    ) ==> match self.entries_spec()[i].1@.meta.observed_at_ms {
                        Some(t) => t <= o.observed_at_ms,
                        None => true,
                    }),
                None => forall|i: int|
                    0 <= i < self.entries_spec().len() && signal_entry(
                        (#[trigger] self.entries_spec()[i]).0@,
                        self.entries_spec()[i].1@,
                        signal,
                    ) ==> self.entries_spec()[i].1@.meta.observed_at_ms is None,
            },
    {
        let ghost es = self.entries@;
        let mut best: Option<u64> = None;
        let mut i: usize = 0;
        while i < self.entries.len()
            invariant
                i <= es.len(),
                es == self.entries@,
                match best {
                    Some(b) => (exists|j: int|
                        0 <= j < i && signal_entry((#[trigger] es[j]).0@, es[j].1@, signal)
                            && es[j].1@.meta.observed_at_ms == Some(b)) && (forall|j: int|
                        0 <= j < i && signal_entry((#[trigger] es[j]).0@, es[j].1@, signal) ==> match es[j].1@.meta.observed_at_ms {
                            Some(t) => t <= b,
                            None => true,
                        }),
                    None => forall|j: int|
                        0 <= j < i && signal_entry((#[trigger] es[j]).0@, es[j].1@, signal)
                            ==> es[j].1@.meta.observed_at_ms is None,
                },
            decreases self.entries.len() - i,
        {
            let e = &self.entries[i].1;
            if e.meta.stability == InputValueStability::Volatile && is_query_observation_source(e.meta.source.as_str())
                && volatile_signal_matches_key(signal, self.entries[i].0.as_str()) {
                match e.meta.observed_at_ms {
                    Some(t) => {
                        match best {
                            Some(b) => {
                                if t >= b {
                                    best = Some(t);
                                }
                            },
                            None => {
                                best = Some(t);
                            },
                        }
                    },
                    None => {},
                }
            }
            i = i + 1;
        }
        match best {
            Some(b) => Some(VolatileSignalObservation { observed_at_ms: b }),
            None => None,
        }
    }

    /// Clears the observation time of every entry the signals invalidate,
    /// and returns their keys in order.
    pub fn invalidate_volatile_signals(&mut self, signals: &Vec<VolatileInputSignal>) -> (r: Vec<String>)
        requires
            old(self).wf(),
        ensures
            final(self).wf(),
            final(self).entries_spec().len() == old(self).entries_spec().len(),
            forall|i: int|
                0 <= i < old(self).entries_spec().len() ==> (#[trigger] final(self).entries_spec()[i]).0@ == old(
                    self,
                ).entries_spec()[i].0@ && final(self).entries_spec()[i].1@ == if invalidated_by(
                    old(self).entries_spec()[i].0@,
                    old(self).entries_spec()[i].1@,
                    signals@,
                ) {
                    without_time(old(self).entries_spec()[i].1@)
                } else {
                    old(self).entries_spec()[i].1@
                },
            r@.map_values(|s: String| s@) == invalidated_keys(old(self).entries_spec(), signals@),
    {
        let ghost es = self.entries@;
        let mut out: Vec<String> = Vec::new();
        if signals.len() == 0 {
            proof {
                assert forall|k: int| 0 <= k <= es.len() implies invalidated_keys(es.subrange(0, k), signals@)
                    =~= Seq::<Seq<char>>::empty() by {
                    lemma_no_signals(es.subrange(0, k), signals@);
                }
                assert(es.subrange(0, es.len() as int) =~= es);
                assert forall|i: int| 0 <= i < es.len() implies !invalidated_by(
                    #[trigger] es[i].0@,
                    es[i].1@,
                    signals@,
                ) by {}
            }
            assert(out@.map_values(|s: String| s@) =~= Seq::<Seq<char>>::empty());
            return out;
        }
        let mut i: usize = 0;
        assert(out@.map_values(|s: String| s@) =~= invalidated_keys(es.subrange(0, 0), signals@));
        while i < self.entries.len()
            invariant
                i <= es.len(),
                self.entries@.len() == es.len(),
                keys_sorted(es),
                forall|j: int| 0 <= j < es.len() ==> (#[trigger] self.entries@[j]).0@ == es[j].0@,
                forall|j: int|
                    0 <= j < i ==> (#[trigger] self.entries@[j]).1@ == if invalidated_by(es[j].0@, es[j].1@, signals@) {
                        without_time(es[j].1@)
                    } else {
                        es[j].1@
                    },
                forall|j: int| i <= j < es.len() ==> (#[trigger] self.entries@[j]).1@ == es[j].1@,
                out@.map_values(|s: String| s@) == invalidated_keys(es.subrange(0, i as int), signals@),
            decreases es.len() - i,
        {
            let ghost cur = es.subrange(0, i + 1);
            assert(cur.drop_last() =~= es.subrange(0, i as int));
            assert(cur.last() == es[i as int]);
            let ghost prev = out@.map_values(|s: String| s@);
            let key = self.entries[i].0.as_str();
            let e = &self.entries[i].1;
            let mut hit = false;
            if e.meta.stability == InputValueStability::Volatile && is_query_observation_source(e.meta.source.as_str())
                && e.meta.observed_at_ms.is_some() {
                let mut j: usize = 0;
                while j < signals.len()
                    invariant
                        j <= signals@.len(),
                        hit == exists|q: int| 0 <= q < j && input_signal_matches(#[trigger] signals@[q], key@),
                    decreases signals.len() - j,
                {
                    if volatile_signal_matches_key(signals[j], key) {
                        hit = true;
                    }
                    j = j + 1;
                }
            }
            assert(hit == invalidated_by(es[i as int].0@, es[i as int].1@, signals@));
            if hit {
                let k = to_owned_string(key);
                let mut updated = self.entries[i].1.copy();
                updated.meta.observed_at_ms = None;
                out.push(to_owned_string(k.as_str()));
                self.entries.set(i, (k, updated));
                assert(out@.map_values(|s: String| s@) =~= prev + seq![es[i as int].0@]);
            } else {
                assert(out@.map_values(|s: String| s@) =~= prev + Seq::<Seq<char>>::empty());
            }
            i = i + 1;
        }
        assert(es.subrange(0, es.len() as int) =~= es);
        assert(keys_sorted(self.entries@)) by {
            assert forall|a: int, b: int| 0 <= a < b < self.entries@.len() implies seq_lt(
                #[trigger] self.entries@[a].0@,
                #[trigger] self.entries@[b].0@,
            ) by {
                assert(self.entries@[a].0@ == es[a].0@);
                assert(self.entries@[b].0@ == es[b].0@);
            }
        }
        out
    }

    /// Whether a value is stored under the canonical slot name of `key`.
    pub fn has(&self, key: &str) -> (r: bool)
        requires
            self.wf(),
        ensures
            r == match slot_key_spec(key@) {
                Some(c) => self.model().dom().contains(c),
                None => false,
            },
    {
        self.get(key).is_some()
    }

    /// The stored values written as runtime inputs, in key order.
    pub fn to_runtime_projection(&self) -> (r: JsonValue)
        ensures
            r@ == runtime_projection_spec(JsonView::Object(Seq::empty()), self.entries_spec()),
    {
        let mut runtime = JsonValue::empty_object();
        let ghost es = self.entries_spec();
        let mut i: usize = 0;
        assert(es.subrange(0, 0) =~= Seq::<(String, InputStoreEntry)>::empty());
        while i < self.entries.len()
            invariant
                i <= es.len(),
                es == self.entries_spec(),
                runtime@ == runtime_projection_spec(JsonView::Object(Seq::empty()), es.subrange(0, i as int)),
            decreases self.entries.len() - i,
        {
            let ghost pre = es.subrange(0, i + 1);
            assert(pre.drop_last() =~= es.subrange(0, i as int));
            assert(pre.last() == es[i as int]);
            let v = self.entries[i].1.value.clone_value();
            set_runtime_input_value(&mut runtime, self.entries[i].0.as_str(), v);
            i = i + 1;
        }
        assert(es.subrange(0, es.len() as int) =~= es);
        runtime
    }

    /// Upserts every entry of `other`, in key order, each at a time read
    /// from the clock (`ts`); no stored key is lost and none ends with a
    /// lower source priority.
    pub fn merge(&mut self, other: &InputStore)
        requires
            old(self).wf(),
        ensures
            final(self).wf(),
            exists|ts: Seq<u64>|
                ts.len() == other.entries_spec().len() && final(self).model() == #[trigger] merged_model(
                    old(self).model(),
                    other.entries_spec(),
                    ts,
                ),
            forall|k: Seq<char>|
                #[trigger] old(self).model().dom().contains(k) ==> final(self).model().dom().contains(k)
                    && final(self).model()[k].meta.source_priority >= old(self).model()[k].meta.source_priority,
    {
        let ghost es = other.entries_spec();
        let ghost mut ts: Seq<u64> = Seq::empty();
        let mut i: usize = 0;
        assert(es.subrange(0, 0) =~= Seq::<(String, InputStoreEntry)>::empty());
        while i < other.entries.len()
            invariant
                self.wf(),
                i <= es.len(),
                es == other.entries_spec(),
                ts.len() == i,
                self.model() == merged_model(old(self).model(), es.subrange(0, i as int), ts),
                forall|k: Seq<char>|
                    #[trigger] old(self).model().dom().contains(k) ==> self.model().dom().contains(k)
                        && self.model()[k].meta.source_priority >= old(self).model()[k].meta.source_priority,
            decreases other.entries.len() - i,
        {
            let ghost before = self.model();
            let key = other.entries[i].0.as_str();
            let entry = &other.entries[i].1;
            let _ = self.upsert_semantic(key, &entry.value, &entry.meta);
            proof {
                let t = choose|t: u64|
                    self.model() == #[trigger] semantic_put(before, key@, entry.value@, entry.meta@, t).0 && true;
                assert forall|k: Seq<char>| #[trigger] old(self).model().dom().contains(k) implies self.model().dom().contains(k)
                    && self.model()[k].meta.source_priority >= old(self).model()[k].meta.source_priority by {
                    lemma_upsert_never_lowers_priority(before, key@, entry.value@, entry.meta@, t, k);
                }
                let pre = es.subrange(0, i + 1);
                assert(pre.drop_last() =~= es.subrange(0, i as int));
                assert(pre.last() == es[i as int]);
                let ts2 = ts.push(t);
                assert(ts2.drop_last() =~= ts);
                ts = ts2;
            }
            i = i + 1;
        }
        assert(es.subrange(0, es.len() as int) =~= es);
    }

    /// A store rebuilt from a planning projection, with `now_ms` as the time
    /// of unstamped volatile observations: each fact is upserted with its
    /// parsed metadata (`parsed_meta`, by fact key; the default where a fact
    /// has none), except derived ones.  None when `facts` is not an object.
    pub fn from_projected_planning_value_at(value: &JsonValue, parsed_meta: &Vec<(String, InputValueMeta)>, now_ms: u64) -> (r:
        Option<InputStore>)
        ensures
            match r {
                Some(st) => st.wf() && loaded_from(value@, parsed_meta@, now_ms) == Some(st.model()),
                None => loaded_from(value@, parsed_meta@, now_ms) is None,
            },
    {
        let facts = match value.get("facts") {
            Some(JsonValue::Object(fs)) => fs,
            _ => {
                return None;
            },
        };
        proof {
            lemma_object_view(*facts);
        }
        let ghost fs = entries_view(facts@);
        let mut out = InputStore::new();
        let mut i: usize = 0;
        assert(fs.subrange(0, 0) =~= Seq::<(Seq<char>, JsonView)>::empty());
        while i < facts.len()
            invariant
                i <= fs.len(),
                fs == entries_view(facts@),
                out.wf(),
                out.model() == load_facts(Map::empty(), fs.subrange(0, i as int), parsed_meta@, now_ms),
            decreases facts.len() - i,
        {
            let ghost cur = fs.subrange(0, i + 1);
            assert(cur.drop_last() =~= fs.subrange(0, i as int));
            assert(cur.last() == (facts@[i as int].0@, facts@[i as int].1@));
            let key = facts[i].0.as_str();
            let meta = match find_key_loose(parsed_meta, key) {
                Some(m) => m.copy(),
                None => InputValueMeta::default(),
            };
            if meta.layer != InputValueLayer::Derived {
                let _ = out.upsert_semantic_at(key, &facts[i].1, &meta, now_ms);
            }
            i = i + 1;
        }
        assert(fs.subrange(0, fs.len() as int) =~= fs);
        Some(out)
    }

    /// As `from_projected_planning_value_at`, with the clock's time.
    pub fn from_projected_planning_value(value: &JsonValue, parsed_meta: &Vec<(String, InputValueMeta)>) -> (r: Option<
        InputStore,
    >)
        ensures
            match r {
                Some(st) => st.wf() && exists|t: u64| #[trigger] loaded_from(value@, parsed_meta@, t) == Some(st.model()),
                None => forall|t: u64| #[trigger] loaded_from(value@, parsed_meta@, t) is None,
            },
    {
        let now = current_time_ms();
        Self::from_projected_planning_value_at(value, parsed_meta, now)
    }
}

proof fn lemma_no_signals(es: Seq<(String, InputStoreEntry)>, signals: Seq<VolatileInputSignal>)
    requires
        signals.len() == 0,
    ensures
        invalidated_keys(es, signals) == Seq::<Seq<char>>::empty(),
    decreases es.len(),
{
    if es.len() > 0 {
        lemma_no_signals(es.drop_last(), signals);
        assert(invalidated_keys(es, signals) =~= Seq::<Seq<char>>::empty());
    }
}

/// The value of the first entry with key `key`, in a list in any order.
fn find_key_loose<'a, T>(es: &'a Vec<(String, T)>, key: &str) -> (r: Option<&'a T>)
    ensures
        match r {
            Some(x) => lookup(es@, key@) == Some(*x),
            None => lookup(es@, key@) is None,
        },
{
    let mut i: usize = 0;
    assert(es@.subrange(0, es@.len() as int) =~= es@);
    while i < es.len()
        invariant
            i <= es@.len(),
            lookup(es@, key@) == lookup(es@.subrange(i as int, es@.len() as int), key@),
        decreases es.len() - i,
    {
        let ghost rest = es@.subrange(i as int, es@.len() as int);
        assert(rest[0] == es@[i as int]);
        assert(rest.drop_first() =~= es@.subrange(i + 1, es@.len() as int));
        if str_eq(es[i].0.as_str(), key) {
            return Some(&es[i].1);
        }
        i = i + 1;
    }
    None
}

} // verus!
