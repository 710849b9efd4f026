//! The fact store of a planning run: facts keyed by name, each with the
//! layer and source it came from.  A fact is only replaced by one from a
//! source of higher priority (or of equal source priority and higher layer
//! priority), and a volatile query observation never overrides a fact the
//! intent stated.
use vstd::prelude::*;
use crate::json::{JsonNumber, JsonValue, JsonView, NumberView, obj_insert};
use crate::keyed::{find_key, key_seq, keys_sorted, lookup, put};
use crate::text::{contains, ends_with, str_contains, str_ends_with, str_to_lowercase,
    to_owned_string, trim, trim_str, unicode_lowercase};

verus! {

#[derive(Clone, Copy, PartialEq, Eq, Structural)]
pub enum FactLayer {
    Seed,
    Observed,
    Derived,
}

impl FactLayer {
    pub open spec fn priority_spec(self) -> u8 {
        match self {
            FactLayer::Seed => 10,
            FactLayer::Observed => 20,
            FactLayer::Derived => 15,
        }
    }

    pub fn priority(self) -> (r: u8)
        ensures
            r == self.priority_spec(),
    {
        match self {
            FactLayer::Seed => 10,
            FactLayer::Observed => 20,
            FactLayer::Derived => 15,
        }
    }

    pub open spec fn name_spec(self) -> Seq<char> {
        match self {
            FactLayer::Seed => "seed"@,
            FactLayer::Observed => "observed"@,
            FactLayer::Derived => "derived"@,
        }
    }

    pub fn as_str(self) -> (r: &'static str)
        ensures
            r@ == self.name_spec(),
    {
        match self {
            FactLayer::Seed => "seed",
            FactLayer::Observed => "observed",
            FactLayer::Derived => "derived",
        }
    }
}

#[derive(Clone, Copy, PartialEq, Eq, Structural)]
pub enum FactSource {
    UserInput,
    QueryObserved,
    ConfigDerived,
    RuntimeProvided,
    IntentInferred,
    DerivedComputation,
}

impl FactSource {
    pub open spec fn priority_spec(self) -> u8 {
        match self {
            FactSource::UserInput => 100,
            FactSource::QueryObserved => 90,
            FactSource::ConfigDerived => 80,
            FactSource::RuntimeProvided => 70,
            FactSource::DerivedComputation => 60,
            FactSource::IntentInferred => 50,
        }
    }

    pub fn priority(self) -> (r: u8)
        ensures
            r == self.priority_spec(),
    {
        match self {
            FactSource::UserInput => 100,
            FactSource::QueryObserved => 90,
            FactSource::ConfigDerived => 80,
            FactSource::RuntimeProvided => 70,
            FactSource::DerivedComputation => 60,
            FactSource::IntentInferred => 50,
        }
    }

    pub open spec fn name_spec(self) -> Seq<char> {
        match self {
            FactSource::UserInput => "user_input"@,
            FactSource::QueryObserved => "query_observed"@,
            FactSource::ConfigDerived => "config_derived"@,
            FactSource::RuntimeProvided => "runtime_provided"@,
            FactSource::IntentInferred => "intent_inferred"@,
            FactSource::DerivedComputation => "derived_computation"@,
        }
    }

    pub fn as_str(self) -> (r: &'static str)
        ensures
            r@ == self.name_spec(),
    {
        match self {
            FactSource::UserInput => "user_input",
            FactSource::QueryObserved => "query_observed",
            FactSource::ConfigDerived => "config_derived",
            FactSource::RuntimeProvided => "runtime_provided",
            FactSource::IntentInferred => "intent_inferred",
            FactSource::DerivedComputation => "derived_computation",
        }
    }
}

#[derive(Clone, Copy, PartialEq, Eq, Structural)]
pub enum FactStability {
    Stable,
    Volatile,
    Unknown,
}

impl Default for FactStability {
    fn default() -> (r: Self)
        ensures
            r == FactStability::Unknown,
    {
        FactStability::Unknown
    }
}

impl FactStability {
    pub open spec fn name_spec(self) -> Seq<char> {
        match self {
            FactStability::Stable => "stable"@,
            FactStability::Volatile => "volatile"@,
            FactStability::Unknown => "unknown"@,
        }
    }

    pub fn as_str(self) -> (r: &'static str)
        ensures
            r@ == self.name_spec(),
    {
        match self {
            FactStability::Stable => "stable",
            FactStability::Volatile => "volatile",
            FactStability::Unknown => "unknown",
        }
    }
}

#[derive(Clone, Copy, PartialEq, Eq, Structural)]
pub enum FactUpsertResult {
    Inserted,
    Replaced,
    Ignored,
}

#[derive(Clone, Copy, PartialEq, Eq, Structural)]
pub enum VolatileFactSignal {
    Balance,
    Allowance,
}

pub struct FactEntry {
    pub value: JsonValue,
    pub layer: FactLayer,
    pub source: FactSource,
    pub provenance: String,
    pub stability: FactStability,
    pub observed_at_ms: Option<u64>,
}

/// A provenance text, trimmed; `"unknown"` when blank.
pub open spec fn provenance_spec(raw: Seq<char>) -> Seq<char> {
    if trim(raw).len() == 0 {
        "unknown"@
    } else {
        trim(raw)
    }
}

pub fn normalize_provenance(raw: String) -> (r: String)
    ensures
        r@ == provenance_spec(raw@),
{
    let trimmed = trim_str(raw.as_str());
    if trimmed.as_str().is_empty() {
        to_owned_string("unknown")
    } else {
        trimmed
    }
}

/// A fact is stable when its (lowercased) key names decimals, volatile when
/// it is a query observation of a balance or allowance, else unknown.
pub open spec fn stability_spec(key: Seq<char>, source: FactSource) -> FactStability {
    let lowered = unicode_lowercase(key);
    if contains(lowered, "decimal"@) {
        FactStability::Stable
    } else if source == FactSource::QueryObserved && (contains(lowered, "balance"@) || contains(
        lowered,
        "allowance"@,
    )) {
        FactStability::Volatile
    } else {
        FactStability::Unknown
    }
}

pub fn infer_fact_stability(key: &str, source: FactSource) -> (r: FactStability)
    ensures
        r == stability_spec(key@, source),
{
    let lowered = str_to_lowercase(key);
    if str_contains(lowered.as_str(), "decimal") {
        return FactStability::Stable;
    }
    if source == FactSource::QueryObserved && (str_contains(lowered.as_str(), "balance")
        || str_contains(lowered.as_str(), "allowance")) {
        return FactStability::Volatile;
    }
    FactStability::Unknown
}

pub open spec fn signal_matches_spec(signal: VolatileFactSignal, key: Seq<char>) -> bool {
    match signal {
        VolatileFactSignal::Balance => contains(unicode_lowercase(key), "balance"@),
        VolatileFactSignal::Allowance => contains(unicode_lowercase(key), "allowance"@),
    }
}

pub fn volatile_signal_matches_key(signal: VolatileFactSignal, key: &str) -> (r: bool)
    ensures
        r == signal_matches_spec(signal, key@),
{
    let lowered = str_to_lowercase(key);
    match signal {
        VolatileFactSignal::Balance => str_contains(lowered.as_str(), "balance"),
        VolatileFactSignal::Allowance => str_contains(lowered.as_str(), "allowance"),
    }
}

/// An intent-inferred fact is kept against a volatile query observation.
pub open spec fn preserves_intent(existing: FactEntry, source: FactSource, stability: FactStability) -> bool {
    existing.source == FactSource::IntentInferred && source == FactSource::QueryObserved
        && stability == FactStability::Volatile
}

/// The candidate outranks the existing fact.
pub open spec fn outranks(existing: FactEntry, source: FactSource, layer: FactLayer) -> bool {
    source.priority_spec() > existing.source.priority_spec() || (source.priority_spec()
        == existing.source.priority_spec() && layer.priority_spec() > existing.layer.priority_spec())
}

/// `e` is the entry an upsert of these arguments builds.
pub open spec fn is_candidate(
    e: FactEntry,
    key: Seq<char>,
    value: JsonValue,
    layer: FactLayer,
    source: FactSource,
    provenance: Seq<char>,
    observed_at_ms: Option<u64>,
) -> bool {
    &&& e.value == value
    &&& e.layer == layer
    &&& e.source == source
    &&& e.provenance@ == provenance_spec(provenance)
    &&& e.stability == stability_spec(key, source)
    &&& e.observed_at_ms == if source == FactSource::QueryObserved {
        observed_at_ms
    } else {
        None
    }
}

/// Facts by key, in key order.
pub struct FactStore {
    entries: Vec<(String, FactEntry)>,
}

/// The wall clock in milliseconds since the Unix epoch (0 before it).
#[verifier::external_body]
pub(crate) fn current_unix_ms() -> (r: u64) {
    std::time::SystemTime::now().duration_since(std::time::UNIX_EPOCH).map(
        |d| d.as_millis() as u64,
    ).unwrap_or(0)
}

impl FactStore {
    pub closed spec fn entries_view(&self) -> Seq<(String, FactEntry)> {
        self.entries@
    }

    /// The fact stored under `key`.
    pub open spec fn get_spec(&self, key: Seq<char>) -> Option<FactEntry> {
        lookup(self.entries_view(), key)
    }

    pub open spec fn wf(&self) -> bool {
        keys_sorted(self.entries_view())
    }

    pub open spec fn key_list(&self) -> Seq<Seq<char>> {
        key_seq(self.entries_view())
    }

    pub fn new() -> (r: FactStore)
        ensures
            r.wf(),
            r.entries_view().len() == 0,
            forall|k: Seq<char>| r.get_spec(k) is None,
    {
        FactStore { entries: Vec::new() }
    }

    /// Records a fact observed now.
    pub fn upsert(
        &mut self,
        key: String,
        value: JsonValue,
        layer: FactLayer,
        source: FactSource,
        provenance: String,
    ) -> (r: FactUpsertResult)
        requires
            old(self).wf(),
        ensures
            final(self).wf(),
            exists|t: u64|
                #[trigger] upsert_outcome(
                    *old(self),
                    *final(self),
                    r,
                    key@,
                    value,
                    layer,
                    source,
                    provenance@,
                    Some(t),
                ),
    {
        let now = current_unix_ms();
        let r = self.upsert_with_observed_at(key, value, layer, source, provenance, Some(now));
        r
    }

    /// Records a fact: inserted when the key is new; replacing the stored
    /// fact only when it outranks it and does not override an intent fact
    /// with a volatile query observation; ignored otherwise.  The observation
    /// time is kept for query observations only.
    pub fn upsert_with_observed_at(
        &mut self,
        key: String,
        value: JsonValue,
        layer: FactLayer,
        source: FactSource,
        provenance: String,
        observed_at_ms: Option<u64>,
    ) -> (r: FactUpsertResult)
        requires
            old(self).wf(),
        ensures
            final(self).wf(),
            upsert_outcome(
                *old(self),
                *final(self),
                r,
                key@,
                value,
                layer,
                source,
                provenance@,
                observed_at_ms,
            ),
    {
        let stability = infer_fact_stability(key.as_str(), source);
        let ghost key_v = key@;
        let ghost prov_v = provenance@;
        let prov = normalize_provenance(provenance);
        let observed = if source == FactSource::QueryObserved {
            observed_at_ms
        } else {
            None
        };
        let candidate = FactEntry { value, layer, source, provenance: prov, stability, observed_at_ms: observed };
        match find_key(&self.entries, key.as_str()) {
            Err(_) => {
                put(&mut self.entries, key, candidate);
                FactUpsertResult::Inserted
            },
            Ok(i) => {
                let existing = &self.entries[i].1;
                if existing.source == FactSource::IntentInferred && source == FactSource::QueryObserved
                    && stability == FactStability::Volatile {
                    return FactUpsertResult::Ignored;
                }
                let cs = source.priority();
                let es = existing.source.priority();
                if cs > es || (cs == es && layer.priority() > existing.layer.priority()) {
                    put(&mut self.entries, key, candidate);
                    return FactUpsertResult::Replaced;
                }
                FactUpsertResult::Ignored
            },
        }
    }

    /// Upserts every fact of `other`, in key order, each as observed at a
    /// time read from the clock: `stores` are the store before and after
    /// each upsert.
    pub fn merge(&mut self, other: &FactStore)
        requires
            old(self).wf(),
            other.wf(),
        ensures
            final(self).wf(),
            exists|stores: Seq<FactStore>, ts: Seq<u64>|
                #[trigger] merge_chain(stores, other.entries_view(), ts) && stores[0] == *old(self) && stores.last()
                    == *final(self),
            forall|k: Seq<char>|
                other.get_spec(k) is None ==> #[trigger] final(self).get_spec(k) == old(self).get_spec(k),
    {
        let ghost es = other.entries_view();
        let ghost mut stores: Seq<FactStore> = seq![*self];
        let ghost mut ts: Seq<u64> = Seq::empty();
        let mut i: usize = 0;
        assert(merge_chain(stores, es.subrange(0, 0), ts));
        while i < other.entries.len()
            invariant
                i <= other.entries@.len(),
                es == other.entries_view(),
                self.wf(),
                other.wf(),
                merge_chain(stores, es.subrange(0, i as int), ts),
                stores[0] == *old(self),
                stores.last() == *self,
                forall|k: Seq<char>|
                    other.get_spec(k) is None ==> #[trigger] self.get_spec(k) == old(self).get_spec(k),
            decreases other.entries.len() - i,
        {
            let (k, e) = (&other.entries[i].0, &other.entries[i].1);
            let ghost kv = k@;
            proof {
                assert(other.entries_view()[i as int].0@ == kv);
            }
            let ghost before = *self;
            let v = e.value.clone_value();
            let ghost gv = v;
            let r = self.upsert(
                to_owned_string(k.as_str()),
                v,
                e.layer,
                e.source,
                to_owned_string(e.provenance.as_str()),
            );
            proof {
                assert forall|k2: Seq<char>| other.get_spec(k2) is None implies #[trigger] self.get_spec(k2)
                    == old(self).get_spec(k2) by {
                    if k2 == kv {
                        crate::keyed::lemma_lookup_at_or_earlier(other.entries_view(), i as int);
                    }
                    lemma_upsert_other_keys(before, *self, kv, k2);
                }
                let t = choose|t: u64|
                    #[trigger] upsert_outcome(before, *self, r, kv, gv, e.layer, e.source, e.provenance@, Some(t));
                assert(merge_step(before, *self, es[i as int], t));
                let stores2 = stores.push(*self);
                let ts2 = ts.push(t);
                let es2 = es.subrange(0, i + 1);
                assert forall|j: int| 0 <= j < es2.len() implies #[trigger] merge_step_at(stores2, es2, ts2, j) by {
                    if j < i {
                        assert(merge_step_at(stores, es.subrange(0, i as int), ts, j));
                        assert(stores2[j] == stores[j] && stores2[j + 1] == stores[j + 1]);
                        assert(es2[j] == es.subrange(0, i as int)[j] && ts2[j] == ts[j]);
                    } else {
                        assert(stores2[j] == before && stores2[j + 1] == *self);
                        assert(es2[j] == es[i as int] && ts2[j] == t);
                    }
                }
                stores = stores2;
                ts = ts2;
            }
            i = i + 1;
        }
        assert(es.subrange(0, es.len() as int) =~= es);
    }

    pub fn get(&self, key: &str) -> (r: Option<&FactEntry>)
        requires
            self.wf(),
        ensures
            match r {
                Some(e) => self.get_spec(key@) == Some(*e),
                None => self.get_spec(key@) is None,
            },
    {
        match find_key(&self.entries, key) {
            Ok(i) => Some(&self.entries[i].1),
            Err(_) => None,
        }
    }

    /// A volatile query observation whose key matches `signal` was observed
    /// within `max_age_ms` of `now_ms`.
    pub fn has_fresh_volatile_signal(&self, signal: VolatileFactSignal, max_age_ms: u64, now_ms: u64) -> (r:
        bool)
        ensures
            r == exists|i: int|
                0 <= i < self.entries_view().len() && #[trigger] fresh_signal_at(
                    self.entries_view()[i],
                    signal,
                    max_age_ms,
                    now_ms,
                ),
    {
        let mut i: usize = 0;
        while i < self.entries.len()
            invariant
                i <= self.entries@.len(),
                forall|k: int|
                    0 <= k < i ==> !#[trigger] fresh_signal_at(self.entries@[k], signal, max_age_ms, now_ms),
            decreases self.entries.len() - i,
        {
            let e = &self.entries[i].1;
            let fresh = match e.observed_at_ms {
                Some(t) => now_ms.saturating_sub(t) <= max_age_ms,
                None => false,
            };
            if e.stability == FactStability::Volatile && e.source == FactSource::QueryObserved
                && volatile_signal_matches_key(signal, self.entries[i].0.as_str()) && fresh {
                assert(fresh_signal_at(self.entries_view()[i as int], signal, max_age_ms, now_ms));
                return true;
            }
            i = i + 1;
        }
        false
    }

    pub fn any_key_ends_with(&self, suffix: &str) -> (r: bool)
        ensures
            r == exists|i: int|
                0 <= i < self.entries_view().len() && ends_with(
                    #[trigger] self.entries_view()[i].0@,
                    suffix@,
                ),
    {
        let mut i: usize = 0;
        while i < self.entries.len()
            invariant
                i <= self.entries@.len(),
                forall|k: int| 0 <= k < i ==> !ends_with(#[trigger] self.entries@[k].0@, suffix@),
            decreases self.entries.len() - i,
        {
            if str_ends_with(self.entries[i].0.as_str(), suffix) {
                assert(ends_with(self.entries_view()[i as int].0@, suffix@));
                return true;
            }
            i = i + 1;
        }
        false
    }

    pub fn is_empty(&self) -> (r: bool)
        ensures
            r == (self.entries_view().len() == 0),
    {
        self.entries.len() == 0
    }

    /// The keys, in order.
    pub fn keys(&self) -> (r: Vec<String>)
        ensures
            r@.len() == self.entries_view().len(),
            forall|i: int| 0 <= i < r@.len() ==> #[trigger] r@[i]@ == self.key_list()[i],
    {
        let mut out: Vec<String> = Vec::new();
        let mut i: usize = 0;
        while i < self.entries.len()
            invariant
                i <= self.entries@.len(),
                out@.len() == i,
                forall|k: int| 0 <= k < i ==> #[trigger] out@[k]@ == self.entries@[k].0@,
            decreases self.entries.len() - i,
        {
            out.push(to_owned_string(self.entries[i].0.as_str()));
            i = i + 1;
        }
        out
    }
}

pub open spec fn fresh_signal_at(
    x: (String, FactEntry),
    signal: VolatileFactSignal,
    max_age_ms: u64,
    now_ms: u64,
) -> bool {
    &&& x.1.stability == FactStability::Volatile
    &&& x.1.source == FactSource::QueryObserved
    &&& signal_matches_spec(signal, x.0@)
    &&& x.1.observed_at_ms matches Some(t) && (if now_ms >= t {
        now_ms - t
    } else {
        0
    }) <= max_age_ms
}

/// One step of a merge: `after` is `before` with the fact `e` upserted (a
/// copy of its value, its layer, source and provenance) as observed at `t`.
pub open spec fn merge_step(before: FactStore, after: FactStore, e: (String, FactEntry), t: u64) -> bool {
    exists|r: FactUpsertResult, v: JsonValue|
        v@ == e.1.value@ && #[trigger] upsert_outcome(
            before,
            after,
            r,
            e.0@,
            v,
            e.1.layer,
            e.1.source,
            e.1.provenance@,
            Some(t),
        )
}

pub open spec fn merge_step_at(stores: Seq<FactStore>, es: Seq<(String, FactEntry)>, ts: Seq<u64>, j: int) -> bool {
    merge_step(stores[j], stores[j + 1], es[j], ts[j])
}

/// `stores` run from the store before a merge of `es` to the store after
/// it, one upsert at a time, the j-th at the time `ts[j]`.
pub open spec fn merge_chain(stores: Seq<FactStore>, es: Seq<(String, FactEntry)>, ts: Seq<u64>) -> bool {
    &&& stores.len() == es.len() + 1
    &&& ts.len() == es.len()
    &&& forall|j: int| 0 <= j < es.len() ==> #[trigger] merge_step_at(stores, es, ts, j)
}

/// What an upsert did: the result and the store after it.
pub open spec fn upsert_outcome(
    before: FactStore,
    after: FactStore,
    r: FactUpsertResult,
    key: Seq<char>,
    value: JsonValue,
    layer: FactLayer,
    source: FactSource,
    provenance: Seq<char>,
    observed_at_ms: Option<u64>,
) -> bool {
    &&& forall|k: Seq<char>| k != key ==> #[trigger] after.get_spec(k) == before.get_spec(k)
    &&& match before.get_spec(key) {
        None => r == FactUpsertResult::Inserted && (after.get_spec(key) matches Some(e) && is_candidate(
            e,
            key,
            value,
            layer,
            source,
            provenance,
            observed_at_ms,
        )),
        Some(existing) => if !preserves_intent(existing, source, stability_spec(key, source))
            && outranks(existing, source, layer) {
            r == FactUpsertResult::Replaced && (after.get_spec(key) matches Some(e) && is_candidate(
                e,
                key,
                value,
                layer,
                source,
                provenance,
                observed_at_ms,
            ))
        } else {
            r == FactUpsertResult::Ignored && after.get_spec(key) == Some(existing)
        },
    }
}

proof fn lemma_upsert_other_keys(before: FactStore, after: FactStore, key: Seq<char>, k2: Seq<char>)
    requires
        forall|k: Seq<char>| k != key ==> #[trigger] after.get_spec(k) == before.get_spec(k),
        k2 != key,
    ensures
        after.get_spec(k2) == before.get_spec(k2),
{
}

/// An upsert never lowers the rank of the fact stored under its key: the
/// stored fact afterwards has a source priority at least as high as before,
/// and an intent fact is never replaced by a volatile query observation.
pub proof fn lemma_upsert_never_lowers_rank(
    before: FactStore,
    after: FactStore,
    r: FactUpsertResult,
    key: Seq<char>,
    value: JsonValue,
    layer: FactLayer,
    source: FactSource,
    provenance: Seq<char>,
    observed_at_ms: Option<u64>,
)
    requires
        upsert_outcome(before, after, r, key, value, layer, source, provenance, observed_at_ms),
        before.get_spec(key) is Some,
    ensures
        after.get_spec(key) is Some,
        after.get_spec(key)->0.source.priority_spec() >= before.get_spec(key)->0.source.priority_spec(),
        before.get_spec(key)->0.source == FactSource::IntentInferred && source
            == FactSource::QueryObserved && stability_spec(key, source) == FactStability::Volatile
            ==> after.get_spec(key) == before.get_spec(key),
{
}

// ---------------------------------------------------------------------------
// The planning projection
// ---------------------------------------------------------------------------

pub open spec fn seq_has(s: Seq<Seq<char>>, k: Seq<char>) -> bool {
    exists|i: int| 0 <= i < s.len() && #[trigger] s[i] == k
}

/// The owner and the default wallet, when stored, come first.
pub open spec fn priority_keys(ks: Seq<Seq<char>>) -> Seq<Seq<char>> {
    (if seq_has(ks, "owner"@) {
        seq!["owner"@]
    } else {
        Seq::empty()
    }) + (if seq_has(ks, "wallet.default"@) {
        seq!["wallet.default"@]
    } else {
        Seq::empty()
    })
}

/// Adding the keys `ks` in order to `sel`, skipping those already there,
/// until `sel` holds `max` keys.
pub open spec fn select_keys(ks: Seq<Seq<char>>, sel: Seq<Seq<char>>, max: int) -> Seq<Seq<char>>
    decreases ks.len(),
{
    if ks.len() == 0 || sel.len() >= max {
        sel
    } else if seq_has(sel, ks[0]) {
        select_keys(ks.drop_first(), sel, max)
    } else {
        select_keys(ks.drop_first(), sel.push(ks[0]), max)
    }
}

/// The facts shown: the priority keys, then the others in key order, at
/// most `max_entries` of them (at least one) beyond the priority keys.
pub open spec fn shown_keys(ks: Seq<Seq<char>>, max_entries: usize) -> Seq<Seq<char>> {
    select_keys(
        ks,
        priority_keys(ks),
        if max_entries < 1 {
            1
        } else {
            max_entries as int
        },
    )
}

/// What the projection records of a fact besides its value.
pub open spec fn fact_meta_spec(e: FactEntry) -> JsonView {
    let m0 = obj_insert(Seq::empty(), "layer"@, JsonView::Str(e.layer.name_spec()));
    let m1 = obj_insert(m0, "source"@, JsonView::Str(e.source.name_spec()));
    let m2 = obj_insert(m1, "source_priority"@, JsonView::Number(NumberView::PosInt(e.source.priority_spec() as u64)));
    let m3 = obj_insert(m2, "provenance"@, JsonView::Str(e.provenance@));
    let m4 = obj_insert(m3, "stability"@, JsonView::Str(e.stability.name_spec()));
    JsonView::Object(
        obj_insert(
            m4,
            "observed_at_ms"@,
            match e.observed_at_ms {
                Some(t) => JsonView::Number(NumberView::PosInt(t)),
                None => JsonView::Null,
            },
        ),
    )
}

/// The values of the shown facts, by key.
pub open spec fn shown_facts(es: Seq<(String, FactEntry)>, keys: Seq<Seq<char>>) -> Seq<(Seq<char>, JsonView)>
    decreases keys.len(),
{
    if keys.len() == 0 {
        Seq::empty()
    } else {
        let rest = shown_facts(es, keys.drop_last());
        match lookup(es, keys.last()) {
            Some(e) => obj_insert(rest, keys.last(), e.value@),
            None => rest,
        }
    }
}

/// The records of the shown facts, by key.
pub open spec fn shown_meta(es: Seq<(String, FactEntry)>, keys: Seq<Seq<char>>) -> Seq<(Seq<char>, JsonView)>
    decreases keys.len(),
{
    if keys.len() == 0 {
        Seq::empty()
    } else {
        let rest = shown_meta(es, keys.drop_last());
        match lookup(es, keys.last()) {
            Some(e) => obj_insert(rest, keys.last(), fact_meta_spec(e)),
            None => rest,
        }
    }
}

/// The planning view of the store: `facts` holds the values of the shown
/// facts, `meta` their records, and `_truncated_entries` counts the facts
/// left out when there are any.
pub open spec fn projected_spec(es: Seq<(String, FactEntry)>, max_entries: usize) -> JsonView {
    let keys = shown_keys(key_seq(es), max_entries);
    let left_out = if es.len() > keys.len() {
        es.len() - keys.len()
    } else {
        0
    };
    let meta = if left_out > 0 {
        obj_insert(
            shown_meta(es, keys),
            "_truncated_entries"@,
            JsonView::Number(NumberView::PosInt(left_out as u64)),
        )
    } else {
        shown_meta(es, keys)
    };
    JsonView::Object(
        obj_insert(
            obj_insert(Seq::empty(), "facts"@, JsonView::Object(shown_facts(es, keys))),
            "meta"@,
            JsonView::Object(meta),
        ),
    )
}

fn has_key(v: &Vec<String>, k: &str) -> (b: bool)
    ensures
        b == seq_has(v@.map_values(|s: String| s@), k@),
{
    let ghost vs = v@.map_values(|s: String| s@);
    let mut i: usize = 0;
    while i < v.len()
        invariant
            i <= v@.len(),
            vs == v@.map_values(|s: String| s@),
            forall|j: int| 0 <= j < i ==> #[trigger] vs[j] != k@,
        decreases v.len() - i,
    {
        assert(vs[i as int] == v@[i as int]@);
        if crate::text::str_eq(v[i].as_str(), k) {
            return true;
        }
        i = i + 1;
    }
    false
}

fn fact_meta(e: &FactEntry) -> (r: JsonValue)
    ensures
        r@ == fact_meta_spec(*e),
{
    let mut m = JsonValue::empty_object();
    m.insert(to_owned_string("layer"), JsonValue::String(to_owned_string(e.layer.as_str())));
    m.insert(to_owned_string("source"), JsonValue::String(to_owned_string(e.source.as_str())));
    m.insert(to_owned_string("source_priority"), JsonValue::Number(JsonNumber::PosInt(e.source.priority() as u64)));
    m.insert(to_owned_string("provenance"), JsonValue::String(to_owned_string(e.provenance.as_str())));
    m.insert(to_owned_string("stability"), JsonValue::String(to_owned_string(e.stability.as_str())));
    let t = match e.observed_at_ms {
        Some(t) => JsonValue::Number(JsonNumber::PosInt(t)),
        None => JsonValue::Null,
    };
    m.insert(to_owned_string("observed_at_ms"), t);
    m
}

impl FactStore {
    /// The planning view of the store with at most `max_entries` facts
    /// besides the owner and default wallet.
    pub fn to_projected_planning_value(&self, max_entries: usize) -> (r: JsonValue)
        requires
            self.wf(),
        ensures
            r@ == projected_spec(self.entries_view(), max_entries),
    {
        let max: usize = if max_entries < 1 {
            1
        } else {
            max_entries
        };
        let keys = self.keys();
        let ghost ks = self.key_list();
        assert(keys@.map_values(|s: String| s@) =~= ks);
        let mut selected: Vec<String> = Vec::new();
        if has_key(&keys, "owner") {
            selected.push(to_owned_string("owner"));
        }
        if has_key(&keys, "wallet.default") {
            selected.push(to_owned_string("wallet.default"));
        }
        assert(selected@.map_values(|s: String| s@) =~= priority_keys(ks));
        let mut i: usize = 0;
        assert(ks.subrange(0, ks.len() as int) =~= ks);
        while i < keys.len() && selected.len() < max
            invariant
                i <= keys@.len(),
                ks == keys@.map_values(|s: String| s@),
                select_keys(ks, priority_keys(ks), max as int) == select_keys(
                    ks.subrange(i as int, ks.len() as int),
                    selected@.map_values(|s: String| s@),
                    max as int,
                ),
            decreases keys.len() - i,
        {
            let ghost sel = selected@.map_values(|s: String| s@);
            let ghost rest = ks.subrange(i as int, ks.len() as int);
            assert(rest[0] == keys@[i as int]@);
            assert(rest.drop_first() =~= ks.subrange(i + 1, ks.len() as int));
            if !has_key(&selected, keys[i].as_str()) {
                selected.push(to_owned_string(keys[i].as_str()));
                assert(selected@.map_values(|s: String| s@) =~= sel.push(keys@[i as int]@));
            }
            i = i + 1;
        }
        let ghost shown = selected@.map_values(|s: String| s@);
        assert(shown == shown_keys(ks, max_entries));
        let mut facts = JsonValue::empty_object();
        let mut meta = JsonValue::empty_object();
        let mut k: usize = 0;
        while k < selected.len()
            invariant
                k <= selected@.len(),
                self.wf(),
                shown == selected@.map_values(|s: String| s@),
                facts@ == JsonView::Object(shown_facts(self.entries_view(), shown.subrange(0, k as int))),
                meta@ == JsonView::Object(shown_meta(self.entries_view(), shown.subrange(0, k as int))),
            decreases selected.len() - k,
        {
            let ghost pre = shown.subrange(0, k + 1);
            assert(pre.drop_last() =~= shown.subrange(0, k as int));
            assert(pre.last() == selected@[k as int]@);
            match find_key(&self.entries, selected[k].as_str()) {
                Ok(j) => {
                    let e = &self.entries[j].1;
                    facts.insert(to_owned_string(selected[k].as_str()), e.value.clone_value());
                    meta.insert(to_owned_string(selected[k].as_str()), fact_meta(e));
                },
                Err(_) => {},
            }
            k = k + 1;
        }
        assert(shown.subrange(0, shown.len() as int) =~= shown);
        let total = self.entries.len();
        let count = selected.len();
        if total > count {
            meta.insert(
                to_owned_string("_truncated_entries"),
                JsonValue::Number(JsonNumber::PosInt((total - count) as u64)),
            );
        }
        let mut out = JsonValue::empty_object();
        out.insert(to_owned_string("facts"), facts);
        out.insert(to_owned_string("meta"), meta);
        out
    }

    /// The planning view of the whole store.
    pub fn to_planning_value(&self) -> (r: JsonValue)
        requires
            self.wf(),
        ensures
            r@ == projected_spec(self.entries_view(), usize::MAX),
    {
        self.to_projected_planning_value(usize::MAX)
    }
}

} // verus!
