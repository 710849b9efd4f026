//! What the protocols of the workspace say about their candidates (declared
//! topics, risk tags, protocol tags), and the capability view built from
//! them: per protocol, its chains, actions, queries, required inputs and
//! topics, with one card per topic.
use vstd::prelude::*;
use crate::agent::candidates::{field, field_str, key_list, normalize_topic, replace_all, replace_str,
    required_inputs_spec, semantic_topic_for_candidate, semantic_topic_spec, sorted_keys, sorted_strings, string_items,
    strings_of, topic_spec, views, CandidateContext};
use crate::json::{JsonValue, JsonView, NumberView, count_value, entries_view, items_view, lemma_array_view, obj_get,
    obj_insert, str_items, string_array};
use crate::keyed::{find_key, keys_sorted, lookup, put};
use crate::text::{CharClass, chars_of, concat, split_by, split_chars, split_once_spec, str_eq, str_split_once,
    string_from_chars, to_owned_string};

verus! {

/// What the capability view reads of a protocol document: its `meta`
/// object, and its actions and queries by id.
pub struct ProtocolDocument {
    pub meta: JsonValue,
    pub actions: Vec<(String, JsonValue)>,
    pub queries: Vec<(String, JsonValue)>,
}

/// What a candidate's protocol says of its topic.
pub struct CandidateSemanticHints {
    pub declared_topics: Vec<String>,
    pub risk_tags: Vec<String>,
    pub protocol_tags: Vec<String>,
}

pub struct HintView {
    pub declared_topics: Seq<Seq<char>>,
    pub risk_tags: Seq<Seq<char>>,
    pub protocol_tags: Seq<Seq<char>>,
}

impl View for CandidateSemanticHints {
    type V = HintView;

    open spec fn view(&self) -> HintView {
        HintView {
            declared_topics: views(self.declared_topics@),
            risk_tags: views(self.risk_tags@),
            protocol_tags: views(self.protocol_tags@),
        }
    }
}

pub(crate) fn copy_strings(v: &Vec<String>) -> (r: Vec<String>)
    ensures
        views(r@) == views(v@),
{
    let mut out: Vec<String> = Vec::new();
    let mut i: usize = 0;
    while i < v.len()
        invariant
            i <= v@.len(),
            views(out@) == views(v@).subrange(0, i as int),
        decreases v.len() - i,
    {
        let ghost prev = views(out@);
        out.push(to_owned_string(v[i].as_str()));
        assert(views(out@) =~= prev.push(v@[i as int]@));
        assert(views(out@) =~= views(v@).subrange(0, i + 1));
        i = i + 1;
    }
    assert(views(v@).subrange(0, v@.len() as int) =~= views(v@));
    out
}

/// `protocol@version`, from the protocol's meta.
pub open spec fn schema_name_spec(meta: JsonView) -> Option<Seq<char>> {
    match (field_str(meta, "protocol"@), field_str(meta, "version"@)) {
        (Some(p), Some(v)) => Some(p + "@"@ + v),
        _ => None,
    }
}

fn str_field<'a>(v: &'a JsonValue, key: &str) -> (r: Option<&'a str>)
    ensures
        match r {
            Some(s) => field_str(v@, key@) == Some(s@),
            None => field_str(v@, key@) is None,
        },
{
    match v.get(key) {
        Some(x) => x.as_str(),
        None => None,
    }
}

pub fn protocol_schema_name(protocol: &ProtocolDocument) -> (r: Option<String>)
    ensures
        match r {
            Some(s) => schema_name_spec(protocol.meta@) == Some(s@),
            None => schema_name_spec(protocol.meta@) is None,
        },
{
    let p = match str_field(&protocol.meta, "protocol") {
        Some(p) => p,
        None => {
            return None;
        },
    };
    let v = match str_field(&protocol.meta, "version") {
        Some(v) => v,
        None => {
            return None;
        },
    };
    let at = concat(p, "@");
    Some(concat(at.as_str(), v))
}

/// The strings of an array value (none for anything else).
pub open spec fn strings_at(v: Option<JsonView>) -> Seq<Seq<char>> {
    match v {
        Some(JsonView::Array(items)) => string_items(items),
        _ => Seq::empty(),
    }
}

pub fn extract_string_array(value: Option<&JsonValue>) -> (r: Vec<String>)
    ensures
        views(r@) == strings_at(
            match value {
                Some(x) => Some(x@),
                None => None,
            },
        ),
{
    match value {
        Some(JsonValue::Array(items)) => {
            proof {
                lemma_array_view(*items);
            }
            strings_of(items)
        },
        _ => {
            let out: Vec<String> = Vec::new();
            assert(views(out@) =~= Seq::<Seq<char>>::empty());
            out
        },
    }
}

/// A pointer segment with `~1` and then `~0` unescaped.
pub open spec fn unescape_segment(s: Seq<char>) -> Seq<char> {
    replace_all(replace_all(s, "~1"@, "/"@), "~0"@, "~"@)
}

/// Walking objects along the segments, blank ones skipped.
pub open spec fn walk_path(v: JsonView, pieces: Seq<Seq<char>>) -> Option<JsonView>
    decreases pieces.len(),
{
    if pieces.len() == 0 {
        Some(v)
    } else if pieces[0].len() == 0 {
        walk_path(v, pieces.drop_first())
    } else {
        match v {
            JsonView::Object(es) => match obj_get(es, unescape_segment(pieces[0])) {
                Some(x) => walk_path(x, pieces.drop_first()),
                None => None,
            },
            _ => None,
        }
    }
}

/// The value `pointer` designates inside `root`, through objects only.
pub open spec fn pointer_lookup_spec(root: JsonView, pointer: Seq<char>) -> Option<JsonView> {
    walk_path(root, split_by(pointer, CharClass::One('/')))
}

pub fn pointer_lookup<'a>(root: &'a JsonValue, pointer: &str) -> (r: Option<&'a JsonValue>)
    ensures
        match r {
            Some(x) => pointer_lookup_spec(root@, pointer@) == Some(x@),
            None => pointer_lookup_spec(root@, pointer@) is None,
        },
{
    let cs = chars_of(pointer);
    let pieces = split_chars(&cs, CharClass::One('/'));
    let ghost ps = split_by(pointer@, CharClass::One('/'));
    assert(pieces@.len() == ps.len());
    let mut current: &JsonValue = root;
    let mut i: usize = 0;
    assert(ps.subrange(0, ps.len() as int) =~= ps);
    while i < pieces.len()
        invariant
            i <= pieces@.len(),
            pieces@.len() == ps.len(),
            forall|k: int| 0 <= k < pieces@.len() ==> #[trigger] pieces@[k]@ == ps[k],
            pointer_lookup_spec(root@, pointer@) == walk_path(current@, ps.subrange(i as int, ps.len() as int)),
        decreases pieces.len() - i,
    {
        let ghost rest = ps.subrange(i as int, ps.len() as int);
        assert(rest[0] == pieces@[i as int]@);
        assert(rest.drop_first() =~= ps.subrange(i + 1, ps.len() as int));
        if pieces[i].len() > 0 {
            proof {
                reveal_strlit("~1");
                reveal_strlit("~0");
            }
            let raw = string_from_chars(&pieces[i]);
            let a = replace_str(raw.as_str(), "~1", "/");
            let key = replace_str(a.as_str(), "~0", "~");
            match current.get(key.as_str()) {
                Some(next) => {
                    current = next;
                },
                None => {
                    return None;
                },
            }
        }
        i = i + 1;
    }
    Some(current)
}

/// Where the declared topics of a candidate may stand in its extensions.
pub open spec fn topic_pointers() -> Seq<Seq<char>> {
    seq![
        "/agent/topic"@, "/agent/topics"@, "/semantic/topic"@, "/semantic/topics"@, "/planning/topic"@,
        "/planning/topics"@, "/topic"@, "/topics"@,
    ]
}

fn topic_pointer_at(i: usize) -> (r: &'static str)
    requires
        i < 8,
    ensures
        r@ == topic_pointers()[i as int],
{
    if i == 0 {
        "/agent/topic"
    } else if i == 1 {
        "/agent/topics"
    } else if i == 2 {
        "/semantic/topic"
    } else if i == 3 {
        "/semantic/topics"
    } else if i == 4 {
        "/planning/topic"
    } else if i == 5 {
        "/planning/topics"
    } else if i == 6 {
        "/topic"
    } else {
        "/topics"
    }
}

/// The topics each text names, in order.
pub open spec fn normalized_topics(xs: Seq<Seq<char>>) -> Seq<Seq<char>>
    decreases xs.len(),
{
    if xs.len() == 0 {
        Seq::empty()
    } else {
        normalized_topics(xs.drop_last()) + match topic_spec(xs.last()) {
            Some(t) => seq![t],
            None => Seq::<Seq<char>>::empty(),
        }
    }
}

/// The topics a value declares: a string names one, an array its strings.
pub open spec fn topics_from(v: Option<JsonView>) -> Seq<Seq<char>> {
    match v {
        Some(JsonView::Str(s)) => match topic_spec(s) {
            Some(t) => seq![t],
            None => Seq::empty(),
        },
        Some(JsonView::Array(items)) => normalized_topics(string_items(items)),
        _ => Seq::empty(),
    }
}

/// The topics found under the first `n` topic pointers, in order.
pub open spec fn raw_declared(ext: JsonView, n: nat) -> Seq<Seq<char>>
    decreases n,
{
    if n == 0 {
        Seq::empty()
    } else {
        raw_declared(ext, (n - 1) as nat) + topics_from(pointer_lookup_spec(ext, topic_pointers()[n - 1]))
    }
}

/// Each text once, where it first stands.
pub open spec fn first_each(xs: Seq<Seq<char>>) -> Seq<Seq<char>>
    decreases xs.len(),
{
    if xs.len() == 0 {
        Seq::empty()
    } else {
        let p = first_each(xs.drop_last());
        if p.contains(xs.last()) {
            p
        } else {
            p.push(xs.last())
        }
    }
}

/// The topics a candidate's spec declares in its extensions, each once.
pub open spec fn declared_topics_spec(spec: JsonView) -> Seq<Seq<char>> {
    match field(spec, "extensions"@) {
        Some(ext) => first_each(raw_declared(ext, 8)),
        None => Seq::empty(),
    }
}

fn contains_string(v: &Vec<String>, s: &str) -> (r: bool)
    ensures
        r == views(v@).contains(s@),
{
    let mut i: usize = 0;
    while i < v.len()
        invariant
            i <= v@.len(),
            forall|k: int| 0 <= k < i ==> views(v@)[k] != s@,
        decreases v.len() - i,
    {
        if str_eq(v[i].as_str(), s) {
            assert(views(v@)[i as int] == s@);
            return true;
        }
        i = i + 1;
    }
    false
}

fn push_topics_from(out: &mut Vec<String>, v: Option<&JsonValue>)
    ensures
        views(final(out)@) == views(old(out)@) + topics_from(
            match v {
                Some(x) => Some(x@),
                None => None,
            },
        ),
{
    let ghost base = views(out@);
    match v {
        Some(JsonValue::String(s)) => match normalize_topic(s.as_str()) {
            Some(t) => {
                let ghost tv = t@;
                out.push(t);
                assert(views(out@) =~= base + seq![tv]);
            },
            None => {
                assert(views(out@) =~= base + Seq::<Seq<char>>::empty());
            },
        },
        Some(JsonValue::Array(items)) => {
            proof {
                lemma_array_view(*items);
            }
            let texts = strings_of(items);
            let ghost tv = views(texts@);
            let mut i: usize = 0;
            assert(views(out@) =~= base + normalized_topics(tv.subrange(0, 0)));
            while i < texts.len()
                invariant
                    i <= texts@.len(),
                    tv == views(texts@),
                    views(out@) == base + normalized_topics(tv.subrange(0, i as int)),
                decreases texts.len() - i,
            {
                let ghost cur = tv.subrange(0, i + 1);
                assert(cur.drop_last() =~= tv.subrange(0, i as int));
                assert(cur.last() == texts@[i as int]@);
                let ghost prev = views(out@);
                match normalize_topic(texts[i].as_str()) {
                    Some(t) => {
                        let ghost t1 = t@;
                        out.push(t);
                        assert(views(out@) =~= prev + seq![t1]);
                    },
                    None => {
                        assert(views(out@) =~= prev + Seq::<Seq<char>>::empty());
                    },
                }
                i = i + 1;
            }
            assert(tv.subrange(0, tv.len() as int) =~= tv);
        },
        _ => {
            assert(views(out@) =~= base + Seq::<Seq<char>>::empty());
        },
    }
}

pub fn extract_declared_topics(spec: &JsonValue) -> (r: Vec<String>)
    ensures
        views(r@) == declared_topics_spec(spec@),
{
    let extensions = match spec.get("extensions") {
        Some(e) => e,
        None => {
            let out: Vec<String> = Vec::new();
            assert(views(out@) =~= Seq::<Seq<char>>::empty());
            return out;
        },
    };
    let mut raw: Vec<String> = Vec::new();
    let mut i: usize = 0;
    assert(views(raw@) =~= raw_declared(extensions@, 0));
    while i < 8
        invariant
            i <= 8,
            views(raw@) == raw_declared(extensions@, i as nat),
        decreases 8 - i,
    {
        let p = topic_pointer_at(i);
        push_topics_from(&mut raw, pointer_lookup(extensions, p));
        i = i + 1;
    }
    let ghost rv = views(raw@);
    let mut out: Vec<String> = Vec::new();
    let mut k: usize = 0;
    assert(views(out@) =~= first_each(rv.subrange(0, 0)));
    while k < raw.len()
        invariant
            k <= raw@.len(),
            rv == views(raw@),
            views(out@) == first_each(rv.subrange(0, k as int)),
        decreases raw.len() - k,
    {
        let ghost cur = rv.subrange(0, k + 1);
        assert(cur.drop_last() =~= rv.subrange(0, k as int));
        assert(cur.last() == raw@[k as int]@);
        if !contains_string(&out, raw[k].as_str()) {
            let ghost prev = views(out@);
            out.push(to_owned_string(raw[k].as_str()));
            assert(views(out@) =~= prev.push(raw@[k as int]@));
        }
        k = k + 1;
    }
    assert(rv.subrange(0, rv.len() as int) =~= rv);
    out
}

// ---------------------------------------------------------------------------
// Hints by candidate reference
// ---------------------------------------------------------------------------

/// The hints of one candidate spec of a protocol.
pub open spec fn hint_of(spec: JsonView, tags: Seq<Seq<char>>) -> HintView {
    HintView {
        declared_topics: declared_topics_spec(spec),
        risk_tags: strings_at(field(spec, "risk_tags"@)),
        protocol_tags: tags,
    }
}

/// `(protocol@version/id, hints)` for each candidate spec, in order.
pub open spec fn spec_pairs(es: Seq<(Seq<char>, JsonView)>, name: Seq<char>, tags: Seq<Seq<char>>) -> Seq<
    (Seq<char>, HintView),
> {
    es.map_values(|e: (Seq<char>, JsonView)| (name + "/"@ + e.0, hint_of(e.1, tags)))
}

/// The pairs of one protocol: its actions, then its queries; none without
/// a schema name.
pub open spec fn doc_pairs(d: ProtocolDocument) -> Seq<(Seq<char>, HintView)> {
    match schema_name_spec(d.meta@) {
        None => Seq::empty(),
        Some(name) => {
            let tags = strings_at(field(d.meta@, "tags"@));
            spec_pairs(entries_view(d.actions@), name, tags) + spec_pairs(entries_view(d.queries@), name, tags)
        },
    }
}

pub open spec fn all_pairs(ds: Seq<ProtocolDocument>) -> Seq<(Seq<char>, HintView)>
    decreases ds.len(),
{
    if ds.len() == 0 {
        Seq::empty()
    } else {
        all_pairs(ds.drop_last()) + doc_pairs(ds.last())
    }
}

/// The pairs as a map: a later pair for the same reference wins.
pub open spec fn pairs_map(ps: Seq<(Seq<char>, HintView)>) -> Map<Seq<char>, HintView>
    decreases ps.len(),
{
    if ps.len() == 0 {
        Map::empty()
    } else {
        pairs_map(ps.drop_last()).insert(ps.last().0, ps.last().1)
    }
}

/// The hints stored by reference.
pub open spec fn hint_model(es: Seq<(String, CandidateSemanticHints)>) -> Map<Seq<char>, HintView> {
    Map::new(|k: Seq<char>| lookup(es, k) is Some, |k: Seq<char>| lookup(es, k).unwrap()@)
}

fn put_hint(out: &mut Vec<(String, CandidateSemanticHints)>, reference: String, hint: CandidateSemanticHints)
    requires
        keys_sorted(old(out)@),
    ensures
        keys_sorted(final(out)@),
        hint_model(final(out)@) == hint_model(old(out)@).insert(reference@, hint@),
{
    let ghost before = out@;
    let ghost k = reference@;
    let ghost hv = hint@;
    put(out, reference, hint);
    assert(hint_model(out@) =~= hint_model(before).insert(k, hv));
}

fn push_spec_hints(
    out: &mut Vec<(String, CandidateSemanticHints)>,
    specs: &Vec<(String, JsonValue)>,
    name: &str,
    tags: &Vec<String>,
)
    requires
        keys_sorted(old(out)@),
    ensures
        keys_sorted(final(out)@),
        hint_model(final(out)@) == pairs_map_from(hint_model(old(out)@), spec_pairs(entries_view(specs@), name@, views(tags@))),
{
    let ghost es = entries_view(specs@);
    let ghost ps = spec_pairs(es, name@, views(tags@));
    let ghost m0 = hint_model(out@);
    let mut i: usize = 0;
    assert(ps.subrange(0, 0) =~= Seq::<(Seq<char>, HintView)>::empty());
    while i < specs.len()
        invariant
            i <= specs@.len(),
            es == entries_view(specs@),
            ps == spec_pairs(es, name@, views(tags@)),
            keys_sorted(out@),
            hint_model(out@) == pairs_map_from(m0, ps.subrange(0, i as int)),
        decreases specs.len() - i,
    {
        let ghost cur = ps.subrange(0, i + 1);
        assert(cur.drop_last() =~= ps.subrange(0, i as int));
        let slash = concat(name, "/");
        let reference = concat(slash.as_str(), specs[i].0.as_str());
        let hint = CandidateSemanticHints {
            declared_topics: extract_declared_topics(&specs[i].1),
            risk_tags: extract_string_array(specs[i].1.get("risk_tags")),
            protocol_tags: copy_strings(tags),
        };
        assert(cur.last() == (reference@, hint@));
        put_hint(out, reference, hint);
        i = i + 1;
    }
    assert(ps.subrange(0, ps.len() as int) =~= ps);
}

/// `m` with the pairs stored in order.
pub open spec fn pairs_map_from(m: Map<Seq<char>, HintView>, ps: Seq<(Seq<char>, HintView)>) -> Map<Seq<char>, HintView>
    decreases ps.len(),
{
    if ps.len() == 0 {
        m
    } else {
        pairs_map_from(m, ps.drop_last()).insert(ps.last().0, ps.last().1)
    }
}

proof fn lemma_pairs_map_from_append(m: Map<Seq<char>, HintView>, a: Seq<(Seq<char>, HintView)>, b: Seq<(Seq<char>, HintView)>)
    ensures
        pairs_map_from(pairs_map_from(m, a), b) == pairs_map_from(m, a + b),
    decreases b.len(),
{
    if b.len() == 0 {
        assert(a + b =~= a);
    } else {
        lemma_pairs_map_from_append(m, a, b.drop_last());
        assert((a + b).drop_last() =~= a + b.drop_last());
        assert((a + b).last() == b.last());
    }
}

proof fn lemma_pairs_map_is_from_empty(ps: Seq<(Seq<char>, HintView)>)
    ensures
        pairs_map(ps) == pairs_map_from(Map::empty(), ps),
    decreases ps.len(),
{
    if ps.len() > 0 {
        lemma_pairs_map_is_from_empty(ps.drop_last());
    }
}

/// The hints of every candidate of the protocols, by reference.
pub fn build_semantic_hints_by_ref(protocols: &Vec<ProtocolDocument>) -> (r: Vec<(String, CandidateSemanticHints)>)
    ensures
        keys_sorted(r@),
        hint_model(r@) == pairs_map(all_pairs(protocols@)),
{
    let mut out: Vec<(String, CandidateSemanticHints)> = Vec::new();
    let ghost ds = protocols@;
    let mut i: usize = 0;
    assert(hint_model(out@) =~= Map::<Seq<char>, HintView>::empty());
    assert(ds.subrange(0, 0) =~= Seq::<ProtocolDocument>::empty());
    while i < protocols.len()
        invariant
            i <= ds.len(),
            ds == protocols@,
            keys_sorted(out@),
            hint_model(out@) == pairs_map_from(Map::empty(), all_pairs(ds.subrange(0, i as int))),
        decreases protocols.len() - i,
    {
        let ghost cur = ds.subrange(0, i + 1);
        assert(cur.drop_last() =~= ds.subrange(0, i as int));
        assert(cur.last() == ds[i as int]);
        let ghost before = all_pairs(ds.subrange(0, i as int));
        let p = &protocols[i];
        match protocol_schema_name(p) {
            Some(name) => {
                let tags = match p.meta.get("tags") {
                    Some(t) => extract_string_array(Some(t)),
                    None => extract_string_array(None),
                };
                let ghost mid = hint_model(out@);
                push_spec_hints(&mut out, &p.actions, name.as_str(), &tags);
                let ghost a = spec_pairs(entries_view(p.actions@), name@, views(tags@));
                push_spec_hints(&mut out, &p.queries, name.as_str(), &tags);
                let ghost q = spec_pairs(entries_view(p.queries@), name@, views(tags@));
                proof {
                    lemma_pairs_map_from_append(mid, a, q);
                    lemma_pairs_map_from_append(Map::empty(), before, a + q);
                    assert(before + (a + q) =~= all_pairs(cur));
                }
            },
            None => {
                assert(all_pairs(cur) =~= before);
            },
        }
        i = i + 1;
    }
    assert(ds.subrange(0, ds.len() as int) =~= ds);
    proof {
        lemma_pairs_map_is_from_empty(all_pairs(ds));
    }
    out
}


// ---------------------------------------------------------------------------
// The capability view
// ---------------------------------------------------------------------------

/// One candidate as the capability view sees it.
pub struct CandidateInfo {
    pub protocol: String,
    pub name: String,
    pub reference: String,
    pub is_action: bool,
    pub required: Vec<String>,
    pub topic: String,
    pub chains: Vec<String>,
}

pub struct InfoView {
    pub protocol: Seq<char>,
    pub name: Seq<char>,
    pub reference: Seq<char>,
    pub is_action: bool,
    pub required: Seq<Seq<char>>,
    pub topic: Seq<char>,
    pub chains: Seq<Seq<char>>,
}

impl View for CandidateInfo {
    type V = InfoView;

    open spec fn view(&self) -> InfoView {
        InfoView {
            protocol: self.protocol@,
            name: self.name@,
            reference: self.reference@,
            is_action: self.is_action,
            required: views(self.required@),
            topic: self.topic@,
            chains: views(self.chains@),
        }
    }
}

pub open spec fn info_views(v: Seq<CandidateInfo>) -> Seq<InfoView> {
    v.map_values(|c: CandidateInfo| c@)
}

/// Some action card has this reference.
pub open spec fn is_action_ref(actions: Seq<JsonValue>, r: Seq<char>) -> bool {
    exists|i: int| 0 <= i < actions.len() && field_str((#[trigger] actions[i])@, "ref"@) == Some(r)
}

/// What the view takes from a card whose reference is `protocol/name`:
/// whether it is an action, its required inputs, its topic (from its
/// protocol's hints, with the detail card's risk tags where the hints have
/// none) and its execution chains.
pub open spec fn card_info(ctx: CandidateContext, hints: Map<Seq<char>, HintView>, card: JsonView) -> Option<InfoView> {
    match field_str(card, "ref"@) {
        None => None,
        Some(r) => match split_once_spec(r, "/"@) {
            None => None,
            Some(parts) => {
                let is_action = is_action_ref(ctx.executable_candidates.actions@, r);
                let kind = if is_action {
                    "action"@
                } else {
                    "query"@
                };
                let fallback = match lookup(ctx.detail_by_ref@, r) {
                    Some(d) => strings_at(field(d@, "risk_tags"@)),
                    None => Seq::empty(),
                };
                let declared = if hints.dom().contains(r) {
                    hints[r].declared_topics
                } else {
                    Seq::empty()
                };
                let risk = if hints.dom().contains(r) && hints[r].risk_tags.len() > 0 {
                    hints[r].risk_tags
                } else {
                    fallback
                };
                let ptags = if hints.dom().contains(r) {
                    hints[r].protocol_tags
                } else {
                    Seq::empty()
                };
                Some(
                    InfoView {
                        protocol: parts.0,
                        name: parts.1,
                        reference: r,
                        is_action,
                        required: required_inputs_spec(ctx.detail_by_ref@, r),
                        topic: semantic_topic_spec(kind, declared, risk, ptags),
                        chains: strings_at(field(card, "execution_chains"@)),
                    },
                )
            },
        },
    }
}

/// The infos of the cards, in order.
pub open spec fn infos_of(ctx: CandidateContext, hints: Map<Seq<char>, HintView>, cards: Seq<JsonView>) -> Seq<InfoView>
    decreases cards.len(),
{
    if cards.len() == 0 {
        Seq::empty()
    } else {
        infos_of(ctx, hints, cards.drop_last()) + match card_info(ctx, hints, cards.last()) {
            Some(c) => seq![c],
            None => Seq::<InfoView>::empty(),
        }
    }
}

/// The infos of the actions, then of the queries.
pub open spec fn all_infos(ctx: CandidateContext) -> Seq<InfoView> {
    infos_of(
        ctx,
        pairs_map(all_pairs(ctx.protocols@)),
        items_view(ctx.executable_candidates.actions@) + items_view(ctx.executable_candidates.queries@),
    )
}

/// An info of protocol `p` (with topic `t` and kind `action`, when given).
pub open spec fn selected(c: InfoView, p: Seq<char>, t: Option<Seq<char>>, action: Option<bool>) -> bool {
    c.protocol == p && match t {
        Some(x) => c.topic == x,
        None => true,
    } && match action {
        Some(a) => c.is_action == a,
        None => true,
    }
}

/// The chains (0), reference (1), required inputs (2) or topic (3) of an info.
pub open spec fn field_texts(c: InfoView, mode: u8) -> Seq<Seq<char>> {
    if mode == 0 {
        c.chains
    } else if mode == 1 {
        seq![c.reference]
    } else if mode == 2 {
        c.required
    } else {
        seq![c.topic]
    }
}

/// The texts of the selected infos, in order.
pub open spec fn gather(is: Seq<InfoView>, p: Seq<char>, t: Option<Seq<char>>, action: Option<bool>, mode: u8) -> Seq<
    Seq<char>,
>
    decreases is.len(),
{
    if is.len() == 0 {
        Seq::empty()
    } else {
        gather(is.drop_last(), p, t, action, mode) + if selected(is.last(), p, t, action) {
            field_texts(is.last(), mode)
        } else {
            Seq::<Seq<char>>::empty()
        }
    }
}

/// Sorted, each once.
pub open spec fn su(xs: Seq<Seq<char>>) -> Seq<Seq<char>> {
    key_list(sorted_keys(xs))
}

pub open spec fn no_info() -> InfoView {
    InfoView {
        protocol: Seq::empty(),
        name: Seq::empty(),
        reference: Seq::empty(),
        is_action: false,
        required: Seq::empty(),
        topic: Seq::empty(),
        chains: Seq::empty(),
    }
}

/// The first info with reference `r`.
pub open spec fn info_for(is: Seq<InfoView>, r: Seq<char>) -> InfoView
    decreases is.len(),
{
    if is.len() == 0 {
        no_info()
    } else if is[0].reference == r {
        is[0]
    } else {
        info_for(is.drop_first(), r)
    }
}

/// An action or query of a protocol entry.
pub open spec fn named_item(c: InfoView) -> JsonView {
    let e0 = obj_insert(Seq::empty(), "name"@, JsonView::Str(c.name));
    let e1 = obj_insert(e0, "ref"@, JsonView::Str(c.reference));
    let e2 = obj_insert(e1, "required_inputs"@, JsonView::Array(str_items(c.required)));
    JsonView::Object(obj_insert(e2, "topic"@, JsonView::Str(c.topic)))
}

/// The card of one topic of a protocol: its action and query references,
/// required inputs and chains, each sorted and once.
pub open spec fn topic_card(is: Seq<InfoView>, p: Seq<char>, t: Seq<char>) -> JsonView {
    let e0 = obj_insert(Seq::empty(), "topic"@, JsonView::Str(t));
    let e1 = obj_insert(e0, "actions"@, JsonView::Array(str_items(su(gather(is, p, Some(t), Some(true), 1)))));
    let e2 = obj_insert(e1, "queries"@, JsonView::Array(str_items(su(gather(is, p, Some(t), Some(false), 1)))));
    let e3 = obj_insert(e2, "required_inputs"@, JsonView::Array(str_items(su(gather(is, p, Some(t), None, 2)))));
    JsonView::Object(obj_insert(e3, "chains"@, JsonView::Array(str_items(su(gather(is, p, Some(t), None, 0))))))
}

/// The entry of one protocol: its chains, its actions and queries sorted by
/// reference, its required inputs and topics (sorted, once) and its topic
/// cards in topic order.
pub open spec fn protocol_entry(is: Seq<InfoView>, p: Seq<char>) -> JsonView {
    let topics = su(gather(is, p, None, None, 3));
    let e0 = obj_insert(Seq::empty(), "protocol"@, JsonView::Str(p));
    let e1 = obj_insert(e0, "chains"@, JsonView::Array(str_items(su(gather(is, p, None, None, 0)))));
    let e2 = obj_insert(
        e1,
        "actions"@,
        JsonView::Array(su(gather(is, p, None, Some(true), 1)).map_values(|r: Seq<char>| named_item(info_for(is, r)))),
    );
    let e3 = obj_insert(
        e2,
        "queries"@,
        JsonView::Array(su(gather(is, p, None, Some(false), 1)).map_values(|r: Seq<char>| named_item(info_for(is, r)))),
    );
    let e4 = obj_insert(e3, "required_inputs"@, JsonView::Array(str_items(su(gather(is, p, None, None, 2)))));
    let e5 = obj_insert(e4, "topics"@, JsonView::Array(str_items(topics)));
    JsonView::Object(
        obj_insert(e5, "topic_cards"@, JsonView::Array(topics.map_values(|t: Seq<char>| topic_card(is, p, t)))),
    )
}

pub open spec fn protocols_of(is: Seq<InfoView>) -> Seq<Seq<char>> {
    su(is.map_values(|c: InfoView| c.protocol))
}

pub open spec fn topics_of(is: Seq<InfoView>) -> Seq<Seq<char>> {
    su(is.map_values(|c: InfoView| c.topic))
}

/// The capability view: one entry per protocol (in protocol order), every
/// topic once, and the counts.
pub open spec fn capability_spec(is: Seq<InfoView>, n_actions: nat, n_queries: nat) -> JsonView {
    let ps = protocols_of(is);
    let ts = topics_of(is);
    let c0 = obj_insert(Seq::empty(), "protocols"@, JsonView::Number(NumberView::PosInt(ps.len() as u64)));
    let c1 = obj_insert(c0, "actions"@, JsonView::Number(NumberView::PosInt(n_actions as u64)));
    let c2 = obj_insert(c1, "queries"@, JsonView::Number(NumberView::PosInt(n_queries as u64)));
    let c3 = obj_insert(c2, "topics"@, JsonView::Number(NumberView::PosInt(ts.len() as u64)));
    let e0 = obj_insert(Seq::empty(), "schema"@, JsonView::Str("ais-agent-capability-view/0.0.2"@));
    let e1 = obj_insert(e0, "ready"@, JsonView::Bool(ps.len() > 0));
    let e2 = obj_insert(e1, "protocols"@, JsonView::Array(ps.map_values(|p: Seq<char>| protocol_entry(is, p))));
    let e3 = obj_insert(e2, "topics"@, JsonView::Array(str_items(ts)));
    JsonView::Object(obj_insert(e3, "counts"@, JsonView::Object(c3)))
}

proof fn lemma_sorted_keys_members(xs: Seq<Seq<char>>)
    ensures
        forall|j: int| 0 <= j < su(xs).len() ==> exists|m: int| 0 <= m < xs.len() && xs[m] == #[trigger] su(xs)[j],
    decreases xs.len(),
{
    if xs.len() > 0 {
        let prev = xs.drop_last();
        lemma_sorted_keys_members(prev);
        crate::json::lemma_obj_insert_keys(sorted_keys(prev), xs.last(), JsonView::Null);
        let r = sorted_keys(xs);
        assert forall|j: int| 0 <= j < su(xs).len() implies exists|m: int| 0 <= m < xs.len() && xs[m] == #[trigger] su(
            xs,
        )[j] by {
            assert(su(xs)[j] == r[j].0);
            if r[j].0 == xs.last() {
                assert(xs[xs.len() - 1] == su(xs)[j]);
            } else {
                let w = choose|m: int| 0 <= m < sorted_keys(prev).len() && sorted_keys(prev)[m].0 == r[j].0;
                assert(su(prev)[w] == r[j].0);
                let v = choose|m: int| 0 <= m < prev.len() && prev[m] == #[trigger] su(prev)[w];
                assert(xs[v] == prev[v]);
            }
        }
    }
}

proof fn lemma_gathered_ref_has_info(is: Seq<InfoView>, p: Seq<char>, action: Option<bool>, r: Seq<char>)
    requires
        gather(is, p, None, action, 1).contains(r),
    ensures
        exists|i: int| 0 <= i < is.len() && (#[trigger] is[i]).reference == r,
    decreases is.len(),
{
    let prev = gather(is.drop_last(), p, None, action, 1);
    if prev.contains(r) {
        lemma_gathered_ref_has_info(is.drop_last(), p, action, r);
        let i = choose|i: int| 0 <= i < is.drop_last().len() && (#[trigger] is.drop_last()[i]).reference == r;
        assert(is[i] == is.drop_last()[i]);
    } else {
        let k = choose|k: int| 0 <= k < gather(is, p, None, action, 1).len() && gather(is, p, None, action, 1)[k] == r;
        assert(k >= prev.len());
        assert(is[is.len() - 1].reference == r);
    }
}

fn copy_info(c: &CandidateInfo) -> (r: CandidateInfo)
    ensures
        r@ == c@,
{
    CandidateInfo {
        protocol: to_owned_string(c.protocol.as_str()),
        name: to_owned_string(c.name.as_str()),
        reference: to_owned_string(c.reference.as_str()),
        is_action: c.is_action,
        required: copy_strings(&c.required),
        topic: to_owned_string(c.topic.as_str()),
        chains: copy_strings(&c.chains),
    }
}

fn info_for_exec(infos: &Vec<CandidateInfo>, r: &str) -> (out: CandidateInfo)
    requires
        exists|i: int| 0 <= i < infos@.len() && (#[trigger] info_views(infos@)[i]).reference == r@,
    ensures
        out@ == info_for(info_views(infos@), r@),
{
    let ghost iv = info_views(infos@);
    let mut i: usize = 0;
    assert(iv.subrange(0, iv.len() as int) =~= iv);
    while i < infos.len()
        invariant
            i <= infos@.len(),
            iv == info_views(infos@),
            info_for(iv, r@) == info_for(iv.subrange(i as int, iv.len() as int), r@),
            forall|k: int| 0 <= k < i ==> (#[trigger] iv[k]).reference != r@,
        decreases infos.len() - i,
    {
        let ghost rest = iv.subrange(i as int, iv.len() as int);
        assert(rest[0] == iv[i as int]);
        assert(rest.drop_first() =~= iv.subrange(i + 1, iv.len() as int));
        if str_eq(infos[i].reference.as_str(), r) {
            return copy_info(&infos[i]);
        }
        i = i + 1;
    }
    proof {
        let w = choose|k: int| 0 <= k < infos@.len() && (#[trigger] info_views(infos@)[k]).reference == r@;
        assert(iv[w].reference == r@);
        assert(false);
    }
    copy_info(&infos[0])
}

fn selected_exec(c: &CandidateInfo, p: &str, t: Option<&str>, action: Option<bool>) -> (r: bool)
    ensures
        r == selected(
            c@,
            p@,
            match t {
                Some(x) => Some(x@),
                None => None,
            },
            action,
        ),
{
    str_eq(c.protocol.as_str(), p) && match t {
        Some(x) => str_eq(c.topic.as_str(), x),
        None => true,
    } && match action {
        Some(a) => c.is_action == a,
        None => true,
    }
}

fn gather_exec(infos: &Vec<CandidateInfo>, p: &str, t: Option<&str>, action: Option<bool>, mode: u8) -> (r: Vec<
    String,
>)
    ensures
        views(r@) == gather(
            info_views(infos@),
            p@,
            match t {
                Some(x) => Some(x@),
                None => None,
            },
            action,
            mode,
        ),
{
    let ghost iv = info_views(infos@);
    let ghost tv = match t {
        Some(x) => Some(x@),
        None => None,
    };
    let mut out: Vec<String> = Vec::new();
    let mut i: usize = 0;
    assert(views(out@) =~= gather(iv.subrange(0, 0), p@, tv, action, mode));
    while i < infos.len()
        invariant
            i <= infos@.len(),
            iv == info_views(infos@),
            tv == (match t {
                Some(x) => Some(x@),
                None => None,
            }),
            views(out@) == gather(iv.subrange(0, i as int), p@, tv, action, mode),
        decreases infos.len() - i,
    {
        let ghost cur = iv.subrange(0, i + 1);
        assert(cur.drop_last() =~= iv.subrange(0, i as int));
        assert(cur.last() == infos@[i as int]@);
        let ghost prev = views(out@);
        if selected_exec(&infos[i], p, t, action) {
            let c = &infos[i];
            if mode == 0 {
                let more = copy_strings(&c.chains);
                let mut k: usize = 0;
                while k < more.len()
                    invariant
                        k <= more@.len(),
                        views(out@) == prev + views(more@).subrange(0, k as int),
                    decreases more.len() - k,
                {
                    let ghost before = views(out@);
                    out.push(to_owned_string(more[k].as_str()));
                    assert(views(out@) =~= before.push(more@[k as int]@));
                    assert(views(out@) =~= prev + views(more@).subrange(0, k + 1));
                    k = k + 1;
                }
                assert(views(more@).subrange(0, more@.len() as int) =~= views(more@));
            } else if mode == 1 {
                out.push(to_owned_string(c.reference.as_str()));
                assert(views(out@) =~= prev + seq![c.reference@]);
            } else if mode == 2 {
                let more = copy_strings(&c.required);
                let mut k: usize = 0;
                while k < more.len()
                    invariant
                        k <= more@.len(),
                        views(out@) == prev + views(more@).subrange(0, k as int),
                    decreases more.len() - k,
                {
                    let ghost before = views(out@);
                    out.push(to_owned_string(more[k].as_str()));
                    assert(views(out@) =~= before.push(more@[k as int]@));
                    assert(views(out@) =~= prev + views(more@).subrange(0, k + 1));
                    k = k + 1;
                }
                assert(views(more@).subrange(0, more@.len() as int) =~= views(more@));
            } else {
                out.push(to_owned_string(c.topic.as_str()));
                assert(views(out@) =~= prev + seq![c.topic@]);
            }
        } else {
            assert(views(out@) =~= prev + Seq::<Seq<char>>::empty());
        }
        i = i + 1;
    }
    assert(iv.subrange(0, iv.len() as int) =~= iv);
    out
}

fn named_item_exec(c: &CandidateInfo) -> (r: JsonValue)
    ensures
        r@ == named_item(c@),
{
    let mut o = JsonValue::empty_object();
    o.insert(to_owned_string("name"), JsonValue::String(to_owned_string(c.name.as_str())));
    o.insert(to_owned_string("ref"), JsonValue::String(to_owned_string(c.reference.as_str())));
    o.insert(to_owned_string("required_inputs"), string_array(&c.required));
    o.insert(to_owned_string("topic"), JsonValue::String(to_owned_string(c.topic.as_str())));
    assert(c.required@.map_values(|s: String| s@) =~= views(c.required@));
    o
}

fn sorted_array(xs: &Vec<String>) -> (r: JsonValue)
    ensures
        r@ == JsonView::Array(str_items(su(views(xs@)))),
{
    let sorted = sorted_strings(xs);
    assert(sorted@.map_values(|s: String| s@) =~= views(sorted@));
    string_array(&sorted)
}

fn topic_card_exec(infos: &Vec<CandidateInfo>, p: &str, t: &str) -> (r: JsonValue)
    ensures
        r@ == topic_card(info_views(infos@), p@, t@),
{
    let mut o = JsonValue::empty_object();
    o.insert(to_owned_string("topic"), JsonValue::String(to_owned_string(t)));
    o.insert(to_owned_string("actions"), sorted_array(&gather_exec(infos, p, Some(t), Some(true), 1)));
    o.insert(to_owned_string("queries"), sorted_array(&gather_exec(infos, p, Some(t), Some(false), 1)));
    o.insert(to_owned_string("required_inputs"), sorted_array(&gather_exec(infos, p, Some(t), None, 2)));
    o.insert(to_owned_string("chains"), sorted_array(&gather_exec(infos, p, Some(t), None, 0)));
    o
}

fn items_of_refs(infos: &Vec<CandidateInfo>, p: &str, action: bool) -> (r: Vec<JsonValue>)
    ensures
        items_view(r@) == su(gather(info_views(infos@), p@, None, Some(action), 1)).map_values(
            |x: Seq<char>| named_item(info_for(info_views(infos@), x)),
        ),
{
    let ghost iv = info_views(infos@);
    let gathered = gather_exec(infos, p, None, Some(action), 1);
    let refs = sorted_strings(&gathered);
    let ghost rs = views(refs@);
    proof {
        lemma_sorted_keys_members(views(gathered@));
    }
    let mut out: Vec<JsonValue> = Vec::new();
    let mut i: usize = 0;
    while i < refs.len()
        invariant
            i <= refs@.len(),
            iv == info_views(infos@),
            rs == views(refs@),
            rs == su(gather(iv, p@, None, Some(action), 1)),
            forall|j: int| 0 <= j < rs.len() ==> exists|m: int|
                0 <= m < gather(iv, p@, None, Some(action), 1).len() && gather(iv, p@, None, Some(action), 1)[m]
                    == #[trigger] rs[j],
            items_view(out@) == rs.subrange(0, i as int).map_values(|x: Seq<char>| named_item(info_for(iv, x))),
        decreases refs.len() - i,
    {
        proof {
            let r = rs[i as int];
            assert(gather(iv, p@, None, Some(action), 1).contains(r));
            lemma_gathered_ref_has_info(iv, p@, Some(action), r);
            assert(refs@[i as int]@ == r);
        }
        let c = info_for_exec(infos, refs[i].as_str());
        let item = named_item_exec(&c);
        let ghost prev = items_view(out@);
        let ghost v = item@;
        out.push(item);
        assert(items_view(out@) =~= prev.push(v));
        assert(items_view(out@) =~= rs.subrange(0, i + 1).map_values(|x: Seq<char>| named_item(info_for(iv, x))));
        i = i + 1;
    }
    assert(rs.subrange(0, rs.len() as int) =~= rs);
    out
}

fn protocol_entry_exec(infos: &Vec<CandidateInfo>, p: &str) -> (r: JsonValue)
    ensures
        r@ == protocol_entry(info_views(infos@), p@),
{
    let ghost iv = info_views(infos@);
    let topics = sorted_strings(&gather_exec(infos, p, None, None, 3));
    let ghost ts = views(topics@);
    let mut cards: Vec<JsonValue> = Vec::new();
    let mut i: usize = 0;
    while i < topics.len()
        invariant
            i <= topics@.len(),
            iv == info_views(infos@),
            ts == views(topics@),
            items_view(cards@) == ts.subrange(0, i as int).map_values(|t: Seq<char>| topic_card(iv, p@, t)),
        decreases topics.len() - i,
    {
        let card = topic_card_exec(infos, p, topics[i].as_str());
        let ghost prev = items_view(cards@);
        let ghost v = card@;
        cards.push(card);
        assert(items_view(cards@) =~= prev.push(v));
        assert(items_view(cards@) =~= ts.subrange(0, i + 1).map_values(|t: Seq<char>| topic_card(iv, p@, t)));
        i = i + 1;
    }
    assert(ts.subrange(0, ts.len() as int) =~= ts);
    let actions = items_of_refs(infos, p, true);
    let queries = items_of_refs(infos, p, false);
    proof {
        lemma_array_view(actions);
        lemma_array_view(queries);
        lemma_array_view(cards);
    }
    let mut o = JsonValue::empty_object();
    o.insert(to_owned_string("protocol"), JsonValue::String(to_owned_string(p)));
    o.insert(to_owned_string("chains"), sorted_array(&gather_exec(infos, p, None, None, 0)));
    o.insert(to_owned_string("actions"), JsonValue::Array(actions));
    o.insert(to_owned_string("queries"), JsonValue::Array(queries));
    o.insert(to_owned_string("required_inputs"), sorted_array(&gather_exec(infos, p, None, None, 2)));
    assert(topics@.map_values(|s: String| s@) =~= ts);
    o.insert(to_owned_string("topics"), string_array(&topics));
    o.insert(to_owned_string("topic_cards"), JsonValue::Array(cards));
    o
}

impl CandidateContext {
    fn card_info_exec(&self, hints: &Vec<(String, CandidateSemanticHints)>, card: &JsonValue) -> (r: Option<
        CandidateInfo,
    >)
        requires
            self.wf(),
            keys_sorted(hints@),
        ensures
            match r {
                Some(c) => card_info(*self, hint_model(hints@), card@) == Some(c@),
                None => card_info(*self, hint_model(hints@), card@) is None,
            },
    {
        let reference = match str_field(card, "ref") {
            Some(r) => r,
            None => {
                return None;
            },
        };
        let (protocol, name) = match str_split_once(reference, "/") {
            Some(parts) => parts,
            None => {
                return None;
            },
        };
        let mut is_action = false;
        let mut i: usize = 0;
        while i < self.executable_candidates.actions.len()
            invariant
                i <= self.executable_candidates.actions@.len(),
                is_action == exists|k: int|
                    0 <= k < i && field_str((#[trigger] self.executable_candidates.actions@[k])@, "ref"@) == Some(
                        reference@,
                    ),
            decreases self.executable_candidates.actions.len() - i,
        {
            match str_field(&self.executable_candidates.actions[i], "ref") {
                Some(r) => {
                    if str_eq(r, reference) {
                        is_action = true;
                    }
                },
                None => {},
            }
            i = i + 1;
        }
        let required = self.required_inputs_for_ref(reference);
        let kind = if is_action {
            "action"
        } else {
            "query"
        };
        let fallback = match find_key(&self.detail_by_ref, reference) {
            Ok(k) => extract_string_array(self.detail_by_ref[k].1.get("risk_tags")),
            Err(_) => extract_string_array(None),
        };
        let (declared, risk, ptags) = match find_key(hints, reference) {
            Ok(k) => {
                let h = &hints[k].1;
                assert(hint_model(hints@).dom().contains(reference@));
                assert(hint_model(hints@)[reference@] == h@);
                let risk = if h.risk_tags.len() > 0 {
                    copy_strings(&h.risk_tags)
                } else {
                    fallback
                };
                (copy_strings(&h.declared_topics), risk, copy_strings(&h.protocol_tags))
            },
            Err(_) => {
                assert(!hint_model(hints@).dom().contains(reference@));
                let d: Vec<String> = Vec::new();
                let t: Vec<String> = Vec::new();
                assert(views(d@) =~= Seq::<Seq<char>>::empty());
                assert(views(t@) =~= Seq::<Seq<char>>::empty());
                (d, fallback, t)
            },
        };
        let topic = semantic_topic_for_candidate(kind, &declared, &risk, &ptags);
        let chains = extract_string_array(card.get("execution_chains"));
        Some(CandidateInfo { protocol, name, reference: to_owned_string(reference), is_action, required, topic, chains })
    }

    /// The capability view of the executable candidates.
    pub fn capability_view(&self) -> (r: JsonValue)
        requires
            self.wf(),
        ensures
            r@ == capability_spec(
                all_infos(*self),
                self.executable_candidates.actions@.len(),
                self.executable_candidates.queries@.len(),
            ),
    {
        let hints = build_semantic_hints_by_ref(&self.protocols);
        let ghost hm = hint_model(hints@);
        let ghost cards = items_view(self.executable_candidates.actions@) + items_view(
            self.executable_candidates.queries@,
        );
        let ghost na = self.executable_candidates.actions@.len();
        let mut infos: Vec<CandidateInfo> = Vec::new();
        let mut i: usize = 0;
        assert(info_views(infos@) =~= infos_of(*self, hm, cards.subrange(0, 0)));
        while i < self.executable_candidates.actions.len()
            invariant
                i <= na,
                na == self.executable_candidates.actions@.len(),
                self.wf(),
                keys_sorted(hints@),
                hm == hint_model(hints@),
                cards == items_view(self.executable_candidates.actions@) + items_view(
                    self.executable_candidates.queries@,
                ),
                info_views(infos@) == infos_of(*self, hm, cards.subrange(0, i as int)),
            decreases self.executable_candidates.actions.len() - i,
        {
            let ghost cur = cards.subrange(0, i + 1);
            assert(cur.drop_last() =~= cards.subrange(0, i as int));
            assert(cur.last() == self.executable_candidates.actions@[i as int]@);
            let ghost prev = info_views(infos@);
            match self.card_info_exec(&hints, &self.executable_candidates.actions[i]) {
                Some(c) => {
                    let ghost cv = c@;
                    infos.push(c);
                    assert(info_views(infos@) =~= prev + seq![cv]);
                },
                None => {
                    assert(info_views(infos@) =~= prev + Seq::<InfoView>::empty());
                },
            }
            i = i + 1;
        }
        let mut j: usize = 0;
        while j < self.executable_candidates.queries.len()
            invariant
                j <= self.executable_candidates.queries@.len(),
                na == self.executable_candidates.actions@.len(),
                self.wf(),
                keys_sorted(hints@),
                hm == hint_model(hints@),
                cards == items_view(self.executable_candidates.actions@) + items_view(
                    self.executable_candidates.queries@,
                ),
                info_views(infos@) == infos_of(*self, hm, cards.subrange(0, na + j)),
            decreases self.executable_candidates.queries.len() - j,
        {
            let ghost cur = cards.subrange(0, na + j + 1);
            assert(cur.drop_last() =~= cards.subrange(0, na + j));
            assert(cur.last() == self.executable_candidates.queries@[j as int]@);
            let ghost prev = info_views(infos@);
            match self.card_info_exec(&hints, &self.executable_candidates.queries[j]) {
                Some(c) => {
                    let ghost cv = c@;
                    infos.push(c);
                    assert(info_views(infos@) =~= prev + seq![cv]);
                },
                None => {
                    assert(info_views(infos@) =~= prev + Seq::<InfoView>::empty());
                },
            }
            j = j + 1;
        }
        assert(cards.subrange(0, cards.len() as int) =~= cards);
        let ghost iv = info_views(infos@);
        assert(iv == all_infos(*self));
        let mut names: Vec<String> = Vec::new();
        let mut topics: Vec<String> = Vec::new();
        let mut k: usize = 0;
        while k < infos.len()
            invariant
                k <= infos@.len(),
                iv == info_views(infos@),
                views(names@) == iv.subrange(0, k as int).map_values(|c: InfoView| c.protocol),
                views(topics@) == iv.subrange(0, k as int).map_values(|c: InfoView| c.topic),
            decreases infos.len() - k,
        {
            let ghost pn = views(names@);
            let ghost pt = views(topics@);
            names.push(to_owned_string(infos[k].protocol.as_str()));
            topics.push(to_owned_string(infos[k].topic.as_str()));
            assert(views(names@) =~= pn.push(iv[k as int].protocol));
            assert(views(topics@) =~= pt.push(iv[k as int].topic));
            assert(views(names@) =~= iv.subrange(0, k + 1).map_values(|c: InfoView| c.protocol));
            assert(views(topics@) =~= iv.subrange(0, k + 1).map_values(|c: InfoView| c.topic));
            k = k + 1;
        }
        assert(iv.subrange(0, iv.len() as int) =~= iv);
        let protocols = sorted_strings(&names);
        let ghost ps = views(protocols@);
        let mut entries: Vec<JsonValue> = Vec::new();
        let mut m: usize = 0;
        while m < protocols.len()
            invariant
                m <= protocols@.len(),
                iv == info_views(infos@),
                ps == views(protocols@),
                items_view(entries@) == ps.subrange(0, m as int).map_values(|p: Seq<char>| protocol_entry(iv, p)),
            decreases protocols.len() - m,
        {
            let e = protocol_entry_exec(&infos, protocols[m].as_str());
            let ghost prev = items_view(entries@);
            let ghost v = e@;
            entries.push(e);
            assert(items_view(entries@) =~= prev.push(v));
            assert(items_view(entries@) =~= ps.subrange(0, m + 1).map_values(|p: Seq<char>| protocol_entry(iv, p)));
            m = m + 1;
        }
        assert(ps.subrange(0, ps.len() as int) =~= ps);
        let protocol_count = protocols.len();
        let all_topics = sorted_strings(&topics);
        let mut counts = JsonValue::empty_object();
        counts.insert(to_owned_string("protocols"), count_value(protocol_count));
        counts.insert(to_owned_string("actions"), count_value(self.executable_candidates.actions.len()));
        counts.insert(to_owned_string("queries"), count_value(self.executable_candidates.queries.len()));
        counts.insert(to_owned_string("topics"), count_value(all_topics.len()));
        proof {
            lemma_array_view(entries);
        }
        let mut o = JsonValue::empty_object();
        o.insert(
            to_owned_string("schema"),
            JsonValue::String(to_owned_string("ais-agent-capability-view/0.0.2")),
        );
        o.insert(to_owned_string("ready"), JsonValue::Bool(protocol_count > 0));
        o.insert(to_owned_string("protocols"), JsonValue::Array(entries));
        assert(all_topics@.map_values(|s: String| s@) =~= views(all_topics@));
        o.insert(to_owned_string("topics"), string_array(&all_topics));
        o.insert(to_owned_string("counts"), counts);
        o
    }
}

} // verus!
