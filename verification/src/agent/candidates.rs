//! Searching the executable candidates of a workspace: topic names, search
//! tokens and the filters applied to candidate cards.
use vstd::prelude::*;
use crate::keyed::{keys_sorted, lookup, put, find_key, lemma_lookup_sorted_at, lemma_lookup_absent};
use crate::text::{
    CharClass, chars_of, is_ascii_alnum, is_ascii_alnum_char, join, join_strings, lower, occurs_at,
    matches_at, push_char, push_str, seq_lt, split_by, split_chars, starts_with, str_eq,
    str_starts_with, str_strip_suffix, string_from_chars, strip_suffix, to_ascii_lowercase,
    to_owned_string, trim, trim_by, trim_str, trim_str_by, contains, str_contains, parse_unsigned,
    parse_unsigned_chars, str_to_lowercase, unicode_lowercase,
};
use crate::json::{JsonValue, JsonView, NumberView, entries_view, insert_entry, items_view, obj_get,
    obj_insert, pointer_spec, view_as_str, lemma_array_view};

verus! {

// ---------------------------------------------------------------------------
// Topics
// ---------------------------------------------------------------------------

/// Characters that a topic name keeps as they are.
pub open spec fn topic_keeps(c: char) -> bool {
    is_ascii_alnum(c) || c == '.' || c == '_'
}

/// The kept characters of `s`, with each run of other characters made one
/// dash (`prev_dash`: a dash was just written).
pub open spec fn dash_runs(s: Seq<char>, prev_dash: bool) -> Seq<char>
    decreases s.len(),
{
    if s.len() == 0 {
        Seq::empty()
    } else if topic_keeps(s[0]) {
        seq![s[0]] + dash_runs(s.drop_first(), false)
    } else if prev_dash {
        dash_runs(s.drop_first(), true)
    } else {
        seq!['-'] + dash_runs(s.drop_first(), true)
    }
}

/// A topic name: the trimmed, lower-cased text with runs of other
/// characters made one dash and dashes trimmed off both ends; none when
/// nothing is left.
pub open spec fn topic_spec(v: Seq<char>) -> Option<Seq<char>> {
    let t = lower(trim(v));
    let n = trim_by(dash_runs(t, false), CharClass::One('-'));
    if t.len() == 0 || n.len() == 0 {
        None
    } else {
        Some(n)
    }
}

pub fn normalize_topic(value: &str) -> (r: Option<String>)
    ensures
        match r {
            Some(s) => topic_spec(value@) == Some(s@),
            None => topic_spec(value@) is None,
        },
{
    let trimmed = trim_str(value);
    let lowered = to_ascii_lowercase(trimmed.as_str());
    if lowered.as_str().unicode_len() == 0 {
        return None;
    }
    let cs = chars_of(lowered.as_str());
    let ghost t = cs@;
    let mut out: Vec<char> = Vec::new();
    let mut prev_dash = false;
    let mut i: usize = 0;
    assert(t.subrange(0, t.len() as int) =~= t);
    assert(out@ + dash_runs(t, false) =~= dash_runs(t, false));
    while i < cs.len()
        invariant
            i <= cs@.len(),
            t == cs@,
            out@ + dash_runs(t.subrange(i as int, t.len() as int), prev_dash) == dash_runs(t, false),
        decreases cs.len() - i,
    {
        let ch = cs[i];
        let ghost rest = t.subrange(i as int, t.len() as int);
        assert(rest[0] == ch);
        assert(rest.drop_first() =~= t.subrange(i + 1, t.len() as int));
        if is_ascii_alnum_char(ch) || ch == '.' || ch == '_' {
            assert(out@.push(ch) + dash_runs(rest.drop_first(), false) =~= out@ + (seq![ch] + dash_runs(
                rest.drop_first(),
                false,
            )));
            out.push(ch);
            prev_dash = false;
        } else if !prev_dash {
            assert(out@.push('-') + dash_runs(rest.drop_first(), true) =~= out@ + (seq!['-'] + dash_runs(
                rest.drop_first(),
                true,
            )));
            out.push('-');
            prev_dash = true;
        }
        i = i + 1;
    }
    assert(t.subrange(cs@.len() as int, t.len() as int) =~= Seq::<char>::empty());
    assert(out@ + Seq::<char>::empty() =~= out@);
    let joined = string_from_chars(&out);
    let normalized = trim_str_by(joined.as_str(), CharClass::One('-'));
    if normalized.as_str().unicode_len() == 0 {
        return None;
    }
    Some(normalized)
}

/// The topic of the first tag that names one.
pub open spec fn first_topic(tags: Seq<Seq<char>>) -> Option<Seq<char>>
    decreases tags.len(),
{
    if tags.len() == 0 {
        None
    } else {
        match topic_spec(tags[0]) {
            Some(t) => Some(t),
            None => first_topic(tags.drop_first()),
        }
    }
}

pub open spec fn views(v: Seq<String>) -> Seq<Seq<char>> {
    v.map_values(|s: String| s@)
}

/// The topic of a candidate: its first declared topic; else `kind.topic`
/// from its first risk tag naming a topic, else from its first protocol tag
/// naming one; else `kind.general`.
pub open spec fn semantic_topic_spec(
    kind: Seq<char>,
    declared: Seq<Seq<char>>,
    risk_tags: Seq<Seq<char>>,
    protocol_tags: Seq<Seq<char>>,
) -> Seq<char> {
    if declared.len() > 0 {
        declared[0]
    } else {
        match first_topic(risk_tags) {
            Some(t) => kind + "."@ + t,
            None => match first_topic(protocol_tags) {
                Some(t) => kind + "."@ + t,
                None => kind + ".general"@,
            },
        }
    }
}

fn first_tag_topic(tags: &Vec<String>) -> (r: Option<String>)
    ensures
        match r {
            Some(s) => first_topic(views(tags@)) == Some(s@),
            None => first_topic(views(tags@)) is None,
        },
{
    let mut i: usize = 0;
    assert(views(tags@).subrange(0, tags@.len() as int) =~= views(tags@));
    while i < tags.len()
        invariant
            i <= tags@.len(),
            first_topic(views(tags@)) == first_topic(views(tags@).subrange(i as int, tags@.len() as int)),
        decreases tags.len() - i,
    {
        let ghost rest = views(tags@).subrange(i as int, tags@.len() as int);
        assert(rest[0] == tags@[i as int]@);
        assert(rest.drop_first() =~= views(tags@).subrange(i + 1, tags@.len() as int));
        match normalize_topic(tags[i].as_str()) {
            Some(t) => return Some(t),
            None => {},
        }
        i = i + 1;
    }
    None
}

pub fn semantic_topic_for_candidate(
    kind: &str,
    declared_topics: &Vec<String>,
    risk_tags: &Vec<String>,
    protocol_tags: &Vec<String>,
) -> (r: String)
    ensures
        r@ == semantic_topic_spec(kind@, views(declared_topics@), views(risk_tags@), views(protocol_tags@)),
{
    if declared_topics.len() > 0 {
        return to_owned_string(declared_topics[0].as_str());
    }
    let found = match first_tag_topic(risk_tags) {
        Some(t) => Some(t),
        None => first_tag_topic(protocol_tags),
    };
    let mut out = to_owned_string(kind);
    match found {
        Some(t) => {
            push_str(&mut out, ".");
            push_str(&mut out, t.as_str());
        },
        None => {
            push_str(&mut out, ".general");
        },
    }
    out
}

// ---------------------------------------------------------------------------
// Search tokens
// ---------------------------------------------------------------------------

/// `str::replace`: each occurrence of `p`, from the left and without
/// overlap, replaced by `r`.
pub open spec fn replace_all(s: Seq<char>, p: Seq<char>, r: Seq<char>) -> Seq<char>
    decreases s.len(),
{
    if s.len() == 0 {
        Seq::empty()
    } else if p.len() > 0 && starts_with(s, p) {
        r + replace_all(s.subrange(p.len() as int, s.len() as int), p, r)
    } else {
        seq![s[0]] + replace_all(s.drop_first(), p, r)
    }
}

pub fn replace_str(s: &str, p: &str, r: &str) -> (out: String)
    requires
        p@.len() > 0,
    ensures
        out@ == replace_all(s@, p@, r@),
{
    let cs = chars_of(s);
    let ps = chars_of(p);
    let mut out = String::new();
    let mut i: usize = 0;
    assert(cs@.subrange(0, cs@.len() as int) =~= cs@);
    assert(out@ + replace_all(cs@, ps@, r@) =~= replace_all(cs@, ps@, r@));
    while i < cs.len()
        invariant
            i <= cs@.len(),
            cs@ == s@,
            ps@ == p@,
            ps@.len() > 0,
            out@ + replace_all(cs@.subrange(i as int, cs@.len() as int), ps@, r@) == replace_all(cs@, ps@, r@),
        decreases cs.len() - i,
    {
        let ghost rest = cs@.subrange(i as int, cs@.len() as int);
        if matches_at(&cs, &ps, i) {
            assert(rest.subrange(0, ps@.len() as int) =~= cs@.subrange(i as int, i + ps@.len()));
            assert(starts_with(rest, ps@));
            assert(rest.subrange(ps@.len() as int, rest.len() as int) =~= cs@.subrange(
                i + ps@.len(),
                cs@.len() as int,
            ));
            let ghost before = out@;
            push_str(&mut out, r);
            assert(out@ + replace_all(rest.subrange(ps@.len() as int, rest.len() as int), ps@, r@) =~= before
                + replace_all(rest, ps@, r@));
            i = i + ps.len();
        } else {
            assert(!starts_with(rest, ps@)) by {
                if starts_with(rest, ps@) {
                    assert(rest.subrange(0, ps@.len() as int) =~= cs@.subrange(i as int, i + ps@.len()));
                }
            }
            assert(rest.drop_first() =~= cs@.subrange(i + 1, cs@.len() as int));
            let ghost before = out@;
            push_char(&mut out, cs[i]);
            assert(out@ + replace_all(rest.drop_first(), ps@, r@) =~= before + replace_all(rest, ps@, r@));
            i = i + 1;
        }
    }
    assert(out@ + Seq::<char>::empty() =~= out@);
    out
}

/// The parts that are not empty, in order.
pub open spec fn non_empty_parts(ps: Seq<Seq<char>>) -> Seq<Seq<char>>
    decreases ps.len(),
{
    if ps.len() == 0 {
        Seq::empty()
    } else if ps.last().len() > 0 {
        non_empty_parts(ps.drop_last()).push(ps.last())
    } else {
        non_empty_parts(ps.drop_last())
    }
}

/// The lower-cased text with the spellings `erc-20`, `erc 20` and
/// `balanceof` folded, cut at every character that is not an ASCII letter
/// or digit; empty pieces left out.
pub open spec fn tokenize_spec(v: Seq<char>) -> Seq<Seq<char>> {
    let folded = replace_all(
        replace_all(replace_all(lower(v), "erc-20"@, "erc20"@), "erc 20"@, "erc20"@),
        "balanceof"@,
        "balance"@,
    );
    non_empty_parts(split_by(folded, CharClass::NonAlnum))
}

pub fn tokenize_search_text(value: &str) -> (r: Vec<String>)
    ensures
        views(r@) == tokenize_spec(value@),
{
    let lowered = to_ascii_lowercase(value);
    proof {
        reveal_strlit("erc-20");
        reveal_strlit("erc 20");
        reveal_strlit("balanceof");
    }
    let a = replace_str(lowered.as_str(), "erc-20", "erc20");
    let b = replace_str(a.as_str(), "erc 20", "erc20");
    let c = replace_str(b.as_str(), "balanceof", "balance");
    let cs = chars_of(c.as_str());
    let parts = split_chars(&cs, CharClass::NonAlnum);
    let ghost ps = split_by(c@, CharClass::NonAlnum);
    let mut out: Vec<String> = Vec::new();
    let mut i: usize = 0;
    while i < parts.len()
        invariant
            i <= parts@.len(),
            parts@.len() == ps.len(),
            forall|k: int| 0 <= k < parts@.len() ==> #[trigger] parts@[k]@ == ps[k],
            views(out@) == non_empty_parts(ps.subrange(0, i as int)),
        decreases parts.len() - i,
    {
        let ghost pre = ps.subrange(0, i + 1);
        assert(pre.drop_last() =~= ps.subrange(0, i as int));
        assert(pre.last() == parts@[i as int]@);
        if parts[i].len() > 0 {
            let t = string_from_chars(&parts[i]);
            out.push(t);
            assert(views(out@) =~= non_empty_parts(ps.subrange(0, i as int)).push(t@));
        }
        i = i + 1;
    }
    assert(ps.subrange(0, ps.len() as int) =~= ps);
    out
}

/// The canonical form of a search token: synonyms of token, native,
/// balance and transfer folded into those words.
pub open spec fn canon_spec(t: Seq<char>) -> Seq<char> {
    if t == "erc20"@ || t == "token"@ || t == "tokens"@ {
        "token"@
    } else if t == "native"@ || t == "eth"@ {
        "native"@
    } else if t == "balanceof"@ || t == "balance"@ || t == "balances"@ {
        "balance"@
    } else if t == "transfer"@ || t == "send"@ || t == "payment"@ {
        "transfer"@
    } else {
        t
    }
}

pub fn canonicalize_search_token(token: String) -> (r: String)
    ensures
        r@ == canon_spec(token@),
{
    let t = token.as_str();
    if str_eq(t, "erc20") || str_eq(t, "token") || str_eq(t, "tokens") {
        to_owned_string("token")
    } else if str_eq(t, "native") || str_eq(t, "eth") {
        to_owned_string("native")
    } else if str_eq(t, "balanceof") || str_eq(t, "balance") || str_eq(t, "balances") {
        to_owned_string("balance")
    } else if str_eq(t, "transfer") || str_eq(t, "send") || str_eq(t, "payment") {
        to_owned_string("transfer")
    } else {
        token
    }
}

pub open spec fn canon_all(ts: Seq<Seq<char>>) -> Seq<Seq<char>> {
    ts.map_values(|t: Seq<char>| canon_spec(t))
}

fn canonical_tokens(value: &str) -> (r: Vec<String>)
    ensures
        views(r@) == canon_all(tokenize_spec(value@)),
{
    let tokens = tokenize_search_text(value);
    let mut out: Vec<String> = Vec::new();
    let mut i: usize = 0;
    while i < tokens.len()
        invariant
            i <= tokens@.len(),
            views(tokens@) == tokenize_spec(value@),
            views(out@) == canon_all(views(tokens@).subrange(0, i as int)),
        decreases tokens.len() - i,
    {
        let t = canonicalize_search_token(to_owned_string(tokens[i].as_str()));
        let ghost before = views(out@);
        out.push(t);
        assert(views(tokens@).subrange(0, i + 1) =~= views(tokens@).subrange(0, i as int).push(
            tokens@[i as int]@,
        ));
        assert(canon_all(views(tokens@).subrange(0, i + 1)) =~= canon_all(views(tokens@).subrange(0, i as int)).push(
            canon_spec(tokens@[i as int]@),
        ));
        assert(views(out@) =~= before.push(t@));
        i = i + 1;
    }
    assert(views(tokens@).subrange(0, tokens@.len() as int) =~= views(tokens@));
    out
}

/// The search text: its canonical tokens joined by single spaces.
pub open spec fn search_text_spec(v: Seq<char>) -> Seq<char> {
    join(non_empty_parts(canon_all(tokenize_spec(v))), " "@)
}

pub fn normalize_search_text(value: &str) -> (r: String)
    ensures
        r@ == search_text_spec(value@),
{
    let tokens = canonical_tokens(value);
    let ghost ts = views(tokens@);
    let mut kept: Vec<String> = Vec::new();
    let mut i: usize = 0;
    while i < tokens.len()
        invariant
            i <= tokens@.len(),
            ts == views(tokens@),
            views(kept@) == non_empty_parts(ts.subrange(0, i as int)),
        decreases tokens.len() - i,
    {
        let ghost pre = ts.subrange(0, i + 1);
        assert(pre.drop_last() =~= ts.subrange(0, i as int));
        assert(pre.last() == tokens@[i as int]@);
        if tokens[i].as_str().unicode_len() > 0 {
            kept.push(to_owned_string(tokens[i].as_str()));
            assert(views(kept@) =~= non_empty_parts(ts.subrange(0, i as int)).push(tokens@[i as int]@));
        }
        i = i + 1;
    }
    assert(ts.subrange(0, ts.len() as int) =~= ts);
    assert(views(kept@) =~= kept@.map_values(|p: String| p@));
    join_strings(&kept, " ")
}

/// Words that a search query drops.
pub open spec fn stop_word(t: Seq<char>) -> bool {
    t == "a"@ || t == "an"@ || t == "the"@ || t == "for"@ || t == "on"@ || t == "to"@ || t == "my"@
        || t == "me"@ || t == "please"@
}

/// The canonical tokens that are neither empty nor stop words, in order.
pub open spec fn query_parts(ts: Seq<Seq<char>>) -> Seq<Seq<char>>
    decreases ts.len(),
{
    if ts.len() == 0 {
        Seq::empty()
    } else if ts.last().len() > 0 && !stop_word(ts.last()) {
        query_parts(ts.drop_last()).push(ts.last())
    } else {
        query_parts(ts.drop_last())
    }
}

pub open spec fn query_spec(v: Seq<char>) -> Seq<Seq<char>> {
    query_parts(canon_all(tokenize_spec(v)))
}

fn is_stop_word(t: &str) -> (b: bool)
    ensures
        b == stop_word(t@),
{
    str_eq(t, "a") || str_eq(t, "an") || str_eq(t, "the") || str_eq(t, "for") || str_eq(t, "on")
        || str_eq(t, "to") || str_eq(t, "my") || str_eq(t, "me") || str_eq(t, "please")
}

/// The query's tokens, sorted, each once: strictly increasing, each one of
/// the query's kept tokens, and every kept token among them.
pub fn normalize_search_query_tokens(value: &str) -> (r: Vec<String>)
    ensures
        forall|i: int, j: int| 0 <= i < j < r@.len() ==> seq_lt(#[trigger] r@[i]@, #[trigger] r@[j]@),
        forall|i: int| 0 <= i < r@.len() ==> query_spec(value@).contains(#[trigger] r@[i]@),
        forall|j: int| 0 <= j < query_spec(value@).len() ==> views(r@).contains(#[trigger] query_spec(value@)[j]),
{
    let tokens = canonical_tokens(value);
    let ghost ts = views(tokens@);
    let mut set: Vec<(String, ())> = Vec::new();
    let ghost mut q: Seq<Seq<char>> = Seq::empty();
    let mut i: usize = 0;
    while i < tokens.len()
        invariant
            i <= tokens@.len(),
            ts == views(tokens@),
            q == query_parts(ts.subrange(0, i as int)),
            keys_sorted(set@),
            forall|k: Seq<char>| #[trigger] lookup(set@, k) is Some <==> q.contains(k),
        decreases tokens.len() - i,
    {
        let ghost pre = ts.subrange(0, i + 1);
        assert(pre.drop_last() =~= ts.subrange(0, i as int));
        assert(pre.last() == tokens@[i as int]@);
        let t = tokens[i].as_str();
        if t.unicode_len() > 0 && !is_stop_word(t) {
            let ghost q0 = q;
            put(&mut set, to_owned_string(t), ());
            proof {
                q = q.push(t@);
                assert forall|k: Seq<char>| #[trigger] lookup(set@, k) is Some <==> q.contains(k) by {
                    if k == t@ {
                        assert(q[q.len() - 1] == k);
                    } else {
                        if q.contains(k) {
                            let w = choose|w: int| 0 <= w < q.len() && q[w] == k;
                            assert(q0[w] == k);
                        }
                        if q0.contains(k) {
                            let w = choose|w: int| 0 <= w < q0.len() && q0[w] == k;
                            assert(q[w] == k);
                        }
                    }
                }
            }
        }
        i = i + 1;
    }
    assert(ts.subrange(0, ts.len() as int) =~= ts);
    let mut out: Vec<String> = Vec::new();
    let mut k: usize = 0;
    while k < set.len()
        invariant
            k <= set@.len(),
            out@.len() == k,
            forall|m: int| 0 <= m < k ==> #[trigger] out@[m]@ == set@[m].0@,
        decreases set.len() - k,
    {
        out.push(to_owned_string(set[k].0.as_str()));
        k = k + 1;
    }
    assert(q == query_spec(value@));
    proof {
        assert forall|a: int| 0 <= a < out@.len() implies q.contains(#[trigger] out@[a]@) by {
            lemma_lookup_sorted_at(set@, a);
        }
        assert forall|j: int| 0 <= j < q.len() implies views(out@).contains(#[trigger] q[j]) by {
            assert(lookup(set@, q[j]) is Some);
            if forall|a: int| 0 <= a < set@.len() ==> #[trigger] set@[a].0@ != q[j] {
                lemma_lookup_absent(set@, q[j]);
            }
            let a = choose|a: int| 0 <= a < set@.len() && set@[a].0@ == q[j];
            assert(views(out@)[a] == q[j]);
        }
    }
    out
}

/// A chain pattern matches a chain: `*` matches all, a pattern equal to
/// the chain up to ASCII case matches it, and `ns*` matches the chains that
/// start with `ns`.
pub open spec fn chain_matches_spec(pattern: Seq<char>, chain: Seq<char>) -> bool {
    pattern == "*"@ || lower(pattern) == lower(chain) || match strip_suffix(pattern, "*"@) {
        Some(ns) => starts_with(chain, ns),
        None => false,
    }
}

pub fn chain_pattern_matches(pattern: &str, chain: &str) -> (b: bool)
    ensures
        b == chain_matches_spec(pattern@, chain@),
{
    if str_eq(pattern, "*") {
        return true;
    }
    let lp = to_ascii_lowercase(pattern);
    let lc = to_ascii_lowercase(chain);
    if str_eq(lp.as_str(), lc.as_str()) {
        return true;
    }
    match str_strip_suffix(pattern, "*") {
        Some(ns) => str_starts_with(chain, ns.as_str()),
        None => false,
    }
}

// ---------------------------------------------------------------------------
// Candidate cards
// ---------------------------------------------------------------------------

/// The value an object holds under `key`.
pub open spec fn field(v: JsonView, key: Seq<char>) -> Option<JsonView> {
    match v {
        JsonView::Object(es) => obj_get(es, key),
        _ => None,
    }
}

pub open spec fn field_str(v: JsonView, key: Seq<char>) -> Option<Seq<char>> {
    match field(v, key) {
        Some(x) => view_as_str(x),
        None => None,
    }
}

pub open spec fn field_array(v: JsonView, key: Seq<char>) -> Option<Seq<JsonView>> {
    match field(v, key) {
        Some(JsonView::Array(items)) => Some(items),
        _ => None,
    }
}

pub open spec fn or_empty(o: Option<Seq<char>>) -> Seq<char> {
    match o {
        Some(s) => s,
        None => Seq::empty(),
    }
}

pub(crate) fn get_str<'a>(v: &'a JsonValue, key: &str) -> (r: Option<&'a str>)
    ensures
        match r {
            Some(s) => field_str(v@, key@) == Some(s@),
            None => field_str(v@, key@) is None,
        },
{
    match v.get(key) {
        Some(x) => x.as_str(),
        None => None,
    }
}

fn get_array<'a>(v: &'a JsonValue, key: &str) -> (r: Option<&'a Vec<JsonValue>>)
    ensures
        match r {
            Some(a) => field_array(v@, key@) == Some(items_view(a@)),
            None => field_array(v@, key@) is None,
        },
{
    match v.get(key) {
        Some(x) => match x {
            JsonValue::Array(items) => {
                proof {
                    lemma_array_view(*items);
                }
                Some(items)
            },
            _ => None,
        },
        None => None,
    }
}

/// The strings among `items`, in order.
pub open spec fn string_items(items: Seq<JsonView>) -> Seq<Seq<char>>
    decreases items.len(),
{
    if items.len() == 0 {
        Seq::empty()
    } else {
        match view_as_str(items.last()) {
            Some(s) => string_items(items.drop_last()).push(s),
            None => string_items(items.drop_last()),
        }
    }
}

pub(crate) fn strings_of(items: &Vec<JsonValue>) -> (r: Vec<String>)
    ensures
        views(r@) == string_items(items_view(items@)),
{
    let ghost iv = items_view(items@);
    let mut out: Vec<String> = Vec::new();
    let mut i: usize = 0;
    while i < items.len()
        invariant
            i <= items@.len(),
            iv == items_view(items@),
            views(out@) == string_items(iv.subrange(0, i as int)),
        decreases items.len() - i,
    {
        let ghost pre = iv.subrange(0, i + 1);
        assert(pre.drop_last() =~= iv.subrange(0, i as int));
        assert(pre.last() == items@[i as int]@);
        match items[i].as_str() {
            Some(t) => {
                let ghost before = views(out@);
                out.push(to_owned_string(t));
                assert(views(out@) =~= before.push(t@));
            },
            None => {},
        }
        i = i + 1;
    }
    assert(iv.subrange(0, iv.len() as int) =~= iv);
    out
}

/// Some pattern among `patterns` matches `chain`.
pub open spec fn any_chain_match(patterns: Seq<Seq<char>>, chain: Seq<char>) -> bool {
    exists|i: int| 0 <= i < patterns.len() && chain_matches_spec(#[trigger] patterns[i], chain)
}

/// Some string among the card's execution chains matches `chain`.
pub open spec fn matches_chain_spec(card: JsonView, chain: Option<Seq<char>>) -> bool {
    match chain {
        None => true,
        Some(c) => match field_array(card, "execution_chains"@) {
            Some(items) => any_chain_match(string_items(items), c),
            None => false,
        },
    }
}

pub fn matches_chain(card: &JsonValue, chain: Option<&str>) -> (b: bool)
    ensures
        b == matches_chain_spec(
            card@,
            match chain {
                Some(c) => Some(c@),
                None => None,
            },
        ),
{
    let c = match chain {
        Some(c) => c,
        None => return true,
    };
    let items = match get_array(card, "execution_chains") {
        Some(items) => items,
        None => return false,
    };
    let patterns = strings_of(items);
    let mut i: usize = 0;
    while i < patterns.len()
        invariant
            i <= patterns@.len(),
            views(patterns@) == string_items(items_view(items@)),
            field_array(card@, "execution_chains"@) == Some(items_view(items@)),
            chain == Some(c),
            forall|k: int| 0 <= k < i ==> !chain_matches_spec(#[trigger] views(patterns@)[k], c@),
        decreases patterns.len() - i,
    {
        if chain_pattern_matches(patterns[i].as_str(), c) {
            assert(views(patterns@)[i as int] == patterns@[i as int]@);
            assert(chain_matches_spec(string_items(items_view(items@))[i as int], c@));
            assert(any_chain_match(string_items(items_view(items@)), c@));
            return true;
        }
        assert(views(patterns@)[i as int] == patterns@[i as int]@);
        i = i + 1;
    }
    false
}

/// The texts a query is looked for in: the normalized ref, id and
/// description, then the normalized risk tags.
pub open spec fn haystacks_spec(card: JsonView) -> Seq<Seq<char>> {
    let base = seq![
        search_text_spec(or_empty(field_str(card, "ref"@))),
        search_text_spec(or_empty(field_str(card, "id"@))),
        search_text_spec(or_empty(field_str(card, "description"@))),
    ];
    match field_array(card, "risk_tags"@) {
        Some(items) => base + string_items(items).map_values(|t: Seq<char>| search_text_spec(t)),
        None => base,
    }
}

/// `t` occurs in one of the texts `hs`.
pub open spec fn found_in(hs: Seq<Seq<char>>, t: Seq<char>) -> bool {
    exists|h: int| 0 <= h < hs.len() && contains(#[trigger] hs[h], t)
}

/// Every query token occurs in one of the card's texts; no tokens match
/// every card.
pub open spec fn matches_keyword_spec(card: JsonView, tokens: Option<Seq<Seq<char>>>) -> bool {
    match tokens {
        None => true,
        Some(ts) => all_found(haystacks_spec(card), ts),
    }
}

/// Every token of `ts` occurs in one of the texts `hs`.
pub open spec fn all_found(hs: Seq<Seq<char>>, ts: Seq<Seq<char>>) -> bool {
    forall|k: int| 0 <= k < ts.len() ==> found_in(hs, #[trigger] ts[k])
}

fn haystacks(card: &JsonValue) -> (r: Vec<String>)
    ensures
        views(r@) == haystacks_spec(card@),
{
    let mut out: Vec<String> = Vec::new();
    let r = match get_str(card, "ref") {
        Some(x) => x,
        None => "",
    };
    out.push(normalize_search_text(r));
    let id = match get_str(card, "id") {
        Some(x) => x,
        None => "",
    };
    out.push(normalize_search_text(id));
    let d = match get_str(card, "description") {
        Some(x) => x,
        None => "",
    };
    out.push(normalize_search_text(d));
    proof {
        reveal_strlit("");
    }
    let ghost base = views(out@);
    assert(base =~= seq![
        search_text_spec(or_empty(field_str(card@, "ref"@))),
        search_text_spec(or_empty(field_str(card@, "id"@))),
        search_text_spec(or_empty(field_str(card@, "description"@))),
    ]);
    match get_array(card, "risk_tags") {
        Some(items) => {
            let tags = strings_of(items);
            let ghost ts = views(tags@);
            let mut i: usize = 0;
            while i < tags.len()
                invariant
                    i <= tags@.len(),
                    ts == views(tags@),
                    views(out@) == base + ts.subrange(0, i as int).map_values(|t: Seq<char>| search_text_spec(t)),
                decreases tags.len() - i,
            {
                let h = normalize_search_text(tags[i].as_str());
                let ghost before = views(out@);
                out.push(h);
                assert(ts.subrange(0, i + 1).map_values(|t: Seq<char>| search_text_spec(t)) =~= ts.subrange(
                    0,
                    i as int,
                ).map_values(|t: Seq<char>| search_text_spec(t)).push(search_text_spec(ts[i as int])));
                assert(views(out@) =~= before.push(h@));
                i = i + 1;
            }
            assert(ts.subrange(0, ts.len() as int) =~= ts);
        },
        None => {},
    }
    out
}

pub fn matches_keyword(card: &JsonValue, query_tokens: Option<&Vec<String>>) -> (b: bool)
    ensures
        b == matches_keyword_spec(
            card@,
            match query_tokens {
                Some(ts) => Some(views(ts@)),
                None => None,
            },
        ),
{
    let tokens = match query_tokens {
        Some(ts) => ts,
        None => return true,
    };
    let hs = haystacks(card);
    let ghost hv = views(hs@);
    let mut k: usize = 0;
    while k < tokens.len()
        invariant
            k <= tokens@.len(),
            hv == views(hs@),
            hv == haystacks_spec(card@),
            query_tokens == Some(tokens),
            forall|m: int| 0 <= m < k ==> found_in(hv, #[trigger] views(tokens@)[m]),
        decreases tokens.len() - k,
    {
        let mut found = false;
        let mut h: usize = 0;
        while h < hs.len() && !found
            invariant
                h <= hs@.len(),
                k < tokens@.len(),
                hv == views(hs@),
                found ==> h >= 1 && contains(hv[h - 1], tokens@[k as int]@),
                !found ==> forall|j: int| 0 <= j < h ==> !contains(#[trigger] hv[j], tokens@[k as int]@),
            decreases hs.len() - h,
        {
            if str_contains(hs[h].as_str(), tokens[k].as_str()) {
                found = true;
            }
            h = h + 1;
        }
        if !found {
            proof {
                assert(views(tokens@)[k as int] == tokens@[k as int]@);
                assert(!found_in(hv, views(tokens@)[k as int]));
            }
            return false;
        }
        assert(views(tokens@)[k as int] == tokens@[k as int]@);
        assert(contains(hv[h - 1], views(tokens@)[k as int]));
        k = k + 1;
    }
    true
}

/// The card's risk level: a non-negative integer up to 255, or a string
/// that parses as one.
pub open spec fn risk_level_spec(card: JsonView) -> Option<u8> {
    match field(card, "risk_level"@) {
        Some(JsonView::Number(NumberView::PosInt(u))) => if u <= 255 {
            Some(u as u8)
        } else {
            None
        },
        Some(JsonView::Str(t)) => match parse_unsigned(t, 255) {
            Some(n) => Some(n as u8),
            None => None,
        },
        _ => None,
    }
}

pub fn read_risk_level(card: &JsonValue) -> (r: Option<u8>)
    ensures
        r == risk_level_spec(card@),
{
    match card.get("risk_level") {
        Some(v) => {
            match v.as_u64() {
                Some(level) => {
                    if level <= 255 {
                        return Some(level as u8);
                    } else {
                        return None;
                    }
                },
                None => {},
            }
            match v.as_str() {
                Some(t) => {
                    let cs = chars_of(t);
                    match parse_unsigned_chars(&cs, 255) {
                        Some(n) => Some(n as u8),
                        None => None,
                    }
                },
                None => None,
            }
        },
        None => None,
    }
}

/// A risk filter: none set matches every card; otherwise only actions
/// whose risk level is known and within the bounds that are set.
pub open spec fn matches_risk_spec(card: JsonView, min: Option<u8>, max: Option<u8>, is_action: bool) -> bool {
    if min is None && max is None {
        true
    } else if !is_action {
        false
    } else {
        match risk_level_spec(card) {
            None => false,
            Some(level) => (match min {
                Some(m) => level >= m,
                None => true,
            }) && (match max {
                Some(m) => level <= m,
                None => true,
            }),
        }
    }
}

/// A risk filter keeps exactly the cards it should: with no bound every
/// card; with a bound only an action whose risk level is known, at least
/// the minimum and at most the maximum that are set.
pub proof fn lemma_risk_filter_bounds(card: JsonView, min: Option<u8>, max: Option<u8>, is_action: bool)
    ensures
        matches_risk_spec(card, min, max, is_action) <==> ((min is None && max is None) || (is_action && (
        risk_level_spec(card) matches Some(l) && (min matches Some(lo) ==> lo <= l) && (max matches Some(hi) ==> l
            <= hi)))),
{
}

pub fn matches_risk(card: &JsonValue, min: Option<u8>, max: Option<u8>, is_action: bool) -> (b: bool)
    ensures
        b == matches_risk_spec(card@, min, max, is_action),
        max matches Some(m) && risk_level_spec(card@) matches Some(l) && l > m ==> !b,
        min matches Some(m) && risk_level_spec(card@) matches Some(l) && l < m ==> !b,
{
    if min.is_none() && max.is_none() {
        return true;
    }
    if !is_action {
        return false;
    }
    let level = match read_risk_level(card) {
        Some(l) => l,
        None => return false,
    };
    match min {
        Some(m) => {
            if level < m {
                return false;
            }
        },
        None => {},
    }
    match max {
        Some(m) => {
            if level > m {
                return false;
            }
        },
        None => {},
    }
    true
}

/// The strings `xs` sorted, each once, as the keys of an object.
pub open spec fn sorted_keys(xs: Seq<Seq<char>>) -> Seq<(Seq<char>, JsonView)>
    decreases xs.len(),
{
    if xs.len() == 0 {
        Seq::empty()
    } else {
        obj_insert(sorted_keys(xs.drop_last()), xs.last(), JsonView::Null)
    }
}

/// At most the first four keys, as JSON strings.
pub open spec fn first_chains(ks: Seq<(Seq<char>, JsonView)>) -> Seq<JsonView> {
    let n = if ks.len() < 4 {
        ks.len() as int
    } else {
        4
    };
    Seq::new(n as nat, |i: int| JsonView::Str(ks[i].0))
}

/// The discovery card of a candidate: its ref and kind, its risk level
/// when it has one, and up to four of its execution chains, sorted and
/// without repeats, when there are any.
pub open spec fn discovery_card_spec(card: JsonView, kind: Seq<char>) -> JsonView {
    let e0 = obj_insert(
        obj_insert(Seq::empty(), "ref"@, JsonView::Str(or_empty(field_str(card, "ref"@)))),
        "kind"@,
        JsonView::Str(kind),
    );
    let e1 = match field(card, "risk_level"@) {
        Some(v) => obj_insert(e0, "risk_level"@, v),
        None => e0,
    };
    let e2 = match field_array(card, "execution_chains"@) {
        Some(items) => {
            let ks = sorted_keys(string_items(items));
            if ks.len() > 0 {
                obj_insert(e1, "chains"@, JsonView::Array(first_chains(ks)))
            } else {
                e1
            }
        },
        None => e1,
    };
    JsonView::Object(e2)
}

pub fn sorted_unique(xs: &Vec<String>) -> (r: Vec<(String, JsonValue)>)
    ensures
        entries_view(r@) == sorted_keys(views(xs@)),
{
    let ghost xv = views(xs@);
    let mut es: Vec<(String, JsonValue)> = Vec::new();
    let mut i: usize = 0;
    assert(entries_view(es@) =~= Seq::<(Seq<char>, JsonView)>::empty());
    while i < xs.len()
        invariant
            i <= xs@.len(),
            xv == views(xs@),
            entries_view(es@) == sorted_keys(xv.subrange(0, i as int)),
        decreases xs.len() - i,
    {
        let ghost pre = xv.subrange(0, i + 1);
        assert(pre.drop_last() =~= xv.subrange(0, i as int));
        assert(pre.last() == xs@[i as int]@);
        insert_entry(&mut es, to_owned_string(xs[i].as_str()), JsonValue::Null);
        i = i + 1;
    }
    assert(xv.subrange(0, xv.len() as int) =~= xv);
    es
}

/// The strings sorted, each once.
pub fn sorted_strings(xs: &Vec<String>) -> (r: Vec<String>)
    ensures
        views(r@) == key_list(sorted_keys(views(xs@))),
{
    let keys = sorted_unique(xs);
    let mut out: Vec<String> = Vec::new();
    let mut j: usize = 0;
    while j < keys.len()
        invariant
            j <= keys@.len(),
            entries_view(keys@) == sorted_keys(views(xs@)),
            views(out@) == key_list(entries_view(keys@)).subrange(0, j as int),
        decreases keys.len() - j,
    {
        let ghost before = views(out@);
        out.push(to_owned_string(keys[j].0.as_str()));
        assert(entries_view(keys@)[j as int].0 == keys@[j as int].0@);
        assert(key_list(entries_view(keys@))[j as int] == keys@[j as int].0@);
        assert(views(out@) =~= before.push(keys@[j as int].0@));
        assert(views(out@) =~= key_list(entries_view(keys@)).subrange(0, j + 1));
        j = j + 1;
    }
    assert(key_list(entries_view(keys@)).subrange(0, keys@.len() as int) =~= key_list(entries_view(keys@)));
    out
}

pub fn to_discovery_card(card: &JsonValue, kind: &str) -> (r: JsonValue)
    ensures
        r@ == discovery_card_spec(card@, kind@),
{
    let reference = match get_str(card, "ref") {
        Some(x) => x,
        None => "",
    };
    proof {
        reveal_strlit("");
    }
    assert(reference@ =~= or_empty(field_str(card@, "ref"@)));
    let mut compact = JsonValue::empty_object();
    compact.insert(to_owned_string("ref"), JsonValue::String(to_owned_string(reference)));
    compact.insert(to_owned_string("kind"), JsonValue::String(to_owned_string(kind)));
    let ghost e0 = obj_insert(
        obj_insert(Seq::empty(), "ref"@, JsonView::Str(or_empty(field_str(card@, "ref"@)))),
        "kind"@,
        JsonView::Str(kind@),
    );
    assert(compact@ == JsonView::Object(e0));
    match card.get("risk_level") {
        Some(level) => {
            compact.insert(to_owned_string("risk_level"), level.clone_value());
        },
        None => {},
    }
    let ghost e1 = match field(card@, "risk_level"@) {
        Some(v) => obj_insert(e0, "risk_level"@, v),
        None => e0,
    };
    assert(compact@ == JsonView::Object(e1));
    match get_array(card, "execution_chains") {
        Some(items) => {
            let chains = strings_of(items);
            let keys = sorted_unique(&chains);
            assert(entries_view(keys@).len() == keys@.len());
            if keys.len() > 0 {
                let n: usize = if keys.len() < 4 {
                    keys.len()
                } else {
                    4
                };
                let mut list: Vec<JsonValue> = Vec::new();
                let mut k: usize = 0;
                while k < n
                    invariant
                        k <= n,
                        n <= keys@.len(),
                        list@.len() == k,
                        forall|m: int| 0 <= m < k ==> #[trigger] list@[m]@ == JsonView::Str(keys@[m].0@),
                    decreases n - k,
                {
                    list.push(JsonValue::String(to_owned_string(keys[k].0.as_str())));
                    k = k + 1;
                }
                proof {
                    lemma_array_view(list);
                    let ks = entries_view(keys@);
                    assert forall|m: int| 0 <= m < ks.len() implies (#[trigger] ks[m]).0 == keys@[m].0@ by {}
                    assert(crate::json::items_view(list@) =~= first_chains(ks));
                }
                compact.insert(to_owned_string("chains"), JsonValue::Array(list));
            }
        },
        None => {},
    }
    compact
}

// ---------------------------------------------------------------------------
// The candidate context and its search
// ---------------------------------------------------------------------------

pub const DEFAULT_MAX_INDEX_CANDIDATES: usize = 24;
pub const DEFAULT_MAX_DETAIL_REFS: usize = 16;
pub const DEFAULT_SEARCH_LIMIT: usize = 12;
pub const MAX_SEARCH_LIMIT: usize = 24;

/// A search over the candidates: query text, kind, chain, risk bounds and
/// the number of results wanted.
pub struct CandidateSearchRequest {
    pub query: Option<String>,
    pub kind: Option<String>,
    pub chain: Option<String>,
    pub min_risk_level: Option<u8>,
    pub max_risk_level: Option<u8>,
    pub limit: Option<usize>,
}

/// The action and query cards that a workspace can execute, with the
/// header of the listing they came in.
pub struct ExecutableCandidates {
    pub schema: String,
    pub hash: String,
    pub catalog_schema: String,
    pub catalog_hash: String,
    pub actions: Vec<JsonValue>,
    pub queries: Vec<JsonValue>,
    pub execution_plugins: Vec<JsonValue>,
}

/// The candidates the agent may use: the index shown to the planner, the
/// detail card of each ref (kept in ref order), and the executable cards.
pub struct CandidateContext {
    pub index_candidates: JsonValue,
    pub detail_by_ref: Vec<(String, JsonValue)>,
    pub executable_candidates: ExecutableCandidates,
    pub protocols: Vec<crate::agent::capabilities::ProtocolDocument>,
}

pub open spec fn opt_view(o: Option<String>) -> Option<Seq<char>> {
    match o {
        Some(s) => Some(s@),
        None => None,
    }
}

pub open spec fn items_of(v: Seq<JsonValue>) -> Seq<JsonView> {
    items_view(v)
}

/// The query tokens of a search: none for a missing or blank query, or one
/// that keeps no token.
pub open spec fn search_tokens_spec(query: Option<Seq<char>>) -> Option<Seq<Seq<char>>> {
    match query {
        Some(v) => {
            let t = trim(v);
            let q = query_spec(t);
            if t.len() == 0 || q.len() == 0 {
                None
            } else {
                Some(q)
            }
        },
        None => None,
    }
}

/// The searched kind: the trimmed, lower-cased kind, or `any`.
pub open spec fn search_kind_spec(kind: Option<Seq<char>>) -> Seq<char> {
    match kind {
        Some(k) => if trim(k).len() > 0 {
            unicode_lowercase(trim(k))
        } else {
            "any"@
        },
        None => "any"@,
    }
}

/// The searched chain: the trimmed chain, unless blank.
pub open spec fn search_chain_spec(chain: Option<Seq<char>>) -> Option<Seq<char>> {
    match chain {
        Some(c) => if trim(c).len() > 0 {
            Some(trim(c))
        } else {
            None
        },
        None => None,
    }
}

/// The number of results: the requested limit (twelve by default) kept
/// within one to twenty-four.
pub open spec fn search_limit_spec(limit: Option<usize>) -> int {
    let l = match limit {
        Some(l) => l as int,
        None => DEFAULT_SEARCH_LIMIT as int,
    };
    if l < 1 {
        1
    } else if l > MAX_SEARCH_LIMIT as int {
        MAX_SEARCH_LIMIT as int
    } else {
        l
    }
}

/// The discovery cards of the cards that pass the keyword, chain and risk
/// filters, in order.
pub open spec fn selected_cards(
    cards: Seq<JsonView>,
    kind: Seq<char>,
    tokens: Option<Seq<Seq<char>>>,
    chain: Option<Seq<char>>,
    min: Option<u8>,
    max: Option<u8>,
    is_action: bool,
) -> Seq<JsonView>
    decreases cards.len(),
{
    if cards.len() == 0 {
        Seq::empty()
    } else {
        let rest = selected_cards(cards.drop_last(), kind, tokens, chain, min, max, is_action);
        let c = cards.last();
        if matches_keyword_spec(c, tokens) && matches_chain_spec(c, chain) && matches_risk_spec(c, min, max, is_action) {
            rest.push(discovery_card_spec(c, kind))
        } else {
            rest
        }
    }
}

/// A card within the risk bounds of a search: any card when no bound is
/// set, else an action whose known risk level is at least the minimum and
/// at most the maximum that are set.
pub open spec fn within_risk_bounds(card: JsonView, min: Option<u8>, max: Option<u8>, is_action: bool) -> bool {
    (min is None && max is None) || (is_action && (risk_level_spec(card) matches Some(l) && (min matches Some(
        lo,
    ) ==> lo <= l) && (max matches Some(hi) ==> l <= hi)))
}

/// A search never returns a card outside its risk bounds: each selected
/// card is the discovery card of an input card within them.
pub proof fn lemma_selected_cards_within_risk(
    cards: Seq<JsonView>,
    kind: Seq<char>,
    tokens: Option<Seq<Seq<char>>>,
    chain: Option<Seq<char>>,
    min: Option<u8>,
    max: Option<u8>,
    is_action: bool,
)
    ensures
        forall|k: int|
            0 <= k < selected_cards(cards, kind, tokens, chain, min, max, is_action).len() ==> exists|j: int|
                0 <= j < cards.len() && within_risk_bounds(cards[j], min, max, is_action)
                    && #[trigger] selected_cards(cards, kind, tokens, chain, min, max, is_action)[k]
                    == discovery_card_spec(cards[j], kind),
    decreases cards.len(),
{
    if cards.len() > 0 {
        let init = cards.drop_last();
        lemma_selected_cards_within_risk(init, kind, tokens, chain, min, max, is_action);
        lemma_risk_filter_bounds(cards.last(), min, max, is_action);
        let rest = selected_cards(init, kind, tokens, chain, min, max, is_action);
        let sel = selected_cards(cards, kind, tokens, chain, min, max, is_action);
        assert forall|k: int| 0 <= k < sel.len() implies exists|j: int|
            0 <= j < cards.len() && within_risk_bounds(cards[j], min, max, is_action) && #[trigger] sel[k]
                == discovery_card_spec(cards[j], kind) by {
            if k < rest.len() {
                assert(sel[k] == rest[k]);
                let j = choose|j: int|
                    0 <= j < init.len() && within_risk_bounds(init[j], min, max, is_action) && rest[k]
                        == discovery_card_spec(init[j], kind);
                assert(init[j] == cards[j]);
            } else {
                assert(sel[k] == discovery_card_spec(cards[cards.len() - 1], kind));
            }
        }
    }
}

/// Every search match: actions when the kind is `any` or `action`, then
/// queries when it is `any` or `query`.
pub open spec fn search_matches_spec(ctx: CandidateContext, req: CandidateSearchRequest) -> Seq<JsonView> {
    let kind = search_kind_spec(opt_view(req.kind));
    let tokens = search_tokens_spec(opt_view(req.query));
    let chain = search_chain_spec(opt_view(req.chain));
    let actions = if kind == "any"@ || kind == "action"@ {
        selected_cards(
            items_of(ctx.executable_candidates.actions@),
            "action"@,
            tokens,
            chain,
            req.min_risk_level,
            req.max_risk_level,
            true,
        )
    } else {
        Seq::empty()
    };
    let queries = if kind == "any"@ || kind == "query"@ {
        selected_cards(
            items_of(ctx.executable_candidates.queries@),
            "query"@,
            tokens,
            chain,
            req.min_risk_level,
            req.max_risk_level,
            false,
        )
    } else {
        Seq::empty()
    };
    actions + queries
}

pub open spec fn str_or_null(o: Option<Seq<char>>) -> JsonView {
    match o {
        Some(s) => JsonView::Str(s),
        None => JsonView::Null,
    }
}

pub open spec fn level_or_null(o: Option<u8>) -> JsonView {
    match o {
        Some(l) => JsonView::Number(NumberView::PosInt(l as u64)),
        None => JsonView::Null,
    }
}

pub open spec fn count_view(n: int) -> JsonView {
    JsonView::Number(NumberView::PosInt(n as u64))
}

/// The search response: the request echoed with its filters, the counts,
/// and the first `limit` matches.
pub open spec fn search_response_spec(ctx: CandidateContext, req: CandidateSearchRequest) -> JsonView {
    let all = search_matches_spec(ctx, req);
    let limit = search_limit_spec(req.limit);
    let shown = if all.len() > limit {
        all.subrange(0, limit)
    } else {
        all
    };
    let f0 = obj_insert(Seq::empty(), "kind"@, JsonView::Str(search_kind_spec(opt_view(req.kind))));
    let f1 = obj_insert(f0, "chain"@, str_or_null(opt_view(req.chain)));
    let f2 = obj_insert(f1, "min_risk_level"@, level_or_null(req.min_risk_level));
    let filters = obj_insert(f2, "max_risk_level"@, level_or_null(req.max_risk_level));
    let e0 = obj_insert(Seq::empty(), "schema"@, JsonView::Str("ais-catalog-search-response/0.0.1"@));
    let e1 = obj_insert(e0, "level"@, JsonView::Str("name_only"@));
    let e2 = obj_insert(e1, "query"@, str_or_null(opt_view(req.query)));
    let e3 = obj_insert(e2, "filters"@, JsonView::Object(filters));
    let e4 = obj_insert(e3, "limit"@, count_view(limit));
    let e5 = obj_insert(e4, "total_matches"@, count_view(all.len() as int));
    let e6 = obj_insert(e5, "returned_matches"@, count_view(shown.len() as int));
    let e7 = obj_insert(e6, "truncated"@, JsonView::Bool(shown.len() < all.len()));
    JsonView::Object(obj_insert(e7, "results"@, JsonView::Array(shown)))
}

/// Both lists hold the same tokens.
pub open spec fn same_tokens(a: Seq<Seq<char>>, b: Seq<Seq<char>>) -> bool {
    (forall|i: int| 0 <= i < a.len() ==> b.contains(#[trigger] a[i])) && (forall|j: int|
        0 <= j < b.len() ==> a.contains(#[trigger] b[j]))
}

proof fn lemma_all_found_same_tokens(hs: Seq<Seq<char>>, a: Seq<Seq<char>>, b: Seq<Seq<char>>)
    requires
        same_tokens(a, b),
    ensures
        all_found(hs, a) == all_found(hs, b),
{
    if all_found(hs, a) {
        assert forall|j: int| 0 <= j < b.len() implies found_in(hs, #[trigger] b[j]) by {
            assert(a.contains(b[j]));
            let i = choose|i: int| 0 <= i < a.len() && a[i] == b[j];
            assert(found_in(hs, a[i]));
        }
    }
    if all_found(hs, b) {
        assert forall|i: int| 0 <= i < a.len() implies found_in(hs, #[trigger] a[i]) by {
            assert(b.contains(a[i]));
            let j = choose|j: int| 0 <= j < b.len() && b[j] == a[i];
            assert(found_in(hs, b[j]));
        }
    }
}

fn search_tokens(query: &Option<String>) -> (r: Option<Vec<String>>)
    ensures
        match search_tokens_spec(opt_view(*query)) {
            Some(q) => r is Some && same_tokens(views(r->0@), q),
            None => r is None,
        },
{
    match query {
        Some(v) => {
            let t = trim_str(v.as_str());
            if t.as_str().unicode_len() == 0 {
                return None;
            }
            let toks = normalize_search_query_tokens(t.as_str());
            if toks.len() == 0 {
                proof {
                    if query_spec(t@).len() > 0 {
                        assert(views(toks@).contains(query_spec(t@)[0]));
                    }
                }
                return None;
            }
            proof {
                assert(views(toks@)[0] == toks@[0]@);
                assert(query_spec(t@).contains(toks@[0]@));
                assert forall|i: int| 0 <= i < views(toks@).len() implies query_spec(t@).contains(
                    #[trigger] views(toks@)[i],
                ) by {
                    assert(views(toks@)[i] == toks@[i]@);
                }
            }
            Some(toks)
        },
        None => None,
    }
}

impl CandidateContext {
    /// Detail cards are kept in ref order.
    pub open spec fn wf(self) -> bool {
        keys_sorted(self.detail_by_ref@)
    }

    fn select_into(
        out: &mut Vec<JsonValue>,
        cards: &Vec<JsonValue>,
        kind: &str,
        tokens: &Option<Vec<String>>,
        Ghost(token_spec): Ghost<Option<Seq<Seq<char>>>>,
        chain: Option<&str>,
        min: Option<u8>,
        max: Option<u8>,
        is_action: bool,
    )
        requires
            match token_spec {
                Some(q) => tokens is Some && same_tokens(views(tokens->0@), q),
                None => tokens is None,
            },
        ensures
            items_view(final(out)@) == items_view(old(out)@) + selected_cards(
                items_view(cards@),
                kind@,
                token_spec,
                match chain {
                    Some(c) => Some(c@),
                    None => None,
                },
                min,
                max,
                is_action,
            ),
    {
        let ghost cv = items_view(cards@);
        let ghost chain_v = match chain {
            Some(c) => Some(c@),
            None => None,
        };
        let ghost base = items_view(out@);
        let mut i: usize = 0;
        while i < cards.len()
            invariant
                i <= cards@.len(),
                cv == items_view(cards@),
                chain_v == match chain {
                    Some(c) => Some(c@),
                    None => None,
                },
                match token_spec {
                    Some(q) => tokens is Some && same_tokens(views(tokens->0@), q),
                    None => tokens is None,
                },
                items_view(out@) == base + selected_cards(
                    cv.subrange(0, i as int),
                    kind@,
                    token_spec,
                    chain_v,
                    min,
                    max,
                    is_action,
                ),
            decreases cards.len() - i,
        {
            let ghost pre = cv.subrange(0, i + 1);
            assert(pre.drop_last() =~= cv.subrange(0, i as int));
            assert(pre.last() == cards@[i as int]@);
            let card = &cards[i];
            let kw = match tokens {
                Some(ts) => matches_keyword(card, Some(ts)),
                None => matches_keyword(card, None),
            };
            proof {
                match token_spec {
                    Some(q) => {
                        lemma_all_found_same_tokens(haystacks_spec(card@), views(tokens->0@), q);
                    },
                    None => {},
                }
            }
            assert(kw == matches_keyword_spec(card@, token_spec));
            if kw && matches_chain(card, chain) && matches_risk(card, min, max, is_action) {
                let d = to_discovery_card(card, kind);
                let ghost before = items_view(out@);
                out.push(d);
                assert(items_view(out@) =~= before.push(d@));
            }
            i = i + 1;
        }
        assert(cv.subrange(0, cv.len() as int) =~= cv);
    }

    pub fn search_candidates(&self, request: &CandidateSearchRequest) -> (r: JsonValue)
        ensures
            r@ == search_response_spec(*self, *request),
    {
        let tokens = search_tokens(&request.query);
        let ghost token_spec = search_tokens_spec(opt_view(request.query));
        let kind = match &request.kind {
            Some(k) => {
                let t = trim_str(k.as_str());
                if t.as_str().unicode_len() > 0 {
                    str_to_lowercase(t.as_str())
                } else {
                    to_owned_string("any")
                }
            },
            None => to_owned_string("any"),
        };
        let chain_text = match &request.chain {
            Some(c) => {
                let t = trim_str(c.as_str());
                if t.as_str().unicode_len() > 0 {
                    Some(t)
                } else {
                    None
                }
            },
            None => None,
        };
        let chain: Option<&str> = match &chain_text {
            Some(t) => Some(t.as_str()),
            None => None,
        };
        let limit: usize = match request.limit {
            Some(l) => l,
            None => DEFAULT_SEARCH_LIMIT,
        };
        let limit: usize = if limit < 1 {
            1
        } else if limit > MAX_SEARCH_LIMIT {
            MAX_SEARCH_LIMIT
        } else {
            limit
        };
        let mut matches: Vec<JsonValue> = Vec::new();
        assert(items_view(matches@) =~= Seq::<JsonView>::empty());
        let any = str_eq(kind.as_str(), "any");
        if any || str_eq(kind.as_str(), "action") {
            Self::select_into(
                &mut matches,
                &self.executable_candidates.actions,
                "action",
                &tokens,
                Ghost(token_spec),
                chain,
                request.min_risk_level,
                request.max_risk_level,
                true,
            );
        }
        let ghost after_actions = items_view(matches@);
        if any || str_eq(kind.as_str(), "query") {
            Self::select_into(
                &mut matches,
                &self.executable_candidates.queries,
                "query",
                &tokens,
                Ghost(token_spec),
                chain,
                request.min_risk_level,
                request.max_risk_level,
                false,
            );
        }
        let ghost all = items_view(matches@);
        assert(all =~= search_matches_spec(*self, *request));
        let total = matches.len();
        matches.truncate(limit);
        let returned = matches.len();
        assert(items_view(matches@) =~= if all.len() > limit {
            all.subrange(0, limit as int)
        } else {
            all
        });
        let mut filters = JsonValue::empty_object();
        filters.insert(to_owned_string("kind"), JsonValue::String(kind));
        filters.insert(to_owned_string("chain"), str_value(&request.chain));
        filters.insert(to_owned_string("min_risk_level"), level_value(request.min_risk_level));
        filters.insert(to_owned_string("max_risk_level"), level_value(request.max_risk_level));
        let mut out = JsonValue::empty_object();
        out.insert(
            to_owned_string("schema"),
            JsonValue::String(to_owned_string("ais-catalog-search-response/0.0.1")),
        );
        out.insert(to_owned_string("level"), JsonValue::String(to_owned_string("name_only")));
        out.insert(to_owned_string("query"), str_value(&request.query));
        out.insert(to_owned_string("filters"), filters);
        out.insert(to_owned_string("limit"), count_value(limit));
        out.insert(to_owned_string("total_matches"), count_value(total));
        out.insert(to_owned_string("returned_matches"), count_value(returned));
        out.insert(to_owned_string("truncated"), JsonValue::Bool(returned < total));
        proof {
            lemma_array_view(matches);
        }
        out.insert(to_owned_string("results"), JsonValue::Array(matches));
        out
    }
}

fn str_value(o: &Option<String>) -> (r: JsonValue)
    ensures
        r@ == str_or_null(opt_view(*o)),
{
    match o {
        Some(s) => JsonValue::String(to_owned_string(s.as_str())),
        None => JsonValue::Null,
    }
}

fn level_value(o: Option<u8>) -> (r: JsonValue)
    ensures
        r@ == level_or_null(o),
{
    match o {
        Some(l) => JsonValue::Number(crate::json::JsonNumber::PosInt(l as u64)),
        None => JsonValue::Null,
    }
}

fn count_value(n: usize) -> (r: JsonValue)
    ensures
        r@ == count_view(n as int),
{
    JsonValue::Number(crate::json::JsonNumber::PosInt(n as u64))
}

/// The detail cards found for `refs`, in the order of `refs`.
pub open spec fn found_details(ds: Seq<(String, JsonValue)>, refs: Seq<Seq<char>>) -> Seq<JsonView>
    decreases refs.len(),
{
    if refs.len() == 0 {
        Seq::empty()
    } else {
        let rest = found_details(ds, refs.drop_last());
        match lookup(ds, refs.last()) {
            Some(v) => rest.push(v@),
            None => rest,
        }
    }
}

/// The details response for `refs`: the cards of at most the first
/// sixteen refs, with the counts.
pub open spec fn details_response_spec(ds: Seq<(String, JsonValue)>, refs: Seq<Seq<char>>) -> JsonView {
    let taken = if refs.len() > DEFAULT_MAX_DETAIL_REFS as int {
        refs.subrange(0, DEFAULT_MAX_DETAIL_REFS as int)
    } else {
        refs
    };
    let details = found_details(ds, taken);
    let e0 = obj_insert(Seq::empty(), "schema"@, JsonView::Str("ais-catalog-detail-response/0.0.1"@));
    let e1 = obj_insert(e0, "requested_refs"@, count_view(refs.len() as int));
    let e2 = obj_insert(e1, "returned_refs"@, count_view(details.len() as int));
    let e3 = obj_insert(e2, "truncated"@, JsonView::Bool(refs.len() > DEFAULT_MAX_DETAIL_REFS as int));
    let e4 = obj_insert(e3, "count"@, count_view(details.len() as int));
    JsonView::Object(obj_insert(e4, "details"@, JsonView::Array(details)))
}

/// The names of the parameters marked required, in order.
pub open spec fn required_names(params: Seq<JsonView>) -> Seq<Seq<char>>
    decreases params.len(),
{
    if params.len() == 0 {
        Seq::empty()
    } else {
        let rest = required_names(params.drop_last());
        let p = params.last();
        if field(p, "required"@) == Some(JsonView::Bool(true)) && field_str(p, "name"@) is Some {
            rest.push(field_str(p, "name"@)->0)
        } else {
            rest
        }
    }
}

pub open spec fn key_list(es: Seq<(Seq<char>, JsonView)>) -> Seq<Seq<char>> {
    es.map_values(|e: (Seq<char>, JsonView)| e.0)
}

/// The required inputs of a ref: the names of its detail card's required
/// parameters, sorted, each once.
pub open spec fn required_inputs_spec(ds: Seq<(String, JsonValue)>, reference: Seq<char>) -> Seq<Seq<char>> {
    match lookup(ds, reference) {
        Some(d) => match field_array(d@, "params"@) {
            Some(params) => key_list(sorted_keys(required_names(params))),
            None => Seq::empty(),
        },
        None => Seq::empty(),
    }
}

impl CandidateContext {
    pub fn get_details_for_refs(&self, refs: &Vec<String>) -> (r: JsonValue)
        requires
            self.wf(),
        ensures
            r@ == details_response_spec(self.detail_by_ref@, views(refs@)),
    {
        let requested = refs.len();
        let n: usize = if requested > DEFAULT_MAX_DETAIL_REFS {
            DEFAULT_MAX_DETAIL_REFS
        } else {
            requested
        };
        let ghost rv = views(refs@);
        let ghost taken = if rv.len() > DEFAULT_MAX_DETAIL_REFS as int {
            rv.subrange(0, DEFAULT_MAX_DETAIL_REFS as int)
        } else {
            rv
        };
        assert(taken =~= rv.subrange(0, n as int));
        let mut details: Vec<JsonValue> = Vec::new();
        let mut i: usize = 0;
        while i < n
            invariant
                i <= n,
                n <= refs@.len(),
                rv == views(refs@),
                keys_sorted(self.detail_by_ref@),
                items_view(details@) == found_details(self.detail_by_ref@, rv.subrange(0, i as int)),
            decreases n - i,
        {
            let ghost pre = rv.subrange(0, i + 1);
            assert(pre.drop_last() =~= rv.subrange(0, i as int));
            assert(pre.last() == refs@[i as int]@);
            match find_key(&self.detail_by_ref, refs[i].as_str()) {
                Ok(k) => {
                    let ghost before = items_view(details@);
                    details.push(self.detail_by_ref[k].1.clone_value());
                    assert(items_view(details@) =~= before.push(self.detail_by_ref@[k as int].1@));
                },
                Err(_) => {},
            }
            i = i + 1;
        }
        let count = details.len();
        let mut out = JsonValue::empty_object();
        out.insert(
            to_owned_string("schema"),
            JsonValue::String(to_owned_string("ais-catalog-detail-response/0.0.1")),
        );
        out.insert(to_owned_string("requested_refs"), count_value(requested));
        out.insert(to_owned_string("returned_refs"), count_value(count));
        out.insert(to_owned_string("truncated"), JsonValue::Bool(requested > DEFAULT_MAX_DETAIL_REFS));
        out.insert(to_owned_string("count"), count_value(count));
        proof {
            lemma_array_view(details);
        }
        out.insert(to_owned_string("details"), JsonValue::Array(details));
        out
    }

    pub fn required_inputs_for_ref(&self, reference: &str) -> (r: Vec<String>)
        requires
            self.wf(),
        ensures
            views(r@) == required_inputs_spec(self.detail_by_ref@, reference@),
    {
        let k = match find_key(&self.detail_by_ref, reference) {
            Ok(k) => k,
            Err(_) => return Vec::new(),
        };
        let detail = &self.detail_by_ref[k].1;
        let params = match get_array(detail, "params") {
            Some(p) => p,
            None => return Vec::new(),
        };
        let ghost pv = items_view(params@);
        let mut names: Vec<String> = Vec::new();
        let mut i: usize = 0;
        while i < params.len()
            invariant
                i <= params@.len(),
                pv == items_view(params@),
                views(names@) == required_names(pv.subrange(0, i as int)),
            decreases params.len() - i,
        {
            let ghost pre = pv.subrange(0, i + 1);
            assert(pre.drop_last() =~= pv.subrange(0, i as int));
            assert(pre.last() == params@[i as int]@);
            let p = &params[i];
            let required = match p.get("required") {
                Some(JsonValue::Bool(b)) => *b,
                _ => false,
            };
            if required {
                match get_str(p, "name") {
                    Some(name) => {
                        let ghost before = views(names@);
                        names.push(to_owned_string(name));
                        assert(views(names@) =~= before.push(name@));
                    },
                    None => {},
                }
            }
            i = i + 1;
        }
        assert(pv.subrange(0, pv.len() as int) =~= pv);
        sorted_strings(&names)
    }
}

/// The first `n` items, or all when there are fewer.
pub open spec fn truncated<T>(s: Seq<T>, n: int) -> Seq<T> {
    if s.len() > n {
        s.subrange(0, n)
    } else {
        s
    }
}

/// Keeps at most `max_index_candidates` cards, actions first: when the
/// actions alone reach the limit the queries all go.
pub fn truncate_candidates(candidates: &mut ExecutableCandidates, max_index_candidates: usize)
    ensures
        final(candidates).schema == old(candidates).schema,
        final(candidates).hash == old(candidates).hash,
        final(candidates).catalog_schema == old(candidates).catalog_schema,
        final(candidates).catalog_hash == old(candidates).catalog_hash,
        final(candidates).execution_plugins == old(candidates).execution_plugins,
        old(candidates).actions@.len() >= max_index_candidates ==> final(candidates).actions@
            == old(candidates).actions@.subrange(0, max_index_candidates as int),
        old(candidates).actions@.len() >= max_index_candidates ==> final(candidates).queries@.len() == 0,
        old(candidates).actions@.len() < max_index_candidates ==> final(candidates).actions@
            == old(candidates).actions@,
        old(candidates).actions@.len() < max_index_candidates ==> final(candidates).queries@
            == truncated(old(candidates).queries@, max_index_candidates - old(candidates).actions@.len()),
{
    if max_index_candidates == 0 {
        candidates.actions.clear();
        candidates.queries.clear();
        return;
    }
    let action_len = candidates.actions.len();
    if action_len >= max_index_candidates {
        candidates.actions.truncate(max_index_candidates);
        candidates.queries.clear();
        return;
    }
    let remaining = max_index_candidates - action_len;
    candidates.queries.truncate(remaining);
}

/// The refs of the cards that have one, in order.
pub open spec fn card_refs(cards: Seq<JsonView>) -> Seq<Seq<char>>
    decreases cards.len(),
{
    if cards.len() == 0 {
        Seq::empty()
    } else {
        let rest = card_refs(cards.drop_last());
        match field_str(cards.last(), "ref"@) {
            Some(r) => rest.push(r),
            None => rest,
        }
    }
}

fn refs_of(cards: &Vec<JsonValue>, out: &mut Vec<String>)
    ensures
        views(final(out)@) == views(old(out)@) + card_refs(items_view(cards@)),
{
    let ghost cv = items_view(cards@);
    let ghost base = views(out@);
    let mut i: usize = 0;
    while i < cards.len()
        invariant
            i <= cards@.len(),
            cv == items_view(cards@),
            views(out@) == base + card_refs(cv.subrange(0, i as int)),
        decreases cards.len() - i,
    {
        let ghost pre = cv.subrange(0, i + 1);
        assert(pre.drop_last() =~= cv.subrange(0, i as int));
        assert(pre.last() == cards@[i as int]@);
        match get_str(&cards[i], "ref") {
            Some(r) => {
                let ghost before = views(out@);
                out.push(to_owned_string(r));
                assert(views(out@) =~= before.push(r@));
            },
            None => {},
        }
        i = i + 1;
    }
    assert(cv.subrange(0, cv.len() as int) =~= cv);
}

/// The refs of all action and query cards, sorted, each once.
pub fn collect_candidate_refs(candidates: &ExecutableCandidates) -> (r: Vec<String>)
    ensures
        views(r@) == key_list(
            sorted_keys(
                card_refs(items_view(candidates.actions@)) + card_refs(items_view(candidates.queries@)),
            ),
        ),
{
    let mut refs: Vec<String> = Vec::new();
    assert(views(refs@) =~= Seq::<Seq<char>>::empty());
    refs_of(&candidates.actions, &mut refs);
    refs_of(&candidates.queries, &mut refs);
    assert(views(refs@) =~= card_refs(items_view(candidates.actions@)) + card_refs(
        items_view(candidates.queries@),
    ));
    sorted_strings(&refs)
}

pub open spec fn or_null(o: Option<JsonView>) -> JsonView {
    match o {
        Some(v) => v,
        None => JsonView::Null,
    }
}

pub open spec fn or_list(o: Option<JsonView>) -> JsonView {
    match o {
        Some(v) => v,
        None => JsonView::Array(Seq::empty()),
    }
}

/// The detail card kept for an action.
pub open spec fn action_detail_spec(a: JsonView) -> JsonView {
    let e0 = obj_insert(Seq::empty(), "kind"@, JsonView::Str("action"@));
    let e1 = obj_insert(e0, "ref"@, JsonView::Str(or_empty(field_str(a, "ref"@))));
    let e2 = obj_insert(e1, "id"@, JsonView::Str(or_empty(field_str(a, "id"@))));
    let e3 = obj_insert(e2, "description"@, or_null(field(a, "description"@)));
    let e4 = obj_insert(e3, "risk_level"@, or_null(field(a, "risk_level"@)));
    let e5 = obj_insert(e4, "risk_tags"@, or_list(field(a, "risk_tags"@)));
    let e6 = obj_insert(e5, "params"@, or_list(field(a, "params"@)));
    let e7 = obj_insert(e6, "returns"@, or_list(field(a, "returns"@)));
    let e8 = obj_insert(e7, "requires_queries"@, or_list(field(a, "requires_queries"@)));
    let gate = match field(a, "write_gate"@) {
        Some(g) => g,
        None => or_null(pointer_spec(a, "/extensions/write_gate"@)),
    };
    let e9 = obj_insert(e8, "write_gate"@, gate);
    let e10 = obj_insert(e9, "execution_types"@, or_list(field(a, "execution_types"@)));
    JsonView::Object(obj_insert(e10, "execution_chains"@, or_list(field(a, "execution_chains"@))))
}

/// The detail card kept for a query.
pub open spec fn query_detail_spec(q: JsonView) -> JsonView {
    let e0 = obj_insert(Seq::empty(), "kind"@, JsonView::Str("query"@));
    let e1 = obj_insert(e0, "ref"@, JsonView::Str(or_empty(field_str(q, "ref"@))));
    let e2 = obj_insert(e1, "id"@, JsonView::Str(or_empty(field_str(q, "id"@))));
    let e3 = obj_insert(e2, "description"@, or_null(field(q, "description"@)));
    let e4 = obj_insert(e3, "params"@, or_list(field(q, "params"@)));
    let e5 = obj_insert(e4, "returns"@, or_list(field(q, "returns"@)));
    let e6 = obj_insert(e5, "execution_types"@, or_list(field(q, "execution_types"@)));
    JsonView::Object(obj_insert(e6, "execution_chains"@, or_list(field(q, "execution_chains"@))))
}

fn field_or_null(v: &JsonValue, key: &str) -> (r: JsonValue)
    ensures
        r@ == or_null(field(v@, key@)),
{
    match v.get(key) {
        Some(x) => x.clone_value(),
        None => JsonValue::Null,
    }
}

fn field_or_list(v: &JsonValue, key: &str) -> (r: JsonValue)
    ensures
        r@ == or_list(field(v@, key@)),
{
    match v.get(key) {
        Some(x) => x.clone_value(),
        None => {
            let items: Vec<JsonValue> = Vec::new();
            proof {
                lemma_array_view(items);
                assert(items_view(items@) =~= Seq::<JsonView>::empty());
            }
            JsonValue::Array(items)
        },
    }
}

fn field_text(v: &JsonValue, key: &str) -> (r: JsonValue)
    ensures
        r@ == JsonView::Str(or_empty(field_str(v@, key@))),
{
    match get_str(v, key) {
        Some(t) => JsonValue::String(to_owned_string(t)),
        None => {
            let e = String::new();
            assert(e@ =~= Seq::<char>::empty());
            JsonValue::String(e)
        },
    }
}

pub fn normalize_action_detail(action: JsonValue) -> (r: JsonValue)
    ensures
        r@ == action_detail_spec(action@),
{
    let mut o = JsonValue::empty_object();
    o.insert(to_owned_string("kind"), JsonValue::String(to_owned_string("action")));
    o.insert(to_owned_string("ref"), field_text(&action, "ref"));
    o.insert(to_owned_string("id"), field_text(&action, "id"));
    o.insert(to_owned_string("description"), field_or_null(&action, "description"));
    o.insert(to_owned_string("risk_level"), field_or_null(&action, "risk_level"));
    o.insert(to_owned_string("risk_tags"), field_or_list(&action, "risk_tags"));
    o.insert(to_owned_string("params"), field_or_list(&action, "params"));
    o.insert(to_owned_string("returns"), field_or_list(&action, "returns"));
    o.insert(to_owned_string("requires_queries"), field_or_list(&action, "requires_queries"));
    let gate = match action.get("write_gate") {
        Some(g) => g.clone_value(),
        None => match action.pointer("/extensions/write_gate") {
            Some(g) => g.clone_value(),
            None => JsonValue::Null,
        },
    };
    o.insert(to_owned_string("write_gate"), gate);
    o.insert(to_owned_string("execution_types"), field_or_list(&action, "execution_types"));
    o.insert(to_owned_string("execution_chains"), field_or_list(&action, "execution_chains"));
    o
}

pub fn normalize_query_detail(query: JsonValue) -> (r: JsonValue)
    ensures
        r@ == query_detail_spec(query@),
{
    let mut o = JsonValue::empty_object();
    o.insert(to_owned_string("kind"), JsonValue::String(to_owned_string("query")));
    o.insert(to_owned_string("ref"), field_text(&query, "ref"));
    o.insert(to_owned_string("id"), field_text(&query, "id"));
    o.insert(to_owned_string("description"), field_or_null(&query, "description"));
    o.insert(to_owned_string("params"), field_or_list(&query, "params"));
    o.insert(to_owned_string("returns"), field_or_list(&query, "returns"));
    o.insert(to_owned_string("execution_types"), field_or_list(&query, "execution_types"));
    o.insert(to_owned_string("execution_chains"), field_or_list(&query, "execution_chains"));
    o
}

/// The detail card of `reference` among the cards: that of the last query
/// with this ref, else that of the last action with it.
pub open spec fn last_with_ref(cards: Seq<JsonView>, reference: Seq<char>) -> Option<JsonView>
    decreases cards.len(),
{
    if cards.len() == 0 {
        None
    } else if field_str(cards.last(), "ref"@) == Some(reference) {
        Some(cards.last())
    } else {
        last_with_ref(cards.drop_last(), reference)
    }
}

pub open spec fn detail_of(actions: Seq<JsonView>, queries: Seq<JsonView>, reference: Seq<char>) -> Option<JsonView> {
    match last_with_ref(queries, reference) {
        Some(q) => Some(query_detail_spec(q)),
        None => match last_with_ref(actions, reference) {
            Some(a) => Some(action_detail_spec(a)),
            None => None,
        },
    }
}

pub open spec fn lookup_view(es: Seq<(String, JsonValue)>, key: Seq<char>) -> Option<JsonView> {
    match lookup(es, key) {
        Some(v) => Some(v@),
        None => None,
    }
}

/// The detail cards by ref, in ref order: for each ref, the detail of the
/// last query with it, else of the last action with it.
pub fn build_detail_lookup_from_catalog(actions: Vec<JsonValue>, queries: Vec<JsonValue>) -> (r: Vec<(String, JsonValue)>)
    ensures
        keys_sorted(r@),
        forall|k: Seq<char>| #[trigger] lookup_view(r@, k) == detail_of(items_view(actions@), items_view(queries@), k),
{
    let ghost av = items_view(actions@);
    let ghost qv = items_view(queries@);
    let mut out: Vec<(String, JsonValue)> = Vec::new();
    let mut i: usize = 0;
    while i < actions.len()
        invariant
            i <= actions@.len(),
            av == items_view(actions@),
            keys_sorted(out@),
            forall|k: Seq<char>| #[trigger] lookup_view(out@, k) == match last_with_ref(av.subrange(0, i as int), k) {
                Some(a) => Some(action_detail_spec(a)),
                None => None,
            },
        decreases actions.len() - i,
    {
        let ghost pre = av.subrange(0, i + 1);
        assert(pre.drop_last() =~= av.subrange(0, i as int));
        assert(pre.last() == actions@[i as int]@);
        let card = actions[i].clone_value();
        let ghost before = out@;
        match get_str(&actions[i], "ref") {
            Some(reference) => {
                put(&mut out, to_owned_string(reference), normalize_action_detail(card));
                assert forall|k: Seq<char>| #[trigger] lookup_view(out@, k) == match last_with_ref(pre, k) {
                    Some(a) => Some(action_detail_spec(a)),
                    None => None,
                } by {
                    if k != reference@ {
                        assert(lookup_view(before, k) == lookup_view(out@, k));
                    }
                }
            },
            None => {
                assert forall|k: Seq<char>| #[trigger] lookup_view(out@, k) == match last_with_ref(pre, k) {
                    Some(a) => Some(action_detail_spec(a)),
                    None => None,
                } by {
                    assert(lookup_view(before, k) == lookup_view(out@, k));
                }
            },
        }
        i = i + 1;
    }
    assert(av.subrange(0, av.len() as int) =~= av);
    let mut j: usize = 0;
    while j < queries.len()
        invariant
            j <= queries@.len(),
            av == items_view(actions@),
            qv == items_view(queries@),
            keys_sorted(out@),
            forall|k: Seq<char>| #[trigger] lookup_view(out@, k) == match last_with_ref(qv.subrange(0, j as int), k) {
                Some(q) => Some(query_detail_spec(q)),
                None => match last_with_ref(av, k) {
                    Some(a) => Some(action_detail_spec(a)),
                    None => None,
                },
            },
        decreases queries.len() - j,
    {
        let ghost pre = qv.subrange(0, j + 1);
        assert(pre.drop_last() =~= qv.subrange(0, j as int));
        assert(pre.last() == queries@[j as int]@);
        let card = queries[j].clone_value();
        let ghost before = out@;
        match get_str(&queries[j], "ref") {
            Some(reference) => {
                put(&mut out, to_owned_string(reference), normalize_query_detail(card));
                assert forall|k: Seq<char>| #[trigger] lookup_view(out@, k) == match last_with_ref(pre, k) {
                    Some(q) => Some(query_detail_spec(q)),
                    None => match last_with_ref(av, k) {
                        Some(a) => Some(action_detail_spec(a)),
                        None => None,
                    },
                } by {
                    if k != reference@ {
                        assert(lookup_view(before, k) == lookup_view(out@, k));
                    }
                }
            },
            None => {
                assert forall|k: Seq<char>| #[trigger] lookup_view(out@, k) == match last_with_ref(pre, k) {
                    Some(q) => Some(query_detail_spec(q)),
                    None => match last_with_ref(av, k) {
                        Some(a) => Some(action_detail_spec(a)),
                        None => None,
                    },
                } by {
                    assert(lookup_view(before, k) == lookup_view(out@, k));
                }
            },
        }
        j = j + 1;
    }
    assert(qv.subrange(0, qv.len() as int) =~= qv);
    out
}

impl Default for CandidateContext {
    /// No candidates: an empty index and listing.
    fn default() -> (r: CandidateContext)
        ensures
            r.detail_by_ref@.len() == 0,
            r.protocols@.len() == 0,
            r.executable_candidates.actions@.len() == 0,
            r.executable_candidates.queries@.len() == 0,
            r.executable_candidates.execution_plugins@.len() == 0,
            r.executable_candidates.schema@ == "ais-executable-candidates/0.0.1"@,
            r.executable_candidates.hash@ == Seq::<char>::empty(),
            r.executable_candidates.catalog_schema@ == "ais-catalog/0.0.1"@,
            r.executable_candidates.catalog_hash@ == Seq::<char>::empty(),
            r.index_candidates@ == JsonView::Object(
                obj_insert(
                    obj_insert(
                        obj_insert(
                            Seq::empty(),
                            "schema"@,
                            JsonView::Str("ais-executable-candidates/0.0.1"@),
                        ),
                        "actions"@,
                        JsonView::Array(Seq::empty()),
                    ),
                    "queries"@,
                    JsonView::Array(Seq::empty()),
                ),
            ),
    {
        let mut index = JsonValue::empty_object();
        index.insert(
            to_owned_string("schema"),
            JsonValue::String(to_owned_string("ais-executable-candidates/0.0.1")),
        );
        let a: Vec<JsonValue> = Vec::new();
        let q: Vec<JsonValue> = Vec::new();
        proof {
            lemma_array_view(a);
            lemma_array_view(q);
            assert(items_view(a@) =~= Seq::<JsonView>::empty());
            assert(items_view(q@) =~= Seq::<JsonView>::empty());
        }
        index.insert(to_owned_string("actions"), JsonValue::Array(a));
        index.insert(to_owned_string("queries"), JsonValue::Array(q));
        let hash = String::new();
        let catalog_hash = String::new();
        assert(hash@ =~= Seq::<char>::empty());
        assert(catalog_hash@ =~= Seq::<char>::empty());
        CandidateContext {
            index_candidates: index,
            detail_by_ref: Vec::new(),
            executable_candidates: ExecutableCandidates {
                schema: to_owned_string("ais-executable-candidates/0.0.1"),
                hash,
                catalog_schema: to_owned_string("ais-catalog/0.0.1"),
                catalog_hash,
                actions: Vec::new(),
                queries: Vec::new(),
                execution_plugins: Vec::new(),
            },
            protocols: Vec::new(),
        }
    }
}


/// Every text of `xs` is among its sorted keys.
pub proof fn lemma_sorted_keys_has(xs: Seq<Seq<char>>, m: Seq<char>)
    requires
        xs.contains(m),
    ensures
        key_list(sorted_keys(xs)).contains(m),
    decreases xs.len(),
{
    let prev = xs.drop_last();
    let r = sorted_keys(xs);
    if xs.last() == m {
        crate::json::lemma_obj_get_insert(sorted_keys(prev), m, JsonView::Null, m);
    } else {
        let i = choose|i: int| 0 <= i < xs.len() && xs[i] == m;
        assert(prev[i] == m);
        lemma_sorted_keys_has(prev, m);
        let j = choose|j: int| 0 <= j < key_list(sorted_keys(prev)).len() && key_list(sorted_keys(prev))[j] == m;
        assert(sorted_keys(prev)[j].0 == m);
        crate::json::lemma_obj_get_some(sorted_keys(prev), m);
        crate::json::lemma_obj_get_insert(sorted_keys(prev), xs.last(), JsonView::Null, m);
    }
    crate::json::lemma_obj_get_some(r, m);
    let w = choose|w: int| 0 <= w < r.len() && (#[trigger] r[w]).0 == m;
    assert(key_list(r)[w] == m);
}
} // verus!
