//! Helpers of the segmented intent planner: fact references, identifier
//! tokens, control-semantics queries and candidate list filters.
use vstd::prelude::*;
use crate::agent::candidates::{non_empty_parts, replace_all, replace_str, views};
use crate::text::{
    CharClass, chars_of, concat, is_ascii_alnum, is_ascii_alnum_char, lower, push_char, rsplit_once_spec,
    split_by, split_chars, str_eq, str_rsplit_once, str_strip_prefix, str_strip_suffix, string_from_chars,
    strip_prefix, strip_suffix, to_ascii_lowercase, to_owned_string, trim, trim_by, trim_str, trim_str_by,
};

verus! {

/// The reference to a fact under `inputs.`: the text trimmed of blanks and
/// quoting, after its last `=`, without `runtime.`, without `inputs.` or
/// `input.`, without `.value`, dots trimmed; none when the key is empty.
pub open spec fn missing_fact_ref_spec(raw: Seq<char>) -> Option<Seq<char>> {
    let t = trim_by(raw, CharClass::RefPunct);
    let right = match rsplit_once_spec(t, "="@) {
        Some((_, b)) => b,
        None => t,
    };
    let a = match strip_prefix(right, "runtime."@) {
        Some(x) => x,
        None => right,
    };
    let k = match strip_prefix(a, "inputs."@) {
        Some(x) => x,
        None => match strip_prefix(a, "input."@) {
            Some(x) => x,
            None => a,
        },
    };
    let k2 = match strip_suffix(k, ".value"@) {
        Some(x) => x,
        None => k,
    };
    let key = trim_by(k2, CharClass::One('.'));
    if key.len() == 0 {
        None
    } else {
        Some("inputs."@ + key)
    }
}

pub fn normalize_missing_fact_ref(raw: &str) -> (r: Option<String>)
    ensures
        match r {
            Some(s) => missing_fact_ref_spec(raw@) == Some(s@),
            None => missing_fact_ref_spec(raw@) is None,
        },
{
    let t = trim_str_by(raw, CharClass::RefPunct);
    let right = match str_rsplit_once(t.as_str(), "=") {
        Some((_, b)) => b,
        None => t,
    };
    let a = match str_strip_prefix(right.as_str(), "runtime.") {
        Some(x) => x,
        None => right,
    };
    let k = match str_strip_prefix(a.as_str(), "inputs.") {
        Some(x) => x,
        None => match str_strip_prefix(a.as_str(), "input.") {
            Some(x) => x,
            None => a,
        },
    };
    let k2 = match str_strip_suffix(k.as_str(), ".value") {
        Some(x) => x,
        None => k,
    };
    let key = trim_str_by(k2.as_str(), CharClass::One('.'));
    if key.as_str().unicode_len() == 0 {
        return None;
    }
    Some(concat("inputs.", key.as_str()))
}

/// The ASCII letters and digits of `s`, in order.
pub open spec fn alnum_only(s: Seq<char>) -> Seq<char>
    decreases s.len(),
{
    if s.len() == 0 {
        Seq::empty()
    } else if is_ascii_alnum(s.last()) {
        alnum_only(s.drop_last()).push(s.last())
    } else {
        alnum_only(s.drop_last())
    }
}

/// An identifier compared loosely: its ASCII letters and digits,
/// lower-cased.
pub open spec fn identifier_spec(s: Seq<char>) -> Seq<char> {
    lower(alnum_only(s))
}

pub fn normalized_identifier(raw: &str) -> (r: String)
    ensures
        r@ == identifier_spec(raw@),
{
    let cs = chars_of(raw);
    let mut out = String::new();
    let mut i: usize = 0;
    while i < cs.len()
        invariant
            i <= cs@.len(),
            cs@ == raw@,
            out@ == alnum_only(cs@.subrange(0, i as int)),
        decreases cs.len() - i,
    {
        let ghost pre = cs@.subrange(0, i + 1);
        assert(pre.drop_last() =~= cs@.subrange(0, i as int));
        if is_ascii_alnum_char(cs[i]) {
            push_char(&mut out, cs[i]);
        }
        i = i + 1;
    }
    assert(cs@.subrange(0, cs@.len() as int) =~= cs@);
    to_ascii_lowercase(out.as_str())
}

/// The loose identifiers of the pieces of `s` between characters other than
/// ASCII letters and digits, empty ones left out.
pub open spec fn tokens_spec(s: Seq<char>) -> Seq<Seq<char>> {
    non_empty_parts(split_by(s, CharClass::NonAlnum).map_values(|p: Seq<char>| identifier_spec(p)))
}

pub fn normalized_tokens(raw: &str) -> (r: Vec<String>)
    ensures
        views(r@) == tokens_spec(raw@),
{
    let cs = chars_of(raw);
    let parts = split_chars(&cs, CharClass::NonAlnum);
    let ghost ps = split_by(raw@, CharClass::NonAlnum).map_values(|p: Seq<char>| identifier_spec(p));
    let mut out: Vec<String> = Vec::new();
    let mut i: usize = 0;
    while i < parts.len()
        invariant
            i <= parts@.len(),
            parts@.len() == ps.len(),
            cs@ == raw@,
            ps == split_by(raw@, CharClass::NonAlnum).map_values(|p: Seq<char>| identifier_spec(p)),
            forall|k: int| 0 <= k < parts@.len() ==> #[trigger] parts@[k]@ == split_by(raw@, CharClass::NonAlnum)[k],
            views(out@) == non_empty_parts(ps.subrange(0, i as int)),
        decreases parts.len() - i,
    {
        let ghost pre = ps.subrange(0, i + 1);
        assert(pre.drop_last() =~= ps.subrange(0, i as int));
        let piece = string_from_chars(&parts[i]);
        let id = normalized_identifier(piece.as_str());
        assert(pre.last() == id@);
        if id.as_str().unicode_len() > 0 {
            let ghost before = views(out@);
            out.push(id);
            assert(views(out@) =~= before.push(pre.last()));
        }
        i = i + 1;
    }
    assert(ps.subrange(0, ps.len() as int) =~= ps);
    out
}

/// Words that ask about control flow rather than a protocol.
pub open spec fn control_term(t: Seq<char>) -> bool {
    t == "assert"@ || t == "branch"@ || t == "until"@ || t == "retry"@ || t == "timeout"@ || t == "timeout_ms"@
        || t == "depends_on"@ || t == "cel"@ || t == "valueref"@ || t == "value_ref"@
}

pub open spec fn has_control_term(ts: Seq<Seq<char>>) -> bool {
    exists|i: int| 0 <= i < ts.len() && control_term(#[trigger] ts[i])
}

/// A query asks about control semantics when, lower-cased with dashes made
/// underscores and cut at characters other than letters, digits and `_`,
/// one of its words is a control term.
pub open spec fn control_query_spec(query: Option<Seq<char>>) -> bool {
    match query {
        None => false,
        Some(q) => {
            let t = trim(q);
            t.len() > 0 && has_control_term(
                non_empty_parts(split_by(replace_all(lower(t), "-"@, "_"@), CharClass::NonAlnumUnderscore)),
            )
        },
    }
}

fn is_control_term(t: &str) -> (b: bool)
    ensures
        b == control_term(t@),
{
    str_eq(t, "assert") || str_eq(t, "branch") || str_eq(t, "until") || str_eq(t, "retry") || str_eq(t, "timeout")
        || str_eq(t, "timeout_ms") || str_eq(t, "depends_on") || str_eq(t, "cel") || str_eq(t, "valueref")
        || str_eq(t, "value_ref")
}

pub fn is_control_semantics_query(query: Option<&str>) -> (b: bool)
    ensures
        b == control_query_spec(
            match query {
                Some(q) => Some(q@),
                None => None,
            },
        ),
{
    let raw = match query {
        Some(q) => q,
        None => return false,
    };
    let t = trim_str(raw);
    if t.as_str().unicode_len() == 0 {
        return false;
    }
    let lowered = to_ascii_lowercase(t.as_str());
    proof {
        reveal_strlit("-");
    }
    let normalized = replace_str(lowered.as_str(), "-", "_");
    let cs = chars_of(normalized.as_str());
    let parts = split_chars(&cs, CharClass::NonAlnumUnderscore);
    let ghost ps = split_by(normalized@, CharClass::NonAlnumUnderscore);
    let mut toks: Vec<String> = Vec::new();
    let mut i: usize = 0;
    while i < parts.len()
        invariant
            i <= parts@.len(),
            parts@.len() == ps.len(),
            forall|k: int| 0 <= k < parts@.len() ==> #[trigger] parts@[k]@ == ps[k],
            views(toks@) == non_empty_parts(ps.subrange(0, i as int)),
        decreases parts.len() - i,
    {
        let ghost pre = ps.subrange(0, i + 1);
        assert(pre.drop_last() =~= ps.subrange(0, i as int));
        assert(pre.last() == parts@[i as int]@);
        if parts[i].len() > 0 {
            let piece = string_from_chars(&parts[i]);
            let ghost before = views(toks@);
            toks.push(piece);
            assert(views(toks@) =~= before.push(pre.last()));
        }
        i = i + 1;
    }
    assert(ps.subrange(0, ps.len() as int) =~= ps);
    assert(control_query_spec(Some(raw@)) == has_control_term(views(toks@)));
    let mut k: usize = 0;
    while k < toks.len()
        invariant
            k <= toks@.len(),
            query == Some(raw),
            control_query_spec(Some(raw@)) == has_control_term(views(toks@)),
            forall|m: int| 0 <= m < k ==> !control_term(#[trigger] views(toks@)[m]),
        decreases toks.len() - k,
    {
        assert(views(toks@)[k as int] == toks@[k as int]@);
        if is_control_term(toks[k].as_str()) {
            return true;
        }
        k = k + 1;
    }
    false
}

// ---------------------------------------------------------------------------
// Candidate list filters
// ---------------------------------------------------------------------------

/// The chain and protocol filter of a candidate listing.
pub struct ListCandidatesFilterArgs {
    pub chain: Option<String>,
    pub protocol: Option<String>,
}

/// The arguments of a candidate listing: a chain and protocol given
/// directly or inside `filter`.
pub struct ListCandidatesArgs {
    pub chain: Option<String>,
    pub protocol: Option<String>,
    pub filter: Option<ListCandidatesFilterArgs>,
}

pub open spec fn opt_view(o: Option<String>) -> Option<Seq<char>> {
    match o {
        Some(s) => Some(s@),
        None => None,
    }
}

/// The value given inside the filter, else the one given directly.
pub open spec fn first_given(inner: Option<Seq<char>>, outer: Option<Seq<char>>) -> Option<Seq<char>> {
    match inner {
        Some(v) => Some(v),
        None => outer,
    }
}

/// A given value trimmed, unless blank.
pub open spec fn trimmed_given(v: Option<Seq<char>>) -> Option<Seq<char>> {
    match v {
        Some(s) => if trim(s).len() > 0 {
            Some(trim(s))
        } else {
            None
        },
        None => None,
    }
}

impl ListCandidatesArgs {
    pub open spec fn chain_spec(&self) -> Option<Seq<char>> {
        trimmed_given(
            first_given(
                match self.filter {
                    Some(f) => opt_view(f.chain),
                    None => None,
                },
                opt_view(self.chain),
            ),
        )
    }

    pub open spec fn protocol_spec(&self) -> Option<Seq<char>> {
        match trimmed_given(
            first_given(
                match self.filter {
                    Some(f) => opt_view(f.protocol),
                    None => None,
                },
                opt_view(self.protocol),
            ),
        ) {
            Some(p) => Some(lower(p)),
            None => None,
        }
    }

    /// The chain and protocol to filter by: the one inside `filter` before
    /// the direct one, trimmed, blank ones dropped, the protocol
    /// lower-cased.
    pub fn normalized_filter(&self) -> (r: ListCandidatesFilterArgs)
        ensures
            opt_view(r.chain) == self.chain_spec(),
            opt_view(r.protocol) == self.protocol_spec(),
    {
        let chain_given: Option<&String> = match &self.filter {
            Some(f) => match &f.chain {
                Some(c) => Some(c),
                None => match &self.chain {
                    Some(c) => Some(c),
                    None => None,
                },
            },
            None => match &self.chain {
                Some(c) => Some(c),
                None => None,
            },
        };
        let chain = match chain_given {
            Some(c) => {
                let t = trim_str(c.as_str());
                if t.as_str().unicode_len() > 0 {
                    Some(t)
                } else {
                    None
                }
            },
            None => None,
        };
        let protocol_given: Option<&String> = match &self.filter {
            Some(f) => match &f.protocol {
                Some(p) => Some(p),
                None => match &self.protocol {
                    Some(p) => Some(p),
                    None => None,
                },
            },
            None => match &self.protocol {
                Some(p) => Some(p),
                None => None,
            },
        };
        let protocol = match protocol_given {
            Some(p) => {
                let t = trim_str(p.as_str());
                if t.as_str().unicode_len() > 0 {
                    Some(to_ascii_lowercase(t.as_str()))
                } else {
                    None
                }
            },
            None => None,
        };
        ListCandidatesFilterArgs { chain, protocol }
    }
}

} // verus!
