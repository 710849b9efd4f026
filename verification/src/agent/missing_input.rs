//! Missing-input recovery: reading recovery trace ids and mapping the
//! references a planner asked about onto the known input refs.
use vstd::prelude::*;
use crate::agent::input_normalize::{normalize_input_slot_key, slot_key_spec};
use crate::text::{
    concat, contains, ends_with, rsplit_once_spec, split_once_spec, starts_with, str_contains, str_ends_with,
    str_eq, str_rsplit_once, str_split_once, str_starts_with, str_strip_prefix, strip_prefix, to_owned_string,
    trim, trim_str,
};

verus! {

pub open spec fn views(v: Seq<String>) -> Seq<Seq<char>> {
    v.map_values(|s: String| s@)
}

/// The statuses a recovery trace id can end with.
pub open spec fn recovery_status_name(t: Seq<char>) -> bool {
    t == "need_user_input"@ || t == "exhausted_unavailable"@ || t == "compile_autofill_exhausted"@
}

/// The status of a recovery attempt: the trimmed part of its trace id after
/// the last `:`, when that names a recovery status.
pub open spec fn recovery_status_spec(id: Seq<char>) -> Option<Seq<char>> {
    let last = match rsplit_once_spec(id, ":"@) {
        Some((_, b)) => b,
        None => id,
    };
    if recovery_status_name(trim(last)) {
        Some(trim(last))
    } else {
        None
    }
}

pub fn infer_recovery_status(attempt_trace_id: &str) -> (r: Option<String>)
    ensures
        match r {
            Some(s) => recovery_status_spec(attempt_trace_id@) == Some(s@),
            None => recovery_status_spec(attempt_trace_id@) is None,
        },
{
    let last = match str_rsplit_once(attempt_trace_id, ":") {
        Some((_, b)) => b,
        None => to_owned_string(attempt_trace_id),
    };
    let candidate = trim_str(last.as_str());
    let c = candidate.as_str();
    if str_eq(c, "need_user_input") || str_eq(c, "exhausted_unavailable") || str_eq(c, "compile_autofill_exhausted") {
        Some(candidate)
    } else {
        None
    }
}

/// The source of a recovery attempt: the trimmed part of its trace id
/// before the first `:`, unless blank.
pub open spec fn recovery_source_spec(id: Seq<char>) -> Option<Seq<char>> {
    let first = match split_once_spec(id, ":"@) {
        Some((a, _)) => a,
        None => id,
    };
    if trim(first).len() > 0 {
        Some(trim(first))
    } else {
        None
    }
}

pub fn infer_recovery_source(attempt_trace_id: &str) -> (r: Option<String>)
    ensures
        match r {
            Some(s) => recovery_source_spec(attempt_trace_id@) == Some(s@),
            None => recovery_source_spec(attempt_trace_id@) is None,
        },
{
    let first = match str_split_once(attempt_trace_id, ":") {
        Some((a, _)) => a,
        None => to_owned_string(attempt_trace_id),
    };
    let t = trim_str(first.as_str());
    if t.as_str().unicode_len() > 0 {
        Some(t)
    } else {
        None
    }
}

/// A ref that can hold a token's address: an input ref naming a token and
/// ending in `.address` or `_address`.
pub open spec fn token_address_ref(r: Seq<char>) -> bool {
    starts_with(r, "inputs."@) && contains(r, "token"@) && (ends_with(r, ".address"@) || ends_with(r, "_address"@))
}

/// The token address refs among `refs`, in order.
pub open spec fn token_address_refs(refs: Seq<Seq<char>>) -> Seq<Seq<char>>
    decreases refs.len(),
{
    if refs.len() == 0 {
        Seq::empty()
    } else {
        let rest = token_address_refs(refs.drop_last());
        if token_address_ref(refs.last()) {
            rest.push(refs.last())
        } else {
            rest
        }
    }
}

/// The one token address ref among the source refs, when there is exactly
/// one.
pub open spec fn token_address_choice(refs: Seq<Seq<char>>) -> Option<Seq<char>> {
    let c = token_address_refs(refs);
    if c.len() == 1 {
        Some(c[0])
    } else {
        None
    }
}

fn is_token_address_ref(r: &str) -> (b: bool)
    ensures
        b == token_address_ref(r@),
{
    str_starts_with(r, "inputs.") && str_contains(r, "token") && (str_ends_with(r, ".address") || str_ends_with(
        r,
        "_address",
    ))
}

pub fn choose_token_address_source(source_refs: &Vec<String>) -> (r: Option<String>)
    ensures
        match r {
            Some(s) => token_address_choice(views(source_refs@)) == Some(s@),
            None => token_address_choice(views(source_refs@)) is None,
        },
{
    let ghost sv = views(source_refs@);
    let mut found: Vec<String> = Vec::new();
    let mut i: usize = 0;
    while i < source_refs.len()
        invariant
            i <= source_refs@.len(),
            sv == views(source_refs@),
            views(found@) == token_address_refs(sv.subrange(0, i as int)),
        decreases source_refs.len() - i,
    {
        let ghost pre = sv.subrange(0, i + 1);
        assert(pre.drop_last() =~= sv.subrange(0, i as int));
        assert(pre.last() == source_refs@[i as int]@);
        if is_token_address_ref(source_refs[i].as_str()) {
            let ghost before = views(found@);
            found.push(to_owned_string(source_refs[i].as_str()));
            assert(views(found@) =~= before.push(source_refs@[i as int]@));
        }
        i = i + 1;
    }
    assert(sv.subrange(0, sv.len() as int) =~= sv);
    if found.len() == 1 {
        assert(views(found@)[0] == found@[0]@);
        Some(to_owned_string(found[0].as_str()))
    } else {
        None
    }
}

fn contains_ref(refs: &Vec<String>, r: &str) -> (b: bool)
    ensures
        b == views(refs@).contains(r@),
{
    let mut i: usize = 0;
    while i < refs.len()
        invariant
            i <= refs@.len(),
            forall|k: int| 0 <= k < i ==> #[trigger] views(refs@)[k] != r@,
        decreases refs.len() - i,
    {
        assert(views(refs@)[i as int] == refs@[i as int]@);
        if str_eq(refs[i].as_str(), r) {
            return true;
        }
        i = i + 1;
    }
    false
}

/// A canonical ref, kept when it is a source ref; the generic token
/// address mapped onto the one token address source there is.
pub open spec fn remap_spec(canonical: Seq<char>, refs: Seq<Seq<char>>) -> Seq<char> {
    if refs.contains(canonical) {
        canonical
    } else if canonical == "inputs.token.address"@ {
        match token_address_choice(refs) {
            Some(m) => m,
            None => canonical,
        }
    } else {
        canonical
    }
}

pub fn remap_semantic_alias(canonical: String, source_refs: &Vec<String>) -> (r: String)
    ensures
        r@ == remap_spec(canonical@, views(source_refs@)),
{
    if contains_ref(source_refs, canonical.as_str()) {
        return canonical;
    }
    if str_eq(canonical.as_str(), "inputs.token.address") {
        match choose_token_address_source(source_refs) {
            Some(m) => return m,
            None => {},
        }
    }
    canonical
}

/// A `params.` reference mapped onto the inputs: its path made an input
/// slot under `inputs.`, then remapped as `remap_spec` does; none for a
/// blank path or one that is no input slot.
pub open spec fn param_source_spec(raw: Seq<char>, refs: Seq<Seq<char>>) -> Option<Seq<char>> {
    match strip_prefix(trim(raw), "params."@) {
        Some(p) => if trim(p).len() == 0 {
            None
        } else {
            match slot_key_spec(trim(p)) {
                Some(slot) => Some(remap_spec("inputs."@ + slot, refs)),
                None => None,
            }
        },
        None => None,
    }
}

pub fn map_param_ref_to_source(raw: &str, source_refs: &Vec<String>) -> (r: Option<String>)
    ensures
        match r {
            Some(s) => param_source_spec(raw@, views(source_refs@)) == Some(s@),
            None => param_source_spec(raw@, views(source_refs@)) is None,
        },
{
    let trimmed = trim_str(raw);
    let path = match str_strip_prefix(trimmed.as_str(), "params.") {
        Some(p) => trim_str(p.as_str()),
        None => return None,
    };
    if path.as_str().unicode_len() == 0 {
        return None;
    }
    match normalize_input_slot_key(path.as_str()) {
        Some(slot) => {
            let canonical = concat("inputs.", slot.as_str());
            Some(remap_semantic_alias(canonical, source_refs))
        },
        None => None,
    }
}

} // verus!
