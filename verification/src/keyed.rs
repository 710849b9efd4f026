//! Lists of `(key, value)` pairs kept in strictly increasing key order: the
//! shape of an ordered map.
use vstd::prelude::*;
use crate::text::{seq_lt, str_order, lemma_seq_lt_irreflexive, lemma_seq_lt_asymmetric,
    lemma_seq_lt_transitive};

verus! {

/// Keys strictly increase along the list.
pub open spec fn keys_sorted<T>(es: Seq<(String, T)>) -> bool {
    forall|i: int, j: int| 0 <= i < j < es.len() ==> seq_lt(#[trigger] es[i].0@, #[trigger] es[j].0@)
}

/// The value of the first entry with key `key`.
pub open spec fn lookup<T>(es: Seq<(String, T)>, key: Seq<char>) -> Option<T>
    decreases es.len(),
{
    if es.len() == 0 {
        None
    } else if es[0].0@ == key {
        Some(es[0].1)
    } else {
        lookup(es.drop_first(), key)
    }
}

/// The keys of the list, in order.
pub open spec fn key_seq<T>(es: Seq<(String, T)>) -> Seq<Seq<char>> {
    Seq::new(es.len(), |i: int| es[i].0@)
}

pub proof fn lemma_lookup_at<T>(es: Seq<(String, T)>, i: int)
    requires
        0 <= i < es.len(),
        forall|k: int| 0 <= k < i ==> #[trigger] es[k].0@ != es[i].0@,
    ensures
        lookup(es, es[i].0@) == Some(es[i].1),
    decreases i,
{
    if i > 0 {
        let rest = es.drop_first();
        assert forall|k: int| 0 <= k < i - 1 implies #[trigger] rest[k].0@ != rest[i - 1].0@ by {
            assert(rest[k] == es[k + 1]);
        }
        assert(es[0].0@ != es[i].0@);
        lemma_lookup_at(rest, i - 1);
    }
}

pub proof fn lemma_lookup_sorted_at<T>(es: Seq<(String, T)>, i: int)
    requires
        keys_sorted(es),
        0 <= i < es.len(),
    ensures
        lookup(es, es[i].0@) == Some(es[i].1),
{
    assert forall|k: int| 0 <= k < i implies #[trigger] es[k].0@ != es[i].0@ by {
        lemma_seq_lt_irreflexive(es[i].0@);
    }
    lemma_lookup_at(es, i);
}

pub proof fn lemma_lookup_absent<T>(es: Seq<(String, T)>, key: Seq<char>)
    requires
        forall|k: int| 0 <= k < es.len() ==> #[trigger] es[k].0@ != key,
    ensures
        lookup(es, key) is None,
    decreases es.len(),
{
    if es.len() > 0 {
        let rest = es.drop_first();
        assert forall|k: int| 0 <= k < rest.len() implies #[trigger] rest[k].0@ != key by {
            assert(rest[k] == es[k + 1]);
        }
        lemma_lookup_absent(rest, key);
    }
}

/// Inserting or replacing changes only the value under the entry's key.
pub proof fn lemma_lookup_other_insert<T>(es: Seq<(String, T)>, p: int, e: (String, T), key: Seq<char>)
    requires
        0 <= p <= es.len(),
        key != e.0@,
    ensures
        lookup(es.insert(p, e), key) == lookup(es, key),
    decreases p,
{
    let n = es.insert(p, e);
    if p == 0 {
        assert(n.drop_first() =~= es);
    } else {
        assert(n[0] == es[0]);
        assert(n.drop_first() =~= es.drop_first().insert(p - 1, e));
        lemma_lookup_other_insert(es.drop_first(), p - 1, e, key);
    }
}

pub proof fn lemma_lookup_other_update<T>(es: Seq<(String, T)>, i: int, e: (String, T), key: Seq<char>)
    requires
        0 <= i < es.len(),
        key != e.0@,
        key != es[i].0@,
    ensures
        lookup(es.update(i, e), key) == lookup(es, key),
    decreases i,
{
    let n = es.update(i, e);
    if i == 0 {
        assert(n.drop_first() =~= es.drop_first());
    } else {
        assert(n[0] == es[0]);
        assert(n.drop_first() =~= es.drop_first().update(i - 1, e));
        lemma_lookup_other_update(es.drop_first(), i - 1, e, key);
    }
}

/// In a list with increasing keys, the key at `i` is found there.
pub proof fn lemma_lookup_at_or_earlier<T>(es: Seq<(String, T)>, i: int)
    requires
        keys_sorted(es),
        0 <= i < es.len(),
    ensures
        lookup(es, es[i].0@) is Some,
{
    lemma_lookup_sorted_at(es, i);
}

/// Where `key` is, or where it would go.
pub fn find_key<T>(es: &Vec<(String, T)>, key: &str) -> (r: Result<usize, usize>)
    requires
        keys_sorted(es@),
    ensures
        match r {
            Ok(i) => i < es@.len() && es@[i as int].0@ == key@ && lookup(es@, key@) == Some(
                es@[i as int].1,
            ),
            Err(p) => p <= es@.len() && lookup(es@, key@) is None && (forall|k: int|
                0 <= k < p ==> seq_lt(#[trigger] es@[k].0@, key@)) && (forall|k: int|
                p <= k < es@.len() ==> seq_lt(key@, #[trigger] es@[k].0@)),
        },
{
    let mut i: usize = 0;
    while i < es.len()
        invariant
            i <= es@.len(),
            keys_sorted(es@),
            forall|k: int| 0 <= k < i ==> seq_lt(#[trigger] es@[k].0@, key@),
        decreases es.len() - i,
    {
        let o = str_order(es[i].0.as_str(), key);
        if o == 0 {
            proof {
                lemma_lookup_sorted_at(es@, i as int);
            }
            return Ok(i);
        }
        if o > 0 {
            proof {
                assert forall|k: int| i <= k < es@.len() implies seq_lt(key@, #[trigger] es@[k].0@) by {
                    if k > i {
                        lemma_seq_lt_transitive(key@, es@[i as int].0@, es@[k].0@);
                    }
                }
                assert forall|k: int| 0 <= k < es@.len() implies #[trigger] es@[k].0@ != key@ by {
                    if k < i {
                        lemma_seq_lt_irreflexive(key@);
                    } else {
                        lemma_seq_lt_irreflexive(key@);
                    }
                }
                lemma_lookup_absent(es@, key@);
            }
            return Err(i);
        }
        i = i + 1;
    }
    proof {
        assert forall|k: int| 0 <= k < es@.len() implies #[trigger] es@[k].0@ != key@ by {
            lemma_seq_lt_irreflexive(key@);
        }
        lemma_lookup_absent(es@, key@);
    }
    Err(i)
}

/// Stores `value` under `key`: replaces the value of an existing entry, or
/// inserts a new entry at its place in key order.
pub fn put<T>(es: &mut Vec<(String, T)>, key: String, value: T)
    requires
        keys_sorted(old(es)@),
    ensures
        keys_sorted(final(es)@),
        lookup(final(es)@, key@) == Some(value),
        forall|r: Seq<char>| r != key@ ==> lookup(final(es)@, r) == lookup(old(es)@, r),
        lookup(old(es)@, key@) is Some ==> key_seq(final(es)@) == key_seq(old(es)@),
        lookup(old(es)@, key@) is None ==> final(es)@.len() == old(es)@.len() + 1,
{
    let ghost k = key@;
    match find_key(es, key.as_str()) {
        Ok(i) => {
            let ghost before = es@;
            es.set(i, (key, value));
            proof {
                let e = es@[i as int];
                assert(es@ == before.update(i as int, e));
                assert(keys_sorted(es@)) by {
                    assert forall|a: int, b: int| 0 <= a < b < es@.len() implies seq_lt(
                        #[trigger] es@[a].0@,
                        #[trigger] es@[b].0@,
                    ) by {
                        assert(es@[a].0@ == before[a].0@);
                        assert(es@[b].0@ == before[b].0@);
                    }
                }
                lemma_lookup_sorted_at(es@, i as int);
                assert forall|r: Seq<char>| r != k implies lookup(es@, r) == lookup(before, r) by {
                    lemma_lookup_other_update(before, i as int, e, r);
                }
                assert(key_seq(es@) =~= key_seq(before));
            }
        },
        Err(p) => {
            let ghost before = es@;
            es.insert(p, (key, value));
            proof {
                let e = es@[p as int];
                before.insert_ensures(p as int, e);
                assert(es@ == before.insert(p as int, e));
                assert(keys_sorted(es@)) by {
                    assert forall|a: int, b: int| 0 <= a < b < es@.len() implies seq_lt(
                        #[trigger] es@[a].0@,
                        #[trigger] es@[b].0@,
                    ) by {
                        if a < p && b == p {
                        } else if a < p && b > p {
                            assert(es@[b] == before[b - 1]);
                            lemma_seq_lt_transitive(es@[a].0@, k, es@[b].0@);
                        } else if a == p {
                            assert(es@[b] == before[b - 1]);
                        } else if b < p {
                        } else {
                            assert(es@[a] == before[a - 1]);
                            assert(es@[b] == before[b - 1]);
                        }
                    }
                }
                lemma_lookup_sorted_at(es@, p as int);
                assert forall|r: Seq<char>| r != k implies lookup(es@, r) == lookup(before, r) by {
                    lemma_lookup_other_insert(before, p as int, e, r);
                }
            }
        },
    }
}


/// Looking up in a list with one more entry at its end.
pub proof fn lemma_lookup_push<T>(es: Seq<(String, T)>, e: (String, T), key: Seq<char>)
    ensures
        lookup(es.push(e), key) == if lookup(es, key) is Some {
            lookup(es, key)
        } else if e.0@ == key {
            Some(e.1)
        } else {
            None
        },
    decreases es.len(),
{
    let p = es.push(e);
    if es.len() == 0 {
        assert(p.drop_first() =~= Seq::<(String, T)>::empty());
    } else {
        assert(p[0] == es[0]);
        assert(p.drop_first() =~= es.drop_first().push(e));
        lemma_lookup_push(es.drop_first(), e, key);
    }
}
} // verus!
