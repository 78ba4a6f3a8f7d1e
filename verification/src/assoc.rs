//! Association lists keyed by text: the maps of the interpreter (scopes, object
//! fields, functions, classes). A key is found at its first occurrence; inserting
//! a present key replaces its value in place, as a map's insert does.
//!
//! These maps are keyed by names, that is by `String`. vstd specifies
//! `std::collections::HashMap`, but with `String` keys its specification does
//! not give even that a map holds one entry after one insert into an empty map,
//! so nothing that the interpreter needs of a lookup after an insert could be
//! proved over it. A `Vec` of pairs is fully specified: every operation here is
//! proved against a `Seq` of pairs, and `law_insert_keeps_keys_unique` and
//! `law_env_names_unique` show that no name is ever bound twice, which is what
//! a map guarantees. Nothing the interpreter shows depends on a map's order:
//! an object's text lists its fields sorted.
use vstd::prelude::*;

verus! {

/// The index of the first occurrence of `k`.
pub open spec fn first_in(keys: Seq<Seq<char>>, k: Seq<char>) -> Option<int>
    decreases keys.len(),
{
    if keys.len() == 0 {
        None
    } else if keys[0] == k {
        Some(0)
    } else {
        match first_in(keys.drop_first(), k) {
            Some(i) => Some(i + 1),
            None => None,
        }
    }
}

pub open spec fn keys_of<V>(s: Seq<(Seq<char>, V)>) -> Seq<Seq<char>> {
    s.map_values(|p: (Seq<char>, V)| p.0)
}

pub open spec fn exec_keys<V>(s: Seq<(String, V)>) -> Seq<Seq<char>> {
    s.map_values(|p: (String, V)| p.0@)
}

pub open spec fn lookup<V>(s: Seq<(Seq<char>, V)>, k: Seq<char>) -> Option<V> {
    match first_in(keys_of(s), k) {
        Some(i) => Some(s[i].1),
        None => None,
    }
}

pub open spec fn insert<V>(s: Seq<(Seq<char>, V)>, k: Seq<char>, v: V) -> Seq<(Seq<char>, V)> {
    match first_in(keys_of(s), k) {
        Some(i) => s.update(i, (k, v)),
        None => s.push((k, v)),
    }
}

pub proof fn lemma_first_in(keys: Seq<Seq<char>>, k: Seq<char>)
    ensures
        match first_in(keys, k) {
            Some(i) => 0 <= i < keys.len() && keys[i] == k && forall|j: int|
                0 <= j < i ==> keys[j] != k,
            None => forall|j: int| 0 <= j < keys.len() ==> keys[j] != k,
        },
    decreases keys.len(),
{
    if keys.len() > 0 && keys[0] != k {
        lemma_first_in(keys.drop_first(), k);
        match first_in(keys.drop_first(), k) {
            Some(i) => {
                assert forall|j: int| 0 <= j < i + 1 implies keys[j] != k by {
                    if j > 0 {
                        assert(keys[j] == keys.drop_first()[j - 1]);
                    }
                }
            },
            None => {
                assert forall|j: int| 0 <= j < keys.len() implies keys[j] != k by {
                    if j > 0 {
                        assert(keys[j] == keys.drop_first()[j - 1]);
                    }
                }
            },
        }
    }
}

/// `first_in` is determined by the position facts.
pub proof fn lemma_first_in_is(keys: Seq<Seq<char>>, k: Seq<char>, r: Option<int>)
    requires
        match r {
            Some(i) => 0 <= i < keys.len() && keys[i] == k && forall|j: int|
                0 <= j < i ==> keys[j] != k,
            None => forall|j: int| 0 <= j < keys.len() ==> keys[j] != k,
        },
    ensures
        first_in(keys, k) == r,
{
    lemma_first_in(keys, k);
}

/// The index of the first entry with key `k`.
pub fn find_key<V>(s: &Vec<(String, V)>, k: &String) -> (r: Option<usize>)
    ensures
        match r {
            Some(i) => first_in(exec_keys(s@), k@) == Some(i as int),
            None => first_in(exec_keys(s@), k@) is None,
        },
{
    let mut i: usize = 0;
    while i < s.len()
        invariant
            i <= s@.len(),
            forall|j: int| 0 <= j < i ==> exec_keys(s@)[j] != k@,
        decreases s@.len() - i,
    {
        if s[i].0 == *k {
            proof {
                lemma_first_in_is(exec_keys(s@), k@, Some(i as int));
            }
            return Some(i);
        }
        i += 1;
    }
    proof {
        lemma_first_in_is(exec_keys(s@), k@, None);
    }
    None
}

} // verus!
