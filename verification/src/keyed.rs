//! Lists of keyed entries with distinct keys: the map model that stands for
//! the hash maps of Fontsource metadata. A lookup returns the value stored
//! under a key; storing replaces the value of an existing key or adds an
//! entry, so that keys never repeat.

use crate::query::FontFileType;
use vstd::prelude::*;

verus! {

/// The value stored under `k` (the first entry with that key).
pub open spec fn lookup<K, V>(es: Seq<(K, V)>, k: K) -> Option<V>
    decreases es.len(),
{
    if es.len() == 0 {
        None
    } else if es[0].0 == k {
        Some(es[0].1)
    } else {
        lookup(es.drop_first(), k)
    }
}

/// No key occurs twice.
pub open spec fn distinct_keys<K, V>(es: Seq<(K, V)>) -> bool {
    forall|i: int, j: int| 0 <= i < j < es.len() ==> es[i].0 != es[j].0
}

/// String-keyed entries, with each key taken by its contents.
pub open spec fn by_text<V>(es: Seq<(String, V)>) -> Seq<(Seq<char>, V)> {
    es.map_values(|e: (String, V)| (e.0@, e.1))
}

/// `new` is `old` with `v` stored under `k`: the key now gives `v`, every
/// other key gives what it gave before, and keys stay distinct.
pub open spec fn stored<K, V>(old: Seq<(K, V)>, new: Seq<(K, V)>, k: K, v: V) -> bool {
    &&& lookup(new, k) == Some(v)
    &&& forall|k2: K| k2 != k ==> #[trigger] lookup(new, k2) == lookup(old, k2)
    &&& distinct_keys(new)
}

/// A lookup finds the first entry with the key.
pub proof fn lemma_lookup_first<K, V>(es: Seq<(K, V)>, k: K, i: int)
    requires
        0 <= i < es.len(),
        es[i].0 == k,
        forall|j: int| 0 <= j < i ==> es[j].0 != k,
    ensures
        lookup(es, k) == Some(es[i].1),
    decreases i,
{
    if i > 0 {
        lemma_lookup_first(es.drop_first(), k, i - 1);
    }
}

/// A lookup of a key that no entry has finds nothing.
pub proof fn lemma_lookup_absent<K, V>(es: Seq<(K, V)>, k: K)
    requires
        forall|j: int| 0 <= j < es.len() ==> es[j].0 != k,
    ensures
        lookup(es, k) is None,
    decreases es.len(),
{
    if es.len() > 0 {
        lemma_lookup_absent(es.drop_first(), k);
    }
}

/// The index of the entry that a successful lookup finds.
pub proof fn lemma_lookup_index<K, V>(es: Seq<(K, V)>, k: K) -> (i: int)
    requires
        lookup(es, k) is Some,
    ensures
        0 <= i < es.len(),
        es[i].0 == k,
        lookup(es, k) == Some(es[i].1),
        forall|j: int| 0 <= j < i ==> es[j].0 != k,
    decreases es.len(),
{
    if es[0].0 == k {
        0
    } else {
        let i = lemma_lookup_index(es.drop_first(), k);
        assert forall|j: int| 0 <= j < i + 1 implies es[j].0 != k by {
            if j > 0 {
                assert(es[j] == es.drop_first()[j - 1]);
            }
        }
        i + 1
    }
}

/// Replacing the entry of `k` (its first entry) stores `v` under `k`.
pub proof fn lemma_store_update<K, V>(es: Seq<(K, V)>, i: int, k: K, v: V)
    requires
        0 <= i < es.len(),
        es[i].0 == k,
        forall|j: int| 0 <= j < i ==> es[j].0 != k,
        distinct_keys(es),
    ensures
        stored(es, es.update(i, (k, v)), k, v),
{
    let new = es.update(i, (k, v));
    lemma_lookup_first(new, k, i);
    assert forall|k2: K| k2 != k implies #[trigger] lookup(new, k2) == lookup(es, k2) by {
        if lookup(es, k2) is Some {
            let m = lemma_lookup_index(es, k2);
            lemma_lookup_first(new, k2, m);
        } else {
            assert forall|j: int| 0 <= j < new.len() implies new[j].0 != k2 by {
                if new[j].0 == k2 {
                    lemma_lookup_first(es, k2, j);
                }
            }
            lemma_lookup_absent(new, k2);
        }
    }
}

/// Appending an entry for a key that no entry has stores `v` under `k`.
pub proof fn lemma_store_push<K, V>(es: Seq<(K, V)>, k: K, v: V)
    requires
        forall|j: int| 0 <= j < es.len() ==> es[j].0 != k,
        distinct_keys(es),
    ensures
        stored(es, es.push((k, v)), k, v),
{
    let new = es.push((k, v));
    lemma_lookup_first(new, k, es.len() as int);
    assert forall|k2: K| k2 != k implies #[trigger] lookup(new, k2) == lookup(es, k2) by {
        if lookup(es, k2) is Some {
            let m = lemma_lookup_index(es, k2);
            lemma_lookup_first(new, k2, m);
        } else {
            assert forall|j: int| 0 <= j < new.len() implies new[j].0 != k2 by {
                if j < es.len() && new[j].0 == k2 {
                    lemma_lookup_first(es, k2, j);
                }
            }
            lemma_lookup_absent(new, k2);
        }
    }
}

/// The index of the first entry whose key has the contents of `k`.
pub fn find_text<V>(es: &Vec<(String, V)>, k: &String) -> (r: Option<usize>)
    ensures
        r matches Some(i) ==> {
            &&& i < es.len()
            &&& es@[i as int].0@ == k@
            &&& forall|j: int| 0 <= j < i ==> es@[j].0@ != k@
            &&& lookup(by_text(es@), k@) == Some(es@[i as int].1)
        },
        r is None ==> lookup(by_text(es@), k@) is None,
{
    let ghost t = by_text(es@);
    let mut i: usize = 0;
    while i < es.len()
        invariant
            i <= es.len(),
            t == by_text(es@),
            forall|j: int| 0 <= j < i ==> es@[j].0@ != k@,
        decreases es.len() - i,
    {
        if es[i].0 == *k {
            proof {
                lemma_lookup_first(t, k@, i as int);
            }
            return Some(i);
        }
        i = i + 1;
    }
    proof {
        lemma_lookup_absent(t, k@);
    }
    None
}

/// Stores `v` under the key `k` in a string-keyed list.
pub fn store_text<V>(es: &mut Vec<(String, V)>, k: String, v: V)
    requires
        distinct_keys(by_text(old(es)@)),
    ensures
        stored(by_text(old(es)@), by_text(final(es)@), k@, v),
{
    let ghost before = by_text(es@);
    let ghost kv = k@;
    match find_text(es, &k) {
        Some(i) => {
            es.set(i, (k, v));
            proof {
                lemma_store_update(before, i as int, kv, v);
                assert(by_text(es@) =~= before.update(i as int, (kv, v)));
            }
        },
        None => {
            proof {
                assert forall|j: int| 0 <= j < before.len() implies before[j].0 != kv by {
                    if before[j].0 == kv {
                        lemma_lookup_first(before, kv, j);
                    }
                }
            }
            es.push((k, v));
            proof {
                lemma_store_push(before, kv, v);
                assert(by_text(es@) =~= before.push((kv, v)));
            }
        },
    }
}

/// The index of the first entry with the key `k`.
pub fn find_u16<V>(es: &Vec<(u16, V)>, k: u16) -> (r: Option<usize>)
    ensures
        r matches Some(i) ==> {
            &&& i < es.len()
            &&& es@[i as int].0 == k
            &&& forall|j: int| 0 <= j < i ==> es@[j].0 != k
            &&& lookup(es@, k) == Some(es@[i as int].1)
        },
        r is None ==> lookup(es@, k) is None,
{
    let mut i: usize = 0;
    while i < es.len()
        invariant
            i <= es.len(),
            forall|j: int| 0 <= j < i ==> es@[j].0 != k,
        decreases es.len() - i,
    {
        if es[i].0 == k {
            proof {
                lemma_lookup_first(es@, k, i as int);
            }
            return Some(i);
        }
        i = i + 1;
    }
    proof {
        lemma_lookup_absent(es@, k);
    }
    None
}

/// Stores `v` under the key `k` in a list keyed by integers.
pub fn store_u16<V>(es: &mut Vec<(u16, V)>, k: u16, v: V)
    requires
        distinct_keys(old(es)@),
    ensures
        stored(old(es)@, final(es)@, k, v),
{
    let ghost before = es@;
    match find_u16(es, k) {
        Some(i) => {
            es.set(i, (k, v));
            proof {
                lemma_store_update(before, i as int, k, v);
            }
        },
        None => {
            proof {
                assert forall|j: int| 0 <= j < before.len() implies before[j].0 != k by {
                    if before[j].0 == k {
                        lemma_lookup_first(before, k, j);
                    }
                }
            }
            es.push((k, v));
            proof {
                lemma_store_push(before, k, v);
            }
        },
    }
}

/// The index of the first entry with the key `k`.
pub fn find_file_type<V>(es: &Vec<(FontFileType, V)>, k: FontFileType) -> (r: Option<usize>)
    ensures
        r matches Some(i) ==> {
            &&& i < es.len()
            &&& es@[i as int].0 == k
            &&& forall|j: int| 0 <= j < i ==> es@[j].0 != k
            &&& lookup(es@, k) == Some(es@[i as int].1)
        },
        r is None ==> lookup(es@, k) is None,
{
    let mut i: usize = 0;
    while i < es.len()
        invariant
            i <= es.len(),
            forall|j: int| 0 <= j < i ==> es@[j].0 != k,
        decreases es.len() - i,
    {
        if es[i].0 == k {
            proof {
                lemma_lookup_first(es@, k, i as int);
            }
            return Some(i);
        }
        i = i + 1;
    }
    proof {
        lemma_lookup_absent(es@, k);
    }
    None
}

/// Stores `v` under the key `k` in a list keyed by file types.
pub fn store_file_type<V>(es: &mut Vec<(FontFileType, V)>, k: FontFileType, v: V)
    requires
        distinct_keys(old(es)@),
    ensures
        stored(old(es)@, final(es)@, k, v),
{
    let ghost before = es@;
    match find_file_type(es, k) {
        Some(i) => {
            es.set(i, (k, v));
            proof {
                lemma_store_update(before, i as int, k, v);
            }
        },
        None => {
            proof {
                assert forall|j: int| 0 <= j < before.len() implies before[j].0 != k by {
                    if before[j].0 == k {
                        lemma_lookup_first(before, k, j);
                    }
                }
            }
            es.push((k, v));
            proof {
                lemma_store_push(before, k, v);
            }
        },
    }
}

} // verus!
