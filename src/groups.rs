//! Grouping of records by key, held in a `multimap::MultiMap` from keys to
//! record indices.

use vstd::prelude::*;
use multimap::MultiMap;

verus! {

/// multimap's map from keys to lists of values.
#[verifier::external_type_specification]
#[verifier::external_body]
#[verifier::reject_recursive_types(K)]
#[verifier::reject_recursive_types(V)]
#[verifier::reject_recursive_types(S)]
pub struct ExMultiMap<K, V, S>(MultiMap<K, V, S>);

/// What a grouping holds: for each key, the indices filed under it, in the
/// order they were filed.
pub uninterp spec fn grouped(m: MultiMap<String, usize>) -> Map<Seq<char>, Seq<usize>>;

/// The grouping with no keys.
pub open spec fn no_groups() -> Map<Seq<char>, Seq<usize>> {
    Map::empty()
}

/// Relies on multimap's `MultiMap::new`: an empty map.
#[verifier::external_body]
pub(crate) fn group_new() -> (r: MultiMap<String, usize>)
    ensures
        grouped(r) == no_groups(),
{
    MultiMap::new()
}

/// Relies on multimap's `MultiMap::insert`: appends the value to the key's
/// values, or files it as the key's only value when the key is new.
#[verifier::external_body]
pub(crate) fn group_insert(m: &mut MultiMap<String, usize>, k: String, v: usize)
    ensures
        grouped(*final(m)) == grouped(*old(m)).insert(
            k@,
            if grouped(*old(m)).contains_key(k@) {
                grouped(*old(m))[k@].push(v)
            } else {
                seq![v]
            },
        ),
{
    m.insert(k, v)
}

/// Relies on multimap's `MultiMap::contains_key`: whether the key has values.
#[verifier::external_body]
pub(crate) fn group_contains(m: &MultiMap<String, usize>, k: &String) -> (r: bool)
    ensures
        r == grouped(*m).contains_key(k@),
{
    m.contains_key(k)
}

/// Relies on multimap's `MultiMap::get_vec`: the key's values, in the order
/// they were filed (present, as `requires` asks).
#[verifier::external_body]
pub(crate) fn group_values(m: &MultiMap<String, usize>, k: &String) -> (r: Vec<usize>)
    requires
        grouped(*m).contains_key(k@),
    ensures
        r@ == grouped(*m)[k@],
{
    m.get_vec(k).unwrap().clone()
}

/// Relies on multimap's `MultiMap::remove`: the key and its values leave the
/// map (nothing changes when the key is absent).
#[verifier::external_body]
pub(crate) fn group_remove(m: &mut MultiMap<String, usize>, k: &String)
    ensures
        grouped(*final(m)) == grouped(*old(m)).remove(k@),
{
    m.remove(k);
}

// ---------------------------------------------------------------------
// The model of a grouping
// ---------------------------------------------------------------------

/// The positions of `k` in `keys`, in order.
pub open spec fn indices_of(keys: Seq<Seq<char>>, k: Seq<char>) -> Seq<usize>
    decreases keys.len(),
{
    if keys.len() == 0 {
        Seq::empty()
    } else if keys.last() == k {
        indices_of(keys.drop_last(), k).push((keys.len() - 1) as usize)
    } else {
        indices_of(keys.drop_last(), k)
    }
}

/// The grouping of `keys`: each key that occurs, with its positions.
pub open spec fn index_map(keys: Seq<Seq<char>>) -> Map<Seq<char>, Seq<usize>> {
    Map::new(|k: Seq<char>| keys.contains(k), |k: Seq<char>| indices_of(keys, k))
}

/// The keys of `keys` without repeats, in the order of their first occurrence.
pub open spec fn first_keys(keys: Seq<Seq<char>>) -> Seq<Seq<char>>
    decreases keys.len(),
{
    if keys.len() == 0 {
        Seq::empty()
    } else {
        let f = first_keys(keys.drop_last());
        if f.contains(keys.last()) {
            f
        } else {
            f.push(keys.last())
        }
    }
}

pub proof fn lemma_indices_of(keys: Seq<Seq<char>>, k: Seq<char>)
    requires
        keys.len() <= usize::MAX,
    ensures
        indices_of(keys, k).len() > 0 <==> keys.contains(k),
        forall|j: int|
            0 <= j < indices_of(keys, k).len() ==> (#[trigger] indices_of(keys, k)[j] as int)
                < keys.len() && keys[indices_of(keys, k)[j] as int] == k,
        forall|a: int, b: int|
            0 <= a < b < indices_of(keys, k).len() ==> indices_of(keys, k)[a] < indices_of(
                keys,
                k,
            )[b],
    decreases keys.len(),
{
    if keys.len() > 0 {
        let d = keys.drop_last();
        lemma_indices_of(d, k);
        if d.contains(k) {
            let i = choose|i: int| 0 <= i < d.len() && d[i] == k;
            assert(keys[i] == k);
        }
        if keys.contains(k) && keys.last() != k {
            let i = choose|i: int| 0 <= i < keys.len() && keys[i] == k;
            assert(d[i] == k);
        }
    }
}

/// The first position filed under a key is where the key first occurs.
pub proof fn lemma_first_index(keys: Seq<Seq<char>>, k: Seq<char>)
    requires
        keys.len() <= usize::MAX,
        keys.contains(k),
    ensures
        indices_of(keys, k).len() > 0,
        (indices_of(keys, k)[0] as int) < keys.len(),
        keys[indices_of(keys, k)[0] as int] == k,
        forall|j: int| 0 <= j < indices_of(keys, k)[0] ==> keys[j] != k,
    decreases keys.len(),
{
    lemma_indices_of(keys, k);
    let d = keys.drop_last();
    lemma_indices_of(d, k);
    if d.contains(k) {
        lemma_first_index(d, k);
        if keys.last() == k {
            assert(indices_of(keys, k)[0] == indices_of(d, k)[0]);
        }
        assert forall|j: int| 0 <= j < indices_of(keys, k)[0] implies keys[j] != k by {
            assert(keys[j] == d[j]);
        }
    } else {
        assert(keys.last() == k) by {
            let i = choose|i: int| 0 <= i < keys.len() && keys[i] == k;
            if i < keys.len() - 1 {
                assert(d[i] == k);
            }
        }
        assert(indices_of(d, k).len() == 0);
        assert forall|j: int| 0 <= j < indices_of(keys, k)[0] implies keys[j] != k by {
            if keys[j] == k {
                assert(d[j] == k);
            }
        }
    }
}

pub proof fn lemma_first_keys(keys: Seq<Seq<char>>)
    ensures
        forall|k: Seq<char>| first_keys(keys).contains(k) <==> keys.contains(k),
        first_keys(keys).no_duplicates(),
    decreases keys.len(),
{
    if keys.len() > 0 {
        let d = keys.drop_last();
        lemma_first_keys(d);
        assert forall|k: Seq<char>| first_keys(keys).contains(k) <==> keys.contains(k) by {
            if keys.contains(k) && k != keys.last() {
                let i = choose|i: int| 0 <= i < keys.len() && keys[i] == k;
                assert(d[i] == k);
            }
            if d.contains(k) {
                let i = choose|i: int| 0 <= i < d.len() && d[i] == k;
                assert(keys[i] == k);
            }
            if !first_keys(d).contains(keys.last()) {
                assert(first_keys(keys) == first_keys(d).push(keys.last()));
                if first_keys(keys).contains(k) && k != keys.last() {
                    let i = choose|i: int| 0 <= i < first_keys(keys).len() && first_keys(keys)[i] == k;
                    assert(first_keys(d)[i] == k);
                }
                if first_keys(d).contains(k) {
                    let i = choose|i: int| 0 <= i < first_keys(d).len() && first_keys(d)[i] == k;
                    assert(first_keys(keys)[i] == k);
                }
                assert(first_keys(keys)[first_keys(d).len() as int] == keys.last());
            }
        }
    }
}

/// Filing the key of a new last position extends the grouping as
/// `group_insert` does.
pub proof fn lemma_index_map_push(keys: Seq<Seq<char>>, k: Seq<char>)
    requires
        keys.len() < usize::MAX,
    ensures
        index_map(keys.push(k)) == index_map(keys).insert(
            k,
            if index_map(keys).contains_key(k) {
                index_map(keys)[k].push(keys.len() as usize)
            } else {
                seq![keys.len() as usize]
            },
        ),
{
    let n = keys.push(k);
    assert(n.drop_last() == keys);
    lemma_indices_of(keys, k);
    assert forall|x: Seq<char>| n.contains(x) <==> keys.contains(x) || x == k by {
        if keys.contains(x) {
            let i = choose|i: int| 0 <= i < keys.len() && keys[i] == x;
            assert(n[i] == x);
        }
        if n.contains(x) && x != k {
            let i = choose|i: int| 0 <= i < n.len() && n[i] == x;
            assert(keys[i] == x);
        }
        if x == k {
            assert(n[keys.len() as int] == k);
        }
    }
    if !keys.contains(k) {
        assert(indices_of(keys, k) == Seq::<usize>::empty());
        assert(indices_of(n, k) == seq![keys.len() as usize]);
    }
    assert(index_map(n) =~= index_map(keys).insert(
        k,
        if index_map(keys).contains_key(k) {
            index_map(keys)[k].push(keys.len() as usize)
        } else {
            seq![keys.len() as usize]
        },
    ));
}

} // verus!
