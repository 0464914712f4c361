//! Properties that relate several parts of the library, stated and proved.

use vstd::prelude::*;
use vstd::multiset::Multiset;
use vstd::utf8::encode_utf8;
use crate::groups::{first_keys, indices_of, lemma_first_keys, lemma_indices_of};
use crate::shard::{shard, shard_letters, alphanumeric};
use crate::id_splitter::{shared_positions, id_fold, IdSettings};
use crate::record_splitter::label_fold;
use crate::scanner::{LineV, TokenV};
use crate::issue::IssueV;
use crate::clob::{ClobV, ClobDiffV};
use crate::diff::{
    diff_changes, object_changes, object_change, deletions, claimed, unclaimed, tracked_keys,
    lookup, full_path, blob_id, lower, StatusEntryV, IndexEntryV,
};

verus! {

broadcast use vstd::multiset::group_multiset_axioms;

/// The records of each group, gathered into one multiset.
pub open spec fn bag<A>(groups: Seq<Seq<A>>) -> Multiset<A>
    decreases groups.len(),
{
    if groups.len() == 0 {
        Multiset::empty()
    } else {
        bag(groups.drop_last()).add(groups.last().to_multiset())
    }
}

/// The bodies of the records filed under each key, keys in order of first occurrence.
pub open spec fn grouped_bodies<A>(keys: Seq<Seq<char>>, bodies: Seq<A>) -> Seq<Seq<A>> {
    first_keys(keys).map_values(
        |k: Seq<char>| indices_of(keys, k).map_values(|j: usize| bodies[j as int]),
    )
}

proof fn lemma_bag_update_push<A>(s: Seq<Seq<A>>, p: int, x: A)
    requires
        0 <= p < s.len(),
    ensures
        bag(s.update(p, s[p].push(x))) == bag(s).insert(x),
    decreases s.len(),
{
    broadcast use vstd::seq_lib::group_to_multiset_ensures;
    broadcast use vstd::seq_lib::to_multiset_build;

    let t = s.update(p, s[p].push(x));
    if p == s.len() - 1 {
        assert(t.drop_last() == s.drop_last());
        assert(t.last() == s.last().push(x));
        assert(bag(t) =~= bag(s).insert(x));
    } else {
        lemma_bag_update_push(s.drop_last(), p, x);
        assert(t.drop_last() == s.drop_last().update(p, s[p].push(x)));
        assert(t.last() == s.last());
        assert(bag(t) =~= bag(s).insert(x));
    }
}

proof fn lemma_bag_push<A>(s: Seq<Seq<A>>, x: A)
    ensures
        bag(s.push(seq![x])) == bag(s).insert(x),
{
    broadcast use vstd::seq_lib::group_to_multiset_ensures;
    broadcast use vstd::seq_lib::to_multiset_build;

    assert(s.push(seq![x]).drop_last() == s);
    assert(seq![x] == Seq::<A>::empty().push(x));
    assert(bag(s.push(seq![x])) =~= bag(s).insert(x));
}

/// Content preservation: grouping records by key keeps every record body,
/// each exactly once. Gathered over all groups (keys in order of first
/// occurrence), the bodies are exactly the records' bodies. The splitters'
/// objects hold these groups: `label_object` and `id_object` join, for each
/// key, the bodies filed under it.
pub proof fn lemma_grouping_keeps_every_record<A>(keys: Seq<Seq<char>>, bodies: Seq<A>)
    requires
        keys.len() == bodies.len(),
        keys.len() <= usize::MAX,
    ensures
        bag(grouped_bodies(keys, bodies)) == bodies.to_multiset(),
    decreases keys.len(),
{
    broadcast use vstd::seq_lib::group_to_multiset_ensures;
    broadcast use vstd::seq_lib::to_multiset_build;

    if keys.len() == 0 {
        assert(first_keys(keys) == Seq::<Seq<char>>::empty());
        assert(grouped_bodies(keys, bodies) =~= Seq::<Seq<A>>::empty());
        assert(bodies.to_multiset() =~= Multiset::empty());
    } else {
        let n = (keys.len() - 1) as int;
        let kd = keys.drop_last();
        let bd = bodies.drop_last();
        let k = keys.last();
        let x = bodies.last();
        lemma_grouping_keeps_every_record(kd, bd);
        lemma_first_keys(kd);
        assert(keys == kd.push(k));
        assert(bodies == bd.push(x));
        let fk = first_keys(kd);
        let old_groups = grouped_bodies(kd, bd);
        // groups of keys other than `k` do not change
        assert forall|q: Seq<char>| q != k implies indices_of(keys, q).map_values(
            |j: usize| bodies[j as int],
        ) == indices_of(kd, q).map_values(|j: usize| bd[j as int]) by {
            lemma_indices_of(kd, q);
            assert(indices_of(keys, q) == indices_of(kd, q));
            assert(indices_of(keys, q).map_values(|j: usize| bodies[j as int]) =~= indices_of(
                kd,
                q,
            ).map_values(|j: usize| bd[j as int]));
        }
        lemma_indices_of(kd, k);
        let gk = indices_of(kd, k).map_values(|j: usize| bd[j as int]);
        assert(indices_of(keys, k) == indices_of(kd, k).push(n as usize));
        assert(indices_of(keys, k).map_values(|j: usize| bodies[j as int]) =~= gk.push(x));
        if fk.contains(k) {
            assert(first_keys(keys) == fk);
            let p = choose|p: int| 0 <= p < fk.len() && fk[p] == k;
            assert(grouped_bodies(keys, bodies) =~= old_groups.update(p, old_groups[p].push(x))) by {
                assert forall|i: int| 0 <= i < fk.len() implies grouped_bodies(keys, bodies)[i]
                    == old_groups.update(p, old_groups[p].push(x))[i] by {
                    if i == p {
                    } else {
                        lemma_first_keys(kd);
                        assert(fk.no_duplicates());
                        assert(fk[i] != k);
                    }
                }
            }
            lemma_bag_update_push(old_groups, p, x);
        } else {
            assert(first_keys(keys) == fk.push(k));
            assert(!kd.contains(k));
            assert(indices_of(kd, k).len() == 0);
            assert(indices_of(keys, k).map_values(|j: usize| bodies[j as int]) =~= seq![x]);
            assert(grouped_bodies(keys, bodies) =~= old_groups.push(seq![x])) by {
                assert forall|i: int| 0 <= i < fk.len() implies grouped_bodies(keys, bodies)[i]
                    == old_groups[i] by {
                    assert(fk[i] != k) by {
                        if fk[i] == k {
                            assert(fk.contains(k));
                        }
                    }
                }
            }
            lemma_bag_push(old_groups, x);
        }
    }
}


/// Sharder determinism: the shard of a decomposed name is its four letters
/// as two segments of two characters joined by `/`; the letters are the
/// name's first alphanumeric characters, and `_` fills the places of those it
/// lacks.
pub proof fn lemma_shard_shape(d: Seq<char>)
    ensures
        shard(d).len() == 5,
        shard(d)[2] == '/',
        shard(d).subrange(0, 2) == shard_letters(d).subrange(0, 2),
        shard(d).subrange(3, 5) == shard_letters(d).subrange(2, 4),
        shard_letters(d).len() == 4,
        forall|i: int|
            0 <= i < 4 && i < d.filter(|c: char| alphanumeric(c)).len() ==> #[trigger] shard_letters(
                d,
            )[i] == d.filter(|c: char| alphanumeric(c))[i],
        forall|i: int|
            d.filter(|c: char| alphanumeric(c)).len() <= i < 4 ==> #[trigger] shard_letters(d)[i]
                == '_',
{
    let s = shard(d);
    let p = shard_letters(d);
    assert(s.subrange(0, 2) =~= p.subrange(0, 2));
    assert(s.subrange(3, 5) =~= p.subrange(2, 4));
}

/// Merge, not reject: when two filed records share an id, the id gets
/// exactly one object, and every record that carries it gets exactly one
/// shared-id diagnostic (so there are at least two).
pub proof fn lemma_shared_id_merged(keys: Seq<Seq<char>>, i: int, j: int)
    requires
        0 <= i < j < keys.len(),
        keys[i] == keys[j],
        keys.len() <= usize::MAX,
    ensures
        exists|p: int|
            0 <= p < first_keys(keys).len() && first_keys(keys)[p] == keys[i] && forall|q: int|
                0 <= q < first_keys(keys).len() && q != p ==> first_keys(keys)[q] != keys[i],
        shared_positions(keys, keys.len() as int).filter(|m: int| keys[m] == keys[i])
            == indices_of(keys, keys[i]).map_values(|x: usize| x as int),
        indices_of(keys, keys[i]).len() >= 2,
{
    let k = keys[i];
    lemma_first_keys(keys);
    assert(keys.contains(k));
    let fk = first_keys(keys);
    assert(fk.contains(k));
    let p = choose|p: int| 0 <= p < fk.len() && fk[p] == k;
    assert(forall|q: int| 0 <= q < fk.len() && q != p ==> fk[q] != k);
    lemma_at_least_two(keys, k, i, j);
    lemma_shared_prefix(keys, k, keys.len() as int);
    assert(keys.take(keys.len() as int) == keys);
    assert((|m: int| keys[m] == keys[i]) =~= (|m: int| keys[m] == k));
}

proof fn lemma_at_least_two(keys: Seq<Seq<char>>, k: Seq<char>, i: int, j: int)
    requires
        0 <= i < j < keys.len(),
        keys[i] == k,
        keys[j] == k,
        keys.len() <= usize::MAX,
    ensures
        indices_of(keys, k).len() >= 2,
    decreases keys.len(),
{
    let d = keys.drop_last();
    lemma_indices_of(d, k);
    if j == keys.len() - 1 {
        assert(d[i] == k);
        assert(d.contains(k));
    } else {
        assert(d[i] == k && d[j] == k);
        lemma_at_least_two(d, k, i, j);
    }
}

proof fn lemma_shared_prefix(keys: Seq<Seq<char>>, k: Seq<char>, n: int)
    requires
        0 <= n <= keys.len(),
        keys.len() <= usize::MAX,
        indices_of(keys, k).len() > 1,
    ensures
        shared_positions(keys, n).filter(|m: int| keys[m] == k) == indices_of(keys.take(n), k).map_values(
            |x: usize| x as int,
        ),
    decreases n,
{
    let f = |m: int| keys[m] == k;
    if n == 0 {
        assert(shared_positions(keys, 0) == Seq::<int>::empty());
        assert(Seq::<int>::empty().filter(f) =~= Seq::<int>::empty()) by {
            reveal(Seq::filter);
        }
        assert(keys.take(0) =~= Seq::<Seq<char>>::empty());
        assert(indices_of(keys.take(0), k).map_values(|x: usize| x as int) =~= Seq::<int>::empty());
    } else {
        lemma_shared_prefix(keys, k, n - 1);
        let prev = shared_positions(keys, n - 1);
        assert(keys.take(n).drop_last() == keys.take(n - 1));
        assert(keys.take(n).last() == keys[n - 1]);
        prev.lemma_filter_push(n - 1, f);
        if keys[n - 1] == k {
            assert(shared_positions(keys, n) == prev.push(n - 1));
            assert(indices_of(keys.take(n), k) == indices_of(keys.take(n - 1), k).push((n - 1) as usize));
            assert(indices_of(keys.take(n), k).map_values(|x: usize| x as int) =~= indices_of(
                keys.take(n - 1),
                k,
            ).map_values(|x: usize| x as int).push(n - 1));
        } else {
            assert(indices_of(keys.take(n), k) == indices_of(keys.take(n - 1), k));
            if indices_of(keys, keys[n - 1]).len() > 1 {
                assert(shared_positions(keys, n) == prev.push(n - 1));
            } else {
                assert(shared_positions(keys, n) == prev);
            }
        }
    }
}

proof fn lemma_no_object_changes(root: Seq<char>, cs: Seq<ClobV>, index: Seq<IndexEntryV>)
    requires
        forall|i: int|
            0 <= i < cs.len() ==> #[trigger] lookup(index, full_path(root, cs[i].path)) is Some
                && blob_id(encode_utf8(cs[i].content)) == Some(
                lookup(index, full_path(root, cs[i].path))->Some_0.id,
            ) && lookup(index, full_path(root, cs[i].path))->Some_0.content == encode_utf8(
                cs[i].content,
            ),
    ensures
        object_changes(root, cs, index) == Seq::<ClobDiffV>::empty(),
    decreases cs.len(),
{
    if cs.len() > 0 {
        let d = cs.drop_last();
        assert forall|i: int| 0 <= i < d.len() implies #[trigger] lookup(index, full_path(root, d[i].path)) is Some
            && blob_id(encode_utf8(d[i].content)) == Some(lookup(index, full_path(root, d[i].path))->Some_0.id)
            && lookup(index, full_path(root, d[i].path))->Some_0.content == encode_utf8(d[i].content) by {
            assert(d[i] == cs[i]);
        }
        lemma_no_object_changes(root, d, index);
        let last = cs[cs.len() - 1];
        assert(lookup(index, full_path(root, last.path)) is Some);
        assert(object_change(root, cs.last(), index) == Seq::<ClobDiffV>::empty());
        assert(object_changes(root, cs, index) =~= Seq::<ClobDiffV>::empty());
    }
}

/// Idempotence: when the index already holds every object, at its path, with
/// the object's id and bytes, and every known path belongs to an object, the
/// change-set is empty.
pub proof fn lemma_diff_idempotent(
    root: Seq<char>,
    cs: Seq<ClobV>,
    es: Seq<StatusEntryV>,
    index: Seq<IndexEntryV>,
)
    requires
        forall|i: int|
            0 <= i < cs.len() ==> #[trigger] lookup(index, full_path(root, cs[i].path)) is Some
                && blob_id(encode_utf8(cs[i].content)) == Some(
                lookup(index, full_path(root, cs[i].path))->Some_0.id,
            ) && lookup(index, full_path(root, cs[i].path))->Some_0.content == encode_utf8(
                cs[i].content,
            ),
        forall|k: Seq<char>| #[trigger] tracked_keys(es).contains(k) ==> claimed(root, cs).contains(k),
    ensures
        diff_changes(root, cs, es, index) == Seq::<ClobDiffV>::empty(),
{
    lemma_no_object_changes(root, cs, index);
    let fk = first_keys(tracked_keys(es));
    lemma_first_keys(tracked_keys(es));
    assert forall|i: int| 0 <= i < fk.len() implies !(#[trigger] unclaimed(root, cs)(fk[i])) by {
        assert(fk.contains(fk[i]));
        assert(tracked_keys(es).contains(fk[i]));
    }
    fk.lemma_all_neg_filter_empty(unclaimed(root, cs));
    assert(deletions(root, cs, es) =~= Seq::<ClobDiffV>::empty());
    assert(diff_changes(root, cs, es, index) =~= Seq::<ClobDiffV>::empty());
}

proof fn lemma_object_changes_kinds(root: Seq<char>, cs: Seq<ClobV>, index: Seq<IndexEntryV>)
    ensures
        forall|i: int|
            0 <= i < object_changes(root, cs, index).len() ==> !(#[trigger] object_changes(
                root,
                cs,
                index,
            )[i] is Delete),
    decreases cs.len(),
{
    if cs.len() > 0 {
        lemma_object_changes_kinds(root, cs.drop_last(), index);
        let a = object_changes(root, cs.drop_last(), index);
        let b = object_change(root, cs.last(), index);
        assert forall|i: int| 0 <= i < (a + b).len() implies !((a + b)[i] is Delete) by {
            if i >= a.len() {
                assert((a + b)[i] == b[i - a.len()]);
            } else {
                assert((a + b)[i] == a[i]);
            }
        }
    }
}

/// Case-insensitive path identity: a known path whose lower-case form is
/// that of an object's full path is claimed by the object and never deleted.
pub proof fn lemma_case_insensitive_claim(
    root: Seq<char>,
    cs: Seq<ClobV>,
    es: Seq<StatusEntryV>,
    index: Seq<IndexEntryV>,
    i: int,
    t: Seq<char>,
)
    requires
        0 <= i < cs.len(),
        lower(t) == lower(full_path(root, cs[i].path)),
    ensures
        !diff_changes(root, cs, es, index).contains(ClobDiffV::Delete(lower(t))),
{
    let oc = object_changes(root, cs, index);
    let ds = deletions(root, cs, es);
    let fk = first_keys(tracked_keys(es));
    let kept = fk.filter(unclaimed(root, cs));
    assert(claimed(root, cs)[i] == lower(t));
    assert(claimed(root, cs).contains(lower(t)));
    lemma_object_changes_kinds(root, cs, index);
    if diff_changes(root, cs, es, index).contains(ClobDiffV::Delete(lower(t))) {
        let x = choose|x: int| 0 <= x < (oc + ds).len() && (oc + ds)[x] == ClobDiffV::Delete(lower(t));
        if x < oc.len() {
            assert((oc + ds)[x] == oc[x]);
        } else {
            assert((oc + ds)[x] == ds[x - oc.len()]);
            assert(ds[x - oc.len()] == ClobDiffV::Delete(kept[x - oc.len()]));
            fk.lemma_filter_pred(unclaimed(root, cs), x - oc.len());
        }
    }
}


/// Whether a record has begun among the items.
pub open spec fn begun(items: Seq<(LineV, TokenV)>) -> bool {
    exists|i: int| 0 <= i < items.len() && (#[trigger] items[i]).1 is RecordBegin
}

/// The bodies of the records that end once a record has begun, in order.
pub open spec fn record_bodies(items: Seq<(LineV, TokenV)>) -> Seq<Seq<char>>
    decreases items.len(),
{
    if items.len() == 0 {
        Seq::empty()
    } else {
        let prev = record_bodies(items.drop_last());
        match items.last().1 {
            TokenV::RecordEnd(b) => if begun(items.drop_last()) {
                prev.push(b)
            } else {
                prev
            },
            _ => prev,
        }
    }
}

proof fn lemma_begun_push(items: Seq<(LineV, TokenV)>, x: (LineV, TokenV))
    ensures
        begun(items.push(x)) == (begun(items) || x.1 is RecordBegin),
{
    let n = items.push(x);
    if begun(items) {
        let i = choose|i: int| 0 <= i < items.len() && (#[trigger] items[i]).1 is RecordBegin;
        assert(n[i] == items[i]);
    }
    if x.1 is RecordBegin {
        assert(n[items.len() as int] == x);
    }
    if begun(n) && !(x.1 is RecordBegin) {
        let i = choose|i: int| 0 <= i < n.len() && (#[trigger] n[i]).1 is RecordBegin;
        assert(i < items.len());
        assert(items[i] == n[i]);
    }
}

proof fn lemma_label_fold_records(items: Seq<(LineV, TokenV)>, tag: Seq<char>, issues: Seq<IssueV>)
    ensures
        label_fold(items, tag, issues).in_records == begun(items),
        label_fold(items, tag, issues).bodies == record_bodies(items),
        label_fold(items, tag, issues).keys.len() == label_fold(items, tag, issues).bodies.len(),
    decreases items.len(),
{
    if items.len() > 0 {
        lemma_label_fold_records(items.drop_last(), tag, issues);
        lemma_begun_push(items.drop_last(), items.last());
        assert(items.drop_last().push(items.last()) == items);
    } else {
        assert(!begun(items));
    }
}

proof fn lemma_id_fold_records(items: Seq<(LineV, TokenV)>, cfg: IdSettings, issues: Seq<IssueV>)
    ensures
        id_fold(items, cfg, issues).in_records == begun(items),
        id_fold(items, cfg, issues).bodies.to_multiset().add(id_fold(items, cfg, issues).missing.to_multiset())
            == record_bodies(items).to_multiset(),
        id_fold(items, cfg, issues).keys.len() == id_fold(items, cfg, issues).bodies.len(),
    decreases items.len(),
{
    broadcast use vstd::seq_lib::group_to_multiset_ensures;
    broadcast use vstd::seq_lib::to_multiset_build;

    if items.len() > 0 {
        lemma_id_fold_records(items.drop_last(), cfg, issues);
        lemma_begun_push(items.drop_last(), items.last());
        assert(items.drop_last().push(items.last()) == items);
        let a = id_fold(items.drop_last(), cfg, issues);
        let b = id_fold(items, cfg, issues);
        assert(b.bodies.to_multiset().add(b.missing.to_multiset()) =~= record_bodies(items).to_multiset());
    } else {
        assert(!begun(items));
        assert(id_fold(items, cfg, issues).bodies.to_multiset() =~= Multiset::empty());
        assert(id_fold(items, cfg, issues).missing.to_multiset() =~= Multiset::empty());
        assert(record_bodies(items).to_multiset() =~= Multiset::empty());
    }
}

/// Content preservation in the label splitter: the groups of its objects
/// hold every record body handed out after the first record began, each
/// exactly once.
pub proof fn lemma_label_split_keeps_every_record(
    items: Seq<(LineV, TokenV)>,
    tag: Seq<char>,
    issues: Seq<IssueV>,
)
    requires
        label_fold(items, tag, issues).keys.len() <= usize::MAX,
    ensures
        bag(grouped_bodies(label_fold(items, tag, issues).keys, label_fold(items, tag, issues).bodies))
            == record_bodies(items).to_multiset(),
{
    lemma_label_fold_records(items, tag, issues);
    let st = label_fold(items, tag, issues);
    lemma_grouping_keeps_every_record(st.keys, st.bodies);
}

/// Content preservation in the id splitter: the groups of its objects,
/// together with the bucket of records without an id, hold every record body
/// handed out after the first record began, each exactly once.
pub proof fn lemma_id_split_keeps_every_record(
    items: Seq<(LineV, TokenV)>,
    cfg: IdSettings,
    issues: Seq<IssueV>,
)
    requires
        id_fold(items, cfg, issues).keys.len() <= usize::MAX,
    ensures
        bag(grouped_bodies(id_fold(items, cfg, issues).keys, id_fold(items, cfg, issues).bodies)).add(
            id_fold(items, cfg, issues).missing.to_multiset(),
        ) == record_bodies(items).to_multiset(),
{
    lemma_id_fold_records(items, cfg, issues);
    let st = id_fold(items, cfg, issues);
    lemma_grouping_keeps_every_record(st.keys, st.bodies);
}

} // verus!
