//! The content diff engine: compares freshly made content objects with the
//! stored tree and the index, and lists the changes that reconcile them.

use vstd::prelude::*;
use vstd::utf8::encode_utf8;
use crate::clob::{Clob, ClobV, ClobDiff, ClobDiffV, clobs_view, diffs_view};
use multimap::MultiMap;
use crate::groups::{
    indices_of, lemma_first_index, group_values,
    grouped, group_new, group_insert, group_contains, group_remove, index_map, first_keys,
    lemma_first_keys, lemma_index_map_push,
};
use crate::text::strings_view;

verus! {

/// Lower-case form of a text, as `str::to_lowercase` gives it.
pub uninterp spec fn lower(s: Seq<char>) -> Seq<char>;

/// Relies on `str::to_lowercase`: the lower-case form, which depends on the
/// characters alone.
#[verifier::external_body]
fn lowercase(s: &str) -> (r: String)
    ensures
        r@ == lower(s@),
{
    s.to_lowercase()
}

/// The id git gives a blob with this content; `None` when hashing it fails
/// (the collision-detecting hash flags the bytes).
pub uninterp spec fn blob_id(content: Seq<u8>) -> Option<Seq<u8>>;

/// Relies on git2's `Oid::hash_object` with `ObjectType::Blob` (and
/// `Oid::as_bytes`): the raw id of a blob with this content, or the
/// library's error message; whether it fails depends on the bytes alone.
#[verifier::external_body]
fn hash_blob(content: &[u8]) -> (r: Result<Vec<u8>, String>)
    ensures
        r is Ok <==> blob_id(content@) is Some,
        r is Ok ==> blob_id(content@) == Some(r->Ok_0@),
{
    git2::Oid::hash_object(git2::ObjectType::Blob, content).map(|oid| oid.as_bytes().to_vec()).map_err(
        |e| e.message().to_string(),
    )
}

/// The status bits of a file under version control.
#[derive(Clone, Copy, Debug, PartialEq, Eq, Default)]
pub struct StatusFlags {
    pub index_new: bool,
    pub index_modified: bool,
    pub index_deleted: bool,
    pub index_renamed: bool,
    pub index_typechange: bool,
    pub wt_new: bool,
    pub wt_modified: bool,
    pub wt_deleted: bool,
    pub wt_renamed: bool,
    pub wt_typechange: bool,
}

/// A status entry as the model sees it.
pub struct StatusEntryV {
    pub path: Option<Seq<char>>,
    pub bytes: Seq<u8>,
    pub flags: StatusFlags,
}

/// A file's status under the managed root: its path (when its bytes are
/// UTF-8), its raw path bytes, and its status bits.
pub struct StatusEntry {
    pub path: Option<String>,
    pub path_bytes: Vec<u8>,
    pub flags: StatusFlags,
}

impl View for StatusEntry {
    type V = StatusEntryV;

    open spec fn view(&self) -> StatusEntryV {
        StatusEntryV {
            path: match self.path {
                Some(p) => Some(p@),
                None => None,
            },
            bytes: self.path_bytes@,
            flags: self.flags,
        }
    }
}

/// An index entry as the model sees it.
pub struct IndexEntryV {
    pub path: Seq<char>,
    pub id: Seq<u8>,
    pub content: Seq<u8>,
}

/// An index entry: its path, the id it records, and the stored blob's bytes.
pub struct IndexEntry {
    pub path: String,
    pub id: Vec<u8>,
    pub content: Vec<u8>,
}

impl View for IndexEntry {
    type V = IndexEntryV;

    open spec fn view(&self) -> IndexEntryV {
        IndexEntryV { path: self.path@, id: self.id@, content: self.content@ }
    }
}

pub open spec fn entries_view(v: Seq<StatusEntry>) -> Seq<StatusEntryV> {
    v.map_values(|e: StatusEntry| e@)
}

pub open spec fn index_view(v: Seq<IndexEntry>) -> Seq<IndexEntryV> {
    v.map_values(|e: IndexEntry| e@)
}

/// Why a diff could not be made.
#[derive(Debug, PartialEq, Eq)]
pub enum DiffError {
    /// A text file under version control whose path is not UTF-8 (its raw bytes).
    InvalidManagedPath { path: Vec<u8> },
    /// The version-control library failed.
    Git { message: String },
}

/// The bytes `.txt`.
pub open spec fn txt_suffix() -> Seq<u8> {
    seq![46u8, 116u8, 120u8, 116u8]
}

pub open spec fn ends_txt(b: Seq<u8>) -> bool {
    b.len() >= 4 && b.subrange(b.len() - 4, b.len() as int) == txt_suffix()
}

/// A text file under version control that the index still holds.
pub open spec fn counted(e: StatusEntryV) -> bool {
    ends_txt(e.bytes) && !e.flags.index_deleted
}

/// A counted entry whose path cannot be read.
pub open spec fn unreadable(e: StatusEntryV) -> bool {
    counted(e) && e.path is None
}

/// The lower-cased paths of the counted entries, in order.
pub open spec fn tracked_keys(es: Seq<StatusEntryV>) -> Seq<Seq<char>>
    decreases es.len(),
{
    if es.len() == 0 {
        Seq::empty()
    } else {
        let r = tracked_keys(es.drop_last());
        if counted(es.last()) && es.last().path is Some {
            r.push(lower(es.last().path->Some_0))
        } else {
            r
        }
    }
}

/// An object's path under the root.
pub open spec fn full_path(root: Seq<char>, p: Seq<char>) -> Seq<char> {
    root + seq!['/'] + p
}

/// The first index entry at exactly this path.
pub open spec fn lookup(index: Seq<IndexEntryV>, p: Seq<char>) -> Option<IndexEntryV>
    decreases index.len(),
{
    if index.len() == 0 {
        None
    } else if index[0].path == p {
        Some(index[0])
    } else {
        lookup(index.drop_first(), p)
    }
}

/// Whether stored content must be replaced: its id differs from the proposed
/// content's id, or its bytes differ although the ids agree.
pub open spec fn stale(stored_id: Seq<u8>, stored: Seq<u8>, proposed_id: Seq<u8>, proposed: Seq<u8>) -> bool {
    proposed_id != stored_id || stored != proposed
}

/// The change one object calls for: `Add` when the index has no entry at its
/// path, `Update` when the entry is stale, nothing otherwise.
pub open spec fn object_change(root: Seq<char>, c: ClobV, index: Seq<IndexEntryV>) -> Seq<ClobDiffV> {
    let f = ClobV { path: full_path(root, c.path), content: c.content };
    let bytes = encode_utf8(c.content);
    match lookup(index, f.path) {
        Some(e) => match blob_id(bytes) {
            Some(id) => if stale(e.id, e.content, id, bytes) {
                seq![ClobDiffV::Update(f)]
            } else {
                Seq::empty()
            },
            None => Seq::empty(),
        },
        None => seq![ClobDiffV::Add(f)],
    }
}

/// Whether the content of every object that the index holds can be hashed.
pub open spec fn hashable(root: Seq<char>, cs: Seq<ClobV>, index: Seq<IndexEntryV>) -> bool {
    forall|i: int|
        0 <= i < cs.len() && (#[trigger] lookup(index, full_path(root, cs[i].path))) is Some
            ==> blob_id(encode_utf8(cs[i].content)) is Some
}

/// The changes the objects call for, in order.
pub open spec fn object_changes(root: Seq<char>, cs: Seq<ClobV>, index: Seq<IndexEntryV>) -> Seq<ClobDiffV>
    decreases cs.len(),
{
    if cs.len() == 0 {
        Seq::empty()
    } else {
        object_changes(root, cs.drop_last(), index) + object_change(root, cs.last(), index)
    }
}

/// The lower-cased full paths of the objects.
pub open spec fn claimed(root: Seq<char>, cs: Seq<ClobV>) -> Seq<Seq<char>> {
    cs.map_values(|c: ClobV| lower(full_path(root, c.path)))
}

proof fn lemma_claimed_push(root: Seq<char>, cs: Seq<ClobV>, c: ClobV)
    ensures
        claimed(root, cs.push(c)) == claimed(root, cs).push(lower(full_path(root, c.path))),
{
    assert(claimed(root, cs.push(c)) =~= claimed(root, cs).push(lower(full_path(root, c.path))));
}

/// A known path that no object claims.
pub open spec fn unclaimed(root: Seq<char>, cs: Seq<ClobV>) -> spec_fn(Seq<char>) -> bool {
    |k: Seq<char>| !claimed(root, cs).contains(k)
}

/// One deletion for each known path (lower-cased, in order of first
/// occurrence) that no object claims.
pub open spec fn deletions(root: Seq<char>, cs: Seq<ClobV>, es: Seq<StatusEntryV>) -> Seq<ClobDiffV> {
    first_keys(tracked_keys(es)).filter(unclaimed(root, cs)).map_values(|k: Seq<char>| ClobDiffV::Delete(k))
}

/// The change-set: the objects' additions and updates, then the deletions.
pub open spec fn diff_changes(
    root: Seq<char>,
    cs: Seq<ClobV>,
    es: Seq<StatusEntryV>,
    index: Seq<IndexEntryV>,
) -> Seq<ClobDiffV> {
    object_changes(root, cs, index) + deletions(root, cs, es)
}

/// Whether stored content must be replaced by the proposed content.
pub fn needs_update(stored_id: &[u8], stored: &[u8], proposed_id: &[u8], proposed: &[u8]) -> (r: bool)
    ensures
        r == stale(stored_id@, stored@, proposed_id@, proposed@),
{
    !bytes_eq(proposed_id, stored_id) || !bytes_eq(stored, proposed)
}

/// Whether two byte strings are equal.
pub fn bytes_eq(a: &[u8], b: &[u8]) -> (r: bool)
    ensures
        r == (a@ == b@),
{
    if a.len() != b.len() {
        return false;
    }
    let mut i: usize = 0;
    while i < a.len()
        invariant
            a@.len() == b@.len(),
            i <= a@.len(),
            a@.subrange(0, i as int) == b@.subrange(0, i as int),
        decreases a.len() - i,
    {
        if a[i] != b[i] {
            assert(a@[i as int] != b@[i as int]);
            return false;
        }
        assert(a@.subrange(0, i + 1) == a@.subrange(0, i as int).push(a@[i as int]));
        assert(b@.subrange(0, i + 1) == b@.subrange(0, i as int).push(b@[i as int]));
        i = i + 1;
    }
    assert(a@ == a@.subrange(0, a@.len() as int));
    assert(b@ == b@.subrange(0, b@.len() as int));
    true
}

fn ends_txt_exec(b: &Vec<u8>) -> (r: bool)
    ensures
        r == ends_txt(b@),
{
    let n = b.len();
    if n < 4 {
        return false;
    }
    let r = b[n - 4] == 46u8 && b[n - 3] == 116u8 && b[n - 2] == 120u8 && b[n - 1] == 116u8;
    assert(r == (b@.subrange(n - 4, n as int) =~= txt_suffix()));
    r
}

/// The paths of the index entries.
pub open spec fn index_paths(index: Seq<IndexEntryV>) -> Seq<Seq<char>> {
    index.map_values(|e: IndexEntryV| e.path)
}

proof fn lemma_lookup_first(index: Seq<IndexEntryV>, p: Seq<char>, j0: int)
    requires
        0 <= j0 < index.len(),
        index[j0].path == p,
        forall|j: int| 0 <= j < j0 ==> index[j].path != p,
    ensures
        lookup(index, p) == Some(index[j0]),
    decreases index.len(),
{
    if j0 > 0 {
        let t = index.drop_first();
        assert forall|j: int| 0 <= j < j0 - 1 implies t[j].path != p by {
            assert(t[j] == index[j + 1]);
        }
        lemma_lookup_first(t, p, j0 - 1);
    }
}

proof fn lemma_lookup_none(index: Seq<IndexEntryV>, p: Seq<char>)
    requires
        forall|j: int| 0 <= j < index.len() ==> index[j].path != p,
    ensures
        lookup(index, p) is None,
    decreases index.len(),
{
    if index.len() > 0 {
        let t = index.drop_first();
        assert forall|j: int| 0 <= j < t.len() implies t[j].path != p by {
            assert(t[j] == index[j + 1]);
        }
        lemma_lookup_none(t, p);
    }
}

/// The index entries filed by path.
fn index_by_path(index: &Vec<IndexEntry>) -> (r: MultiMap<String, usize>)
    ensures
        grouped(r) == index_map(index_paths(index_view(index@))),
{
    let ghost ps = index_paths(index_view(index@));
    let mut m = group_new();
    let mut i: usize = 0;
    assert(grouped(m) =~= index_map(ps.take(0)));
    while i < index.len()
        invariant
            i <= index@.len(),
            ps == index_paths(index_view(index@)),
            grouped(m) == index_map(ps.take(i as int)),
        decreases index.len() - i,
    {
        proof {
            lemma_index_map_push(ps.take(i as int), ps[i as int]);
            assert(ps.take(i + 1) == ps.take(i as int).push(ps[i as int]));
        }
        assert(index@[i as int].path@ == ps[i as int]);
        group_insert(&mut m, index[i].path.clone(), i);
        i = i + 1;
    }
    assert(ps.take(index@.len() as int) == ps);
    m
}

/// Position of the first index entry at exactly this path.
fn find_entry(index: &Vec<IndexEntry>, by_path: &MultiMap<String, usize>, p: &String) -> (r: Option<usize>)
    requires
        grouped(*by_path) == index_map(index_paths(index_view(index@))),
    ensures
        match r {
            Some(i) => i < index@.len() && lookup(index_view(index@), p@) == Some(index@[i as int]@),
            None => lookup(index_view(index@), p@) is None,
        },
{
    let ghost iv = index_view(index@);
    let ghost ps = index_paths(iv);
    let n = index.len();
    assert(ps.len() == n);
    if group_contains(by_path, p) {
        let positions = group_values(by_path, p);
        proof {
            lemma_first_index(ps, p@);
            let j0 = indices_of(ps, p@)[0] as int;
            assert forall|j: int| 0 <= j < j0 implies iv[j].path != p@ by {
                assert(ps[j] == iv[j].path);
            }
            assert(ps[j0] == iv[j0].path);
            lemma_lookup_first(iv, p@, j0);
        }
        Some(positions[0])
    } else {
        proof {
            assert forall|j: int| 0 <= j < iv.len() implies iv[j].path != p@ by {
                if iv[j].path == p@ {
                    assert(ps[j] == p@);
                    assert(ps.contains(p@));
                }
            }
            lemma_lookup_none(iv, p@);
        }
        None
    }
}

/// A copy of a byte string.
pub fn copy_bytes(v: &Vec<u8>) -> (r: Vec<u8>)
    ensures
        r@ == v@,
{
    let mut r: Vec<u8> = Vec::new();
    let mut i: usize = 0;
    while i < v.len()
        invariant
            i <= v@.len(),
            r@ == v@.subrange(0, i as int),
        decreases v.len() - i,
    {
        r.push(v[i]);
        assert(v@.subrange(0, i + 1) == v@.subrange(0, i as int).push(v@[i as int]));
        i = i + 1;
    }
    assert(v@.subrange(0, v@.len() as int) == v@);
    r
}

/// The raw path of an unreadable-path error.
pub open spec fn invalid_path_of(e: DiffError) -> Option<Seq<u8>> {
    match e {
        DiffError::InvalidManagedPath { path } => Some(path@),
        DiffError::Git { message: _ } => None,
    }
}

/// Lists the changes that bring the stored tree under `root` in line with
/// the content objects. `entries` is the status of every file in the index under
/// `root`; `index` holds the index entries there, with their blobs' bytes.
/// Fails when a text file's path is not UTF-8 (the first such file), or
/// when the content of an object that the index holds cannot be hashed;
/// succeeds otherwise.
pub fn diff_clobs_at_path(
    root: &str,
    clobs: Vec<Clob>,
    entries: &Vec<StatusEntry>,
    index: &Vec<IndexEntry>,
) -> (r: Result<Vec<ClobDiff>, DiffError>)
    ensures
        (exists|i: int| 0 <= i < entries@.len() && unreadable(#[trigger] entries@[i]@)) <==> (r is Err
            && invalid_path_of(r->Err_0) is Some),
        r is Err && invalid_path_of(r->Err_0) is Some ==> exists|i: int|
            0 <= i < entries@.len() && unreadable(#[trigger] entries@[i]@) && (forall|j: int|
                0 <= j < i ==> !unreadable(#[trigger] entries@[j]@)) && invalid_path_of(r->Err_0)
                == Some(entries@[i]@.bytes),
        r is Err && invalid_path_of(r->Err_0) is None ==> !hashable(
            root@,
            clobs_view(clobs@),
            index_view(index@),
        ),
        (forall|i: int| 0 <= i < entries@.len() ==> !unreadable(#[trigger] entries@[i]@)) && hashable(
            root@,
            clobs_view(clobs@),
            index_view(index@),
        ) ==> r is Ok,
        r is Ok ==> diffs_view(r->Ok_0@) == diff_changes(
            root@,
            clobs_view(clobs@),
            entries_view(entries@),
            index_view(index@),
        ),
{
    let ghost es = entries_view(entries@);
    let ghost cv = clobs_view(clobs@);
    let ghost iv = index_view(index@);
    let mut existing = group_new();
    let mut order: Vec<String> = Vec::new();
    let mut nkeys: usize = 0;
    let mut i: usize = 0;
    assert(es.take(0) =~= Seq::<StatusEntryV>::empty());
    assert(grouped(existing) =~= index_map(tracked_keys(es.take(0))));
    assert(strings_view(order@) =~= first_keys(tracked_keys(es.take(0))));
    while i < entries.len()
        invariant
            es == entries_view(entries@),
            i <= entries@.len(),
            forall|j: int| 0 <= j < i ==> !unreadable(#[trigger] entries@[j]@),
            grouped(existing) == index_map(tracked_keys(es.take(i as int))),
            strings_view(order@) == first_keys(tracked_keys(es.take(i as int))),
            nkeys as int == tracked_keys(es.take(i as int)).len(),
            nkeys <= i,
        decreases entries.len() - i,
    {
        let ghost tk = tracked_keys(es.take(i as int));
        assert(es.take(i + 1).drop_last() == es.take(i as int));
        assert(es.take(i + 1).last() == entries@[i as int]@);
        let e = &entries[i];
        if ends_txt_exec(&e.path_bytes) && !e.flags.index_deleted {
            match &e.path {
                None => {
                    return Err(DiffError::InvalidManagedPath { path: copy_bytes(&e.path_bytes) });
                },
                Some(p) => {
                    let key = lowercase(p.as_str());
                    proof {
                        lemma_first_keys(tk);
                        lemma_index_map_push(tk, key@);
                        assert(tk.push(key@).drop_last() == tk);
                    }
                    if !group_contains(&existing, &key) {
                        order.push(key.clone());
                        assert(strings_view(order@) =~= first_keys(tk.push(key@)));
                    }
                    group_insert(&mut existing, key, nkeys);
                    nkeys = nkeys + 1;
                },
            }
        }
        i = i + 1;
    }
    assert(es.take(entries@.len() as int) == es);
    let ghost tk = tracked_keys(es);
    proof {
        lemma_first_keys(tk);
        assert(claimed(root@, cv.take(0)) =~= Seq::<Seq<char>>::empty());
    }
    let by_path = index_by_path(index);
    let mut changes: Vec<ClobDiff> = Vec::new();
    let mut c: usize = 0;
    assert(diffs_view(changes@) =~= object_changes(root@, cv.take(0), iv));
    while c < clobs.len()
        invariant
            cv == clobs_view(clobs@),
            iv == index_view(index@),
            grouped(by_path) == index_map(index_paths(iv)),
            tk == tracked_keys(es),
            c <= clobs@.len(),
            es == entries_view(entries@),
            forall|j: int| 0 <= j < entries@.len() ==> !unreadable(#[trigger] entries@[j]@),
            diffs_view(changes@) == object_changes(root@, cv.take(c as int), iv),
            forall|k: Seq<char>| grouped(existing).contains_key(k) <==> tk.contains(k) && !claimed(
                root@,
                cv.take(c as int),
            ).contains(k),
            strings_view(order@) == first_keys(tk),
        decreases clobs.len() - c,
    {
        let mut full = String::from_str(root);
        full.append("/");
        full.append(clobs[c].path.as_str());
        proof {
            reveal_strlit("/");
        }
        assert(full@ == full_path(root@, cv[c as int].path));
        let key = lowercase(full.as_str());
        let ghost old_groups = grouped(existing);
        group_remove(&mut existing, &key);
        let ghost before = cv.take(c as int);
        assert(cv.take(c + 1) == before.push(cv[c as int]));
        assert(cv.take(c + 1).drop_last() == before);
        proof {
            lemma_claimed_push(root@, before, cv[c as int]);
            assert(key@ == lower(full_path(root@, cv[c as int].path)));
            assert forall|k: Seq<char>| grouped(existing).contains_key(k) <==> tk.contains(k) && !claimed(
                root@,
                cv.take(c + 1),
            ).contains(k) by {
                assert(old_groups.contains_key(k) <==> tk.contains(k) && !claimed(root@, before).contains(k));
                assert(grouped(existing).contains_key(k) <==> old_groups.contains_key(k) && k != key@);
                assert(claimed(root@, cv.take(c + 1)) == claimed(root@, before).push(key@));
                if claimed(root@, before).contains(k) {
                    let cb = claimed(root@, before);
                    let x = choose|x: int| 0 <= x < cb.len() && cb[x] == k;
                    assert(claimed(root@, cv.take(c + 1))[x] == k);
                }
                if k == key@ {
                    assert(claimed(root@, cv.take(c + 1))[c as int] == k);
                }
                if claimed(root@, cv.take(c + 1)).contains(k) && k != key@ {
                    let cl = claimed(root@, cv.take(c + 1));
                    let x = choose|x: int| 0 <= x < cl.len() && cl[x] == k;
                    assert(claimed(root@, before)[x] == k);
                }
                assert(claimed(root@, cv.take(c + 1)).contains(k) <==> claimed(root@, before).contains(k)
                    || k == key@);
            }
        }
        let content = clobs[c].content.clone();
        let ghost f = ClobV { path: full@, content: content@ };
        let found = find_entry(index, &by_path, &full);
        let ghost prev = diffs_view(changes@);
        assert(f == (ClobV { path: full_path(root@, cv[c as int].path), content: cv[c as int].content }));
        assert(object_changes(root@, cv.take(c + 1), iv) == prev + object_change(root@, cv[c as int], iv));
        match found {
            Some(j) => {
                let stale_now = {
                    let bytes = content.as_str().as_bytes();
                    let id = match hash_blob(bytes) {
                        Ok(id) => id,
                        Err(m) => {
                            proof {
                                assert(lookup(iv, full_path(root@, cv[c as int].path)) is Some);
                                assert(blob_id(encode_utf8(cv[c as int].content)) is None);
                                assert(!hashable(root@, cv, iv));
                            }
                            return Err(DiffError::Git { message: m });
                        },
                    };
                    assert(bytes@ == encode_utf8(cv[c as int].content));
                    needs_update(index[j].id.as_slice(), index[j].content.as_slice(), id.as_slice(), bytes)
                };
                if stale_now {
                    changes.push(ClobDiff::Update { clob: Clob { path: full, content } });
                    assert(diffs_view(changes@) =~= prev + seq![ClobDiffV::Update(f)]);
                } else {
                    assert(diffs_view(changes@) =~= prev + Seq::<ClobDiffV>::empty());
                }
            },
            None => {
                changes.push(ClobDiff::Add { clob: Clob { path: full, content } });
                assert(diffs_view(changes@) =~= prev + seq![ClobDiffV::Add(f)]);
            },
        }
        let ghost next = cv.take(c + 1);
        let ghost groups_now = grouped(existing);
        assert(forall|k: Seq<char>| groups_now.contains_key(k) <==> tk.contains(k) && !claimed(root@, next).contains(k));
        c = c + 1;
        assert(cv.take(c as int) == next);
        assert(groups_now == grouped(existing));
        assert forall|k: Seq<char>| grouped(existing).contains_key(k) <==> tk.contains(k) && !claimed(
            root@,
            cv.take(c as int),
        ).contains(k) by {
            assert(groups_now.contains_key(k) <==> tk.contains(k) && !claimed(root@, next).contains(k));
        }
    }
    assert(cv.take(clobs@.len() as int) == cv);
    let ghost adds = diffs_view(changes@);
    let ghost keep = unclaimed(root@, cv);
    let mut j: usize = 0;
    assert(first_keys(tk).take(0) =~= Seq::<Seq<char>>::empty());
    assert(first_keys(tk).take(0).filter(keep) =~= Seq::<Seq<char>>::empty()) by {
        reveal(Seq::filter);
    }
    assert(diffs_view(changes@) =~= adds + first_keys(tk).take(0).filter(keep).map_values(
        |k: Seq<char>| ClobDiffV::Delete(k),
    ));
    while j < order.len()
        invariant
            j <= order@.len(),
            strings_view(order@) == first_keys(tk),
            forall|k: Seq<char>| first_keys(tk).contains(k) <==> tk.contains(k),
            keep == unclaimed(root@, cv),
            forall|k: Seq<char>| grouped(existing).contains_key(k) <==> tk.contains(k) && !claimed(
                root@,
                cv,
            ).contains(k),
            diffs_view(changes@) == adds + first_keys(tk).take(j as int).filter(keep).map_values(
                |k: Seq<char>| ClobDiffV::Delete(k),
            ),
        decreases order.len() - j,
    {
        let k = &order[j];
        let ghost ks = first_keys(tk).take(j as int);
        assert(first_keys(tk).take(j + 1) == ks.push(k@));
        proof {
            ks.lemma_filter_push(k@, keep);
        }
        assert(first_keys(tk).contains(k@)) by {
            assert(first_keys(tk)[j as int] == k@);
        }
        let ghost prev = diffs_view(changes@);
        assert(keep(k@) == !claimed(root@, cv).contains(k@));
        assert(first_keys(tk).take(j + 1).filter(keep) == if keep(k@) {
            ks.filter(keep).push(k@)
        } else {
            ks.filter(keep)
        });
        assert(tk.contains(k@));
        if group_contains(&existing, k) {
            changes.push(ClobDiff::Delete { path: k.clone() });
            assert(keep(k@));
            assert(diffs_view(changes@) =~= prev.push(ClobDiffV::Delete(k@)));
            assert(ks.filter(keep).push(k@).map_values(|k: Seq<char>| ClobDiffV::Delete(k))
                =~= ks.filter(keep).map_values(|k: Seq<char>| ClobDiffV::Delete(k)).push(
                ClobDiffV::Delete(k@),
            ));
            assert(diffs_view(changes@) =~= adds + first_keys(tk).take(j + 1).filter(keep).map_values(
                |k: Seq<char>| ClobDiffV::Delete(k),
            ));
        } else {
            assert(!keep(k@));
            assert(diffs_view(changes@) =~= adds + first_keys(tk).take(j + 1).filter(keep).map_values(
                |k: Seq<char>| ClobDiffV::Delete(k),
            ));
        }
        j = j + 1;
    }
    assert(first_keys(tk).take(order@.len() as int) == first_keys(tk));
    Ok(changes)
}

} // verus!
