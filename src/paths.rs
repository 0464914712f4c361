//! Paths relative to the repository.

use vstd::prelude::*;
use crate::text::{chars_of, string_of, copy_range, strings_view};

verus! {

/// Index of the first `/` of `p` at or after `i`, or its length.
pub open spec fn next_slash(p: Seq<char>, i: int) -> int
    decreases p.len() - i,
{
    if i >= p.len() {
        p.len() as int
    } else if p[i] == '/' {
        i
    } else {
        next_slash(p, i + 1)
    }
}

/// A path component that names something: not empty and not `.`.
pub open spec fn names(c: Seq<char>) -> bool {
    c.len() > 0 && c != seq!['.']
}

/// The components of `p` from `i` on: the parts between `/`, leaving out
/// empty parts and `.`.
pub open spec fn components_from(p: Seq<char>, i: int) -> Seq<Seq<char>>
    decreases p.len() - i,
    when 0 <= i
    via components_decreases
{
    if i >= p.len() {
        Seq::empty()
    } else {
        let j = next_slash(p, i);
        let head = p.subrange(i, j);
        let first = if names(head) { seq![head] } else { Seq::empty() };
        if j < p.len() {
            first + components_from(p, j + 1)
        } else {
            first
        }
    }
}

#[via_fn]
proof fn components_decreases(p: Seq<char>, i: int) {
    if i < p.len() {
        lemma_next_slash_bounds(p, i);
    }
}

proof fn lemma_next_slash_bounds(p: Seq<char>, i: int)
    requires
        0 <= i <= p.len(),
    ensures
        i <= next_slash(p, i) <= p.len(),
        next_slash(p, i) < p.len() ==> p[next_slash(p, i)] == '/',
        forall|k: int| i <= k < next_slash(p, i) ==> p[k] != '/',
    decreases p.len() - i,
{
    if i < p.len() && p[i] != '/' {
        lemma_next_slash_bounds(p, i + 1);
    }
}

/// Whether a path starts at the root.
pub open spec fn rooted(p: Seq<char>) -> bool {
    p.len() > 0 && p[0] == '/'
}

/// The parts joined by `/`.
pub open spec fn join_slash(parts: Seq<Seq<char>>) -> Seq<char>
    decreases parts.len(),
{
    if parts.len() == 0 {
        Seq::empty()
    } else if parts.len() == 1 {
        parts[0]
    } else {
        join_slash(parts.drop_last()) + seq!['/'] + parts.last()
    }
}

/// `path` relative to `root`, component by component: `None` unless both
/// start at the root alike and `root`'s components begin `path`'s.
pub open spec fn relative_to(path: Seq<char>, root: Seq<char>) -> Option<Seq<char>> {
    let pc = components_from(path, 0);
    let rc = components_from(root, 0);
    if rooted(path) == rooted(root) && rc.len() <= pc.len() && pc.subrange(0, rc.len() as int) == rc {
        Some(join_slash(pc.subrange(rc.len() as int, pc.len() as int)))
    } else {
        None
    }
}

fn is_dot(v: &Vec<char>) -> (r: bool)
    ensures
        r == (v@ == seq!['.']),
{
    let r = v.len() == 1 && v[0] == '.';
    proof {
        if v@.len() == 1 && v@[0] == '.' {
            assert(v@ == seq!['.']);
        }
    }
    r
}

/// The components of a path (see `components_from`).
pub fn components(p: &str) -> (r: Vec<String>)
    ensures
        strings_view(r@) == components_from(p@, 0),
{
    let v = chars_of(p);
    let n = v.len();
    let mut out: Vec<String> = Vec::new();
    let mut i: usize = 0;
    while i < n
        invariant
            n == v@.len(),
            i <= n,
            components_from(v@, 0) == strings_view(out@) + components_from(v@, i as int),
        decreases n - i,
    {
        let mut j = i;
        while j < n && v[j] != '/'
            invariant
                i <= j <= n == v@.len(),
                next_slash(v@, i as int) == next_slash(v@, j as int),
            decreases n - j,
        {
            j = j + 1;
        }
        let head = copy_range(&v, i, j);
        let ghost before = strings_view(out@);
        if head.len() > 0 && !is_dot(&head) {
            out.push(string_of(head.as_slice()));
            assert(strings_view(out@) == before + seq![head@]);
        }
        proof {
            lemma_next_slash_bounds(v@, i as int);
        }
        if j < n {
            assert(strings_view(out@) + components_from(v@, j + 1) == before + components_from(v@, i as int));
            i = j + 1;
        } else {
            assert(components_from(v@, j as int) == Seq::<Seq<char>>::empty());
            assert(strings_view(out@) + components_from(v@, j as int) == before + components_from(v@, i as int));
            i = j;
        }
    }
    assert(components_from(v@, i as int) == Seq::<Seq<char>>::empty());
    assert(strings_view(out@) + Seq::<Seq<char>>::empty() == strings_view(out@));
    out
}

/// `path` relative to `root` (see `relative_to`); `None` when it lies outside.
pub fn get_path_relative_to_root(path: &str, root: &str) -> (r: Option<String>)
    ensures
        match relative_to(path@, root@) {
            Some(rel) => r is Some && r->Some_0@ == rel,
            None => r is None,
        },
{
    let pc = components(path);
    let rc = components(root);
    let pv = chars_of(path);
    let rv = chars_of(root);
    let path_rooted = pv.len() > 0 && pv[0] == '/';
    let root_rooted = rv.len() > 0 && rv[0] == '/';
    assert(path_rooted == rooted(path@));
    assert(root_rooted == rooted(root@));
    assert(strings_view(pc@).len() == pc@.len());
    assert(strings_view(rc@).len() == rc@.len());
    if path_rooted != root_rooted || rc.len() > pc.len() {
        return None;
    }
    let mut k: usize = 0;
    while k < rc.len()
        invariant
            rc@.len() <= pc@.len(),
            k <= rc@.len(),
            strings_view(pc@).subrange(0, k as int) == strings_view(rc@).subrange(0, k as int),
            strings_view(pc@) == components_from(path@, 0),
            strings_view(rc@) == components_from(root@, 0),
            rooted(path@) == rooted(root@),
        decreases rc.len() - k,
    {
        if pc[k] != rc[k] {
            assert(pc@[k as int]@ != rc@[k as int]@);
            assert(strings_view(pc@).subrange(0, rc@.len() as int)[k as int] != strings_view(rc@)[k as int]);
            return None;
        }
        assert(strings_view(pc@).subrange(0, k + 1) == strings_view(pc@).subrange(0, k as int).push(pc@[k as int]@));
        assert(strings_view(rc@).subrange(0, k + 1) == strings_view(rc@).subrange(0, k as int).push(rc@[k as int]@));
        k = k + 1;
    }
    assert(strings_view(rc@).subrange(0, rc@.len() as int) == strings_view(rc@));
    let ghost rest = strings_view(pc@).subrange(rc@.len() as int, pc@.len() as int);
    let mut out: Vec<char> = Vec::new();
    let mut m: usize = rc.len();
    while m < pc.len()
        invariant
            rc@.len() <= m <= pc@.len(),
            rest == strings_view(pc@).subrange(rc@.len() as int, pc@.len() as int),
            out@ == join_slash(rest.take(m - rc@.len())),
        decreases pc.len() - m,
    {
        let ghost t = m - rc@.len();
        assert(rest.take(t + 1).drop_last() == rest.take(t));
        assert(rest[t] == pc@[m as int]@);
        if m > rc.len() {
            out.push('/');
        }
        crate::text::push_str_chars(&mut out, pc[m].as_str());
        proof {
            if t == 0 {
                assert(out@ == rest.take(1)[0]);
            }
        }
        m = m + 1;
    }
    assert(rest.take(pc@.len() - rc@.len()) == rest);
    Some(string_of(out.as_slice()))
}

} // verus!
