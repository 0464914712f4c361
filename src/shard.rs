//! Deterministic names: the two-level directory prefix for a name, the
//! ASCII file-name form of a record label, and white-space trimming.

use vstd::prelude::*;
use vstd::utf8::is_ascii_chars;
use crate::text::{white, is_white, chars_of, string_of, copy_range};
use deunicode::AsciiChars;
use unicode_normalization::UnicodeNormalization;

verus! {

// ---------------------------------------------------------------------
// Trimming
// ---------------------------------------------------------------------

/// Index of the first character at or after `i` that is not white space.
pub open spec fn skip_white(s: Seq<char>, i: int) -> int
    decreases s.len() - i,
{
    if 0 <= i < s.len() && white(s[i]) {
        skip_white(s, i + 1)
    } else {
        i
    }
}

/// Index just past the last character before `j` that is not white space.
pub open spec fn skip_white_back(s: Seq<char>, j: int) -> int
    decreases j,
{
    if 0 < j <= s.len() && white(s[j - 1]) {
        skip_white_back(s, j - 1)
    } else {
        j
    }
}

/// `s` without leading and trailing white space.
pub open spec fn trim(s: Seq<char>) -> Seq<char> {
    let a = skip_white(s, 0);
    if a >= s.len() {
        Seq::empty()
    } else {
        s.subrange(a, skip_white_back(s, s.len() as int))
    }
}

proof fn lemma_skip_white_back(s: Seq<char>, j: int, a: int)
    requires
        0 <= a < j <= s.len(),
        !white(s[a]),
    ensures
        a < skip_white_back(s, j) <= j,
    decreases j,
{
    if white(s[j - 1]) {
        lemma_skip_white_back(s, j - 1, a);
    }
}

/// Bounds `lo .. hi` of `v` once leading and trailing white space is dropped.
pub fn trim_bounds(v: &Vec<char>) -> (r: (usize, usize))
    ensures
        r.0 <= r.1 <= v@.len(),
        v@.subrange(r.0 as int, r.1 as int) == trim(v@),
{
    let mut a: usize = 0;
    while a < v.len() && is_white(v[a])
        invariant
            a <= v@.len(),
            skip_white(v@, 0) == skip_white(v@, a as int),
        decreases v.len() - a,
    {
        a = a + 1;
    }
    if a == v.len() {
        return (a, a);
    }
    let mut b: usize = v.len();
    while b > 0 && is_white(v[b - 1])
        invariant
            a < v@.len(),
            !white(v@[a as int]),
            b <= v@.len(),
            a < b,
            skip_white_back(v@, v@.len() as int) == skip_white_back(v@, b as int),
        decreases b,
    {
        proof {
            lemma_skip_white_back(v@, b as int, a as int);
        }
        b = b - 1;
    }
    (a, b)
}

/// `s` without leading and trailing white space.
pub fn trim_string(s: &str) -> (r: String)
    ensures
        r@ == trim(s@),
{
    let v = chars_of(s);
    let (lo, hi) = trim_bounds(&v);
    let part = copy_range(&v, lo, hi);
    string_of(part.as_slice())
}

// ---------------------------------------------------------------------
// Labels
// ---------------------------------------------------------------------

/// The ASCII transliteration of each character of `s` (deunicode's
/// `ascii_chars`), `None` where it knows none.
pub uninterp spec fn ascii_pieces(s: Seq<char>) -> Seq<Option<Seq<char>>>;

/// Relies on deunicode's `AsciiChars::ascii_chars`: the transliteration of
/// each character in turn (one item per character), which depends on the text
/// alone; every transliteration is ASCII, and a printable ASCII character
/// stands for itself.
#[verifier::external_body]
fn transliterate(s: &str) -> (r: Vec<Option<String>>)
    ensures
        pieces_view(r@) == ascii_pieces(s@),
        r@.len() == s@.len(),
        forall|i: int|
            0 <= i < s@.len() && ' ' <= s@[i] <= '~' ==> #[trigger] pieces_view(r@)[i] == Some(seq![s@[i]]),
        forall|i: int|
            0 <= i < r@.len() && (#[trigger] pieces_view(r@)[i]) is Some ==> is_ascii_chars(
                pieces_view(r@)[i]->Some_0,
            ),
{
    s.ascii_chars().map(|p| p.map(|t| t.to_string())).collect()
}

/// The model of a list of transliterated pieces.
pub open spec fn pieces_view(v: Seq<Option<String>>) -> Seq<Option<Seq<char>>> {
    v.map_values(
        |o: Option<String>|
            match o {
                Some(t) => Some(t@),
                None => None,
            },
    )
}

/// The pieces run together, with `_` where a character has no transliteration.
pub open spec fn expand(p: Seq<Option<Seq<char>>>) -> Seq<char>
    decreases p.len(),
{
    if p.len() == 0 {
        Seq::empty()
    } else {
        expand(p.drop_last()) + match p.last() {
            Some(t) => t,
            None => seq!['_'],
        }
    }
}

pub open spec fn ascii_upper(c: char) -> bool {
    'A' <= c <= 'Z'
}

pub open spec fn ascii_alnum(c: char) -> bool {
    'a' <= c <= 'z' || ascii_upper(c) || '0' <= c <= '9'
}

/// The file-name form of a character: lower-case ASCII letters and digits
/// stay, upper-case ASCII letters are lowered, anything else becomes `_`.
pub open spec fn label_char(c: char) -> char {
    if ascii_upper(c) {
        ((c as u32 + 32) as u8) as char
    } else if ascii_alnum(c) {
        c
    } else {
        '_'
    }
}

/// The file-name form of a text: each character mapped by `label_char`, with
/// every run of `_` collapsed to one.
pub open spec fn sanitize(x: Seq<char>) -> Seq<char>
    decreases x.len(),
{
    if x.len() == 0 {
        Seq::empty()
    } else {
        let acc = sanitize(x.drop_last());
        let m = label_char(x.last());
        if m == '_' && acc.len() > 0 && acc.last() == '_' {
            acc
        } else {
            acc.push(m)
        }
    }
}

fn label_char_exec(c: char) -> (r: char)
    ensures
        r == label_char(c),
{
    if 'A' <= c && c <= 'Z' {
        ((c as u32 + 32) as u8) as char
    } else if ('a' <= c && c <= 'z') || ('0' <= c && c <= '9') {
        c
    } else {
        '_'
    }
}

/// The file-name form of any text is ASCII.
pub proof fn lemma_sanitize_ascii(x: Seq<char>)
    ensures
        is_ascii_chars(sanitize(x)),
    decreases x.len(),
{
    if x.len() > 0 {
        lemma_sanitize_ascii(x.drop_last());
        let acc = sanitize(x.drop_last());
        let m = label_char(x.last());
        assert(m <= '\u{7f}') by {
            if ascii_upper(x.last()) {
                let v = (x.last() as u32 + 32) as u8;
                assert(65 <= x.last() as u32 <= 90);
                assert(v < 128);
                assert((v as char) as u32 == v as u32);
            }
        }
        assert forall|i: int| 0 <= i < acc.push(m).len() implies '\0' <= #[trigger] acc.push(m)[i] <= '\u{7f}' by {
            if i < acc.len() {
                assert(acc.push(m)[i] == acc[i]);
            }
        }
    }
}

/// The file-name form of a transliterated label.
pub fn sanitize_pieces(pieces: &Vec<Option<String>>) -> (r: String)
    ensures
        r@ == sanitize(expand(pieces_view(pieces@))),
{
    let mut out: Vec<char> = Vec::new();
    let mut i: usize = 0;
    let ghost pv = pieces_view(pieces@);
    while i < pieces.len()
        invariant
            i <= pieces@.len(),
            pv == pieces_view(pieces@),
            out@ == sanitize(expand(pv.subrange(0, i as int))),
        decreases pieces.len() - i,
    {
        let piece: Vec<char> = match &pieces[i] {
            Some(t) => chars_of(t.as_str()),
            None => vec!['_'],
        };
        let ghost before = expand(pv.subrange(0, i as int));
        assert(pv.subrange(0, i + 1).drop_last() == pv.subrange(0, i as int));
        assert(expand(pv.subrange(0, i + 1)) == before + piece@);
        let mut j: usize = 0;
        while j < piece.len()
            invariant
                j <= piece@.len(),
                out@ == sanitize(before + piece@.subrange(0, j as int)),
            decreases piece.len() - j,
        {
            let m = label_char_exec(piece[j]);
            assert((before + piece@.subrange(0, j + 1)).drop_last() == before + piece@.subrange(
                0,
                j as int,
            ));
            if !(m == '_' && out.len() > 0 && out[out.len() - 1] == '_') {
                out.push(m);
            }
            j = j + 1;
        }
        assert(piece@.subrange(0, piece@.len() as int) == piece@);
        i = i + 1;
    }
    assert(pv.subrange(0, pieces@.len() as int) == pv);
    string_of(out.as_slice())
}

/// The file-name form of a record label: transliterated to ASCII, lower-cased,
/// with every run of other characters collapsed to a single `_`.
pub fn sanitize_label(label: &str) -> (r: String)
    ensures
        r@ == sanitize(expand(ascii_pieces(label@))),
        is_ascii_chars(r@),
{
    proof {
        lemma_sanitize_ascii(expand(ascii_pieces(label@)));
    }
    let pieces = transliterate(label);
    sanitize_pieces(&pieces)
}

// ---------------------------------------------------------------------
// The path sharder
// ---------------------------------------------------------------------

/// Unicode canonical decomposition (NFD) of a text.
pub uninterp spec fn nfd(s: Seq<char>) -> Seq<char>;

/// Relies on unicode-normalization's `UnicodeNormalization::nfd`: the canonical
/// decomposition, which depends on the text alone; ASCII text is its own
/// decomposition.
#[verifier::external_body]
fn decompose(s: &str) -> (r: Vec<char>)
    ensures
        r@ == nfd(s@),
        is_ascii_chars(s@) ==> r@ == s@,
{
    s.nfd().collect()
}

/// Whether a character is alphabetic or numeric in Unicode's sense.
pub uninterp spec fn alphanumeric(c: char) -> bool;

/// Relies on `char::is_alphanumeric`: the answer depends on the character
/// alone; among ASCII characters, exactly the letters and digits qualify.
pub assume_specification[ char::is_alphanumeric ](c: char) -> (r: bool)
    ensures
        r == alphanumeric(c),
        c <= '\u{7f}' ==> (r <==> ascii_alnum(c)),
;

/// The four characters behind a shard: the first four alphanumeric
/// characters, padded with `_` when there are fewer.
pub open spec fn shard_letters(d: Seq<char>) -> Seq<char> {
    let a = d.filter(|c: char| alphanumeric(c));
    if a.len() >= 4 {
        a.take(4)
    } else {
        a + Seq::new((4 - a.len()) as nat, |i: int| '_')
    }
}

/// The shard of a decomposed name: its four letters as two pairs joined by `/`.
pub open spec fn shard(d: Seq<char>) -> Seq<char> {
    let p = shard_letters(d);
    p.take(2) + seq!['/'] + p.subrange(2, 4)
}

/// The shard of a name that is already decomposed.
pub fn shard_of_decomposed(d: &Vec<char>) -> (r: String)
    ensures
        r@ == shard(d@),
        is_ascii_chars(d@) ==> is_ascii_chars(r@),
{
    let mut a: Vec<char> = Vec::new();
    let mut i: usize = 0;
    let ghost p = |c: char| alphanumeric(c);
    while i < d.len() && a.len() < 4
        invariant
            i <= d@.len(),
            a@.len() <= 4,
            p == (|c: char| alphanumeric(c)),
            a@ == d@.take(i as int).filter(p),
            is_ascii_chars(d@) ==> is_ascii_chars(a@),
        decreases d.len() - i,
    {
        assert(d@.take(i + 1) == d@.take(i as int).push(d@[i as int]));
        proof {
            d@.take(i as int).lemma_filter_push(d@[i as int], p);
        }
        assert(d@.take(i as int).push(d@[i as int]).filter(p) == if p(d@[i as int]) {
            d@.take(i as int).filter(p).push(d@[i as int])
        } else {
            d@.take(i as int).filter(p)
        });
        let c = d[i];
        let keep = c.is_alphanumeric();
        assert(keep == p(d@[i as int]));
        if keep {
            a.push(c);
        }
        i = i + 1;
    }
    proof {
        assert(d@ == d@.take(i as int) + d@.skip(i as int));
        Seq::filter_distributes_over_add(d@.take(i as int), d@.skip(i as int), p);
        if a@.len() >= 4 {
            assert(d@.filter(p).take(4) == a@);
        } else {
            assert(d@.skip(i as int) =~= Seq::<char>::empty());
            assert(d@.skip(i as int).filter(p) =~= Seq::<char>::empty()) by {
                reveal(Seq::filter);
            }
            assert(d@.filter(p) == a@);
        }
    }
    let ghost a0 = a@;
    while a.len() < 4
        invariant
            a@.len() <= 4,
            a0.len() <= a@.len(),
            a@.subrange(0, a0.len() as int) == a0,
            forall|k: int| a0.len() <= k < a@.len() ==> a@[k] == '_',
            is_ascii_chars(a0) ==> is_ascii_chars(a@),
        decreases 4 - a.len(),
    {
        a.push('_');
    }
    proof {
        if a0.len() < 4 {
            assert(a@ == a0 + Seq::new((4 - a0.len()) as nat, |i: int| '_'));
        }
    }
    let out = vec![a[0], a[1], '/', a[2], a[3]];
    assert(out@ == shard(d@));
    string_of(out.as_slice())
}

/// The two-level directory prefix for a name: the shard of its canonical
/// decomposition.
pub fn build_path_prefix(name: &str) -> (r: String)
    ensures
        r@ == shard(nfd(name@)),
        is_ascii_chars(name@) ==> is_ascii_chars(r@),
{
    let d = decompose(name);
    shard_of_decomposed(&d)
}

} // verus!
