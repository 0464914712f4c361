//! Escaping of text for display and for attribute files, and the split of
//! an attribute-file line.

use vstd::prelude::*;
use crate::text::{chars_of, string_of, string_of_range};
use crate::shard::{trim, trim_bounds};

verus! {

/// The lower-case hexadecimal digit for `d` (below 16).
pub open spec fn hex_digit(d: nat) -> char {
    if d < 10 {
        ((48 + d) as u8) as char
    } else {
        ((87 + d) as u8) as char
    }
}

/// The lower-case hexadecimal digits of `n`, without leading zeros.
pub open spec fn hex(n: nat) -> Seq<char>
    decreases n,
{
    if n < 16 {
        seq![hex_digit(n)]
    } else {
        hex(n / 16).push(hex_digit(n % 16))
    }
}

/// `\u{...}`: the hexadecimal escape of a character.
pub open spec fn unicode_escape(c: char) -> Seq<char> {
    seq!['\\', 'u', '{'] + hex(c as nat) + seq!['}']
}

/// The default escape of an ASCII character: tab, carriage return, line
/// feed, quotes and backslash get a backslash escape; other printable
/// characters stay; the rest get a hexadecimal escape.
pub open spec fn ascii_escape(c: char) -> Seq<char> {
    if c == '\t' {
        seq!['\\', 't']
    } else if c == '\r' {
        seq!['\\', 'r']
    } else if c == '\n' {
        seq!['\\', 'n']
    } else if c == '\'' || c == '"' || c == '\\' {
        seq!['\\', c]
    } else if ' ' <= c <= '~' {
        seq![c]
    } else {
        unicode_escape(c)
    }
}

/// A text quoted in the C manner: ASCII characters escaped by
/// `ascii_escape`, other characters kept, all between double quotes.
pub open spec fn c_escaped_body(s: Seq<char>) -> Seq<char>
    decreases s.len(),
{
    if s.len() == 0 {
        Seq::empty()
    } else {
        c_escaped_body(s.drop_last()) + if (s.last() as u32) < 128 {
            ascii_escape(s.last())
        } else {
            seq![s.last()]
        }
    }
}

/// A text with every character outside printable ASCII replaced by its
/// hexadecimal escape.
pub open spec fn unicode_escaped(s: Seq<char>) -> Seq<char>
    decreases s.len(),
{
    if s.len() == 0 {
        Seq::empty()
    } else {
        unicode_escaped(s.drop_last()) + if ' ' <= s.last() <= '~' {
            seq![s.last()]
        } else {
            unicode_escape(s.last())
        }
    }
}

fn hex_digit_exec(d: u32) -> (r: char)
    requires
        d < 16,
    ensures
        r == hex_digit(d as nat),
{
    if d < 10 {
        ((48 + d) as u8) as char
    } else {
        ((87 + d) as u8) as char
    }
}

/// Appends the hexadecimal escape of `c` to `out`.
fn push_unicode_escape(out: &mut Vec<char>, c: char)
    ensures
        final(out)@ == old(out)@ + unicode_escape(c),
{
    let mut digits: Vec<char> = Vec::new();
    let mut n: u32 = c as u32;
    let ghost full = c as nat;
    // digits are produced from the last one
    while n >= 16
        invariant
            hex(full) == hex(n as nat) + digits@,
        decreases n,
    {
        let d = hex_digit_exec(n % 16);
        assert(hex(n as nat) == hex((n / 16) as nat).push(hex_digit((n % 16) as nat)));
        let ghost rest = digits@;
        digits.insert(0, d);
        assert(digits@ == seq![d] + rest);
        assert(hex((n / 16) as nat).push(d) + rest == hex((n / 16) as nat) + digits@);
        n = n / 16;
    }
    digits.insert(0, hex_digit_exec(n));
    out.push('\\');
    out.push('u');
    out.push('{');
    let mut i: usize = 0;
    let ghost start = out@;
    while i < digits.len()
        invariant
            i <= digits@.len(),
            out@ == start + digits@.subrange(0, i as int),
        decreases digits.len() - i,
    {
        out.push(digits[i]);
        assert(digits@.subrange(0, i + 1) == digits@.subrange(0, i as int).push(digits@[i as int]));
        i = i + 1;
    }
    out.push('}');
    assert(digits@.subrange(0, digits@.len() as int) == digits@);
    assert(out@ =~= old(out)@ + unicode_escape(c));
}

/// Quotes a text in the C manner (see `c_escaped_body`); characters beyond
/// ASCII are kept as they are.
pub fn c_escape_str(s: &str) -> (r: String)
    ensures
        r@ == seq!['"'] + c_escaped_body(s@) + seq!['"'],
{
    let v = chars_of(s);
    let mut out: Vec<char> = Vec::new();
    out.push('"');
    let mut i: usize = 0;
    while i < v.len()
        invariant
            i <= v@.len(),
            out@ == seq!['"'] + c_escaped_body(v@.subrange(0, i as int)),
        decreases v.len() - i,
    {
        let c = v[i];
        assert(v@.subrange(0, i + 1).drop_last() == v@.subrange(0, i as int));
        if (c as u32) < 128 {
            if c == '\t' {
                out.push('\\');
                out.push('t');
            } else if c == '\r' {
                out.push('\\');
                out.push('r');
            } else if c == '\n' {
                out.push('\\');
                out.push('n');
            } else if c == '\'' || c == '"' || c == '\\' {
                out.push('\\');
                out.push(c);
            } else if ' ' <= c && c <= '~' {
                out.push(c);
            } else {
                push_unicode_escape(&mut out, c);
            }
        } else {
            out.push(c);
        }
        assert(out@ =~= seq!['"'] + c_escaped_body(v@.subrange(0, i + 1)));
        i = i + 1;
    }
    out.push('"');
    assert(v@.subrange(0, v@.len() as int) == v@);
    string_of(out.as_slice())
}

/// Replaces every character outside printable ASCII by its hexadecimal escape.
pub fn escape_unicode_only(s: &str) -> (r: String)
    ensures
        r@ == unicode_escaped(s@),
{
    let v = chars_of(s);
    let mut out: Vec<char> = Vec::new();
    let mut i: usize = 0;
    while i < v.len()
        invariant
            i <= v@.len(),
            out@ == unicode_escaped(v@.subrange(0, i as int)),
        decreases v.len() - i,
    {
        let c = v[i];
        assert(v@.subrange(0, i + 1).drop_last() == v@.subrange(0, i as int));
        if ' ' <= c && c <= '~' {
            out.push(c);
        } else {
            push_unicode_escape(&mut out, c);
        }
        assert(out@ =~= unicode_escaped(v@.subrange(0, i + 1)));
        i = i + 1;
    }
    assert(v@.subrange(0, v@.len() as int) == v@);
    string_of(out.as_slice())
}

// ---------------------------------------------------------------------
// Attribute-file lines
// ---------------------------------------------------------------------

/// End of a quoted pattern that starts at the beginning of `s`, scanning from
/// `i` with the escape state `escaped`: just past the first double quote that
/// no backslash escapes (the opening quote counts as escaped), or the end.
pub open spec fn quoted_end(s: Seq<char>, i: int, escaped: bool) -> int
    decreases s.len() - i,
{
    if i >= s.len() {
        s.len() as int
    } else if s[i] == '"' && !escaped {
        i + 1
    } else if s[i] == '\\' {
        quoted_end(s, i + 1, !escaped)
    } else {
        quoted_end(s, i + 1, false)
    }
}

/// Index of the first space of `s` at or after `i`, or its length.
pub open spec fn first_space(s: Seq<char>, i: int) -> int
    decreases s.len() - i,
{
    if i >= s.len() {
        s.len() as int
    } else if s[i] == ' ' {
        i
    } else {
        first_space(s, i + 1)
    }
}

/// Where the pattern of a trimmed attribute line ends.
pub open spec fn pattern_end(t: Seq<char>) -> int {
    if t.len() > 0 && t[0] == '"' {
        quoted_end(t, 0, true)
    } else {
        first_space(t, 0)
    }
}

/// Splits an attribute-file line, once trimmed, into its pattern (quoted or
/// up to the first space) and the rest (the attributes, with their leading
/// space).
pub fn parse_git_attribute_line(line: &str) -> (r: (String, String))
    ensures
        r.0@ == trim(line@).subrange(0, pattern_end(trim(line@))),
        r.1@ == trim(line@).subrange(pattern_end(trim(line@)), trim(line@).len() as int),
{
    let raw = chars_of(line);
    let (lo, hi) = trim_bounds(&raw);
    let t = crate::text::copy_range(&raw, lo, hi);
    let n = t.len();
    let mut end: usize;
    if n > 0 && t[0] == '"' {
        let mut escaped = true;
        let mut i: usize = 0;
        end = n;
        while i < n
            invariant_except_break
                end == n,
            invariant
                n == t@.len(),
                i <= n,
                quoted_end(t@, 0, true) == quoted_end(t@, i as int, escaped),
            ensures
                end as int == quoted_end(t@, 0, true),
            decreases n - i,
        {
            if t[i] == '"' && !escaped {
                end = i + 1;
                break;
            } else if t[i] == '\\' {
                escaped = !escaped;
            } else {
                escaped = false;
            }
            i = i + 1;
        }
    } else {
        let mut i: usize = 0;
        while i < n && t[i] != ' '
            invariant
                n == t@.len(),
                i <= n,
                first_space(t@, 0) == first_space(t@, i as int),
            decreases n - i,
        {
            i = i + 1;
        }
        end = i;
    }
    proof {
        lemma_quoted_end_bounds(t@, 0, true);
        lemma_first_space_bounds(t@, 0);
    }
    (string_of_range(&t, 0, end), string_of_range(&t, end, n))
}

proof fn lemma_quoted_end_bounds(s: Seq<char>, i: int, escaped: bool)
    requires
        0 <= i <= s.len(),
    ensures
        i <= quoted_end(s, i, escaped) <= s.len(),
    decreases s.len() - i,
{
    if i < s.len() {
        if !(s[i] == '"' && !escaped) {
            if s[i] == '\\' {
                lemma_quoted_end_bounds(s, i + 1, !escaped);
            } else {
                lemma_quoted_end_bounds(s, i + 1, false);
            }
        }
    }
}

proof fn lemma_first_space_bounds(s: Seq<char>, i: int)
    requires
        0 <= i <= s.len(),
    ensures
        i <= first_space(s, i) <= s.len(),
    decreases s.len() - i,
{
    if i < s.len() && s[i] != ' ' {
        lemma_first_space_bounds(s, i + 1);
    }
}

} // verus!
