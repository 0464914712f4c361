//! The line scanner: turns dictionary text into a one-shot stream of
//! structural tokens, and checks the dictionary header line.

use vstd::prelude::*;
use arrayvec::ArrayVec;
use crate::text::{
    white, blank, is_white, chars_of, string_of, string_of_range, copy_range, range_is_blank,
};

verus! {

// ---------------------------------------------------------------------
// Model
// ---------------------------------------------------------------------

/// A line as the model sees it: its zero-based number and its text.
pub struct LineV {
    pub line: int,
    pub text: Seq<char>,
}

/// A token as the model sees it.
pub enum TokenV {
    RecordBegin,
    RecordEnd(Seq<char>),
    Tagged(Seq<char>, Seq<char>),
    Untagged(Seq<char>),
    Blank,
}

/// How a single line is classified.
pub enum LineKind {
    Tagged(Seq<char>, Seq<char>),
    Untagged(Seq<char>),
    Blank,
}

/// Index of the first white-space character of `s` at or after `i`, or its length.
pub open spec fn first_white(s: Seq<char>, i: int) -> int
    decreases s.len() - i,
{
    if i >= s.len() {
        s.len() as int
    } else if white(s[i]) {
        i
    } else {
        first_white(s, i + 1)
    }
}

/// A line that starts with the marker is tagged: the tag runs up to the first
/// white space, the value is the rest (its leading white space included). A
/// line of white space only is blank; anything else is untagged.
pub open spec fn parse_line(s: Seq<char>) -> LineKind {
    if s.len() > 0 && s[0] == '\\' {
        let e = first_white(s, 0);
        LineKind::Tagged(s.subrange(0, e), s.subrange(e, s.len() as int))
    } else if blank(s) {
        LineKind::Blank
    } else {
        LineKind::Untagged(s)
    }
}

/// Whether `j` is a place where trailing blank lines can be cut off: the
/// start of a line (or the end of the text) after which only white space remains.
pub open spec fn cut_point(t: Seq<char>, j: int) -> bool {
    &&& 0 <= j <= t.len()
    &&& (j == 0 || t[j - 1] == '\n' || j == t.len())
    &&& blank(t.subrange(j, t.len() as int))
}

/// The earliest cut point of `t`.
pub open spec fn trim_end(t: Seq<char>) -> int {
    choose|j: int| cut_point(t, j) && forall|k: int| 0 <= k < j ==> !cut_point(t, k)
}

/// `t` without its trailing blank lines.
pub open spec fn trim_blank_tail(t: Seq<char>) -> Seq<char> {
    t.subrange(0, trim_end(t))
}

/// The index just past the end of the line that starts at `p` (past its
/// `'\n'`, or the end of the text).
pub open spec fn line_end(t: Seq<char>, p: int) -> int
    decreases t.len() - p,
{
    if p >= t.len() {
        t.len() as int
    } else if t[p] == '\n' {
        p + 1
    } else {
        line_end(t, p + 1)
    }
}

/// `s` without its trailing carriage returns and line feeds.
pub open spec fn strip_eol(s: Seq<char>) -> Seq<char>
    decreases s.len(),
{
    if s.len() > 0 && (s.last() == '\r' || s.last() == '\n') {
        strip_eol(s.drop_last())
    } else {
        s
    }
}

/// The state of a scanner.
pub struct ScanState {
    /// The whole text.
    pub text: Seq<char>,
    /// Where the next line starts.
    pub pos: int,
    /// The number of the next line.
    pub next_line: int,
    /// The tag that opens a record.
    pub tag: Seq<char>,
    /// Tokens produced but not handed out yet; the last one goes first.
    pub queue: Seq<TokenV>,
    /// The line scanned last.
    pub last: LineV,
    /// Where the open record started, if one is open.
    pub start: Option<int>,
}

/// The state of a fresh scanner over `text`.
pub open spec fn scan_init(text: Seq<char>, tag: Seq<char>) -> ScanState {
    ScanState {
        text,
        pos: 0,
        next_line: 0,
        tag,
        queue: Seq::empty(),
        last: LineV { line: 0, text },
        start: None,
    }
}

/// The body of the record that starts at `from` and ends at `to`.
pub open spec fn record_body(t: Seq<char>, from: int, to: int) -> Seq<char> {
    trim_blank_tail(t.subrange(from, to))
}

/// Reading the next line of the text (the queue is empty and text remains).
pub open spec fn read_line(s: ScanState) -> (ScanState, Option<(LineV, TokenV)>) {
    let e = line_end(s.text, s.pos);
    let text = strip_eol(s.text.subrange(s.pos, e));
    let line = LineV { line: s.next_line, text };
    let moved = ScanState { pos: e, next_line: s.next_line + 1, last: line, ..s };
    match parse_line(text) {
        LineKind::Tagged(tag, value) => {
            if tag == s.tag {
                let opened = ScanState { start: Some(s.pos), ..moved };
                match s.start {
                    Some(st) => (
                        ScanState {
                            queue: seq![TokenV::Tagged(tag, value), TokenV::RecordBegin],
                            ..opened
                        },
                        Some((line, TokenV::RecordEnd(record_body(s.text, st, s.pos)))),
                    ),
                    None => (
                        ScanState { queue: seq![TokenV::Tagged(tag, value)], ..opened },
                        Some((line, TokenV::RecordBegin)),
                    ),
                }
            } else {
                (moved, Some((line, TokenV::Tagged(tag, value))))
            }
        },
        LineKind::Untagged(t) => (moved, Some((line, TokenV::Untagged(t)))),
        LineKind::Blank => (moved, Some((line, TokenV::Blank))),
    }
}

/// One step of the scanner: the next state and the item handed out, if any.
pub open spec fn scan_step(s: ScanState) -> (ScanState, Option<(LineV, TokenV)>) {
    if s.queue.len() > 0 {
        (ScanState { queue: s.queue.drop_last(), ..s }, Some((s.last, s.queue.last())))
    } else if s.pos >= s.text.len() {
        match s.start {
            Some(st) => (
                ScanState { start: None, ..s },
                Some((s.last, TokenV::RecordEnd(record_body(s.text, st, s.text.len() as int)))),
            ),
            None => (s, None),
        }
    } else {
        read_line(s)
    }
}

/// The states that a scanner can be in.
pub open spec fn scan_wf(s: ScanState) -> bool {
    &&& 0 <= s.next_line <= s.pos <= s.text.len()
    &&& s.queue.len() <= 2
    &&& match s.start {
        Some(st) => 0 <= st <= s.pos,
        None => true,
    }
}

/// What is left to hand out; every step that hands out an item lowers it.
pub open spec fn scan_measure(s: ScanState) -> nat {
    (4 * (s.text.len() - s.pos) + s.queue.len() + if s.start is Some { 1int } else { 0int }) as nat
}

// ---------------------------------------------------------------------
// Executable types
// ---------------------------------------------------------------------

/// A line of the text: its zero-based number and its text (without the line end).
#[derive(Debug, PartialEq, Eq)]
pub struct Line {
    pub line: usize,
    pub text: String,
}

impl View for Line {
    type V = LineV;

    open spec fn view(&self) -> LineV {
        LineV { line: self.line as int, text: self.text@ }
    }
}

impl Line {
    /// A copy of this line.
    pub fn duplicate(&self) -> (r: Line)
        ensures
            r@ == self@,
    {
        Line { line: self.line, text: self.text.clone() }
    }
}

/// A structural element of a dictionary file.
#[derive(Debug, PartialEq, Eq)]
pub enum Token {
    /// Start of a record (handed out before the record's tag line).
    RecordBegin,
    /// End of a record, with its body.
    RecordEnd { body: String },
    /// A tagged line (the tag holds the leading marker).
    Tagged { tag: String, text: String },
    /// An untagged line.
    Untagged { text: String },
    /// A line of white space only.
    Blank,
}

impl View for Token {
    type V = TokenV;

    open spec fn view(&self) -> TokenV {
        match self {
            Token::RecordBegin => TokenV::RecordBegin,
            Token::RecordEnd { body } => TokenV::RecordEnd(body@),
            Token::Tagged { tag, text } => TokenV::Tagged(tag@, text@),
            Token::Untagged { text } => TokenV::Untagged(text@),
            Token::Blank => TokenV::Blank,
        }
    }
}

/// A line, classified.
#[derive(Debug, PartialEq, Eq)]
pub enum ParsedLine {
    /// A tagged line: the tag (with its marker) and the value (with the white
    /// space that follows the tag).
    Tagged(String, String),
    /// An untagged line.
    Untagged(String),
    /// A line of white space only.
    Blank,
}

impl View for ParsedLine {
    type V = LineKind;

    open spec fn view(&self) -> LineKind {
        match self {
            ParsedLine::Tagged(t, v) => LineKind::Tagged(t@, v@),
            ParsedLine::Untagged(t) => LineKind::Untagged(t@),
            ParsedLine::Blank => LineKind::Blank,
        }
    }
}

/// Index of the first white-space character of `v` at or after `i`, or its length.
fn find_white(v: &Vec<char>, i: usize) -> (r: usize)
    requires
        i <= v@.len(),
    ensures
        r as int == first_white(v@, i as int),
{
    let mut j = i;
    while j < v.len()
        invariant
            i <= j <= v@.len(),
            first_white(v@, i as int) == first_white(v@, j as int),
        decreases v.len() - j,
    {
        if is_white(v[j]) {
            return j;
        }
        j = j + 1;
    }
    j
}

/// Classifies a line given as characters.
fn parse_chars(v: &Vec<char>) -> (r: ParsedLine)
    ensures
        r@ == parse_line(v@),
{
    if v.len() > 0 && v[0] == '\\' {
        let e = find_white(v, 0);
        proof {
            lemma_first_white_bounds(v@, 0);
        }
        ParsedLine::Tagged(string_of_range(v, 0, e), string_of_range(v, e, v.len()))
    } else if range_is_blank(v, 0, v.len()) {
        assert(v@.subrange(0, v@.len() as int) == v@);
        ParsedLine::Blank
    } else {
        assert(v@.subrange(0, v@.len() as int) == v@);
        ParsedLine::Untagged(string_of(v.as_slice()))
    }
}

proof fn lemma_first_white_bounds(s: Seq<char>, i: int)
    requires
        0 <= i <= s.len(),
    ensures
        i <= first_white(s, i) <= s.len(),
    decreases s.len() - i,
{
    if i < s.len() && !white(s[i]) {
        lemma_first_white_bounds(s, i + 1);
    }
}

impl ParsedLine {
    /// Classifies a line.
    pub fn from(line: &str) -> (r: ParsedLine)
        ensures
            r@ == parse_line(line@),
    {
        let v = chars_of(line);
        parse_chars(&v)
    }
}

/// The earliest cut point of `v` (see `trim_end`).
fn cut_index(v: &Vec<char>) -> (r: usize)
    ensures
        cut_point(v@, r as int),
        forall|k: int| 0 <= k < r ==> !cut_point(v@, k),
        r as int == trim_end(v@),
{
    let t = Ghost(v@);
    let mut w: usize = v.len();
    while w > 0 && is_white(v[w - 1])
        invariant
            w <= v@.len(),
            blank(v@.subrange(w as int, v@.len() as int)),
        decreases w,
    {
        assert(v@.subrange(w - 1, v@.len() as int)
            == seq![v@[w - 1]] + v@.subrange(w as int, v@.len() as int));
        w = w - 1;
    }
    let mut j: usize = w;
    while j < v.len() && !(j == 0 || v[j - 1] == '\n')
        invariant
            w <= j <= v@.len(),
            w == 0 || !white(v@[w - 1]),
            j > w ==> w > 0,
            forall|y: int| w <= y + 1 < j ==> #[trigger] v@[y] != '\n',
        decreases v.len() - j,
    {
        j = j + 1;
    }
    assert forall|x: int| x <= v@.len() && j <= x implies blank(#[trigger] v@.subrange(x, v@.len() as int)) by {
        assert forall|i: int| 0 <= i < v@.len() - x implies white(v@.subrange(x, v@.len() as int)[i]) by {
            assert(v@.subrange(x, v@.len() as int)[i] == v@.subrange(w as int, v@.len() as int)[x - w + i]);
        }
    }
    assert forall|k: int| 0 <= k < j implies !cut_point(v@, k) by {
        if k < w {
            assert(v@.subrange(k, v@.len() as int)[w - 1 - k] == v@[w - 1]);
        }
    }
    assert(cut_point(v@, j as int));
    let ghost c = trim_end(v@);
    assert(cut_point(v@, c) && forall|k: int| 0 <= k < c ==> !cut_point(v@, k));
    assert(c == j as int) by {
        if c < j as int {
        } else if c > j as int {
        }
    }
    j
}

/// Removes the trailing blank lines from a text.
pub fn trim_trailing_empty_lines(text: &str) -> (r: String)
    ensures
        r@ == trim_blank_tail(text@),
{
    let v = chars_of(text);
    let e = cut_index(&v);
    string_of_range(&v, 0, e)
}


// ---------------------------------------------------------------------
// The pending-token queue (arrayvec)
// ---------------------------------------------------------------------

/// arrayvec's fixed-capacity vector, used as the scanner's pending-token queue.
#[verifier::external_type_specification]
#[verifier::external_body]
#[verifier::reject_recursive_types(T)]
pub struct ExArrayVec<T, const CAP: usize>(ArrayVec<T, CAP>);

/// The tokens held by a pending-token queue, oldest first.
pub uninterp spec fn pending(q: ArrayVec<Token, 3>) -> Seq<Token>;

/// Relies on arrayvec's `ArrayVec::new`: a new vector is empty.
#[verifier::external_body]
fn queue_new() -> (r: ArrayVec<Token, 3>)
    ensures
        pending(r) == Seq::<Token>::empty(),
{
    ArrayVec::new()
}

/// Relies on arrayvec's `ArrayVec::push`: appends the element; panics when the
/// vector is full, which `requires` rules out.
#[verifier::external_body]
fn queue_push(q: &mut ArrayVec<Token, 3>, t: Token)
    requires
        pending(*old(q)).len() < 3,
    ensures
        pending(*final(q)) == pending(*old(q)).push(t),
{
    q.push(t)
}

/// Relies on arrayvec's `ArrayVec::pop`: removes and returns the last element,
/// or returns `None` when the vector is empty.
#[verifier::external_body]
fn queue_pop(q: &mut ArrayVec<Token, 3>) -> (r: Option<Token>)
    ensures
        pending(*old(q)).len() > 0 ==> r == Some(pending(*old(q)).last()) && pending(*final(q))
            == pending(*old(q)).drop_last(),
        pending(*old(q)).len() == 0 ==> r is None && pending(*final(q)) == pending(*old(q)),
{
    q.pop()
}

// ---------------------------------------------------------------------
// The scanner
// ---------------------------------------------------------------------

/// The model of the items a scanner hands out.
pub open spec fn item_view(r: Option<(Line, Token)>) -> Option<(LineV, TokenV)> {
    match r {
        Some((l, t)) => Some((l@, t@)),
        None => None,
    }
}

/// Every item that a scanner in state `s` will still hand out, in order.
pub open spec fn scan_tokens(s: ScanState) -> Seq<(LineV, TokenV)>
    decreases scan_measure(s),
    when scan_wf(s)
    via scan_tokens_decreases
{
    match scan_step(s).1 {
        Some(item) => seq![item] + scan_tokens(scan_step(s).0),
        None => Seq::empty(),
    }
}

#[via_fn]
proof fn scan_tokens_decreases(s: ScanState) {
    lemma_step(s);
}

proof fn lemma_line_end_bounds(t: Seq<char>, p: int)
    requires
        0 <= p < t.len(),
    ensures
        p < line_end(t, p) <= t.len(),
    decreases t.len() - p,
{
    if t[p] != '\n' {
        if p + 1 < t.len() {
            lemma_line_end_bounds(t, p + 1);
        } else {
            assert(line_end(t, p + 1) == t.len());
        }
    }
}

/// A step keeps the state well formed, and a step that hands out an item
/// lowers the measure; a step that hands out nothing changes nothing.
pub proof fn lemma_step(s: ScanState)
    requires
        scan_wf(s),
    ensures
        scan_wf(scan_step(s).0),
        scan_step(s).1 is Some ==> scan_measure(scan_step(s).0) < scan_measure(s),
        scan_step(s).1 is None ==> scan_step(s).0 == s,
{
    if s.queue.len() == 0 && s.pos < s.text.len() {
        lemma_line_end_bounds(s.text, s.pos);
    }
}

/// A single-pass scanner over a dictionary text: hands out each line's
/// tokens in order, with the line they came from.
pub struct Scanner {
    text: Vec<char>,
    pos: usize,
    next_line_i: usize,
    record_tag: String,
    queue: ArrayVec<Token, 3>,
    last_line: Line,
    start: Option<usize>,
}

impl View for Scanner {
    type V = ScanState;

    closed spec fn view(&self) -> ScanState {
        ScanState {
            text: self.text@,
            pos: self.pos as int,
            next_line: self.next_line_i as int,
            tag: self.record_tag@,
            queue: pending(self.queue).map_values(|t: Token| t@),
            last: self.last_line@,
            start: match self.start {
                Some(st) => Some(st as int),
                None => None,
            },
        }
    }
}

/// Index just past the end of the line that starts at `p`.
fn find_line_end(v: &Vec<char>, p: usize) -> (r: usize)
    requires
        p <= v@.len(),
    ensures
        r as int == line_end(v@, p as int),
{
    let mut i = p;
    while i < v.len()
        invariant
            p <= i <= v@.len(),
            line_end(v@, p as int) == line_end(v@, i as int),
        decreases v.len() - i,
    {
        if v[i] == '\n' {
            return i + 1;
        }
        i = i + 1;
    }
    i
}

/// End of the characters `lo .. hi` once trailing line ends are dropped.
fn strip_eol_end(v: &Vec<char>, lo: usize, hi: usize) -> (r: usize)
    requires
        lo <= hi <= v@.len(),
    ensures
        lo <= r <= hi,
        v@.subrange(lo as int, r as int) == strip_eol(v@.subrange(lo as int, hi as int)),
{
    let mut k = hi;
    while k > lo && (v[k - 1] == '\r' || v[k - 1] == '\n')
        invariant
            lo <= k <= hi <= v@.len(),
            strip_eol(v@.subrange(lo as int, hi as int)) == strip_eol(
                v@.subrange(lo as int, k as int),
            ),
        decreases k,
    {
        assert(v@.subrange(lo as int, k as int).drop_last() == v@.subrange(lo as int, k - 1));
        k = k - 1;
    }
    k
}

/// The body of the record between `from` and `to`.
fn body_between(v: &Vec<char>, from: usize, to: usize) -> (r: String)
    requires
        from <= to <= v@.len(),
    ensures
        r@ == record_body(v@, from as int, to as int),
{
    let part = copy_range(v, from, to);
    let e = cut_index(&part);
    string_of_range(&part, 0, e)
}

impl Scanner {
    /// A scanner at the start of `text`, where a line tagged `record_tag` opens a record.
    pub fn from(text: &str, record_tag: &str) -> (r: Scanner)
        ensures
            r@ == scan_init(text@, record_tag@),
            r.wf(),
    {
        let q = queue_new();
        let r = Scanner {
            text: chars_of(text),
            pos: 0,
            next_line_i: 0,
            record_tag: string_of(chars_of(record_tag).as_slice()),
            queue: q,
            last_line: Line { line: 0, text: string_of(chars_of(text).as_slice()) },
            start: None,
        };
        assert(r@.queue =~= Seq::<TokenV>::empty());
        r
    }

    /// The states the scanner can be in.
    pub open spec fn wf(&self) -> bool {
        scan_wf(self@)
    }

    /// Hands out the next item: a line and one of its tokens.
    pub fn next(&mut self) -> (r: Option<(Line, Token)>)
        requires
            old(self).wf(),
        ensures
            final(self).wf(),
            (final(self)@, item_view(r)) == scan_step(old(self)@),
    {
        proof {
            lemma_step(self@);
        }
        let ghost s0 = self@;
        let popped = queue_pop(&mut self.queue);
        if let Some(token) = popped {
            assert(self@.queue =~= s0.queue.drop_last());
            return Some((self.last_line.duplicate(), token));
        }
        assert(self@ == s0);
        if self.pos >= self.text.len() {
            match self.start {
                Some(st) => {
                    self.start = None;
                    let body = body_between(&self.text, st, self.text.len());
                    return Some((self.last_line.duplicate(), Token::RecordEnd { body }));
                },
                None => {
                    return None;
                },
            }
        }
        proof {
            lemma_line_end_bounds(self.text@, self.pos as int);
        }
        let e = find_line_end(&self.text, self.pos);
        let k = strip_eol_end(&self.text, self.pos, e);
        let chars = copy_range(&self.text, self.pos, k);
        let parsed = parse_chars(&chars);
        let line = Line { line: self.next_line_i, text: string_of(chars.as_slice()) };
        let token = match parsed {
            ParsedLine::Tagged(tag, value) => {
                if tag == self.record_tag {
                    let prev = self.start;
                    self.start = Some(self.pos);
                    let ghost q0 = pending(self.queue);
                    queue_push(&mut self.queue, Token::Tagged { tag, text: value });
                    match prev {
                        Some(st) => {
                            queue_push(&mut self.queue, Token::RecordBegin);
                            assert(pending(self.queue).map_values(|t: Token| t@) =~= seq![
                                TokenV::Tagged(tag@, value@),
                                TokenV::RecordBegin,
                            ]);
                            Token::RecordEnd { body: body_between(&self.text, st, self.pos) }
                        },
                        None => {
                            assert(pending(self.queue).map_values(|t: Token| t@) =~= seq![
                                TokenV::Tagged(tag@, value@),
                            ]);
                            Token::RecordBegin
                        },
                    }
                } else {
                    Token::Tagged { tag, text: value }
                }
            },
            ParsedLine::Untagged(text) => Token::Untagged { text },
            ParsedLine::Blank => Token::Blank,
        };
        self.pos = e;
        self.last_line = line.duplicate();
        self.next_line_i = self.next_line_i + 1;
        Some((line, token))
    }
}


// ---------------------------------------------------------------------
// The dictionary header
// ---------------------------------------------------------------------

/// The ASCII white-space class of the header grammar: space, tab, line
/// feed, vertical tab, form feed and carriage return.
pub open spec fn header_space(c: char) -> bool {
    c == ' ' || c == '\t' || c == '\n' || c == '\u{b}' || c == '\u{c}' || c == '\r'
}

pub open spec fn ascii_digit(c: char) -> bool {
    '0' <= c <= '9'
}

/// Index just past the run of header spaces that starts at `i`.
pub open spec fn skip_space(s: Seq<char>, i: int) -> int
    decreases s.len() - i,
{
    if 0 <= i < s.len() && header_space(s[i]) {
        skip_space(s, i + 1)
    } else {
        i
    }
}

/// Index just past the run of ASCII digits that starts at `i`.
pub open spec fn skip_digits(s: Seq<char>, i: int) -> int
    decreases s.len() - i,
{
    if 0 <= i < s.len() && ascii_digit(s[i]) {
        skip_digits(s, i + 1)
    } else {
        i
    }
}

/// Whether `w` occurs in `s` at `i`.
pub open spec fn word_at(s: Seq<char>, i: int, w: Seq<char>) -> bool {
    0 <= i && i + w.len() <= s.len() && s.subrange(i, i + w.len()) == w
}

pub open spec fn sh_word() -> Seq<char> {
    seq!['\\', '_', 's', 'h']
}

pub open spec fn version_word() -> Seq<char> {
    seq!['v', '3', '.', '0']
}

pub open spec fn dictionary_word() -> Seq<char> {
    seq!['D', 'i', 'c', 't', 'i', 'o', 'n', 'a', 'r', 'y']
}

/// The dictionary header line: `\_sh`, spaces, `v3.0`, spaces, a count,
/// spaces, `Dictionary`, and nothing after it but spaces.
pub open spec fn is_header(s: Seq<char>) -> bool {
    let a = skip_space(s, 4);
    let b = skip_space(s, a + 4);
    let c = skip_digits(s, b);
    let d = skip_space(s, c);
    &&& word_at(s, 0, sh_word())
    &&& a > 4
    &&& word_at(s, a, version_word())
    &&& b > a + 4
    &&& c > b
    &&& d > c
    &&& word_at(s, d, dictionary_word())
    &&& skip_space(s, d + 10) == s.len()
}

/// Skips blank lines, then checks the next line against the header: on a
/// match, the state after that line; otherwise the number of the offending
/// line (the last line scanned when the text ends first).
pub open spec fn header_scan(s: ScanState) -> Result<ScanState, int>
    decreases scan_measure(s),
    when scan_wf(s)
    via header_scan_decreases
{
    let n = scan_step(s).0;
    match scan_step(s).1 {
        Some((line, tok)) => {
            if tok == TokenV::Blank {
                header_scan(n)
            } else if is_header(line.text) {
                Ok(n)
            } else {
                Err(line.line)
            }
        },
        None => Err(n.last.line),
    }
}

#[via_fn]
proof fn header_scan_decreases(s: ScanState) {
    lemma_step(s);
}

fn is_header_space(c: char) -> (r: bool)
    ensures
        r == header_space(c),
{
    c == ' ' || c == '\t' || c == '\n' || c == '\u{b}' || c == '\u{c}' || c == '\r'
}

fn skip_space_exec(v: &Vec<char>, i: usize) -> (r: usize)
    requires
        i <= v@.len(),
    ensures
        r as int == skip_space(v@, i as int),
        i <= r <= v@.len(),
{
    let mut j = i;
    while j < v.len() && is_header_space(v[j])
        invariant
            i <= j <= v@.len(),
            skip_space(v@, i as int) == skip_space(v@, j as int),
        decreases v.len() - j,
    {
        j = j + 1;
    }
    j
}

fn skip_digits_exec(v: &Vec<char>, i: usize) -> (r: usize)
    requires
        i <= v@.len(),
    ensures
        r as int == skip_digits(v@, i as int),
        i <= r <= v@.len(),
{
    let mut j = i;
    while j < v.len() && '0' <= v[j] && v[j] <= '9'
        invariant
            i <= j <= v@.len(),
            skip_digits(v@, i as int) == skip_digits(v@, j as int),
        decreases v.len() - j,
    {
        j = j + 1;
    }
    j
}

fn word_at_exec(v: &Vec<char>, i: usize, w: &Vec<char>) -> (r: bool)
    ensures
        r == word_at(v@, i as int, w@),
{
    if i > v.len() || w.len() > v.len() - i {
        return false;
    }
    let mut k: usize = 0;
    let n = v.len();
    while k < w.len()
        invariant
            n == v@.len(),
            i + w@.len() <= v@.len(),
            k <= w@.len(),
            v@.subrange(i as int, i + k) == w@.subrange(0, k as int),
        decreases w.len() - k,
    {
        if v[i + k] != w[k] {
            assert(v@.subrange(i as int, i + w@.len())[k as int] == v@[i + k]);
            return false;
        }
        assert(v@.subrange(i as int, i + k + 1) == v@.subrange(i as int, i + k).push(v@[i + k]));
        assert(w@.subrange(0, k + 1) == w@.subrange(0, k as int).push(w@[k as int]));
        k = k + 1;
    }
    assert(w@.subrange(0, w@.len() as int) == w@);
    true
}

/// Whether a line (given as characters) is the dictionary header.
pub fn header_line(v: &Vec<char>) -> (r: bool)
    ensures
        r == is_header(v@),
{
    let sh = vec!['\\', '_', 's', 'h'];
    let version = vec!['v', '3', '.', '0'];
    let dictionary = vec!['D', 'i', 'c', 't', 'i', 'o', 'n', 'a', 'r', 'y'];
    assert(sh@ == sh_word());
    assert(version@ == version_word());
    assert(dictionary@ == dictionary_word());
    let n = v.len();
    if !word_at_exec(v, 0, &sh) {
        return false;
    }
    let a = skip_space_exec(v, 4);
    if a == 4 || !word_at_exec(v, a, &version) {
        return false;
    }
    let b = skip_space_exec(v, a + 4);
    if b == a + 4 {
        return false;
    }
    let c = skip_digits_exec(v, b);
    if c == b {
        return false;
    }
    let d = skip_space_exec(v, c);
    if d == c || !word_at_exec(v, d, &dictionary) {
        return false;
    }
    let f = skip_space_exec(v, d + 10);
    f == v.len()
}

impl Scanner {
    /// Moves past blank lines and the dictionary header; when the next
    /// non-blank line is not the header, the number of that line.
    pub fn expect_toolbox_dictionary_header(self) -> (r: Result<Scanner, usize>)
        requires
            self.wf(),
        ensures
            r is Ok <==> header_scan(self@) is Ok,
            r is Ok ==> r->Ok_0.wf() && r->Ok_0@ == header_scan(self@)->Ok_0,
            r is Err ==> r->Err_0 as int == header_scan(self@)->Err_0,
    {
        let mut sc = self;
        loop
            invariant
                sc.wf(),
                header_scan(sc@) == header_scan(self@),
            decreases scan_measure(sc@),
        {
            proof {
                lemma_step(sc@);
            }
            let ghost before = sc@;
            match sc.next() {
                Some((line, tok)) => {
                    match tok {
                        Token::Blank => {},
                        _ => {
                            let v = chars_of(line.text.as_str());
                            if header_line(&v) {
                                return Ok(sc);
                            } else {
                                return Err(line.line);
                            }
                        },
                    }
                },
                None => {
                    return Err(sc.last_line.line);
                },
            }
        }
    }
}

} // verus!
