//! A dictionary's settings, its id pattern, and a loaded dictionary.

use vstd::prelude::*;
use regex::Regex;
use crate::scanner::{Scanner, header_scan, scan_init, scan_measure};
use crate::clob::Clob;
use crate::record_splitter::label_split_result;
use crate::id_splitter::id_split_result;
use crate::issue::{ToolboxFileIssue, IssueV, issues_view};

verus! {

/// regex's compiled pattern, carried inside `IdPattern`.
#[verifier::external_type_specification]
#[verifier::external_body]
pub struct ExRegex(Regex);

/// An id pattern: its source text, compiled so that it must match a whole
/// text (see `anchored`).
pub struct IdPattern {
    source: String,
    regex: Regex,
}

impl View for IdPattern {
    type V = Seq<char>;

    closed spec fn view(&self) -> Seq<char> {
        self.source@
    }
}

/// The pattern that matches what `source` matches, but only as a whole text.
pub open spec fn anchored(source: Seq<char>) -> Seq<char> {
    "^(?:"@ + source + ")$"@
}

/// Whether the regex compiler accepts `pattern`.
pub uninterp spec fn compiles(pattern: Seq<char>) -> bool;

/// What the leftmost-first search of `pattern` in `text` captures: the whole
/// match, the group `namespace` and the group `id` (a group that took no part
/// in the match is `None`); `None` when the pattern does not match.
pub uninterp spec fn id_captures(pattern: Seq<char>, text: Seq<char>) -> Option<
    (Seq<char>, Option<Seq<char>>, Option<Seq<char>>),
>;

/// The model of a capture result.
pub open spec fn captures_view(c: Option<(String, Option<String>, Option<String>)>) -> Option<
    (Seq<char>, Option<Seq<char>>, Option<Seq<char>>),
> {
    match c {
        Some((whole, ns, id)) => Some(
            (
                whole@,
                match ns {
                    Some(n) => Some(n@),
                    None => None,
                },
                match id {
                    Some(i) => Some(i@),
                    None => None,
                },
            ),
        ),
        None => None,
    }
}

/// Relies on regex's `Regex::new`: compiles `whole` (the anchored form of
/// `source`), or gives the reason it cannot; whether it can depends on the
/// pattern alone. The compiled pattern is kept beside `source`.
#[verifier::external_body]
fn compile_pattern(source: &str, whole: &str) -> (r: Result<IdPattern, String>)
    requires
        whole@ == anchored(source@),
    ensures
        r is Ok <==> compiles(whole@),
        r is Ok ==> r->Ok_0@ == source@,
{
    Regex::new(whole).map(|regex| IdPattern { source: source.to_string(), regex }).map_err(
        |e| e.to_string(),
    )
}

/// Relies on regex's `Regex::captures`, `Captures::get(0)` and
/// `Captures::name`: the leftmost-first match of the pattern the value was
/// compiled from (the anchored form of its source), with its `namespace` and
/// `id` groups.
#[verifier::external_body]
pub(crate) fn pattern_captures(p: &IdPattern, text: &str) -> (r: Option<
    (String, Option<String>, Option<String>),
>)
    ensures
        captures_view(r) == id_captures(anchored(p@), text@),
{
    p.regex.captures(text).map(
        |c|
            (
                c.get(0).unwrap().as_str().to_string(),
                c.name("namespace").map(|m| m.as_str().to_string()),
                c.name("id").map(|m| m.as_str().to_string()),
            ),
    )
}

impl IdPattern {
    /// Compiles an id pattern so that it matches whole texts only; the error
    /// is the compiler's message.
    pub fn new(source: &str) -> (r: Result<IdPattern, String>)
        ensures
            r is Ok <==> compiles(anchored(source@)),
            r is Ok ==> r->Ok_0@ == source@,
    {
        let mut whole = String::from_str("^(?:");
        whole.append(source);
        whole.append(")$");
        compile_pattern(source, whole.as_str())
    }

    /// The pattern's source text.
    pub fn source(&self) -> (r: String)
        ensures
            r@ == self@,
    {
        self.source.clone()
    }
}

/// A user's role in the repository.
#[derive(Clone, Copy, Debug, PartialEq, Eq)]
pub enum UserRole {
    User,
    Manager,
}

impl Default for UserRole {
    fn default() -> (r: UserRole)
        ensures
            r is User,
    {
        UserRole::User
    }
}

/// A user of the repository.
#[derive(Clone)]
pub struct UserConfig {
    pub name: String,
    pub role: UserRole,
    pub namespace: Option<String>,
}

/// The settings of one managed dictionary.
pub struct DictionaryConfig {
    pub name: String,
    /// The dictionary's path, relative to the repository.
    pub path: String,
    /// The tag (with its marker) whose lines open a record.
    pub record_tag: String,
    /// Whether records are grouped by a unique id rather than by label.
    pub unique_id: bool,
    /// The tag (with its marker) of the id lines.
    pub id_tag: Option<String>,
    /// The pattern an id must match.
    pub id_spec: IdPattern,
    /// Reserved: lifecycle tracking is not supported.
    pub lifecycle: bool,
    pub lifecycle_tag: Option<String>,
}

/// The tool's settings: its users and its managed dictionaries.
pub struct Config {
    pub users: Vec<UserConfig>,
    pub dictionaries: Vec<DictionaryConfig>,
}

/// The positions of the dictionaries whose path is `path`.
pub open spec fn positions_with_path(ds: Seq<DictionaryConfig>, path: Seq<char>) -> Seq<int>
    decreases ds.len(),
{
    if ds.len() == 0 {
        Seq::empty()
    } else if ds.last().path@ == path {
        positions_with_path(ds.drop_last(), path).push(ds.len() - 1)
    } else {
        positions_with_path(ds.drop_last(), path)
    }
}

impl Config {
    /// The settings of the dictionary at `path` (relative to the repository):
    /// `None` unless exactly one managed dictionary has that path.
    pub fn dictionary_by_path(&self, path: &str) -> (r: Option<&DictionaryConfig>)
        ensures
            positions_with_path(self.dictionaries@, path@).len() == 1 <==> r is Some,
            r is Some ==> *r->Some_0 == self.dictionaries@[positions_with_path(self.dictionaries@, path@)[0]],
    {
        let ghost ds = self.dictionaries@;
        let mut found: Option<usize> = None;
        let mut count: usize = 0;
        let mut i: usize = 0;
        let target = crate::text::string_of(crate::text::chars_of(path).as_slice());
        while i < self.dictionaries.len()
            invariant
                ds == self.dictionaries@,
                target@ == path@,
                i <= ds.len(),
                count as int == positions_with_path(ds.take(i as int), path@).len(),
                count <= i,
                count >= 1 ==> found is Some && found->Some_0 as int == positions_with_path(ds.take(i as int), path@)[0],
                forall|j: int| 0 <= j < positions_with_path(ds.take(i as int), path@).len() ==>
                    0 <= #[trigger] positions_with_path(ds.take(i as int), path@)[j] < i,
            decreases self.dictionaries.len() - i,
        {
            assert(ds.take(i + 1).drop_last() == ds.take(i as int));
            assert(ds.take(i + 1).last() == ds[i as int]);
            if self.dictionaries[i].path == target {
                if count == 0 {
                    found = Some(i);
                }
                count = count + 1;
            }
            i = i + 1;
        }
        assert(ds.take(ds.len() as int) == ds);
        if count == 1 {
            match found {
                Some(k) => Some(&self.dictionaries[k]),
                None => None,
            }
        } else {
            None
        }
    }
}

/// A dictionary's text, ready to be split: its settings, a scanner past the
/// header, and the diagnostics found so far.
pub struct Dictionary {
    pub config: DictionaryConfig,
    pub scanner: Scanner,
    pub issues: Vec<ToolboxFileIssue>,
}

/// The directory that holds a dictionary's content objects.
pub open spec fn contents_root_of(path: Seq<char>) -> Seq<char> {
    path + ".contents"@
}

impl Dictionary {
    /// Loads a dictionary from its text. The text must start (after blank
    /// lines) with the dictionary header. When it does not, a strict load
    /// fails with the number of the offending line; otherwise the header is
    /// noted as missing and the whole text is split.
    pub fn from_text(text: &str, config: DictionaryConfig, strict: bool) -> (r: Result<
        Dictionary,
        usize,
    >)
        ensures
            ({
                let init = scan_init(text@, config.record_tag@);
                match header_scan(init) {
                    Ok(s) => r is Ok && r->Ok_0.scanner@ == s && r->Ok_0.issues@.len() == 0,
                    Err(line) => if strict {
                        r == Err::<Dictionary, usize>(line as usize)
                    } else {
                        r is Ok && r->Ok_0.scanner@ == init && issues_view(r->Ok_0.issues@)
                            == seq![IssueV::MissingDictionaryHeader(line)]
                    },
                }
            }),
            r is Ok ==> r->Ok_0.scanner.wf() && r->Ok_0.config == config,
    {
        let tag = config.record_tag.clone();
        let checked = Scanner::from(text, tag.as_str()).expect_toolbox_dictionary_header();
        match checked {
            Ok(scanner) => Ok(Dictionary { config, scanner, issues: Vec::new() }),
            Err(line) => {
                if strict {
                    Err(line)
                } else {
                    let mut issues = Vec::new();
                    issues.push(ToolboxFileIssue::MissingDictionaryHeader { line });
                    assert(issues_view(issues@) =~= seq![IssueV::MissingDictionaryHeader(line as int)]);
                    Ok(Dictionary { config, scanner: Scanner::from(text, tag.as_str()), issues })
                }
            },
        }
    }

    /// Splits the dictionary into content objects and diagnostics: by record
    /// id when the settings ask for unique ids, by record label otherwise.
    /// Lifecycle tracking is not supported.
    pub fn split(self) -> (r: Result<(Vec<Clob>, Vec<ToolboxFileIssue>), Clob>)
        requires
            self.scanner.wf(),
            scan_measure(self.scanner@) < usize::MAX,
            !self.config.lifecycle,
            self.config.unique_id ==> self.config.id_tag is Some,
        ensures
            self.config.unique_id ==> id_split_result(self, r),
            !self.config.unique_id ==> label_split_result(self, r) && r is Ok,
    {
        if self.config.unique_id {
            crate::id_splitter::split(self)
        } else {
            crate::record_splitter::split(self)
        }
    }

    /// The directory that holds this dictionary's content objects.
    pub fn contents_root(&self) -> (r: String)
        ensures
            r@ == contents_root_of(self.config.path@),
    {
        let mut r = self.config.path.clone();
        r.append(".contents");
        r
    }
}

} // verus!
