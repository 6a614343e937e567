//! Validated page paths, the closed relation vocabulary, and link targets.
use vstd::prelude::*;
use crate::text::{
    chars_of, find_char, find_char_exec, is_ascii_alpha, ascii_alpha, same_chars, split_exec, split_on, string_of, views,
};

verus! {

/// A path segment that a page path may not contain: empty, `.` or `..`.
pub open spec fn is_bad_segment(seg: Seq<char>) -> bool {
    seg.len() == 0 || seg == seq!['.'] || seg == seq!['.', '.']
}

/// A Windows drive prefix such as `C:`.
pub open spec fn has_drive_prefix(s: Seq<char>) -> bool {
    s.len() >= 2 && is_ascii_alpha(s[0]) && s[1] == ':'
}

/// Why a string is not a page path.
#[derive(Debug, Clone, Copy, PartialEq, Eq)]
pub enum PathError {
    Empty,
    Absolute,
    Backslash,
    DrivePrefix,
    BadSegment,
}

/// The outcome of validating `s` as a page path; the checks are made in
/// this order, and the first that fails names the error.
pub open spec fn page_path_check(s: Seq<char>) -> Option<PathError> {
    if s.len() == 0 {
        Some(PathError::Empty)
    } else if s[0] == '/' {
        Some(PathError::Absolute)
    } else if find_char(s, '\\') is Some {
        Some(PathError::Backslash)
    } else if has_drive_prefix(s) {
        Some(PathError::DrivePrefix)
    } else if exists|i: int|
        0 <= i < split_on(s, '/').len() && #[trigger] is_bad_segment(split_on(s, '/')[i]) {
        Some(PathError::BadSegment)
    } else {
        None
    }
}

/// A relative wiki path: not empty, not absolute, no drive prefix, no
/// backslash, and no empty, `.` or `..` segment.
pub open spec fn valid_page_path(s: Seq<char>) -> bool {
    page_path_check(s) is None
}

/// A validated relative wiki path.
#[derive(Debug, PartialEq, Eq, PartialOrd, Ord, Hash)]
pub struct PagePath {
    path: String,
}

impl Clone for PagePath {
    fn clone(&self) -> (r: Self)
        ensures
            r@ == self@,
    {
        proof {
            use_type_invariant(self);
        }
        PagePath { path: self.path.clone() }
    }
}

impl View for PagePath {
    type V = Seq<char>;

    closed spec fn view(&self) -> Seq<char> {
        self.path@
    }
}

fn bad_segment(seg: &Vec<char>) -> (r: bool)
    ensures
        r == is_bad_segment(seg@),
{
    let dot = vec!['.'];
    let dots = vec!['.', '.'];
    assert(dot@ == seq!['.']);
    assert(dots@ == seq!['.', '.']);
    seg.len() == 0 || same_chars(seg, &dot) || same_chars(seg, &dots)
}

/// The validation of `s` as a page path.
pub fn check_page_path(s: &Vec<char>) -> (r: Option<PathError>)
    ensures
        r == page_path_check(s@),
{
    if s.len() == 0 {
        return Some(PathError::Empty);
    }
    if s[0] == '/' {
        return Some(PathError::Absolute);
    }
    if find_char_exec(s, '\\').is_some() {
        return Some(PathError::Backslash);
    }
    if s.len() >= 2 && ascii_alpha(s[0]) && s[1] == ':' {
        return Some(PathError::DrivePrefix);
    }
    let segs = split_exec(s, '/');
    let mut i: usize = 0;
    while i < segs.len()
        invariant
            i <= segs.len(),
            views(segs@) == split_on(s@, '/'),
            s@.len() != 0,
            s@[0] != '/',
            find_char(s@, '\\') is None,
            !has_drive_prefix(s@),
            forall|j: int| 0 <= j < i ==> !is_bad_segment(#[trigger] split_on(s@, '/')[j]),
        decreases segs.len() - i,
    {
        assert(segs@[i as int]@ == split_on(s@, '/')[i as int]);
        if bad_segment(&segs[i]) {
            assert(views(segs@).len() == segs@.len());
            assert(is_bad_segment(split_on(s@, '/')[i as int]));

            return Some(PathError::BadSegment);
        }
        i += 1;
    }
    None
}

impl PagePath {
    #[verifier::type_invariant]
    spec fn inv(self) -> bool {
        valid_page_path(self.path@)
    }

    /// Every page path is valid (a call states it for `self`).
    pub fn check_valid(&self)
        ensures
            valid_page_path(self@),
    {
        proof {
            use_type_invariant(self);
        }
    }

    /// `PagePath::new`: the path `s` when it is valid, else why it is not.
    pub fn new(s: &str) -> (r: Result<PagePath, PathError>)
        ensures
            match r {
                Ok(p) => valid_page_path(s@) && p@ == s@,
                Err(e) => page_path_check(s@) == Some(e),
            },
    {
        let v = chars_of(s);
        PagePath::from_chars(&v)
    }

    /// The page path made of the characters `v`, when they form one.
    pub fn from_chars(v: &Vec<char>) -> (r: Result<PagePath, PathError>)
        ensures
            match r {
                Ok(p) => valid_page_path(v@) && p@ == v@,
                Err(e) => page_path_check(v@) == Some(e),
            },
    {
        match check_page_path(v) {
            Some(e) => Err(e),
            None => Ok(PagePath { path: string_of(v) }),
        }
    }

    pub fn as_str(&self) -> (r: &str)
        ensures
            r@ == self@,
    {
        self.path.as_str()
    }

    /// The characters of the path.
    pub fn chars(&self) -> (r: Vec<char>)
        ensures
            r@ == self@,
    {
        chars_of(self.path.as_str())
    }
}

/// The closed vocabulary of typed relation edges.
#[derive(Debug, Clone, Copy, PartialEq, Eq, PartialOrd, Ord, Hash)]
pub enum Relation {
    Fixes,
    Contradicts,
    Causes,
}

pub open spec fn fixes_name() -> Seq<char> {
    seq!['f', 'i', 'x', 'e', 's']
}

pub open spec fn contradicts_name() -> Seq<char> {
    seq!['c', 'o', 'n', 't', 'r', 'a', 'd', 'i', 'c', 't', 's']
}

pub open spec fn causes_name() -> Seq<char> {
    seq!['c', 'a', 'u', 's', 'e', 's']
}

/// The relation whose frontmatter key is `s`.
pub open spec fn relation_named(s: Seq<char>) -> Option<Relation> {
    if s == fixes_name() {
        Some(Relation::Fixes)
    } else if s == contradicts_name() {
        Some(Relation::Contradicts)
    } else if s == causes_name() {
        Some(Relation::Causes)
    } else {
        None
    }
}

/// The frontmatter key of a relation.
pub open spec fn relation_key(r: Relation) -> Seq<char> {
    match r {
        Relation::Fixes => fixes_name(),
        Relation::Contradicts => contradicts_name(),
        Relation::Causes => causes_name(),
    }
}

impl Relation {
    /// `Relation::parse`: the relation named by a frontmatter key.
    pub fn parse(key: &str) -> (r: Option<Relation>)
        ensures
            r == relation_named(key@),
    {
        let k = chars_of(key);
        Relation::from_chars(&k)
    }

    pub fn from_chars(k: &Vec<char>) -> (r: Option<Relation>)
        ensures
            r == relation_named(k@),
    {
        let fixes = vec!['f', 'i', 'x', 'e', 's'];
        let contradicts = vec!['c', 'o', 'n', 't', 'r', 'a', 'd', 'i', 'c', 't', 's'];
        let causes = vec!['c', 'a', 'u', 's', 'e', 's'];
        assert(fixes@ == fixes_name());
        assert(contradicts@ == contradicts_name());
        assert(causes@ == causes_name());
        if same_chars(k, &fixes) {
            Some(Relation::Fixes)
        } else if same_chars(k, &contradicts) {
            Some(Relation::Contradicts)
        } else if same_chars(k, &causes) {
            Some(Relation::Causes)
        } else {
            None
        }
    }

    /// The frontmatter key of this relation.
    pub fn as_str(&self) -> (r: String)
        ensures
            r@ == relation_key(*self),
    {
        let v = match self {
            Relation::Fixes => vec!['f', 'i', 'x', 'e', 's'],
            Relation::Contradicts => vec!['c', 'o', 'n', 't', 'r', 'a', 'd', 'i', 'c', 't', 's'],
            Relation::Causes => vec!['c', 'a', 'u', 's', 'e', 's'],
        };
        assert(v@ == relation_key(*self));
        string_of(&v)
    }
}

/// The optional string `o`, by its characters.
pub open spec fn opt_chars(o: Option<String>) -> Option<Seq<char>> {
    match o {
        Some(s) => Some(s@),
        None => None,
    }
}

/// A link target as plain values.
pub struct LinkView {
    pub workspace: Option<Seq<char>>,
    pub project: Option<Seq<char>>,
    pub path: Seq<char>,
    pub relation: Option<Relation>,
}

/// An outgoing link: an optional `workspace/project` scope (both absent for
/// a link within the source page's own project), a page path, and, for a
/// typed frontmatter edge, its relation.
#[derive(Debug, PartialEq, Eq, PartialOrd, Ord, Hash)]
pub struct LinkTarget {
    pub workspace: Option<String>,
    pub project: Option<String>,
    pub path: PagePath,
    pub relation: Option<Relation>,
}

impl View for LinkTarget {
    type V = LinkView;

    open spec fn view(&self) -> LinkView {
        LinkView {
            workspace: opt_chars(self.workspace),
            project: opt_chars(self.project),
            path: self.path@,
            relation: self.relation,
        }
    }
}

/// The views of a sequence of link targets.
pub open spec fn link_views(v: Seq<LinkTarget>) -> Seq<LinkView> {
    v.map_values(|t: LinkTarget| t@)
}

fn clone_opt_string(o: &Option<String>) -> (r: Option<String>)
    ensures
        opt_chars(r) == opt_chars(*o),
{
    match o {
        Some(s) => Some(s.clone()),
        None => None,
    }
}

impl Clone for LinkTarget {
    fn clone(&self) -> (r: Self)
        ensures
            r@ == self@,
    {
        LinkTarget {
            workspace: clone_opt_string(&self.workspace),
            project: clone_opt_string(&self.project),
            path: self.path.clone(),
            relation: self.relation,
        }
    }
}

impl LinkTarget {
    /// Whether the link leaves the source page's own project.
    pub fn is_cross_project(&self) -> (r: bool)
        ensures
            r == (self@.workspace is Some || self@.project is Some),
    {
        self.workspace.is_some() || self.project.is_some()
    }
}

} // verus!
