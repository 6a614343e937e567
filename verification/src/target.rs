//! The link-target grammar: scope qualifiers, URI schemes, and the
//! normalisation of a raw destination to a wiki-root-relative page path.
use vstd::prelude::*;
use crate::text::{
    CharClass, concat, contains, contains_exec, ends_with, ends_with_exec, find_char,
    find_char_exec, is_ascii_alnum, is_ascii_alpha, ascii_alnum, ascii_alpha, join_exec, join_on,
    lemma_find_char, lemma_rfind_char, lower_starts_with, lowercase,
    rfind_char, rfind_char_exec, slice_of, split_exec, split_on, starts_with, trim, trim_in,
    trim_of, trim_start_in, trim_start_of, trim_ws, views, same_chars,
};

verus! {

/// A link key as plain values: `(workspace, project, path)`.
pub struct KeyView {
    pub workspace: Option<Seq<char>>,
    pub project: Option<Seq<char>>,
    pub path: Seq<char>,
}

/// A link key: the scope of a link and its page path, as characters.
pub struct Key {
    pub workspace: Option<Vec<char>>,
    pub project: Option<Vec<char>>,
    pub path: Vec<char>,
}

pub open spec fn opt_view(o: Option<Vec<char>>) -> Option<Seq<char>> {
    match o {
        Some(v) => Some(v@),
        None => None,
    }
}

impl View for Key {
    type V = KeyView;

    open spec fn view(&self) -> KeyView {
        KeyView {
            workspace: opt_view(self.workspace),
            project: opt_view(self.project),
            path: self.path@,
        }
    }
}

/// The key of a link within the source page's own project.
pub open spec fn local_key(path: Seq<char>) -> KeyView {
    KeyView { workspace: None, project: None, path }
}

pub fn copy_chars(v: &Vec<char>) -> (r: Vec<char>)
    ensures
        r@ == v@,
{
    slice_of(v, 0, v.len())
}

// ---------------------------------------------------------------------------
// Literal patterns
// ---------------------------------------------------------------------------

pub open spec fn scheme_sep() -> Seq<char> {
    seq![':', '/', '/']
}

pub open spec fn mailto_prefix() -> Seq<char> {
    seq!['m', 'a', 'i', 'l', 't', 'o', ':']
}

pub open spec fn data_prefix() -> Seq<char> {
    seq!['d', 'a', 't', 'a', ':']
}

pub open spec fn javascript_prefix() -> Seq<char> {
    seq!['j', 'a', 'v', 'a', 's', 'c', 'r', 'i', 'p', 't', ':']
}

pub open spec fn tel_prefix() -> Seq<char> {
    seq!['t', 'e', 'l', ':']
}

pub open spec fn md_ext() -> Seq<char> {
    seq!['.', 'm', 'd']
}

fn scheme_sep_exec() -> (r: Vec<char>)
    ensures
        r@ == scheme_sep(),
{
    let r = vec![':', '/', '/'];
    assert(r@ == scheme_sep());
    r
}

pub fn md_ext_exec() -> (r: Vec<char>)
    ensures
        r@ == md_ext(),
{
    let r = vec!['.', 'm', 'd'];
    assert(r@ == md_ext());
    r
}

/// Whether the (lowercased) target starts with one of the schemes that are
/// never page links even without `//`: `mailto:`, `data:`, `javascript:`,
/// `tel:`.
pub open spec fn names_special_scheme(lower: Seq<char>) -> bool {
    ||| starts_with(lower, mailto_prefix())
    ||| starts_with(lower, data_prefix())
    ||| starts_with(lower, javascript_prefix())
    ||| starts_with(lower, tel_prefix())
}

fn special_scheme(t: &Vec<char>) -> (r: bool)
    ensures
        r == names_special_scheme(lowercase(t@)),
{
    let mailto = vec!['m', 'a', 'i', 'l', 't', 'o', ':'];
    let data = vec!['d', 'a', 't', 'a', ':'];
    let javascript = vec!['j', 'a', 'v', 'a', 's', 'c', 'r', 'i', 'p', 't', ':'];
    let tel = vec!['t', 'e', 'l', ':'];
    assert(mailto@ == mailto_prefix());
    assert(data@ == data_prefix());
    assert(javascript@ == javascript_prefix());
    assert(tel@ == tel_prefix());
    lower_starts_with(t, &mailto) || lower_starts_with(t, &data) || lower_starts_with(
        t,
        &javascript,
    ) || lower_starts_with(t, &tel)
}

// ---------------------------------------------------------------------------
// Scope qualifiers
// ---------------------------------------------------------------------------

/// What `char::is_alphanumeric` returns for `c` (the Unicode `Alphabetic` or
/// `Numeric` property).
pub uninterp spec fn unicode_alphanumeric(c: char) -> bool;

/// `char::is_alphanumeric`. Its result is named, not stated: the Unicode
/// tables it consults are not written out here.
#[verifier::external_body]
fn is_alphanumeric(c: char) -> (r: bool)
    ensures
        r == unicode_alphanumeric(c),
{
    c.is_alphanumeric()
}

/// A character allowed in a `[workspace/]project` scope qualifier.
pub open spec fn scope_char(c: char) -> bool {
    unicode_alphanumeric(c) || c == '-' || c == '_' || c == '/' || c == '.'
}

pub open spec fn all_scope_chars(s: Seq<char>) -> bool {
    forall|j: int| 0 <= j < s.len() ==> #[trigger] scope_char(s[j])
}

fn all_scope_chars_exec(s: &Vec<char>) -> (r: bool)
    ensures
        r == all_scope_chars(s@),
{
    let mut i: usize = 0;
    while i < s.len()
        invariant
            i <= s.len(),
            forall|j: int| 0 <= j < i ==> #[trigger] scope_char(s@[j]),
        decreases s.len() - i,
    {
        let c = s[i];
        if !(is_alphanumeric(c) || c == '-' || c == '_' || c == '/' || c == '.') {
            assert(!scope_char(s@[i as int]));
            return false;
        }
        i += 1;
    }
    true
}

/// The split of a wikilink target into an optional `[workspace/]project:`
/// scope and the rest. A target that contains `://` or starts with a
/// special scheme carries no scope, and neither does one whose qualifier is
/// empty or holds other characters than scope characters.
pub open spec fn split_scope_spec(t: Seq<char>) -> KeyView {
    let plain = local_key(t);
    if contains(t, scheme_sep()) || names_special_scheme(lowercase(t)) {
        plain
    } else {
        match find_char(t, ':') {
            None => plain,
            Some(i) => {
                let scope = trim(t.take(i));
                let rest = trim(t.skip(i + 1));
                if scope.len() > 0 && all_scope_chars(scope) {
                    match find_char(scope, '/') {
                        Some(j) => {
                            let project = trim(scope.skip(j + 1));
                            if project.len() > 0 {
                                KeyView {
                                    workspace: Some(trim(scope.take(j))),
                                    project: Some(project),
                                    path: rest,
                                }
                            } else {
                                plain
                            }
                        },
                        None => KeyView { workspace: None, project: Some(scope), path: rest },
                    }
                } else {
                    plain
                }
            },
        }
    }
}

pub fn split_scope_chars(t: &Vec<char>) -> (r: Key)
    ensures
        r@ == split_scope_spec(t@),
{
    let sep = scheme_sep_exec();
    if contains_exec(t, &sep) || special_scheme(t) {
        return Key { workspace: None, project: None, path: copy_chars(t) };
    }
    proof {
        lemma_find_char(t@, ':');
    }
    match find_char_exec(t, ':') {
        None => Key { workspace: None, project: None, path: copy_chars(t) },
        Some(i) => {
            assert(i < t.len());
            let head = slice_of(t, 0, i);
            assert(head@ =~= t@.take(i as int));
            let scope = trim_ws(&head);
            let tail = slice_of(t, i + 1, t.len());
            assert(tail@ =~= t@.skip(i + 1));
            if scope.len() > 0 && all_scope_chars_exec(&scope) {
                proof {
                    lemma_find_char(scope@, '/');
                }
                match find_char_exec(&scope, '/') {
                    Some(j) => {
                        let ws_raw = slice_of(&scope, 0, j);
                        assert(ws_raw@ =~= scope@.take(j as int));
                        let proj_raw = slice_of(&scope, j + 1, scope.len());
                        assert(proj_raw@ =~= scope@.skip(j + 1));
                        let project = trim_ws(&proj_raw);
                        if project.len() > 0 {
                            return Key {
                                workspace: Some(trim_ws(&ws_raw)),
                                project: Some(project),
                                path: trim_ws(&tail),
                            };
                        }
                    },
                    None => {
                        return Key { workspace: None, project: Some(scope), path: trim_ws(&tail) };
                    },
                }
            }
            Key { workspace: None, project: None, path: copy_chars(t) }
        },
    }
}

/// The characters of an optional string.
pub fn opt_string(o: Option<Vec<char>>) -> (r: Option<String>)
    ensures
        match r {
            Some(s) => o matches Some(v) && s@ == v@,
            None => o is None,
        },
{
    match o {
        Some(v) => Some(crate::text::string_of(&v)),
        None => None,
    }
}

/// Split an optional `[workspace/]project:` scope qualifier off the front of
/// a wikilink target: `(workspace, project, rest)`.
pub fn split_scope(target: &str) -> (r: (Option<String>, Option<String>, String))
    ensures
        ({
            let k = split_scope_spec(target@);
            &&& crate::page::opt_chars(r.0) == k.workspace
            &&& crate::page::opt_chars(r.1) == k.project
            &&& r.2@ == k.path
        }),
{
    let t = crate::text::chars_of(target);
    let k = split_scope_chars(&t);
    let ws = opt_string(k.workspace);
    let pj = opt_string(k.project);
    (ws, pj, crate::text::string_of(&k.path))
}

// ---------------------------------------------------------------------------
// URI schemes
// ---------------------------------------------------------------------------

/// A character allowed after the first character of an RFC 3986 scheme.
pub open spec fn scheme_char(c: char) -> bool {
    is_ascii_alnum(c) || c == '+' || c == '-' || c == '.'
}

/// Whether `t` starts with an RFC 3986 scheme and its `:`: an ASCII letter,
/// then ASCII letters, digits, `+`, `-` or `.`.
pub open spec fn has_uri_scheme_spec(t: Seq<char>) -> bool {
    match find_char(t, ':') {
        None => false,
        Some(i) => i > 0 && is_ascii_alpha(t[0]) && forall|j: int|
            1 <= j < i ==> #[trigger] scheme_char(t[j]),
    }
}

pub fn has_uri_scheme_chars(t: &Vec<char>) -> (r: bool)
    ensures
        r == has_uri_scheme_spec(t@),
{
    proof {
        lemma_find_char(t@, ':');
    }
    match find_char_exec(t, ':') {
        None => false,
        Some(i) => {
            if i == 0 || !ascii_alpha(t[0]) {
                return false;
            }
            let mut j: usize = 1;
            while j < i
                invariant
                    1 <= j <= i < t.len(),
                    find_char(t@, ':') == Some(i as int),
                    is_ascii_alpha(t@[0]),
                    forall|m: int| 1 <= m < j ==> #[trigger] scheme_char(t@[m]),
                decreases i - j,
            {
                let c = t[j];
                if !(ascii_alnum(c) || c == '+' || c == '-' || c == '.') {
                    assert(!scheme_char(t@[j as int]));
                    return false;
                }
                j += 1;
            }
            true
        },
    }
}

/// True when `target` starts with an RFC 3986 URI scheme (`scheme:`).
pub fn has_uri_scheme(target: &str) -> (r: bool)
    ensures
        r == has_uri_scheme_spec(target@),
{
    let t = crate::text::chars_of(target);
    has_uri_scheme_chars(&t)
}

// ---------------------------------------------------------------------------
// Relative resolution
// ---------------------------------------------------------------------------

/// The non-empty parts of `ps`, in order.
pub open spec fn nonempty_parts(ps: Seq<Seq<char>>) -> Seq<Seq<char>>
    decreases ps.len(),
{
    if ps.len() == 0 {
        ps
    } else {
        let prev = nonempty_parts(ps.drop_last());
        if ps.last().len() > 0 {
            prev.push(ps.last())
        } else {
            prev
        }
    }
}

/// The directory segments of a page path (everything before its last `/`).
pub open spec fn base_dir_parts(page: Seq<char>) -> Seq<Seq<char>> {
    match rfind_char(page, '/') {
        Some(i) => nonempty_parts(split_on(page.take(i), '/')),
        None => Seq::empty(),
    }
}

/// One segment of a relative path applied to a stack of directories: empty
/// and `.` segments change nothing, `..` pops (and fails on an empty
/// stack), anything else is pushed.
pub open spec fn walk_step(parts: Option<Seq<Seq<char>>>, seg: Seq<char>) -> Option<
    Seq<Seq<char>>,
> {
    match parts {
        None => None,
        Some(p) => if seg.len() == 0 || seg == seq!['.'] {
            Some(p)
        } else if seg == seq!['.', '.'] {
            if p.len() == 0 {
                None
            } else {
                Some(p.drop_last())
            }
        } else {
            Some(p.push(seg))
        },
    }
}

/// The segments `segs` applied in order, starting from `base`.
pub open spec fn walk(base: Seq<Seq<char>>, segs: Seq<Seq<char>>) -> Option<Seq<Seq<char>>>
    decreases segs.len(),
{
    if segs.len() == 0 {
        Some(base)
    } else {
        walk_step(walk(base, segs.drop_last()), segs.last())
    }
}

/// `target` resolved against the directory of `page` (or against the wiki
/// root when `root_relative` holds or `target` starts with `/`); nothing
/// when it climbs above the root or resolves to the root itself.
pub open spec fn resolve_relative_spec(page: Seq<char>, target: Seq<char>, root_relative: bool) -> Option<
    Seq<char>,
> {
    let base = if root_relative || starts_with(target, seq!['/']) {
        Seq::empty()
    } else {
        base_dir_parts(page)
    };
    match walk(base, split_on(trim_start_in(target, CharClass::Exactly('/')), '/')) {
        Some(ps) => if ps.len() > 0 {
            Some(join_on(ps, '/'))
        } else {
            None
        },
        None => None,
    }
}

fn base_dir_parts_exec(page: &Vec<char>) -> (r: Vec<Vec<char>>)
    ensures
        views(r@) == base_dir_parts(page@),
{
    proof {
        lemma_rfind_char(page@, '/');
    }
    match rfind_char_exec(page, '/') {
        None => {
            let r: Vec<Vec<char>> = Vec::new();
            assert(views(r@) =~= Seq::<Seq<char>>::empty());
            r
        },
        Some(i) => {
            let dir = slice_of(page, 0, i);
            assert(dir@ =~= page@.take(i as int));
            let segs = split_exec(&dir, '/');
            let mut r: Vec<Vec<char>> = Vec::new();
            let mut k: usize = 0;
            assert(views(segs@).take(0) =~= Seq::<Seq<char>>::empty());
            assert(views(r@) =~= Seq::<Seq<char>>::empty());
            while k < segs.len()
                invariant
                    k <= segs.len(),
                    views(segs@) == split_on(dir@, '/'),
                    views(r@) == nonempty_parts(views(segs@).take(k as int)),
                decreases segs.len() - k,
            {
                assert(views(segs@).take(k + 1).drop_last() =~= views(segs@).take(k as int));
                assert(views(segs@).take(k + 1).last() == segs@[k as int]@);
                if segs[k].len() > 0 {
                    let ghost before = r@;
                    r.push(copy_chars(&segs[k]));
                    assert(views(r@) =~= views(before).push(segs@[k as int]@));
                }
                k += 1;
            }
            assert(views(segs@).take(segs.len() as int) =~= views(segs@));
            r
        },
    }
}

/// The result of one walk step on an exec stack of directories.
fn walk_step_exec(parts: &mut Vec<Vec<char>>, seg: &Vec<char>) -> (ok: bool)
    ensures
        ok ==> walk_step(Some(views(old(parts)@)), seg@) == Some(views(final(parts)@)),
        !ok ==> walk_step(Some(views(old(parts)@)), seg@) is None,
{
    let dot = vec!['.'];
    let dots = vec!['.', '.'];
    assert(dot@ == seq!['.']);
    assert(dots@ == seq!['.', '.']);
    if seg.len() == 0 || same_chars(seg, &dot) {
        true
    } else if same_chars(seg, &dots) {
        if parts.len() == 0 {
            false
        } else {
            let ghost before = parts@;
            parts.pop();
            assert(views(parts@) =~= views(before).drop_last());
            true
        }
    } else {
        let ghost before = parts@;
        parts.push(copy_chars(seg));
        assert(views(parts@) =~= views(before).push(seg@));
        true
    }
}

pub fn resolve_relative(page: &Vec<char>, target: &Vec<char>, root_relative: bool) -> (r: Option<
    Vec<char>,
>)
    ensures
        match r {
            Some(v) => resolve_relative_spec(page@, target@, root_relative) == Some(v@),
            None => resolve_relative_spec(page@, target@, root_relative) is None,
        },
{
    let slash = vec!['/'];
    assert(slash@ == seq!['/']);
    let mut parts: Vec<Vec<char>> = if root_relative || crate::text::starts_with_exec(
        target,
        &slash,
    ) {
        let e: Vec<Vec<char>> = Vec::new();
        assert(views(e@) =~= Seq::<Seq<char>>::empty());
        e
    } else {
        base_dir_parts_exec(page)
    };
    let ghost base = views(parts@);
    let stripped = trim_start_of(target, CharClass::Exactly('/'));
    let segs = split_exec(&stripped, '/');
    let mut k: usize = 0;
    assert(views(segs@).take(0) =~= Seq::<Seq<char>>::empty());
    while k < segs.len()
        invariant
            k <= segs.len(),
            views(segs@) == split_on(stripped@, '/'),
            stripped@ == trim_start_in(target@, CharClass::Exactly('/')),
            base == (if root_relative || starts_with(target@, seq!['/']) {
                Seq::<Seq<char>>::empty()
            } else {
                base_dir_parts(page@)
            }),
            walk(base, views(segs@).take(k as int)) == Some(views(parts@)),
        decreases segs.len() - k,
    {
        assert(views(segs@).take(k + 1).drop_last() =~= views(segs@).take(k as int));
        assert(views(segs@).take(k + 1).last() == segs@[k as int]@);
        let ok = walk_step_exec(&mut parts, &segs[k]);
        if !ok {
            assert(walk(base, views(segs@).take(k + 1)) is None);
            proof {
                lemma_walk_none_extends(base, views(segs@), k as int + 1);
            }
            assert(walk(base, views(segs@)) is None);
            assert(resolve_relative_spec(page@, target@, root_relative) is None);
            return None;
        }
        k += 1;
    }
    assert(views(segs@).take(segs.len() as int) =~= views(segs@));
    if parts.len() > 0 {
        Some(join_exec(&parts, '/'))
    } else {
        None
    }
}

/// A join of pieces ends with whatever its last piece ends with.
pub proof fn join_on_ends(parts: Seq<Seq<char>>, c: char, suffix: Seq<char>)
    requires
        parts.len() >= 1,
        ends_with(parts.last(), suffix),
    ensures
        ends_with(join_on(parts, c), suffix),
{
    if parts.len() > 1 {
        let a = join_on(parts.drop_last(), c).push(c);
        let b = parts.last();
        assert((a + b).skip((a + b).len() - suffix.len()) =~= b.skip(b.len() - suffix.len()));
    }
}

/// Once a walk fails, every longer walk fails.
pub proof fn lemma_walk_none_extends(base: Seq<Seq<char>>, segs: Seq<Seq<char>>, k: int)
    requires
        0 <= k <= segs.len(),
        walk(base, segs.take(k)) is None,
    ensures
        walk(base, segs) is None,
    decreases segs.len() - k,
{
    if k < segs.len() {
        assert(segs.take(k + 1).drop_last() =~= segs.take(k));
        lemma_walk_none_extends(base, segs, k + 1);
    } else {
        assert(segs.take(k) =~= segs);
    }
}


// ---------------------------------------------------------------------------
// Normalisation
// ---------------------------------------------------------------------------

/// `s` up to the first `c` (all of `s` when there is none).
pub open spec fn before_char(s: Seq<char>, c: char) -> Seq<char> {
    match find_char(s, c) {
        Some(i) => s.take(i),
        None => s,
    }
}

/// `s` after the last `c` (all of `s` when there is none).
pub open spec fn after_last_char(s: Seq<char>, c: char) -> Seq<char> {
    match rfind_char(s, c) {
        Some(i) => s.skip(i + 1),
        None => s,
    }
}

pub open spec fn contains_char(s: Seq<char>, c: char) -> bool {
    find_char(s, c) is Some
}

pub fn before_char_exec(s: &Vec<char>, c: char) -> (r: Vec<char>)
    ensures
        r@ == before_char(s@, c),
{
    proof {
        lemma_find_char(s@, c);
    }
    match find_char_exec(s, c) {
        Some(i) => {
            let r = slice_of(s, 0, i);
            assert(r@ =~= s@.take(i as int));
            r
        },
        None => copy_chars(s),
    }
}

pub fn after_last_char_exec(s: &Vec<char>, c: char) -> (r: Vec<char>)
    ensures
        r@ == after_last_char(s@, c),
{
    proof {
        lemma_rfind_char(s@, c);
    }
    match rfind_char_exec(s, c) {
        Some(i) => {
            assert(i < s.len());
            let r = slice_of(s, i + 1, s.len());
            assert(r@ =~= s@.skip(i + 1));
            r
        },
        None => copy_chars(s),
    }
}

/// The page-extension rule: a last segment with a `.` must end the path
/// in `.md`; an extension-less target gains `.md` (a markdown-link target
/// that ends in `/` does not).
pub open spec fn with_page_ext(t: Seq<char>, wikilink: bool) -> Option<Seq<char>> {
    let last = after_last_char(t, '/');
    if contains_char(last, '.') {
        if ends_with(t, md_ext()) {
            Some(t)
        } else {
            None
        }
    } else if wikilink || last.len() > 0 {
        Some(t + md_ext())
    } else {
        Some(t)
    }
}

/// A raw link destination normalised to a wiki-root-relative page path
/// against the source page `page`; nothing for external URLs, special
/// schemes, (for markdown links) any URI scheme, anchors, backslashes and
/// non-markdown assets.
pub open spec fn normalize_spec(raw: Seq<char>, page: Seq<char>, wikilink: bool) -> Option<
    Seq<char>,
> {
    let target = trim_in(trim_in(trim(raw), CharClass::Exactly('<')), CharClass::Exactly('>'));
    if target.len() == 0 || target[0] == '#' || contains(target, scheme_sep()) {
        None
    } else if names_special_scheme(lowercase(target)) {
        None
    } else if !wikilink && has_uri_scheme_spec(target) {
        None
    } else {
        let t = trim(before_char(before_char(target, '#'), '?'));
        if t.len() == 0 || contains_char(t, '\\') {
            None
        } else {
            match with_page_ext(t, wikilink) {
                Some(p) => resolve_relative_spec(page, p, wikilink),
                None => None,
            }
        }
    }
}

pub fn normalize_link_target(raw: &Vec<char>, page: &Vec<char>, wikilink: bool) -> (r: Option<
    Vec<char>,
>)
    ensures
        match r {
            Some(v) => normalize_spec(raw@, page@, wikilink) == Some(v@),
            None => normalize_spec(raw@, page@, wikilink) is None,
        },
{
    let t0 = trim_ws(raw);
    let t1 = trim_of(&t0, CharClass::Exactly('<'));
    let target = trim_of(&t1, CharClass::Exactly('>'));
    let sep = scheme_sep_exec();
    if target.len() == 0 || target[0] == '#' || contains_exec(&target, &sep) {
        return None;
    }
    if special_scheme(&target) {
        return None;
    }
    if !wikilink && has_uri_scheme_chars(&target) {
        return None;
    }
    let no_anchor = before_char_exec(&target, '#');
    let no_query = before_char_exec(&no_anchor, '?');
    let t = trim_ws(&no_query);
    if t.len() == 0 || find_char_exec(&t, '\\').is_some() {
        return None;
    }
    let last = after_last_char_exec(&t, '/');
    let md = md_ext_exec();
    let with_ext = if find_char_exec(&last, '.').is_some() {
        if ends_with_exec(&t, &md) {
            t
        } else {
            return None;
        }
    } else if wikilink || last.len() > 0 {
        concat(&t, &md)
    } else {
        t
    };
    resolve_relative(page, &with_ext, wikilink)
}

} // verus!
