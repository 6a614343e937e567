//! Outgoing-link extraction: `[[wikilinks]]` outside code, ordinary
//! markdown links from the CommonMark parse, and typed `relations:` edges.
use vstd::prelude::*;
use crate::cmark::{EventView, MdEvent, cmark_events, event_views, parse_events};
use crate::keys::{KeySet, key_lt, key_set, key_views, strictly_sorted};
use crate::json::{Json, get, json_get};
use crate::page::{LinkTarget, LinkView, PagePath, Relation, link_views, relation_named, valid_page_path};
use crate::target::{
    Key, KeyView, after_last_char, after_last_char_exec, before_char, before_char_exec,
    contains_char, local_key, md_ext, md_ext_exec, normalize_link_target, normalize_spec,
    opt_string, split_scope_chars, split_scope_spec,
};
use crate::text::{
    char_index_at, char_index_of, chars_of, concat, ends_with, ends_with_exec, find, find_char,
    find_char_exec, find_exec, lemma_find, lemma_find_char, lines,
    lines_exec, slice_of, trim, trim_ws, views,
};

verus! {

pub open spec fn wikilink_open() -> Seq<char> {
    seq!['[', '[']
}

pub open spec fn wikilink_close() -> Seq<char> {
    seq![']', ']']
}

/// The key of the wikilink whose text between `[[` and `]]` is `raw`: the
/// `|label` dropped, the scope peeled off, the rest normalised as a
/// wikilink target against `page`.
pub open spec fn wikilink_key(raw: Seq<char>, page: Seq<char>) -> Option<KeyView> {
    let k = split_scope_spec(trim(before_char(raw, '|')));
    match normalize_spec(k.path, page, true) {
        Some(p) => Some(KeyView { workspace: k.workspace, project: k.project, path: p }),
        None => None,
    }
}

pub open spec fn with_opt(s: Set<KeyView>, o: Option<KeyView>) -> Set<KeyView> {
    match o {
        Some(k) => s.insert(k),
        None => s,
    }
}

/// The keys of the `[[...]]` wikilinks of one line, scanned left to right:
/// each `[[` pairs with the first `]]` after it, and the scan stops at a
/// `[[` that has none.
pub open spec fn line_keys(line: Seq<char>, page: Seq<char>) -> Set<KeyView>
    decreases line.len(),
{
    match find(line, wikilink_open()) {
        None => Set::empty(),
        Some(st) => {
            let after = line.skip(st + 2);
            match find(after, wikilink_close()) {
                None => Set::empty(),
                Some(e) => {
                    proof {
                        lemma_find(line, wikilink_open());
                        lemma_find(after, wikilink_close());
                    }
                    with_opt(line_keys(after.skip(e + 2), page), wikilink_key(after.take(e), page))
                },
            }
        },
    }
}

/// The wikilink keys of a sequence of lines.
pub open spec fn keys_in_lines(ls: Seq<Seq<char>>, page: Seq<char>) -> Set<KeyView>
    decreases ls.len(),
{
    if ls.len() == 0 {
        Set::empty()
    } else {
        keys_in_lines(ls.drop_last(), page).union(line_keys(ls.last(), page))
    }
}

/// The wikilink keys of a stretch of text, line by line.
pub open spec fn text_keys(t: Seq<char>, page: Seq<char>) -> Set<KeyView> {
    keys_in_lines(lines(t), page)
}

fn wikilink_key_exec(raw: &Vec<char>, page: &Vec<char>) -> (r: Option<Key>)
    ensures
        match r {
            Some(k) => wikilink_key(raw@, page@) == Some(k@),
            None => wikilink_key(raw@, page@) is None,
        },
{
    let unlabelled = trim_ws(&before_char_exec(raw, '|'));
    let k = split_scope_chars(&unlabelled);
    match normalize_link_target(&k.path, page, true) {
        Some(p) => Some(Key { workspace: k.workspace, project: k.project, path: p }),
        None => None,
    }
}

fn line_keys_exec(line: &Vec<char>, page: &Vec<char>, out: &mut KeySet)
    requires
        old(out).wf(),
    ensures
        final(out).wf(),
        final(out).view_set() == old(out).view_set().union(line_keys(line@, page@)),
{
    let ghost goal = old(out).view_set().union(line_keys(line@, page@));
    let open = vec!['[', '['];
    let close = vec![']', ']'];
    assert(open@ == wikilink_open());
    assert(close@ == wikilink_close());
    let mut rest = slice_of(line, 0, line.len());
    assert(rest@ =~= line@);
    loop
        invariant
            out.wf(),
            open@ == wikilink_open(),
            close@ == wikilink_close(),
            out.view_set().union(line_keys(rest@, page@)) == goal,
            goal == old(out).view_set().union(line_keys(line@, page@)),
        decreases rest.len(),
    {
        proof {
            lemma_find(rest@, wikilink_open());
        }
        let st = match find_exec(&rest, &open) {
            Some(st) => st,
            None => {
                assert(line_keys(rest@, page@) == Set::<KeyView>::empty());
                assert(out.view_set().union(Set::empty()) =~= out.view_set());
                return;
            },
        };
        let after = slice_of(&rest, st + 2, rest.len());
        assert(after@ =~= rest@.skip(st + 2));
        proof {
            lemma_find(after@, wikilink_close());
        }
        let e = match find_exec(&after, &close) {
            Some(e) => e,
            None => {
                assert(line_keys(rest@, page@) == Set::<KeyView>::empty());
                assert(out.view_set().union(Set::empty()) =~= out.view_set());
                return;
            },
        };
        let raw = slice_of(&after, 0, e);
        assert(raw@ =~= after@.take(e as int));
        let next = slice_of(&after, e + 2, after.len());
        assert(next@ =~= after@.skip(e + 2));
        let ghost before = out.view_set();
        let ghost key = wikilink_key(raw@, page@);
        match wikilink_key_exec(&raw, page) {
            Some(k) => {
                out.insert(k);
            },
            None => {},
        }
        assert(out.view_set().union(line_keys(next@, page@)) =~= before.union(
            line_keys(rest@, page@),
        ));
        rest = next;
    }
}

/// Adds the wikilink keys of the text `t` to `out`.
pub fn text_keys_exec(t: &Vec<char>, page: &Vec<char>, out: &mut KeySet)
    requires
        old(out).wf(),
    ensures
        final(out).wf(),
        final(out).view_set() == old(out).view_set().union(text_keys(t@, page@)),
{
    let ls = lines_exec(t);
    let ghost start = out.view_set();
    let mut i: usize = 0;
    assert(views(ls@).take(0) =~= Seq::<Seq<char>>::empty());
    assert(start.union(Set::empty()) =~= start);
    while i < ls.len()
        invariant
            i <= ls.len(),
            out.wf(),
            views(ls@) == lines(t@),
            out.view_set() == start.union(keys_in_lines(views(ls@).take(i as int), page@)),
        decreases ls.len() - i,
    {
        assert(views(ls@).take(i + 1).drop_last() =~= views(ls@).take(i as int));
        assert(views(ls@).take(i + 1).last() == ls@[i as int]@);
        let ghost before = out.view_set();
        line_keys_exec(&ls[i], page, out);
        assert(out.view_set() =~= start.union(keys_in_lines(views(ls@).take(i + 1), page@)));
        i += 1;
    }
    assert(views(ls@).take(ls.len() as int) =~= views(ls@));
}


// ---------------------------------------------------------------------------
// The event walk
// ---------------------------------------------------------------------------

/// The state of the walk over the parse events: the keys found so far, the
/// character index up to which text has been scanned for wikilinks, and the
/// start of an open code block.
pub struct ScanState {
    pub keys: Set<KeyView>,
    pub cursor: int,
    pub block: Option<int>,
}

/// `body[from..to]`, empty when `to` comes before `from`.
pub open spec fn segment(body: Seq<char>, from: int, to: int) -> Seq<char> {
    if from <= to {
        body.subrange(from, to)
    } else {
        Seq::empty()
    }
}

/// One event applied to the walk. Text before a code block or code span is
/// scanned for wikilinks and the code itself is skipped; a resolved link
/// whose destination normalises to a page adds a local key.
pub open spec fn scan_step(body: Seq<char>, page: Seq<char>, st: ScanState, ev: EventView) -> ScanState {
    match ev {
        EventView::CodeBlockStart(off) => ScanState {
            keys: st.keys,
            cursor: st.cursor,
            block: Some(char_index_at(body, off as int)),
        },
        EventView::CodeBlockEnd(off) => match st.block {
            Some(start) => ScanState {
                keys: st.keys.union(text_keys(segment(body, st.cursor, start), page)),
                cursor: char_index_at(body, off as int),
                block: None,
            },
            None => st,
        },
        EventView::Code(a, b) => ScanState {
            keys: st.keys.union(text_keys(segment(body, st.cursor, char_index_at(body, a as int)), page)),
            cursor: char_index_at(body, b as int),
            block: st.block,
        },
        EventView::Link(unresolved, dest) => if unresolved {
            st
        } else {
            match normalize_spec(dest, page, false) {
                Some(p) => ScanState { keys: st.keys.insert(local_key(p)), cursor: st.cursor, block: st.block },
                None => st,
            }
        },
        EventView::Other => st,
    }
}

/// The walk over all of `evs`.
pub open spec fn scan(body: Seq<char>, page: Seq<char>, evs: Seq<EventView>) -> ScanState
    decreases evs.len(),
{
    if evs.len() == 0 {
        ScanState { keys: Set::empty(), cursor: 0, block: None }
    } else {
        scan_step(body, page, scan(body, page, evs.drop_last()), evs.last())
    }
}

/// The keys of the links of `body` given its parse events: those the walk
/// found plus the wikilinks of the text after the last code region.
pub open spec fn body_keys(body: Seq<char>, page: Seq<char>, evs: Seq<EventView>) -> Set<KeyView> {
    let st = scan(body, page, evs);
    st.keys.union(text_keys(body.skip(st.cursor), page))
}

/// The key of a link target.
pub open spec fn key_of(t: LinkView) -> KeyView {
    KeyView { workspace: t.workspace, project: t.project, path: t.path }
}

/// Whether some target of `r` has the key `k`.
pub open spec fn lists_key(r: Seq<LinkView>, k: KeyView) -> bool {
    exists|i: int| 0 <= i < r.len() && key_of(r[i]) == k
}

/// Whether `k` is among the first `n` keys of `kv` and its path is valid.
pub open spec fn valid_key_among(kv: Seq<KeyView>, n: int, k: KeyView) -> bool {
    (exists|m: int| 0 <= m < n && kv[m] == k) && valid_page_path(k.path)
}

/// `r` lists, in increasing key order and once each, the keys of `ks` whose
/// path is a valid page path, as untyped links.
pub open spec fn lists_sorted_keys(r: Seq<LinkView>, ks: Set<KeyView>) -> bool {
    &&& forall|i: int| 0 <= i < r.len() ==> (#[trigger] r[i]).relation is None
    &&& forall|i: int, j: int| 0 <= i < j < r.len() ==> key_lt(key_of(#[trigger] r[i]), key_of(#[trigger] r[j]))
    &&& forall|k: KeyView| #[trigger] lists_key(r, k) <==> (ks.contains(k) && valid_page_path(k.path))
}

pub open spec fn opt_int(o: Option<usize>) -> Option<int> {
    match o {
        Some(v) => Some(v as int),
        None => None,
    }
}

/// The link targets of a body given its parse events, against the source
/// page `page_path`.
pub fn links_from_events(body: &str, events: &Vec<MdEvent>, page_path: &PagePath) -> (r: Vec<LinkTarget>)
    ensures
        lists_sorted_keys(link_views(r@), body_keys(body@, page_path@, event_views(events@))),
{
    let text = chars_of(body);
    let page = page_path.chars();
    let ghost evs = event_views(events@);
    let mut out = KeySet::new();
    let mut cursor: usize = 0;
    let mut block: Option<usize> = None;
    let mut i: usize = 0;
    assert(evs.take(0) =~= Seq::<EventView>::empty());
    assert(out.view_set() =~= Set::<KeyView>::empty());
    while i < events.len()
        invariant
            i <= events.len(),
            evs == event_views(events@),
            text@ == body@,
            page@ == page_path@,
            out.wf(),
            cursor <= text.len(),
            block matches Some(b) ==> b <= text.len(),
            scan(text@, page@, evs.take(i as int)) == (ScanState { keys: out.view_set(), cursor: cursor as int, block: opt_int(block) }),
        decreases events.len() - i,
    {
        assert(evs.take(i + 1).drop_last() =~= evs.take(i as int));
        assert(evs.take(i + 1).last() == events@[i as int]@);
        match &events[i] {
            MdEvent::CodeBlockStart(off) => {
                let k = char_index_of(&text, *off);
                block = Some(k);
            },
            MdEvent::CodeBlockEnd(off) => {
                if let Some(start) = block {
                    if cursor <= start {
                        let seg = slice_of(&text, cursor, start);
                        text_keys_exec(&seg, &page, &mut out);
                    } else {
                        let seg: Vec<char> = Vec::new();
                        assert(seg@ =~= segment(text@, cursor as int, start as int));
                        text_keys_exec(&seg, &page, &mut out);
                    }
                    cursor = char_index_of(&text, *off);
                    block = None;
                }
            },
            MdEvent::Code(a, b) => {
                let start = char_index_of(&text, *a);
                if cursor <= start {
                    let seg = slice_of(&text, cursor, start);
                    text_keys_exec(&seg, &page, &mut out);
                } else {
                    let seg: Vec<char> = Vec::new();
                    assert(seg@ =~= segment(text@, cursor as int, start as int));
                    text_keys_exec(&seg, &page, &mut out);
                }
                cursor = char_index_of(&text, *b);
            },
            MdEvent::Link { unresolved, dest } => {
                if !*unresolved {
                    let d = chars_of(dest.as_str());
                    match normalize_link_target(&d, &page, false) {
                        Some(p) => {
                            let ghost pv = p@;
                            out.insert(Key { workspace: None, project: None, path: p });
                            assert(local_key(pv) == (Key { workspace: None, project: None, path: p })@);
                        },
                        None => {},
                    }
                }
            },
            MdEvent::Other => {},
        }
        i += 1;
    }
    assert(evs.take(events.len() as int) =~= evs);
    let tail = slice_of(&text, cursor, text.len());
    assert(tail@ =~= text@.skip(cursor as int));
    text_keys_exec(&tail, &page, &mut out);
    targets_of_keys(&out)
}

/// The keys of `set` whose path is a valid page path, in order, as untyped
/// link targets.
fn targets_of_keys(set: &KeySet) -> (r: Vec<LinkTarget>)
    requires
        set.wf(),
    ensures
        lists_sorted_keys(link_views(r@), set.view_set()),
{
    let ghost kv = key_views(set.keys@);
    let mut r: Vec<LinkTarget> = Vec::new();
    let mut i: usize = 0;
    while i < set.keys.len()
        invariant
            i <= set.keys.len(),
            kv == key_views(set.keys@),
            strictly_sorted(kv),
            forall|a: int| 0 <= a < r.len() ==> (#[trigger] link_views(r@)[a]).relation is None,
            forall|a: int, b: int| 0 <= a < b < r.len() ==> key_lt(key_of(#[trigger] link_views(r@)[a]), key_of(#[trigger] link_views(r@)[b])),
            forall|k: KeyView| #[trigger] lists_key(link_views(r@), k) <==> valid_key_among(kv, i as int, k),
        decreases set.keys.len() - i,
    {
        let k = &set.keys[i];
        assert(kv[i as int] == k@);
        let ghost before = link_views(r@);
        match PagePath::from_chars(&k.path) {
            Ok(p) => {
                let t = LinkTarget {
                    workspace: opt_string(copy_opt(&k.workspace)),
                    project: opt_string(copy_opt(&k.project)),
                    path: p,
                    relation: None,
                };
                assert(key_of(t@) == k@);
                r.push(t);
                assert(link_views(r@) =~= before.push(t@));
                assert forall|a: int| 0 <= a < before.len() implies key_lt(key_of(#[trigger] before[a]), k@) by {
                    assert(lists_key(before, key_of(before[a])));
                    let m = choose|m: int| 0 <= m < i && kv[m] == key_of(before[a]);
                    assert(key_lt(kv[m], kv[i as int]));
                }
                assert forall|x: KeyView| #[trigger] lists_key(link_views(r@), x) <==> valid_key_among(kv, i + 1, x) by {
                    if lists_key(link_views(r@), x) {
                        let a = choose|a: int| 0 <= a < r.len() && key_of(link_views(r@)[a]) == x;
                        if a < before.len() {
                            assert(lists_key(before, x));
                            let m = choose|m: int| 0 <= m < i && kv[m] == x;
                            assert(valid_key_among(kv, i + 1, x));
                        } else {
                            assert(kv[i as int] == x);
                            assert(valid_key_among(kv, i + 1, x));
                        }
                    }
                    if valid_key_among(kv, i + 1, x) {
                        let m = choose|m: int| 0 <= m < i + 1 && kv[m] == x;
                        if m < i {
                            assert(valid_key_among(kv, i as int, x));
                            assert(lists_key(before, x));
                            let a = choose|a: int| 0 <= a < before.len() && key_of(before[a]) == x;
                            assert(key_of(link_views(r@)[a]) == x);
                        } else {
                            assert(key_of(link_views(r@)[before.len() as int]) == x);
                        }
                    }
                }
            },
            Err(_) => {
                assert forall|x: KeyView| #[trigger] lists_key(link_views(r@), x) <==> valid_key_among(kv, i + 1, x) by {
                    if valid_key_among(kv, i + 1, x) {
                        let m = choose|m: int| 0 <= m < i + 1 && kv[m] == x;
                        if m == i {
                            assert(!valid_page_path(k.path@));
                        } else {
                            assert(valid_key_among(kv, i as int, x));
                        }
                    }
                    if valid_key_among(kv, i as int, x) {
                        let m = choose|m: int| 0 <= m < i && kv[m] == x;
                        assert(valid_key_among(kv, i + 1, x));
                    }
                }
            },
        }
        i += 1;
    }
    assert forall|x: KeyView| #[trigger] lists_key(link_views(r@), x) <==> (set.view_set().contains(x) && valid_page_path(x.path)) by {
        assert(valid_key_among(kv, set.keys.len() as int, x) <==> (key_set(kv).contains(x) && valid_page_path(x.path)));
    }
    r
}

fn copy_opt(o: &Option<Vec<char>>) -> (r: Option<Vec<char>>)
    ensures
        crate::target::opt_view(r) == crate::target::opt_view(*o),
{
    match o {
        Some(v) => Some(slice_of(v, 0, v.len())),
        None => None,
    }
}

/// Extract the internal links of a markdown body, normalised to wiki-root
/// -relative targets against the source page: `[[wikilinks]]` (outside code
/// spans and code blocks) and resolved ordinary markdown links, in key order
/// and without duplicates.
pub fn extract_links(body: &str, page_path: &PagePath) -> (r: Vec<LinkTarget>)
    ensures
        lists_sorted_keys(link_views(r@), body_keys(body@, page_path@, cmark_events(body@))),
{
    let events = parse_events(body);
    links_from_events(body, &events, page_path)
}


// ---------------------------------------------------------------------------
// Typed relation edges
// ---------------------------------------------------------------------------

pub open spec fn relations_name() -> Seq<char> {
    seq!['r', 'e', 'l', 'a', 't', 'i', 'o', 'n', 's']
}

/// A relation target split at its first `:` into a scope and a path, and
/// the scope at its first `/` into workspace and project (no trimming).
pub open spec fn scoped_target(t: Seq<char>) -> KeyView {
    match find_char(t, ':') {
        None => local_key(t),
        Some(i) => {
            let scope = t.take(i);
            let path = t.skip(i + 1);
            match find_char(scope, '/') {
                None => KeyView { workspace: None, project: Some(scope), path },
                Some(j) => KeyView {
                    workspace: Some(scope.take(j)),
                    project: Some(scope.skip(j + 1)),
                    path,
                },
            }
        },
    }
}

/// The page path of a relation target's path part: trimmed; an
/// extension-less path gains `.md`; any other extension than `.md`, or an
/// invalid page path, gives none.
pub open spec fn relation_page_path(raw: Seq<char>) -> Option<Seq<char>> {
    let t = trim(raw);
    let normalized = if contains_char(after_last_char(t, '/'), '.') {
        if ends_with(t, md_ext()) {
            Some(t)
        } else {
            None
        }
    } else {
        Some(t + md_ext())
    };
    match normalized {
        Some(p) => if valid_page_path(p) {
            Some(p)
        } else {
            None
        },
        None => None,
    }
}

/// The typed edge that the relation target `t` denotes, if any.
pub open spec fn relation_target(rel: Relation, t: Seq<char>) -> Option<LinkView> {
    let k = scoped_target(t);
    match relation_page_path(k.path) {
        Some(p) => Some(
            LinkView { workspace: k.workspace, project: k.project, path: p, relation: Some(rel) },
        ),
        None => None,
    }
}

pub open spec fn opt_seq(o: Option<LinkView>) -> Seq<LinkView> {
    match o {
        Some(v) => seq![v],
        None => Seq::empty(),
    }
}

/// The edges of a list of relation targets; items that are not strings are
/// skipped.
pub open spec fn relation_items(rel: Relation, items: Seq<Json>) -> Seq<LinkView>
    decreases items.len(),
{
    if items.len() == 0 {
        Seq::empty()
    } else {
        relation_items(rel, items.drop_last()) + match items.last() {
            Json::String(s) => opt_seq(relation_target(rel, s@)),
            _ => Seq::empty(),
        }
    }
}

/// The edges of one `relations:` entry: none for a key outside the relation
/// vocabulary or a value that is not an array.
pub open spec fn relation_entry(key: Seq<char>, v: Json) -> Seq<LinkView> {
    match relation_named(key) {
        None => Seq::empty(),
        Some(rel) => match v {
            Json::Array(items) => relation_items(rel, items@),
            _ => Seq::empty(),
        },
    }
}

pub open spec fn relation_entries(es: Seq<(String, Json)>) -> Seq<LinkView>
    decreases es.len(),
{
    if es.len() == 0 {
        Seq::empty()
    } else {
        relation_entries(es.drop_last()) + relation_entry(es.last().0@, es.last().1)
    }
}

/// The typed edges of a page's frontmatter: its `relations:` object, entry
/// by entry and target by target, in order.
pub open spec fn relation_links_spec(fm: Json) -> Seq<LinkView> {
    match json_get(fm, relations_name()) {
        Some(Json::Object(es)) => relation_entries(es@),
        _ => Seq::empty(),
    }
}

fn relation_target_exec(rel: Relation, t: &Vec<char>) -> (r: Option<LinkTarget>)
    ensures
        match r {
            Some(x) => relation_target(rel, t@) == Some(x@),
            None => relation_target(rel, t@) is None,
        },
{
    proof {
        lemma_find_char(t@, ':');
    }
    let (ws, pj, raw) = match find_char_exec(t, ':') {
        None => (None, None, slice_of(t, 0, t.len())),
        Some(i) => {
            let scope = slice_of(t, 0, i);
            assert(scope@ =~= t@.take(i as int));
            let path = slice_of(t, i + 1, t.len());
            assert(path@ =~= t@.skip(i + 1));
            proof {
                lemma_find_char(scope@, '/');
            }
            match find_char_exec(&scope, '/') {
                None => (None, Some(scope), path),
                Some(j) => {
                    let w = slice_of(&scope, 0, j);
                    assert(w@ =~= scope@.take(j as int));
                    let p = slice_of(&scope, j + 1, scope.len());
                    assert(p@ =~= scope@.skip(j + 1));
                    (Some(w), Some(p), path)
                },
            }
        },
    };
    assert(crate::target::opt_view(ws) == scoped_target(t@).workspace);
    assert(crate::target::opt_view(pj) == scoped_target(t@).project);
    assert(raw@ =~= scoped_target(t@).path);
    let trimmed = trim_ws(&raw);
    let last = after_last_char_exec(&trimmed, '/');
    let md = md_ext_exec();
    let normalized = if find_char_exec(&last, '.').is_some() {
        if ends_with_exec(&trimmed, &md) {
            trimmed
        } else {
            return None;
        }
    } else {
        concat(&trimmed, &md)
    };
    match PagePath::from_chars(&normalized) {
        Ok(path) => Some(
            LinkTarget { workspace: opt_string(ws), project: opt_string(pj), path, relation: Some(rel) },
        ),
        Err(_) => None,
    }
}

fn relation_items_exec(rel: Relation, items: &Vec<Json>, out: &mut Vec<LinkTarget>)
    ensures
        link_views(final(out)@) == link_views(old(out)@) + relation_items(rel, items@),
{
    let ghost start = link_views(out@);
    let mut i: usize = 0;
    assert(items@.take(0) =~= Seq::<Json>::empty());
    assert(start + Seq::<LinkView>::empty() =~= start);
    while i < items.len()
        invariant
            i <= items.len(),
            link_views(out@) == start + relation_items(rel, items@.take(i as int)),
        decreases items.len() - i,
    {
        assert(items@.take(i + 1).drop_last() =~= items@.take(i as int));
        assert(items@.take(i + 1).last() == items@[i as int]);
        let ghost before = link_views(out@);
        match &items[i] {
            Json::String(s) => {
                let t = chars_of(s.as_str());
                match relation_target_exec(rel, &t) {
                    Some(x) => {
                        out.push(x);
                        assert(link_views(out@) =~= before + seq![x@]);
                    },
                    None => {
                        assert(before + Seq::<LinkView>::empty() =~= before);
                    },
                }
            },
            _ => {
                assert(before + Seq::<LinkView>::empty() =~= before);
            },
        }
        assert(link_views(out@) =~= start + relation_items(rel, items@.take(i + 1)));
        i += 1;
    }
    assert(items@.take(items.len() as int) =~= items@);
}

/// Extract typed relation edges from a page's `relations:` frontmatter.
/// Keys outside the relation vocabulary, values that are not arrays, items
/// that are not strings, and targets that are not pages are skipped.
pub fn extract_relation_links(frontmatter: &Json) -> (r: Vec<LinkTarget>)
    ensures
        link_views(r@) == relation_links_spec(*frontmatter),
{
    let mut out: Vec<LinkTarget> = Vec::new();
    let name = vec!['r', 'e', 'l', 'a', 't', 'i', 'o', 'n', 's'];
    assert(name@ == relations_name());
    match get(frontmatter, &name) {
        Some(Json::Object(es)) => {
            let mut i: usize = 0;
            assert(es@.take(0) =~= Seq::<(String, Json)>::empty());
            assert(link_views(out@) =~= Seq::<LinkView>::empty());
            while i < es.len()
                invariant
                    i <= es.len(),
                    link_views(out@) == relation_entries(es@.take(i as int)),
                decreases es.len() - i,
            {
                assert(es@.take(i + 1).drop_last() =~= es@.take(i as int));
                assert(es@.take(i + 1).last() == es@[i as int]);
                let ghost before = link_views(out@);
                let key = chars_of(es[i].0.as_str());
                match Relation::from_chars(&key) {
                    Some(rel) => match &es[i].1 {
                        Json::Array(items) => {
                            relation_items_exec(rel, items, &mut out);
                        },
                        _ => {
                            assert(before + Seq::<LinkView>::empty() =~= before);
                        },
                    },
                    None => {
                        assert(before + Seq::<LinkView>::empty() =~= before);
                    },
                }
                assert(link_views(out@) =~= relation_entries(es@.take(i + 1)));
                i += 1;
            }
            assert(es@.take(es.len() as int) =~= es@);
            out
        },
        _ => {
            assert(link_views(out@) =~= Seq::<LinkView>::empty());
            out
        },
    }
}

/// Body links followed by the typed `relations:` edges: the full outgoing
/// link set of a page.
pub fn extract_all_links(frontmatter: &Json, body: &str, page_path: &PagePath) -> (r: Vec<
    LinkTarget,
>)
    ensures
        ({
            let rel = relation_links_spec(*frontmatter);
            let n = r.len() - rel.len();
            &&& rel.len() <= r.len()
            &&& lists_sorted_keys(link_views(r@).take(n), body_keys(body@, page_path@, cmark_events(body@)))
            &&& link_views(r@).skip(n) == rel
        }),
{
    let mut links = extract_links(body, page_path);
    let ghost body_part = link_views(links@);
    let mut typed = extract_relation_links(frontmatter);
    let ghost typed_part = link_views(typed@);
    links.append(&mut typed);
    assert(link_views(links@) =~= body_part + typed_part);
    assert(link_views(links@).take(body_part.len() as int) =~= body_part);
    assert(link_views(links@).skip(body_part.len() as int) =~= typed_part);
    links
}

} // verus!
