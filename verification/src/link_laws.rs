//! Laws of link extraction, stated over plain inputs.
use vstd::prelude::*;
use crate::cmark::EventView;
use crate::json::{Json, entry_from};
use crate::links::{body_keys, relation_links_spec, relations_name, scan, scan_step, text_keys};
use crate::target::KeyView;
use crate::document_laws::lemma_split_without_sep;
use crate::page::{is_bad_segment, page_path_check, valid_page_path};
use crate::target::{
    after_last_char, base_dir_parts, before_char, contains_char, data_prefix,
    has_uri_scheme_spec, javascript_prefix, mailto_prefix, md_ext, names_special_scheme,
    nonempty_parts, normalize_spec, resolve_relative_spec, scheme_sep, tel_prefix, walk,
    walk_step, with_page_ext,
};
use crate::text::{
    CharClass, ascii_lower, char_index_at, contains, ends_with, find, find_char, in_class,
    is_ascii_alnum, is_white_space, join_on, lemma_char_index_at_bounds, lemma_find,
    lemma_find_char, lemma_rfind_char, lemma_split_on_nonempty, lowercase, occurs_at, rfind_char,
    split_on, starts_with, trim, trim_end_in, trim_in, trim_start_in,
};

verus! {

/// The value of the first entry with `key` is what an object lookup finds.
proof fn lemma_entry_from_first(es: Seq<(String, Json)>, key: Seq<char>, j: int, i: int)
    requires
        0 <= i <= j < es.len(),
        es[j].0@ == key,
        forall|m: int| 0 <= m < j ==> es[m].0@ != key,
    ensures
        entry_from(es, key, i) == Some(es[j].1),
    decreases j - i,
{
    if i < j {
        lemma_entry_from_first(es, key, j, i + 1);
    }
}

/// The edges of a frontmatter object depend only on the value of its
/// `relations` member: two objects whose (first) `relations` entries hold
/// the same value give the same edges, wherever that entry stands and
/// whatever other members surround it.
pub proof fn law_relation_edges_depend_only_on_relations_member(
    es1: Seq<(String, Json)>,
    i: int,
    es2: Seq<(String, Json)>,
    j: int,
    fm1: Json,
    fm2: Json,
)
    requires
        fm1 matches Json::Object(v1) && v1@ == es1,
        fm2 matches Json::Object(v2) && v2@ == es2,
        0 <= i < es1.len(),
        0 <= j < es2.len(),
        es1[i].0@ == relations_name(),
        es2[j].0@ == relations_name(),
        forall|m: int| 0 <= m < i ==> es1[m].0@ != relations_name(),
        forall|m: int| 0 <= m < j ==> es2[m].0@ != relations_name(),
        es1[i].1 == es2[j].1,
    ensures
        relation_links_spec(fm1) == relation_links_spec(fm2),
{
    lemma_entry_from_first(es1, relations_name(), i, 0);
    lemma_entry_from_first(es2, relations_name(), j, 0);
}

/// The walk's keys only grow.
proof fn lemma_scan_keys_grow(body: Seq<char>, page: Seq<char>, evs: Seq<EventView>, k: int)
    requires
        0 <= k <= evs.len(),
    ensures
        scan(body, page, evs.take(k)).keys.subset_of(scan(body, page, evs).keys),
    decreases evs.len() - k,
{
    if k < evs.len() {
        lemma_scan_keys_grow(body, page, evs, k + 1);
        let prev = scan(body, page, evs.take(k));
        assert(evs.take(k + 1).drop_last() =~= evs.take(k));
        let next = scan_step(body, page, prev, evs.take(k + 1).last());
        assert(prev.keys.subset_of(next.keys));
    } else {
        assert(evs.take(k) =~= evs);
    }
}

/// Link and plain events leave the scanned position at the start.
proof fn lemma_scan_no_code(body: Seq<char>, page: Seq<char>, evs: Seq<EventView>)
    requires
        forall|m: int| 0 <= m < evs.len() ==> (#[trigger] evs[m] is Link || evs[m] is Other),
    ensures
        scan(body, page, evs).cursor == 0,
        scan(body, page, evs).block is None,
    decreases evs.len(),
{
    if evs.len() > 0 {
        lemma_scan_no_code(body, page, evs.drop_last());
        assert(evs.last() is Link || evs.last() is Other);
    }
}

/// A wikilink in the text before the first code span is always extracted:
/// when the first code region of the parse is an inline code span starting
/// at byte offset `a`, every wikilink key of the text before it is among the
/// body's keys (a later code span never removes an earlier link).
pub proof fn law_text_before_code_span_is_scanned(
    body: Seq<char>,
    page: Seq<char>,
    evs: Seq<EventView>,
    i: int,
    a: usize,
    b: usize,
)
    requires
        0 <= i < evs.len(),
        evs[i] == EventView::Code(a, b),
        forall|m: int| 0 <= m < i ==> (#[trigger] evs[m] is Link || evs[m] is Other),
    ensures
        text_keys(body.take(char_index_at(body, a as int)), page).subset_of(body_keys(body, page, evs)),
{
    lemma_char_index_at_bounds(body, a as int);
    let pre = evs.take(i);
    assert forall|m: int| 0 <= m < pre.len() implies (#[trigger] pre[m] is Link || pre[m] is Other) by {
        assert(pre[m] == evs[m]);
    }
    lemma_scan_no_code(body, page, pre);
    assert(evs.take(i + 1).drop_last() =~= pre);
    assert(evs.take(i + 1).last() == evs[i]);
    let ci = char_index_at(body, a as int);
    assert(body.subrange(0, ci) =~= body.take(ci));
    lemma_scan_keys_grow(body, page, evs, i + 1);
}

/// A wikilink in the text before the first code block is always extracted.
pub proof fn law_text_before_code_block_is_scanned(
    body: Seq<char>,
    page: Seq<char>,
    evs: Seq<EventView>,
    i: int,
    k: int,
    a: usize,
    e: usize,
)
    requires
        0 <= i < k < evs.len(),
        evs[i] == EventView::CodeBlockStart(a),
        evs[k] == EventView::CodeBlockEnd(e),
        forall|m: int| 0 <= m < k && m != i ==> (#[trigger] evs[m] is Link || evs[m] is Other),
    ensures
        text_keys(body.take(char_index_at(body, a as int)), page).subset_of(body_keys(body, page, evs)),
{
    lemma_char_index_at_bounds(body, a as int);
    let ci = char_index_at(body, a as int);
    let pre = evs.take(i);
    assert forall|m: int| 0 <= m < pre.len() implies (#[trigger] pre[m] is Link || pre[m] is Other) by {
        assert(pre[m] == evs[m]);
    }
    lemma_scan_no_code(body, page, pre);
    assert(evs.take(i + 1).drop_last() =~= pre);
    lemma_block_stays_open(body, page, evs, i, k, ci);
    let st = scan(body, page, evs.take(k));
    assert(evs.take(k + 1).drop_last() =~= evs.take(k));
    assert(evs.take(k + 1).last() == evs[k]);
    assert(body.subrange(0, ci) =~= body.take(ci));
    assert(scan(body, page, evs.take(k + 1)).keys == st.keys.union(text_keys(body.take(ci), page)));
    lemma_scan_keys_grow(body, page, evs, k + 1);
}

proof fn lemma_block_stays_open(
    body: Seq<char>,
    page: Seq<char>,
    evs: Seq<EventView>,
    i: int,
    n: int,
    ci: int,
)
    requires
        0 <= i < n <= evs.len(),
        evs[i] matches EventView::CodeBlockStart(a) && ci == char_index_at(body, a as int),
        scan(body, page, evs.take(i)).cursor == 0,
        forall|m: int| i < m < n ==> (#[trigger] evs[m] is Link || evs[m] is Other),
    ensures
        scan(body, page, evs.take(n)).cursor == 0,
        scan(body, page, evs.take(n)).block == Some(ci),
    decreases n - i,
{
    assert(evs.take(n).drop_last() =~= evs.take(n - 1));
    assert(evs.take(n).last() == evs[n - 1]);
    if n > i + 1 {
        lemma_block_stays_open(body, page, evs, i, n - 1, ci);
        assert(evs[n - 1] is Link || evs[n - 1] is Other);
    }
}

/// Without any code region, the wikilinks of the whole body are extracted.
pub proof fn law_body_without_code_is_scanned_whole(body: Seq<char>, page: Seq<char>, evs: Seq<EventView>)
    requires
        forall|m: int| 0 <= m < evs.len() ==> (#[trigger] evs[m] is Link || evs[m] is Other),
    ensures
        text_keys(body, page).subset_of(body_keys(body, page, evs)),
{
    lemma_scan_no_code(body, page, evs);
    assert(body.skip(0) =~= body);
}


// ---------------------------------------------------------------------------
// Relative resolution
// ---------------------------------------------------------------------------

/// A character of a plain file name: an ASCII letter or digit, `-`, `_` or `.`.
pub open spec fn plain_name_char(c: char) -> bool {
    is_ascii_alnum(c) || c == '-' || c == '_' || c == '.'
}

/// Joining the pieces of a split gives back the text.
pub proof fn lemma_join_split(s: Seq<char>, c: char)
    ensures
        join_on(split_on(s, c), c) == s,
    decreases s.len(),
{
    if s.len() == 0 {
        assert(join_on(seq![Seq::<char>::empty()], c) == Seq::<char>::empty());
        assert(s =~= Seq::<char>::empty());
    } else {
        lemma_join_split(s.drop_last(), c);
        lemma_split_on_nonempty(s.drop_last(), c);
        let p = split_on(s.drop_last(), c);
        if s.last() == c {
            let q = p.push(Seq::<char>::empty());
            assert(q.drop_last() =~= p);
            assert(join_on(q, c) =~= join_on(p, c).push(c) + Seq::<char>::empty());
            assert(s =~= s.drop_last().push(c));
        } else {
            lemma_join_update_last(p, c, s.last());
            assert(s =~= s.drop_last().push(s.last()));
        }
    }
}

proof fn lemma_join_update_last(p: Seq<Seq<char>>, c: char, x: char)
    requires
        p.len() >= 1,
    ensures
        join_on(p.update(p.len() - 1, p.last().push(x)), c) == join_on(p, c).push(x),
{
    let q = p.update(p.len() - 1, p.last().push(x));
    if p.len() == 1 {
        assert(join_on(q, c) == q[0]);
    } else {
        assert(q.drop_last() =~= p.drop_last());
        assert(join_on(q, c) == join_on(q.drop_last(), c).push(c) + q.last());
        assert(join_on(p.drop_last(), c).push(c) + p.last().push(x) =~= (join_on(
            p.drop_last(),
            c,
        ).push(c) + p.last()).push(x));
    }
}

proof fn lemma_nonempty_parts_of_nonempty(ps: Seq<Seq<char>>)
    requires
        forall|i: int| 0 <= i < ps.len() ==> (#[trigger] ps[i]).len() > 0,
    ensures
        nonempty_parts(ps) == ps,
    decreases ps.len(),
{
    if ps.len() > 0 {
        lemma_nonempty_parts_of_nonempty(ps.drop_last());
        assert(ps.drop_last().push(ps.last()) =~= ps);
    }
}

/// A text whose characters are not in class `k` at either end is its own trim.
proof fn lemma_trim_in_untouched(s: Seq<char>, k: CharClass)
    requires
        s.len() > 0,
        !in_class(k, s[0]),
        !in_class(k, s.last()),
    ensures
        trim_in(s, k) == s,
{
    assert(trim_start_in(s, k) == s);
    assert(trim_end_in(s, k) == s);
}

proof fn lemma_no_occurrence(s: Seq<char>, p: Seq<char>)
    requires
        p.len() > 0,
        forall|i: int| 0 <= i < s.len() ==> s[i] != p[0],
    ensures
        find(s, p) is None,
{
    lemma_find(s, p);
    if let Some(j) = find(s, p) {
        assert(s.subrange(j, j + p.len())[0] == s[j]);
    }
}

proof fn lemma_no_char(s: Seq<char>, c: char)
    requires
        forall|i: int| 0 <= i < s.len() ==> s[i] != c,
    ensures
        find_char(s, c) is None,
        rfind_char(s, c) is None,
{
    lemma_find_char(s, c);
    lemma_rfind_char(s, c);
}

/// No lowercased plain name starts with a scheme prefix ending in `:`.
proof fn lemma_lower_no_colon_prefix(n: Seq<char>, p: Seq<char>)
    requires
        forall|i: int| 0 <= i < n.len() ==> plain_name_char(#[trigger] n[i]),
        p.len() > 0,
        p.last() == ':',
    ensures
        !starts_with(lowercase(n), p),
{
    if starts_with(lowercase(n), p) {
        let l = p.len() - 1;
        assert(lowercase(n).take(p.len() as int)[l] == lowercase(n)[l]);
        assert(lowercase(n)[l] == ascii_lower(n[l]));
        let c = n[l];
        assert(plain_name_char(c));
        if 'A' <= c <= 'Z' {
            assert((((c as u32) + 32) as char) as u32 == (c as u32) + 32);
        }
    }
}

/// A relative markdown link to a plain file name `n` (ending in `.md`) on the
/// page `d/f` resolves in the page's whole directory: to `d/n`.
pub proof fn law_relative_link_resolves_in_page_directory(
    d: Seq<char>,
    f: Seq<char>,
    n: Seq<char>,
)
    requires
        valid_page_path(d),
        forall|i: int| 0 <= i < f.len() ==> f[i] != '/',
        forall|i: int| 0 <= i < n.len() ==> plain_name_char(#[trigger] n[i]),
        ends_with(n, md_ext()),
    ensures
        normalize_spec(n, d + seq!['/'] + f, false) == Some(d + seq!['/'] + n),
{
    let page = d + seq!['/'] + f;
    let len = n.len();
    assert(n[len - 3] == n.skip(len - 3)[0]);
    assert(plain_name_char(n[0]));
    assert(plain_name_char(n[len - 1]));
    // The trims leave `n` as it is.
    lemma_trim_in_untouched(n, CharClass::WhiteSpace);
    lemma_trim_in_untouched(n, CharClass::Exactly('<'));
    lemma_trim_in_untouched(n, CharClass::Exactly('>'));
    assert(trim(n) == n);
    // No scheme, no anchor, no query, no backslash.
    assert forall|i: int| 0 <= i < n.len() implies n[i] != ':' && n[i] != '#' && n[i] != '?'
        && n[i] != '\\' && n[i] != '/' by {
        assert(plain_name_char(n[i]));
    }
    lemma_no_occurrence(n, scheme_sep());
    lemma_lower_no_colon_prefix(n, mailto_prefix());
    lemma_lower_no_colon_prefix(n, data_prefix());
    lemma_lower_no_colon_prefix(n, javascript_prefix());
    lemma_lower_no_colon_prefix(n, tel_prefix());
    lemma_no_char(n, ':');
    lemma_no_char(n, '#');
    lemma_no_char(n, '?');
    lemma_no_char(n, '\\');
    lemma_no_char(n, '/');
    assert(before_char(n, '#') == n);
    assert(before_char(n, '?') == n);
    lemma_find_char(n, '.');
    assert(contains_char(n, '.'));
    assert(after_last_char(n, '/') == n);
    assert(with_page_ext(n, false) == Some(n));
    // The base is the page's whole directory.
    lemma_rfind_char(page, '/');
    assert(page[d.len() as int] == '/');
    assert(rfind_char(page, '/') == Some(d.len() as int)) by {
        match rfind_char(page, '/') {
            Some(j) => {
                if j > d.len() {
                    assert(page[j] == f[j - d.len() - 1]);
                }
            },
            None => {},
        }
    }
    assert(page.take(d.len() as int) =~= d);
    let parts = split_on(d, '/');
    assert forall|i: int| 0 <= i < parts.len() implies (#[trigger] parts[i]).len() > 0 by {
        if parts[i].len() == 0 {
            assert(is_bad_segment(parts[i]));
        }
    }
    lemma_nonempty_parts_of_nonempty(parts);
    assert(base_dir_parts(page) == parts);
    lemma_split_on_nonempty(d, '/');
    // The name is one more segment.
    assert(!starts_with(n, seq!['/'])) by {
        assert(n.take(1)[0] == n[0]);
    }
    assert(trim_start_in(n, CharClass::Exactly('/')) == n);
    lemma_split_without_sep(n, '/');
    let segs = split_on(n, '/');
    assert(segs.drop_last() =~= Seq::<Seq<char>>::empty());
    assert(n != seq!['.']);
    assert(n != seq!['.', '.']);
    assert(walk(parts, segs.drop_last()) == Some(parts));
    assert(segs.last() == n);
    assert(n.len() > 0);
    assert(walk_step(Some(parts), n) == Some(parts.push(n)));
    assert(walk(parts, segs) == Some(parts.push(n)));
    let ps = parts.push(n);
    assert(ps.drop_last() =~= parts);
    lemma_join_split(d, '/');
    assert(join_on(ps, '/') == join_on(parts, '/').push('/') + n);
    assert(join_on(ps, '/') =~= d + seq!['/'] + n);
}

} // verus!
