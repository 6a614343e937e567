//! Properties of the library as a whole, stated over the specifications of
//! its functions and proved.
use vstd::prelude::*;
use crate::document::{bom, fence_close, fence_open, framed, frontmatter_block, strip_bom, yaml_line_ended};
use crate::json::Json;
use crate::links::{
    relation_entries, relation_entry, relation_items, relation_links_spec, relation_page_path,
    relation_target, opt_seq,
};
use crate::page::{LinkView, Relation, relation_named, valid_page_path};
use crate::target::{
    after_last_char, has_uri_scheme_spec, join_on_ends, md_ext, normalize_spec,
    resolve_relative_spec, walk, with_page_ext,
};
use crate::text::{
    CharClass, ends_with, find, in_class, lemma_find, lemma_rfind_char,
    lemma_split_on_nonempty, occurs_at, rfind_char, rfind_char_before, split_on, trim, trim_in, trim_start_in,
};

verus! {

/// Whether `p` occurs at `j` in `s` and nowhere before.
proof fn lemma_find_is_first(s: Seq<char>, p: Seq<char>, j: int)
    requires
        occurs_at(s, p, j),
        forall|m: int| 0 <= m < j ==> !occurs_at(s, p, m),
    ensures
        find(s, p) == Some(j),
{
    lemma_find(s, p);
    match find(s, p) {
        Some(k) => {
            if k < j {
                assert(!occurs_at(s, p, k));
            } else if k > j {
                assert(!occurs_at(s, p, j));
            }
        },
        None => {
            assert(!occurs_at(s, p, j));
        },
    }
}

/// The YAML text `y`, as the emitter writes it, followed by the closing
/// `---\n`, first closes the block where the emitter meant it to: the text
/// holds no `---` line of its own.
pub open spec fn closes_only_at_end(y: Seq<char>) -> bool {
    let e = yaml_line_ended(y);
    forall|m: int| 0 <= m < e.len() - 1 ==> !occurs_at(e + seq!['-', '-', '-', '\n'], fence_close(), m)
}

/// Round trip: splitting a framed document gives back its body, and its
/// YAML text without the newline that ends it, whenever that text holds
/// no `---` line of its own.
pub proof fn law_frame_then_split(y: Seq<char>, b: Seq<char>)
    requires
        closes_only_at_end(y),
    ensures
        frontmatter_block(framed(Some(y), b)) == Some((yaml_line_ended(y).drop_last(), b)),
{
    let e = yaml_line_ended(y);
    let fence = seq!['-', '-', '-', '\n'];
    let doc = framed(Some(y), b);
    assert(e.len() >= 1 && e.last() == '\n') by {
        if ends_with(y, seq!['\n']) {
            assert(y.skip(y.len() - 1) =~= seq!['\n']);
            assert(y.skip(y.len() - 1)[0] == y.last());
        }
    }
    assert(doc[0] == '-');
    assert(strip_bom(doc) == doc);
    assert(doc.take(4) =~= fence_open());
    let rest = doc.skip(4);
    assert(rest =~= e + fence + b);
    let j = e.len() - 1;
    assert(rest.subrange(j, j + 5) =~= fence_close());
    assert forall|m: int| 0 <= m < j implies !occurs_at(rest, fence_close(), m) by {
        assert(!occurs_at(e + fence, fence_close(), m));
        assert(rest.subrange(m, m + 5) =~= (e + fence).subrange(m, m + 5));
    }
    lemma_find_is_first(rest, fence_close(), j);
    assert(rest.take(j) =~= e.drop_last());
    assert(rest.skip(j + 5) =~= b);
}

/// A leading byte-order mark changes nothing: the document without it is
/// split the same way (one mark is dropped, so the law is stated for text
/// that does not itself start with one).
pub proof fn law_bom_is_dropped(s: Seq<char>)
    requires
        !(s.len() > 0 && s[0] == bom()),
    ensures
        frontmatter_block(seq![bom()] + s) == frontmatter_block(s),
        strip_bom(seq![bom()] + s) == strip_bom(s),
{
    assert((seq![bom()] + s).drop_first() =~= s);
}

/// A markdown-link destination that starts with a URI scheme is never a
/// page link.
pub proof fn law_uri_scheme_destinations_are_external(raw: Seq<char>, page: Seq<char>)
    requires
        has_uri_scheme_spec(
            trim_in(trim_in(trim(raw), CharClass::Exactly('<')), CharClass::Exactly('>')),
        ),
    ensures
        normalize_spec(raw, page, false) is None,
{
}

/// A relation key outside the vocabulary yields no edge, whatever its
/// targets.
pub proof fn law_unknown_relation_keys_are_skipped(key: Seq<char>, targets: Json)
    requires
        relation_named(key) is None,
    ensures
        relation_entry(key, targets) == Seq::<LinkView>::empty(),
{
}

/// A relation target names a markdown page: its path is a valid page path
/// that ends in `.md`.
pub proof fn law_relation_targets_are_md_pages(raw: Seq<char>)
    ensures
        relation_page_path(raw) matches Some(p) ==> valid_page_path(p) && ends_with(p, md_ext()),
{
    let t = trim(raw);
    if relation_page_path(raw) is Some {
        let p = relation_page_path(raw)->0;
        if p != t {
            assert(p == t + md_ext());
            assert((t + md_ext()).skip((t + md_ext()).len() - md_ext().len()) =~= md_ext());
        }
    }
}

proof fn lemma_relation_items_typed(rel: Relation, items: Seq<Json>)
    ensures
        forall|i: int| 0 <= i < relation_items(rel, items).len() ==> (#[trigger] relation_items(rel, items)[i]).relation == Some(rel),
    decreases items.len(),
{
    if items.len() > 0 {
        lemma_relation_items_typed(rel, items.drop_last());
        let prev = relation_items(rel, items.drop_last());
        let tail = match items.last() {
            Json::String(s) => opt_seq(relation_target(rel, s@)),
            _ => Seq::empty(),
        };
        assert(relation_items(rel, items) == prev + tail);
        assert forall|i: int| 0 <= i < (prev + tail).len() implies (#[trigger] (prev + tail)[i]).relation == Some(rel) by {
            if i >= prev.len() {
                assert((prev + tail)[i] == tail[i - prev.len()]);
            }
        }
    }
}

proof fn lemma_relation_entries_typed(es: Seq<(String, Json)>)
    ensures
        forall|i: int| 0 <= i < relation_entries(es).len() ==> (#[trigger] relation_entries(es)[i]).relation is Some,
    decreases es.len(),
{
    if es.len() > 0 {
        lemma_relation_entries_typed(es.drop_last());
        let prev = relation_entries(es.drop_last());
        let tail = relation_entry(es.last().0@, es.last().1);
        match relation_named(es.last().0@) {
            Some(rel) => match es.last().1 {
                Json::Array(items) => lemma_relation_items_typed(rel, items@),
                _ => {},
            },
            None => {},
        }
        assert forall|i: int| 0 <= i < (prev + tail).len() implies (#[trigger] (prev + tail)[i]).relation is Some by {
            if i >= prev.len() {
                assert((prev + tail)[i] == tail[i - prev.len()]);
            }
        }
    }
}

/// Every frontmatter edge is typed: it carries its relation.
pub proof fn law_relation_edges_are_typed(fm: Json)
    ensures
        forall|i: int| 0 <= i < relation_links_spec(fm).len() ==> (#[trigger] relation_links_spec(fm)[i]).relation is Some,
{
    match crate::json::json_get(fm, crate::links::relations_name()) {
        Some(Json::Object(es)) => lemma_relation_entries_typed(es@),
        _ => {},
    }
}


/// A plain body (no byte-order mark, no frontmatter block) reads back as
/// itself when it is emitted without frontmatter.
pub proof fn law_plain_body_round_trip(b: Seq<char>)
    requires
        strip_bom(b) == b,
        frontmatter_block(b) is None,
    ensures
        frontmatter_block(framed(None, b)) is None,
        strip_bom(framed(None, b)) == b,
{
}

proof fn lemma_rfind_before_prefix(s: Seq<char>, c: char, i: int)
    requires
        s.len() > 0,
        0 <= i <= s.len() - 1,
    ensures
        rfind_char_before(s, c, i) == rfind_char_before(s.drop_last(), c, i),
    decreases i,
{
    if i > 0 {
        lemma_rfind_before_prefix(s, c, i - 1);
    }
}

/// The last piece of a split is what follows the last separator.
proof fn lemma_split_last(s: Seq<char>, c: char)
    ensures
        split_on(s, c).len() >= 1,
        split_on(s, c).last() == after_last_char(s, c),
    decreases s.len(),
{
    lemma_split_on_nonempty(s, c);
    if s.len() == 0 {
        assert(s.skip(0) =~= s);
    } else {
        lemma_split_last(s.drop_last(), c);
        lemma_split_on_nonempty(s.drop_last(), c);
        if s.last() == c {
            assert(s.skip(s.len() as int) =~= Seq::<char>::empty());
        } else {
            lemma_rfind_before_prefix(s, c, s.len() - 1);
            assert(rfind_char(s, c) == rfind_char(s.drop_last(), c));
            lemma_rfind_char(s.drop_last(), c);
            match rfind_char(s.drop_last(), c) {
                Some(i) => {
                    assert(s.skip(i + 1) =~= s.drop_last().skip(i + 1).push(s.last()));
                },
                None => {
                    assert(s =~= s.drop_last().push(s.last()));
                },
            }
        }
    }
}

/// What follows the last `/` of a path that ends in `.md` ends in `.md`.
proof fn lemma_after_last_keeps_md(x: Seq<char>)
    requires
        ends_with(x, md_ext()),
    ensures
        ends_with(after_last_char(x, '/'), md_ext()),
{
    let n = x.len();
    assert(x[n - 3] == x.skip(n - 3)[0]);
    assert(x[n - 2] == x.skip(n - 3)[1]);
    assert(x[n - 1] == x.skip(n - 3)[2]);
    lemma_rfind_char(x, '/');
    match rfind_char(x, '/') {
        Some(i) => {
            assert(i < n - 3);
            let a = x.skip(i + 1);
            assert(a.skip(a.len() - 3) =~= x.skip(n - 3));
        },
        None => {},
    }
}

/// Dropping leading `/`s keeps a `.md` ending.
proof fn lemma_trim_slashes_keeps_md(x: Seq<char>)
    requires
        ends_with(x, md_ext()),
    ensures
        ends_with(trim_start_in(x, CharClass::Exactly('/')), md_ext()),
    decreases x.len(),
{
    let n = x.len();
    if n > 0 && in_class(CharClass::Exactly('/'), x[0]) {
        // x[n - 3] is the `.` of `.md`, so x has more than 3 characters.
        assert(x.skip(n - 3)[0] == '.');
        let y = x.drop_first();
        assert(y.skip(y.len() - 3) =~= x.skip(n - 3));
        lemma_trim_slashes_keeps_md(y);
    }
}

/// A wikilink never names anything but a markdown page: every wikilink
/// target that normalises to a path gives a path that ends in `.md`
/// (extension-less targets gain it; other extensions are dropped).
pub proof fn law_wikilink_targets_are_md_pages(raw: Seq<char>, page: Seq<char>)
    ensures
        normalize_spec(raw, page, true) matches Some(p) ==> ends_with(p, md_ext()),
{
    if let Some(p) = normalize_spec(raw, page, true) {
        let target = trim_in(trim_in(trim(raw), CharClass::Exactly('<')), CharClass::Exactly('>'));
        let t = trim(crate::target::before_char(crate::target::before_char(target, '#'), '?'));
        let q = with_page_ext(t, true)->0;
        assert(ends_with(q, md_ext())) by {
            if q != t {
                assert((t + md_ext()).skip((t + md_ext()).len() - 3) =~= md_ext());
            }
        }
        assert(resolve_relative_spec(page, q, true) == Some(p));
        let stripped = trim_start_in(q, CharClass::Exactly('/'));
        lemma_trim_slashes_keeps_md(q);
        lemma_after_last_keeps_md(stripped);
        let segs = split_on(stripped, '/');
        lemma_split_last(stripped, '/');
        let last = segs.last();
        assert(last.len() >= 3);
        assert(last != seq!['.']);
        assert(last != seq!['.', '.']);
        let base = Seq::<Seq<char>>::empty();
        let ps = walk(base, segs)->0;
        let prev = walk(base, segs.drop_last())->0;
        assert(ps == prev.push(last));
        join_on_ends(ps, '/', md_ext());
    }
}

} // verus!
