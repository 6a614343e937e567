//! Laws of frontmatter recognition and titles, stated over plain text.
use vstd::prelude::*;
use crate::document::{fence_close, fence_open, frontmatter_block, strip_bom, title_name, title_of};
use crate::json::{Json, json_get};
use crate::text::{
    find, lemma_find, lemma_find_char, lines, split_on, starts_with, strip_cr, trim, find_char,
    lemma_split_on_nonempty,
};

verus! {

/// Only a block at the very start is frontmatter: a document that (after an
/// optional leading byte-order mark) does not start with `---\n` has none.
pub proof fn law_no_leading_fence_no_frontmatter(s: Seq<char>)
    requires
        !starts_with(strip_bom(s), fence_open()),
    ensures
        frontmatter_block(s) is None,
{
}

/// Splitting loses nothing: a document with a frontmatter block is exactly
/// `---\n`, the YAML text, `\n---\n` and the body (after an optional leading
/// byte-order mark), and the YAML text holds no `\n---\n` of its own.
pub proof fn law_frontmatter_split_reassembles(s: Seq<char>)
    ensures
        frontmatter_block(s) matches Some((yaml, body)) ==> {
            &&& strip_bom(s) == fence_open() + yaml + fence_close() + body
            &&& find(yaml + fence_close(), fence_close()) == Some(yaml.len() as int)
        },
{
    if let Some((yaml, body)) = frontmatter_block(s) {
        let t = strip_bom(s);
        let rest = t.skip(4);
        lemma_find(rest, fence_close());
        let e = find(rest, fence_close())->0;
        assert(t.take(4) =~= fence_open());
        assert(rest.subrange(e, e + 5) =~= fence_close());
        assert(t =~= fence_open() + yaml + fence_close() + body);
        let u = yaml + fence_close();
        assert(u.subrange(e, e + 5) =~= fence_close());
        assert forall|m: int| 0 <= m < e implies !crate::text::occurs_at(u, fence_close(), m) by {
            assert(!crate::text::occurs_at(rest, fence_close(), m));
            assert(u.subrange(m, m + 5) =~= rest.subrange(m, m + 5));
        }
        lemma_find(u, fence_close());
        match find(u, fence_close()) {
            Some(k) => {
                if k < e {
                } else if k > e {
                    assert(!crate::text::occurs_at(u, fence_close(), e));
                }
            },
            None => {
                assert(!crate::text::occurs_at(u, fence_close(), e));
            },
        }
    }
}

/// A text without the separator splits into itself alone.
pub proof fn lemma_split_without_sep(s: Seq<char>, c: char)
    requires
        forall|i: int| 0 <= i < s.len() ==> s[i] != c,
    ensures
        split_on(s, c) == seq![s],
    decreases s.len(),
{
    if s.len() > 0 {
        lemma_split_without_sep(s.drop_last(), c);
        assert(s.drop_last().push(s.last()) =~= s);
        assert(seq![s.drop_last()].update(0, s.drop_last().push(s.last())) =~= seq![s]);
    } else {
        assert(s =~= Seq::<char>::empty());
        assert(seq![Seq::<char>::empty()] =~= seq![s]);
    }
}

/// Splitting `a + c + r`, where `a` holds no `c`, gives `a` and then the
/// pieces of `r`.
pub proof fn lemma_split_after_first(a: Seq<char>, c: char, r: Seq<char>)
    requires
        forall|i: int| 0 <= i < a.len() ==> a[i] != c,
    ensures
        split_on(a + seq![c] + r, c) == seq![a] + split_on(r, c),
    decreases r.len(),
{
    let s = a + seq![c] + r;
    if r.len() == 0 {
        lemma_split_without_sep(a, c);
        assert(s.drop_last() =~= a);
        assert(seq![a].push(Seq::<char>::empty()) =~= seq![a] + seq![Seq::<char>::empty()]);
    } else {
        lemma_split_after_first(a, c, r.drop_last());
        assert(s.drop_last() =~= a + seq![c] + r.drop_last());
        lemma_split_on_nonempty(r.drop_last(), c);
        let x = split_on(r.drop_last(), c);
        if r.last() == c {
            assert((seq![a] + x).push(Seq::<char>::empty()) =~= seq![a] + x.push(Seq::<char>::empty()));
        } else {
            let px = seq![a] + x;
            assert(px.update(px.len() - 1, px.last().push(r.last())) =~= seq![a] + x.update(
                x.len() - 1,
                x.last().push(r.last()),
            ));
        }
    }
}

/// The first heading wins: with no usable frontmatter title, a body whose
/// first line is `# ` + `h` (`h` not blank) has the title `trim(h)`, whatever
/// follows.
pub proof fn law_first_heading_is_the_title(fm: Json, h: Seq<char>, rest: Seq<char>, path: Seq<char>)
    requires
        !(json_get(fm, title_name()) matches Some(Json::String(t)) && trim(t@).len() > 0),
        forall|i: int| 0 <= i < h.len() ==> h[i] != '\n',
        h.len() == 0 || h.last() != '\r',
        trim(h).len() > 0,
    ensures
        title_of(fm, seq!['#', ' '] + h + seq!['\n'] + rest, path) == trim(h),
{
    let first = seq!['#', ' '] + h;
    let body = first + seq!['\n'] + rest;
    assert forall|i: int| 0 <= i < first.len() implies first[i] != '\n' by {
        if i >= 2 {
            assert(first[i] == h[i - 2]);
        }
    }
    lemma_split_after_first(first, '\n', rest);
    lemma_split_on_nonempty(rest, '\n');
    let parts = split_on(body, '\n');
    assert(parts[0] == first);
    assert(parts.len() >= 2);
    assert(first.last() != '\r');
    assert(strip_cr(first) == first);
    assert(lines(body)[0] == first);
    assert(first.take(2) =~= seq!['#', ' ']);
    assert(first.skip(2) =~= h);
}

} // verus!
