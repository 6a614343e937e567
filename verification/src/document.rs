//! Markdown documents with a detached YAML frontmatter block: recognising
//! the block, framing a document around one, and deriving a page title.
use vstd::prelude::*;
use crate::json::{Json, get, json_get};
use crate::page::PagePath;
use crate::target::{after_last_char, after_last_char_exec, copy_chars, md_ext, md_ext_exec};
use crate::text::{
    chars_of, concat, ends_with, ends_with_exec, find, find_exec, lemma_find, lines, lines_exec,
    slice_of, starts_with, starts_with_exec, string_of, trim, trim_ws, utf8_len,
    utf8_width_exec, views,
};

verus! {

/// A parsed markdown document with detached frontmatter.
#[derive(Debug)]
pub struct Markdown {
    /// The frontmatter; `Null` when the source had none.
    pub frontmatter: Json,
    /// The body, without the frontmatter block and its closing fence.
    pub body: String,
}

/// A document split at its frontmatter block: the block's YAML text (when
/// there is one) and the body.
#[derive(Debug)]
pub struct RawDocument {
    pub frontmatter_yaml: Option<String>,
    pub body: String,
}

pub open spec fn bom() -> char {
    '\u{FEFF}'
}

/// `s` without a leading byte-order mark.
pub open spec fn strip_bom(s: Seq<char>) -> Seq<char> {
    if s.len() > 0 && s[0] == bom() {
        s.drop_first()
    } else {
        s
    }
}

/// The opening fence `---\n`.
pub open spec fn fence_open() -> Seq<char> {
    seq!['-', '-', '-', '\n']
}

/// The closing fence `\n---\n` (with the newline that ends the YAML text).
pub open spec fn fence_close() -> Seq<char> {
    seq!['\n', '-', '-', '-', '\n']
}

/// The frontmatter block of `s`, after a leading byte-order mark is dropped:
/// the text between `---\n` at the very start and the first `\n---\n`
/// after it, and the body after that. None when there is no such block.
pub open spec fn frontmatter_block(s: Seq<char>) -> Option<(Seq<char>, Seq<char>)> {
    let t = strip_bom(s);
    if starts_with(t, fence_open()) {
        let rest = t.skip(4);
        match find(rest, fence_close()) {
            Some(e) => Some((rest.take(e), rest.skip(e + 5))),
            None => None,
        }
    } else {
        None
    }
}

/// Split markdown text at its frontmatter block. Only the canonical
/// `---\n<yaml>\n---\n` block at the very start of the document is
/// recognised; anything else is body. A leading UTF-8 byte-order mark is
/// dropped either way.
pub fn split_frontmatter(input: &str) -> (r: RawDocument)
    ensures
        match frontmatter_block(input@) {
            Some((yaml, body)) => r.frontmatter_yaml matches Some(y) && y@ == yaml && r.body@
                == body,
            None => r.frontmatter_yaml is None && r.body@ == strip_bom(input@),
        },
{
    let s = chars_of(input);
    let t = if s.len() > 0 && s[0] == '\u{FEFF}' {
        slice_of(&s, 1, s.len())
    } else {
        copy_chars(&s)
    };
    assert(t@ =~= strip_bom(s@));
    let open = vec!['-', '-', '-', '\n'];
    let close = vec!['\n', '-', '-', '-', '\n'];
    assert(open@ == fence_open());
    assert(close@ == fence_close());
    if starts_with_exec(&t, &open) {
        let rest = slice_of(&t, 4, t.len());
        assert(rest@ =~= t@.skip(4));
        proof {
            lemma_find(rest@, fence_close());
        }
        if let Some(e) = find_exec(&rest, &close) {
            let yaml = slice_of(&rest, 0, e);
            let body = slice_of(&rest, e + 5, rest.len());
            assert(yaml@ =~= rest@.take(e as int));
            assert(body@ =~= rest@.skip(e + 5));
            return RawDocument { frontmatter_yaml: Some(string_of(&yaml)), body: string_of(&body) };
        }
    }
    RawDocument { frontmatter_yaml: None, body: string_of(&t) }
}

/// The YAML text of a block as the emitter writes it: ending in `\n`.
pub open spec fn yaml_line_ended(y: Seq<char>) -> Seq<char> {
    if ends_with(y, seq!['\n']) {
        y
    } else {
        y.push('\n')
    }
}

/// A document around an optional frontmatter block: `---\n`, the YAML text
/// (with a final newline added when it lacks one), `---\n`, then the body.
pub open spec fn framed(yaml: Option<Seq<char>>, body: Seq<char>) -> Seq<char> {
    match yaml {
        Some(y) => fence_open() + yaml_line_ended(y) + seq!['-', '-', '-', '\n'] + body,
        None => body,
    }
}

/// Frame a document: the body after a frontmatter block holding `yaml`, or
/// the body alone when there is no YAML text.
pub fn frame_document(yaml: Option<&str>, body: &str) -> (r: String)
    ensures
        r@ == framed(
            match yaml {
                Some(y) => Some(y@),
                None => None,
            },
            body@,
        ),
{
    let b = chars_of(body);
    match yaml {
        None => string_of(&b),
        Some(y) => {
            let yv = chars_of(y);
            let nl = vec!['\n'];
            assert(nl@ == seq!['\n']);
            let ended = if ends_with_exec(&yv, &nl) {
                yv
            } else {
                let mut e = copy_chars(&yv);
                e.push('\n');
                e
            };
            let open = vec!['-', '-', '-', '\n'];
            assert(open@ == fence_open());
            let fence = vec!['-', '-', '-', '\n'];
            let out = concat(&concat(&concat(&open, &ended), &fence), &b);
            assert(out@ =~= framed(Some(y@), b@));
            string_of(&out)
        },
    }
}

/// Emit a document whose frontmatter was serialised to `yaml` (ignored when
/// the frontmatter is `Null` or an empty object, which get no block).
pub fn emit_with_yaml(md: &Markdown, yaml: &str) -> (r: String)
    ensures
        r@ == framed(
            if crate::json::has_frontmatter_spec(md.frontmatter) {
                Some(yaml@)
            } else {
                None
            },
            md.body@,
        ),
{
    if crate::json::has_frontmatter(&md.frontmatter) {
        frame_document(Some(yaml), md.body.as_str())
    } else {
        frame_document(None, md.body.as_str())
    }
}

// ---------------------------------------------------------------------------
// Titles
// ---------------------------------------------------------------------------

pub open spec fn title_name() -> Seq<char> {
    seq!['t', 'i', 't', 'l', 'e']
}

pub open spec fn heading_prefix() -> Seq<char> {
    seq!['#', ' ']
}

/// The trimmed `title` string of the frontmatter, when it is not blank.
pub open spec fn frontmatter_title(fm: Json) -> Option<Seq<char>> {
    match json_get(fm, title_name()) {
        Some(Json::String(t)) => if trim(t@).len() > 0 {
            Some(trim(t@))
        } else {
            None
        },
        _ => None,
    }
}

/// The text of the first `# ` heading at or after line `i` whose trimmed
/// text is not blank.
pub open spec fn heading_from(ls: Seq<Seq<char>>, i: int) -> Option<Seq<char>>
    decreases ls.len() - i,
{
    if i < 0 || i >= ls.len() {
        None
    } else if starts_with(ls[i], heading_prefix()) && trim(ls[i].skip(2)).len() > 0 {
        Some(trim(ls[i].skip(2)))
    } else {
        heading_from(ls, i + 1)
    }
}

/// The file stem of a page path: its last segment without a `.md` suffix.
pub open spec fn path_stem(path: Seq<char>) -> Seq<char> {
    let name = after_last_char(path, '/');
    if ends_with(name, md_ext()) {
        name.take(name.len() - 3)
    } else {
        name
    }
}

/// The title of a page: the frontmatter `title`, else the first `# `
/// heading of the body, else the path stem.
pub open spec fn title_of(fm: Json, body: Seq<char>, path: Seq<char>) -> Seq<char> {
    match frontmatter_title(fm) {
        Some(t) => t,
        None => match heading_from(lines(body), 0) {
            Some(h) => h,
            None => path_stem(path),
        },
    }
}

/// Derive a page title. Priority: the frontmatter `title` (a string) → the
/// first `# ` heading in the body → the path stem with `.md` stripped.
pub fn derive_title(frontmatter: &Json, body: &str, path: &PagePath) -> (r: String)
    ensures
        r@ == title_of(*frontmatter, body@, path@),
{
    let title = vec!['t', 'i', 't', 'l', 'e'];
    assert(title@ == title_name());
    if let Some(Json::String(t)) = get(frontmatter, &title) {
        let tv = trim_ws(&chars_of(t.as_str()));
        if tv.len() > 0 {
            return string_of(&tv);
        }
    }
    let b = chars_of(body);
    let ls = lines_exec(&b);
    let prefix = vec!['#', ' '];
    assert(prefix@ == heading_prefix());
    let mut i: usize = 0;
    while i < ls.len()
        invariant
            i <= ls.len(),
            views(ls@) == lines(b@),
            b@ == body@,
            prefix@ == heading_prefix(),
            frontmatter_title(*frontmatter) is None,
            heading_from(lines(body@), 0) == heading_from(lines(body@), i as int),
        decreases ls.len() - i,
    {
        let line = &ls[i];
        assert(line@ == lines(body@)[i as int]);
        if starts_with_exec(line, &prefix) {
            let rest = slice_of(line, 2, line.len());
            assert(rest@ =~= line@.skip(2));
            let h = trim_ws(&rest);
            if h.len() > 0 {
                return string_of(&h);
            }
        }
        i += 1;
    }
    let p = path.chars();
    let name = after_last_char_exec(&p, '/');
    let md = md_ext_exec();
    if ends_with_exec(&name, &md) {
        let stem = slice_of(&name, 0, name.len() - 3);
        assert(stem@ =~= name@.take(name@.len() - 3));
        string_of(&stem)
    } else {
        string_of(&name)
    }
}

// ---------------------------------------------------------------------------
// Bounded echoes of untrusted values
// ---------------------------------------------------------------------------

/// Upper bound (bytes) on an untrusted frontmatter value echoed into a
/// diagnostic line.
pub const RELATION_LOG_FIELD_MAX_BYTES: usize = 200;

/// `value` cut to its longest prefix of whole characters whose UTF-8
/// encoding has at most `RELATION_LOG_FIELD_MAX_BYTES` bytes.
pub fn log_bounded(value: &str) -> (r: String)
    ensures
        r@.len() <= value@.len(),
        r@ == value@.take(r@.len() as int),
        utf8_len(r@) <= RELATION_LOG_FIELD_MAX_BYTES,
        r@.len() < value@.len() ==> utf8_len(value@.take(r@.len() as int + 1)) > RELATION_LOG_FIELD_MAX_BYTES,
{
    let v = chars_of(value);
    let mut k: usize = 0;
    let mut used: usize = 0;
    assert(v@.take(0) =~= Seq::<char>::empty());
    while k < v.len()
        invariant
            k <= v.len(),
            used == utf8_len(v@.take(k as int)),
            used <= RELATION_LOG_FIELD_MAX_BYTES,
        ensures
            k <= v.len(),
            used == utf8_len(v@.take(k as int)),
            used <= RELATION_LOG_FIELD_MAX_BYTES,
            k < v.len() ==> utf8_len(v@.take(k + 1)) > RELATION_LOG_FIELD_MAX_BYTES,
        decreases v.len() - k,
    {
        let w = utf8_width_exec(v[k]);
        assert(v@.take(k + 1).drop_last() =~= v@.take(k as int));
        assert(utf8_len(v@.take(k + 1)) == used + w);
        if w > RELATION_LOG_FIELD_MAX_BYTES - used {
            break;
        }
        used += w;
        k += 1;
    }
    let r = slice_of(&v, 0, k);
    assert(r@ =~= v@.take(k as int));
    string_of(&r)
}

} // verus!
