# ai_memory_wiki

Frontmatter-aware markdown handling for a wiki of pages, verified with Verus.

- `src/` — the verified library.
  - `text.rs`: character-level string operations (trim, find, split, lines,
    UTF-8 offsets) with specifications over `Seq<char>`.
  - `json.rs`: the frontmatter value model (`Json`).
  - `page.rs`: validated page paths, the relation vocabulary, link targets.
  - `target.rs`: scope qualifiers, URI schemes, normalisation and relative
    resolution of link destinations.
  - `keys.rs`: the order on link keys and a sorted key set.
  - `cmark.rs`: the CommonMark parse (pulldown-cmark) as plain events.
  - `links.rs`: wikilink, markdown-link and `relations:` edge extraction.
  - `document.rs`: frontmatter blocks, document framing, titles.
  - `laws.rs`: properties of the library as a whole, proved.
- `app/` — YAML/JSON conversion around the library (`parse`, `emit`, a
  serialisable copy of `Markdown`).
- `tests/` — executable tests.
