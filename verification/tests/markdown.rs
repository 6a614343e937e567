use ai_memory_wiki::{
    derive_title, emit_with_yaml, extract_all_links, extract_links, extract_relation_links,
    log_bounded, split_frontmatter, Json, Markdown, PagePath, Relation,
    RELATION_LOG_FIELD_MAX_BYTES,
};

fn page() -> PagePath {
    PagePath::new("notes/here.md").unwrap()
}

fn text(x: &str) -> Json {
    Json::String(x.to_string())
}

fn array(items: Vec<Json>) -> Json {
    Json::Array(items)
}

fn object(entries: Vec<(&str, Json)>) -> Json {
    Json::Object(entries.into_iter().map(|(k, v)| (k.to_string(), v)).collect())
}

fn strings(items: &[&str]) -> Json {
    array(items.iter().map(|s| text(s)).collect())
}

/// The library's value for a `serde_json` value.
fn from_value(v: &serde_json::Value) -> Json {
    match v {
        serde_json::Value::Null => Json::Null,
        serde_json::Value::Bool(b) => Json::Bool(*b),
        serde_json::Value::Number(n) => Json::Number(n.to_string()),
        serde_json::Value::String(s) => Json::String(s.clone()),
        serde_json::Value::Array(a) => Json::Array(a.iter().map(from_value).collect()),
        serde_json::Value::Object(m) => {
            Json::Object(m.iter().map(|(k, v)| (k.clone(), from_value(v))).collect())
        }
    }
}

/// Parsed frontmatter (as JSON) and body: the library's split, then the
/// YAML block decoded by `serde_yaml`.
fn parse(src: &str) -> Result<(serde_json::Value, String), String> {
    let raw = split_frontmatter(src);
    match raw.frontmatter_yaml {
        Some(y) => {
            let yaml: serde_yaml::Value = serde_yaml::from_str(&y).map_err(|e| e.to_string())?;
            let json = serde_json::to_value(yaml).map_err(|e| e.to_string())?;
            Ok((json, raw.body))
        }
        None => Ok((serde_json::Value::Null, raw.body)),
    }
}

/// A document emitted from JSON frontmatter and a body.
fn emit(frontmatter: &serde_json::Value, body: &str) -> String {
    let yaml = serde_yaml::to_string(frontmatter).unwrap();
    let md = Markdown { frontmatter: from_value(frontmatter), body: body.to_string() };
    emit_with_yaml(&md, &yaml)
}

fn json(src: &str) -> serde_json::Value {
    serde_json::from_str(src).unwrap()
}

fn paths(links: &[ai_memory_wiki::LinkTarget]) -> Vec<&str> {
    links.iter().map(|l| l.path.as_str()).collect()
}

#[test]
fn untrusted_relation_values_are_bounded_before_logging() {
    let short = "fixes";
    assert_eq!(log_bounded(short), short, "short values pass through");

    let huge = "x".repeat(10_000);
    let bounded = log_bounded(&huge);
    assert!(
        bounded.len() <= RELATION_LOG_FIELD_MAX_BYTES,
        "logged value must be bounded: {} bytes",
        bounded.len()
    );

    let multibyte = "é".repeat(10_000);
    let bounded = log_bounded(&multibyte);
    assert!(bounded.len() <= RELATION_LOG_FIELD_MAX_BYTES);
    assert!(std::str::from_utf8(bounded.as_bytes()).is_ok());

    let key = "x".repeat(5_000);
    let fm = object(vec![("relations", object(vec![(key.as_str(), strings(&["ok.md"]))]))]);
    assert!(extract_relation_links(&fm).is_empty());
}

#[test]
fn relations_frontmatter_becomes_typed_edges() {
    let fm = object(vec![(
        "relations",
        object(vec![
            ("causes", strings(&["ws/proj:notes/x.md"])),
            ("contradicts", strings(&["other-proj:decisions/0007.md"])),
            ("fixes", strings(&["gotchas/build.md", "concepts/writer"])),
        ]),
    )]);
    let mut links = extract_relation_links(&fm);
    links.sort();
    assert_eq!(links.len(), 4);
    let fixes: Vec<_> = links.iter().filter(|l| l.relation == Some(Relation::Fixes)).collect();
    assert_eq!(fixes.len(), 2);
    assert!(fixes.iter().any(|l| l.path.as_str() == "concepts/writer.md"));
    let contra = links.iter().find(|l| l.relation == Some(Relation::Contradicts)).unwrap();
    assert_eq!(contra.project.as_deref(), Some("other-proj"));
    let causes = links.iter().find(|l| l.relation == Some(Relation::Causes)).unwrap();
    assert_eq!(causes.workspace.as_deref(), Some("ws"));
    assert_eq!(causes.project.as_deref(), Some("proj"));
}

#[test]
fn unknown_relation_keys_and_bad_targets_are_skipped() {
    let fm = object(vec![(
        "relations",
        object(vec![
            ("blames", strings(&["notes/a.md"])),
            ("fixes", strings(&["../escape.md", "notes/data.json", "notes/ok.md"])),
        ]),
    )]);
    let links = extract_relation_links(&fm);
    assert_eq!(links.len(), 1, "{links:?}");
    assert_eq!(links[0].path.as_str(), "notes/ok.md");
}

#[test]
fn pages_without_relations_extract_nothing() {
    assert!(extract_relation_links(&object(vec![])).is_empty());
    assert!(extract_relation_links(&object(vec![("relations", text("not a map"))])).is_empty());
}

#[test]
fn extract_all_links_merges_body_and_frontmatter() {
    let fm = object(vec![("relations", object(vec![("fixes", strings(&["gotchas/g.md"]))]))]);
    let links = extract_all_links(&fm, "see [[notes/n.md]]", &page());
    assert_eq!(links.len(), 2);
    assert!(links.iter().any(|l| l.relation.is_none()));
    assert!(links.iter().any(|l| l.relation == Some(Relation::Fixes)));
}

#[test]
fn extract_links_bare_wikilink_is_local() {
    let links = extract_links("see [[decisions/0001.md]] and [[other]]", &page());
    assert!(links.iter().all(|l| !l.is_cross_project()));
    assert!(links
        .iter()
        .any(|l| l.path.as_str() == "decisions/0001.md" && l.project.is_none()));
    assert!(links.iter().any(|l| l.path.as_str() == "other.md"));
}

#[test]
fn extract_links_cross_project_wikilink() {
    let links = extract_links("dep on [[infra:runbooks/02.md]]", &page());
    let l = links.iter().find(|l| l.is_cross_project()).expect("xproj");
    assert_eq!(l.workspace, None);
    assert_eq!(l.project.as_deref(), Some("infra"));
    assert_eq!(l.path.as_str(), "runbooks/02.md");
}

#[test]
fn extract_links_cross_workspace_wikilink_with_label() {
    let links = extract_links("[[zommehq/zomme:decisions/adr-1.md|the ADR]]", &page());
    let l = links.iter().find(|l| l.is_cross_project()).expect("xws");
    assert_eq!(l.workspace.as_deref(), Some("zommehq"));
    assert_eq!(l.project.as_deref(), Some("zomme"));
    assert_eq!(l.path.as_str(), "decisions/adr-1.md");
}

#[test]
fn extract_links_url_wikilink_is_not_a_scope() {
    let links = extract_links("[[https://example.com]] [[mailto:a@b.com]]", &page());
    assert!(links.is_empty(), "URLs/schemes are not links: {links:?}");
}

#[test]
fn parses_frontmatter_and_body() {
    let src = "---\ntitle: Hello\ntags:\n  - a\n  - b\n---\nThe body.\n";
    let (fm, body) = parse(src).unwrap();
    assert_eq!(fm["title"], "Hello");
    assert_eq!(fm["tags"][0], "a");
    assert_eq!(body, "The body.\n");
}

#[test]
fn parses_bom_prefixed_frontmatter() {
    let src = "\u{FEFF}---\ntitle: Hello\n---\nBody\n";
    let (fm, body) = parse(src).unwrap();
    assert_eq!(fm["title"], "Hello");
    assert_eq!(body, "Body\n");
}

#[test]
fn parses_bom_prefixed_body_without_frontmatter() {
    let src = "\u{FEFF}# Hand written\n\nBody.\n";
    let (fm, body) = parse(src).unwrap();
    assert!(fm.is_null());
    assert_eq!(body, "# Hand written\n\nBody.\n");
    assert_eq!(
        derive_title(
            &from_value(&fm),
            &body,
            &PagePath::new("notes/hand-written.md").unwrap(),
        ),
        "Hand written"
    );
}

#[test]
fn malformed_frontmatter_returns_error() {
    let src = "---\ntitle: [unterminated\n---\nBody\n";
    assert!(parse(src).is_err());
}

#[test]
fn unterminated_frontmatter_marker_is_body() {
    let src = "---\ntitle: Hello\nBody\n";
    let (fm, body) = parse(src).unwrap();
    assert!(fm.is_null());
    assert_eq!(body, src);
}

#[test]
fn parses_body_without_frontmatter() {
    let src = "Just a body, no frontmatter.\n";
    let (fm, body) = parse(src).unwrap();
    assert!(fm.is_null());
    assert_eq!(body, src);
}

#[test]
fn round_trip_emit_then_parse() {
    let fm = json(r#"{ "title": "X", "tags": ["a"] }"#);
    let body = "Line 1\nLine 2\n";
    let emitted = emit(&fm, body);
    let (parsed, parsed_body) = parse(&emitted).unwrap();
    assert_eq!(parsed["title"], "X");
    assert_eq!(parsed_body, body);
}

#[test]
fn round_trip_preserves_slot_kind_frontmatter() {
    let fm = json(r#"{ "title": "Project context", "slot_kind": "invariant" }"#);
    let body = "Stable project context.\n";
    let emitted = emit(&fm, body);
    let (parsed, parsed_body) = parse(&emitted).unwrap();
    assert_eq!(parsed["slot_kind"], "invariant");
    assert_eq!(parsed_body, body);
}

#[test]
fn emit_omits_empty_frontmatter() {
    let md = Markdown { frontmatter: Json::Object(Vec::new()), body: "Hello\n".into() };
    assert_eq!(emit_with_yaml(&md, "{}\n"), "Hello\n");
}

#[test]
fn title_priority_frontmatter_then_heading_then_stem() {
    let path = PagePath::new("notes/foo.md").unwrap();
    let fm = object(vec![("title", text("Explicit"))]);
    assert_eq!(derive_title(&fm, "# Other\nbody", &path), "Explicit");
    assert_eq!(derive_title(&Json::Null, "# From Body\n", &path), "From Body");
    assert_eq!(derive_title(&Json::Null, "no heading", &path), "foo");
}

#[test]
fn extracts_internal_wiki_and_markdown_links() {
    let path = PagePath::new("concepts/current.md").unwrap();
    let body = "See [[decisions/0001-single-sqlite-file|SQLite]] and \
                [gotcha](../gotchas/hooks.md#details). Also \
                [external](https://example.com) and ![image](../img/logo.png).";
    let links = extract_links(body, &path);
    assert_eq!(paths(&links), vec!["decisions/0001-single-sqlite-file.md", "gotchas/hooks.md"]);
}

#[test]
fn extract_links_ignores_fenced_code_blocks() {
    let path = PagePath::new("notes/a.md").unwrap();
    let body = "```\n[[notes/ignored]]\n```\n[[notes/kept]]\n";
    let links = extract_links(body, &path);
    assert_eq!(paths(&links), vec!["notes/kept.md"]);
}

#[test]
fn extract_links_ignores_commonmark_code_regions() {
    let path = PagePath::new("notes/a.md").unwrap();
    for body in [
        "Use `[[notes/inline]]` literally, then [[notes/kept]].",
        "Use `` `[[notes/double]]` `` literally, then [[notes/kept]].",
        "Use `[fake](notes/markdown-code.md)` literally, then [[notes/kept]].",
        "````\n```\n[[notes/inside-long-fence]]\n````\n[[notes/kept]]",
        "> ```\n> [[notes/quoted-fence]]\n> ```\n\n[[notes/kept]]",
        "    [[notes/indented-code]]\n\n[[notes/kept]]",
    ] {
        let links = extract_links(body, &path);
        assert_eq!(paths(&links), vec!["notes/kept.md"], "body: {body:?}");
    }
}

#[test]
fn markdown_links_with_uri_schemes_are_not_graph_edges() {
    let path = PagePath::new("notes/a.md").unwrap();
    let body = "[ssh](ssh:host/page.md) [urn](urn:example:thing.md) \
                [vscode](vscode:notes/page.md) [git](git+ssh:host/page.md) \
                [drive](C:/notes/page.md) [legacy](./a:b.md) [[notes/kept]]";
    let links = extract_links(body, &path);
    assert_eq!(paths(&links), vec!["notes/a:b.md", "notes/kept.md"]);
}

#[test]
fn markdown_links_with_balanced_parentheses_keep_full_destination() {
    let path = PagePath::new("notes/a.md").unwrap();
    let body = "[one](items/foo(bar).md) [nested](items/a(b(c)d)e.md) \
                [bad](items/unbalanced(one.md) [[notes/kept]]";
    let links = extract_links(body, &path);
    assert_eq!(
        paths(&links),
        vec!["notes/items/a(b(c)d)e.md", "notes/items/foo(bar).md", "notes/kept.md"]
    );
}

#[test]
fn markdown_links_with_balanced_or_escaped_brackets_in_text_are_extracted() {
    let path = PagePath::new("notes/a.md").unwrap();
    let body = "[outer [nested]](items/one.md) [escaped \\] bracket](items/two.md) [outer [inner](items/inner.md)";
    let links = extract_links(body, &path);
    assert_eq!(
        paths(&links),
        vec!["notes/items/inner.md", "notes/items/one.md", "notes/items/two.md"]
    );
}

#[test]
fn markdown_link_text_code_spans_are_opaque_to_bracket_matching() {
    let path = PagePath::new("notes/a.md").unwrap();
    let body = "[open `[` code](items/open.md) [close `]` code](items/close.md) [paired ``[x]`` code](items/paired.md)";
    let links = extract_links(body, &path);
    assert_eq!(
        paths(&links),
        vec!["notes/items/close.md", "notes/items/open.md", "notes/items/paired.md"]
    );
}

#[test]
fn extract_links_angle_destination_keeps_parenthesis() {
    let path = PagePath::new("notes/here.md").unwrap();
    let links = extract_links("[x](<items/foo)bar.md>)", &path);
    assert_eq!(paths(&links), vec!["notes/items/foo)bar.md"]);
}

#[test]
fn extract_links_with_optional_titles_keep_destination() {
    let path = PagePath::new("notes/here.md").unwrap();
    let body = r#"[double](items/double.md "Double title") [single](items/single.md 'Single title') [paren](items/paren.md (Paren title)) [spaces](items/spaces.md   )"#;
    let links = extract_links(body, &path);
    assert_eq!(
        paths(&links),
        vec![
            "notes/items/double.md",
            "notes/items/paren.md",
            "notes/items/single.md",
            "notes/items/spaces.md",
        ]
    );
}

#[test]
fn malformed_link_does_not_drop_later_links_on_the_same_line() {
    let path = PagePath::new("notes/a.md").unwrap();
    let body = "[bad](unterminated(oops.md) and later [good](good.md)";
    let links = extract_links(body, &path);
    assert_eq!(paths(&links), vec!["notes/good.md"]);
}

#[test]
fn bare_destination_with_unescaped_space_and_no_title_is_not_a_link() {
    let path = PagePath::new("notes/a.md").unwrap();
    let body = "[spaced file](items/my file.md) [[notes/kept]]";
    let links = extract_links(body, &path);
    assert_eq!(paths(&links), vec!["notes/kept.md"]);

    let escaped = "[spaced file](<items/my file.md>) [[notes/kept]]";
    let links = extract_links(escaped, &path);
    assert_eq!(paths(&links), vec!["notes/items/my file.md", "notes/kept.md"]);
}

#[test]
fn reference_style_links_resolve_through_their_definition() {
    let path = PagePath::new("notes/a.md").unwrap();
    let body = "See [the doc][ref] and [an unresolved one][missing].\n\n[ref]: items/target.md";
    let links = extract_links(body, &path);
    assert_eq!(paths(&links), vec!["notes/items/target.md"]);
}
