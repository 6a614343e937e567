use ai_memory_wiki::{
    derive_title, extract_all_links, extract_links, extract_relation_links, frame_document,
    has_frontmatter, has_uri_scheme, log_bounded, split_frontmatter, split_scope, Json, PagePath,
    PathError, Relation,
};

fn page(p: &str) -> PagePath {
    PagePath::new(p).unwrap()
}

fn object(entries: Vec<(&str, Json)>) -> Json {
    Json::Object(entries.into_iter().map(|(k, v)| (k.to_string(), v)).collect())
}

fn strings(items: &[&str]) -> Json {
    Json::Array(items.iter().map(|s| Json::String(s.to_string())).collect())
}

fn link_paths(links: &[ai_memory_wiki::LinkTarget]) -> Vec<String> {
    links.iter().map(|l| l.path.as_str().to_string()).collect()
}

#[test]
fn page_path_errors_name_the_first_failed_check() {
    assert_eq!(PagePath::new("").unwrap_err(), PathError::Empty);
    assert_eq!(PagePath::new("/notes/a.md").unwrap_err(), PathError::Absolute);
    assert_eq!(PagePath::new("notes\\a.md").unwrap_err(), PathError::Backslash);
    assert_eq!(PagePath::new("C:/notes/a.md").unwrap_err(), PathError::DrivePrefix);
    assert_eq!(PagePath::new("notes//a.md").unwrap_err(), PathError::BadSegment);
    assert_eq!(PagePath::new("./a.md").unwrap_err(), PathError::BadSegment);
    assert_eq!(PagePath::new("notes/../a.md").unwrap_err(), PathError::BadSegment);
    assert_eq!(PagePath::new("notes/").unwrap_err(), PathError::BadSegment);
    assert_eq!(PagePath::new("notes/a:b.md").unwrap().as_str(), "notes/a:b.md");
    assert_eq!(PagePath::new("CON.md").unwrap().as_str(), "CON.md");
}

#[test]
fn split_scope_peels_project_and_workspace() {
    assert_eq!(
        split_scope("infra:runbooks/02.md"),
        (None, Some("infra".to_string()), "runbooks/02.md".to_string())
    );
    assert_eq!(
        split_scope(" ws/proj : notes/x.md "),
        (Some("ws".to_string()), Some("proj".to_string()), "notes/x.md".to_string())
    );
    assert_eq!(split_scope("https://x.org/a"), (None, None, "https://x.org/a".to_string()));
    assert_eq!(split_scope("MAILTO:me@x.org"), (None, None, "MAILTO:me@x.org".to_string()));
    assert_eq!(split_scope("a b:c"), (None, None, "a b:c".to_string()));
    assert_eq!(split_scope(":c"), (None, None, ":c".to_string()));
    assert_eq!(split_scope("ws/:c"), (None, None, "ws/:c".to_string()));
    assert_eq!(split_scope("plain/path"), (None, None, "plain/path".to_string()));
}

#[test]
fn split_scope_accepts_unicode_alphanumeric_scopes() {
    assert_eq!(
        split_scope("über:x.md"),
        (None, Some("über".to_string()), "x.md".to_string())
    );
    assert_eq!(split_scope("a→b:x.md"), (None, None, "a→b:x.md".to_string()));
}

#[test]
fn has_uri_scheme_follows_rfc_3986() {
    assert!(has_uri_scheme("ssh:host/page.md"));
    assert!(has_uri_scheme("git+ssh:host"));
    assert!(has_uri_scheme("C:/notes/page.md"));
    assert!(has_uri_scheme("urn:example:thing.md"));
    assert!(!has_uri_scheme("./a:b.md"));
    assert!(!has_uri_scheme("1abc:x"));
    assert!(!has_uri_scheme(":x"));
    assert!(!has_uri_scheme("no-colon"));
}

#[test]
fn log_bounded_keeps_the_longest_whole_character_prefix() {
    let ascii = "x".repeat(300);
    assert_eq!(log_bounded(&ascii), "x".repeat(200));
    let two_byte = "é".repeat(150);
    assert_eq!(log_bounded(&two_byte), "é".repeat(100));
    let mixed = format!("a{}", "é".repeat(150));
    assert_eq!(log_bounded(&mixed), format!("a{}", "é".repeat(99)));
    assert_eq!(log_bounded(""), "");
}

#[test]
fn frame_document_adds_the_missing_newline_only() {
    assert_eq!(frame_document(Some("a: 1"), "body"), "---\na: 1\n---\nbody");
    assert_eq!(frame_document(Some("a: 1\n"), "body"), "---\na: 1\n---\nbody");
    assert_eq!(frame_document(None, "body"), "body");
}

#[test]
fn framed_document_splits_back_into_yaml_and_body() {
    let doc = frame_document(Some("title: X\ntags:\n- a\n"), "Line 1\n---\nLine 2\n");
    let raw = split_frontmatter(&doc);
    assert_eq!(raw.frontmatter_yaml.as_deref(), Some("title: X\ntags:\n- a"));
    assert_eq!(raw.body, "Line 1\n---\nLine 2\n");
}

#[test]
fn byte_order_mark_is_dropped_once() {
    let raw = split_frontmatter("\u{FEFF}plain");
    assert_eq!(raw.frontmatter_yaml, None);
    assert_eq!(raw.body, "plain");
    let raw = split_frontmatter("\u{FEFF}\u{FEFF}plain");
    assert_eq!(raw.body, "\u{FEFF}plain");
    let raw = split_frontmatter("---\n---\nbody");
    assert_eq!(raw.frontmatter_yaml, None);
    assert_eq!(raw.body, "---\n---\nbody");
    let raw = split_frontmatter("---\n\n---\nbody");
    assert_eq!(raw.frontmatter_yaml.as_deref(), Some(""));
    assert_eq!(raw.body, "body");
}

#[test]
fn has_frontmatter_omits_null_and_empty_objects() {
    assert!(!has_frontmatter(&Json::Null));
    assert!(!has_frontmatter(&Json::Object(Vec::new())));
    assert!(has_frontmatter(&object(vec![("a", Json::Bool(true))])));
    assert!(has_frontmatter(&Json::Array(Vec::new())));
    assert!(has_frontmatter(&Json::Number("1".to_string())));
}

#[test]
fn derive_title_skips_blank_titles_and_headings() {
    let path = page("notes/foo.md");
    let blank = object(vec![("title", Json::String("   ".to_string()))]);
    assert_eq!(derive_title(&blank, "#   \n# Real \n", &path), "Real");
    let not_string = object(vec![("title", Json::Number("7".to_string()))]);
    assert_eq!(derive_title(&not_string, "#nospace\n", &path), "foo");
    assert_eq!(derive_title(&Json::Null, "text\r\n# Windows\r\n", &path), "Windows");
    assert_eq!(derive_title(&Json::Null, "", &page("foo.md")), "foo");
    assert_eq!(derive_title(&Json::Null, "", &page("notes/readme")), "readme");
}

#[test]
fn extract_links_dedupes_and_orders_by_scope_then_path() {
    let links = extract_links("[[w/p:x]] [[p:y]] [[z]] [[z.md]] [[z|again]]", &page("notes/a.md"));
    assert_eq!(link_paths(&links), vec!["z.md", "y.md", "x.md"]);
    assert_eq!(links[0].project, None);
    assert_eq!(links[1].project.as_deref(), Some("p"));
    assert_eq!(links[1].workspace, None);
    assert_eq!(links[2].workspace.as_deref(), Some("w"));
}

#[test]
fn wikilinks_are_root_relative_and_markdown_links_page_relative() {
    let links = extract_links("[[a]] [a](a.md) [up](../b.md) [abs](/c.md)", &page("notes/x.md"));
    assert_eq!(link_paths(&links), vec!["a.md", "b.md", "c.md", "notes/a.md"]);
}

#[test]
fn links_that_climb_above_the_root_are_dropped() {
    let links = extract_links("[[../../x]] [up](../../y.md) [[notes/ok]]", &page("notes/x.md"));
    assert_eq!(link_paths(&links), vec!["notes/ok.md"]);
}

#[test]
fn anchors_queries_and_assets_are_handled() {
    let links = extract_links(
        "[a](#top) [b](b.md?x=1) [c](c.png) [d](sub/) [e](<e.md>) [[f#sec]]",
        &page("notes/x.md"),
    );
    assert_eq!(link_paths(&links), vec!["f.md", "notes/b.md", "notes/e.md", "notes/sub"]);
}

#[test]
fn wikilink_scan_stops_at_an_unclosed_opener() {
    let links = extract_links("[[a]] [[b\n[[c]]", &page("notes/x.md"));
    assert_eq!(link_paths(&links), vec!["a.md", "c.md"]);
}

#[test]
fn relation_vocabulary_parses_and_names_itself() {
    assert_eq!(Relation::parse("fixes"), Some(Relation::Fixes));
    assert_eq!(Relation::parse("contradicts"), Some(Relation::Contradicts));
    assert_eq!(Relation::parse("causes"), Some(Relation::Causes));
    assert_eq!(Relation::parse("Fixes"), None);
    assert_eq!(Relation::parse("blames"), None);
    assert_eq!(Relation::Causes.as_str(), "causes");
}

#[test]
fn relation_targets_keep_order_and_skip_non_strings() {
    let fm = object(vec![(
        "relations",
        object(vec![(
            "fixes",
            Json::Array(vec![
                Json::String("b".to_string()),
                Json::Number("3".to_string()),
                Json::String(" a.md ".to_string()),
                Json::String("x:".to_string()),
            ]),
        )]),
    )]);
    let links = extract_relation_links(&fm);
    assert_eq!(link_paths(&links), vec!["b.md", "a.md", ".md"]);
    assert_eq!(links[2].project.as_deref(), Some("x"));
    assert!(links.iter().all(|l| l.relation == Some(Relation::Fixes)));
    let not_array = object(vec![("relations", object(vec![("fixes", Json::String("a".into()))]))]);
    assert!(extract_relation_links(&not_array).is_empty());
    assert!(extract_relation_links(&Json::Null).is_empty());
}

#[test]
fn all_links_put_body_links_before_typed_edges() {
    let fm = object(vec![("relations", object(vec![("causes", strings(&["z.md", "a.md"]))]))]);
    let links = extract_all_links(&fm, "[[m]] [[b]]", &page("notes/x.md"));
    assert_eq!(link_paths(&links), vec!["b.md", "m.md", "z.md", "a.md"]);
    assert!(links[..2].iter().all(|l| l.relation.is_none()));
    assert!(links[2..].iter().all(|l| l.relation == Some(Relation::Causes)));
}

#[test]
fn link_targets_clone_and_report_scope() {
    let links = extract_links("[[p:x]]", &page("notes/x.md"));
    let copy = links[0].clone();
    assert_eq!(copy, links[0]);
    assert!(copy.is_cross_project());
}
