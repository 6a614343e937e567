//! Frontmatter-aware markdown handling for a wiki of pages: splitting and
//! framing documents, deriving page titles, and extracting the page graph's
//! outgoing links from bodies and from typed `relations:` frontmatter.
pub mod cmark;
pub mod document;
pub mod document_laws;
pub mod json;
pub mod keys;
pub mod laws;
pub mod link_laws;
pub mod links;
pub mod page;
pub mod target;
pub mod text;

pub use document::{
    derive_title, emit_with_yaml, frame_document, log_bounded, split_frontmatter, Markdown,
    RawDocument, RELATION_LOG_FIELD_MAX_BYTES,
};
pub use json::{has_frontmatter, Json};
pub use links::{extract_all_links, extract_links, extract_relation_links, links_from_events};
pub use page::{LinkTarget, PagePath, PathError, Relation};
pub use target::{has_uri_scheme, split_scope};
