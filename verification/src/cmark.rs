//! The CommonMark parse of a page body, as the plain events that link
//! extraction reads.
use vstd::prelude::*;
use pulldown_cmark::{Event, LinkType, Parser, Tag, TagEnd};

verus! {

/// One event of the CommonMark parse of a body, with the byte offsets of
/// its source range that link extraction uses.
pub enum MdEvent {
    /// The start of a code block (fenced or indented), at this offset.
    CodeBlockStart(usize),
    /// The end of a code block, whose source range ends at this offset.
    CodeBlockEnd(usize),
    /// An inline code span over this source range.
    Code(usize, usize),
    /// The start of a link; `unresolved` marks a reference that no
    /// definition resolves.
    Link { unresolved: bool, dest: String },
    /// Any other event.
    Other,
}

/// An event as plain values.
pub enum EventView {
    CodeBlockStart(usize),
    CodeBlockEnd(usize),
    Code(usize, usize),
    Link(bool, Seq<char>),
    Other,
}

impl View for MdEvent {
    type V = EventView;

    open spec fn view(&self) -> EventView {
        match self {
            MdEvent::CodeBlockStart(o) => EventView::CodeBlockStart(*o),
            MdEvent::CodeBlockEnd(o) => EventView::CodeBlockEnd(*o),
            MdEvent::Code(a, b) => EventView::Code(*a, *b),
            MdEvent::Link { unresolved, dest } => EventView::Link(*unresolved, dest@),
            MdEvent::Other => EventView::Other,
        }
    }
}

pub open spec fn event_views(v: Seq<MdEvent>) -> Seq<EventView> {
    v.map_values(|e: MdEvent| e@)
}

/// The events that `pulldown_cmark::Parser::new(body)` (default options)
/// yields through `into_offset_iter`, in order.
pub uninterp spec fn cmark_events(body: Seq<char>) -> Seq<EventView>;

/// `pulldown_cmark::Parser::new(body).into_offset_iter()`: each event
/// converted to an `MdEvent` (code-block starts and ends, code spans, link
/// starts; everything else `Other`). The parse is a function of the text
/// alone; the events themselves are named, not stated.
#[verifier::external_body]
pub fn parse_events(body: &str) -> (events: Vec<MdEvent>)
    ensures
        event_views(events@) == cmark_events(body@),
{
    Parser::new(body).into_offset_iter().map(|(event, range)| match event {
        Event::Start(Tag::CodeBlock(_)) => MdEvent::CodeBlockStart(range.start),
        Event::End(TagEnd::CodeBlock) => MdEvent::CodeBlockEnd(range.end),
        Event::Code(_) => MdEvent::Code(range.start, range.end),
        Event::Start(Tag::Link { link_type, dest_url, .. }) => MdEvent::Link {
            unresolved: matches!(
                link_type,
                LinkType::ReferenceUnknown | LinkType::CollapsedUnknown | LinkType::ShortcutUnknown
            ),
            dest: dest_url.to_string(),
        },
        _ => MdEvent::Other,
    }).collect()
}

} // verus!
