//! The Markdown events the document reader consumes. `pulldown_cmark` does
//! the CommonMark parsing; its events are turned one for one into
//! [`MdEvent`], a plain value the verified reader in [`crate::doc`] folds.

use pulldown_cmark::{Event, Options, Parser, Tag, TagEnd};
use vstd::prelude::*;

verus! {

/// `pulldown_cmark::Event`, opaque to the verifier.
#[verifier::external_type_specification]
#[verifier::external_body]
pub struct ExEvent<'a>(Event<'a>);

/// `pulldown_cmark::Tag`, opaque to the verifier.
#[verifier::external_type_specification]
#[verifier::external_body]
pub struct ExTag<'a>(Tag<'a>);

/// `pulldown_cmark::TagEnd`, opaque to the verifier.
#[verifier::external_type_specification]
#[verifier::external_body]
pub struct ExTagEnd(TagEnd);

/// One Markdown event, as far as the document reader tells events apart.
#[derive(Clone, Debug, PartialEq, Eq)]
pub enum MdEvent {
    /// The start of a `---` front-matter block.
    MetadataStart,
    /// The end of a front-matter block.
    MetadataEnd,
    /// The start of a fenced or indented code block.
    CodeBlockStart,
    /// The end of a code block.
    CodeBlockEnd,
    /// The start of a heading of the given level (1 for `#` .. 6).
    HeadingStart(u8),
    /// The end of a heading.
    HeadingEnd,
    /// A run of text.
    Text(String),
    /// An inline code span.
    Code(String),
    /// A line break inside a paragraph.
    SoftBreak,
    /// A hard line break.
    HardBreak,
    /// The end of a table cell.
    TableCellEnd,
    /// The end of a paragraph.
    ParagraphEnd,
    /// The end of a list item.
    ItemEnd,
    /// The end of a table row.
    TableRowEnd,
    /// The end of a table head.
    TableHeadEnd,
    /// A thematic break (`---` between blank lines): a slide separator.
    Rule,
    /// Any other event: the reader ignores it.
    Other,
}

/// [`MdEvent`] with its text taken as characters.
pub enum MdEventView {
    MetadataStart,
    MetadataEnd,
    CodeBlockStart,
    CodeBlockEnd,
    HeadingStart(u8),
    HeadingEnd,
    Text(Seq<char>),
    Code(Seq<char>),
    SoftBreak,
    HardBreak,
    TableCellEnd,
    ParagraphEnd,
    ItemEnd,
    TableRowEnd,
    TableHeadEnd,
    Rule,
    Other,
}

impl View for MdEvent {
    type V = MdEventView;

    open spec fn view(&self) -> MdEventView {
        match self {
            MdEvent::MetadataStart => MdEventView::MetadataStart,
            MdEvent::MetadataEnd => MdEventView::MetadataEnd,
            MdEvent::CodeBlockStart => MdEventView::CodeBlockStart,
            MdEvent::CodeBlockEnd => MdEventView::CodeBlockEnd,
            MdEvent::HeadingStart(l) => MdEventView::HeadingStart(*l),
            MdEvent::HeadingEnd => MdEventView::HeadingEnd,
            MdEvent::Text(t) => MdEventView::Text(t@),
            MdEvent::Code(t) => MdEventView::Code(t@),
            MdEvent::SoftBreak => MdEventView::SoftBreak,
            MdEvent::HardBreak => MdEventView::HardBreak,
            MdEvent::TableCellEnd => MdEventView::TableCellEnd,
            MdEvent::ParagraphEnd => MdEventView::ParagraphEnd,
            MdEvent::ItemEnd => MdEventView::ItemEnd,
            MdEvent::TableRowEnd => MdEventView::TableRowEnd,
            MdEvent::TableHeadEnd => MdEventView::TableHeadEnd,
            MdEvent::Rule => MdEventView::Rule,
            MdEvent::Other => MdEventView::Other,
        }
    }
}

/// The events of a sequence, each taken by its view.
pub open spec fn events_view(events: Seq<MdEvent>) -> Seq<MdEventView> {
    events.map_values(|e: MdEvent| e@)
}

/// What `pulldown_cmark::Parser::new_ext` yields for `src`, with YAML-style
/// front matter, tables, strikethrough and task lists enabled, each event
/// taken as an [`MdEvent`].
pub uninterp spec fn markdown_events(src: Seq<char>) -> Seq<MdEventView>;

/// `pulldown_cmark::Parser::new_ext(src, options)`, collected: the event
/// stream of `src` with YAML-style metadata blocks, tables, strikethrough and
/// task lists enabled, each event converted by [`event_of`]. The contract
/// says only that the result is that stream, by name ([`markdown_events`]):
/// what CommonMark parsing yields for a given text is not stated.
#[verifier::external_body]
pub(crate) fn parse_markdown(src: &str) -> (events: Vec<MdEvent>)
    ensures
        events_view(events@) == markdown_events(src@),
{
    let options = Options::ENABLE_YAML_STYLE_METADATA_BLOCKS | Options::ENABLE_TABLES
        | Options::ENABLE_STRIKETHROUGH | Options::ENABLE_TASKLISTS;
    Parser::new_ext(src, options).map(event_of).collect()
}

/// A `pulldown_cmark::Event` as an [`MdEvent`], one variant for one variant
/// (`Start` and `End` by their tag); no contract is claimed.
#[verifier::external_body]
fn event_of(event: Event<'_>) -> MdEvent {
    match event {
        Event::Start(tag) => start_of(tag),
        Event::End(tag) => end_of(tag),
        Event::Text(text) => MdEvent::Text(text.into_string()),
        Event::Code(text) => MdEvent::Code(text.into_string()),
        Event::SoftBreak => MdEvent::SoftBreak,
        Event::HardBreak => MdEvent::HardBreak,
        Event::Rule => MdEvent::Rule,
        _ => MdEvent::Other,
    }
}

/// A `pulldown_cmark::Tag` that opens an element, as an [`MdEvent`]; no
/// contract is claimed.
#[verifier::external_body]
fn start_of(tag: Tag<'_>) -> MdEvent {
    match tag {
        Tag::MetadataBlock(_) => MdEvent::MetadataStart,
        Tag::CodeBlock(_) => MdEvent::CodeBlockStart,
        Tag::Heading { level, .. } => MdEvent::HeadingStart(level as u8),
        _ => MdEvent::Other,
    }
}

/// A `pulldown_cmark::TagEnd` that closes an element, as an [`MdEvent`]; no
/// contract is claimed.
#[verifier::external_body]
fn end_of(tag: TagEnd) -> MdEvent {
    match tag {
        TagEnd::MetadataBlock(_) => MdEvent::MetadataEnd,
        TagEnd::CodeBlock => MdEvent::CodeBlockEnd,
        TagEnd::Heading(_) => MdEvent::HeadingEnd,
        TagEnd::TableCell => MdEvent::TableCellEnd,
        TagEnd::Paragraph => MdEvent::ParagraphEnd,
        TagEnd::Item => MdEvent::ItemEnd,
        TagEnd::TableRow => MdEvent::TableRowEnd,
        TagEnd::TableHead => MdEvent::TableHeadEnd,
        _ => MdEvent::Other,
    }
}

} // verus!
