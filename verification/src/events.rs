//! The markdown event stream, reduced to the four shapes the renderer
//! distinguishes: a text run, a paragraph start, a paragraph end, and any
//! other construct (already rendered to markup on its own).

use vstd::prelude::*;
use pulldown_cmark::{Event, Options, Parser, Tag, TagEnd};
use pulldown_cmark::html::push_html;

verus! {

/// One unit of a parsed markdown document, as the renderer consumes it.
pub enum MdEvent {
    /// A run of text inside the current block.
    Text(String),
    /// A paragraph opens.
    ParaStart,
    /// A paragraph closes.
    ParaEnd,
    /// Any other construct, carried as the markup rendered for it alone.
    Other(String),
}

/// The mathematical form of an event.
pub enum MdEventV {
    Text(Seq<char>),
    ParaStart,
    ParaEnd,
    Other(Seq<char>),
}

impl View for MdEvent {
    type V = MdEventV;

    open spec fn view(&self) -> MdEventV {
        match self {
            MdEvent::Text(t) => MdEventV::Text(t@),
            MdEvent::ParaStart => MdEventV::ParaStart,
            MdEvent::ParaEnd => MdEventV::ParaEnd,
            MdEvent::Other(h) => MdEventV::Other(h@),
        }
    }
}

/// The event stream that the markdown grammar (CommonMark with the
/// strikethrough extension) yields for a document: a function of the document
/// text alone.
pub uninterp spec fn md_events(s: Seq<char>) -> Seq<MdEventV>;

/// Relies on pulldown_cmark's `Parser::new_ext` (CommonMark with the
/// strikethrough extension) and `html::push_html`: paragraph starts, paragraph
/// ends and text runs are handed over as they come, in document order; every
/// other event is handed over as the markup that `push_html` renders for that
/// single event.
#[verifier::external_body]
pub(crate) fn parse_markdown_events(md: &str) -> (events: Vec<MdEvent>)
    ensures
        events@.map_values(|e: MdEvent| e@) == md_events(md@),
{
    let mut opts = Options::empty();
    opts.insert(Options::ENABLE_STRIKETHROUGH);
    Parser::new_ext(md, opts).map(|ev| match ev {
        Event::Text(t) => MdEvent::Text(t.into_string()),
        Event::Start(Tag::Paragraph) => MdEvent::ParaStart,
        Event::End(TagEnd::Paragraph) => MdEvent::ParaEnd,
        other => {
            let mut html = String::new();
            push_html(&mut html, core::iter::once(other));
            MdEvent::Other(html)
        },
    }).collect()
}

} // verus!
