//! CommonMark parsing, done by the `pulldown_cmark` crate.
use vstd::prelude::*;

verus! {

/// What the title of a note needs to know of a parser event.
#[derive(Debug, Clone, PartialEq)]
pub enum MarkdownEvent {
    /// A heading of any level starts.
    HeadingStart,
    /// A heading of any level ends.
    HeadingEnd,
    /// A run of text, inside or outside any element.
    Text(String),
    /// Any other event.
    Other,
}

/// The mathematical value of a [`MarkdownEvent`].
pub enum MarkdownEventView {
    HeadingStart,
    HeadingEnd,
    Text(Seq<char>),
    Other,
}

impl View for MarkdownEvent {
    type V = MarkdownEventView;

    open spec fn view(&self) -> MarkdownEventView {
        match self {
            MarkdownEvent::HeadingStart => MarkdownEventView::HeadingStart,
            MarkdownEvent::HeadingEnd => MarkdownEventView::HeadingEnd,
            MarkdownEvent::Text(text) => MarkdownEventView::Text(text@),
            MarkdownEvent::Other => MarkdownEventView::Other,
        }
    }
}

/// The events that `pulldown_cmark` yields for `text` with no option
/// enabled, in order, each reduced to a [`MarkdownEvent`].
pub uninterp spec fn markdown_events(text: Seq<char>) -> Seq<MarkdownEventView>;

/// `pulldown_cmark::Parser::new`, run to its end.
#[verifier::external_body]
pub(crate) fn parse_events(text: &str) -> (events: Vec<MarkdownEvent>)
    ensures
        crate::seqs::views(events@) == markdown_events(text@),
{
    pulldown_cmark::Parser::new(text).map(
        |event|
            match event {
                pulldown_cmark::Event::Start(pulldown_cmark::Tag::Heading { .. }) => {
                    MarkdownEvent::HeadingStart
                },
                pulldown_cmark::Event::End(pulldown_cmark::TagEnd::Heading(_)) => {
                    MarkdownEvent::HeadingEnd
                },
                pulldown_cmark::Event::Text(text) => MarkdownEvent::Text(text.to_string()),
                _ => MarkdownEvent::Other,
            },
    ).collect()
}

} // verus!
