//! Markdown parsing and HTML output through `pulldown-cmark`. The parser's
//! events are held together with the source they were read from; only the
//! items of this module build such a value, so the events are always the
//! parse of that source.

use vstd::prelude::*;

use pulldown_cmark::CodeBlockKind::Fenced;
use pulldown_cmark::CowStr::Borrowed;
use pulldown_cmark::Event::{End, Start};
use pulldown_cmark::Tag::{Link, MetadataBlock};
use pulldown_cmark::{CowStr, Event, Options, Parser, Tag, TagEnd};

use crate::markdown::MdEvent::{
    EndCodeBlock, EndLink, EndMetadata, Other, StartFencedCode, StartLink, StartMetadata,
};
use crate::markdown::{Emit, EmitModel, MdEvent};

verus! {

#[verifier::external_type_specification]
#[verifier::external_body]
pub struct ExEvent<'a>(Event<'a>);

/// The events that `pulldown_cmark::Parser` yields for a source, with that
/// source.
pub struct ParsedMarkdown<'a> {
    source: &'a str,
    events: Vec<Event<'a>>,
}

impl<'a> ParsedMarkdown<'a> {
    /// The markdown source the events were read from.
    pub closed spec fn source(&self) -> Seq<char> {
        self.source@
    }

    /// The number of events.
    pub closed spec fn len(&self) -> nat {
        self.events@.len()
    }
}

/// What the rewriting reads of each event that `pulldown_cmark::Parser`
/// yields for `input` (see [`parse_events`]).
pub uninterp spec fn markdown_event_models(input: Seq<char>) -> Seq<MdEvent>;

/// `pulldown_cmark::Parser::new_ext` with YAML-style metadata blocks,
/// heading attributes, footnotes, GitHub-flavoured markdown and tables
/// enabled: the events of `input`, collected, each beside what the rewriting
/// reads of it (its variant, told apart as [`MdEvent`] does, with the info
/// string, URL or text it carries). The markdown grammar is not modelled:
/// the models are named, as a function of `input` alone, by
/// [`markdown_event_models`].
#[verifier::external_body]
pub(crate) fn parse_events<'a>(input: &'a str) -> (r: (ParsedMarkdown<'a>, Vec<MdEvent>))
    ensures
        r.0.source() == input@,
        r.0.len() == r.1@.len(),
        r.1@ == markdown_event_models(input@),
{
    let o = Options::ENABLE_YAML_STYLE_METADATA_BLOCKS | Options::ENABLE_HEADING_ATTRIBUTES | Options::ENABLE_FOOTNOTES | Options::ENABLE_GFM | Options::ENABLE_TABLES;
    let events: Vec<_> = Parser::new_ext(input, o).collect();
    let models = events.iter().map(|ev| match ev {
        Start(Tag::CodeBlock(Fenced(l))) => StartFencedCode(l.to_string()),
        Start(MetadataBlock(_)) => StartMetadata,
        Start(Link { dest_url: u, .. }) => StartLink { url: u.to_string(), borrowed: matches!(u, Borrowed(_)) },
        End(TagEnd::CodeBlock) => EndCodeBlock,
        End(TagEnd::MetadataBlock(_)) => EndMetadata,
        End(TagEnd::Link) => EndLink,
        Event::Text(t) => MdEvent::Text(t.to_string()),
        _ => Other,
    }).collect();
    (ParsedMarkdown { source: input, events }, models)
}

/// The HTML that `pulldown_cmark::html::push_html` writes for the events
/// that `emits` lists, where `Keep(i)` stands for the `i`-th event that
/// `pulldown_cmark::Parser` yields for `source` (see [`parse_events`]) and
/// `Html(h)` for a raw HTML event holding `h` (see [`events_html`]).
pub uninterp spec fn markdown_html(source: Seq<char>, emits: Seq<EmitModel>) -> Seq<char>;

/// `pulldown_cmark::html::push_html` on the events that `emits` lists: for
/// `Keep(i)` the `i`-th event of `doc`, for `Html(h)` `Event::Html` holding
/// `h`. The HTML rendering is not modelled: its result is named, as a
/// function of the source and `emits`, by [`markdown_html`].
#[verifier::external_body]
pub(crate) fn events_html(doc: &ParsedMarkdown, emits: &Vec<Emit>) -> (html: String)
    requires
        forall|k: int|
            0 <= k < emits@.len() ==> (#[trigger] emits@[k]@ matches EmitModel::Keep(i) ==> 0 <= i
                < doc.len()),
    ensures
        html@ == markdown_html(doc.source(), emits@.map_values(|e: Emit| e@)),
{
    let mut html = String::new();
    pulldown_cmark::html::push_html(&mut html, emits.iter().map(|e| match e {
        Emit::Keep(i) => doc.events[*i].clone(),
        Emit::Html(h) => Event::Html(CowStr::from(h.clone())),
    }));
    html
}

} // verus!
