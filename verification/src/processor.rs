//! The book preprocessor: puts the book's root where a chapter asks for a
//! quiz.
//!
//! A chapter is markdown. It is taken apart into the parser's events, every
//! text event that reads `{{#quiz}}` is replaced by an HTML event that holds
//! the book's root, and the events are put together again.

use pulldown_cmark::{CowStr, Event, Parser};
use pulldown_cmark_to_cmark::cmark;
use vstd::prelude::*;

verus! {

/// An event of the markdown parser `pulldown_cmark`.
#[verifier::external_type_specification]
#[verifier::external_body]
pub struct ExEvent<'a>(Event<'a>);

/// The events that the markdown parser makes of a text.
pub uninterp spec fn parsed_events(content: Seq<char>) -> Seq<Event<'static>>;

/// The text that a text event holds; an event of another kind has none.
pub uninterp spec fn event_text(event: Event<'static>) -> Option<Seq<char>>;

/// The HTML event that holds the given text.
pub uninterp spec fn html_event_of(html: Seq<char>) -> Event<'static>;

/// The markdown that a list of events is written as, where it can be written.
pub uninterp spec fn rendered(events: Seq<Event<'static>>) -> Option<Seq<char>>;

/// `Parser::new` of `pulldown_cmark`, with its events gathered in a list:
/// the events of the text, in document order, under the parser's default
/// options.
#[verifier::external_body]
fn parse_events<'a>(content: &'a str) -> (events: Vec<Event<'a>>)
    ensures
        events@ == parsed_events(content@),
{
    Parser::new(content).collect()
}

/// Tells the variant `Event::Text` of `pulldown_cmark` from the others, and
/// hands out the text it holds.
#[verifier::external_body]
fn text_of_event(event: &Event<'_>) -> (text: Option<String>)
    ensures
        match text {
            Some(t) => event_text(*event) == Some(t@),
            None => event_text(*event) is None,
        },
{
    match event {
        Event::Text(text) => Some(text.to_string()),
        _ => None,
    }
}

/// Makes the variant `Event::Html` of `pulldown_cmark` from a text.
#[verifier::external_body]
fn html_event(html: String) -> (event: Event<'static>)
    ensures
        event == html_event_of(html@),
{
    Event::Html(CowStr::Boxed(html.into_boxed_str()))
}

/// `cmark` of `pulldown_cmark_to_cmark`, writing to a fresh text: the
/// markdown of the events, or nothing where the writer reports an error.
#[verifier::external_body]
fn render_events(events: &Vec<Event<'_>>) -> (text: Option<String>)
    ensures
        match text {
            Some(t) => rendered(events@) == Some(t@),
            None => rendered(events@) is None,
        },
{
    let mut text = String::new();
    match cmark(events.iter(), &mut text) {
        Ok(_) => Some(text),
        Err(_) => None,
    }
}

/// The text by which a chapter asks for a quiz.
pub open spec fn quiz_marker() -> Seq<char> {
    "{{#quiz}}"@
}

/// The name of the preprocessor.
pub open spec fn processor_name() -> Seq<char> {
    "situ"@
}

/// The one renderer that the preprocessor does not work for.
pub open spec fn unsupported_renderer() -> Seq<char> {
    "not-supported"@
}

/// What becomes of one event: a text event that reads as the quiz marker
/// becomes an HTML event that holds the book's root; any other event stays.
pub open spec fn rewrite_event(event: Event<'static>, root: Seq<char>) -> Event<'static> {
    if event_text(event) == Some(quiz_marker()) {
        html_event_of(root)
    } else {
        event
    }
}

/// What becomes of a chapter's events: each is rewritten in its place.
pub open spec fn rewrite_spec(events: Seq<Event<'static>>, root: Seq<char>) -> Seq<Event<'static>> {
    Seq::new(events.len(), |i: int| rewrite_event(events[i], root))
}

/// Rewrites a chapter's events: puts the book's root where the chapter asks
/// for a quiz.
pub fn rewrite_events<'a>(events: Vec<Event<'a>>, root: &str) -> (rewritten: Vec<Event<'a>>)
    ensures
        rewritten@ == rewrite_spec(events@, root@),
{
    let marker = String::from_str("{{#quiz}}");
    let mut rewritten = events;
    let mut i: usize = 0;
    while i < rewritten.len()
        invariant
            i <= rewritten.len(),
            rewritten.len() == events.len(),
            marker@ == quiz_marker(),
            forall|k: int| 0 <= k < i ==> rewritten@[k] == rewrite_event(events@[k], root@),
            forall|k: int| i <= k < rewritten.len() ==> rewritten@[k] == events@[k],
        decreases rewritten.len() - i,
    {
        let asks = match text_of_event(&rewritten[i]) {
            Some(text) => text == marker,
            None => false,
        };
        if asks {
            rewritten.set(i, html_event(String::from_str(root)));
        }
        i = i + 1;
    }
    proof {
        assert(rewritten@ =~= rewrite_spec(events@, root@));
    }
    rewritten
}

/// The preprocessor of the book.
pub struct SituProcessor;

impl SituProcessor {
    /// The preprocessor.
    pub fn new() -> (processor: SituProcessor)
        ensures
            processor == SituProcessor,
    {
        SituProcessor
    }

    /// The name under which the book knows the preprocessor.
    pub fn name(&self) -> (name: &'static str)
        ensures
            name@ == processor_name(),
    {
        "situ"
    }

    /// Whether the preprocessor works for a renderer: for every one but the
    /// one that is called `not-supported`.
    pub fn supports_renderer(&self, renderer: &str) -> (supported: bool)
        ensures
            supported == (renderer@ != unsupported_renderer()),
    {
        let renderer = String::from_str(renderer);
        let unsupported = String::from_str("not-supported");
        !(renderer == unsupported)
    }

    /// Processes the content of one chapter of a book whose root is `root`:
    /// parses it, rewrites its events and writes them out again. There is no
    /// content where the events cannot be written.
    pub fn process_chapter(&self, root: &str, content: &str) -> (processed: Option<String>)
        ensures
            match processed {
                Some(text) => rendered(rewrite_spec(parsed_events(content@), root@)) == Some(text@),
                None => rendered(rewrite_spec(parsed_events(content@), root@)) is None,
            },
    {
        let events = parse_events(content);
        let rewritten = rewrite_events(events, root);
        render_events(&rewritten)
    }
}

} // verus!
