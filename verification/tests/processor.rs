use pulldown_cmark::{CowStr, Event, Parser, Tag};
use situ::processor::{rewrite_events, SituProcessor};

#[test]
fn the_quiz_marker_is_replaced_by_the_root() {
    let processor = SituProcessor::new();
    let processed = processor.process_chapter("/books/rust", "# Title\n\n{{#quiz}}\n\nSome *text*.\n");
    assert_eq!(processed, Some("# Title\n\n/books/rust\n\nSome *text*.".to_string()));
}

#[test]
fn a_chapter_without_marker_is_only_rewritten() {
    let processor = SituProcessor::new();
    let processed = processor.process_chapter("/books/rust", "Hello\n=====\n\n* one\n* two\n");
    assert_eq!(processed, Some("# Hello\n\n* one\n* two".to_string()));
    assert_eq!(processor.process_chapter("/r", ""), Some(String::new()));
}

#[test]
fn only_a_text_that_is_the_marker_alone_is_replaced() {
    let processor = SituProcessor::new();
    let processed = processor.process_chapter("/r", "see {{#quiz}} here\n\n`{{#quiz}}`\n");
    assert_eq!(processed, Some("see {{#quiz}} here\n\n`{{#quiz}}`".to_string()));
}

#[test]
fn events_are_rewritten_in_place() {
    let events: Vec<Event> = Parser::new("{{#quiz}}\n\nrest").collect();
    let rewritten = rewrite_events(events, "/root");
    assert_eq!(
        rewritten,
        vec![
            Event::Start(Tag::Paragraph),
            Event::Html(CowStr::Borrowed("/root")),
            Event::End(Tag::Paragraph),
            Event::Start(Tag::Paragraph),
            Event::Text(CowStr::Borrowed("rest")),
            Event::End(Tag::Paragraph),
        ]
    );
    let rewritten = rewrite_events(
        vec![Event::Code(CowStr::Borrowed("{{#quiz}}")), Event::Text(CowStr::Borrowed("{{#quiz}} "))],
        "/root",
    );
    assert_eq!(
        rewritten,
        vec![Event::Code(CowStr::Borrowed("{{#quiz}}")), Event::Text(CowStr::Borrowed("{{#quiz}} "))]
    );
    assert_eq!(rewrite_events(Vec::new(), "/root"), Vec::new());
}

#[test]
fn the_preprocessor_has_its_name() {
    assert_eq!(SituProcessor::new().name(), "situ");
}

#[test]
fn every_renderer_but_one_is_supported() {
    let processor = SituProcessor::new();
    assert!(processor.supports_renderer("html"));
    assert!(processor.supports_renderer(""));
    assert!(processor.supports_renderer("not-supported "));
    assert!(!processor.supports_renderer("not-supported"));
}
