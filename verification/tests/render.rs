use page_stream::render::{render, ServerAppProps};
use page_stream::shell::{split, Shell};
use page_stream::stream::{ResponseStream, StreamAction, StreamEvent};
use std::collections::HashMap;

#[test]
fn render_hands_over_the_request_and_opens_the_stream() {
    let mut queries = HashMap::new();
    queries.insert("page".to_string(), "2".to_string());
    queries.insert("q".to_string(), "rust".to_string());
    let shell = Shell { prefix: "<html><body>".to_string(), suffix: "</body></html>".to_string() };
    let (props, stream, first) = render("/yewq?page=2&q=rust".to_string(), queries.clone(), shell);
    assert_eq!(props, ServerAppProps { url: "/yewq?page=2&q=rust".to_string(), queries });
    assert_eq!(first, StreamAction::Emit("<html><body>".to_string()));
    assert_eq!(stream, ResponseStream::Body { suffix: "</body></html>".to_string() });
}

#[test]
fn render_stream_brackets_the_fragments() {
    let shell = split("<html><body></body></html>", "<body>").unwrap();
    let (props, stream, first) = render("/".to_string(), HashMap::new(), shell);
    assert_eq!(props.url, "/");
    assert!(props.queries.is_empty());
    let mut page = String::new();
    if let StreamAction::Emit(chunk) = first {
        page.push_str(&chunk);
    }
    let (stream, action) = stream.feed(StreamEvent::Fragment("<div>Hello</div>".to_string()));
    if let StreamAction::Emit(chunk) = action {
        page.push_str(&chunk);
    }
    let (stream, action) = stream.feed(StreamEvent::Completed);
    if let StreamAction::Emit(chunk) = action {
        page.push_str(&chunk);
    }
    assert!(!stream.is_open());
    assert_eq!(page, "<html><body><div>Hello</div></body></html>");
}
