use page_stream::shell::split;
use page_stream::stream::{assemble, build_stream, ResponseStream, StreamAction, StreamEvent};

fn text(value: &str) -> String {
    value.to_string()
}

/// Drives a stream over the given events and returns every action taken,
/// the first one included.
fn drive(prefix: &str, suffix: &str, events: Vec<StreamEvent>) -> Vec<StreamAction> {
    let (mut stream, first) = build_stream(text(prefix), text(suffix));
    let mut actions = vec![first];
    for event in events {
        let (next, action) = stream.feed(event);
        stream = next;
        actions.push(action);
    }
    actions
}

fn sent(actions: &[StreamAction]) -> String {
    let mut page = String::new();
    for action in actions {
        if let StreamAction::Emit(chunk) = action {
            page.push_str(chunk);
        }
    }
    page
}

#[test]
fn stream_starts_with_prefix_and_stays_open() {
    let (stream, first) = build_stream(text("<html><body>"), text("</body></html>"));
    assert_eq!(first, StreamAction::Emit(text("<html><body>")));
    assert_eq!(stream, ResponseStream::Body { suffix: text("</body></html>") });
    assert!(stream.is_open());
}

#[test]
fn stream_emits_prefix_fragments_suffix_in_order() {
    let actions = drive(
        "P",
        "S",
        vec![
            StreamEvent::Fragment(text("f1")),
            StreamEvent::Fragment(text("f2")),
            StreamEvent::Fragment(text("f3")),
            StreamEvent::Completed,
        ],
    );
    assert_eq!(
        actions,
        vec![
            StreamAction::Emit(text("P")),
            StreamAction::Emit(text("f1")),
            StreamAction::Emit(text("f2")),
            StreamAction::Emit(text("f3")),
            StreamAction::Emit(text("S")),
        ]
    );
    assert_eq!(sent(&actions), "Pf1f2f3S");
}

#[test]
fn stream_neither_merges_nor_drops_empty_fragments() {
    let actions = drive(
        "P",
        "S",
        vec![
            StreamEvent::Fragment(text("")),
            StreamEvent::Fragment(text("x")),
            StreamEvent::Fragment(text("")),
            StreamEvent::Completed,
        ],
    );
    assert_eq!(actions.len(), 5);
    assert_eq!(actions[1], StreamAction::Emit(text("")));
    assert_eq!(actions[2], StreamAction::Emit(text("x")));
    assert_eq!(actions[3], StreamAction::Emit(text("")));
    assert_eq!(sent(&actions), "PxS");
}

#[test]
fn stream_is_closed_after_completion() {
    let (stream, _) = build_stream(text("P"), text("S"));
    let (stream, action) = stream.feed(StreamEvent::Completed);
    assert_eq!(action, StreamAction::Emit(text("S")));
    assert_eq!(stream, ResponseStream::Done);
    assert!(!stream.is_open());
    let (stream, action) = stream.feed(StreamEvent::Fragment(text("late")));
    assert_eq!(action, StreamAction::End);
    let (stream, action) = stream.feed(StreamEvent::Completed);
    assert_eq!(action, StreamAction::End);
    let (stream, action) = stream.feed(StreamEvent::Failed);
    assert_eq!(action, StreamAction::End);
    assert_eq!(stream, ResponseStream::Done);
}

#[test]
fn stream_forwards_source_failure() {
    let actions = drive(
        "P",
        "S",
        vec![
            StreamEvent::Fragment(text("f1")),
            StreamEvent::Failed,
            StreamEvent::Fragment(text("f2")),
            StreamEvent::Completed,
        ],
    );
    assert_eq!(
        actions,
        vec![
            StreamAction::Emit(text("P")),
            StreamAction::Emit(text("f1")),
            StreamAction::Abort,
            StreamAction::End,
            StreamAction::End,
        ]
    );
    assert_eq!(sent(&actions), "Pf1");
    let (stream, _) = build_stream(text("P"), text("S"));
    let (stream, _) = stream.feed(StreamEvent::Failed);
    assert_eq!(stream, ResponseStream::Failed);
    assert!(!stream.is_open());
}

#[test]
fn stream_stops_when_client_is_gone() {
    let actions = drive(
        "P",
        "S",
        vec![
            StreamEvent::Fragment(text("f1")),
            StreamEvent::Cancelled,
            StreamEvent::Fragment(text("f2")),
            StreamEvent::Completed,
        ],
    );
    assert_eq!(
        actions,
        vec![
            StreamAction::Emit(text("P")),
            StreamAction::Emit(text("f1")),
            StreamAction::End,
            StreamAction::End,
            StreamAction::End,
        ]
    );
    let (stream, _) = build_stream(text("P"), text("S"));
    let (stream, _) = stream.feed(StreamEvent::Cancelled);
    assert!(!stream.is_open());
}

#[test]
fn assemble_concatenates_in_order() {
    let fragments = vec![text("<h1>a</h1>"), text(""), text("<p>b</p>"), text("c")];
    assert_eq!(
        assemble(text("<body>"), &fragments, text("</body>")),
        "<body><h1>a</h1><p>b</p>c</body>"
    );
    assert_eq!(assemble(text(""), &Vec::new(), text("")), "");
}

#[test]
fn assemble_agrees_with_driving_the_stream() {
    let fragments = vec![text("one"), text("two"), text("three")];
    let mut events: Vec<StreamEvent> =
        fragments.iter().map(|fragment| StreamEvent::Fragment(fragment.clone())).collect();
    events.push(StreamEvent::Completed);
    let actions = drive("<", ">", events);
    assert_eq!(assemble(text("<"), &fragments, text(">")), sent(&actions));
}

#[test]
fn shell_without_fragments_is_the_document() {
    let document = "<html><body>MARK</body></html>";
    let shell = split(document, "<body>").unwrap();
    assert_eq!(assemble(shell.prefix, &Vec::new(), shell.suffix), document);
}

#[test]
fn end_to_end_fragment_lands_behind_the_marker() {
    let shell = split("<html><body></body></html>", "<body>").unwrap();
    let fragments = vec![text("<p>Hi</p>")];
    assert_eq!(
        assemble(shell.prefix, &fragments, shell.suffix),
        "<html><body><p>Hi</p></body></html>"
    );
}

#[test]
fn end_to_end_text_behind_the_marker_is_kept() {
    let shell = split("<html><body>MARK</body></html>", "<body>").unwrap();
    let fragments = vec![text("<p>Hi</p>")];
    assert_eq!(
        assemble(shell.prefix, &fragments, shell.suffix),
        "<html><body><p>Hi</p>MARK</body></html>"
    );
}
