//! The start of one render request.

use std::collections::HashMap;
use vstd::prelude::*;
use crate::shell::{lemma_split_round_trip, occurs, split_at_first, Shell};
use crate::stream::{
    build_stream, content, fragment_events, lemma_stream_ordering, response, ResponseStream,
    ResponseStreamView, StreamAction, StreamActionView, StreamEventView,
};

verus! {

/// What the component renderer is given for one request: the route that was
/// asked for and its query parameters. Built once per request and not
/// changed afterwards.
#[derive(Debug, PartialEq, Eq)]
pub struct ServerAppProps {
    /// The requested URL, as text.
    pub url: String,
    /// The query parameters; every key occurs once.
    pub queries: HashMap<String, String>,
}

/// Starts a render request.
///
/// Gives the properties to render the component tree with, the response
/// stream that will bracket the rendered fragments with the two halves of
/// `shell`, and the first action of that stream, which sends the shell's
/// prefix. The caller renders with the properties and feeds every fragment
/// to the stream as it is produced.
pub fn render(url: String, queries: HashMap<String, String>, shell: Shell) -> (plan: (
    ServerAppProps,
    ResponseStream,
    StreamAction,
))
    ensures
        plan.0.url == url,
        plan.0.queries == queries,
        plan.1@ == (ResponseStreamView::Body { suffix: shell.suffix@ }),
        plan.2@ == StreamActionView::Emit(shell.prefix@),
{
    let Shell { prefix, suffix } = shell;
    let (stream, first) = build_stream(prefix, suffix);
    (ServerAppProps { url, queries }, stream, first)
}

/// Shell round trip: a document that holds the marker, split and then
/// streamed with no fragment in between, is sent as it was, character for
/// character.
pub proof fn lemma_shell_round_trip(document: Seq<char>, marker: Seq<char>)
    requires
        occurs(document, marker),
    ensures
        split_at_first(document, marker) matches Some((prefix, suffix)) && content(
            response(prefix, suffix, seq![StreamEventView::Completed]),
        ) == document,
{
    lemma_split_round_trip(document, marker);
    let (prefix, suffix) = split_at_first(document, marker)->0;
    lemma_stream_ordering(prefix, suffix, Seq::empty(), Seq::empty());
    let none = Seq::<Seq<char>>::empty();
    assert(fragment_events(none).push(StreamEventView::Completed)
        + Seq::<StreamEventView>::empty() =~= seq![StreamEventView::Completed]);
    assert(prefix + none.flatten() + suffix =~= prefix + suffix);
}

} // verus!
