//! The streaming response: shell prefix, rendered fragments, shell suffix.
//!
//! The stream is a small state machine. Building it hands out the prefix as
//! the first chunk; after that every event the driver reports (the next
//! fragment, the end of the fragment source, its failure, or the loss of the
//! client) is answered with the one action to take. Fragments pass through
//! unchanged and in order, and nothing is held back beyond the suffix.

use vstd::pervasive::unreached;
use vstd::prelude::*;
use vstd::seq_lib::lemma_flatten_concat;
use vstd::string::*;

verus! {

/// What the driver reports to an open stream.
#[derive(Debug, Clone, PartialEq, Eq)]
pub enum StreamEvent {
    /// The fragment source produced its next fragment.
    Fragment(String),
    /// The fragment source has no more fragments.
    Completed,
    /// The fragment source failed.
    Failed,
    /// The client went away; nothing more can be delivered.
    Cancelled,
}

/// What the driver is to do in answer to an event.
#[derive(Debug, Clone, PartialEq, Eq)]
pub enum StreamAction {
    /// Send this chunk to the client.
    Emit(String),
    /// End the response; there is nothing more to send.
    End,
    /// Terminate the response with an error; what was sent stays sent.
    Abort,
}

/// A response stream between two events.
#[derive(Debug, Clone, PartialEq, Eq)]
pub enum ResponseStream {
    /// The prefix is out; fragments are being passed through, and the suffix
    /// is still owed.
    Body { suffix: String },
    /// The suffix is out, or the client went away.
    Done,
    /// The fragment source failed and the response was aborted.
    Failed,
}

/// Mathematical form of a [`StreamEvent`].
pub enum StreamEventView {
    Fragment(Seq<char>),
    Completed,
    Failed,
    Cancelled,
}

/// Mathematical form of a [`StreamAction`].
pub enum StreamActionView {
    Emit(Seq<char>),
    End,
    Abort,
}

/// Mathematical form of a [`ResponseStream`].
pub enum ResponseStreamView {
    Body { suffix: Seq<char> },
    Done,
    Failed,
}

impl View for StreamEvent {
    type V = StreamEventView;

    open spec fn view(&self) -> StreamEventView {
        match self {
            StreamEvent::Fragment(fragment) => StreamEventView::Fragment(fragment@),
            StreamEvent::Completed => StreamEventView::Completed,
            StreamEvent::Failed => StreamEventView::Failed,
            StreamEvent::Cancelled => StreamEventView::Cancelled,
        }
    }
}

impl View for StreamAction {
    type V = StreamActionView;

    open spec fn view(&self) -> StreamActionView {
        match self {
            StreamAction::Emit(chunk) => StreamActionView::Emit(chunk@),
            StreamAction::End => StreamActionView::End,
            StreamAction::Abort => StreamActionView::Abort,
        }
    }
}

impl View for ResponseStream {
    type V = ResponseStreamView;

    open spec fn view(&self) -> ResponseStreamView {
        match self {
            ResponseStream::Body { suffix } => ResponseStreamView::Body { suffix: suffix@ },
            ResponseStream::Done => ResponseStreamView::Done,
            ResponseStream::Failed => ResponseStreamView::Failed,
        }
    }
}

impl StreamActionView {
    /// The text this action sends to the client.
    pub open spec fn chunk(self) -> Seq<char> {
        match self {
            StreamActionView::Emit(chunk) => chunk,
            _ => Seq::empty(),
        }
    }
}

impl ResponseStreamView {
    /// Whether the stream still takes fragments.
    pub open spec fn is_open(self) -> bool {
        self is Body
    }

    /// The transition function: the state after `event`, and the action that
    /// answers it.
    pub open spec fn feed(self, event: StreamEventView) -> (ResponseStreamView, StreamActionView) {
        match self {
            ResponseStreamView::Body { suffix } => match event {
                StreamEventView::Fragment(fragment) => (self, StreamActionView::Emit(fragment)),
                StreamEventView::Completed => (
                    ResponseStreamView::Done,
                    StreamActionView::Emit(suffix),
                ),
                StreamEventView::Failed => (ResponseStreamView::Failed, StreamActionView::Abort),
                StreamEventView::Cancelled => (ResponseStreamView::Done, StreamActionView::End),
            },
            _ => (self, StreamActionView::End),
        }
    }
}

/// The actions a stream in `state` takes as `events` arrive one after another.
pub open spec fn run(state: ResponseStreamView, events: Seq<StreamEventView>) -> Seq<
    StreamActionView,
>
    decreases events.len(),
{
    if events.len() == 0 {
        Seq::empty()
    } else {
        let (next, action) = state.feed(events[0]);
        seq![action] + run(next, events.drop_first())
    }
}

/// Every action of a response built from `prefix` and `suffix` whose driver
/// reports `events`: the prefix first, then one action per event.
pub open spec fn response(prefix: Seq<char>, suffix: Seq<char>, events: Seq<StreamEventView>) -> Seq<
    StreamActionView,
> {
    seq![StreamActionView::Emit(prefix)] + run(ResponseStreamView::Body { suffix }, events)
}

/// The chunks that a sequence of actions sends to the client, in order; an
/// action that sends nothing counts as an empty chunk.
pub open spec fn chunks(actions: Seq<StreamActionView>) -> Seq<Seq<char>> {
    actions.map_values(|action: StreamActionView| action.chunk())
}

/// The text that a sequence of actions sends to the client, in order.
pub open spec fn content(actions: Seq<StreamActionView>) -> Seq<char> {
    chunks(actions).flatten()
}

/// As many `End` actions as `count`.
pub open spec fn all_end(count: nat) -> Seq<StreamActionView> {
    Seq::new(count, |i: int| StreamActionView::End)
}

/// The texts of a list of fragments.
pub open spec fn fragment_texts(fragments: Seq<String>) -> Seq<Seq<char>> {
    fragments.map_values(|fragment: String| fragment@)
}

/// The events of a fragment source that yields `fragments` in order.
pub open spec fn fragment_events(fragments: Seq<Seq<char>>) -> Seq<StreamEventView> {
    fragments.map_values(|fragment: Seq<char>| StreamEventView::Fragment(fragment))
}

/// One chunk per fragment, unchanged.
pub open spec fn fragment_chunks(fragments: Seq<Seq<char>>) -> Seq<StreamActionView> {
    fragments.map_values(|fragment: Seq<char>| StreamActionView::Emit(fragment))
}

/// The text of two runs of actions is the text of the first followed by the
/// text of the second.
pub proof fn lemma_content_concat(first: Seq<StreamActionView>, second: Seq<StreamActionView>)
    ensures
        content(first + second) == content(first) + content(second),
{
    assert(chunks(first + second) =~= chunks(first) + chunks(second));
    lemma_flatten_concat(chunks(first), chunks(second));
}

/// Passing fragments through sends exactly their text.
pub proof fn lemma_content_of_fragments(fragments: Seq<Seq<char>>)
    ensures
        content(fragment_chunks(fragments)) == fragments.flatten(),
{
    assert(chunks(fragment_chunks(fragments)) =~= fragments);
}

/// Actions that end the stream send nothing.
pub proof fn lemma_content_of_end(count: nat)
    ensures
        content(all_end(count)) == Seq::<char>::empty(),
    decreases count,
{
    if count > 0 {
        assert(all_end(count) =~= all_end((count - 1) as nat).push(StreamActionView::End));
        assert(chunks(all_end(count)) =~= chunks(all_end((count - 1) as nat)).push(
            Seq::<char>::empty(),
        ));
        chunks(all_end((count - 1) as nat)).lemma_flatten_push(Seq::<char>::empty());
        lemma_content_of_end((count - 1) as nat);
    } else {
        assert(chunks(all_end(count)) =~= Seq::<Seq<char>>::empty());
    }
}

/// An open stream answers a run of fragments with one chunk per fragment,
/// unchanged and in order, and stays open for what follows.
pub proof fn lemma_run_fragments(
    suffix: Seq<char>,
    fragments: Seq<Seq<char>>,
    rest: Seq<StreamEventView>,
)
    ensures
        run(ResponseStreamView::Body { suffix }, fragment_events(fragments) + rest)
            == fragment_chunks(fragments) + run(ResponseStreamView::Body { suffix }, rest),
    decreases fragments.len(),
{
    let events = fragment_events(fragments) + rest;
    if fragments.len() == 0 {
        assert(events =~= rest);
        assert(fragment_chunks(fragments) + run(ResponseStreamView::Body { suffix }, rest)
            =~= run(ResponseStreamView::Body { suffix }, rest));
    } else {
        assert(events[0] == StreamEventView::Fragment(fragments[0]));
        assert(events.drop_first() =~= fragment_events(fragments.drop_first()) + rest);
        lemma_run_fragments(suffix, fragments.drop_first(), rest);
        assert(fragment_chunks(fragments) =~= seq![StreamActionView::Emit(fragments[0])]
            + fragment_chunks(fragments.drop_first()));
        assert(run(ResponseStreamView::Body { suffix }, events) =~= fragment_chunks(fragments)
            + run(ResponseStreamView::Body { suffix }, rest));
    }
}

/// A stream that is no longer open answers every event with `End`: it
/// cannot be restarted.
pub proof fn lemma_run_closed(state: ResponseStreamView, events: Seq<StreamEventView>)
    requires
        !state.is_open(),
    ensures
        run(state, events) == all_end(events.len()),
    decreases events.len(),
{
    if events.len() > 0 {
        lemma_run_closed(state, events.drop_first());
    }
    assert(run(state, events) =~= all_end(events.len()));
}

/// Stream ordering: for any finite sequence of fragments, the response is the
/// prefix, then every fragment as its own chunk in the order of arrival, then
/// the suffix; its text is `prefix + f1 + ... + fn + suffix`. Whatever the
/// driver reports after the source has completed is answered with `End`.
pub proof fn lemma_stream_ordering(
    prefix: Seq<char>,
    suffix: Seq<char>,
    fragments: Seq<Seq<char>>,
    later: Seq<StreamEventView>,
)
    ensures
        ({
            let events = fragment_events(fragments).push(StreamEventView::Completed) + later;
            let actions = response(prefix, suffix, events);
            &&& actions == seq![StreamActionView::Emit(prefix)] + fragment_chunks(fragments)
                + seq![StreamActionView::Emit(suffix)] + all_end(later.len())
            &&& content(actions) == prefix + fragments.flatten() + suffix
        }),
{
    let open = ResponseStreamView::Body { suffix };
    let closing = seq![StreamEventView::Completed] + later;
    let events = fragment_events(fragments).push(StreamEventView::Completed) + later;
    assert(events =~= fragment_events(fragments) + closing);
    lemma_run_fragments(suffix, fragments, closing);
    assert(closing.drop_first() =~= later);
    lemma_run_closed(ResponseStreamView::Done, later);
    assert(run(open, closing) =~= seq![StreamActionView::Emit(suffix)] + all_end(later.len()));
    let head = seq![StreamActionView::Emit(prefix)];
    let body = fragment_chunks(fragments);
    let tail = seq![StreamActionView::Emit(suffix)];
    let actions = response(prefix, suffix, events);
    assert(actions =~= head + body + tail + all_end(later.len()));
    lemma_content_concat(head + body + tail, all_end(later.len()));
    lemma_content_concat(head + body, tail);
    lemma_content_concat(head, body);
    lemma_content_of_fragments(fragments);
    lemma_content_of_end(later.len());
    chunks(head).lemma_flatten_one_element();
    chunks(tail).lemma_flatten_one_element();
    assert(content(actions) =~= prefix + fragments.flatten() + suffix);
}

/// Failure is forwarded, not hidden: when the source fails after some
/// fragments, the response is the prefix and those fragments, then `Abort`;
/// the suffix is never sent, and every later event is answered with `End`.
pub proof fn lemma_stream_failure(
    prefix: Seq<char>,
    suffix: Seq<char>,
    fragments: Seq<Seq<char>>,
    later: Seq<StreamEventView>,
)
    ensures
        ({
            let events = fragment_events(fragments).push(StreamEventView::Failed) + later;
            let actions = response(prefix, suffix, events);
            &&& actions == seq![StreamActionView::Emit(prefix)] + fragment_chunks(fragments)
                + seq![StreamActionView::Abort] + all_end(later.len())
            &&& content(actions) == prefix + fragments.flatten()
        }),
{
    let open = ResponseStreamView::Body { suffix };
    let closing = seq![StreamEventView::Failed] + later;
    let events = fragment_events(fragments).push(StreamEventView::Failed) + later;
    assert(events =~= fragment_events(fragments) + closing);
    lemma_run_fragments(suffix, fragments, closing);
    assert(closing.drop_first() =~= later);
    lemma_run_closed(ResponseStreamView::Failed, later);
    assert(run(open, closing) =~= seq![StreamActionView::Abort] + all_end(later.len()));
    let head = seq![StreamActionView::Emit(prefix)];
    let body = fragment_chunks(fragments);
    let tail = seq![StreamActionView::Abort];
    let actions = response(prefix, suffix, events);
    assert(actions =~= head + body + tail + all_end(later.len()));
    lemma_content_concat(head + body + tail, all_end(later.len()));
    lemma_content_concat(head + body, tail);
    lemma_content_concat(head, body);
    lemma_content_of_fragments(fragments);
    lemma_content_of_end(later.len());
    chunks(head).lemma_flatten_one_element();
    chunks(tail).lemma_flatten_one_element();
    assert(content(actions) =~= prefix + fragments.flatten());
}

/// Cancellation stops the stream: once the client is gone after some
/// fragments, nothing more is sent and the stream is closed to the source.
pub proof fn lemma_stream_cancelled(
    prefix: Seq<char>,
    suffix: Seq<char>,
    fragments: Seq<Seq<char>>,
    later: Seq<StreamEventView>,
)
    ensures
        ({
            let events = fragment_events(fragments).push(StreamEventView::Cancelled) + later;
            let actions = response(prefix, suffix, events);
            &&& actions == seq![StreamActionView::Emit(prefix)] + fragment_chunks(fragments)
                + all_end(later.len() + 1)
            &&& content(actions) == prefix + fragments.flatten()
        }),
{
    let open = ResponseStreamView::Body { suffix };
    let closing = seq![StreamEventView::Cancelled] + later;
    let events = fragment_events(fragments).push(StreamEventView::Cancelled) + later;
    assert(events =~= fragment_events(fragments) + closing);
    lemma_run_fragments(suffix, fragments, closing);
    assert(closing.drop_first() =~= later);
    lemma_run_closed(ResponseStreamView::Done, later);
    assert(run(open, closing) =~= all_end(later.len() + 1));
    let head = seq![StreamActionView::Emit(prefix)];
    let body = fragment_chunks(fragments);
    let actions = response(prefix, suffix, events);
    assert(actions =~= head + body + all_end(later.len() + 1));
    lemma_content_concat(head + body, all_end(later.len() + 1));
    lemma_content_concat(head, body);
    lemma_content_of_fragments(fragments);
    lemma_content_of_end(later.len() + 1);
    chunks(head).lemma_flatten_one_element();
    assert(content(actions) =~= prefix + fragments.flatten());
}

/// Starts a response: the stream that will pass fragments through and close
/// with `suffix`, and the first action, which sends `prefix`.
pub fn build_stream(prefix: String, suffix: String) -> (started: (ResponseStream, StreamAction))
    ensures
        started.0@ == (ResponseStreamView::Body { suffix: suffix@ }),
        started.1@ == StreamActionView::Emit(prefix@),
{
    (ResponseStream::Body { suffix }, StreamAction::Emit(prefix))
}

impl ResponseStream {
    /// Whether the stream still takes fragments. Once it does not, the
    /// fragment source is to be pulled no further.
    pub fn is_open(&self) -> (open: bool)
        ensures
            open == self@.is_open(),
    {
        match self {
            ResponseStream::Body { .. } => true,
            _ => false,
        }
    }

    /// Answers one event: the stream afterwards, and the action to take.
    ///
    /// While the stream is open a fragment is emitted as it came, the end of
    /// the source emits the suffix and closes the stream, a failure of the
    /// source aborts it, and the loss of the client ends it. A stream that is
    /// no longer open answers every event with [`StreamAction::End`].
    pub fn feed(self, event: StreamEvent) -> (step: (ResponseStream, StreamAction))
        ensures
            (step.0@, step.1@) == self@.feed(event@),
    {
        match self {
            ResponseStream::Body { suffix } => match event {
                StreamEvent::Fragment(fragment) => (
                    ResponseStream::Body { suffix },
                    StreamAction::Emit(fragment),
                ),
                StreamEvent::Completed => (ResponseStream::Done, StreamAction::Emit(suffix)),
                StreamEvent::Failed => (ResponseStream::Failed, StreamAction::Abort),
                StreamEvent::Cancelled => (ResponseStream::Done, StreamAction::End),
            },
            ResponseStream::Done => (ResponseStream::Done, StreamAction::End),
            ResponseStream::Failed => (ResponseStream::Failed, StreamAction::End),
        }
    }
}

/// Drives a whole response over fragments that are already at hand and
/// returns everything it sends, in order, as one text.
pub fn assemble(prefix: String, fragments: &Vec<String>, suffix: String) -> (page: String)
    ensures
        page@ == prefix@ + fragment_texts(fragments@).flatten() + suffix@,
        page@ == content(
            response(
                prefix@,
                suffix@,
                fragment_events(fragment_texts(fragments@)).push(StreamEventView::Completed),
            ),
        ),
{
    let ghost texts = fragment_texts(fragments@);
    let (mut stream, first) = build_stream(prefix, suffix);
    let mut page = match first {
        StreamAction::Emit(chunk) => chunk,
        _ => unreached(),
    };
    let mut i: usize = 0;
    while i < fragments.len()
        invariant
            i <= fragments.len(),
            texts == fragment_texts(fragments@),
            stream@ == (ResponseStreamView::Body { suffix: suffix@ }),
            page@ == prefix@ + texts.take(i as int).flatten(),
        decreases fragments.len() - i,
    {
        let (next, action) = stream.feed(StreamEvent::Fragment(fragments[i].clone()));
        proof {
            assert(texts.take(i + 1) =~= texts.take(i as int).push(fragments@[i as int]@));
            texts.take(i as int).lemma_flatten_push(fragments@[i as int]@);
        }
        match action {
            StreamAction::Emit(chunk) => page.append(chunk.as_str()),
            _ => unreached(),
        }
        stream = next;
        i += 1;
    }
    let (_, last) = stream.feed(StreamEvent::Completed);
    match last {
        StreamAction::Emit(chunk) => page.append(chunk.as_str()),
        _ => unreached(),
    }
    proof {
        assert(texts.take(i as int) =~= texts);
        lemma_stream_ordering(prefix@, suffix@, texts, Seq::empty());
        assert(fragment_events(texts).push(StreamEventView::Completed) + Seq::empty()
            =~= fragment_events(texts).push(StreamEventView::Completed));
    }
    page
}

} // verus!
