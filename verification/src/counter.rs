//! The request counter: a per-session count kept in the session store.
//!
//! Handling a request takes several exchanges with the store, each of which
//! may suspend. The counter therefore never touches the store itself: it
//! names the next action, the caller performs it and reports what came of
//! it, and the counter decides what follows. One request runs
//!
//! 1. read the count (a missing one counts as zero),
//! 2. write the count plus one,
//! 3. ask for the number of live sessions,
//! 4. read the count back, and
//! 5. answer with a line that reports both numbers, or fail when what is
//!    read back is not the count that was just written.

use vstd::prelude::*;
use vstd::string::*;
use crate::decimal::{decimal, i64_text, signed_decimal, usize_text};
use crate::session::{lemma_count_after_get, lemma_count_after_set, StoreModel};

verus! {

/// The key under which a session keeps its count.
pub const COUNT_KEY: &'static str = "count";

/// Why a request could not be answered.
#[derive(Debug, Clone, Copy, PartialEq, Eq)]
pub enum CounterError {
    /// The count that was just written could not be read back: the store
    /// holds no count for the session, or another one.
    CounterPersistenceError,
}

/// Where the handling of one request stands.
#[derive(Debug, Clone, Copy, PartialEq, Eq)]
pub enum CounterState {
    /// The stored count was asked for.
    AwaitingCount,
    /// The new count, `count`, was handed to the store.
    AwaitingWrite { count: usize },
    /// The number of live sessions was asked for.
    AwaitingSessions { count: usize },
    /// The count is being read back; the number of sessions is known.
    AwaitingReadBack { count: usize, sessions_total: i64 },
    /// The request was answered or has failed.
    Finished,
}

/// What the caller reports after performing an action.
#[derive(Debug, Clone, Copy, PartialEq, Eq)]
pub enum CounterEvent {
    /// The count that the store holds for this session, if it holds one of
    /// the right type.
    Count(Option<usize>),
    /// The write went through to the store.
    Written,
    /// The number of sessions that the store knows.
    Sessions(i64),
}

/// What the caller is to do next.
#[derive(Debug, Clone, PartialEq, Eq)]
pub enum CounterAction {
    /// Read the value under [`COUNT_KEY`] and report it as
    /// [`CounterEvent::Count`].
    ReadCount,
    /// Write this value under [`COUNT_KEY`] and report
    /// [`CounterEvent::Written`].
    WriteCount(usize),
    /// Ask the store how many sessions it knows and report the number as
    /// [`CounterEvent::Sessions`].
    CountSessions,
    /// Answer the request with this text.
    Respond(String),
    /// Fail the request.
    Fail(CounterError),
}

/// Mathematical form of a [`CounterAction`].
pub enum CounterActionView {
    ReadCount,
    WriteCount(usize),
    CountSessions,
    Respond(Seq<char>),
    Fail(CounterError),
}

impl View for CounterAction {
    type V = CounterActionView;

    open spec fn view(&self) -> CounterActionView {
        match self {
            CounterAction::ReadCount => CounterActionView::ReadCount,
            CounterAction::WriteCount(count) => CounterActionView::WriteCount(*count),
            CounterAction::CountSessions => CounterActionView::CountSessions,
            CounterAction::Respond(text) => CounterActionView::Respond(text@),
            CounterAction::Fail(error) => CounterActionView::Fail(*error),
        }
    }
}

/// The count to write, given the count that was read: one more, counting
/// from zero when there was none.
pub open spec fn next_count(stored: Option<usize>) -> int {
    match stored {
        Some(count) => count + 1,
        None => 1,
    }
}

/// The line that answers a request.
pub open spec fn report_text(count: usize, sessions_total: i64) -> Seq<char> {
    "We have set the counter to surreal: "@ + decimal(count as nat) + ", Sessions Count: "@
        + signed_decimal(sessions_total as int)
}

/// The transition function: the state after `event` and the action that
/// follows, or `None` where `event` is not an answer to what `state` waits
/// for, or reports a count that has no successor.
///
/// The request is answered only if the count read back is the count that
/// was written; it then reports that count and the number of sessions.
pub open spec fn transition(state: CounterState, event: CounterEvent) -> Option<
    (CounterState, CounterActionView),
> {
    match (state, event) {
        (CounterState::AwaitingCount, CounterEvent::Count(stored)) => if next_count(stored)
            <= usize::MAX {
            let count = next_count(stored) as usize;
            Some((CounterState::AwaitingWrite { count }, CounterActionView::WriteCount(count)))
        } else {
            None
        },
        (CounterState::AwaitingWrite { count }, CounterEvent::Written) => Some(
            (CounterState::AwaitingSessions { count }, CounterActionView::CountSessions),
        ),
        (CounterState::AwaitingSessions { count }, CounterEvent::Sessions(sessions_total)) => Some(
            (
                CounterState::AwaitingReadBack { count, sessions_total },
                CounterActionView::ReadCount,
            ),
        ),
        (
            CounterState::AwaitingReadBack { count, sessions_total },
            CounterEvent::Count(read_back),
        ) => if read_back == Some(count) {
            Some(
                (
                    CounterState::Finished,
                    CounterActionView::Respond(report_text(count, sessions_total)),
                ),
            )
        } else {
            Some(
                (
                    CounterState::Finished,
                    CounterActionView::Fail(CounterError::CounterPersistenceError),
                ),
            )
        },
        _ => None,
    }
}

impl CounterState {
    /// Takes one event and names the state and the action that follow.
    ///
    /// Gives `None`, and decides nothing, for an event that does not answer
    /// what this state waits for, and for a first read that reports the
    /// largest count there is, which has no successor.
    pub fn step(self, event: CounterEvent) -> (next: Option<(CounterState, CounterAction)>)
        ensures
            match next {
                Some((state, action)) => transition(self, event) == Some((state, action@)),
                None => transition(self, event) is None,
            },
    {
        match (self, event) {
            (CounterState::AwaitingCount, CounterEvent::Count(stored)) => {
                let count: usize = match stored {
                    Some(count) => {
                        if count == usize::MAX {
                            return None;
                        }
                        count + 1
                    },
                    None => 1,
                };
                Some((CounterState::AwaitingWrite { count }, CounterAction::WriteCount(count)))
            },
            (CounterState::AwaitingWrite { count }, CounterEvent::Written) => Some(
                (CounterState::AwaitingSessions { count }, CounterAction::CountSessions),
            ),
            (CounterState::AwaitingSessions { count }, CounterEvent::Sessions(sessions_total)) => Some(
                (CounterState::AwaitingReadBack { count, sessions_total }, CounterAction::ReadCount),
            ),
            (
                CounterState::AwaitingReadBack { count, sessions_total },
                CounterEvent::Count(read_back),
            ) => {
                let kept = match read_back {
                    Some(found) => found == count,
                    None => false,
                };
                if kept {
                    Some(
                        (
                            CounterState::Finished,
                            CounterAction::Respond(report(count, sessions_total)),
                        ),
                    )
                } else {
                    Some(
                        (
                            CounterState::Finished,
                            CounterAction::Fail(CounterError::CounterPersistenceError),
                        ),
                    )
                }
            },
            _ => None,
        }
    }
}

/// Begins the handling of one request: the first thing to do is to read the
/// stored count.
pub fn start() -> (begun: (CounterState, CounterAction))
    ensures
        begun.0 == CounterState::AwaitingCount,
        begun.1@ == CounterActionView::ReadCount,
{
    (CounterState::AwaitingCount, CounterAction::ReadCount)
}

/// Writes the line that answers a request: the count, and the number of
/// sessions.
pub fn report(count: usize, sessions_total: i64) -> (text: String)
    ensures
        text@ == report_text(count, sessions_total),
{
    let text = String::from_str("We have set the counter to surreal: ");
    let text = text.concat(usize_text(count).as_str());
    let text = text.concat(", Sessions Count: ");
    text.concat(i64_text(sessions_total).as_str())
}

/// What the store model answers when `session` performs `action`: the
/// store afterwards and the event to report, or no event for an action that
/// ends the request.
pub open spec fn perform(store: StoreModel, session: Seq<char>, action: CounterActionView) -> (
    StoreModel,
    Option<CounterEvent>,
) {
    match action {
        CounterActionView::ReadCount => {
            let (after, value) = store.get(session, COUNT_KEY@);
            (after, Some(CounterEvent::Count(value)))
        },
        CounterActionView::WriteCount(count) => (
            store.set(session, COUNT_KEY@, count),
            Some(CounterEvent::Written),
        ),
        CounterActionView::CountSessions => (
            store,
            Some(CounterEvent::Sessions(store.count_active_sessions() as i64)),
        ),
        CounterActionView::Respond(_) => (store, None),
        CounterActionView::Fail(_) => (store, None),
    }
}

/// The caller's loop, run against the store model: perform the action,
/// report the event, take the action that follows; at most `steps` times.
/// Gives the store afterwards and the action at which the loop stopped.
pub open spec fn drive(
    store: StoreModel,
    session: Seq<char>,
    state: CounterState,
    action: CounterActionView,
    steps: nat,
) -> (StoreModel, CounterActionView)
    decreases steps,
{
    if steps == 0 {
        (store, action)
    } else {
        match perform(store, session, action) {
            (after, Some(event)) => match transition(state, event) {
                Some((next, following)) => drive(
                    after,
                    session,
                    next,
                    following,
                    (steps - 1) as nat,
                ),
                None => (after, action),
            },
            (after, None) => (after, action),
        }
    }
}

/// One whole request of `session` against the store model, from the first
/// read to the answer.
pub open spec fn exchange(store: StoreModel, session: Seq<char>) -> (StoreModel, CounterActionView) {
    drive(store, session, CounterState::AwaitingCount, CounterActionView::ReadCount, 4)
}

/// `requests` requests of `session`, one after another: the store after the
/// last, and the outcome of each in order.
pub open spec fn exchanges(store: StoreModel, session: Seq<char>, requests: nat) -> (
    StoreModel,
    Seq<CounterActionView>,
)
    decreases requests,
{
    if requests == 0 {
        (store, Seq::empty())
    } else {
        let (before, outcomes) = exchanges(store, session, (requests - 1) as nat);
        let (after, outcome) = exchange(before, session);
        (after, outcomes.push(outcome))
    }
}

/// One request against the store model: the answer reports the stored
/// count plus one (one, for a session without a count) and a session total
/// of at least one, and the store then holds that count.
pub proof fn lemma_exchange(store: StoreModel, session: Seq<char>)
    requires
        store.well_formed(),
        next_count(store.lookup(session, COUNT_KEY@)) <= usize::MAX,
        store.touch(session).count_active_sessions() <= i64::MAX,
    ensures
        ({
            let count = next_count(store.lookup(session, COUNT_KEY@)) as usize;
            let total = store.touch(session).count_active_sessions() as i64;
            let (after, outcome) = exchange(store, session);
            &&& total >= 1
            &&& outcome == CounterActionView::Respond(report_text(count, total))
            &&& after == store.set(session, COUNT_KEY@, count)
            &&& after.well_formed()
            &&& after.lookup(session, COUNT_KEY@) == Some(count)
            &&& after.touch(session) == after
            &&& after.count_active_sessions() == total
        }),
{
    reveal_with_fuel(drive, 5);
    let key = COUNT_KEY@;
    let count = next_count(store.lookup(session, key)) as usize;
    let touched = store.touch(session);
    let written = touched.set(session, key, count);
    lemma_count_after_get(store, session, key);
    lemma_count_after_set(touched, session, key, count);
    assert(touched.touch(session) == touched);
    assert(written == store.set(session, key, count));
    assert(written.touch(session) == written);
    assert(written.lookup(session, key) == Some(count));
}

/// Default zero: a missing count is answered by writing the count one, and
/// against the store model the first request of a session that holds no
/// count reports the count one and a session total of at least one.
pub proof fn lemma_first_count_is_one(store: StoreModel, session: Seq<char>)
    requires
        store.well_formed(),
        store.lookup(session, COUNT_KEY@) is None,
        store.touch(session).count_active_sessions() <= i64::MAX,
    ensures
        transition(CounterState::AwaitingCount, CounterEvent::Count(None)) == Some(
            (CounterState::AwaitingWrite { count: 1 }, CounterActionView::WriteCount(1)),
        ),
        ({
            let total = store.touch(session).count_active_sessions() as i64;
            &&& total >= 1
            &&& exchange(store, session).1 == CounterActionView::Respond(report_text(1, total))
            &&& exchange(store, session).0.lookup(session, COUNT_KEY@) == Some(1usize)
        }),
{
    lemma_exchange(store, session);
}

/// Counter monotonicity: against the store model, `requests` requests of
/// one session, one after another and starting without a count, are
/// answered with the counts 1, 2, ..., `requests`, in that order.
pub proof fn lemma_counts_in_order(store: StoreModel, session: Seq<char>, requests: nat)
    requires
        store.well_formed(),
        store.lookup(session, COUNT_KEY@) is None,
        store.touch(session).count_active_sessions() <= i64::MAX,
        requests <= usize::MAX,
    ensures
        ({
            let total = store.touch(session).count_active_sessions() as i64;
            let (after, outcomes) = exchanges(store, session, requests);
            &&& outcomes.len() == requests
            &&& forall|k: int|
                0 <= k < requests ==> #[trigger] outcomes[k] == CounterActionView::Respond(
                    report_text((k + 1) as usize, total),
                )
            &&& after.well_formed()
            &&& requests > 0 ==> after.lookup(session, COUNT_KEY@) == Some(requests as usize)
            &&& requests > 0 ==> after.touch(session) == after
            &&& after.touch(session).count_active_sessions() == total
        }),
    decreases requests,
{
    if requests > 0 {
        let earlier = (requests - 1) as nat;
        lemma_counts_in_order(store, session, earlier);
        let (before, outcomes) = exchanges(store, session, earlier);
        lemma_exchange(before, session);
    }
}

} // verus!
