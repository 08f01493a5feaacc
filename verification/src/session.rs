//! A mathematical model of the session store.
//!
//! The store itself lives outside this library: it is reached through the
//! actions of the request counter, which the caller performs. What the
//! counter relies on is written down here as a model: sessions come into being
//! on first touch, a value written under a key is the value read back, and
//! the number of sessions counts exactly those that were touched.

use vstd::prelude::*;

verus! {

/// What a store holds: for every session it has materialized, the values
/// under their keys.
pub struct StoreModel {
    pub sessions: Map<Seq<char>, Map<Seq<char>, usize>>,
}

impl StoreModel {
    /// A store holds finitely many sessions.
    pub open spec fn well_formed(self) -> bool {
        self.sessions.dom().finite()
    }

    /// The store before any session touched it.
    pub open spec fn empty() -> StoreModel {
        StoreModel { sessions: Map::empty() }
    }

    /// Whether `session` has been materialized.
    pub open spec fn knows(self, session: Seq<char>) -> bool {
        self.sessions.dom().contains(session)
    }

    /// The store after `session` touched it: an unseen session is
    /// materialized with no values, a known one is left as it is.
    pub open spec fn touch(self, session: Seq<char>) -> StoreModel {
        if self.knows(session) {
            self
        } else {
            StoreModel { sessions: self.sessions.insert(session, Map::empty()) }
        }
    }

    /// The value that `session` holds under `key`, if any.
    pub open spec fn lookup(self, session: Seq<char>, key: Seq<char>) -> Option<usize> {
        if self.knows(session) && self.sessions[session].dom().contains(key) {
            Some(self.sessions[session][key])
        } else {
            None
        }
    }

    /// Reading `key` of `session`: the store afterwards, and what was read.
    /// A missing key reads as `None`; the read itself materializes the
    /// session.
    pub open spec fn get(self, session: Seq<char>, key: Seq<char>) -> (StoreModel, Option<usize>) {
        (self.touch(session), self.lookup(session, key))
    }

    /// The store after `session` wrote `value` under `key`.
    pub open spec fn set(self, session: Seq<char>, key: Seq<char>, value: usize) -> StoreModel {
        let touched = self.touch(session);
        StoreModel {
            sessions: touched.sessions.insert(session, touched.sessions[session].insert(key, value)),
        }
    }

    /// How many sessions the store currently knows.
    pub open spec fn count_active_sessions(self) -> nat {
        self.sessions.dom().len()
    }
}

/// In the model the session count is never negative, and it is at least one
/// as soon as any session has read from the store.
pub proof fn lemma_count_after_get(store: StoreModel, session: Seq<char>, key: Seq<char>)
    requires
        store.well_formed(),
    ensures
        store.count_active_sessions() >= 0,
        store.get(session, key).0.well_formed(),
        store.get(session, key).0.knows(session),
        store.get(session, key).0.count_active_sessions() >= 1,
        store.get(session, key).0.count_active_sessions() >= store.count_active_sessions(),
{
    let after = store.get(session, key).0;
    assert(after.sessions.dom().contains(session));
    if after.sessions.dom().len() == 0 {
        after.sessions.dom().lemma_len0_is_empty();
    }
}

/// In the model the session count is at least one as soon as any session
/// has written to the store.
pub proof fn lemma_count_after_set(
    store: StoreModel,
    session: Seq<char>,
    key: Seq<char>,
    value: usize,
)
    requires
        store.well_formed(),
    ensures
        store.set(session, key, value).well_formed(),
        store.set(session, key, value).knows(session),
        store.set(session, key, value).count_active_sessions() >= 1,
        store.set(session, key, value).count_active_sessions() == store.touch(
            session,
        ).count_active_sessions(),
{
    let touched = store.touch(session);
    let after = store.set(session, key, value);
    assert(after.sessions.dom() =~= touched.sessions.dom());
    assert(after.sessions.dom().contains(session));
    if after.sessions.dom().len() == 0 {
        after.sessions.dom().lemma_len0_is_empty();
    }
}

/// In the model a session reads back what it wrote, and a write leaves
/// every other key and every other session as it was.
pub proof fn lemma_read_your_writes(
    store: StoreModel,
    session: Seq<char>,
    key: Seq<char>,
    value: usize,
    other_session: Seq<char>,
    other_key: Seq<char>,
)
    ensures
        store.set(session, key, value).lookup(session, key) == Some(value),
        other_session != session || other_key != key ==> store.set(session, key, value).lookup(
            other_session,
            other_key,
        ) == store.lookup(other_session, other_key),
{
}

} // verus!
