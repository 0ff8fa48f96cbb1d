//! The session registry: a process-wide map from session identity to the
//! session's conversation state. An unseen session starts idle; state for one
//! session is taken out, handled, and put back, so events for one session are
//! applied one at a time.

use vstd::prelude::*;
use std::collections::HashMap;
use crate::machine::State;

verus! {

broadcast use vstd::std_specs::hash::group_hash_axioms;

/// Map from session identity to current conversation state.
pub struct SessionRegistry {
    pub sessions: HashMap<i64, State>,
}

impl View for SessionRegistry {
    type V = Map<i64, State>;

    open spec fn view(&self) -> Map<i64, State> {
        self.sessions@
    }
}

impl SessionRegistry {
    /// An empty registry: no session has any state yet.
    pub fn new() -> (r: Self)
        ensures
            r@ == Map::<i64, State>::empty(),
    {
        SessionRegistry { sessions: HashMap::new() }
    }

    /// Takes a session's state out for handling; an unseen session starts
    /// idle. The entry leaves the map until `put_state` stores the successor
    /// state.
    pub fn take_state(&mut self, id: i64) -> (r: State)
        ensures
            old(self)@.contains_key(id) ==> r == old(self)@[id] && final(self)@ == old(
                self,
            )@.remove(id),
            !old(self)@.contains_key(id) ==> (r is Idle) && final(self)@ == old(self)@,
    {
        match self.sessions.remove(&id) {
            Some(s) => s,
            None => State::Idle,
        }
    }

    /// Stores a session's state after handling one event.
    pub fn put_state(&mut self, id: i64, state: State)
        ensures
            final(self)@ == old(self)@.insert(id, state),
    {
        self.sessions.insert(id, state);
    }
}

} // verus!
