//! The hub of the web server: the clients that messages are sent to.

use std::collections::HashMap;
use vstd::prelude::*;
use serde_json::Value;
use crate::ids::{is_random_id, random_id};
use crate::json::{compact, json, json_text};

verus! {

broadcast use vstd::std_specs::hash::group_hash_axioms;

/// The sessions of the connected clients.
pub struct Hub<S> {
    sessions: HashMap<u128, S>,
}

impl<S> View for Hub<S> {
    type V = Map<u128, S>;

    closed spec fn view(&self) -> Map<u128, S> {
        self.sessions@
    }
}

/// The sessions that a message could not be sent to.
pub open spec fn failed(sent: Seq<(u128, bool)>) -> Set<u128> {
    Set::new(|id: u128| exists|i: int| 0 <= i < sent.len() && #[trigger] sent[i] == (id, false))
}

/// The message as it is sent to the clients.
pub fn message_text(msg: &Value) -> (r: String)
    ensures
        r@ == json_text(json(*msg)),
{
    compact(msg)
}

impl<S> Hub<S> {
    /// No client.
    pub fn new() -> (r: Hub<S>)
        ensures
            r@ == Map::<u128, S>::empty(),
    {
        Hub { sessions: HashMap::new() }
    }

    /// A client connected.
    pub fn register(&mut self, id: u128, session: S)
        ensures
            final(self)@ == old(self)@.insert(id, session),
    {
        self.sessions.insert(id, session);
    }

    /// A client connected, and gets a random identifier.
    pub fn connect(&mut self, session: S) -> (r: u128)
        ensures
            is_random_id(r),
            final(self)@ == old(self)@.insert(r, session),
    {
        let id: u128 = random_id();
        self.register(id, session);
        id
    }

    /// A client disconnected.
    pub fn unregister(&mut self, id: &u128)
        ensures
            final(self)@ == old(self)@.remove(*id),
    {
        self.sessions.remove(id);
    }

    /// The number of clients.
    pub fn session_count(&self) -> (r: usize)
        ensures
            r == self@.len(),
    {
        self.sessions.len()
    }

    /// The identifiers of the clients, each once, in no particular order.
    pub fn ids(&self) -> (r: Vec<u128>)
        ensures
            r@.no_duplicates(),
            r@.to_set() == self@.dom(),
    {
        let mut r: Vec<u128> = Vec::new();
        for id in it: self.sessions.keys()
            invariant
                it.seq().unref().to_set() == self@.dom(),
                it.seq().no_duplicates(),
                r@ == it.seq().unref().take(it.index() as int),
                r@.no_duplicates(),
                it.index() == it.seq().len() ==> r@ == it.seq().unref(),
        {
            proof {
                let all = it.seq().unref();
                assert(all.take(it.index() + 1) =~= all.take(it.index() as int).push(*id));
                assert(all.take(all.len() as int) =~= all);
            }
            r.push(*id);
        }
        r
    }

    /// The session of a client, if it is still connected.
    pub fn session(&self, id: &u128) -> (r: Option<&S>)
        ensures
            match r {
                Some(s) => self@.contains_key(*id) && self@[*id] == *s,
                None => !self@.contains_key(*id),
            },
    {
        self.sessions.get(id)
    }

    /// A message was sent to clients, with success or without. Those that it could not
    /// be sent to are removed.
    pub fn broadcast(&mut self, sent: &Vec<(u128, bool)>)
        ensures
            final(self)@ == old(self)@.remove_keys(failed(sent@)),
    {
        let mut i: usize = 0;
        proof {
            assert(self@ =~= self@.remove_keys(failed(sent@.take(0))));
        }
        while i < sent.len()
            invariant
                i <= sent@.len(),
                self@ == old(self)@.remove_keys(failed(sent@.take(i as int))),
            decreases sent@.len() - i,
        {
            let (id, ok): (u128, bool) = sent[i];
            let ghost earlier = self@;
            if !ok {
                self.sessions.remove(&id);
            }
            proof {
                let a = failed(sent@.take(i as int));
                let b = failed(sent@.take(i + 1));
                assert forall|k: u128| b.contains(k) == (a.contains(k) || (!ok && k == id)) by {
                    if a.contains(k) {
                        let j = choose|j: int|
                            0 <= j < i && #[trigger] sent@.take(i as int)[j] == (k, false);
                        assert(sent@.take(i + 1)[j] == (k, false));
                    }
                    if !ok && k == id {
                        assert(sent@.take(i + 1)[i as int] == (k, false));
                    }
                    if b.contains(k) {
                        let j = choose|j: int|
                            0 <= j < i + 1 && #[trigger] sent@.take(i + 1)[j] == (k, false);
                        if j < i {
                            assert(sent@.take(i as int)[j] == (k, false));
                        }
                    }
                }
                assert(self@ =~= old(self)@.remove_keys(b));
            }
            i += 1;
        }
        proof {
            assert(sent@.take(i as int) =~= sent@);
        }
    }
}

/// What a client sends.
#[derive(Clone, Copy, Debug, PartialEq, Eq, Structural)]
pub enum Incoming {
    /// It closes the connection.
    Close,
    /// The connection failed.
    Failed,
    /// It asks for a sign of life.
    Ping,
    /// Anything else.
    Other,
}

/// What follows from what a client sends.
#[derive(Clone, Copy, Debug, PartialEq, Eq, Structural)]
pub enum Reaction {
    /// The client is forgotten.
    Leave,
    /// A sign of life is sent.
    Pong,
    /// Nothing follows.
    Ignore,
}

/// What follows from what a client sends.
pub fn react(incoming: Incoming) -> (r: Reaction)
    ensures
        r == (match incoming {
            Incoming::Close => Reaction::Leave,
            Incoming::Failed => Reaction::Leave,
            Incoming::Ping => Reaction::Pong,
            Incoming::Other => Reaction::Ignore,
        }),
{
    match incoming {
        Incoming::Close => Reaction::Leave,
        Incoming::Failed => Reaction::Leave,
        Incoming::Ping => Reaction::Pong,
        Incoming::Other => Reaction::Ignore,
    }
}

/// A broadcast removes the sessions that have closed, and no other: those that the
/// message reached stay, and so do those that connected meanwhile.
pub proof fn law_broadcast_removes_only_the_closed<S>(
    sessions: Map<u128, S>,
    sent: Seq<(u128, bool)>,
    id: u128,
)
    requires
        sessions.contains_key(id),
    ensures
        sessions.remove_keys(failed(sent)).contains_key(id) <==> !sent.contains((id, false)),
        !sent.contains((id, false)) ==> sessions.remove_keys(failed(sent))[id] == sessions[id],
{
    if failed(sent).contains(id) {
        let i = choose|i: int| 0 <= i < sent.len() && #[trigger] sent[i] == (id, false);
        assert(sent.contains((id, false)));
    }
    if sent.contains((id, false)) {
        let i = choose|i: int| 0 <= i < sent.len() && sent[i] == (id, false);
        assert(sent[i] == (id, false));
    }
}

/// Unregistering a client undoes registering it, where it was not there before.
pub proof fn law_unregister_undoes_register<S>(sessions: Map<u128, S>, id: u128, session: S)
    requires
        !sessions.contains_key(id),
    ensures
        sessions.insert(id, session).remove(id) == sessions,
{
    assert(sessions.insert(id, session).remove(id) =~= sessions);
}

} // verus!
