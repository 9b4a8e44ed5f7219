//! Client connections and the threads they follow.
use crate::keyed::{lemma_take_contains, views, AssocMap, KeySet};
use crate::retained::{RetainedThread, RetainedView};
use crate::protocol::{ConnectionId, ThreadId};
use vstd::prelude::*;

verus! {

/// What a connection can do.
#[derive(Clone, Copy, PartialEq, Eq, Structural, Debug)]
pub struct ConnectionCapabilities {
    pub request_attestation: bool,
}

impl View for ConnectionCapabilities {
    type V = ConnectionCapabilities;

    open spec fn view(&self) -> ConnectionCapabilities {
        *self
    }
}

impl Default for ConnectionCapabilities {
    fn default() -> (r: Self)
        ensures
            !r.request_attestation,
    {
        ConnectionCapabilities { request_attestation: false }
    }
}

/// The live connections and the subscriptions, indexed both ways.
pub struct Subscriptions {
    pub live_connections: AssocMap<ConnectionId, ConnectionCapabilities>,
    /// The connections of each known thread.
    pub connections_by_thread: AssocMap<ThreadId, KeySet<ConnectionId>>,
    /// The threads of each connection that follows one.
    pub threads_by_connection: AssocMap<ConnectionId, KeySet<ThreadId>>,
}

pub struct SubscriptionsView {
    pub live: Map<ConnectionId, ConnectionCapabilities>,
    pub by_thread: Map<ThreadId, Set<ConnectionId>>,
    pub by_connection: Map<ConnectionId, Set<ThreadId>>,
}

impl View for Subscriptions {
    type V = SubscriptionsView;

    open spec fn view(&self) -> SubscriptionsView {
        SubscriptionsView {
            live: self.live_connections@,
            by_thread: self.connections_by_thread@,
            by_connection: self.threads_by_connection@,
        }
    }
}

impl SubscriptionsView {
    /// Whether a connection follows a thread, by the index of threads.
    pub open spec fn follows(self, connection_id: ConnectionId, thread_id: ThreadId) -> bool {
        self.by_thread.contains_key(thread_id) && self.by_thread[thread_id].contains(connection_id)
    }

    /// Whether a connection follows a thread, by the index of connections.
    pub open spec fn lists(self, connection_id: ConnectionId, thread_id: ThreadId) -> bool {
        self.by_connection.contains_key(connection_id)
            && self.by_connection[connection_id].contains(thread_id)
    }

    /// The two indexes agree, only live connections follow threads, and a connection is listed only
    /// while it follows one.
    pub open spec fn consistent(self) -> bool {
        &&& forall|c: ConnectionId, t: ThreadId| #[trigger]
            self.follows(c, t) == #[trigger] self.lists(c, t)
        &&& forall|c: ConnectionId| #[trigger]
            self.by_connection.contains_key(c) ==> self.live.contains_key(c)
                && !(self.by_connection[c] =~= Set::empty())
    }

    /// The connections of a thread; none of an unknown one.
    pub open spec fn connections(self, thread_id: ThreadId) -> Set<ConnectionId> {
        if self.by_thread.contains_key(thread_id) {
            self.by_thread[thread_id]
        } else {
            Set::empty()
        }
    }

    /// The threads of a connection.
    pub open spec fn threads(self, connection_id: ConnectionId) -> Set<ThreadId> {
        if self.by_connection.contains_key(connection_id) {
            self.by_connection[connection_id]
        } else {
            Set::empty()
        }
    }

    /// The subscriptions with one more.
    pub open spec fn with(self, connection_id: ConnectionId, thread_id: ThreadId) -> SubscriptionsView {
        SubscriptionsView {
            by_thread: self.by_thread.insert(
                thread_id,
                self.connections(thread_id).insert(connection_id),
            ),
            by_connection: self.by_connection.insert(
                connection_id,
                self.threads(connection_id).insert(thread_id),
            ),
            ..self
        }
    }

    /// The index of connections with a thread taken from one of them. A connection without threads
    /// is not listed.
    pub open spec fn unlisted(
        self,
        connection_id: ConnectionId,
        thread_id: ThreadId,
    ) -> Map<ConnectionId, Set<ThreadId>> {
        let rest = self.threads(connection_id).remove(thread_id);
        if rest =~= Set::empty() {
            self.by_connection.remove(connection_id)
        } else {
            self.by_connection.insert(connection_id, rest)
        }
    }

    /// The subscriptions with one less.
    pub open spec fn without(
        self,
        connection_id: ConnectionId,
        thread_id: ThreadId,
    ) -> SubscriptionsView {
        SubscriptionsView {
            by_thread: self.by_thread.insert(
                thread_id,
                self.connections(thread_id).remove(connection_id),
            ),
            by_connection: self.unlisted(connection_id, thread_id),
            ..self
        }
    }

    /// The subscriptions once a connection is gone.
    pub open spec fn without_connection(self, connection_id: ConnectionId) -> SubscriptionsView {
        SubscriptionsView {
            live: self.live.remove(connection_id),
            by_thread: Map::new(
                |t: ThreadId| self.by_thread.contains_key(t),
                |t: ThreadId|
                    if self.threads(connection_id).contains(t) {
                        self.by_thread[t].remove(connection_id)
                    } else {
                        self.by_thread[t]
                    },
            ),
            by_connection: self.by_connection.remove(connection_id),
        }
    }

    /// The subscriptions once a thread is gone.
    pub open spec fn without_thread(self, thread_id: ThreadId) -> SubscriptionsView {
        SubscriptionsView {
            by_thread: self.by_thread.remove(thread_id),
            by_connection: Map::new(
                |c: ConnectionId|
                    self.by_connection.contains_key(c) && !(self.by_connection[c].remove(thread_id)
                        =~= Set::empty()),
                |c: ConnectionId| self.by_connection[c].remove(thread_id),
            ),
            ..self
        }
    }

    /// Whether a connection of a thread can attest requests.
    pub open spec fn can_attest(self, connection_id: ConnectionId, thread_id: ThreadId) -> bool {
        self.follows(connection_id, thread_id) && self.live.contains_key(connection_id)
            && self.live[connection_id].request_attestation
    }
}

impl Subscriptions {
    pub fn new() -> (r: Self)
        ensures
            r@ == (SubscriptionsView {
                live: Map::empty(),
                by_thread: Map::empty(),
                by_connection: Map::empty(),
            }),
            r@.consistent(),
    {
        Subscriptions {
            live_connections: AssocMap::new(),
            connections_by_thread: AssocMap::new(),
            threads_by_connection: AssocMap::new(),
        }
    }

    pub fn connection_initialized(
        &mut self,
        connection_id: ConnectionId,
        capabilities: ConnectionCapabilities,
    )
        ensures
            final(self)@ == (SubscriptionsView {
                live: old(self)@.live.insert(connection_id, capabilities),
                ..old(self)@
            }),
            old(self)@.consistent() ==> final(self)@.consistent(),
    {
        self.live_connections.insert(connection_id, capabilities);
        proof {
            if old(self)@.consistent() {
                assert forall|c: ConnectionId| #[trigger]
                    self@.by_connection.contains_key(c) implies self@.live.contains_key(c) && !(
                self@.by_connection[c] =~= Set::empty()) by {
                    assert(old(self)@.by_connection.contains_key(c));
                }
                assert forall|c: ConnectionId, t: ThreadId| #[trigger]
                    self@.follows(c, t) == #[trigger] self@.lists(c, t) by {
                    assert(old(self)@.follows(c, t) == old(self)@.lists(c, t));
                }
            }
        }
    }

    /// The connection of a thread with the smallest number that can attest requests.
    pub fn first_attestation_capable_connection_for_thread(
        &self,
        thread_id: ThreadId,
    ) -> (r: Option<ConnectionId>)
        ensures
            match r {
                Some(c) => self@.can_attest(c, thread_id) && forall|d: ConnectionId| #[trigger]
                    self@.can_attest(d, thread_id) ==> c.0 <= d.0,
                None => forall|d: ConnectionId| !#[trigger] self@.can_attest(d, thread_id),
            },
    {
        let ids = match self.connections_by_thread.get(&thread_id) {
            Some(ids) => ids.members_of(),
            None => {
                return None;
            },
        };
        let ghost all = self@.by_thread[thread_id];
        assert(views(ids@) =~= ids@);
        let mut best: Option<ConnectionId> = None;
        let mut i: usize = 0;
        while i < ids.len()
            invariant
                i <= ids.len(),
                self@.by_thread.contains_key(thread_id),
                all == self@.by_thread[thread_id],
                ids@.to_set() == all,
                match best {
                    Some(c) => self@.can_attest(c, thread_id) && forall|k: int|
                        0 <= k < i && self@.can_attest(#[trigger] ids@[k], thread_id) ==> c.0
                            <= ids@[k].0,
                    None => forall|k: int|
                        0 <= k < i ==> !self@.can_attest(#[trigger] ids@[k], thread_id),
                },
            decreases ids.len() - i,
        {
            let id = ids[i];
            assert(ids@.to_set().contains(id));
            let capable = match self.live_connections.get(&id) {
                Some(c) => c.request_attestation,
                None => false,
            };
            assert(capable == self@.can_attest(id, thread_id));
            if capable {
                let better = match best {
                    Some(c) => id.0 < c.0,
                    None => true,
                };
                if better {
                    best = Some(id);
                }
            }
            i += 1;
        }
        proof {
            assert forall|d: ConnectionId| #[trigger]
                self@.can_attest(d, thread_id) implies ids@.contains(d) by {
                assert(ids@.to_set().contains(d));
            }
        }
        best
    }

    /// The connections of a thread, each once.
    pub fn subscribed_connection_ids(&self, thread_id: ThreadId) -> (r: Vec<ConnectionId>)
        ensures
            r@.to_set() == self@.connections(thread_id),
            r@.no_duplicates(),
    {
        let r = match self.connections_by_thread.get(&thread_id) {
            Some(ids) => ids.members_of(),
            None => Vec::new(),
        };
        assert(views(r@) =~= r@);
        assert(r@.to_set() =~= self@.connections(thread_id));
        r
    }

    pub fn has_subscribers(&self, thread_id: ThreadId) -> (r: bool)
        ensures
            r == !(self@.connections(thread_id) =~= Set::empty()),
    {
        match self.connections_by_thread.get(&thread_id) {
            Some(ids) => !ids.is_empty(),
            None => false,
        }
    }

    /// Makes a thread known, without connections.
    pub fn ensure_thread(&mut self, thread_id: ThreadId)
        ensures
            final(self)@ == (if old(self)@.by_thread.contains_key(thread_id) {
                old(self)@
            } else {
                SubscriptionsView {
                    by_thread: old(self)@.by_thread.insert(thread_id, Set::empty()),
                    ..old(self)@
                }
            }),
            old(self)@.consistent() ==> final(self)@.consistent(),
    {
        if !self.connections_by_thread.contains_key(&thread_id) {
            self.connections_by_thread.insert(thread_id, KeySet::new());
        }
        proof {
            if old(self)@.consistent() {
                assert forall|c: ConnectionId, t: ThreadId| #[trigger]
                    self@.follows(c, t) == #[trigger] self@.lists(c, t) by {
                    assert(old(self)@.follows(c, t) == old(self)@.lists(c, t));
                }
            }
        }
    }

    /// Subscribes a live connection to a thread. Says whether the connection is live.
    pub fn try_add_connection_to_thread(
        &mut self,
        thread_id: ThreadId,
        connection_id: ConnectionId,
    ) -> (added: bool)
        ensures
            added == old(self)@.live.contains_key(connection_id),
            final(self)@ == (if added {
                old(self)@.with(connection_id, thread_id)
            } else {
                old(self)@
            }),
            old(self)@.consistent() ==> final(self)@.consistent(),
    {
        if !self.live_connections.contains_key(&connection_id) {
            return false;
        }
        let mut threads = match self.threads_by_connection.remove(&connection_id) {
            Some(threads) => threads,
            None => KeySet::new(),
        };
        let _ = threads.insert(thread_id);
        self.threads_by_connection.insert(connection_id, threads);
        let mut connections = match self.connections_by_thread.remove(&thread_id) {
            Some(connections) => connections,
            None => KeySet::new(),
        };
        let _ = connections.insert(connection_id);
        self.connections_by_thread.insert(thread_id, connections);
        proof {
            let before = old(self)@;
            let after = before.with(connection_id, thread_id);
            assert(self@.by_thread =~= after.by_thread);
            assert(self@.by_connection =~= after.by_connection);
            if before.consistent() {
                assert forall|c: ConnectionId, t: ThreadId| #[trigger]
                    after.follows(c, t) == #[trigger] after.lists(c, t) by {
                    assert(before.follows(c, t) == before.lists(c, t));
                }
                assert forall|c: ConnectionId| #[trigger]
                    after.by_connection.contains_key(c) implies after.live.contains_key(c) && !(
                after.by_connection[c] =~= Set::empty()) by {
                    if c == connection_id {
                        assert(after.by_connection[c].contains(thread_id));
                    } else {
                        assert(before.by_connection.contains_key(c));
                    }
                }
            }
        }
        true
    }

    /// Ends a subscription. Says whether there was one.
    pub fn unsubscribe_connection_from_thread(
        &mut self,
        thread_id: ThreadId,
        connection_id: ConnectionId,
    ) -> (removed: bool)
        ensures
            removed == (old(self)@.by_thread.contains_key(thread_id) && old(self)@.lists(
                connection_id,
                thread_id,
            )),
            final(self)@ == (if removed {
                old(self)@.without(connection_id, thread_id)
            } else {
                old(self)@
            }),
            old(self)@.consistent() ==> final(self)@.consistent(),
    {
        if !self.connections_by_thread.contains_key(&thread_id) {
            return false;
        }
        let listed = match self.threads_by_connection.get(&connection_id) {
            Some(threads) => threads.contains(&thread_id),
            None => false,
        };
        if !listed {
            return false;
        }
        match self.threads_by_connection.remove(&connection_id) {
            Some(mut threads) => {
                let _ = threads.remove(&thread_id);
                if !threads.is_empty() {
                    self.threads_by_connection.insert(connection_id, threads);
                }
            },
            None => {},
        }
        match self.connections_by_thread.remove(&thread_id) {
            Some(mut connections) => {
                let _ = connections.remove(&connection_id);
                self.connections_by_thread.insert(thread_id, connections);
            },
            None => {},
        }
        proof {
            let before = old(self)@;
            let after = before.without(connection_id, thread_id);
            assert(self@.by_thread =~= after.by_thread);
            assert(self@.by_connection =~= after.by_connection);
            if before.consistent() {
                assert forall|c: ConnectionId, t: ThreadId| #[trigger]
                    after.follows(c, t) == #[trigger] after.lists(c, t) by {
                    assert(before.follows(c, t) == before.lists(c, t));
                    if c == connection_id && t != thread_id && before.lists(c, t) {
                        assert(before.threads(c).remove(thread_id).contains(t));
                    }
                }
                assert forall|c: ConnectionId| #[trigger]
                    after.by_connection.contains_key(c) implies after.live.contains_key(c) && !(
                after.by_connection[c] =~= Set::empty()) by {
                    assert(before.by_connection.contains_key(c));
                }
            }
        }
        true
    }

    /// Removes a connection. Gives the known threads that it followed and that nobody follows now.
    pub fn remove_connection(&mut self, connection_id: ConnectionId) -> (r: Vec<ThreadId>)
        ensures
            final(self)@ == old(self)@.without_connection(connection_id),
            r@.no_duplicates(),
            forall|t: ThreadId| #[trigger]
                r@.contains(t) == (old(self)@.threads(connection_id).contains(t)
                    && final(self)@.by_thread.contains_key(t) && final(self)@.by_thread[t]
                    =~= Set::empty()),
            old(self)@.consistent() ==> final(self)@.consistent(),
    {
        let ghost before = self@;
        let _ = self.live_connections.remove(&connection_id);
        let threads: Vec<ThreadId> = match self.threads_by_connection.remove(&connection_id) {
            Some(threads) => threads.members_of(),
            None => Vec::new(),
        };
        proof {
            assert(views(threads@) =~= threads@);
            assert(threads@.to_set() =~= before.threads(connection_id));
            assert(threads@.take(0) =~= Seq::empty());
        }
        let mut idle: Vec<ThreadId> = Vec::new();
        let mut i: usize = 0;
        while i < threads.len()
            invariant
                i <= threads.len(),
                threads@.no_duplicates(),
                self@.live == before.live.remove(connection_id),
                self@.by_connection == before.by_connection.remove(connection_id),
                forall|t: ThreadId| #[trigger]
                    self@.by_thread.contains_key(t) == before.by_thread.contains_key(t),
                forall|t: ThreadId| #[trigger]
                    before.by_thread.contains_key(t) ==> self@.by_thread[t] == if threads@.take(
                        i as int,
                    ).contains(t) {
                        before.by_thread[t].remove(connection_id)
                    } else {
                        before.by_thread[t]
                    },
                idle@.no_duplicates(),
                forall|t: ThreadId| #[trigger]
                    idle@.contains(t) == (threads@.take(i as int).contains(t)
                        && before.by_thread.contains_key(t) && before.by_thread[t].remove(
                        connection_id,
                    ) =~= Set::empty()),
            decreases threads.len() - i,
        {
            let thread_id = threads[i];
            let ghost done = threads@.take(i as int);
            let ghost next = threads@.take(i + 1);
            let ghost sofar = idle@;
            let ghost prev = self@.by_thread;
            proof {
                lemma_take_contains(threads@, i as int);
                assert(!sofar.contains(thread_id));
            }
            let mut empty = false;
            match self.connections_by_thread.remove(&thread_id) {
                Some(mut connections) => {
                    let _ = connections.remove(&connection_id);
                    empty = connections.is_empty();
                    self.connections_by_thread.insert(thread_id, connections);
                },
                None => {},
            }
            if empty {
                idle.push(thread_id);
            }
            proof {
                let rest = prev[thread_id].remove(connection_id);
                assert(self@.by_thread =~= if prev.contains_key(thread_id) {
                    prev.insert(thread_id, rest)
                } else {
                    prev
                });
                assert(empty == (prev.contains_key(thread_id) && rest =~= Set::empty()));
                assert(prev.contains_key(thread_id) == before.by_thread.contains_key(thread_id));
                assert forall|t: ThreadId| #[trigger]
                    idle@.contains(t) == (next.contains(t) && before.by_thread.contains_key(t)
                        && before.by_thread[t].remove(connection_id) =~= Set::empty()) by {
                    if empty {
                        assert(idle@ =~= sofar.push(thread_id));
                        if sofar.contains(t) {
                            let j = choose|j: int| 0 <= j < sofar.len() && sofar[j] == t;
                            assert(idle@[j] == t);
                        }
                        if t == thread_id {
                            assert(idle@[sofar.len() as int] == t);
                        }
                    }
                    assert(sofar.contains(t) == (done.contains(t) && before.by_thread.contains_key(
                        t,
                    ) && before.by_thread[t].remove(connection_id) =~= Set::empty()));
                }
            }
            i += 1;
        }
        proof {
            assert(threads@.take(i as int) =~= threads@);
            let after = before.without_connection(connection_id);
            assert forall|t: ThreadId| #[trigger] threads@.contains(t) == before.threads(
                connection_id,
            ).contains(t) by {
                assert(threads@.to_set().contains(t) == threads@.contains(t));
            }
            assert(self@.by_thread =~= after.by_thread);
            assert(self@ == after);
            if before.consistent() {
                assert forall|c: ConnectionId, t: ThreadId| #[trigger]
                    after.follows(c, t) == #[trigger] after.lists(c, t) by {
                    assert(before.follows(c, t) == before.lists(c, t));
                    assert(before.follows(connection_id, t) == before.lists(connection_id, t));
                }
                assert forall|c: ConnectionId| #[trigger]
                    after.by_connection.contains_key(c) implies after.live.contains_key(c) && !(
                after.by_connection[c] =~= Set::empty()) by {
                    assert(before.by_connection.contains_key(c));
                }
            }
        }
        idle
    }

    /// Forgets a thread with its subscriptions.
    pub fn remove_thread(&mut self, thread_id: ThreadId)
        ensures
            final(self)@ == old(self)@.without_thread(thread_id),
            old(self)@.consistent() ==> final(self)@.consistent(),
    {
        let ghost before = self@;
        let _ = self.connections_by_thread.remove(&thread_id);
        let ids = self.threads_by_connection.keys();
        assert(views(ids@) =~= ids@);
        let mut i: usize = 0;
        assert(ids@.take(0) =~= Seq::empty());
        while i < ids.len()
            invariant
                i <= ids.len(),
                ids@.no_duplicates(),
                forall|c: ConnectionId| #[trigger]
                    ids@.contains(c) == before.by_connection.contains_key(c),
                self@.live == before.live,
                self@.by_thread == before.by_thread.remove(thread_id),
                forall|c: ConnectionId| #[trigger]
                    self@.by_connection.contains_key(c) == (before.by_connection.contains_key(c)
                        && !(ids@.take(i as int).contains(c) && before.by_connection[c].remove(
                        thread_id,
                    ) =~= Set::empty())),
                forall|c: ConnectionId| #[trigger]
                    self@.by_connection.contains_key(c) ==> self@.by_connection[c]
                        == if ids@.take(i as int).contains(c) {
                        before.by_connection[c].remove(thread_id)
                    } else {
                        before.by_connection[c]
                    },
            decreases ids.len() - i,
        {
            let id = ids[i];
            let ghost done = ids@.take(i as int);
            let ghost next = ids@.take(i + 1);
            let ghost prev = self@.by_connection;
            proof {
                assert(ids@.contains(id));
                lemma_take_contains(ids@, i as int);
            }
            match self.threads_by_connection.remove(&id) {
                Some(mut threads) => {
                    let _ = threads.remove(&thread_id);
                    if !threads.is_empty() {
                        self.threads_by_connection.insert(id, threads);
                    }
                },
                None => {},
            }
            proof {
                let rest = prev[id].remove(thread_id);
                assert(prev.contains_key(id));
                assert(self@.by_connection =~= if rest =~= Set::empty() {
                    prev.remove(id)
                } else {
                    prev.insert(id, rest)
                });
                assert forall|c: ConnectionId| #[trigger]
                    self@.by_connection.contains_key(c) == (before.by_connection.contains_key(c)
                        && !(next.contains(c) && before.by_connection[c].remove(thread_id)
                        =~= Set::empty())) by {
                    assert(prev.contains_key(c) == (before.by_connection.contains_key(c) && !(
                    done.contains(c) && before.by_connection[c].remove(thread_id)
                        =~= Set::empty())));
                }
            }
            i += 1;
        }
        proof {
            assert(ids@.take(i as int) =~= ids@);
            let after = before.without_thread(thread_id);
            assert(self@.by_connection =~= after.by_connection);
            if before.consistent() {
                assert forall|c: ConnectionId, t: ThreadId| #[trigger]
                    after.follows(c, t) == #[trigger] after.lists(c, t) by {
                    assert(before.follows(c, t) == before.lists(c, t));
                    if t != thread_id && before.lists(c, t) {
                        assert(before.by_connection[c].remove(thread_id).contains(t));
                    }
                }
                assert forall|c: ConnectionId| #[trigger]
                    after.by_connection.contains_key(c) implies after.live.contains_key(c) && !(
                after.by_connection[c] =~= Set::empty()) by {
                    assert(before.by_connection.contains_key(c));
                }
            }
        }
    }
}

/// Subscribes a live connection to a thread, which then keeps raw events if the connection wants
/// them. Says whether the connection is live.
pub fn try_ensure_connection_subscribed(
    subscriptions: &mut Subscriptions,
    thread: &mut RetainedThread,
    thread_id: ThreadId,
    connection_id: ConnectionId,
    experimental_raw_events: bool,
) -> (subscribed: bool)
    ensures
        subscribed == old(subscriptions)@.live.contains_key(connection_id),
        final(subscriptions)@ == (if subscribed {
            old(subscriptions)@.with(connection_id, thread_id)
        } else {
            old(subscriptions)@
        }),
        final(thread)@ == (if subscribed && experimental_raw_events {
            RetainedView { experimental_raw_events: true, ..old(thread)@ }
        } else {
            old(thread)@
        }),
        old(subscriptions)@.consistent() ==> final(subscriptions)@.consistent(),
{
    if !subscriptions.try_add_connection_to_thread(thread_id, connection_id) {
        return false;
    }
    if experimental_raw_events {
        thread.set_experimental_raw_events(true);
    }
    true
}

} // verus!
