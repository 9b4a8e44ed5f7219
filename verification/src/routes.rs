//! Routes from child threads to the cards of their parents.
//!
//! A route is made when a parent's turn spawns a child. It carries the child's card to the parent's
//! listener, one state at a time, until the turn ends, a listener is replaced or a thread goes.
use crate::keyed::{kept, views, AssocMap, KeySet};
use crate::live::{empty_live, following, larger, larger_of, state_view, LiveThread, LiveView};
use crate::protocol::{SpawnProgressView, SpineSpawnProgressEvent, TaskProgressView, ThreadId};
use crate::state::{SpineUiState, StateView};
use crate::text::{same_text, text_view};
use vstd::prelude::*;

verus! {

/// The last turn that a child's listener saw end.
pub struct TerminalAck {
    pub listener_generation: u64,
    pub turn_id: String,
}

pub struct TerminalAckView {
    pub listener_generation: u64,
    pub turn_id: Seq<char>,
}

pub open spec fn ack_view(o: Option<TerminalAck>) -> Option<TerminalAckView> {
    match o {
        Some(a) => Some(
            TerminalAckView { listener_generation: a.listener_generation, turn_id: a.turn_id@ },
        ),
        None => None,
    }
}

/// A thread as the manager knows it.
pub struct ThreadEntry {
    /// Which of the states that a thread identity has had this is.
    pub instance: u64,
    pub thread: LiveThread,
    /// The manager's copy of the listener generation, published after the thread's own.
    pub listener_generation: u64,
    pub active_turn_id: Option<String>,
    pub terminal_ack: Option<TerminalAck>,
}

pub struct EntryView {
    pub instance: u64,
    pub thread: LiveView,
    pub listener_generation: u64,
    pub active_turn_id: Option<Seq<char>>,
    pub terminal_ack: Option<TerminalAckView>,
}

impl View for ThreadEntry {
    type V = EntryView;

    open spec fn view(&self) -> EntryView {
        EntryView {
            instance: self.instance,
            thread: self.thread@,
            listener_generation: self.listener_generation,
            active_turn_id: text_view(self.active_turn_id),
            terminal_ack: ack_view(self.terminal_ack),
        }
    }
}

/// A route from a child to its parent's card.
pub struct ParentRoute {
    pub parent_thread_id: ThreadId,
    pub parent_turn_id: String,
    /// The child's turn whose end counts, once it is known.
    pub expected_child_turn_id: Option<String>,
    pub parent_listener_generation: u64,
    /// The nodes that the parent showed when it spawned the child.
    pub baseline_node_ids: KeySet<String>,
    pub generation: u64,
    /// The revision on its way to the parent.
    pub queued_revision: Option<u64>,
    /// The newest revision that the parent has taken.
    pub last_forwarded_revision: Option<u64>,
}

pub struct RouteView {
    pub parent_thread_id: ThreadId,
    pub parent_turn_id: Seq<char>,
    pub expected_child_turn_id: Option<Seq<char>>,
    pub parent_listener_generation: u64,
    pub baseline: Set<Seq<char>>,
    pub generation: u64,
    pub queued_revision: Option<u64>,
    pub last_forwarded_revision: Option<u64>,
}

impl View for ParentRoute {
    type V = RouteView;

    open spec fn view(&self) -> RouteView {
        RouteView {
            parent_thread_id: self.parent_thread_id,
            parent_turn_id: self.parent_turn_id@,
            expected_child_turn_id: text_view(self.expected_child_turn_id),
            parent_listener_generation: self.parent_listener_generation,
            baseline: self.baseline_node_ids@,
            generation: self.generation,
            queued_revision: self.queued_revision,
            last_forwarded_revision: self.last_forwarded_revision,
        }
    }
}

/// Work for the listener of a parent thread.
pub enum Command {
    ForwardSpineUiAgentState {
        child_thread_id: ThreadId,
        parent_turn_id: String,
        parent_listener_generation: u64,
        generation: u64,
        state: Option<SpineUiState>,
    },
    EmitSpineUiInvalidation { listener_generation: u64, turn_id: String },
}

pub enum CommandView {
    ForwardSpineUiAgentState {
        child_thread_id: ThreadId,
        parent_turn_id: Seq<char>,
        parent_listener_generation: u64,
        generation: u64,
        state: Option<StateView>,
    },
    EmitSpineUiInvalidation { listener_generation: u64, turn_id: Seq<char> },
}

impl View for Command {
    type V = CommandView;

    open spec fn view(&self) -> CommandView {
        match self {
            Command::ForwardSpineUiAgentState {
                child_thread_id,
                parent_turn_id,
                parent_listener_generation,
                generation,
                state,
            } => CommandView::ForwardSpineUiAgentState {
                child_thread_id: *child_thread_id,
                parent_turn_id: parent_turn_id@,
                parent_listener_generation: *parent_listener_generation,
                generation: *generation,
                state: state_view(*state),
            },
            Command::EmitSpineUiInvalidation {
                listener_generation,
                turn_id,
            } => CommandView::EmitSpineUiInvalidation {
                listener_generation: *listener_generation,
                turn_id: turn_id@,
            },
        }
    }
}

/// A command and the thread whose listener gets it.
pub struct Sent {
    pub to: ThreadId,
    pub command: Command,
}

pub struct SentView {
    pub to: ThreadId,
    pub command: CommandView,
}

impl View for Sent {
    type V = SentView;

    open spec fn view(&self) -> SentView {
        SentView { to: self.to, command: self.command@ }
    }
}

pub open spec fn sent_view(o: Option<Sent>) -> Option<SentView> {
    match o {
        Some(s) => Some(s@),
        None => None,
    }
}

/// All threads, routes and listeners.
pub struct RouteManager {
    pub threads: AssocMap<ThreadId, ThreadEntry>,
    /// The route of each child.
    pub routes: AssocMap<ThreadId, ParentRoute>,
    pub next_route_generation: u64,
    pub next_instance: u64,
    /// The threads whose listeners take commands.
    pub listeners: KeySet<ThreadId>,
}

pub struct ManagerView {
    pub threads: Map<ThreadId, EntryView>,
    pub routes: Map<ThreadId, RouteView>,
    pub next_route_generation: u64,
    pub next_instance: u64,
    pub listeners: Set<ThreadId>,
}

impl View for RouteManager {
    type V = ManagerView;

    open spec fn view(&self) -> ManagerView {
        ManagerView {
            threads: self.threads@,
            routes: self.routes@,
            next_route_generation: self.next_route_generation,
            next_instance: self.next_instance,
            listeners: self.listeners@,
        }
    }
}

/// A thread seen for the first time.
pub open spec fn fresh_entry(instance: u64) -> EntryView {
    EntryView {
        instance,
        thread: empty_live(),
        listener_generation: 0,
        active_turn_id: None,
        terminal_ack: None,
    }
}

/// The turn of a child whose end counts: the running one, else the last one that ended.
pub open spec fn child_turn(entry: EntryView) -> Option<Seq<char>> {
    if entry.active_turn_id is Some {
        entry.active_turn_id
    } else {
        match entry.terminal_ack {
            Some(a) => Some(a.turn_id),
            None => None,
        }
    }
}

/// The order to refresh a parent's card.
pub open spec fn invalidation(
    parent: ThreadId,
    listener_generation: u64,
    turn_id: Seq<char>,
) -> SentView {
    SentView {
        to: parent,
        command: CommandView::EmitSpineUiInvalidation { listener_generation, turn_id },
    }
}

impl ManagerView {
    /// The manager once a thread is known.
    pub open spec fn knowing(self, thread_id: ThreadId) -> ManagerView {
        if self.threads.contains_key(thread_id) {
            self
        } else {
            ManagerView {
                threads: self.threads.insert(thread_id, fresh_entry(self.next_instance)),
                next_instance: following(self.next_instance),
                ..self
            }
        }
    }

    /// The manager with another state of a thread.
    pub open spec fn with_thread(self, thread_id: ThreadId, thread: LiveView) -> ManagerView {
        ManagerView {
            threads: self.threads.insert(
                thread_id,
                EntryView { thread, ..self.threads[thread_id] },
            ),
            ..self
        }
    }

    /// The command that queues a child's card for its parent: owed where the child has a route and
    /// a card, the parent has a listener, nothing is on its way and the card is newer than what the
    /// parent has taken.
    pub open spec fn queued(self, child: ThreadId) -> Option<SentView> {
        if !self.routes.contains_key(child) || !self.threads.contains_key(child) {
            None
        } else {
            let route = self.routes[child];
            match self.threads[child].thread.forwarded() {
                Some(state) => if self.listeners.contains(route.parent_thread_id)
                    && route.queued_revision is None && (match route.last_forwarded_revision {
                    Some(last) => last < state.revision,
                    None => true,
                }) {
                    Some(
                        SentView {
                            to: route.parent_thread_id,
                            command: CommandView::ForwardSpineUiAgentState {
                                child_thread_id: child,
                                parent_turn_id: route.parent_turn_id,
                                parent_listener_generation: route.parent_listener_generation,
                                generation: route.generation,
                                state: Some(state.projected(route.baseline)),
                            },
                        },
                    )
                } else {
                    None
                },
                None => None,
            }
        }
    }

    /// The manager once a child's card is on its way.
    pub open spec fn after_queue(self, child: ThreadId) -> ManagerView {
        if self.queued(child) is Some {
            ManagerView {
                routes: self.routes.insert(
                    child,
                    RouteView {
                        queued_revision: Some(
                            self.threads[child].thread.forwarded()->0.revision,
                        ),
                        ..self.routes[child]
                    },
                ),
                ..self
            }
        } else {
            self
        }
    }

    /// The manager once the cards of some children, in order, are on their way.
    pub open spec fn after_queues(self, children: Seq<ThreadId>) -> ManagerView
        decreases children.len(),
    {
        if children.len() == 0 {
            self
        } else {
            self.after_queues(children.drop_last()).after_queue(children.last())
        }
    }

    /// The commands for the cards of some children, in order.
    pub open spec fn queues(self, children: Seq<ThreadId>) -> Seq<SentView>
        decreases children.len(),
    {
        if children.len() == 0 {
            Seq::empty()
        } else {
            let before = self.queues(children.drop_last());
            match self.after_queues(children.drop_last()).queued(children.last()) {
                Some(s) => before.push(s),
                None => before,
            }
        }
    }

    /// Whether a child's route leads to a turn of a parent.
    pub open spec fn leads_to(self, child: ThreadId, parent: ThreadId, turn_id: Seq<char>) -> bool {
        self.routes.contains_key(child) && self.routes[child].parent_thread_id == parent
            && self.routes[child].parent_turn_id == turn_id
    }

    /// The manager once a spawned child has a route to the turn that spawned it. A route to that
    /// turn stays as it is; any other is replaced under a new generation.
    pub open spec fn with_route(
        self,
        child: ThreadId,
        parent: ThreadId,
        turn_id: Seq<char>,
        listener_generation: u64,
        baseline: Set<Seq<char>>,
    ) -> ManagerView {
        let known = self.knowing(child);
        if known.leads_to(child, parent, turn_id) {
            known
        } else {
            let generation = following(known.next_route_generation);
            ManagerView {
                routes: known.routes.insert(
                    child,
                    RouteView {
                        parent_thread_id: parent,
                        parent_turn_id: turn_id,
                        expected_child_turn_id: child_turn(known.threads[child]),
                        parent_listener_generation: listener_generation,
                        baseline,
                        generation,
                        queued_revision: None,
                        last_forwarded_revision: None,
                    },
                ),
                next_route_generation: generation,
                ..known
            }
        }
    }

    /// The manager once all spawned tasks have routes.
    pub open spec fn with_routes(
        self,
        tasks: Seq<TaskProgressView>,
        parent: ThreadId,
        turn_id: Seq<char>,
        listener_generation: u64,
        baseline: Set<Seq<char>>,
    ) -> ManagerView
        decreases tasks.len(),
    {
        if tasks.len() == 0 {
            self
        } else {
            self.with_routes(
                tasks.drop_last(),
                parent,
                turn_id,
                listener_generation,
                baseline,
            ).with_route(tasks.last().thread_id, parent, turn_id, listener_generation, baseline)
        }
    }

    /// The children of some tasks whose routes are new, in order.
    pub open spec fn new_routes(
        self,
        tasks: Seq<TaskProgressView>,
        parent: ThreadId,
        turn_id: Seq<char>,
        listener_generation: u64,
        baseline: Set<Seq<char>>,
    ) -> Seq<ThreadId>
        decreases tasks.len(),
    {
        if tasks.len() == 0 {
            Seq::empty()
        } else {
            let rest = tasks.drop_last();
            let before = self.new_routes(rest, parent, turn_id, listener_generation, baseline);
            let child = tasks.last().thread_id;
            let sofar = self.with_routes(rest, parent, turn_id, listener_generation, baseline);
            if sofar.knowing(child).leads_to(child, parent, turn_id) {
                before
            } else {
                before.push(child)
            }
        }
    }

    /// Whether spawn progress of a parent's turn makes routes: the turn shows a card and the
    /// listener is the one that the manager knows.
    pub open spec fn takes_spawn(
        self,
        parent: ThreadId,
        listener_generation: u64,
        turn_id: Seq<char>,
    ) -> bool {
        let known = self.knowing(parent);
        known.threads[parent].thread.baseline(turn_id) is Some
            && known.threads[parent].listener_generation == listener_generation
    }

    /// The manager with the routes of a parent's spawn progress, before anything is queued.
    pub open spec fn routed(
        self,
        parent: ThreadId,
        listener_generation: u64,
        turn_id: Seq<char>,
        progress: SpawnProgressView,
    ) -> ManagerView {
        let known = self.knowing(parent);
        if self.takes_spawn(parent, listener_generation, turn_id) {
            known.with_routes(
                progress.tasks,
                parent,
                turn_id,
                listener_generation,
                known.threads[parent].thread.baseline(turn_id)->0,
            )
        } else {
            known
        }
    }

    /// The children that a parent's spawn progress gives new routes.
    pub open spec fn routed_children(
        self,
        parent: ThreadId,
        listener_generation: u64,
        turn_id: Seq<char>,
        progress: SpawnProgressView,
    ) -> Seq<ThreadId> {
        let known = self.knowing(parent);
        if self.takes_spawn(parent, listener_generation, turn_id) {
            known.new_routes(
                progress.tasks,
                parent,
                turn_id,
                listener_generation,
                known.threads[parent].thread.baseline(turn_id)->0,
            )
        } else {
            Seq::empty()
        }
    }

    /// Whether a command about a child's card still counts.
    pub open spec fn route_is_current(
        self,
        child: ThreadId,
        parent: ThreadId,
        turn_id: Seq<char>,
        listener_generation: u64,
        generation: u64,
    ) -> bool {
        self.leads_to(child, parent, turn_id) && self.routes[child].parent_listener_generation
            == listener_generation && self.routes[child].generation == generation
    }

    /// Whether a parent's card, filled by a listener, shows a turn and drops a child's generation.
    pub open spec fn drops_on_turn(
        self,
        parent: ThreadId,
        turn_id: Seq<char>,
        listener_generation: u64,
        child: ThreadId,
        generation: u64,
    ) -> bool {
        &&& self.reaches_turn(parent, turn_id, listener_generation)
        &&& self.threads[parent].thread.active.drops_agent(child, generation)
    }

    /// Whether a listener still fills a parent's card for a turn.
    pub open spec fn reaches_turn(
        self,
        parent: ThreadId,
        turn_id: Seq<char>,
        listener_generation: u64,
    ) -> bool {
        &&& self.threads.contains_key(parent)
        &&& self.threads[parent].thread.listener_generation == listener_generation
        &&& self.threads[parent].thread.live(turn_id) is Some
    }

    /// The manager once a child's generation is invalidated on a parent's turn.
    pub open spec fn invalidated_on_turn(
        self,
        parent: ThreadId,
        turn_id: Seq<char>,
        listener_generation: u64,
        child: ThreadId,
        generation: u64,
    ) -> ManagerView {
        if self.reaches_turn(parent, turn_id, listener_generation) {
            self.with_thread(
                parent,
                self.threads[parent].thread.without_agent(child, generation),
            )
        } else {
            self
        }
    }

    /// The order to refresh that follows.
    pub open spec fn turn_invalidation(
        self,
        parent: ThreadId,
        turn_id: Seq<char>,
        listener_generation: u64,
        child: ThreadId,
        generation: u64,
    ) -> Option<SentView> {
        if self.drops_on_turn(parent, turn_id, listener_generation, child, generation)
            && self.listeners.contains(parent) {
            Some(invalidation(parent, listener_generation, turn_id))
        } else {
            None
        }
    }

    /// Whether a listener generation is new to the manager.
    pub open spec fn takes_generation(self, thread_id: ThreadId, listener_generation: u64) -> bool {
        listener_generation > self.knowing(thread_id).threads[thread_id].listener_generation
    }

    /// The manager with a new listener generation, before the thread's own route is renewed: the
    /// turn is forgotten and the routes of earlier listeners are gone.
    pub open spec fn relistened(self, thread_id: ThreadId, listener_generation: u64) -> ManagerView {
        let known = self.knowing(thread_id);
        ManagerView {
            threads: known.threads.insert(
                thread_id,
                EntryView {
                    listener_generation,
                    active_turn_id: None,
                    terminal_ack: None,
                    ..known.threads[thread_id]
                },
            ),
            routes: kept(
                known.routes,
                |c: ThreadId, r: RouteView|
                    !(r.parent_thread_id == thread_id && r.parent_listener_generation
                        != listener_generation),
            ),
            ..known
        }
    }

    /// The manager once a thread's route has a new generation.
    pub open spec fn renewed(self, thread_id: ThreadId) -> ManagerView {
        let generation = following(self.next_route_generation);
        ManagerView {
            routes: self.routes.insert(
                thread_id,
                RouteView {
                    expected_child_turn_id: None,
                    generation,
                    queued_revision: None,
                    last_forwarded_revision: None,
                    ..self.routes[thread_id]
                },
            ),
            next_route_generation: generation,
            ..self
        }
    }

    /// The manager after a listener generation was published.
    pub open spec fn with_listener_generation(
        self,
        thread_id: ThreadId,
        listener_generation: u64,
    ) -> ManagerView {
        if !self.takes_generation(thread_id, listener_generation) {
            self.knowing(thread_id)
        } else {
            let fresh = self.relistened(thread_id, listener_generation);
            if fresh.routes.contains_key(thread_id) {
                let before = fresh.routes[thread_id];
                fresh.renewed(thread_id).invalidated_on_turn(
                    before.parent_thread_id,
                    before.parent_turn_id,
                    before.parent_listener_generation,
                    thread_id,
                    before.generation,
                )
            } else {
                fresh
            }
        }
    }

    /// The order to refresh that a new listener generation sends to the thread's parent.
    pub open spec fn listener_invalidation(
        self,
        thread_id: ThreadId,
        listener_generation: u64,
    ) -> Option<SentView> {
        let fresh = self.relistened(thread_id, listener_generation);
        if self.takes_generation(thread_id, listener_generation) && fresh.routes.contains_key(
            thread_id,
        ) {
            let before = fresh.routes[thread_id];
            fresh.renewed(thread_id).turn_invalidation(
                before.parent_thread_id,
                before.parent_turn_id,
                before.parent_listener_generation,
                thread_id,
                before.generation,
            )
        } else {
            None
        }
    }

    /// Whether the manager knows a thread under a listener generation.
    pub open spec fn listened(self, thread_id: ThreadId, listener_generation: u64) -> bool {
        self.threads.contains_key(thread_id) && self.threads[thread_id].listener_generation
            == listener_generation
    }

    /// The manager after a thread started a turn: its own children are released, and its route
    /// expects the new turn.
    pub open spec fn with_turn_started(
        self,
        thread_id: ThreadId,
        listener_generation: u64,
        turn_id: Seq<char>,
    ) -> ManagerView {
        if !self.listened(thread_id, listener_generation) {
            self
        } else {
            let routes = kept(
                self.routes,
                |c: ThreadId, r: RouteView| r.parent_thread_id != thread_id,
            );
            ManagerView {
                threads: self.threads.insert(
                    thread_id,
                    EntryView {
                        active_turn_id: Some(turn_id),
                        terminal_ack: None,
                        ..self.threads[thread_id]
                    },
                ),
                routes: if routes.contains_key(thread_id) {
                    routes.insert(
                        thread_id,
                        RouteView { expected_child_turn_id: Some(turn_id), ..routes[thread_id] },
                    )
                } else {
                    routes
                },
                ..self
            }
        }
    }

    /// Whether a route waits for exactly this revision to be taken.
    pub open spec fn awaits(
        self,
        child: ThreadId,
        parent: ThreadId,
        turn_id: Seq<char>,
        generation: u64,
        revision: u64,
    ) -> bool {
        self.leads_to(child, parent, turn_id) && self.routes[child].generation == generation
            && self.routes[child].queued_revision == Some(revision)
    }

    /// The manager once a parent has taken a revision, before the next one is queued.
    pub open spec fn delivered(
        self,
        child: ThreadId,
        parent: ThreadId,
        turn_id: Seq<char>,
        generation: u64,
        revision: u64,
    ) -> ManagerView {
        if self.awaits(child, parent, turn_id, generation, revision) {
            ManagerView {
                routes: self.routes.insert(
                    child,
                    RouteView {
                        queued_revision: None,
                        last_forwarded_revision: Some(
                            larger(
                                match self.routes[child].last_forwarded_revision {
                                    Some(last) => last,
                                    None => 0,
                                },
                                revision,
                            ),
                        ),
                        ..self.routes[child]
                    },
                ),
                ..self
            }
        } else {
            self
        }
    }

    /// The entry of a child after its turn ended: the end of the running turn, or of the only one
    /// that ended so far, is kept.
    pub open spec fn acknowledged_entry(self, child: ThreadId, turn_id: Seq<char>) -> EntryView {
        let entry = self.threads[child];
        let keeps = match entry.active_turn_id {
            Some(active) => active == turn_id,
            None => match entry.terminal_ack {
                Some(a) => a.listener_generation == entry.listener_generation && a.turn_id
                    == turn_id,
                None => true,
            },
        };
        if keeps {
            EntryView {
                active_turn_id: None,
                terminal_ack: Some(
                    TerminalAckView { listener_generation: entry.listener_generation, turn_id },
                ),
                ..entry
            }
        } else {
            entry
        }
    }

    /// Whether the end of a child's turn is news for its route.
    pub open spec fn expects(self, child: ThreadId, turn_id: Seq<char>) -> bool {
        self.routes.contains_key(child) && (match self.routes[child].expected_child_turn_id {
            Some(expected) => expected == turn_id,
            None => true,
        })
    }

    /// The manager after a child's turn ended, before its card is queued.
    pub open spec fn acknowledged(
        self,
        child: ThreadId,
        listener_generation: u64,
        turn_id: Seq<char>,
    ) -> ManagerView {
        if !self.listened(child, listener_generation) {
            self
        } else {
            ManagerView {
                threads: self.threads.insert(child, self.acknowledged_entry(child, turn_id)),
                routes: if self.expects(child, turn_id) {
                    self.routes.insert(
                        child,
                        RouteView { expected_child_turn_id: Some(turn_id), ..self.routes[child] },
                    )
                } else {
                    self.routes
                },
                ..self
            }
        }
    }

    /// The manager without the routes to a turn of a parent.
    pub open spec fn without_turn_routes(
        self,
        parent: ThreadId,
        turn_id: Seq<char>,
        listener_generation: u64,
    ) -> ManagerView {
        ManagerView {
            routes: kept(
                self.routes,
                |c: ThreadId, r: RouteView|
                    !(r.parent_thread_id == parent && r.parent_turn_id == turn_id
                        && r.parent_listener_generation == listener_generation),
            ),
            ..self
        }
    }

    /// The manager without the routes from and to a thread.
    pub open spec fn without_routes(self, thread_id: ThreadId) -> ManagerView {
        ManagerView {
            routes: kept(
                self.routes,
                |c: ThreadId, r: RouteView| c != thread_id && r.parent_thread_id != thread_id,
            ),
            ..self
        }
    }

    /// The manager without a thread's routes and without the end of its last turn.
    pub open spec fn unrouted(self, thread_id: ThreadId) -> ManagerView {
        let base = self.without_routes(thread_id);
        if self.threads.contains_key(thread_id) {
            ManagerView {
                threads: self.threads.insert(
                    thread_id,
                    EntryView { terminal_ack: None, ..self.threads[thread_id] },
                ),
                ..base
            }
        } else {
            base
        }
    }

    /// Whether the listener of a route still fills its parent's card.
    pub open spec fn reaches(self, parent: ThreadId, listener_generation: u64) -> bool {
        self.threads.contains_key(parent) && self.threads[parent].thread.listener_generation
            == listener_generation
    }

    /// The manager once a thread's routes are gone and its parent no longer shows it.
    pub open spec fn cleared(self, thread_id: ThreadId) -> ManagerView {
        let base = self.unrouted(thread_id);
        if self.routes.contains_key(thread_id) {
            let route = self.routes[thread_id];
            if base.reaches(route.parent_thread_id, route.parent_listener_generation) {
                base.with_thread(
                    route.parent_thread_id,
                    base.threads[route.parent_thread_id].thread.without_agent(
                        thread_id,
                        route.generation,
                    ),
                )
            } else {
                base
            }
        } else {
            base
        }
    }

    /// The order to refresh that follows: owed where the parent showed the thread on a current card
    /// and has a listener.
    pub open spec fn clear_invalidation(self, thread_id: ThreadId) -> Option<SentView> {
        let base = self.unrouted(thread_id);
        if self.routes.contains_key(thread_id) {
            let route = self.routes[thread_id];
            let parent = route.parent_thread_id;
            if base.reaches(parent, route.parent_listener_generation)
                && base.threads[parent].thread.active.drops_agent(thread_id, route.generation)
                && self.listeners.contains(parent) {
                match base.threads[parent].thread.active_card() {
                    Some((turn_id, _)) => Some(
                        invalidation(parent, route.parent_listener_generation, turn_id),
                    ),
                    None => None,
                }
            } else {
                None
            }
        } else {
            None
        }
    }

    /// Whether a listener that ends is the one that the manager knows, on the state it knows.
    pub open spec fn is_listener(
        self,
        thread_id: ThreadId,
        listener_generation: u64,
        instance: u64,
    ) -> bool {
        self.listened(thread_id, listener_generation) && self.threads[thread_id].instance
            == instance
    }
}

impl RouteManager {
    pub fn new() -> (r: Self)
        ensures
            r@ == (ManagerView {
                threads: Map::empty(),
                routes: Map::empty(),
                next_route_generation: 0,
                next_instance: 0,
                listeners: Set::empty(),
            }),
    {
        RouteManager {
            threads: AssocMap::new(),
            routes: AssocMap::new(),
            next_route_generation: 0,
            next_instance: 0,
            listeners: KeySet::new(),
        }
    }

    /// Makes a thread known. Gives the instance of its state.
    pub fn ensure_thread(&mut self, thread_id: ThreadId) -> (instance: u64)
        ensures
            final(self)@ == old(self)@.knowing(thread_id),
            instance == final(self)@.threads[thread_id].instance,
    {
        match self.threads.get(&thread_id) {
            Some(entry) => {
                return entry.instance;
            },
            None => {},
        }
        let instance = self.next_instance;
        self.next_instance = self.next_instance.saturating_add(1);
        self.threads.insert(
            thread_id,
            ThreadEntry {
                instance,
                thread: LiveThread::new(),
                listener_generation: 0,
                active_turn_id: None,
                terminal_ack: None,
            },
        );
        instance
    }

    /// Replaces the state of a thread that is known.
    pub fn put_thread(&mut self, thread_id: ThreadId, thread: LiveThread)
        requires
            old(self)@.threads.contains_key(thread_id),
        ensures
            final(self)@ == old(self)@.with_thread(thread_id, thread@),
    {
        match self.threads.remove(&thread_id) {
            Some(mut entry) => {
                entry.thread = thread;
                self.threads.insert(thread_id, entry);
                assert(self@.threads =~= old(self)@.with_thread(thread_id, thread@).threads);
            },
            None => {},
        }
    }

    /// Takes commands for a thread's listener from now on.
    pub fn register_listener(&mut self, thread_id: ThreadId)
        ensures
            final(self)@ == (ManagerView {
                listeners: old(self)@.listeners.insert(thread_id),
                ..old(self)@
            }),
    {
        let _ = self.listeners.insert(thread_id);
    }

    /// Queues a child's card for its parent.
    pub fn queue_spine_ui_agent_state(&mut self, child: ThreadId) -> (r: Option<Sent>)
        ensures
            sent_view(r) == old(self)@.queued(child),
            final(self)@ == old(self)@.after_queue(child),
    {
        let state = match self.threads.get(&child) {
            Some(entry) => match entry.thread.current_spine_ui_for_forward() {
                Some(s) => s.copy_state(),
                None => return None,
            },
            None => return None,
        };
        let filtered = match self.routes.get(&child) {
            Some(route) => {
                if !self.listeners.contains(&route.parent_thread_id)
                    || route.queued_revision.is_some() {
                    return None;
                }
                match route.last_forwarded_revision {
                    Some(last) => {
                        if last >= state.revision {
                            return None;
                        }
                    },
                    None => {},
                }
                state.filtered_for_parent(&route.baseline_node_ids)
            },
            None => return None,
        };
        match self.routes.remove(&child) {
            Some(mut route) => {
                route.queued_revision = Some(filtered.revision());
                let sent = Sent {
                    to: route.parent_thread_id,
                    command: Command::ForwardSpineUiAgentState {
                        child_thread_id: child,
                        parent_turn_id: route.parent_turn_id.clone(),
                        parent_listener_generation: route.parent_listener_generation,
                        generation: route.generation,
                        state: Some(filtered),
                    },
                };
                self.routes.insert(child, route);
                assert(self@.routes =~= old(self)@.after_queue(child).routes);
                Some(sent)
            },
            None => None,
        }
    }

    /// Takes back a card that could not be sent, so that a later one can be queued.
    pub fn forward_rejected(&mut self, child: ThreadId, generation: u64, revision: u64)
        ensures
            final(self)@ == (if old(self)@.routes.contains_key(child)
                && old(self)@.routes[child].generation == generation
                && old(self)@.routes[child].queued_revision == Some(revision) {
                ManagerView {
                    routes: old(self)@.routes.insert(
                        child,
                        RouteView { queued_revision: None, ..old(self)@.routes[child] },
                    ),
                    ..old(self)@
                }
            } else {
                old(self)@
            }),
    {
        match self.routes.remove(&child) {
            Some(mut route) => {
                if route.generation == generation && route.queued_revision == Some(revision) {
                    route.queued_revision = None;
                }
                self.routes.insert(child, route);
                assert(self@.routes =~= (if old(self)@.routes[child].generation == generation
                    && old(self)@.routes[child].queued_revision == Some(revision) {
                    old(self)@.routes.insert(
                        child,
                        RouteView { queued_revision: None, ..old(self)@.routes[child] },
                    )
                } else {
                    old(self)@.routes
                }));
            },
            None => {
                assert(self@.routes =~= old(self)@.routes);
            },
        }
    }

    fn add_route(
        &mut self,
        child: ThreadId,
        parent: ThreadId,
        turn_id: &str,
        listener_generation: u64,
        baseline: &KeySet<String>,
    ) -> (added: bool)
        ensures
            final(self)@ == old(self)@.with_route(
                child,
                parent,
                turn_id@,
                listener_generation,
                baseline@,
            ),
            added == !old(self)@.knowing(child).leads_to(child, parent, turn_id@),
    {
        let _ = self.ensure_thread(child);
        let ghost known = self@;
        let expected = match self.threads.get(&child) {
            Some(entry) => match &entry.active_turn_id {
                Some(id) => Some(id.clone()),
                None => match &entry.terminal_ack {
                    Some(a) => Some(a.turn_id.clone()),
                    None => None,
                },
            },
            None => None,
        };
        match self.routes.get(&child) {
            Some(route) => {
                if route.parent_thread_id == parent && same_text(
                    route.parent_turn_id.as_str(),
                    turn_id,
                ) {
                    return false;
                }
            },
            None => {},
        }
        self.next_route_generation = self.next_route_generation.saturating_add(1);
        let generation = self.next_route_generation;
        self.routes.insert(
            child,
            ParentRoute {
                parent_thread_id: parent,
                parent_turn_id: turn_id.to_owned(),
                expected_child_turn_id: expected,
                parent_listener_generation: listener_generation,
                baseline_node_ids: baseline.copy_set(),
                generation,
                queued_revision: None,
                last_forwarded_revision: None,
            },
        );
        true
    }

    fn queue_all(&mut self, children: &Vec<ThreadId>) -> (r: Vec<Sent>)
        ensures
            final(self)@ == old(self)@.after_queues(children@),
            views(r@) == old(self)@.queues(children@),
    {
        let ghost start = self@;
        let mut out: Vec<Sent> = Vec::new();
        let mut i: usize = 0;
        proof {
            assert(children@.take(0) =~= Seq::empty());
            assert(views(out@) =~= Seq::empty());
        }
        while i < children.len()
            invariant
                i <= children.len(),
                self@ == start.after_queues(children@.take(i as int)),
                views(out@) == start.queues(children@.take(i as int)),
            decreases children.len() - i,
        {
            let ghost before = views(out@);
            assert(children@.take(i + 1).drop_last() =~= children@.take(i as int));
            match self.queue_spine_ui_agent_state(children[i]) {
                Some(s) => {
                    let ghost sv = s@;
                    out.push(s);
                    assert(views(out@) =~= before.push(sv));
                },
                None => {},
            }
            i += 1;
        }
        assert(children@.take(i as int) =~= children@);
        out
    }

    /// Gives the children of a spawn their routes and queues the cards of the new ones.
    pub fn register_spine_ui_spawn_progress(
        &mut self,
        parent: ThreadId,
        listener_generation: u64,
        turn_id: &str,
        progress: &SpineSpawnProgressEvent,
    ) -> (r: Vec<Sent>)
        ensures
            ({
                let routed = old(self)@.routed(parent, listener_generation, turn_id@, progress@);
                let children = old(self)@.routed_children(
                    parent,
                    listener_generation,
                    turn_id@,
                    progress@,
                );
                &&& final(self)@ == routed.after_queues(children)
                &&& views(r@) == routed.queues(children)
            }),
    {
        let _ = self.ensure_thread(parent);
        let ghost known = self@;
        let none: Vec<Sent> = Vec::new();
        assert(views(none@) =~= Seq::empty());
        let baseline = match self.threads.get(&parent) {
            Some(entry) => {
                let ids = entry.thread.spine_ui_baseline_node_ids(turn_id);
                if entry.listener_generation != listener_generation {
                    return none;
                }
                match ids {
                    Some(ids) => ids,
                    None => return none,
                }
            },
            None => return none,
        };
        let ghost tasks = progress@.tasks;
        let mut children: Vec<ThreadId> = Vec::new();
        let mut i: usize = 0;
        assert(tasks.take(0) =~= Seq::empty());
        while i < progress.tasks.len()
            invariant
                i <= progress.tasks.len(),
                tasks == views(progress.tasks@),
                self@ == known.with_routes(
                    tasks.take(i as int),
                    parent,
                    turn_id@,
                    listener_generation,
                    baseline@,
                ),
                children@ == known.new_routes(
                    tasks.take(i as int),
                    parent,
                    turn_id@,
                    listener_generation,
                    baseline@,
                ),
            decreases progress.tasks.len() - i,
        {
            let child = progress.tasks[i].thread_id;
            proof {
                assert(tasks.take(i + 1).drop_last() =~= tasks.take(i as int));
                assert(tasks[i as int] == progress.tasks@[i as int]@);
            }
            if self.add_route(child, parent, turn_id, listener_generation, &baseline) {
                children.push(child);
            }
            i += 1;
        }
        assert(tasks.take(i as int) =~= tasks);
        self.queue_all(&children)
    }

    fn invalidate_spine_ui_parent_agent_state(
        &mut self,
        parent: ThreadId,
        turn_id: &str,
        listener_generation: u64,
        child: ThreadId,
        generation: u64,
    ) -> (r: Option<Sent>)
        ensures
            final(self)@ == old(self)@.invalidated_on_turn(
                parent,
                turn_id@,
                listener_generation,
                child,
                generation,
            ),
            sent_view(r) == old(self)@.turn_invalidation(
                parent,
                turn_id@,
                listener_generation,
                child,
                generation,
            ),
    {
        let mut changed = false;
        match self.threads.remove(&parent) {
            Some(mut entry) => {
                if entry.thread.listener_generation == listener_generation
                    && entry.thread.live_spine_ui(turn_id).is_some() {
                    changed = entry.thread.invalidate_spine_ui_agent_state(child, generation);
                }
                self.threads.insert(parent, entry);
            },
            None => {},
        }
        assert(self@.threads =~= old(self)@.invalidated_on_turn(
            parent,
            turn_id@,
            listener_generation,
            child,
            generation,
        ).threads);
        if changed && self.listeners.contains(&parent) {
            Some(
                Sent {
                    to: parent,
                    command: Command::EmitSpineUiInvalidation {
                        listener_generation,
                        turn_id: turn_id.to_owned(),
                    },
                },
            )
        } else {
            None
        }
    }

    /// Publishes a thread's listener generation. A new one releases the routes of earlier listeners
    /// and renews the thread's own, whose parent stops showing the old card.
    pub fn note_spine_ui_listener_generation(
        &mut self,
        thread_id: ThreadId,
        listener_generation: u64,
    ) -> (r: Option<Sent>)
        ensures
            final(self)@ == old(self)@.with_listener_generation(thread_id, listener_generation),
            sent_view(r) == old(self)@.listener_invalidation(thread_id, listener_generation),
    {
        let _ = self.ensure_thread(thread_id);
        let ghost known = self@;
        match self.threads.remove(&thread_id) {
            Some(mut entry) => {
                let news = listener_generation > entry.listener_generation;
                if news {
                    entry.listener_generation = listener_generation;
                    entry.active_turn_id = None;
                    entry.terminal_ack = None;
                }
                self.threads.insert(thread_id, entry);
                if !news {
                    assert(self@.threads =~= known.threads);
                    return None;
                }
            },
            None => {},
        }
        let stays = |c: &ThreadId, r: &ParentRoute| -> (b: bool)
            ensures
                b == !(r@.parent_thread_id == thread_id && r@.parent_listener_generation
                    != listener_generation),
        {
            !(r.parent_thread_id == thread_id && r.parent_listener_generation
                != listener_generation)
        };
        self.routes.retain(
            stays,
            Ghost(
                |c: ThreadId, r: RouteView|
                    !(r.parent_thread_id == thread_id && r.parent_listener_generation
                        != listener_generation),
            ),
        );
        let ghost fresh = old(self)@.relistened(thread_id, listener_generation);
        assert(self@.threads =~= fresh.threads);
        match self.routes.remove(&thread_id) {
            Some(mut route) => {
                let parent = route.parent_thread_id;
                let turn_id = route.parent_turn_id.clone();
                let parent_generation = route.parent_listener_generation;
                let before = route.generation;
                self.next_route_generation = self.next_route_generation.saturating_add(1);
                route.expected_child_turn_id = None;
                route.generation = self.next_route_generation;
                route.queued_revision = None;
                route.last_forwarded_revision = None;
                self.routes.insert(thread_id, route);
                assert(self@.routes =~= fresh.renewed(thread_id).routes);
                self.invalidate_spine_ui_parent_agent_state(
                    parent,
                    turn_id.as_str(),
                    parent_generation,
                    thread_id,
                    before,
                )
            },
            None => {
                assert(self@.routes =~= fresh.routes);
                None
            },
        }
    }

    /// Notes that a thread started a turn, for the listener that the manager knows.
    pub fn note_spine_ui_agent_turn_started(
        &mut self,
        thread_id: ThreadId,
        listener_generation: u64,
        turn_id: &str,
    )
        ensures
            final(self)@ == old(self)@.with_turn_started(
                thread_id,
                listener_generation,
                turn_id@,
            ),
    {
        match self.threads.get(&thread_id) {
            Some(entry) => {
                if entry.listener_generation != listener_generation {
                    return;
                }
            },
            None => {
                return;
            },
        }
        let stays = |c: &ThreadId, r: &ParentRoute| -> (b: bool)
            ensures
                b == (r@.parent_thread_id != thread_id),
        {
            r.parent_thread_id != thread_id
        };
        self.routes.retain(
            stays,
            Ghost(|c: ThreadId, r: RouteView| r.parent_thread_id != thread_id),
        );
        let ghost routes = self@.routes;
        match self.threads.remove(&thread_id) {
            Some(mut entry) => {
                entry.active_turn_id = Some(turn_id.to_owned());
                entry.terminal_ack = None;
                self.threads.insert(thread_id, entry);
            },
            None => {},
        }
        match self.routes.remove(&thread_id) {
            Some(mut route) => {
                route.expected_child_turn_id = Some(turn_id.to_owned());
                self.routes.insert(thread_id, route);
            },
            None => {},
        }
        proof {
            let after = old(self)@.with_turn_started(thread_id, listener_generation, turn_id@);
            assert(self@.threads =~= after.threads);
            assert(self@.routes =~= after.routes);
        }
    }

    /// The card of a thread.
    pub fn spine_ui_state_for_thread(&self, thread_id: ThreadId) -> (r: Option<SpineUiState>)
        ensures
            state_view(r) == if self@.threads.contains_key(thread_id) {
                self@.threads[thread_id].thread.forwarded()
            } else {
                None
            },
    {
        match self.threads.get(&thread_id) {
            Some(entry) => match entry.thread.current_spine_ui_for_forward() {
                Some(s) => Some(s.copy_state()),
                None => None,
            },
            None => None,
        }
    }

    /// Notes that a parent took a child's card, and queues a newer one where there is one.
    pub fn complete_spine_ui_agent_state_forward(
        &mut self,
        child: ThreadId,
        parent: ThreadId,
        turn_id: &str,
        generation: u64,
        revision: u64,
    ) -> (r: Option<Sent>)
        ensures
            ({
                let before = old(self)@;
                let delivered = before.delivered(child, parent, turn_id@, generation, revision);
                if before.awaits(child, parent, turn_id@, generation, revision) {
                    final(self)@ == delivered.after_queue(child) && sent_view(r)
                        == delivered.queued(child)
                } else {
                    final(self)@ == before && r is None
                }
            }),
    {
        match self.routes.get(&child) {
            Some(route) => {
                if route.parent_thread_id != parent || !same_text(
                    route.parent_turn_id.as_str(),
                    turn_id,
                ) || route.generation != generation || route.queued_revision != Some(revision) {
                    return None;
                }
            },
            None => {
                return None;
            },
        }
        match self.routes.remove(&child) {
            Some(mut route) => {
                let last: u64 = match route.last_forwarded_revision {
                    Some(last) => last,
                    None => 0,
                };
                route.queued_revision = None;
                route.last_forwarded_revision = Some(larger_of(last, revision));
                self.routes.insert(child, route);
            },
            None => {},
        }
        assert(self@.routes =~= old(self)@.delivered(
            child,
            parent,
            turn_id@,
            generation,
            revision,
        ).routes);
        self.queue_spine_ui_agent_state(child)
    }

    /// Notes that a child's turn ended, and queues its card where its route expects that turn.
    pub fn acknowledge_spine_ui_agent_terminal(
        &mut self,
        child: ThreadId,
        listener_generation: u64,
        turn_id: &str,
    ) -> (r: Option<Sent>)
        ensures
            ({
                let before = old(self)@;
                let acked = before.acknowledged(child, listener_generation, turn_id@);
                if before.listened(child, listener_generation) && before.expects(child, turn_id@) {
                    final(self)@ == acked.after_queue(child) && sent_view(r) == acked.queued(child)
                } else {
                    final(self)@ == acked && r is None
                }
            }),
    {
        match self.threads.get(&child) {
            Some(entry) => {
                if entry.listener_generation != listener_generation {
                    return None;
                }
            },
            None => {
                return None;
            },
        }
        match self.threads.remove(&child) {
            Some(mut entry) => {
                let keeps = match &entry.active_turn_id {
                    Some(active) => same_text(active.as_str(), turn_id),
                    None => match &entry.terminal_ack {
                        Some(a) => a.listener_generation == listener_generation && same_text(
                            a.turn_id.as_str(),
                            turn_id,
                        ),
                        None => true,
                    },
                };
                if keeps {
                    entry.active_turn_id = None;
                    entry.terminal_ack = Some(
                        TerminalAck { listener_generation, turn_id: turn_id.to_owned() },
                    );
                }
                self.threads.insert(child, entry);
            },
            None => {},
        }
        let ghost acked = old(self)@.acknowledged(child, listener_generation, turn_id@);
        assert(self@.threads =~= acked.threads);
        let expects = match self.routes.get(&child) {
            Some(route) => match &route.expected_child_turn_id {
                Some(expected) => same_text(expected.as_str(), turn_id),
                None => true,
            },
            None => false,
        };
        if !expects {
            return None;
        }
        match self.routes.remove(&child) {
            Some(mut route) => {
                route.expected_child_turn_id = Some(turn_id.to_owned());
                self.routes.insert(child, route);
            },
            None => {},
        }
        assert(self@.routes =~= acked.routes);
        self.queue_spine_ui_agent_state(child)
    }

    /// Whether a command about a child's card still counts.
    pub fn spine_ui_route_is_current(
        &self,
        child: ThreadId,
        parent: ThreadId,
        turn_id: &str,
        listener_generation: u64,
        generation: u64,
    ) -> (r: bool)
        ensures
            r == self@.route_is_current(child, parent, turn_id@, listener_generation, generation),
    {
        match self.routes.get(&child) {
            Some(route) => route.parent_thread_id == parent && same_text(
                route.parent_turn_id.as_str(),
                turn_id,
            ) && route.parent_listener_generation == listener_generation && route.generation
                == generation,
            None => false,
        }
    }

    /// Releases the children of a parent's turn.
    pub fn clear_spine_ui_parent_routes(
        &mut self,
        parent: ThreadId,
        turn_id: &str,
        listener_generation: u64,
    )
        ensures
            final(self)@ == old(self)@.without_turn_routes(parent, turn_id@, listener_generation),
    {
        let stays = |c: &ThreadId, r: &ParentRoute| -> (b: bool)
            ensures
                b == !(r@.parent_thread_id == parent && r@.parent_turn_id == turn_id@
                    && r@.parent_listener_generation == listener_generation),
        {
            !(r.parent_thread_id == parent && same_text(r.parent_turn_id.as_str(), turn_id)
                && r.parent_listener_generation == listener_generation)
        };
        self.routes.retain(
            stays,
            Ghost(
                |c: ThreadId, r: RouteView|
                    !(r.parent_thread_id == parent && r.parent_turn_id == turn_id@
                        && r.parent_listener_generation == listener_generation),
            ),
        );
    }

    /// Removes the routes from and to a thread.
    pub fn remove_thread_routes(&mut self, thread_id: ThreadId)
        ensures
            final(self)@ == old(self)@.without_routes(thread_id),
    {
        let stays = |c: &ThreadId, r: &ParentRoute| -> (b: bool)
            ensures
                b == (c@ != thread_id && r@.parent_thread_id != thread_id),
        {
            *c != thread_id && r.parent_thread_id != thread_id
        };
        self.routes.retain(
            stays,
            Ghost(|c: ThreadId, r: RouteView| c != thread_id && r.parent_thread_id != thread_id),
        );
        assert(self@.routes =~= old(self)@.without_routes(thread_id).routes);
    }

    /// Removes all routes.
    pub fn clear_routes(&mut self)
        ensures
            final(self)@ == (ManagerView { routes: Map::empty(), ..old(self)@ }),
    {
        self.routes.clear();
    }

    /// Removes the routes from and to a thread. Its parent stops showing it and is told to refresh.
    pub fn clear_all_spine_ui_routes_for_thread(&mut self, thread_id: ThreadId) -> (r: Option<Sent>)
        ensures
            final(self)@ == old(self)@.cleared(thread_id),
            sent_view(r) == old(self)@.clear_invalidation(thread_id),
    {
        match self.threads.remove(&thread_id) {
            Some(mut entry) => {
                entry.terminal_ack = None;
                self.threads.insert(thread_id, entry);
            },
            None => {},
        }
        let target = match self.routes.get(&thread_id) {
            Some(route) => Some(
                (route.parent_thread_id, route.parent_listener_generation, route.generation),
            ),
            None => None,
        };
        self.remove_thread_routes(thread_id);
        let ghost base = old(self)@.unrouted(thread_id);
        assert(self@.threads =~= base.threads);
        match target {
            Some((parent, listener_generation, generation)) => {
                let mut turn_id: Option<String> = None;
                match self.threads.remove(&parent) {
                    Some(mut entry) => {
                        if entry.thread.listener_generation == listener_generation {
                            let before = entry.thread.active_spine_ui_snapshot();
                            let changed = entry.thread.invalidate_spine_ui_agent_state(
                                thread_id,
                                generation,
                            );
                            if changed {
                                turn_id = match before {
                                    Some((id, _)) => Some(id),
                                    None => None,
                                };
                            }
                        }
                        self.threads.insert(parent, entry);
                    },
                    None => {},
                }
                assert(self@.threads =~= old(self)@.cleared(thread_id).threads);
                match turn_id {
                    Some(turn_id) => {
                        if self.listeners.contains(&parent) {
                            Some(
                                Sent {
                                    to: parent,
                                    command: Command::EmitSpineUiInvalidation {
                                        listener_generation,
                                        turn_id,
                                    },
                                },
                            )
                        } else {
                            None
                        }
                    },
                    None => None,
                }
            },
            None => None,
        }
    }

    /// Removes the routes from and to a thread whose listener ended; nothing where another listener
    /// or another state has taken its place.
    pub fn clear_spine_ui_routes_for_listener_exit(
        &mut self,
        thread_id: ThreadId,
        listener_generation: u64,
        instance: u64,
    ) -> (r: Option<Sent>)
        ensures
            if old(self)@.is_listener(thread_id, listener_generation, instance) {
                final(self)@ == old(self)@.cleared(thread_id) && sent_view(r)
                    == old(self)@.clear_invalidation(thread_id)
            } else {
                final(self)@ == old(self)@ && r is None
            },
    {
        match self.threads.get(&thread_id) {
            Some(entry) => {
                if entry.instance != instance || entry.listener_generation
                    != listener_generation {
                    return None;
                }
            },
            None => {
                return None;
            },
        }
        self.clear_all_spine_ui_routes_for_thread(thread_id)
    }

    /// Forgets a thread with its routes and its listener. Hands out what is left of it, with its
    /// cards dropped.
    pub fn remove_thread_state(&mut self, thread_id: ThreadId) -> (r: Option<LiveThread>)
        ensures
            final(self)@ == (ManagerView {
                threads: old(self)@.threads.remove(thread_id),
                listeners: old(self)@.listeners.remove(thread_id),
                ..old(self)@.without_routes(thread_id)
            }),
            match r {
                Some(thread) => old(self)@.threads.contains_key(thread_id) && thread@ == (LiveView {
                    turns: crate::turns::no_turns(),
                    ..old(self)@.threads[thread_id].thread.without_cards()
                }),
                None => !old(self)@.threads.contains_key(thread_id),
            },
    {
        let removed = self.threads.remove(&thread_id);
        self.remove_thread_routes(thread_id);
        self.unregister_listener(thread_id);
        match removed {
            Some(entry) => {
                let mut thread = entry.thread;
                thread.clear_listener();
                Some(thread)
            },
            None => None,
        }
    }

    /// Takes no more commands for a thread's listener.
    pub fn unregister_listener(&mut self, thread_id: ThreadId)
        ensures
            final(self)@ == (ManagerView {
                listeners: old(self)@.listeners.remove(thread_id),
                ..old(self)@
            }),
    {
        let _ = self.listeners.remove(&thread_id);
    }
}

} // verus!
