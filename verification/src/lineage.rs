//! Routes and lineages of retained cards.
//!
//! A route carries a child's card to the turn that spawned it and settles with the child's final
//! state. A route that settles too late stays for a while, so that the final state still reaches the
//! completed card. A lineage names the parent whose completed cards show a child; through lineages a
//! change of a child's card, or its invalidation, reaches every ancestor.
use crate::agents::covers;
use crate::keyed::{kept, lemma_take_contains, views, AssocMap, Key, KeySet};
use crate::live::{following, larger, larger_of, snapshot_ids, state_view};
use crate::protocol::{SpawnProgressView, SpineSpawnProgressEvent, TaskProgressView, ThreadId};
use crate::retained::{empty_retained, RetainedThread, RetainedView};
use crate::state::{SpineUiState, StateView};
use crate::text::same_text;
use vstd::prelude::*;

verus! {

/// How long a route that timed out waits for a late final state, in milliseconds.
pub const TIMED_OUT_ROUTE_RETENTION_MS: u64 = 1_800_000;

/// The final state of a child's last turn, under the listener that saw it end.
pub struct FinalAck {
    pub listener_generation: u64,
    pub state: Option<SpineUiState>,
}

pub struct FinalAckView {
    pub listener_generation: u64,
    pub state: Option<StateView>,
}

pub open spec fn final_ack_view(o: Option<FinalAck>) -> Option<FinalAckView> {
    match o {
        Some(a) => Some(
            FinalAckView {
                listener_generation: a.listener_generation,
                state: state_view(a.state),
            },
        ),
        None => None,
    }
}

/// A thread as the manager knows it.
pub struct RetainedEntry {
    pub thread: RetainedThread,
    pub listener_generation: u64,
    pub terminal_ack: Option<FinalAck>,
}

pub struct RetainedEntryView {
    pub thread: RetainedView,
    pub listener_generation: u64,
    pub terminal_ack: Option<FinalAckView>,
}

impl View for RetainedEntry {
    type V = RetainedEntryView;

    open spec fn view(&self) -> RetainedEntryView {
        RetainedEntryView {
            thread: self.thread@,
            listener_generation: self.listener_generation,
            terminal_ack: final_ack_view(self.terminal_ack),
        }
    }
}

/// Where a route stands. A route that is gone is invalidated.
pub enum RouteTerminal {
    Pending,
    TimedOut,
    Settled(Option<SpineUiState>),
    Invalidated,
}

pub enum RouteTerminalView {
    Pending,
    TimedOut,
    Settled(Option<StateView>),
    Invalidated,
}

impl View for RouteTerminal {
    type V = RouteTerminalView;

    open spec fn view(&self) -> RouteTerminalView {
        match self {
            RouteTerminal::Pending => RouteTerminalView::Pending,
            RouteTerminal::TimedOut => RouteTerminalView::TimedOut,
            RouteTerminal::Settled(state) => RouteTerminalView::Settled(state_view(*state)),
            RouteTerminal::Invalidated => RouteTerminalView::Invalidated,
        }
    }
}

/// A route from a child to the turn that spawned it.
pub struct RetainedRoute {
    pub parent_thread_id: ThreadId,
    pub parent_turn_id: String,
    /// The nodes that the parent showed when it spawned the child.
    pub baseline_node_ids: KeySet<String>,
    pub generation: u64,
    /// When the wait for the child's final state ended without it.
    pub timed_out_at: Option<u64>,
    pub terminal: RouteTerminal,
}

pub struct RetainedRouteView {
    pub parent_thread_id: ThreadId,
    pub parent_turn_id: Seq<char>,
    pub baseline: Set<Seq<char>>,
    pub generation: u64,
    pub timed_out_at: Option<u64>,
    pub terminal: RouteTerminalView,
}

impl View for RetainedRoute {
    type V = RetainedRouteView;

    open spec fn view(&self) -> RetainedRouteView {
        RetainedRouteView {
            parent_thread_id: self.parent_thread_id,
            parent_turn_id: self.parent_turn_id@,
            baseline: self.baseline_node_ids@,
            generation: self.generation,
            timed_out_at: self.timed_out_at,
            terminal: self.terminal@,
        }
    }
}

/// The parent whose completed cards show a child.
pub struct CarryLineage {
    pub parent_thread_id: ThreadId,
    pub generation: u64,
    pub baseline_node_ids: KeySet<String>,
}

pub struct LineageView {
    pub parent_thread_id: ThreadId,
    pub generation: u64,
    pub baseline: Set<Seq<char>>,
}

impl View for CarryLineage {
    type V = LineageView;

    open spec fn view(&self) -> LineageView {
        LineageView {
            parent_thread_id: self.parent_thread_id,
            generation: self.generation,
            baseline: self.baseline_node_ids@,
        }
    }
}

/// A child shown by a parent under a generation.
#[derive(Clone, Copy, PartialEq, Eq, Structural, Debug)]
pub struct Edge {
    pub child: ThreadId,
    pub parent: ThreadId,
    pub generation: u64,
}

impl View for Edge {
    type V = Edge;

    open spec fn view(&self) -> Edge {
        *self
    }
}

impl Key for Edge {
    fn same(&self, other: &Self) -> (b: bool) {
        *self == *other
    }

    fn copy(&self) -> (r: Self) {
        *self
    }
}

/// Work for the listener of a thread.
pub enum RetainedCommand {
    ForwardSpineUiAgentState {
        child_thread_id: ThreadId,
        parent_turn_id: String,
        generation: u64,
        state: Option<SpineUiState>,
        terminal: bool,
    },
    EmitSpineUiInvalidation { turn_id: String, card: SpineUiState },
}

pub enum RetainedCommandView {
    ForwardSpineUiAgentState {
        child_thread_id: ThreadId,
        parent_turn_id: Seq<char>,
        generation: u64,
        state: Option<StateView>,
        terminal: bool,
    },
    EmitSpineUiInvalidation { turn_id: Seq<char>, card: StateView },
}

impl View for RetainedCommand {
    type V = RetainedCommandView;

    open spec fn view(&self) -> RetainedCommandView {
        match self {
            RetainedCommand::ForwardSpineUiAgentState {
                child_thread_id,
                parent_turn_id,
                generation,
                state,
                terminal,
            } => RetainedCommandView::ForwardSpineUiAgentState {
                child_thread_id: *child_thread_id,
                parent_turn_id: parent_turn_id@,
                generation: *generation,
                state: state_view(*state),
                terminal: *terminal,
            },
            RetainedCommand::EmitSpineUiInvalidation {
                turn_id,
                card,
            } => RetainedCommandView::EmitSpineUiInvalidation { turn_id: turn_id@, card: card@ },
        }
    }
}

/// A command and the thread whose listener gets it.
pub struct RetainedSent {
    pub to: ThreadId,
    pub command: RetainedCommand,
}

pub struct RetainedSentView {
    pub to: ThreadId,
    pub command: RetainedCommandView,
}

impl View for RetainedSent {
    type V = RetainedSentView;

    open spec fn view(&self) -> RetainedSentView {
        RetainedSentView { to: self.to, command: self.command@ }
    }
}

pub open spec fn retained_sent_view(o: Option<RetainedSent>) -> Option<RetainedSentView> {
    match o {
        Some(s) => Some(s@),
        None => None,
    }
}

/// A completed card that changed after its turn had ended.
pub struct SpineUiCompletedUpdate {
    pub thread_id: ThreadId,
    pub turn_id: String,
    pub state: SpineUiState,
}

pub struct UpdateView {
    pub thread_id: ThreadId,
    pub turn_id: Seq<char>,
    pub state: StateView,
}

impl View for SpineUiCompletedUpdate {
    type V = UpdateView;

    open spec fn view(&self) -> UpdateView {
        UpdateView { thread_id: self.thread_id, turn_id: self.turn_id@, state: self.state@ }
    }
}

/// All threads, routes and lineages.
pub struct RetainedManager {
    pub threads: AssocMap<ThreadId, RetainedEntry>,
    /// The route of each child.
    pub routes: AssocMap<ThreadId, RetainedRoute>,
    /// The lineage of each child.
    pub lineages: AssocMap<ThreadId, CarryLineage>,
    /// The newest invalidated generation of each child.
    pub invalidated: AssocMap<ThreadId, u64>,
    pub next_route_generation: u64,
    /// The threads whose listeners take commands.
    pub listeners: KeySet<ThreadId>,
}

pub struct RetainedManagerView {
    pub threads: Map<ThreadId, RetainedEntryView>,
    pub routes: Map<ThreadId, RetainedRouteView>,
    pub lineages: Map<ThreadId, LineageView>,
    pub invalidated: Map<ThreadId, u64>,
    pub next_route_generation: u64,
    pub listeners: Set<ThreadId>,
}

impl View for RetainedManager {
    type V = RetainedManagerView;

    open spec fn view(&self) -> RetainedManagerView {
        RetainedManagerView {
            threads: self.threads@,
            routes: self.routes@,
            lineages: self.lineages@,
            invalidated: self.invalidated@,
            next_route_generation: self.next_route_generation,
            listeners: self.listeners@,
        }
    }
}

/// A thread seen for the first time.
pub open spec fn fresh_retained() -> RetainedEntryView {
    RetainedEntryView { thread: empty_retained(), listener_generation: 0, terminal_ack: None }
}

/// An optional card as a parent shows it.
pub open spec fn projected_option(
    state: Option<StateView>,
    baseline: Set<Seq<char>>,
) -> Option<StateView> {
    match state {
        Some(s) => Some(s.projected(baseline)),
        None => None,
    }
}

/// The time from one instant to a later one, or nothing.
pub open spec fn elapsed(from: u64, to: u64) -> u64 {
    if to >= from {
        (to - from) as u64
    } else {
        0
    }
}

/// Whether a number is the largest value of a map, or nothing where the map is empty.
pub open spec fn tops(generations: Map<ThreadId, u64>, n: u64) -> bool {
    &&& forall|t: ThreadId| #[trigger] generations.contains_key(t) ==> generations[t] <= n
    &&& n > 0 ==> exists|t: ThreadId| #[trigger] generations.contains_key(t) && generations[t] == n
}

/// The largest value of a map, or nothing where the map is empty.
pub open spec fn top_generation(generations: Map<ThreadId, u64>) -> u64 {
    choose|n: u64| tops(generations, n)
}

/// Where a child's card goes: a parent, under a generation, without the nodes it shows already.
pub struct Target {
    pub parent: ThreadId,
    pub generation: u64,
    pub baseline: Set<Seq<char>>,
}

impl RetainedManagerView {
    /// The manager once a thread is known.
    pub open spec fn knowing(self, thread_id: ThreadId) -> RetainedManagerView {
        if self.threads.contains_key(thread_id) {
            self
        } else {
            RetainedManagerView {
                threads: self.threads.insert(thread_id, fresh_retained()),
                ..self
            }
        }
    }

    /// The manager with another state of a thread.
    pub open spec fn with_thread(
        self,
        thread_id: ThreadId,
        thread: RetainedView,
    ) -> RetainedManagerView {
        RetainedManagerView {
            threads: self.threads.insert(
                thread_id,
                RetainedEntryView { thread, ..self.threads[thread_id] },
            ),
            ..self
        }
    }

    /// The card of a thread that its parent should show.
    pub open spec fn forwarded(self, thread_id: ThreadId) -> Option<StateView> {
        if self.threads.contains_key(thread_id) {
            self.threads[thread_id].thread.forwarded()
        } else {
            None
        }
    }

    /// The manager with a thread's route waiting again.
    pub open spec fn rewaiting(self, thread_id: ThreadId) -> RetainedManagerView {
        if self.routes.contains_key(thread_id) {
            RetainedManagerView {
                routes: self.routes.insert(
                    thread_id,
                    RetainedRouteView {
                        terminal: RouteTerminalView::Pending,
                        ..self.routes[thread_id]
                    },
                ),
                ..self
            }
        } else {
            self
        }
    }

    /// The manager once a thread has a listener of a generation. A new listener starts over.
    pub open spec fn with_listener_generation(
        self,
        thread_id: ThreadId,
        listener_generation: u64,
    ) -> RetainedManagerView {
        let known = self.knowing(thread_id);
        let entry = known.threads[thread_id];
        if entry.listener_generation == listener_generation {
            known
        } else {
            RetainedManagerView {
                threads: known.threads.insert(
                    thread_id,
                    RetainedEntryView { listener_generation, terminal_ack: None, ..entry },
                ),
                ..known
            }.rewaiting(thread_id)
        }
    }

    /// Whether a thread is known with a listener of a generation.
    pub open spec fn listened(self, thread_id: ThreadId, listener_generation: u64) -> bool {
        self.threads.contains_key(thread_id) && self.threads[thread_id].listener_generation
            == listener_generation
    }

    /// The manager once a thread's turn has started.
    pub open spec fn with_turn_started(
        self,
        thread_id: ThreadId,
        listener_generation: u64,
    ) -> RetainedManagerView {
        if self.listened(thread_id, listener_generation) {
            RetainedManagerView {
                threads: self.threads.insert(
                    thread_id,
                    RetainedEntryView { terminal_ack: None, ..self.threads[thread_id] },
                ),
                ..self
            }.rewaiting(thread_id)
        } else {
            self
        }
    }

    /// Whether a restored card's mention of a child makes or replaces the child's lineage.
    pub open spec fn adopts(self, generations: Map<ThreadId, u64>, child: ThreadId) -> bool {
        &&& generations.contains_key(child)
        &&& !covers(self.invalidated, child, generations[child])
        &&& self.lineages.contains_key(child) ==> generations[child]
            > self.lineages[child].generation
    }

    /// The manager once a stored completed card of a parent is back.
    pub open spec fn with_restored(
        self,
        parent: ThreadId,
        turn_id: Seq<char>,
        state: StateView,
    ) -> RetainedManagerView {
        let generations = state.mentioned();
        let known = self.knowing(parent);
        RetainedManagerView {
            next_route_generation: larger(self.next_route_generation, top_generation(generations)),
            lineages: Map::new(
                |c: ThreadId| self.lineages.contains_key(c) || self.adopts(generations, c),
                |c: ThreadId|
                    if self.adopts(generations, c) {
                        LineageView {
                            parent_thread_id: parent,
                            generation: generations[c],
                            baseline: Set::empty(),
                        }
                    } else {
                        self.lineages[c]
                    },
            ),
            ..known.with_thread(parent, known.threads[parent].thread.with_restored(turn_id, state))
        }
    }

    /// Whether a child's route leads to a turn of a parent.
    pub open spec fn leads_to(self, child: ThreadId, parent: ThreadId, turn_id: Seq<char>) -> bool {
        self.routes.contains_key(child) && self.routes[child].parent_thread_id == parent
            && self.routes[child].parent_turn_id == turn_id
    }

    /// The manager once a spawned child has a route to the turn that spawned it. A route to that
    /// turn stays as it is; any other is replaced under a new generation. A child whose last turn
    /// has ended under its current listener is settled at once.
    pub open spec fn with_route(
        self,
        child: ThreadId,
        parent: ThreadId,
        turn_id: Seq<char>,
        baseline: Set<Seq<char>>,
    ) -> RetainedManagerView {
        let known = self.knowing(child);
        let entry = known.threads[child];
        let generation = following(known.next_route_generation);
        if known.leads_to(child, parent, turn_id) {
            known
        } else {
            RetainedManagerView {
                routes: known.routes.insert(
                    child,
                    RetainedRouteView {
                        parent_thread_id: parent,
                        parent_turn_id: turn_id,
                        baseline,
                        generation,
                        timed_out_at: None,
                        terminal: match entry.terminal_ack {
                            Some(ack) => if ack.listener_generation == entry.listener_generation {
                                RouteTerminalView::Settled(projected_option(ack.state, baseline))
                            } else {
                                RouteTerminalView::Pending
                            },
                            None => RouteTerminalView::Pending,
                        },
                    },
                ),
                next_route_generation: generation,
                ..known
            }
        }
    }

    /// The manager once all spawned tasks have routes.
    pub open spec fn with_routes(
        self,
        tasks: Seq<TaskProgressView>,
        parent: ThreadId,
        turn_id: Seq<char>,
        baseline: Set<Seq<char>>,
    ) -> RetainedManagerView
        decreases tasks.len(),
    {
        if tasks.len() == 0 {
            self
        } else {
            self.with_routes(tasks.drop_last(), parent, turn_id, baseline).with_route(
                tasks.last().thread_id,
                parent,
                turn_id,
                baseline,
            )
        }
    }

    /// The manager after spawn progress of a parent's turn. Routes are made while the turn shows a
    /// card.
    pub open spec fn with_spawn(
        self,
        parent: ThreadId,
        turn_id: Seq<char>,
        progress: SpawnProgressView,
    ) -> RetainedManagerView {
        let known = self.knowing(parent);
        let thread = known.threads[parent].thread;
        if thread.live(turn_id) is Some {
            known.with_routes(
                progress.tasks,
                parent,
                turn_id,
                snapshot_ids(thread.active.snapshot),
            )
        } else {
            known
        }
    }

    /// The command that brings a child's card to its parent: owed where the child has a route and a
    /// card, and the parent has a listener.
    pub open spec fn queued(self, child: ThreadId) -> Option<RetainedSentView> {
        if self.routes.contains_key(child) {
            let route = self.routes[child];
            match self.forwarded(child) {
                Some(state) => if self.listeners.contains(route.parent_thread_id) {
                    Some(
                        RetainedSentView {
                            to: route.parent_thread_id,
                            command: RetainedCommandView::ForwardSpineUiAgentState {
                                child_thread_id: child,
                                parent_turn_id: route.parent_turn_id,
                                generation: route.generation,
                                state: Some(state.projected(route.baseline)),
                                terminal: false,
                            },
                        },
                    )
                } else {
                    None
                },
                None => None,
            }
        } else {
            None
        }
    }

    /// The commands for the cards of some tasks, in order.
    pub open spec fn queues(self, tasks: Seq<TaskProgressView>) -> Seq<RetainedSentView>
        decreases tasks.len(),
    {
        if tasks.len() == 0 {
            Seq::empty()
        } else {
            let before = self.queues(tasks.drop_last());
            match self.queued(tasks.last().thread_id) {
                Some(s) => before.push(s),
                None => before,
            }
        }
    }

    /// Whether the end of a child's turn counts: the child's listener is current, no turn runs and
    /// the turn is the last one that ended.
    pub open spec fn acknowledges(
        self,
        child: ThreadId,
        listener_generation: u64,
        turn_id: Seq<char>,
    ) -> bool {
        let thread = self.threads[child].thread;
        &&& self.listened(child, listener_generation)
        &&& !thread.turns.has_active_turn
        &&& thread.listener_generation == listener_generation
        &&& thread.last_terminal_turn_id == Some(turn_id)
    }

    /// The manager once a child's turn has ended. The child's route is settled with its final state;
    /// a route that had timed out starts its last wait anew.
    pub open spec fn acknowledged(
        self,
        child: ThreadId,
        listener_generation: u64,
        turn_id: Seq<char>,
        now: u64,
    ) -> RetainedManagerView {
        if self.acknowledges(child, listener_generation, turn_id) {
            let state = self.forwarded(child);
            let route = self.routes[child];
            RetainedManagerView {
                threads: self.threads.insert(
                    child,
                    RetainedEntryView {
                        terminal_ack: Some(FinalAckView { listener_generation, state }),
                        ..self.threads[child]
                    },
                ),
                routes: if self.routes.contains_key(child) {
                    self.routes.insert(
                        child,
                        RetainedRouteView {
                            timed_out_at: if route.timed_out_at is Some {
                                Some(now)
                            } else {
                                None
                            },
                            terminal: RouteTerminalView::Settled(
                                projected_option(state, route.baseline),
                            ),
                            ..route
                        },
                    )
                } else {
                    self.routes
                },
                ..self
            }
        } else {
            self
        }
    }

    /// The command that brings a late final state to a parent.
    pub open spec fn late_final(
        self,
        child: ThreadId,
        listener_generation: u64,
        turn_id: Seq<char>,
    ) -> Option<RetainedSentView> {
        let route = self.routes[child];
        if self.acknowledges(child, listener_generation, turn_id) && self.routes.contains_key(child)
            && route.timed_out_at is Some && self.listeners.contains(route.parent_thread_id) {
            Some(
                RetainedSentView {
                    to: route.parent_thread_id,
                    command: RetainedCommandView::ForwardSpineUiAgentState {
                        child_thread_id: child,
                        parent_turn_id: route.parent_turn_id,
                        generation: route.generation,
                        state: projected_option(self.forwarded(child), route.baseline),
                        terminal: true,
                    },
                },
            )
        } else {
            None
        }
    }

    /// Whether a command about a child's card still counts.
    pub open spec fn route_is_current(
        self,
        child: ThreadId,
        parent: ThreadId,
        turn_id: Seq<char>,
        generation: u64,
    ) -> bool {
        self.leads_to(child, parent, turn_id) && self.routes[child].generation == generation
    }

    /// Where a child's route of a generation stands.
    pub open spec fn route_terminal(
        self,
        child: ThreadId,
        parent: ThreadId,
        turn_id: Seq<char>,
        generation: u64,
    ) -> RouteTerminalView {
        if self.route_is_current(child, parent, turn_id, generation) {
            self.routes[child].terminal
        } else {
            RouteTerminalView::Invalidated
        }
    }

    /// The manager once the wait for a child's final state is over. A settled route stays settled.
    pub open spec fn timed_out(
        self,
        child: ThreadId,
        parent: ThreadId,
        turn_id: Seq<char>,
        generation: u64,
        now: u64,
    ) -> RetainedManagerView {
        if self.route_terminal(child, parent, turn_id, generation) is Pending {
            RetainedManagerView {
                routes: self.routes.insert(
                    child,
                    RetainedRouteView {
                        timed_out_at: Some(now),
                        terminal: RouteTerminalView::TimedOut,
                        ..self.routes[child]
                    },
                ),
                ..self
            }
        } else {
            self
        }
    }

    /// The manager once a late final state has arrived.
    pub open spec fn late_completed(
        self,
        child: ThreadId,
        parent: ThreadId,
        turn_id: Seq<char>,
        generation: u64,
    ) -> RetainedManagerView {
        if self.route_terminal(child, parent, turn_id, generation) is Settled {
            RetainedManagerView {
                routes: self.routes.insert(
                    child,
                    RetainedRouteView { timed_out_at: None, ..self.routes[child] },
                ),
                ..self
            }
        } else {
            self
        }
    }

    /// Whether a route to a parent has waited too long for a late final state.
    pub open spec fn expired(self, child: ThreadId, parent: ThreadId, now: u64) -> bool {
        let route = self.routes[child];
        route.parent_thread_id == parent && match route.timed_out_at {
            Some(at) => elapsed(at, now) >= TIMED_OUT_ROUTE_RETENTION_MS,
            None => false,
        }
    }

    /// The manager without the routes to a parent that have waited too long.
    pub open spec fn without_expired(self, parent: ThreadId, now: u64) -> RetainedManagerView {
        RetainedManagerView {
            routes: kept(
                self.routes,
                |child: ThreadId, r: RetainedRouteView| !self.expired(child, parent, now),
            ),
            ..self
        }
    }

    /// Whether some route to a parent waits for a late final state.
    pub open spec fn awaits_late(self, parent: ThreadId) -> bool {
        exists|child: ThreadId| #[trigger]
            self.routes.contains_key(child) && self.routes[child].parent_thread_id == parent
                && self.routes[child].timed_out_at is Some
    }

    /// The newest generation of every agent that a thread's next card starts with.
    pub open spec fn carried_generations(self, thread_id: ThreadId) -> Map<ThreadId, u64> {
        if self.threads.contains_key(thread_id) {
            self.threads[thread_id].thread.carry.mentioned()
        } else {
            Map::empty()
        }
    }

    /// Whether a parent still shows a child under a generation that nothing has invalidated.
    pub open spec fn carries(self, parent: ThreadId, child: ThreadId, generation: u64) -> bool {
        let carried = self.carried_generations(parent);
        carried.contains_key(child) && carried[child] == generation && !covers(
            self.invalidated,
            child,
            generation,
        )
    }

    /// Whether the end of a parent's turn takes a child's route.
    pub open spec fn leaves(self, child: ThreadId, parent: ThreadId, turn_id: Seq<char>) -> bool {
        self.leads_to(child, parent, turn_id) && self.routes[child].timed_out_at is None
    }

    /// The manager once a parent's turn is over. Its routes go, but for those that wait for a late
    /// final state; the children that the parent's card still shows get lineages.
    pub open spec fn without_turn_routes(
        self,
        parent: ThreadId,
        turn_id: Seq<char>,
    ) -> RetainedManagerView {
        RetainedManagerView {
            routes: kept(
                self.routes,
                |c: ThreadId, r: RetainedRouteView| !self.leaves(c, parent, turn_id),
            ),
            lineages: Map::new(
                |c: ThreadId|
                    (self.leaves(c, parent, turn_id) && self.carries(
                        parent,
                        c,
                        self.routes[c].generation,
                    )) || (self.lineages.contains_key(c) && (self.lineages[c].parent_thread_id
                        != parent || self.carries(parent, c, self.lineages[c].generation))),
                |c: ThreadId|
                    if self.leaves(c, parent, turn_id) && self.carries(
                        parent,
                        c,
                        self.routes[c].generation,
                    ) {
                        LineageView {
                            parent_thread_id: parent,
                            generation: self.routes[c].generation,
                            baseline: self.routes[c].baseline,
                        }
                    } else {
                        self.lineages[c]
                    },
            ),
            ..self
        }
    }

    /// Where a child's card goes: along its route and its lineage.
    pub open spec fn targets(self, child: ThreadId) -> Seq<Target> {
        let route = self.routes[child];
        let lineage = self.lineages[child];
        let live = if self.routes.contains_key(child) {
            seq![
                Target {
                    parent: route.parent_thread_id,
                    generation: route.generation,
                    baseline: route.baseline,
                },
            ]
        } else {
            Seq::empty()
        };
        if self.lineages.contains_key(child) && !(self.routes.contains_key(child)
            && route.parent_thread_id == lineage.parent_thread_id && route.generation
            == lineage.generation) {
            live.push(
                Target {
                    parent: lineage.parent_thread_id,
                    generation: lineage.generation,
                    baseline: lineage.baseline,
                },
            )
        } else {
            live
        }
    }

    /// The parents that show a child.
    pub open spec fn edges(self, child: ThreadId) -> Seq<Edge> {
        self.targets(child).map_values(
            |t: Target| Edge { child, parent: t.parent, generation: t.generation },
        )
    }

    /// The manager once a child's newest shown generation is invalidated for good.
    pub open spec fn with_invalidated(self, child: ThreadId, edges: Seq<Edge>) -> RetainedManagerView {
        if edges.len() == 0 {
            self
        } else {
            let newest = if edges.len() == 1 {
                edges[0].generation
            } else {
                larger(edges[0].generation, edges[1].generation)
            };
            RetainedManagerView {
                invalidated: self.invalidated.insert(
                    child,
                    if self.invalidated.contains_key(child) {
                        larger(self.invalidated[child], newest)
                    } else {
                        newest
                    },
                ),
                ..self
            }
        }
    }

    /// The manager without a child's route and lineage.
    pub open spec fn cut(self, child: ThreadId) -> RetainedManagerView {
        RetainedManagerView {
            routes: self.routes.remove(child),
            lineages: self.lineages.remove(child),
            ..self
        }.with_invalidated(child, self.edges(child))
    }

    /// The manager without a thread's route, its lineage, and those of its children.
    pub open spec fn isolated(self, thread_id: ThreadId) -> RetainedManagerView {
        RetainedManagerView {
            threads: if self.threads.contains_key(thread_id) {
                self.threads.insert(
                    thread_id,
                    RetainedEntryView { terminal_ack: None, ..self.threads[thread_id] },
                )
            } else {
                self.threads
            },
            routes: kept(
                self.routes,
                |c: ThreadId, r: RetainedRouteView|
                    c != thread_id && r.parent_thread_id != thread_id,
            ),
            lineages: kept(
                self.lineages,
                |c: ThreadId, l: LineageView| c != thread_id && l.parent_thread_id != thread_id,
            ),
            ..self
        }.with_invalidated(thread_id, self.edges(thread_id))
    }

    /// The manager without a thread.
    pub open spec fn without_thread(self, thread_id: ThreadId) -> RetainedManagerView {
        RetainedManagerView {
            threads: self.threads.remove(thread_id),
            routes: kept(
                self.routes,
                |c: ThreadId, r: RetainedRouteView|
                    c != thread_id && r.parent_thread_id != thread_id,
            ),
            lineages: kept(
                self.lineages,
                |c: ThreadId, l: LineageView| c != thread_id && l.parent_thread_id != thread_id,
            ),
            invalidated: self.invalidated.remove(thread_id),
            listeners: self.listeners.remove(thread_id),
            ..self
        }
    }

    /// The manager without listeners, routes and lineages. The cards stay.
    pub open spec fn shut_down(self) -> RetainedManagerView {
        RetainedManagerView {
            threads: Map::new(
                |t: ThreadId| self.threads.contains_key(t),
                |t: ThreadId|
                    RetainedEntryView {
                        thread: RetainedView {
                            turns: crate::turns::no_turns(),
                            ..self.threads[t].thread
                        },
                        ..self.threads[t]
                    },
            ),
            routes: Map::empty(),
            lineages: Map::empty(),
            invalidated: Map::empty(),
            listeners: self.listeners.difference(self.threads.dom()),
            ..self
        }
    }
}

fn copy_option(state: &Option<SpineUiState>) -> (r: Option<SpineUiState>)
    ensures
        state_view(r) == state_view(*state),
{
    match state {
        Some(s) => Some(s.copy_state()),
        None => None,
    }
}

fn project_option(state: &Option<SpineUiState>, baseline: &KeySet<String>) -> (r: Option<
    SpineUiState,
>)
    ensures
        state_view(r) == projected_option(state_view(*state), baseline@),
{
    match state {
        Some(s) => Some(s.filtered_for_parent(baseline)),
        None => None,
    }
}

impl RouteTerminal {
    pub fn copy_terminal(&self) -> (r: Self)
        ensures
            r@ == self@,
    {
        match self {
            RouteTerminal::Pending => RouteTerminal::Pending,
            RouteTerminal::TimedOut => RouteTerminal::TimedOut,
            RouteTerminal::Settled(state) => RouteTerminal::Settled(copy_option(state)),
            RouteTerminal::Invalidated => RouteTerminal::Invalidated,
        }
    }
}

/// The largest value of a map is unique.
proof fn lemma_top(generations: Map<ThreadId, u64>, n: u64)
    requires
        tops(generations, n),
    ensures
        top_generation(generations) == n,
{
    let m = top_generation(generations);
    assert(tops(generations, m));
    if m < n {
        let t = choose|t: ThreadId| #[trigger]
            generations.contains_key(t) && generations[t] == n;
        assert(generations[t] <= m);
    }
    if n < m {
        let t = choose|t: ThreadId| #[trigger]
            generations.contains_key(t) && generations[t] == m;
        assert(generations[t] <= n);
    }
}

fn newest_generation(generations: &AssocMap<ThreadId, u64>) -> (n: u64)
    ensures
        n == top_generation(generations@),
{
    let keys = generations.keys();
    let ghost all = generations@;
    let mut n: u64 = 0;
    let mut i: usize = 0;
    assert(views(keys@) =~= keys@);
    while i < keys.len()
        invariant
            i <= keys.len(),
            all == generations@,
            forall|t: ThreadId| #[trigger] keys@.contains(t) == all.contains_key(t),
            forall|k: int| 0 <= k < i ==> all[#[trigger] keys@[k]] <= n,
            n > 0 ==> exists|t: ThreadId| #[trigger] all.contains_key(t) && all[t] == n,
        decreases keys.len() - i,
    {
        assert(keys@.contains(keys@[i as int]));
        match generations.get(&keys[i]) {
            Some(g) => {
                if *g > n {
                    n = *g;
                }
            },
            None => {},
        }
        i += 1;
    }
    proof {
        assert forall|t: ThreadId| #[trigger] all.contains_key(t) implies all[t] <= n by {
            assert(keys@.contains(t));
            let k = choose|k: int| 0 <= k < keys@.len() && keys@[k] == t;
            assert(all[keys@[k]] <= n);
        }
        assert(tops(all, n));
        lemma_top(all, n);
    }
    n
}

impl RetainedManager {
    pub fn new() -> (r: Self)
        ensures
            r@ == (RetainedManagerView {
                threads: Map::empty(),
                routes: Map::empty(),
                lineages: Map::empty(),
                invalidated: Map::empty(),
                next_route_generation: 0,
                listeners: Set::empty(),
            }),
    {
        RetainedManager {
            threads: AssocMap::new(),
            routes: AssocMap::new(),
            lineages: AssocMap::new(),
            invalidated: AssocMap::new(),
            next_route_generation: 0,
            listeners: KeySet::new(),
        }
    }

    /// Makes a thread known.
    pub fn ensure_thread(&mut self, thread_id: ThreadId)
        ensures
            final(self)@ == old(self)@.knowing(thread_id),
    {
        if !self.threads.contains_key(&thread_id) {
            self.threads.insert(
                thread_id,
                RetainedEntry {
                    thread: RetainedThread::new(),
                    listener_generation: 0,
                    terminal_ack: None,
                },
            );
        }
    }

    /// Takes commands for a thread's listener from now on.
    pub fn register_listener(&mut self, thread_id: ThreadId)
        ensures
            final(self)@ == (RetainedManagerView {
                listeners: old(self)@.listeners.insert(thread_id),
                ..old(self)@
            }),
    {
        let _ = self.listeners.insert(thread_id);
    }

    /// Takes no more commands for a thread's listener.
    pub fn unregister_listener(&mut self, thread_id: ThreadId)
        ensures
            final(self)@ == (RetainedManagerView {
                listeners: old(self)@.listeners.remove(thread_id),
                ..old(self)@
            }),
    {
        let _ = self.listeners.remove(&thread_id);
    }

    fn wait_again(&mut self, thread_id: ThreadId)
        ensures
            final(self)@ == old(self)@.rewaiting(thread_id),
    {
        match self.routes.remove(&thread_id) {
            Some(mut route) => {
                route.terminal = RouteTerminal::Pending;
                self.routes.insert(thread_id, route);
            },
            None => {},
        }
        assert(self@.routes =~= old(self)@.rewaiting(thread_id).routes);
    }

    /// Notes the generation of a thread's listener. A new listener starts over.
    pub fn note_spine_ui_listener_generation(
        &mut self,
        thread_id: ThreadId,
        listener_generation: u64,
    )
        ensures
            final(self)@ == old(self)@.with_listener_generation(thread_id, listener_generation),
    {
        self.ensure_thread(thread_id);
        let ghost known = self@;
        let same = match self.threads.get(&thread_id) {
            Some(entry) => entry.listener_generation == listener_generation,
            None => true,
        };
        if same {
            return;
        }
        match self.threads.remove(&thread_id) {
            Some(mut entry) => {
                entry.listener_generation = listener_generation;
                entry.terminal_ack = None;
                self.threads.insert(thread_id, entry);
            },
            None => {},
        }
        assert(self@.threads =~= known.threads.insert(
            thread_id,
            RetainedEntryView {
                listener_generation,
                terminal_ack: None,
                ..known.threads[thread_id]
            },
        ));
        self.wait_again(thread_id);
    }

    /// Notes that a turn of a thread has started.
    pub fn note_spine_ui_agent_turn_started(
        &mut self,
        thread_id: ThreadId,
        listener_generation: u64,
    )
        ensures
            final(self)@ == old(self)@.with_turn_started(thread_id, listener_generation),
    {
        let listened = match self.threads.get(&thread_id) {
            Some(entry) => entry.listener_generation == listener_generation,
            None => false,
        };
        if !listened {
            return;
        }
        match self.threads.remove(&thread_id) {
            Some(mut entry) => {
                entry.terminal_ack = None;
                self.threads.insert(thread_id, entry);
            },
            None => {},
        }
        assert(self@.threads =~= old(self)@.threads.insert(
            thread_id,
            RetainedEntryView { terminal_ack: None, ..old(self)@.threads[thread_id] },
        ));
        self.wait_again(thread_id);
    }

    /// The card of a thread that its parent should show.
    pub fn spine_ui_state_for_thread(&self, thread_id: ThreadId) -> (r: Option<SpineUiState>)
        ensures
            state_view(r) == self@.forwarded(thread_id),
    {
        match self.threads.get(&thread_id) {
            Some(entry) => match entry.thread.current_spine_ui_for_forward() {
                Some(s) => Some(s.copy_state()),
                None => None,
            },
            None => None,
        }
    }

    /// Takes a stored completed card of a parent back, with the lineages of the children it shows.
    pub fn restore_spine_ui_completed_state(
        &mut self,
        parent: ThreadId,
        turn_id: String,
        state: SpineUiState,
    )
        ensures
            final(self)@ == old(self)@.with_restored(parent, turn_id@, state@),
    {
        let ghost before = self@;
        let ghost sv = state@;
        let ghost tv = turn_id@;
        let generations = state.tracked_agent_generations();
        let ghost all = generations@;
        let newest = newest_generation(&generations);
        self.ensure_thread(parent);
        let ghost known = self@;
        match self.threads.remove(&parent) {
            Some(mut entry) => {
                entry.thread.restore_spine_ui_completed_state(turn_id, state);
                self.threads.insert(parent, entry);
            },
            None => {},
        }
        assert(self@.threads =~= known.with_thread(
            parent,
            known.threads[parent].thread.with_restored(tv, sv),
        ).threads);
        self.next_route_generation = larger_of(self.next_route_generation, newest);
        let children = generations.keys();
        let ghost middle = self@;
        let mut i: usize = 0;
        proof {
            assert(views(children@) =~= children@);
            assert(children@.take(0) =~= Seq::empty());
        }
        while i < children.len()
            invariant
                i <= children.len(),
                children@.no_duplicates(),
                forall|t: ThreadId| #[trigger] children@.contains(t) == all.contains_key(t),
                all == generations@,
                middle.lineages == before.lineages,
                middle.invalidated == before.invalidated,
                self@ == (RetainedManagerView { lineages: self@.lineages, ..middle }),
                forall|c: ThreadId| #[trigger]
                    self@.lineages.contains_key(c) == (before.lineages.contains_key(c) || (
                    children@.take(i as int).contains(c) && before.adopts(all, c))),
                forall|c: ThreadId| #[trigger]
                    self@.lineages.contains_key(c) ==> self@.lineages[c] == if children@.take(
                        i as int,
                    ).contains(c) && before.adopts(all, c) {
                        LineageView {
                            parent_thread_id: parent,
                            generation: all[c],
                            baseline: Set::empty(),
                        }
                    } else {
                        before.lineages[c]
                    },
            decreases children.len() - i,
        {
            let child = children[i];
            let ghost prev = self@.lineages;
            proof {
                lemma_take_contains(children@, i as int);
                assert(children@.contains(child));
                assert(prev.contains_key(child) == before.lineages.contains_key(child));
            }
            let generation = match generations.get(&child) {
                Some(g) => *g,
                None => 0,
            };
            let dead = match self.invalidated.get(&child) {
                Some(g) => *g >= generation,
                None => false,
            };
            let newer = match self.lineages.get(&child) {
                Some(l) => generation > l.generation,
                None => true,
            };
            assert((!dead && newer) == before.adopts(all, child));
            if !dead && newer {
                self.lineages.insert(
                    child,
                    CarryLineage {
                        parent_thread_id: parent,
                        generation,
                        baseline_node_ids: KeySet::new(),
                    },
                );
            }
            assert(self@.lineages =~= if before.adopts(all, child) {
                prev.insert(
                    child,
                    LineageView { parent_thread_id: parent, generation, baseline: Set::empty() },
                )
            } else {
                prev
            });
            i += 1;
        }
        proof {
            assert(children@.take(i as int) =~= children@);
            assert(self@.lineages =~= before.with_restored(parent, tv, sv).lineages);
        }
    }

    fn add_route(
        &mut self,
        child: ThreadId,
        parent: ThreadId,
        turn_id: &str,
        baseline: &KeySet<String>,
    )
        ensures
            final(self)@ == old(self)@.with_route(child, parent, turn_id@, baseline@),
    {
        self.ensure_thread(child);
        match self.routes.get(&child) {
            Some(route) => {
                if route.parent_thread_id == parent && same_text(
                    route.parent_turn_id.as_str(),
                    turn_id,
                ) {
                    return;
                }
            },
            None => {},
        }
        let terminal = match self.threads.get(&child) {
            Some(entry) => match &entry.terminal_ack {
                Some(ack) => if ack.listener_generation == entry.listener_generation {
                    RouteTerminal::Settled(project_option(&ack.state, baseline))
                } else {
                    RouteTerminal::Pending
                },
                None => RouteTerminal::Pending,
            },
            None => RouteTerminal::Pending,
        };
        self.next_route_generation = self.next_route_generation.saturating_add(1);
        let generation = self.next_route_generation;
        self.routes.insert(
            child,
            RetainedRoute {
                parent_thread_id: parent,
                parent_turn_id: turn_id.to_owned(),
                baseline_node_ids: baseline.copy_set(),
                generation,
                timed_out_at: None,
                terminal,
            },
        );
    }

    /// Gives the children of a spawn their routes and brings their cards to the parent.
    pub fn register_spine_ui_spawn_progress(
        &mut self,
        parent: ThreadId,
        turn_id: &str,
        progress: &SpineSpawnProgressEvent,
    ) -> (r: Vec<RetainedSent>)
        ensures
            final(self)@ == old(self)@.with_spawn(parent, turn_id@, progress@),
            views(r@) == (if old(self)@.knowing(parent).threads[parent].thread.live(
                turn_id@,
            ) is Some {
                final(self)@.queues(progress@.tasks)
            } else {
                Seq::empty()
            }),
    {
        self.ensure_thread(parent);
        let ghost known = self@;
        let mut out: Vec<RetainedSent> = Vec::new();
        assert(views(out@) =~= Seq::empty());
        let baseline = match self.threads.get(&parent) {
            Some(entry) => {
                if entry.thread.live_spine_ui(turn_id).is_none() {
                    return out;
                }
                entry.thread.baseline_node_ids()
            },
            None => return out,
        };
        let ghost tasks = progress@.tasks;
        let mut i: usize = 0;
        assert(tasks.take(0) =~= Seq::empty());
        while i < progress.tasks.len()
            invariant
                i <= progress.tasks.len(),
                tasks == views(progress.tasks@),
                self@ == known.with_routes(tasks.take(i as int), parent, turn_id@, baseline@),
            decreases progress.tasks.len() - i,
        {
            proof {
                assert(tasks.take(i + 1).drop_last() =~= tasks.take(i as int));
                assert(tasks[i as int] == progress.tasks@[i as int]@);
            }
            self.add_route(progress.tasks[i].thread_id, parent, turn_id, &baseline);
            i += 1;
        }
        assert(tasks.take(i as int) =~= tasks);
        let mut j: usize = 0;
        while j < progress.tasks.len()
            invariant
                j <= progress.tasks.len(),
                tasks == views(progress.tasks@),
                views(out@) == self@.queues(tasks.take(j as int)),
            decreases progress.tasks.len() - j,
        {
            let ghost before = views(out@);
            proof {
                assert(tasks.take(j + 1).drop_last() =~= tasks.take(j as int));
                assert(tasks[j as int] == progress.tasks@[j as int]@);
            }
            match self.queue_spine_ui_agent_state(progress.tasks[j].thread_id) {
                Some(s) => {
                    let ghost sv = s@;
                    out.push(s);
                    assert(views(out@) =~= before.push(sv));
                },
                None => {},
            }
            j += 1;
        }
        assert(tasks.take(j as int) =~= tasks);
        out
    }

    /// The command that brings a child's card to its parent.
    pub fn queue_spine_ui_agent_state(&self, child: ThreadId) -> (r: Option<RetainedSent>)
        ensures
            retained_sent_view(r) == self@.queued(child),
    {
        match self.routes.get(&child) {
            Some(route) => match self.spine_ui_state_for_thread(child) {
                Some(state) => if self.listeners.contains(&route.parent_thread_id) {
                    Some(
                        RetainedSent {
                            to: route.parent_thread_id,
                            command: RetainedCommand::ForwardSpineUiAgentState {
                                child_thread_id: child,
                                parent_turn_id: route.parent_turn_id.clone(),
                                generation: route.generation,
                                state: Some(state.filtered_for_parent(&route.baseline_node_ids)),
                                terminal: false,
                            },
                        },
                    )
                } else {
                    None
                },
                None => None,
            },
            None => None,
        }
    }

    /// Notes that a child's turn has ended. A late end goes to the parent at once.
    pub fn acknowledge_spine_ui_agent_terminal(
        &mut self,
        child: ThreadId,
        listener_generation: u64,
        terminal_turn_id: &str,
        now: u64,
    ) -> (r: Option<RetainedSent>)
        ensures
            final(self)@ == old(self)@.acknowledged(
                child,
                listener_generation,
                terminal_turn_id@,
                now,
            ),
            retained_sent_view(r) == old(self)@.late_final(
                child,
                listener_generation,
                terminal_turn_id@,
            ),
    {
        match self.threads.get(&child) {
            Some(entry) => {
                if entry.listener_generation != listener_generation
                    || entry.thread.turns.has_active_turn || entry.thread.listener_generation
                    != listener_generation || !crate::text::is_text(
                    &entry.thread.last_terminal_turn_id,
                    terminal_turn_id,
                ) {
                    return None;
                }
            },
            None => return None,
        }
        assert(old(self)@.acknowledges(child, listener_generation, terminal_turn_id@));
        let state = self.spine_ui_state_for_thread(child);
        match self.threads.remove(&child) {
            Some(mut entry) => {
                entry.terminal_ack = Some(
                    FinalAck { listener_generation, state: copy_option(&state) },
                );
                self.threads.insert(child, entry);
            },
            None => {},
        }
        let ghost after = old(self)@.acknowledged(
            child,
            listener_generation,
            terminal_turn_id@,
            now,
        );
        assert(self@.threads =~= after.threads);
        let mut late: Option<RetainedSent> = None;
        match self.routes.remove(&child) {
            Some(mut route) => {
                let projected = project_option(&state, &route.baseline_node_ids);
                if route.timed_out_at.is_some() {
                    route.timed_out_at = Some(now);
                    if self.listeners.contains(&route.parent_thread_id) {
                        late =
                        Some(
                            RetainedSent {
                                to: route.parent_thread_id,
                                command: RetainedCommand::ForwardSpineUiAgentState {
                                    child_thread_id: child,
                                    parent_turn_id: route.parent_turn_id.clone(),
                                    generation: route.generation,
                                    state: copy_option(&projected),
                                    terminal: true,
                                },
                            },
                        );
                    }
                }
                route.terminal = RouteTerminal::Settled(projected);
                self.routes.insert(child, route);
            },
            None => {},
        }
        assert(self@.routes =~= after.routes);
        late
    }

    /// Whether a command about a child's card still counts.
    pub fn spine_ui_route_is_current(
        &self,
        child: ThreadId,
        parent: ThreadId,
        turn_id: &str,
        generation: u64,
    ) -> (r: bool)
        ensures
            r == self@.route_is_current(child, parent, turn_id@, generation),
    {
        match self.routes.get(&child) {
            Some(route) => route.parent_thread_id == parent && same_text(
                route.parent_turn_id.as_str(),
                turn_id,
            ) && route.generation == generation,
            None => false,
        }
    }

    /// Where a child's route of a generation stands.
    pub fn spine_ui_route_terminal(
        &self,
        child: ThreadId,
        parent: ThreadId,
        turn_id: &str,
        generation: u64,
    ) -> (r: RouteTerminal)
        ensures
            r@ == self@.route_terminal(child, parent, turn_id@, generation),
    {
        if !self.spine_ui_route_is_current(child, parent, turn_id, generation) {
            return RouteTerminal::Invalidated;
        }
        match self.routes.get(&child) {
            Some(route) => route.terminal.copy_terminal(),
            None => RouteTerminal::Invalidated,
        }
    }

    /// Ends the wait for a child's final state. Gives where the route then stands.
    pub fn mark_spine_ui_route_timed_out(
        &mut self,
        child: ThreadId,
        parent: ThreadId,
        turn_id: &str,
        generation: u64,
        now: u64,
    ) -> (r: RouteTerminal)
        ensures
            final(self)@ == old(self)@.timed_out(child, parent, turn_id@, generation, now),
            r@ == final(self)@.route_terminal(child, parent, turn_id@, generation),
    {
        let terminal = self.spine_ui_route_terminal(child, parent, turn_id, generation);
        match terminal {
            RouteTerminal::Pending => {},
            other => return other,
        }
        match self.routes.remove(&child) {
            Some(mut route) => {
                route.timed_out_at = Some(now);
                route.terminal = RouteTerminal::TimedOut;
                self.routes.insert(child, route);
            },
            None => {},
        }
        assert(self@.routes =~= old(self)@.timed_out(
            child,
            parent,
            turn_id@,
            generation,
            now,
        ).routes);
        RouteTerminal::TimedOut
    }

    /// Notes that a late final state has arrived.
    pub fn complete_spine_ui_late_terminal(
        &mut self,
        child: ThreadId,
        parent: ThreadId,
        turn_id: &str,
        generation: u64,
    )
        ensures
            final(self)@ == old(self)@.late_completed(child, parent, turn_id@, generation),
    {
        let terminal = self.spine_ui_route_terminal(child, parent, turn_id, generation);
        match terminal {
            RouteTerminal::Settled(_) => {},
            _ => return,
        }
        match self.routes.remove(&child) {
            Some(mut route) => {
                route.timed_out_at = None;
                self.routes.insert(child, route);
            },
            None => {},
        }
        assert(self@.routes =~= old(self)@.late_completed(
            child,
            parent,
            turn_id@,
            generation,
        ).routes);
    }

    /// Drops the routes to a parent that have waited too long. Says whether some route to it still
    /// waits for a late final state.
    pub fn has_timed_out_spine_ui_children(&mut self, parent: ThreadId, now: u64) -> (r: bool)
        ensures
            final(self)@ == old(self)@.without_expired(parent, now),
            r == final(self)@.awaits_late(parent),
    {
        let stays = |c: &ThreadId, r: &RetainedRoute| -> (b: bool)
            ensures
                b == !(r@.parent_thread_id == parent && match r@.timed_out_at {
                    Some(at) => elapsed(at, now) >= TIMED_OUT_ROUTE_RETENTION_MS,
                    None => false,
                }),
        {
            !(r.parent_thread_id == parent && match r.timed_out_at {
                Some(at) => now.saturating_sub(at) >= TIMED_OUT_ROUTE_RETENTION_MS,
                None => false,
            })
        };
        self.routes.retain(
            stays,
            Ghost(
                |c: ThreadId, r: RetainedRouteView|
                    !(r.parent_thread_id == parent && match r.timed_out_at {
                        Some(at) => elapsed(at, now) >= TIMED_OUT_ROUTE_RETENTION_MS,
                        None => false,
                    }),
            ),
        );
        assert(self@.routes =~= old(self)@.without_expired(parent, now).routes);
        let children = self.routes.keys();
        assert(views(children@) =~= children@);
        let mut i: usize = 0;
        while i < children.len()
            invariant
                i <= children.len(),
                forall|t: ThreadId| #[trigger] children@.contains(t) == self@.routes.contains_key(t),
                self@ == old(self)@.without_expired(parent, now),
                forall|k: int|
                    0 <= k < i ==> !(self@.routes[#[trigger] children@[k]].parent_thread_id
                        == parent && self@.routes[children@[k]].timed_out_at is Some),
            decreases children.len() - i,
        {
            assert(children@.contains(children@[i as int]));
            match self.routes.get(&children[i]) {
                Some(route) => {
                    if route.parent_thread_id == parent && route.timed_out_at.is_some() {
                        return true;
                    }
                },
                None => {},
            }
            i += 1;
        }
        proof {
            assert forall|c: ThreadId| #[trigger] self@.routes.contains_key(c) implies !(
            self@.routes[c].parent_thread_id == parent && self@.routes[c].timed_out_at is Some) by {
                assert(children@.contains(c));
                let k = choose|k: int| 0 <= k < children@.len() && children@[k] == c;
                assert(!(self@.routes[children@[k]].parent_thread_id == parent
                    && self@.routes[children@[k]].timed_out_at is Some));
            }
        }
        false
    }

    fn carries(
        &self,
        carried: &AssocMap<ThreadId, u64>,
        child: ThreadId,
        generation: u64,
    ) -> (r: bool)
        ensures
            r == (carried@.contains_key(child) && carried@[child] == generation && !covers(
                self@.invalidated,
                child,
                generation,
            )),
    {
        let same = match carried.get(&child) {
            Some(g) => *g == generation,
            None => false,
        };
        let dead = match self.invalidated.get(&child) {
            Some(g) => *g >= generation,
            None => false,
        };
        same && !dead
    }

    /// Ends the routes of a parent's turn. The children that the parent's card still shows get
    /// lineages.
    pub fn clear_spine_ui_parent_routes(&mut self, parent: ThreadId, turn_id: &str)
        ensures
            final(self)@ == old(self)@.without_turn_routes(parent, turn_id@),
    {
        let ghost before = self@;
        let ghost after = before.without_turn_routes(parent, turn_id@);
        let carried: AssocMap<ThreadId, u64> = match self.threads.get(&parent) {
            Some(entry) => entry.thread.spine_ui_carry_agent_generations(),
            None => AssocMap::new(),
        };
        assert(carried@ == before.carried_generations(parent));
        let known = self.lineages.keys();
        let mut i: usize = 0;
        proof {
            assert(views(known@) =~= known@);
            assert(known@.take(0) =~= Seq::empty());
        }
        while i < known.len()
            invariant
                i <= known.len(),
                known@.no_duplicates(),
                forall|c: ThreadId| #[trigger] known@.contains(c) == before.lineages.contains_key(c),
                carried@ == before.carried_generations(parent),
                self@ == (RetainedManagerView { lineages: self@.lineages, ..before }),
                forall|c: ThreadId| #[trigger]
                    self@.lineages.contains_key(c) == (before.lineages.contains_key(c) && (
                    known@.take(i as int).contains(c) ==> before.lineages[c].parent_thread_id
                        != parent || before.carries(parent, c, before.lineages[c].generation))),
                forall|c: ThreadId| #[trigger]
                    self@.lineages.contains_key(c) ==> self@.lineages[c] == before.lineages[c],
            decreases known.len() - i,
        {
            let child = known[i];
            proof {
                lemma_take_contains(known@, i as int);
                assert(known@.contains(child));
                assert(self@.lineages.contains_key(child));
            }
            let gone = match self.lineages.get(&child) {
                Some(l) => l.parent_thread_id == parent && !self.carries(
                    &carried,
                    child,
                    l.generation,
                ),
                None => false,
            };
            if gone {
                let _ = self.lineages.remove(&child);
            }
            i += 1;
        }
        assert(known@.take(i as int) =~= known@);
        let ghost base = self@.lineages;
        let children = self.routes.keys();
        let mut j: usize = 0;
        proof {
            assert(views(children@) =~= children@);
            assert(children@.take(0) =~= Seq::empty());
        }
        while j < children.len()
            invariant
                j <= children.len(),
                children@.no_duplicates(),
                forall|c: ThreadId| #[trigger] children@.contains(c) == before.routes.contains_key(c),
                carried@ == before.carried_generations(parent),
                self@ == (RetainedManagerView { lineages: self@.lineages, ..before }),
                forall|c: ThreadId| #[trigger]
                    self@.lineages.contains_key(c) == (base.contains_key(c) || (children@.take(
                        j as int,
                    ).contains(c) && before.leaves(c, parent, turn_id@) && before.carries(
                        parent,
                        c,
                        before.routes[c].generation,
                    ))),
                forall|c: ThreadId| #[trigger]
                    self@.lineages.contains_key(c) ==> self@.lineages[c] == if children@.take(
                        j as int,
                    ).contains(c) && before.leaves(c, parent, turn_id@) && before.carries(
                        parent,
                        c,
                        before.routes[c].generation,
                    ) {
                        LineageView {
                            parent_thread_id: parent,
                            generation: before.routes[c].generation,
                            baseline: before.routes[c].baseline,
                        }
                    } else {
                        base[c]
                    },
            decreases children.len() - j,
        {
            let child = children[j];
            let ghost prev = self@.lineages;
            proof {
                lemma_take_contains(children@, j as int);
                assert(children@.contains(child));
            }
            let mut adopted: Option<CarryLineage> = None;
            match self.routes.get(&child) {
                Some(route) => {
                    if route.parent_thread_id == parent && same_text(
                        route.parent_turn_id.as_str(),
                        turn_id,
                    ) && route.timed_out_at.is_none() && self.carries(
                        &carried,
                        child,
                        route.generation,
                    ) {
                        adopted =
                        Some(
                            CarryLineage {
                                parent_thread_id: parent,
                                generation: route.generation,
                                baseline_node_ids: route.baseline_node_ids.copy_set(),
                            },
                        );
                    }
                },
                None => {},
            }
            match adopted {
                Some(lineage) => {
                    let ghost lv = lineage@;
                    self.lineages.insert(child, lineage);
                    assert(self@.lineages =~= prev.insert(child, lv));
                },
                None => {},
            }
            j += 1;
        }
        proof {
            assert(children@.take(j as int) =~= children@);
            assert(self@.lineages =~= after.lineages);
        }
        let stays = |c: &ThreadId, r: &RetainedRoute| -> (b: bool)
            ensures
                b == !(r@.parent_thread_id == parent && r@.parent_turn_id == turn_id@
                    && r@.timed_out_at is None),
        {
            !(r.parent_thread_id == parent && same_text(r.parent_turn_id.as_str(), turn_id)
                && r.timed_out_at.is_none())
        };
        self.routes.retain(
            stays,
            Ghost(
                |c: ThreadId, r: RetainedRouteView|
                    !(r.parent_thread_id == parent && r.parent_turn_id == turn_id@
                        && r.timed_out_at is None),
            ),
        );
        assert(self@.routes =~= after.routes);
    }
}

} // verus!
