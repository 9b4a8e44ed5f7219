//! What reaches the ancestors of a thread: changed cards and invalidations.
use crate::keyed::{lemma_take_contains, views, KeySet};
use crate::lineage::{
    CarryLineage, Edge, LineageView, RetainedCommand, RetainedCommandView, RetainedManager,
    RetainedManagerView, RetainedRoute, RetainedRouteView, RetainedSent, RetainedSentView,
    SpineUiCompletedUpdate, Target, UpdateView,
};
use crate::live::larger_of;
use crate::protocol::ThreadId;
use crate::retained::{
    invalidated_cards, AgentReport, CardView, RetainedThread, RetainedView, TurnCard,
};
use crate::state::{SpineUiState, StateView};
use vstd::prelude::*;

verus! {

/// The changed completed cards of a thread.
pub open spec fn updates_of(thread_id: ThreadId, cards: Seq<CardView>) -> Seq<UpdateView> {
    cards.map_values(
        |c: CardView| UpdateView { thread_id, turn_id: c.turn_id, state: c.state },
    )
}

/// A child's card on its way to a target.
pub struct PendingRefresh {
    pub child: ThreadId,
    pub state: StateView,
    pub target: Target,
}

/// The cards of one child on their way to some targets.
pub open spec fn pending_refreshes(
    child: ThreadId,
    state: StateView,
    targets: Seq<Target>,
) -> Seq<PendingRefresh> {
    targets.map_values(|t: Target| PendingRefresh { child, state, target: t })
}

impl PendingRefresh {
    pub open spec fn edge(self) -> Edge {
        Edge { child: self.child, parent: self.target.parent, generation: self.target.generation }
    }

    /// The report that the target gets.
    pub open spec fn report(self) -> AgentReport {
        AgentReport {
            child: self.child,
            generation: self.target.generation,
            state: Some(self.state.projected(self.target.baseline)),
            is_final: false,
        }
    }
}

/// The order to refresh a thread's running card.
pub open spec fn card_invalidation(
    thread_id: ThreadId,
    turn_id: Seq<char>,
    card: StateView,
) -> RetainedSentView {
    RetainedSentView {
        to: thread_id,
        command: RetainedCommandView::EmitSpineUiInvalidation { turn_id, card },
    }
}

/// A change of a child's card on its way to every ancestor that shows it.
pub struct Propagation {
    pub manager: RetainedManagerView,
    pub pending: Seq<PendingRefresh>,
    pub visited: Set<Edge>,
    pub updates: Seq<UpdateView>,
    pub sent: Seq<RetainedSentView>,
}

impl Propagation {
    /// Delivers the first card that is on its way. A card reaches each edge once.
    pub open spec fn step(self) -> Propagation {
        if self.pending.len() == 0 {
            self
        } else {
            let item = self.pending[0];
            let parent = item.target.parent;
            let rest = Propagation {
                pending: self.pending.drop_first(),
                visited: self.visited.insert(item.edge()),
                ..self
            };
            if self.visited.contains(item.edge()) || !self.manager.threads.contains_key(parent) {
                rest
            } else {
                let thread = self.manager.threads[parent].thread;
                let refresh = thread.refresh(item.report());
                Propagation {
                    manager: self.manager.with_thread(parent, thread.refreshed(item.report())),
                    updates: self.updates + updates_of(parent, refresh.completed),
                    sent: match refresh.active {
                        Some((turn_id, card)) => if self.manager.listeners.contains(parent) {
                            self.sent.push(card_invalidation(parent, turn_id, card))
                        } else {
                            self.sent
                        },
                        None => self.sent,
                    },
                    pending: match refresh.forward {
                        Some(state) => rest.pending + pending_refreshes(
                            parent,
                            state,
                            self.manager.targets(parent),
                        ),
                        None => rest.pending,
                    },
                    ..rest
                }
            }
        }
    }

    /// The propagation after some steps.
    pub open spec fn run(self, steps: nat) -> Propagation
        decreases steps,
    {
        if steps == 0 {
            self
        } else {
            self.run((steps - 1) as nat).step()
        }
    }
}

/// An invalidation of a child on its way to every ancestor that shows it.
pub struct Invalidation {
    pub manager: RetainedManagerView,
    pub pending: Seq<Edge>,
    pub visited: Set<Edge>,
    pub updates: Seq<UpdateView>,
    pub sent: Seq<RetainedSentView>,
}

impl Invalidation {
    /// Takes the first child off its parent's cards. A parent whose cards changed is itself taken
    /// off those of its own parents.
    pub open spec fn step(self) -> Invalidation {
        if self.pending.len() == 0 {
            self
        } else {
            let edge = self.pending[0];
            let parent = edge.parent;
            let rest = Invalidation {
                pending: self.pending.drop_first(),
                visited: self.visited.insert(edge),
                ..self
            };
            if self.visited.contains(edge) || !self.manager.threads.contains_key(parent) {
                rest
            } else {
                let before = self.manager.threads[parent].thread;
                let live = before.without_agent(edge.child, edge.generation);
                let older = invalidated_cards(
                    live.restored,
                    edge.child,
                    edge.generation,
                    live.next_revision,
                ).changed;
                let manager = self.manager.with_thread(
                    parent,
                    live.restored_without(edge.child, edge.generation),
                );
                let drops = before.drops_agent(edge.child, edge.generation);
                if drops || older.len() > 0 {
                    Invalidation {
                        manager: manager.cut(parent),
                        updates: self.updates + updates_of(
                            parent,
                            (if drops && live.completed_card() is Some {
                                seq![live.completed_card()->0]
                            } else {
                                Seq::empty()
                            }) + older,
                        ),
                        sent: match live.active_card() {
                            Some((turn_id, card)) => if drops && self.manager.listeners.contains(
                                parent,
                            ) {
                                self.sent.push(card_invalidation(parent, turn_id, card))
                            } else {
                                self.sent
                            },
                            None => self.sent,
                        },
                        pending: rest.pending + manager.edges(parent),
                        ..rest
                    }
                } else {
                    Invalidation { manager, ..rest }
                }
            }
        }
    }

    /// The invalidation after some steps.
    pub open spec fn run(self, steps: nat) -> Invalidation
        decreases steps,
    {
        if steps == 0 {
            self
        } else {
            self.run((steps - 1) as nat).step()
        }
    }
}

/// Where a child's card goes.
pub struct RefreshTarget {
    pub parent: ThreadId,
    pub generation: u64,
    pub baseline_node_ids: KeySet<String>,
}

impl View for RefreshTarget {
    type V = Target;

    open spec fn view(&self) -> Target {
        Target {
            parent: self.parent,
            generation: self.generation,
            baseline: self.baseline_node_ids@,
        }
    }
}

struct Refresh {
    child: ThreadId,
    state: SpineUiState,
    target: RefreshTarget,
}

impl View for Refresh {
    type V = PendingRefresh;

    closed spec fn view(&self) -> PendingRefresh {
        PendingRefresh { child: self.child, state: self.state@, target: self.target@ }
    }
}

fn add_refreshes(
    pending: &mut Vec<Refresh>,
    child: ThreadId,
    state: &SpineUiState,
    targets: Vec<RefreshTarget>,
)
    ensures
        views(final(pending)@) == views(old(pending)@) + pending_refreshes(
            child,
            state@,
            views(targets@),
        ),
{
    let ghost start = views(pending@);
    let ghost all = pending_refreshes(child, state@, views(targets@));
    let mut i: usize = 0;
    assert(start =~= start + all.take(0));
    while i < targets.len()
        invariant
            i <= targets.len(),
            all == pending_refreshes(child, state@, views(targets@)),
            views(pending@) == start + all.take(i as int),
        decreases targets.len() - i,
    {
        let ghost before = views(pending@);
        let target = RefreshTarget {
            parent: targets[i].parent,
            generation: targets[i].generation,
            baseline_node_ids: targets[i].baseline_node_ids.copy_set(),
        };
        assert(all[i as int] == (PendingRefresh { child, state: state@, target: target@ }));
        pending.push(Refresh { child, state: state.copy_state(), target });
        assert(views(pending@) =~= before.push(all[i as int]));
        assert(views(pending@) =~= start + all.take(i + 1));
        i += 1;
    }
    assert(all.take(i as int) =~= all);
}

/// Adds the changed completed cards of a thread to a list.
pub fn add_updates(updates: &mut Vec<SpineUiCompletedUpdate>, thread_id: ThreadId, cards: Vec<TurnCard>)
    ensures
        views(final(updates)@) == views(old(updates)@) + updates_of(thread_id, views(cards@)),
{
    let ghost start = views(updates@);
    let ghost all = updates_of(thread_id, views(cards@));
    let mut i: usize = 0;
    assert(start =~= start + all.take(0));
    while i < cards.len()
        invariant
            i <= cards.len(),
            all == updates_of(thread_id, views(cards@)),
            views(updates@) == start + all.take(i as int),
        decreases cards.len() - i,
    {
        let ghost before = views(updates@);
        let update = SpineUiCompletedUpdate {
            thread_id,
            turn_id: cards[i].turn_id.clone(),
            state: cards[i].state.copy_state(),
        };
        assert(all[i as int] == update@);
        updates.push(update);
        assert(views(updates@) =~= before.push(all[i as int]));
        assert(views(updates@) =~= start + all.take(i + 1));
        i += 1;
    }
    assert(all.take(i as int) =~= all);
}

/// What a change at a thread did to its ancestors: the completed cards that changed and the commands
/// for their listeners.
pub struct AncestorUpdates {
    pub completed: Vec<SpineUiCompletedUpdate>,
    pub sent: Vec<RetainedSent>,
}

impl RetainedManagerView {
    /// Every edge along a route or a lineage.
    pub open spec fn all_edges(self) -> Set<Edge> {
        Set::new(|e: Edge| self.edges(e.child).contains(e))
    }

    /// The start of a propagation of a child's card.
    pub open spec fn propagation(self, child: ThreadId, state: StateView) -> Propagation {
        Propagation {
            manager: self,
            pending: pending_refreshes(child, state, self.targets(child)),
            visited: Set::empty(),
            updates: Seq::empty(),
            sent: Seq::empty(),
        }
    }

    /// The start of an invalidation of a thread whose routes are cut.
    pub open spec fn invalidation(self, edges: Seq<Edge>) -> Invalidation {
        Invalidation {
            manager: self,
            pending: edges,
            visited: Set::empty(),
            updates: Seq::empty(),
            sent: Seq::empty(),
        }
    }
}

/// There are finitely many edges.
proof fn lemma_edges_finite(m: RetainedManagerView)
    requires
        m.routes.dom().finite(),
        m.lineages.dom().finite(),
    ensures
        m.all_edges().finite(),
{
    let along_route = |c: ThreadId|
        Edge {
            child: c,
            parent: m.routes[c].parent_thread_id,
            generation: m.routes[c].generation,
        };
    let along_lineage = |c: ThreadId|
        Edge {
            child: c,
            parent: m.lineages[c].parent_thread_id,
            generation: m.lineages[c].generation,
        };
    let routes = m.routes.dom().map(along_route);
    let lineages = m.lineages.dom().map(along_lineage);
    m.routes.dom().lemma_map_finite(along_route);
    m.lineages.dom().lemma_map_finite(along_lineage);
    assert forall|e: Edge| #[trigger] m.all_edges().contains(e) implies routes.union(
        lineages,
    ).contains(e) by {
        let c = e.child;
        let k = choose|k: int| 0 <= k < m.edges(c).len() && m.edges(c)[k] == e;
        if k == 0 && m.routes.contains_key(c) {
            assert(m.routes.dom().contains(c));
            assert(along_route(c) == e);
        } else {
            assert(m.lineages.dom().contains(c));
            assert(along_lineage(c) == e);
        }
    }
    vstd::set_lib::lemma_set_subset_finite(routes.union(lineages), m.all_edges());
}

/// A visited edge leaves one edge less to visit.
proof fn lemma_visit(edges: Set<Edge>, visited: Set<Edge>, e: Edge)
    requires
        edges.finite(),
        edges.contains(e),
    ensures
        !visited.contains(e) ==> edges.difference(visited.insert(e)).len() < edges.difference(
            visited,
        ).len(),
        visited.contains(e) ==> visited.insert(e) == visited,
{
    let left = edges.difference(visited);
    if visited.contains(e) {
        assert(visited.insert(e) =~= visited);
    } else {
        assert(edges.difference(visited.insert(e)) =~= left.remove(e));
        assert(left.contains(e));
    }
}

/// Nothing but cards changes where a card is delivered.
proof fn lemma_edges_stay(m: RetainedManagerView, thread_id: ThreadId, thread: RetainedView)
    ensures
        m.with_thread(thread_id, thread).all_edges() == m.all_edges(),
        forall|c: ThreadId| #[trigger] m.with_thread(thread_id, thread).targets(c) == m.targets(c),
{
    assert forall|c: ThreadId| #[trigger] m.with_thread(thread_id, thread).targets(c) == m.targets(
        c,
    ) by {}
    assert(m.with_thread(thread_id, thread).all_edges() =~= m.all_edges());
}

impl RetainedManager {
    /// Where a child's card goes: along its route and its lineage.
    pub fn spine_ui_parent_refresh_targets(&self, child: ThreadId) -> (r: Vec<RefreshTarget>)
        ensures
            views(r@) == self@.targets(child),
    {
        let mut out: Vec<RefreshTarget> = Vec::new();
        let mut along: Option<(ThreadId, u64)> = None;
        match self.routes.get(&child) {
            Some(route) => {
                out.push(
                    RefreshTarget {
                        parent: route.parent_thread_id,
                        generation: route.generation,
                        baseline_node_ids: route.baseline_node_ids.copy_set(),
                    },
                );
                along = Some((route.parent_thread_id, route.generation));
            },
            None => {},
        }
        match self.lineages.get(&child) {
            Some(lineage) => {
                let known = match along {
                    Some((parent, generation)) => parent == lineage.parent_thread_id && generation
                        == lineage.generation,
                    None => false,
                };
                if !known {
                    out.push(
                        RefreshTarget {
                            parent: lineage.parent_thread_id,
                            generation: lineage.generation,
                            baseline_node_ids: lineage.baseline_node_ids.copy_set(),
                        },
                    );
                }
            },
            None => {},
        }
        assert(views(out@) =~= self@.targets(child));
        out
    }

    /// Brings a child's changed card to every ancestor that shows it, each of which then shows a
    /// changed card itself.
    pub fn propagate_spine_ui_completed_agent_state(
        &mut self,
        child: ThreadId,
        state: &SpineUiState,
    ) -> (r: AncestorUpdates)
        ensures
            exists|steps: nat|
                {
                    let end = #[trigger] old(self)@.propagation(child, state@).run(steps);
                    &&& end.pending.len() == 0
                    &&& final(self)@ == end.manager
                    &&& views(r.completed@) == end.updates
                    &&& views(r.sent@) == end.sent
                },
    {
        let ghost start = self@.propagation(child, state@);
        let ghost edges = self@.all_edges();
        let ghost mut steps: nat = 0;
        proof {
            self.routes.lemma_finite();
            self.lineages.lemma_finite();
            lemma_edges_finite(self@);
        }
        let mut pending: Vec<Refresh> = Vec::new();
        let mut visited: KeySet<Edge> = KeySet::new();
        let mut completed: Vec<SpineUiCompletedUpdate> = Vec::new();
        let mut sent: Vec<RetainedSent> = Vec::new();
        let targets = self.spine_ui_parent_refresh_targets(child);
        add_refreshes(&mut pending, child, state, targets);
        proof {
            assert(views(pending@) =~= start.pending);
            assert(views(completed@) =~= Seq::empty());
            assert(views(sent@) =~= Seq::empty());
            assert forall|k: int| 0 <= k < views(pending@).len() implies edges.contains(
                (#[trigger] views(pending@)[k]).edge(),
            ) by {
                assert(self@.edges(child)[k] == views(pending@)[k].edge());
            }
        }
        while pending.len() > 0
            invariant
                edges.finite(),
                edges == self@.all_edges(),
                ({
                    let now = start.run(steps);
                    &&& now.manager == self@
                    &&& now.pending == views(pending@)
                    &&& now.visited == visited@
                    &&& now.updates == views(completed@)
                    &&& now.sent == views(sent@)
                }),
                forall|k: int|
                    0 <= k < views(pending@).len() ==> edges.contains(
                        (#[trigger] views(pending@)[k]).edge(),
                    ),
            decreases edges.difference(visited@).len(), pending@.len(),
        {
            let ghost now = start.run(steps);
            let ghost all = views(pending@);
            let ghost manager = self@;
            let item = pending.remove(0);
            let ghost iv = item@;
            proof {
                assert(iv == all[0]);
                assert(views(pending@) =~= all.drop_first());
                assert(edges.contains(all[0].edge()));
                lemma_visit(edges, visited@, iv.edge());
                assert(start.run((steps + 1) as nat) == now.step());
                steps = (steps + 1) as nat;
                assert forall|k: int| 0 <= k < all.drop_first().len() implies edges.contains(
                    (#[trigger] all.drop_first()[k]).edge(),
                ) by {
                    assert(all.drop_first()[k] == all[k + 1]);
                }
            }
            let edge = Edge {
                child: item.child,
                parent: item.target.parent,
                generation: item.target.generation,
            };
            assert(edge == iv.edge());
            let fresh = visited.insert(edge);
            if !fresh {
                continue ;
            }
            let parent = item.target.parent;
            match self.threads.remove(&parent) {
                Some(mut entry) => {
                    let shown = item.state.filtered_for_parent(&item.target.baseline_node_ids);
                    let ghost before = entry.thread@;
                    let refresh = entry.thread.refresh_spine_ui_agent_state(
                        item.child,
                        item.target.generation,
                        &shown,
                    );
                    assert(refresh@ == before.refresh(iv.report()));
                    self.threads.insert(parent, entry);
                    proof {
                        assert(self@.threads =~= manager.with_thread(
                            parent,
                            before.refreshed(iv.report()),
                        ).threads);
                        lemma_edges_stay(manager, parent, before.refreshed(iv.report()));
                    }
                    match refresh.active {
                        Some((turn_id, card)) => {
                            if self.listeners.contains(&parent) {
                                let ghost list = views(sent@);
                                let order = RetainedSent {
                                    to: parent,
                                    command: RetainedCommand::EmitSpineUiInvalidation {
                                        turn_id,
                                        card,
                                    },
                                };
                                let ghost ov = order@;
                                sent.push(order);
                                assert(views(sent@) =~= list.push(ov));
                            }
                        },
                        None => {},
                    }
                    add_updates(&mut completed, parent, refresh.completed);
                    match refresh.forward {
                        Some(forward) => {
                            let targets = self.spine_ui_parent_refresh_targets(parent);
                            let ghost rest = views(pending@);
                            let ghost more = pending_refreshes(
                                parent,
                                forward@,
                                manager.targets(parent),
                            );
                            add_refreshes(&mut pending, parent, &forward, targets);
                            assert forall|k: int| 0 <= k < views(pending@).len() implies edges.contains(
                                (#[trigger] views(pending@)[k]).edge(),
                            ) by {
                                if k < rest.len() {
                                    assert(views(pending@)[k] == all.drop_first()[k]);
                                } else {
                                    let j = k - rest.len();
                                    assert(views(pending@)[k] == more[j]);
                                    assert(manager.edges(parent)[j] == more[j].edge());
                                    assert(manager.edges(parent).contains(more[j].edge()));
                                }
                            }
                        },
                        None => {},
                    }
                },
                None => {
                    assert(self@.threads =~= manager.threads);
                },
            }
        }
        AncestorUpdates { completed, sent }
    }
}

/// Cutting a thread off adds no edge.
proof fn lemma_cut_edges(m: RetainedManagerView, thread_id: ThreadId)
    ensures
        m.cut(thread_id).all_edges().subset_of(m.all_edges()),
{
    let after = m.cut(thread_id);
    assert forall|e: Edge| #[trigger] after.all_edges().contains(e) implies m.all_edges().contains(
        e,
    ) by {
        if e.child == thread_id {
            assert(after.edges(e.child).len() == 0);
        } else {
            assert(after.targets(e.child) =~= m.targets(e.child));
        }
    }
}

fn add_edges(pending: &mut Vec<Edge>, edges: &Vec<Edge>)
    ensures
        final(pending)@ == old(pending)@ + edges@,
{
    let ghost start = pending@;
    let mut i: usize = 0;
    assert(start =~= start + edges@.take(0));
    while i < edges.len()
        invariant
            i <= edges.len(),
            pending@ == start + edges@.take(i as int),
        decreases edges.len() - i,
    {
        pending.push(edges[i]);
        assert(pending@ =~= start + edges@.take(i + 1));
        i += 1;
    }
    assert(edges@.take(i as int) =~= edges@);
}

impl RetainedManager {
    /// The parents that show a child.
    pub fn spine_ui_invalidation_targets(&self, child: ThreadId) -> (r: Vec<Edge>)
        ensures
            r@ == self@.edges(child),
    {
        let mut out: Vec<Edge> = Vec::new();
        match self.routes.get(&child) {
            Some(route) => {
                out.push(
                    Edge { child, parent: route.parent_thread_id, generation: route.generation },
                );
            },
            None => {},
        }
        match self.lineages.get(&child) {
            Some(lineage) => {
                let edge = Edge {
                    child,
                    parent: lineage.parent_thread_id,
                    generation: lineage.generation,
                };
                if out.len() == 0 || out[0] != edge {
                    out.push(edge);
                }
            },
            None => {},
        }
        assert(out@ =~= self@.edges(child));
        out
    }

    fn record_spine_ui_invalidated_generation(&mut self, child: ThreadId, edges: &Vec<Edge>)
        requires
            edges@.len() <= 2,
        ensures
            final(self)@ == old(self)@.with_invalidated(child, edges@),
    {
        if edges.len() == 0 {
            return;
        }
        let mut newest = edges[0].generation;
        if edges.len() > 1 {
            newest = larger_of(newest, edges[1].generation);
        }
        let next = match self.invalidated.get(&child) {
            Some(current) => larger_of(*current, newest),
            None => newest,
        };
        self.invalidated.insert(child, next);
    }

    /// Cuts a child off: takes its route and its lineage, and gives the parents that showed it.
    pub fn take_spine_ui_parent_invalidation_targets(&mut self, child: ThreadId) -> (r: Vec<Edge>)
        ensures
            final(self)@ == old(self)@.cut(child),
            r@ == old(self)@.edges(child),
    {
        let edges = self.spine_ui_invalidation_targets(child);
        let _ = self.routes.remove(&child);
        let _ = self.lineages.remove(&child);
        self.record_spine_ui_invalidated_generation(child, &edges);
        edges
    }

    /// Takes a child off the cards of its parents, and on upwards.
    fn invalidate_spine_ui_targets(&mut self, targets: Vec<Edge>) -> (r: AncestorUpdates)
        ensures
            exists|steps: nat|
                {
                    let end = #[trigger] old(self)@.invalidation(targets@).run(steps);
                    &&& end.pending.len() == 0
                    &&& final(self)@ == end.manager
                    &&& views(r.completed@) == end.updates
                    &&& views(r.sent@) == end.sent
                },
    {
        let ghost start = self@.invalidation(targets@);
        let ghost edges = self@.all_edges().union(targets@.to_set());
        let ghost mut steps: nat = 0;
        proof {
            self.routes.lemma_finite();
            self.lineages.lemma_finite();
            lemma_edges_finite(self@);
            vstd::seq_lib::seq_to_set_is_finite(targets@);
        }
        let mut pending: Vec<Edge> = targets;
        let mut visited: KeySet<Edge> = KeySet::new();
        let mut completed: Vec<SpineUiCompletedUpdate> = Vec::new();
        let mut sent: Vec<RetainedSent> = Vec::new();
        proof {
            assert(views(completed@) =~= Seq::empty());
            assert(views(sent@) =~= Seq::empty());
            assert forall|k: int| 0 <= k < pending@.len() implies edges.contains(
                #[trigger] pending@[k],
            ) by {
                assert(targets@.to_set().contains(targets@[k]));
            }
        }
        while pending.len() > 0
            invariant
                edges.finite(),
                self@.all_edges().subset_of(edges),
                ({
                    let now = start.run(steps);
                    &&& now.manager == self@
                    &&& now.pending == pending@
                    &&& now.visited == visited@
                    &&& now.updates == views(completed@)
                    &&& now.sent == views(sent@)
                }),
                forall|k: int|
                    0 <= k < pending@.len() ==> edges.contains(#[trigger] pending@[k]),
            decreases edges.difference(visited@).len(), pending@.len(),
        {
            let ghost now = start.run(steps);
            let ghost all = pending@;
            let ghost manager = self@;
            let edge = pending.remove(0);
            proof {
                assert(pending@ =~= all.drop_first());
                assert(edges.contains(all[0]));
                lemma_visit(edges, visited@, edge);
                assert(start.run((steps + 1) as nat) == now.step());
                steps = (steps + 1) as nat;
                assert forall|k: int| 0 <= k < all.drop_first().len() implies edges.contains(
                    #[trigger] all.drop_first()[k],
                ) by {
                    assert(all.drop_first()[k] == all[k + 1]);
                }
            }
            let fresh = visited.insert(edge);
            if !fresh {
                continue ;
            }
            let parent = edge.parent;
            match self.threads.remove(&parent) {
                Some(mut entry) => {
                    let ghost before = entry.thread@;
                    let ghost live = before.without_agent(edge.child, edge.generation);
                    let drops = entry.thread.invalidate_spine_ui_agent_state(
                        edge.child,
                        edge.generation,
                    );
                    let mut cards: Vec<TurnCard> = Vec::new();
                    let mut active: Option<(String, SpineUiState)> = None;
                    if drops {
                        active = entry.thread.active_spine_ui_snapshot();
                        match entry.thread.completed_spine_ui_snapshot() {
                            Some(card) => {
                                cards.push(card);
                            },
                            None => {},
                        }
                    }
                    let ghost first = views(cards@);
                    assert(first =~= if drops && live.completed_card() is Some {
                        seq![live.completed_card()->0]
                    } else {
                        Seq::empty()
                    });
                    let mut older = entry.thread.invalidate_restored_spine_ui_agent_states(
                        edge.child,
                        edge.generation,
                    );
                    let changed = drops || older.len() > 0;
                    let ghost later = views(older@);
                    cards.append(&mut older);
                    assert(views(cards@) =~= first + later);
                    self.threads.insert(parent, entry);
                    let ghost threads = live.restored_without(edge.child, edge.generation);
                    proof {
                        assert(self@.threads =~= manager.with_thread(parent, threads).threads);
                        assert(self@ == manager.with_thread(parent, threads));
                        lemma_edges_stay(manager, parent, threads);
                    }
                    if changed {
                        match active {
                            Some((turn_id, card)) => {
                                if self.listeners.contains(&parent) {
                                    let ghost list = views(sent@);
                                    let order = RetainedSent {
                                        to: parent,
                                        command: RetainedCommand::EmitSpineUiInvalidation {
                                            turn_id,
                                            card,
                                        },
                                    };
                                    let ghost ov = order@;
                                    sent.push(order);
                                    assert(views(sent@) =~= list.push(ov));
                                }
                            },
                            None => {},
                        }
                        add_updates(&mut completed, parent, cards);
                        let ghost cut_from = self@;
                        let ghost rest = pending@;
                        let ancestors = self.take_spine_ui_parent_invalidation_targets(parent);
                        add_edges(&mut pending, &ancestors);
                        proof {
                            lemma_cut_edges(cut_from, parent);
                            assert forall|k: int| 0 <= k < pending@.len() implies edges.contains(
                                #[trigger] pending@[k],
                            ) by {
                                if k < rest.len() {
                                    assert(pending@[k] == all.drop_first()[k]);
                                } else {
                                    let e = pending@[k];
                                    assert(e == cut_from.edges(parent)[k - rest.len()]);
                                    assert(cut_from.edges(parent).contains(e));
                                    assert(e.child == parent);
                                    assert(cut_from.all_edges().contains(e));
                                }
                            }
                        }
                    }
                },
                None => {
                    assert(self@.threads =~= manager.threads);
                },
            }
        }
        AncestorUpdates { completed, sent }
    }

    /// Cuts a thread off from its parents and its children, takes it off its parents' cards, and on
    /// upwards.
    pub fn clear_all_spine_ui_routes_for_thread(&mut self, thread_id: ThreadId) -> (r: AncestorUpdates)
        ensures
            exists|steps: nat|
                {
                    let end = #[trigger] old(self)@.isolated(thread_id).invalidation(
                        old(self)@.edges(thread_id),
                    ).run(steps);
                    &&& end.pending.len() == 0
                    &&& final(self)@ == end.manager
                    &&& views(r.completed@) == end.updates
                    &&& views(r.sent@) == end.sent
                },
    {
        let ghost before = self@;
        match self.threads.remove(&thread_id) {
            Some(mut entry) => {
                entry.terminal_ack = None;
                self.threads.insert(thread_id, entry);
            },
            None => {},
        }
        let targets = self.spine_ui_invalidation_targets(thread_id);
        assert(targets@ == before.edges(thread_id));
        let route_stays = |c: &ThreadId, r: &RetainedRoute| -> (b: bool)
            ensures
                b == (c@ != thread_id && r@.parent_thread_id != thread_id),
        {
            *c != thread_id && r.parent_thread_id != thread_id
        };
        self.routes.retain(
            route_stays,
            Ghost(
                |c: ThreadId, r: RetainedRouteView|
                    c != thread_id && r.parent_thread_id != thread_id,
            ),
        );
        let lineage_stays = |c: &ThreadId, l: &CarryLineage| -> (b: bool)
            ensures
                b == (c@ != thread_id && l@.parent_thread_id != thread_id),
        {
            *c != thread_id && l.parent_thread_id != thread_id
        };
        self.lineages.retain(
            lineage_stays,
            Ghost(
                |c: ThreadId, l: LineageView| c != thread_id && l.parent_thread_id != thread_id,
            ),
        );
        self.record_spine_ui_invalidated_generation(thread_id, &targets);
        proof {
            let after = before.isolated(thread_id);
            assert(self@.threads =~= after.threads);
            assert(self@.routes =~= after.routes);
            assert(self@.lineages =~= after.lineages);
            assert(self@ == after);
        }
        self.invalidate_spine_ui_targets(targets)
    }

    /// Forgets a thread with its routes, its lineage and its listener. Hands out what is left of it.
    pub fn remove_thread_state(&mut self, thread_id: ThreadId) -> (r: Option<RetainedThread>)
        ensures
            final(self)@ == old(self)@.without_thread(thread_id),
            match r {
                Some(thread) => old(self)@.threads.contains_key(thread_id) && thread@ == (
                RetainedView {
                    turns: crate::turns::no_turns(),
                    ..old(self)@.threads[thread_id].thread
                }),
                None => !old(self)@.threads.contains_key(thread_id),
            },
    {
        let removed = self.threads.remove(&thread_id);
        let route_stays = |c: &ThreadId, r: &RetainedRoute| -> (b: bool)
            ensures
                b == (c@ != thread_id && r@.parent_thread_id != thread_id),
        {
            *c != thread_id && r.parent_thread_id != thread_id
        };
        self.routes.retain(
            route_stays,
            Ghost(
                |c: ThreadId, r: RetainedRouteView|
                    c != thread_id && r.parent_thread_id != thread_id,
            ),
        );
        let lineage_stays = |c: &ThreadId, l: &CarryLineage| -> (b: bool)
            ensures
                b == (c@ != thread_id && l@.parent_thread_id != thread_id),
        {
            *c != thread_id && l.parent_thread_id != thread_id
        };
        self.lineages.retain(
            lineage_stays,
            Ghost(
                |c: ThreadId, l: LineageView| c != thread_id && l.parent_thread_id != thread_id,
            ),
        );
        let _ = self.invalidated.remove(&thread_id);
        self.unregister_listener(thread_id);
        proof {
            let after = old(self)@.without_thread(thread_id);
            assert(self@.routes =~= after.routes);
            assert(self@.lineages =~= after.lineages);
        }
        match removed {
            Some(entry) => {
                let mut thread = entry.thread;
                thread.clear_listener();
                Some(thread)
            },
            None => None,
        }
    }

    /// Removes all routes, lineages and listeners. The cards stay.
    pub fn clear_all_listeners(&mut self)
        ensures
            final(self)@ == old(self)@.shut_down(),
    {
        let ghost before = self@;
        self.routes.clear();
        self.lineages.clear();
        self.invalidated.clear();
        let ids = self.threads.keys();
        let mut i: usize = 0;
        proof {
            assert(views(ids@) =~= ids@);
            assert(ids@.take(0) =~= Seq::empty());
        }
        while i < ids.len()
            invariant
                i <= ids.len(),
                ids@.no_duplicates(),
                forall|t: ThreadId| #[trigger] ids@.contains(t) == before.threads.contains_key(t),
                self@ == (RetainedManagerView {
                    threads: self@.threads,
                    listeners: self@.listeners,
                    ..before.shut_down()
                }),
                forall|t: ThreadId| #[trigger]
                    self@.threads.contains_key(t) == before.threads.contains_key(t),
                forall|t: ThreadId| #[trigger]
                    before.threads.contains_key(t) ==> self@.threads[t] == if ids@.take(
                        i as int,
                    ).contains(t) {
                        before.shut_down().threads[t]
                    } else {
                        before.threads[t]
                    },
                forall|t: ThreadId| #[trigger]
                    self@.listeners.contains(t) == (before.listeners.contains(t) && !ids@.take(
                        i as int,
                    ).contains(t)),
            decreases ids.len() - i,
        {
            let id = ids[i];
            let ghost prev = self@.threads;
            proof {
                lemma_take_contains(ids@, i as int);
                assert(ids@.contains(id));
                assert(prev.contains_key(id) == before.threads.contains_key(id));
            }
            self.unregister_listener(id);
            match self.threads.remove(&id) {
                Some(mut entry) => {
                    entry.thread.clear_listener();
                    self.threads.insert(id, entry);
                },
                None => {},
            }
            assert(self@.threads =~= prev.insert(id, before.shut_down().threads[id]));
            i += 1;
        }
        proof {
            assert(ids@.take(i as int) =~= ids@);
            assert(self@.threads =~= before.shut_down().threads);
            assert(self@.listeners =~= before.shut_down().listeners);
        }
    }
}

} // verus!
