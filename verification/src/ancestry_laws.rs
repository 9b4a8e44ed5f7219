//! What a report and what a rollback leave behind at the ancestors of a thread.
use crate::agents::{agent_position, covers, lemma_agent_position, started_call};
use crate::ancestry::{pending_refreshes, Invalidation, PendingRefresh};
use crate::keyed::lemma_position;
use crate::laws::lemma_invalidated_agent_is_gone;
use crate::lineage::{Edge, RetainedManagerView};
use crate::protocol::ThreadId;
use crate::retained::{cards_after, changed_cards, AgentReport, CardView, RetainedView};
use crate::snapshot::spawned;
use crate::state::{one_subtree_each, SpawnCallView, SpawnTaskView, StateView};
use vstd::prelude::*;

verus! {

/// Whether a card is rid of a child's generation: it shows neither that one nor an older one, waits
/// for neither, and takes neither back.
pub open spec fn off_card(s: StateView, child: ThreadId, generation: u64) -> bool {
    !s.drops_agent(child, generation) && covers(s.invalidated, child, generation)
}

/// Whether the three newest cards of a thread are rid of a child's generation.
pub open spec fn off_thread(thread: RetainedView, child: ThreadId, generation: u64) -> bool {
    &&& off_card(thread.active, child, generation)
    &&& off_card(thread.carry, child, generation)
    &&& off_card(thread.last_completed, child, generation)
}

/// Whether no card of a thread shows an agent twice.
pub open spec fn agents_once(thread: RetainedView) -> bool {
    &&& one_subtree_each(thread.active.agents)
    &&& one_subtree_each(thread.carry.agents)
    &&& one_subtree_each(thread.last_completed.agents)
}

/// Whether no card of any thread shows an agent twice.
pub open spec fn all_agents_once(manager: RetainedManagerView) -> bool {
    forall|t: ThreadId| #[trigger]
        manager.threads.contains_key(t) ==> agents_once(manager.threads[t].thread)
}

/// An invalidation rids a card of its generation, and of no generation that the card is rid of
/// already does it take the riddance back.
proof fn lemma_card_is_rid(s: StateView, child: ThreadId, generation: u64)
    requires
        one_subtree_each(s.agents),
    ensures
        one_subtree_each(s.without_agent(child, generation).agents),
        off_card(s.without_agent(child, generation), child, generation),
        forall|c: ThreadId, g: u64| #[trigger]
            off_card(s, c, g) ==> off_card(s.without_agent(child, generation), c, g),
{
    let after = s.without_agent(child, generation);
    let at = agent_position(s.agents, child);
    lemma_agent_position(s.agents, child);
    lemma_invalidated_agent_is_gone(s, child, generation);
    if after.agents != s.agents {
        assert forall|i: int| 0 <= i < after.agents.len() implies #[trigger] after.agents[i]
            == s.agents[if i < at {
            i
        } else {
            i + 1
        }] by {}
    }
    assert forall|c: ThreadId, g: u64| #[trigger] off_card(s, c, g) implies off_card(after, c, g) by {
        lemma_agent_position(s.agents, c);
        lemma_agent_position(after.agents, c);
        let k = agent_position(after.agents, c);
        if k < after.agents.len() {
            let j = if after.agents == s.agents || k < at {
                k
            } else {
                k + 1
            };
            assert(after.agents[k] == s.agents[j]);
            let first = agent_position(s.agents, c);
            if first < j {
                assert(s.agents[first].thread_id != s.agents[j].thread_id);
            }
            assert(first == j);
        }
    }
}

/// The cards of a thread after an invalidation.
pub open spec fn invalidated_thread(
    thread: RetainedView,
    child: ThreadId,
    generation: u64,
) -> RetainedView {
    thread.without_agent(child, generation).restored_without(child, generation)
}

proof fn lemma_thread_is_rid(thread: RetainedView, child: ThreadId, generation: u64)
    requires
        agents_once(thread),
    ensures
        agents_once(invalidated_thread(thread, child, generation)),
        off_thread(invalidated_thread(thread, child, generation), child, generation),
        forall|c: ThreadId, g: u64| #[trigger]
            off_thread(thread, c, g) ==> off_thread(
                invalidated_thread(thread, child, generation),
                c,
                g,
            ),
{
    lemma_card_is_rid(thread.active, child, generation);
    lemma_card_is_rid(thread.carry, child, generation);
    lemma_card_is_rid(thread.last_completed, child, generation);
    assert forall|c: ThreadId, g: u64| #[trigger] off_thread(thread, c, g) implies off_thread(
        invalidated_thread(thread, child, generation),
        c,
        g,
    ) by {
        assert(off_card(thread.active, c, g));
        assert(off_card(thread.carry, c, g));
        assert(off_card(thread.last_completed, c, g));
        assert(off_card(thread.active.without_agent(child, generation), c, g));
        assert(off_card(thread.carry.without_agent(child, generation), c, g));
        assert(off_card(thread.last_completed.without_agent(child, generation), c, g));
    }
}

/// Whether every visited parent is rid of the child that it was visited for.
pub open spec fn visited_are_rid(invalidation: Invalidation) -> bool {
    forall|e: Edge| #[trigger]
        invalidation.visited.contains(e) && invalidation.manager.threads.contains_key(e.parent)
            ==> off_thread(invalidation.manager.threads[e.parent].thread, e.child, e.generation)
}

/// An invalidation takes every child off the cards of every parent that it reaches, it reaches every
/// parent that it was started for, and it makes no thread known or unknown.
pub proof fn lemma_invalidation_rids_ancestors(
    manager: RetainedManagerView,
    edges: Seq<Edge>,
    steps: nat,
)
    requires
        all_agents_once(manager),
    ensures
        ({
            let start = manager.invalidation(edges);
            let now = start.run(steps);
            &&& all_agents_once(now.manager)
            &&& visited_are_rid(now)
            &&& now.manager.threads.dom() == manager.threads.dom()
            &&& forall|k: int|
                0 <= k < edges.len() ==> now.visited.contains(#[trigger] edges[k])
                    || now.pending.contains(edges[k])
        }),
    decreases steps,
{
    let start = manager.invalidation(edges);
    if steps > 0 {
        let n = (steps - 1) as nat;
        lemma_invalidation_rids_ancestors(manager, edges, n);
        let before = start.run(n);
        let now = start.run(steps);
        if before.pending.len() > 0 {
            let edge = before.pending[0];
            assert forall|k: int| 0 <= k < edges.len() implies now.visited.contains(
                #[trigger] edges[k],
            ) || now.pending.contains(edges[k]) by {
                if before.pending.contains(edges[k]) && edges[k] != edge {
                    let i = choose|i: int|
                        0 <= i < before.pending.len() && before.pending[i] == edges[k];
                    assert(now.pending[i - 1] == edges[k]);
                }
            }
            let parent = edge.parent;
            if before.manager.threads.contains_key(parent) && !before.visited.contains(edge) {
                let thread = before.manager.threads[parent].thread;
                lemma_thread_is_rid(thread, edge.child, edge.generation);
                assert(now.manager.threads[parent].thread == invalidated_thread(
                    thread,
                    edge.child,
                    edge.generation,
                ));
                assert forall|t: ThreadId| #[trigger]
                    now.manager.threads.contains_key(t) implies agents_once(
                    now.manager.threads[t].thread,
                ) by {
                    assert(before.manager.threads.contains_key(t));
                }
                assert forall|e: Edge| #[trigger]
                    now.visited.contains(e) && now.manager.threads.contains_key(
                        e.parent,
                    ) implies off_thread(
                    now.manager.threads[e.parent].thread,
                    e.child,
                    e.generation,
                ) by {
                    assert(before.manager.threads.contains_key(e.parent));
                    if e != edge {
                        assert(before.visited.contains(e));
                        if e.parent == parent {
                            assert(off_thread(thread, e.child, e.generation));
                        }
                    }
                }
                assert(now.manager.threads.dom() =~= manager.threads.dom());
            }
        }
    } else {
        assert forall|k: int| 0 <= k < edges.len() implies start.pending.contains(
            #[trigger] edges[k],
        ) by {
            assert(start.pending[k] == edges[k]);
        }
    }
}

/// Whether a thread shows no tree.
pub open spec fn shows_nothing(thread: RetainedView) -> bool {
    &&& thread.active.snapshot is None
    &&& thread.carry.snapshot is None
    &&& thread.last_completed.snapshot is None
    &&& thread.restored.len() == 0
}

/// Whether a thread has no route and no lineage, and is at the end of none.
pub open spec fn is_alone(manager: RetainedManagerView, thread_id: ThreadId) -> bool {
    &&& !manager.routes.contains_key(thread_id)
    &&& !manager.lineages.contains_key(thread_id)
    &&& forall|c: ThreadId| #[trigger]
        manager.routes.contains_key(c) ==> manager.routes[c].parent_thread_id != thread_id
    &&& forall|c: ThreadId| #[trigger]
        manager.lineages.contains_key(c) ==> manager.lineages[c].parent_thread_id != thread_id
}

/// An invalidation leaves a lone thread alone, and a thread that shows nothing shows nothing after
/// it.
proof fn lemma_invalidation_makes_no_routes(
    invalidation: Invalidation,
    thread_id: ThreadId,
    steps: nat,
)
    requires
        is_alone(invalidation.manager, thread_id),
        invalidation.manager.threads.contains_key(thread_id),
        shows_nothing(invalidation.manager.threads[thread_id].thread),
    ensures
        is_alone(invalidation.run(steps).manager, thread_id),
        invalidation.run(steps).manager.threads.contains_key(thread_id),
        shows_nothing(invalidation.run(steps).manager.threads[thread_id].thread),
    decreases steps,
{
    if steps > 0 {
        lemma_invalidation_makes_no_routes(invalidation, thread_id, (steps - 1) as nat);
    }
}

/// After a rollback the thread shows nothing and has no routes or lineages, and no parent that
/// showed it does so on its newest cards any more.
pub proof fn lemma_rollback_is_complete(
    manager: RetainedManagerView,
    thread_id: ThreadId,
    steps: nat,
)
    requires
        all_agents_once(manager),
        manager.threads.contains_key(thread_id),
        ({
            let dropped = manager.with_thread(
                thread_id,
                manager.threads[thread_id].thread.rolled_back(),
            );
            dropped.isolated(thread_id).invalidation(dropped.edges(thread_id)).run(
                steps,
            ).pending.len() == 0
        }),
    ensures
        ({
            let dropped = manager.with_thread(
                thread_id,
                manager.threads[thread_id].thread.rolled_back(),
            );
            let after = dropped.isolated(thread_id).invalidation(dropped.edges(thread_id)).run(
                steps,
            ).manager;
            &&& is_alone(after, thread_id)
            &&& shows_nothing(after.threads[thread_id].thread)
            &&& forall|k: int|
                0 <= k < manager.edges(thread_id).len() ==> {
                    let e = #[trigger] manager.edges(thread_id)[k];
                    after.threads.contains_key(e.parent) ==> off_thread(
                        after.threads[e.parent].thread,
                        thread_id,
                        e.generation,
                    )
                }
        }),
{
    let dropped = manager.with_thread(thread_id, manager.threads[thread_id].thread.rolled_back());
    let isolated = dropped.isolated(thread_id);
    let edges = dropped.edges(thread_id);
    assert(edges == manager.edges(thread_id));
    assert(all_agents_once(isolated)) by {
        assert forall|t: ThreadId| #[trigger] isolated.threads.contains_key(t) implies agents_once(
            isolated.threads[t].thread,
        ) by {
            assert(manager.threads.contains_key(t));
        }
    }
    lemma_invalidation_rids_ancestors(isolated, edges, steps);
    lemma_invalidation_makes_no_routes(isolated.invalidation(edges), thread_id, steps);
    let end = isolated.invalidation(edges).run(steps);
    assert forall|k: int| 0 <= k < edges.len() && end.manager.threads.contains_key(
        (#[trigger] edges[k]).parent,
    ) implies off_thread(
        end.manager.threads[edges[k].parent].thread,
        thread_id,
        edges[k].generation,
    ) by {
        assert(edges[k].child == thread_id);
        assert(end.visited.contains(edges[k]));
    }
}

/// A started call is on the same threads.
proof fn lemma_started_calls_spawn(calls: Seq<SpawnCallView>, child: ThreadId, other: ThreadId)
    ensures
        spawned(calls.map_values(|c: SpawnCallView| started_call(c, child)), other) == spawned(
            calls,
            other,
        ),
{
    let started = calls.map_values(|c: SpawnCallView| started_call(c, child));
    assert forall|i: int, j: int|
        0 <= i < calls.len() && 0 <= j < calls[i].tasks.len() implies (
    #[trigger] calls[i].tasks[j]).progress.thread_id == started[i].tasks[j].progress.thread_id by {
        lemma_position(calls[i].tasks, |t: SpawnTaskView| t.progress.thread_id == child);
    }
    if spawned(calls, other) {
        let (i, j) = choose|i: int, j: int|
            0 <= i < calls.len() && 0 <= j < calls[i].tasks.len() && (
            #[trigger] calls[i].tasks[j]).progress.thread_id == other;
        lemma_position(calls[i].tasks, |t: SpawnTaskView| t.progress.thread_id == child);
        assert(started[i].tasks.len() == calls[i].tasks.len());
        assert(started[i].tasks[j].progress.thread_id == other);
    }
    if spawned(started, other) {
        let (i, j) = choose|i: int, j: int|
            0 <= i < started.len() && 0 <= j < started[i].tasks.len() && (
            #[trigger] started[i].tasks[j]).progress.thread_id == other;
        lemma_position(calls[i].tasks, |t: SpawnTaskView| t.progress.thread_id == child);
        assert(started[i].tasks.len() == calls[i].tasks.len());
        assert(calls[i].tasks[j].progress.thread_id == other);
    }
}

/// Whether a report brings a child's state, and is not its last.
pub open spec fn is_progress(report: AgentReport) -> bool {
    !report.is_final && report.state is Some
}

/// A report says nothing new to a card that has heard it, and a card to which it says nothing new
/// keeps it so when it hears of other children and generations.
proof fn lemma_card_is_informed(s: StateView, report: AgentReport, other: AgentReport, revision: u64)
    requires
        is_progress(report),
        is_progress(other),
    ensures
        !s.heard(report).at_revision(revision).hears(report),
        !s.hears(other) && (report.child != other.child || report.generation != other.generation)
            ==> !s.heard(report).at_revision(revision).hears(other),
{
    let after = s.heard(report).at_revision(revision);
    let at = agent_position(s.agents, report.child);
    lemma_agent_position(s.agents, report.child);
    lemma_agent_position(s.agents, other.child);
    lemma_agent_position(after.agents, report.child);
    lemma_agent_position(after.agents, other.child);
    lemma_started_calls_spawn(s.spawn_calls, report.child, other.child);
    if s.concerned(report) && s.takes_agent(report.child, report.generation, report.state->0) {
        assert(after.agents =~= s.agents.update(at, after.agents[at]));
        let there = agent_position(after.agents, report.child);
        assert(after.agents[at].thread_id == report.child);
        if there < at {
            assert(after.agents[there] == s.agents[there]);
        }
        assert(there == at);
        if report.child != other.child {
            let old_at = agent_position(s.agents, other.child);
            let new_at = agent_position(after.agents, other.child);
            if old_at < s.agents.len() {
                assert(after.agents[old_at] == s.agents[old_at]);
            }
            if new_at < after.agents.len() {
                assert(after.agents[new_at] == s.agents[new_at]);
            }
            assert(old_at == new_at);
        }
    }
}

/// A report changes an older card if some older card hears it.
pub proof fn lemma_older_cards_hear(cards: Seq<CardView>, report: AgentReport)
    ensures
        changed_cards(cards, report).len() > 0 <==> exists|i: int|
            0 <= i < cards.len() && (#[trigger] cards[i]).state.hears(report),
{
    let p = |c: CardView| c.state.hears(report);
    let kept = cards.filter(p);
    if kept.len() > 0 {
        cards.lemma_filter_pred(p, 0);
        cards.lemma_filter_contains_rev(p, kept[0]);
        let i = choose|i: int| 0 <= i < cards.len() && cards[i] == kept[0];
        assert(cards[i].state.hears(report));
    }
    if exists|i: int| 0 <= i < cards.len() && (#[trigger] cards[i]).state.hears(report) {
        let i = choose|i: int| 0 <= i < cards.len() && (#[trigger] cards[i]).state.hears(report);
        cards.lemma_filter_contains(p, i);
        assert(kept.contains(cards[i]));
    }
}

/// Every older card that is left after a report was there before it, and has heard it.
pub proof fn lemma_older_cards_after(cards: Seq<CardView>, report: AgentReport, revision: u64, i: int)
    requires
        0 <= i < cards_after(cards, report, revision).len(),
    ensures
        exists|j: int| #![trigger cards[j]]
            0 <= j < cards.len() && cards_after(cards, report, revision)[i].state == (
            if cards[j].state.hears(report) {
                cards[j].state.heard(report).at_revision(revision)
            } else {
                cards[j].state
            }),
{
    let p = |c: CardView| c.state.hears(report) ==> c.state.heard(report).awaits();
    let kept = cards.filter(p);
    cards.lemma_filter_contains_rev(p, kept[i]);
    let j = choose|j: int| 0 <= j < cards.len() && cards[j] == kept[i];
    assert(cards[j] == kept[i]);
}

/// A report says nothing new to a thread that has heard it, and a thread to which it says nothing
/// new keeps it so when it hears of other children and generations.
proof fn lemma_thread_is_informed(thread: RetainedView, report: AgentReport, other: AgentReport)
    requires
        is_progress(report),
        is_progress(other),
    ensures
        !thread.refreshed(report).hears(report),
        !thread.hears(other) && (report.child != other.child || report.generation
            != other.generation) ==> !thread.refreshed(report).hears(other),
{
    let after = thread.refreshed(report);
    let revision = thread.report_revision(report);
    lemma_older_cards_hear(after.restored, report);
    lemma_older_cards_hear(after.restored, other);
    lemma_older_cards_hear(thread.restored, other);
    if thread.hears(report) {
        lemma_card_is_informed(thread.active, report, other, revision);
        lemma_card_is_informed(thread.carry, report, other, revision);
        lemma_card_is_informed(thread.last_completed, report, other, revision);
        assert forall|i: int| 0 <= i < after.restored.len() implies !(
        #[trigger] after.restored[i]).state.hears(report) && (!thread.hears(other) && (report.child
            != other.child || report.generation != other.generation)
            ==> !after.restored[i].state.hears(other)) by {
            lemma_older_cards_after(thread.restored, report, revision, i);
            let j = choose|j: int| #![trigger thread.restored[j]]
                0 <= j < thread.restored.len() && after.restored[i].state == (
                if thread.restored[j].state.hears(report) {
                    thread.restored[j].state.heard(report).at_revision(revision)
                } else {
                    thread.restored[j].state
                });
            lemma_card_is_informed(thread.restored[j].state, report, other, revision);
        }
    }
}

/// Whether a parent, if it is known, has heard a report.
pub open spec fn has_heard(manager: RetainedManagerView, item: PendingRefresh) -> bool {
    manager.threads.contains_key(item.target.parent)
        ==> !manager.threads[item.target.parent].thread.hears(item.report())
}

/// The two edges of a child differ.
proof fn lemma_targets_differ(manager: RetainedManagerView, child: ThreadId, state: StateView)
    ensures
        ({
            let items = pending_refreshes(child, state, manager.targets(child));
            forall|i: int, j: int|
                0 <= i < j < items.len() ==> (#[trigger] items[i]).edge() != (
                #[trigger] items[j]).edge()
        }),
{
}

proof fn lemma_report_arrives_stepwise(
    manager: RetainedManagerView,
    child: ThreadId,
    state: StateView,
    steps: nat,
)
    ensures
        ({
            let items = pending_refreshes(child, state, manager.targets(child));
            let now = manager.propagation(child, state).run(steps);
            forall|k: int|
                0 <= k < items.len() ==> if k < steps {
                    now.visited.contains((#[trigger] items[k]).edge()) && has_heard(
                        now.manager,
                        items[k],
                    )
                } else {
                    !now.visited.contains(items[k].edge()) && k - steps < now.pending.len()
                        && now.pending[k - steps] == items[k]
                }
        }),
    decreases steps,
{
    let items = pending_refreshes(child, state, manager.targets(child));
    lemma_targets_differ(manager, child, state);
    if steps > 0 {
        let n = (steps - 1) as nat;
        lemma_report_arrives_stepwise(manager, child, state, n);
        let before = manager.propagation(child, state).run(n);
        let now = before.step();
        if before.pending.len() > 0 {
            let first = before.pending[0];
            assert forall|k: int| 0 <= k < items.len() implies if k < steps {
                now.visited.contains((#[trigger] items[k]).edge()) && has_heard(
                    now.manager,
                    items[k],
                )
            } else {
                !now.visited.contains(items[k].edge()) && k - steps < now.pending.len()
                    && now.pending[k - steps] == items[k]
            } by {
                let parent = first.target.parent;
                if n < items.len() {
                    assert(items[n as int] == first);
                }
                if k > n {
                    assert(before.pending[k - n] == items[k]);
                    assert(items[n as int].edge() != items[k].edge());
                } else {
                    if before.manager.threads.contains_key(parent) && !before.visited.contains(
                        first.edge(),
                    ) {
                        lemma_thread_is_informed(
                            before.manager.threads[parent].thread,
                            first.report(),
                            items[k].report(),
                        );
                    }
                    if k < n {
                        assert(before.visited.contains(items[k].edge()));
                    }
                }
            }
        }
    }
}

/// A child's card arrives: after its propagation none of its parents has anything left to hear of
/// it, neither on its newest cards nor on its older ones.
pub proof fn lemma_report_arrives(
    manager: RetainedManagerView,
    child: ThreadId,
    state: StateView,
    steps: nat,
)
    requires
        manager.propagation(child, state).run(steps).pending.len() == 0,
    ensures
        ({
            let after = manager.propagation(child, state).run(steps).manager;
            forall|k: int|
                0 <= k < manager.targets(child).len() ==> has_heard(
                    after,
                    PendingRefresh { child, state, target: #[trigger] manager.targets(child)[k] },
                )
        }),
{
    lemma_report_arrives_stepwise(manager, child, state, steps);
    let items = pending_refreshes(child, state, manager.targets(child));
    let end = manager.propagation(child, state).run(steps);
    assert forall|k: int| 0 <= k < manager.targets(child).len() implies has_heard(
        end.manager,
        PendingRefresh { child, state, target: #[trigger] manager.targets(child)[k] },
    ) by {
        assert(items[k] == (PendingRefresh { child, state, target: manager.targets(child)[k] }));
    }
}

} // verus!
