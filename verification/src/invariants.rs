//! What every step keeps.
use crate::agents::covers;
use crate::ancestry::{Invalidation, Propagation};
use crate::events::EventMsg;
use crate::keyed::lemma_position;
use crate::lineage::{top_generation, tops, RetainedManagerView};
use crate::live::{empty_live, following, larger, newest, pending_position, LiveView, PendingView};
use crate::protocol::{
    AgentStatusView, ConnectionId, SpawnProgressView, TaskProgressView, ThreadId, TreeUpdateView,
};
use crate::retained::RetainedView;
use crate::routes::ManagerView;
use crate::state::StateView;
use crate::turns::TurnReportView;
use vstd::prelude::*;

verus! {

/// The pending cards of a thread belong to different turns and stand in the order in which their
/// turns ended, under tokens that were given out. Tokens are new until there are no more.
pub open spec fn live_ok(thread: LiveView) -> bool {
    &&& forall|i: int, j: int|
        0 <= i < j < thread.pending.len() ==> (#[trigger] thread.pending[i]).turn_id != (
        #[trigger] thread.pending[j]).turn_id
    &&& forall|i: int, j: int|
        0 <= i < j < thread.pending.len() ==> (#[trigger] thread.pending[i]).order < (
        #[trigger] thread.pending[j]).order || thread.pending[j].order == u64::MAX
    &&& forall|i: int|
        0 <= i < thread.pending.len() ==> (#[trigger] thread.pending[i]).order
            <= thread.next_turn_order
    &&& thread.terminal_order <= thread.next_turn_order
}

/// The newest pending card is the one whose turn ended last.
proof fn lemma_newest_is_last(pending: Seq<PendingView>)
    requires
        pending.len() > 0,
        forall|i: int, j: int|
            0 <= i < j < pending.len() ==> (#[trigger] pending[i]).order < (
            #[trigger] pending[j]).order || pending[j].order == u64::MAX,
    ensures
        newest(pending) == pending.len() - 1,
    decreases pending.len(),
{
    if pending.len() > 1 {
        let rest = pending.drop_last();
        assert forall|i: int, j: int| 0 <= i < j < rest.len() implies (#[trigger] rest[i]).order < (
        #[trigger] rest[j]).order || rest[j].order == u64::MAX by {
            assert(rest[i] == pending[i] && rest[j] == pending[j]);
        }
        lemma_newest_is_last(rest);
        assert(rest[rest.len() - 1] == pending[pending.len() - 2]);
        assert(pending[pending.len() - 2].order < pending[pending.len() - 1].order
            || pending[pending.len() - 1].order == u64::MAX);
    }
}

/// A thread starts sound, and no event, report, completion, rollback or change of listeners makes it
/// unsound.
pub proof fn lemma_live_threads_stay_sound(
    thread: LiveView,
    turn_id: Seq<char>,
    event: EventMsg,
    report: TurnReportView,
    snapshot: TreeUpdateView,
    progress: SpawnProgressView,
    child: ThreadId,
    generation: u64,
    state: StateView,
    terminal: AgentStatusView,
    at: int,
    now: i64,
)
    requires
        live_ok(thread),
    ensures
        live_ok(empty_live()),
        live_ok(thread.without_cards()),
        live_ok(thread.with_event(turn_id, event, report)),
        live_ok(thread.observed(turn_id, event)),
        live_ok(thread.with_snapshot(snapshot, now)),
        live_ok(thread.with_progress(progress, now)),
        live_ok(thread.with_agent(child, generation, state)),
        live_ok(thread.without_agent(child, generation)),
        live_ok(thread.ended(terminal)),
        thread.can_complete(turn_id) ==> live_ok(thread.completing(turn_id)),
        0 <= at < thread.pending.len() ==> live_ok(thread.finalized(at, now)),
{
    if thread.can_complete(turn_id) {
        let after = thread.completing(turn_id);
        let n = thread.pending.len();
        assert forall|i: int, j: int| 0 <= i < j < after.pending.len() implies (
        #[trigger] after.pending[i]).turn_id != (#[trigger] after.pending[j]).turn_id by {
            assert(after.pending[i] == thread.pending[i]);
            if j < n {
                assert(after.pending[j] == thread.pending[j]);
            }
        }
        assert forall|i: int, j: int| 0 <= i < j < after.pending.len() implies (
        #[trigger] after.pending[i]).order < (#[trigger] after.pending[j]).order
            || after.pending[j].order == u64::MAX by {
            assert(after.pending[i] == thread.pending[i]);
            if j < n {
                assert(after.pending[j] == thread.pending[j]);
            }
        }
        assert forall|i: int| 0 <= i < after.pending.len() implies (
        #[trigger] after.pending[i]).order <= after.next_turn_order by {
            if i < n {
                assert(after.pending[i] == thread.pending[i]);
            }
        }
    }
    if 0 <= at < thread.pending.len() {
        let after = thread.finalized(at, now);
        assert forall|i: int| 0 <= i < after.pending.len() implies #[trigger] after.pending[i]
            == thread.pending[if i < at {
            i
        } else {
            i + 1
        }] by {}
        assert(thread.pending[at].order <= thread.next_turn_order);
    }
}

/// A connection that mounts a card leaves the thread sound. Of the pending cards it mounts the one
/// whose turn ended last.
pub proof fn lemma_mounting_keeps_a_thread_sound(thread: LiveView, connection_id: ConnectionId)
    requires
        live_ok(thread),
        thread.pending.len() > 0,
    ensures
        newest(thread.pending) == thread.pending.len() - 1,
        ({
            let at = newest(thread.pending);
            live_ok(
                LiveView {
                    pending: thread.pending.update(
                        at,
                        PendingView {
                            mounted: thread.pending[at].mounted.insert(connection_id),
                            ..thread.pending[at]
                        },
                    ),
                    ..thread
                },
            )
        }),
{
    lemma_newest_is_last(thread.pending);
}

/// The token of a completion is above every other, as long as there is one to give, and its turn is
/// not completed again before it is done.
pub proof fn lemma_completion_token_is_new(thread: LiveView, turn_id: Seq<char>)
    requires
        live_ok(thread),
    ensures
        thread.next_turn_order < u64::MAX ==> forall|i: int|
            0 <= i < thread.pending.len() ==> (#[trigger] thread.pending[i]).order < following(
                thread.next_turn_order,
            ),
        !thread.completing(turn_id).can_complete(turn_id),
{
}

/// A token completes its card once.
pub proof fn lemma_token_completes_once(
    thread: LiveView,
    turn_id: Seq<char>,
    token: u64,
    now: i64,
)
    requires
        live_ok(thread),
        pending_position(thread.pending, turn_id, token) < thread.pending.len(),
    ensures
        ({
            let at = pending_position(thread.pending, turn_id, token);
            let after = thread.finalized(at, now);
            pending_position(after.pending, turn_id, token) == after.pending.len()
        }),
{
    let p = |c: PendingView| c.turn_id == turn_id && c.order == token;
    lemma_position(thread.pending, p);
    let at = pending_position(thread.pending, turn_id, token);
    let after = thread.finalized(at, now);
    lemma_position(after.pending, p);
    assert forall|i: int| 0 <= i < after.pending.len() implies !p(#[trigger] after.pending[i]) by {
        let k = if i < at {
            i
        } else {
            i + 1
        };
        assert(after.pending[i] == thread.pending[k]);
        if k < at {
            assert(thread.pending[k].turn_id != thread.pending[at].turn_id);
        } else {
            assert(thread.pending[at].turn_id != thread.pending[k].turn_id);
        }
    }
}

/// The routes of live cards: both ends are known, every generation was given out, and no two routes
/// share one, until there are no more. The same holds of the states that threads have had.
pub open spec fn routes_ok(manager: ManagerView) -> bool {
    &&& forall|c: ThreadId| #[trigger]
        manager.routes.contains_key(c) ==> manager.threads.contains_key(c)
            && manager.threads.contains_key(manager.routes[c].parent_thread_id)
            && manager.routes[c].generation <= manager.next_route_generation
    &&& forall|c: ThreadId, d: ThreadId|
        #![trigger manager.routes.contains_key(c), manager.routes.contains_key(d)]
        manager.routes.contains_key(c) && manager.routes.contains_key(d) && c != d
            ==> manager.routes[c].generation != manager.routes[d].generation
            || manager.routes[c].generation == u64::MAX
    &&& forall|t: ThreadId| #[trigger]
        manager.threads.contains_key(t) ==> live_ok(manager.threads[t].thread) && (
        manager.threads[t].instance < manager.next_instance || manager.next_instance == u64::MAX)
    &&& forall|t: ThreadId, u: ThreadId|
        #![trigger manager.threads.contains_key(t), manager.threads.contains_key(u)]
        manager.threads.contains_key(t) && manager.threads.contains_key(u) && t != u
            ==> manager.threads[t].instance != manager.threads[u].instance || manager.next_instance
            == u64::MAX
}

proof fn lemma_knowing_keeps_routes(manager: ManagerView, thread_id: ThreadId)
    requires
        routes_ok(manager),
    ensures
        routes_ok(manager.knowing(thread_id)),
{
    let after = manager.knowing(thread_id);
    assert forall|c: ThreadId| #[trigger] after.routes.contains_key(c) implies after.threads.contains_key(
        c,
    ) && after.threads.contains_key(after.routes[c].parent_thread_id) && after.routes[c].generation
        <= after.next_route_generation by {
        assert(manager.routes.contains_key(c));
    }
    assert forall|t: ThreadId| #[trigger] after.threads.contains_key(t) implies live_ok(
        after.threads[t].thread,
    ) && (after.threads[t].instance < after.next_instance || after.next_instance == u64::MAX) by {
        if t != thread_id {
            assert(manager.threads.contains_key(t));
        }
    }
    assert forall|t: ThreadId, u: ThreadId|
        #![trigger after.threads.contains_key(t), after.threads.contains_key(u)]
        after.threads.contains_key(t) && after.threads.contains_key(u) && t
            != u implies after.threads[t].instance != after.threads[u].instance
        || after.next_instance == u64::MAX by {
        if t != thread_id {
            assert(manager.threads.contains_key(t));
        }
        if u != thread_id {
            assert(manager.threads.contains_key(u));
        }
    }
}

proof fn lemma_routing_keeps_routes(
    manager: ManagerView,
    tasks: Seq<TaskProgressView>,
    parent: ThreadId,
    turn_id: Seq<char>,
    listener_generation: u64,
    baseline: Set<Seq<char>>,
)
    requires
        routes_ok(manager),
        manager.threads.contains_key(parent),
    ensures
        routes_ok(manager.with_routes(tasks, parent, turn_id, listener_generation, baseline)),
        manager.with_routes(
            tasks,
            parent,
            turn_id,
            listener_generation,
            baseline,
        ).threads.contains_key(parent),
    decreases tasks.len(),
{
    if tasks.len() > 0 {
        let rest = tasks.drop_last();
        lemma_routing_keeps_routes(manager, rest, parent, turn_id, listener_generation, baseline);
        let before = manager.with_routes(rest, parent, turn_id, listener_generation, baseline);
        lemma_knowing_keeps_routes(before, tasks.last().thread_id);
    }
}

proof fn lemma_queues_keep_routes(manager: ManagerView, children: Seq<ThreadId>)
    requires
        routes_ok(manager),
    ensures
        routes_ok(manager.after_queues(children)),
    decreases children.len(),
{
    if children.len() > 0 {
        lemma_queues_keep_routes(manager, children.drop_last());
    }
}

/// A manager starts sound, and stays sound whatever becomes known, is queued, delivered, started or
/// ended.
pub proof fn lemma_routes_stay_sound(
    manager: ManagerView,
    thread_id: ThreadId,
    thread: LiveView,
    parent: ThreadId,
    turn_id: Seq<char>,
    listener_generation: u64,
    generation: u64,
    revision: u64,
)
    requires
        routes_ok(manager),
        live_ok(thread),
    ensures
        routes_ok(
            ManagerView {
                threads: Map::empty(),
                routes: Map::empty(),
                next_route_generation: 0,
                next_instance: 0,
                listeners: Set::empty(),
            },
        ),
        routes_ok(manager.knowing(thread_id)),
        manager.threads.contains_key(thread_id) ==> routes_ok(
            manager.with_thread(thread_id, thread),
        ),
        routes_ok(manager.after_queue(thread_id)),
        routes_ok(manager.with_turn_started(thread_id, listener_generation, turn_id)),
        routes_ok(manager.delivered(thread_id, parent, turn_id, generation, revision)),
        routes_ok(manager.acknowledged(thread_id, listener_generation, turn_id)),
        routes_ok(manager.without_turn_routes(parent, turn_id, listener_generation)),
        routes_ok(manager.without_routes(thread_id)),
        routes_ok(
            ManagerView {
                threads: manager.threads.remove(thread_id),
                ..manager.without_routes(thread_id)
            },
        ),
        routes_ok(ManagerView { routes: Map::empty(), ..manager }),
{
    lemma_knowing_keeps_routes(manager, thread_id);
}

/// A manager stays sound when spawned children get routes and their cards are queued.
pub proof fn lemma_spawns_keep_routes_sound(
    manager: ManagerView,
    parent: ThreadId,
    listener_generation: u64,
    turn_id: Seq<char>,
    progress: SpawnProgressView,
)
    requires
        routes_ok(manager),
    ensures
        ({
            let routed = manager.routed(parent, listener_generation, turn_id, progress);
            let children = manager.routed_children(parent, listener_generation, turn_id, progress);
            routes_ok(routed) && routes_ok(routed.after_queues(children))
        }),
{
    lemma_knowing_keeps_routes(manager, parent);
    let known = manager.knowing(parent);
    if manager.takes_spawn(parent, listener_generation, turn_id) {
        lemma_routing_keeps_routes(
            known,
            progress.tasks,
            parent,
            turn_id,
            listener_generation,
            known.threads[parent].thread.baseline(turn_id)->0,
        );
    }
    lemma_queues_keep_routes(
        manager.routed(parent, listener_generation, turn_id, progress),
        manager.routed_children(parent, listener_generation, turn_id, progress),
    );
}

/// A manager stays sound when a listener is replaced or a thread's routes are cleared.
pub proof fn lemma_replaced_listeners_keep_routes_sound(
    manager: ManagerView,
    thread_id: ThreadId,
    listener_generation: u64,
)
    requires
        routes_ok(manager),
    ensures
        routes_ok(manager.with_listener_generation(thread_id, listener_generation)),
        routes_ok(manager.cleared(thread_id)),
{
    lemma_knowing_keeps_routes(manager, thread_id);
    let fresh = manager.relistened(thread_id, listener_generation);
    assert(routes_ok(fresh)) by {
        let known = manager.knowing(thread_id);
        assert forall|t: ThreadId| #[trigger] fresh.threads.contains_key(t) implies live_ok(
            fresh.threads[t].thread,
        ) && (fresh.threads[t].instance < fresh.next_instance || fresh.next_instance
            == u64::MAX) by {
            assert(known.threads.contains_key(t));
        }
        assert forall|c: ThreadId| #[trigger] fresh.routes.contains_key(c) implies fresh.threads.contains_key(
            c,
        ) && fresh.threads.contains_key(fresh.routes[c].parent_thread_id)
            && fresh.routes[c].generation <= fresh.next_route_generation by {
            assert(known.routes.contains_key(c));
        }
    }
    let base = manager.unrouted(thread_id);
    assert(routes_ok(base));
    if fresh.routes.contains_key(thread_id) {
        let renewed = fresh.renewed(thread_id);
        assert(routes_ok(renewed)) by {
            assert forall|c: ThreadId| #[trigger] renewed.routes.contains_key(
                c,
            ) implies renewed.threads.contains_key(c) && renewed.threads.contains_key(
                renewed.routes[c].parent_thread_id,
            ) && renewed.routes[c].generation <= renewed.next_route_generation by {
                assert(fresh.routes.contains_key(c));
            }
        }
    }
}

/// The routes and lineages of retained cards: the threads that they lead to are known, every
/// generation was given out, no two routes share one until there are no more, nothing that was
/// invalidated is in use, and a route that has timed out knows when.
pub open spec fn lineage_ok(manager: RetainedManagerView) -> bool {
    &&& forall|c: ThreadId| #[trigger]
        manager.routes.contains_key(c) ==> {
            let route = manager.routes[c];
            &&& manager.threads.contains_key(c)
            &&& manager.threads.contains_key(route.parent_thread_id)
            &&& route.generation <= manager.next_route_generation
            &&& !covers(manager.invalidated, c, route.generation) || route.generation == u64::MAX
            &&& route.terminal is TimedOut ==> route.timed_out_at is Some
        }
    &&& forall|c: ThreadId, d: ThreadId|
        #![trigger manager.routes.contains_key(c), manager.routes.contains_key(d)]
        manager.routes.contains_key(c) && manager.routes.contains_key(d) && c != d
            ==> manager.routes[c].generation != manager.routes[d].generation
            || manager.routes[c].generation == u64::MAX
    &&& forall|c: ThreadId| #[trigger]
        manager.lineages.contains_key(c) ==> manager.threads.contains_key(
            manager.lineages[c].parent_thread_id,
        ) && manager.lineages[c].generation <= manager.next_route_generation && !covers(
            manager.invalidated,
            c,
            manager.lineages[c].generation,
        )
    &&& forall|c: ThreadId| #[trigger]
        manager.invalidated.contains_key(c) ==> manager.invalidated[c]
            <= manager.next_route_generation
}

/// A manager starts sound, and stays sound whatever becomes known, starts, ends or times out.
pub proof fn lemma_lineages_stay_sound(
    manager: RetainedManagerView,
    thread_id: ThreadId,
    thread: RetainedView,
    parent: ThreadId,
    turn_id: Seq<char>,
    listener_generation: u64,
    generation: u64,
    now: u64,
)
    requires
        lineage_ok(manager),
    ensures
        lineage_ok(
            RetainedManagerView {
                threads: Map::empty(),
                routes: Map::empty(),
                lineages: Map::empty(),
                invalidated: Map::empty(),
                next_route_generation: 0,
                listeners: Set::empty(),
            },
        ),
        lineage_ok(manager.knowing(thread_id)),
        manager.threads.contains_key(thread_id) ==> lineage_ok(
            manager.with_thread(thread_id, thread),
        ),
        lineage_ok(manager.with_listener_generation(thread_id, listener_generation)),
        lineage_ok(manager.with_turn_started(thread_id, listener_generation)),
        lineage_ok(manager.acknowledged(thread_id, listener_generation, turn_id, now)),
        lineage_ok(manager.timed_out(thread_id, parent, turn_id, generation, now)),
        lineage_ok(manager.late_completed(thread_id, parent, turn_id, generation)),
        lineage_ok(manager.without_expired(parent, now)),
        lineage_ok(manager.without_turn_routes(parent, turn_id)),
        lineage_ok(manager.cut(thread_id)),
        lineage_ok(manager.isolated(thread_id)),
        lineage_ok(manager.without_thread(thread_id)),
        lineage_ok(manager.shut_down()),
{
    lemma_edges_of(manager, thread_id);
}

/// The generations of a thread's edges were given out.
proof fn lemma_edges_of(manager: RetainedManagerView, thread_id: ThreadId)
    requires
        lineage_ok(manager),
    ensures
        manager.edges(thread_id).len() <= 2,
        forall|k: int|
            0 <= k < manager.edges(thread_id).len() ==> (#[trigger] manager.edges(
                thread_id,
            )[k]).generation <= manager.next_route_generation,
{
}

proof fn lemma_routing_keeps_lineages(
    manager: RetainedManagerView,
    tasks: Seq<TaskProgressView>,
    parent: ThreadId,
    turn_id: Seq<char>,
    baseline: Set<Seq<char>>,
)
    requires
        lineage_ok(manager),
        manager.threads.contains_key(parent),
    ensures
        lineage_ok(manager.with_routes(tasks, parent, turn_id, baseline)),
        manager.with_routes(tasks, parent, turn_id, baseline).threads.contains_key(parent),
    decreases tasks.len(),
{
    if tasks.len() > 0 {
        lemma_routing_keeps_lineages(manager, tasks.drop_last(), parent, turn_id, baseline);
    }
}

/// Some value of a finite map is the largest.
pub proof fn lemma_some_generation_is_the_top(generations: Map<ThreadId, u64>)
    requires
        generations.dom().finite(),
    ensures
        exists|n: u64| tops(generations, n),
    decreases generations.dom().len(),
{
    if generations.dom().len() == 0 {
        assert(generations.dom() =~= Set::empty());
        assert forall|t: ThreadId| #[trigger] generations.contains_key(t) implies generations[t]
            <= 0 by {
            assert(generations.dom().contains(t));
        }
        assert(tops(generations, 0));
    } else {
        let t = generations.dom().choose();
        let rest = generations.remove(t);
        lemma_some_generation_is_the_top(rest);
        let n = choose|n: u64| tops(rest, n);
        let top = larger(n, generations[t]);
        assert forall|u: ThreadId| #[trigger] generations.contains_key(u) implies generations[u]
            <= top by {
            if u != t {
                assert(rest.contains_key(u));
            }
        }
        if top > 0 {
            if top == generations[t] {
                assert(generations.contains_key(t));
            } else {
                let u = choose|u: ThreadId| #[trigger] rest.contains_key(u) && rest[u] == n;
                assert(generations.contains_key(u) && generations[u] == top);
            }
        }
        assert(tops(generations, top));
    }
}

/// A manager stays sound when spawned children get routes and when a stored card comes back.
pub proof fn lemma_spawns_and_stored_cards_keep_lineages_sound(
    manager: RetainedManagerView,
    parent: ThreadId,
    turn_id: Seq<char>,
    progress: SpawnProgressView,
    state: StateView,
)
    requires
        lineage_ok(manager),
        state.mentioned().dom().finite(),
    ensures
        lineage_ok(manager.with_spawn(parent, turn_id, progress)),
        lineage_ok(manager.with_restored(parent, turn_id, state)),
{
    let known = manager.knowing(parent);
    let thread = known.threads[parent].thread;
    lemma_routing_keeps_lineages(
        known,
        progress.tasks,
        parent,
        turn_id,
        crate::live::snapshot_ids(thread.active.snapshot),
    );
    lemma_some_generation_is_the_top(state.mentioned());
    assert(tops(state.mentioned(), top_generation(state.mentioned())));
}

/// A manager stays sound while a change or an invalidation goes up to the ancestors.
pub proof fn lemma_ancestors_keep_lineages_sound(
    propagation: Propagation,
    invalidation: Invalidation,
    steps: nat,
)
    requires
        lineage_ok(propagation.manager),
        lineage_ok(invalidation.manager),
    ensures
        lineage_ok(propagation.run(steps).manager),
        lineage_ok(invalidation.run(steps).manager),
    decreases steps,
{
    if steps > 0 {
        let n = (steps - 1) as nat;
        lemma_ancestors_keep_lineages_sound(propagation, invalidation, n);
        let before = invalidation.run(n);
        if before.pending.len() > 0 {
            let parent = before.pending[0].parent;
            if before.manager.threads.contains_key(parent) {
                let edge = before.pending[0];
                let live = before.manager.threads[parent].thread.without_agent(
                    edge.child,
                    edge.generation,
                );
                let after = before.manager.with_thread(
                    parent,
                    live.restored_without(edge.child, edge.generation),
                );
                assert(lineage_ok(after));
                lemma_edges_of(after, parent);
                assert(lineage_ok(after.cut(parent)));
            }
        }
    }
}

} // verus!
