//! What the routes and lineages of retained cards do, seen from outside.
use crate::agent_laws::{lemma_projection_keeps_the_rest, same_rest};
use crate::barrier::{BarrierView, EndView, WaitedView};
use crate::invariants::lemma_some_generation_is_the_top;
use crate::lineage::{
    projected_option, top_generation, tops, RetainedManagerView, RetainedRouteView,
    RetainedSentView, TIMED_OUT_ROUTE_RETENTION_MS,
};
use crate::protocol::{NodeView, SpawnProgressView, TaskProgressView, ThreadId};
use crate::snapshot_laws::in_order;
use crate::state::StateView;
use vstd::prelude::*;

verus! {

/// Whether a card is what a parent is shown of a child's own one: the same card, whose tree has
/// exactly the nodes outside the parent's baseline, in their order.
pub open spec fn is_excerpt(own: StateView, shown: StateView, baseline: Set<Seq<char>>) -> bool {
    &&& same_rest(own, shown)
    &&& shown.snapshot is Some == own.snapshot is Some
    &&& own.snapshot matches Some(tree) ==> {
        let part = shown.snapshot->0;
        &&& part.snapshot_seq == tree.snapshot_seq
        &&& in_order(part.nodes, tree.nodes)
        &&& forall|n: NodeView| #[trigger]
            part.nodes.contains(n) == (tree.nodes.contains(n) && !baseline.contains(n.node_id))
        &&& forall|i: int|
            0 <= i < part.nodes.len() ==> !baseline.contains((#[trigger] part.nodes[i]).node_id)
    }
    &&& shown.spawn_calls.len() == own.spawn_calls.len()
    &&& forall|i: int|
        0 <= i < own.spawn_calls.len() ==> (#[trigger] shown.spawn_calls[i]).call_id
            == own.spawn_calls[i].call_id && shown.spawn_calls[i].tasks
            == own.spawn_calls[i].tasks
}

/// Whether a state that may be missing is what a parent is shown of a child's own one.
pub open spec fn may_be_excerpt(
    own: Option<StateView>,
    shown: Option<StateView>,
    baseline: Set<Seq<char>>,
) -> bool {
    &&& own is Some == shown is Some
    &&& own is Some ==> is_excerpt(own->0, shown->0, baseline)
}

/// What is left of a child's card under a baseline is what a parent is shown of it.
pub proof fn lemma_excerpt(own: Option<StateView>, baseline: Set<Seq<char>>)
    ensures
        may_be_excerpt(own, projected_option(own, baseline), baseline),
        own is Some ==> is_excerpt(own->0, own->0.projected(baseline), baseline),
{
    if let Some(s) = own {
        lemma_projection_keeps_the_rest(s, baseline);
        let after = s.projected(baseline);
        if let Some(tree) = s.snapshot {
            let part = after.snapshot->0;
            assert forall|i: int| 0 <= i < part.nodes.len() implies !baseline.contains(
                (#[trigger] part.nodes[i]).node_id,
            ) by {
                assert(part.nodes.contains(part.nodes[i]));
            }
        }
    }
}

/// The card of a thread: that of the thread itself, where it is known.
pub open spec fn own_card(m: RetainedManagerView, thread_id: ThreadId) -> Option<StateView> {
    if m.threads.contains_key(thread_id) {
        m.threads[thread_id].thread.forwarded()
    } else {
        None
    }
}

/// Whether two routes differ in how they stand alone.
pub open spec fn same_way(a: RetainedRouteView, b: RetainedRouteView) -> bool {
    a.parent_thread_id == b.parent_thread_id && a.parent_turn_id == b.parent_turn_id && a.baseline
        == b.baseline && a.generation == b.generation
}

/// Whether nothing but a thread's entry and its route differs between two managers.
pub open spec fn same_but(
    a: RetainedManagerView,
    b: RetainedManagerView,
    thread_id: ThreadId,
) -> bool {
    &&& a.lineages == b.lineages
    &&& a.invalidated == b.invalidated
    &&& a.next_route_generation == b.next_route_generation
    &&& a.listeners == b.listeners
    &&& forall|t: ThreadId|
        t != thread_id ==> #[trigger] a.threads.contains_key(t) == b.threads.contains_key(t)
    &&& forall|t: ThreadId|
        t != thread_id && #[trigger] a.threads.contains_key(t) ==> a.threads[t] == b.threads[t]
    &&& forall|t: ThreadId|
        t != thread_id ==> #[trigger] a.routes.contains_key(t) == b.routes.contains_key(t)
    &&& forall|t: ThreadId|
        t != thread_id && #[trigger] a.routes.contains_key(t) ==> a.routes[t] == b.routes[t]
}

/// A thread that becomes known has no card, no listener and no end; what is known stays.
pub proof fn lemma_new_thread_is_empty(m: RetainedManagerView, thread_id: ThreadId)
    ensures
        ({
            let after = m.knowing(thread_id);
            &&& after.threads.contains_key(thread_id)
            &&& m.threads.contains_key(thread_id) ==> after == m
            &&& same_but(m, after, thread_id)
            &&& after.routes == m.routes
            &&& !m.threads.contains_key(thread_id) ==> {
                let entry = after.threads[thread_id];
                &&& entry.listener_generation == 0
                &&& entry.terminal_ack is None
                &&& entry.thread.forwarded() is None
                &&& entry.thread.active.agents.len() == 0 && entry.thread.active.snapshot is None
                &&& entry.thread.carry.agents.len() == 0 && entry.thread.carry.snapshot is None
                &&& entry.thread.last_completed.agents.len() == 0
                    && entry.thread.last_completed.snapshot is None
                &&& entry.thread.restored.len() == 0
                &&& entry.thread.active_turn_id is None
                &&& entry.thread.last_completed_turn_id is None
                &&& entry.thread.last_terminal_turn_id is None
                &&& !entry.thread.turns.has_active_turn
            }
        }),
{
}

/// The end of a child's turn counts where the child's listener is the current one, no turn runs and
/// the turn is the last one that ended. The child's route is then settled with exactly what the
/// parent is to be shown of the child's card, without the nodes that the parent shows itself; the
/// child's own card is kept for routes to come. A wait for a late end starts anew. Nothing else
/// changes.
pub proof fn lemma_end_settles_the_route(
    m: RetainedManagerView,
    child: ThreadId,
    listener_generation: u64,
    turn_id: Seq<char>,
    now: u64,
)
    ensures
        ({
            let after = m.acknowledged(child, listener_generation, turn_id, now);
            let entry = m.threads[child];
            let counts = m.threads.contains_key(child) && entry.listener_generation
                == listener_generation && entry.thread.listener_generation == listener_generation
                && !entry.thread.turns.has_active_turn && entry.thread.last_terminal_turn_id
                == Some(turn_id);
            &&& !counts ==> after == m
            &&& same_but(m, after, child)
            &&& counts ==> {
                &&& after.threads.contains_key(child)
                &&& after.threads[child].thread == entry.thread
                &&& after.threads[child].listener_generation == entry.listener_generation
                &&& after.threads[child].terminal_ack is Some
                &&& after.threads[child].terminal_ack->0.listener_generation
                    == listener_generation
                &&& after.threads[child].terminal_ack->0.state == own_card(m, child)
                &&& after.routes.contains_key(child) == m.routes.contains_key(child)
            }
            &&& counts && m.routes.contains_key(child) ==> {
                let was = m.routes[child];
                let is = after.routes[child];
                &&& same_way(was, is)
                &&& is.terminal is Settled
                &&& may_be_excerpt(own_card(m, child), is.terminal->Settled_0, was.baseline)
                &&& was.timed_out_at is None ==> is.timed_out_at is None
                &&& was.timed_out_at is Some ==> is.timed_out_at == Some(now)
            }
        }),
{
    lemma_excerpt(own_card(m, child), m.routes[child].baseline);
}

/// A child's late end goes to its parent's listener, over the route that waits for it, as the final
/// state that the parent is to be shown. Only an end that counts, over a route that waits, to a
/// parent that listens, is sent.
pub proof fn lemma_late_end_is_sent(
    m: RetainedManagerView,
    child: ThreadId,
    listener_generation: u64,
    turn_id: Seq<char>,
)
    ensures
        ({
            let sent = m.late_final(child, listener_generation, turn_id);
            let route = m.routes[child];
            &&& sent is Some == (m.acknowledges(child, listener_generation, turn_id)
                && m.routes.contains_key(child) && route.timed_out_at is Some
                && m.listeners.contains(route.parent_thread_id))
            &&& sent matches Some(s) ==> {
                &&& s.to == route.parent_thread_id
                &&& s.command is ForwardSpineUiAgentState
                &&& s.command->child_thread_id == child
                &&& s.command->parent_turn_id == route.parent_turn_id
                &&& s.command->generation == route.generation
                &&& s.command->terminal
                &&& may_be_excerpt(own_card(m, child), s.command->state, route.baseline)
            }
        }),
        ({
            let entry = m.threads[child];
            m.acknowledges(child, listener_generation, turn_id) == (m.threads.contains_key(child)
                && entry.listener_generation == listener_generation
                && entry.thread.listener_generation == listener_generation
                && !entry.thread.turns.has_active_turn && entry.thread.last_terminal_turn_id
                == Some(turn_id))
        }),
{
    lemma_excerpt(own_card(m, child), m.routes[child].baseline);
}

/// A running child's card goes to its parent's listener, over its route, as the parent is to be shown
/// it and not as final. It is sent where the child has a route and a card and the parent listens.
pub proof fn lemma_running_card_is_sent(m: RetainedManagerView, child: ThreadId)
    ensures
        ({
            let sent = m.queued(child);
            let route = m.routes[child];
            &&& sent is Some == (m.routes.contains_key(child) && own_card(m, child) is Some
                && m.listeners.contains(route.parent_thread_id))
            &&& sent matches Some(s) ==> {
                &&& s.to == route.parent_thread_id
                &&& s.command is ForwardSpineUiAgentState
                &&& s.command->child_thread_id == child
                &&& s.command->parent_turn_id == route.parent_turn_id
                &&& s.command->generation == route.generation
                &&& !s.command->terminal
                &&& may_be_excerpt(own_card(m, child), s.command->state, route.baseline)
            }
        }),
{
    lemma_excerpt(own_card(m, child), m.routes[child].baseline);
}

/// The cards of some tasks are sent one by one, in the order of the tasks: as many as have something
/// to send.
pub proof fn lemma_task_cards_are_sent_in_order(
    m: RetainedManagerView,
    tasks: Seq<TaskProgressView>,
    task: TaskProgressView,
)
    ensures
        m.queues(Seq::empty()) == Seq::<RetainedSentView>::empty(),
        m.queued(task.thread_id) is Some ==> m.queues(tasks.push(task)) == m.queues(tasks).push(
            m.queued(task.thread_id)->0,
        ),
        m.queued(task.thread_id) is None ==> m.queues(tasks.push(task)) == m.queues(tasks),
{
    assert(tasks.push(task).drop_last() =~= tasks);
}

/// A spawned child gets a route to the turn that spawned it. One that leads there already stays as it
/// is. A new one has a newer generation than every route before, the nodes that the parent shows as
/// its baseline, and waits; but where the child's last turn has ended under its current listener, it
/// is settled at once with what the parent is to be shown of that end.
pub proof fn lemma_spawned_child_has_a_route(
    m: RetainedManagerView,
    child: ThreadId,
    parent: ThreadId,
    turn_id: Seq<char>,
    baseline: Set<Seq<char>>,
)
    ensures
        ({
            let after = m.with_route(child, parent, turn_id, baseline);
            let known = m.routes.contains_key(child) && m.routes[child].parent_thread_id == parent
                && m.routes[child].parent_turn_id == turn_id;
            let route = after.routes[child];
            let ended = m.threads.contains_key(child) && m.threads[child].terminal_ack is Some
                && m.threads[child].terminal_ack->0.listener_generation
                == m.threads[child].listener_generation;
            &&& after.threads == m.knowing(child).threads
            &&& after.lineages == m.lineages && after.invalidated == m.invalidated
                && after.listeners == m.listeners
            &&& after.routes.contains_key(child)
            &&& forall|c: ThreadId|
                c != child ==> #[trigger] after.routes.contains_key(c) == m.routes.contains_key(c)
                    && after.routes[c] == m.routes[c]
            &&& route.parent_thread_id == parent
            &&& route.parent_turn_id == turn_id
            &&& known ==> after.routes == m.routes && after.next_route_generation
                == m.next_route_generation
            &&& !known ==> {
                &&& route.baseline == baseline
                &&& route.generation == after.next_route_generation
                &&& m.next_route_generation < u64::MAX ==> route.generation
                    == m.next_route_generation + 1
                &&& route.timed_out_at is None
                &&& !ended ==> route.terminal is Pending
                &&& ended ==> route.terminal is Settled && may_be_excerpt(
                    m.threads[child].terminal_ack->0.state,
                    route.terminal->Settled_0,
                    baseline,
                )
            }
        }),
{
    if m.threads.contains_key(child) && m.threads[child].terminal_ack is Some {
        lemma_excerpt(m.threads[child].terminal_ack->0.state, baseline);
    }
}

/// Progress of a running turn that shows a card gives every task's thread a route to the turn, whose
/// baseline, where the route is new, are the nodes that the card shows. Threads without a task keep
/// theirs, and so do all threads where the turn shows no card.
pub proof fn lemma_progress_makes_routes(
    m: RetainedManagerView,
    parent: ThreadId,
    turn_id: Seq<char>,
    progress: SpawnProgressView,
    child: ThreadId,
)
    requires
        m.threads.contains_key(parent),
    ensures
        ({
            let after = m.with_spawn(parent, turn_id, progress);
            let thread = m.threads[parent].thread;
            let shows = thread.turns.runs(turn_id) && thread.active_turn_id == Some(turn_id);
            let tasked = exists|k: int|
                0 <= k < progress.tasks.len() && (#[trigger] progress.tasks[k]).thread_id == child;
            let led = m.routes.contains_key(child) && m.routes[child].parent_thread_id == parent
                && m.routes[child].parent_turn_id == turn_id;
            &&& !shows ==> after == m
            &&& after.lineages == m.lineages && after.invalidated == m.invalidated
                && after.listeners == m.listeners
            &&& !tasked || led ==> after.routes.contains_key(child) == m.routes.contains_key(child)
                && after.routes[child] == m.routes[child]
            &&& shows && tasked ==> after.routes.contains_key(child)
                && after.routes[child].parent_thread_id == parent
                && after.routes[child].parent_turn_id == turn_id
            &&& shows && tasked && !led ==> {
                let route = after.routes[child];
                &&& route.generation > m.next_route_generation || route.generation == u64::MAX
                &&& forall|id: Seq<char>| #[trigger]
                    route.baseline.contains(id) == (thread.active.snapshot is Some && exists|i: int|
                        0 <= i < thread.active.snapshot->0.nodes.len() && (
                        #[trigger] thread.active.snapshot->0.nodes[i]).node_id == id)
                &&& route.timed_out_at is None
            }
        }),
{
    let thread = m.threads[parent].thread;
    let baseline = crate::live::snapshot_ids(thread.active.snapshot);
    lemma_routes_of_tasks(m, progress.tasks, parent, turn_id, baseline, child);
}

proof fn lemma_routes_of_tasks(
    m: RetainedManagerView,
    tasks: Seq<TaskProgressView>,
    parent: ThreadId,
    turn_id: Seq<char>,
    baseline: Set<Seq<char>>,
    child: ThreadId,
)
    ensures
        ({
            let after = m.with_routes(tasks, parent, turn_id, baseline);
            let tasked = exists|k: int|
                0 <= k < tasks.len() && (#[trigger] tasks[k]).thread_id == child;
            let led = m.leads_to(child, parent, turn_id);
            &&& after.lineages == m.lineages && after.invalidated == m.invalidated
                && after.listeners == m.listeners
            &&& after.next_route_generation >= m.next_route_generation
            &&& !tasked || led ==> after.routes.contains_key(child) == m.routes.contains_key(child)
                && after.routes[child] == m.routes[child]
            &&& tasked ==> after.leads_to(child, parent, turn_id)
            &&& tasked && !led ==> {
                let route = after.routes[child];
                &&& route.generation > m.next_route_generation || route.generation == u64::MAX
                &&& route.baseline == baseline
                &&& route.timed_out_at is None
            }
        }),
    decreases tasks.len(),
{
    if tasks.len() > 0 {
        let rest = tasks.drop_last();
        lemma_routes_of_tasks(m, rest, parent, turn_id, baseline, child);
        let before = m.with_routes(rest, parent, turn_id, baseline);
        lemma_spawned_child_has_a_route(
            before,
            tasks.last().thread_id,
            parent,
            turn_id,
            baseline,
        );
        let tasked = exists|k: int|
            0 <= k < tasks.len() && (#[trigger] tasks[k]).thread_id == child;
        let earlier = exists|k: int|
            0 <= k < rest.len() && (#[trigger] rest[k]).thread_id == child;
        if earlier {
            let k = choose|k: int| 0 <= k < rest.len() && (#[trigger] rest[k]).thread_id == child;
            assert(tasks[k].thread_id == child);
        }
        if tasked && !earlier {
            let k = choose|k: int| 0 <= k < tasks.len() && (#[trigger] tasks[k]).thread_id == child;
            if k < rest.len() {
                assert(rest[k].thread_id == child);
            }
            assert(tasks.last().thread_id == child);
        }
        if !tasked {
            assert(tasks[tasks.len() - 1].thread_id != child);
        }
    }
}

/// A thread with another listener starts over: its last end is forgotten and its route waits again.
/// The same listener changes nothing. A turn that starts under the current listener does the same.
pub proof fn lemma_new_listener_waits_again(
    m: RetainedManagerView,
    thread_id: ThreadId,
    listener_generation: u64,
)
    requires
        m.threads.contains_key(thread_id),
    ensures
        ({
            let after = m.with_listener_generation(thread_id, listener_generation);
            let same = m.threads[thread_id].listener_generation == listener_generation;
            &&& same ==> after == m
            &&& same_but(m, after, thread_id)
            &&& after.threads.contains_key(thread_id)
            &&& after.threads[thread_id].listener_generation == listener_generation
            &&& after.threads[thread_id].thread == m.threads[thread_id].thread
            &&& !same ==> after.threads[thread_id].terminal_ack is None
            &&& after.routes.contains_key(thread_id) == m.routes.contains_key(thread_id)
            &&& m.routes.contains_key(thread_id) && !same ==> same_way(
                m.routes[thread_id],
                after.routes[thread_id],
            ) && after.routes[thread_id].terminal is Pending && after.routes[thread_id].timed_out_at
                == m.routes[thread_id].timed_out_at
        }),
        ({
            let after = m.with_turn_started(thread_id, listener_generation);
            let current = m.threads[thread_id].listener_generation == listener_generation;
            &&& !current ==> after == m
            &&& same_but(m, after, thread_id)
            &&& current ==> after.threads[thread_id].terminal_ack is None
                && after.threads[thread_id].thread == m.threads[thread_id].thread
                && after.threads[thread_id].listener_generation == listener_generation
            &&& after.routes.contains_key(thread_id) == m.routes.contains_key(thread_id)
            &&& m.routes.contains_key(thread_id) && current ==> same_way(
                m.routes[thread_id],
                after.routes[thread_id],
            ) && after.routes[thread_id].terminal is Pending && after.routes[thread_id].timed_out_at
                == m.routes[thread_id].timed_out_at
        }),
{
}

/// A command or a wait over a route counts while the child's route leads to the same turn of the same
/// parent under the same generation; it then stands as the route does, else as gone.
pub proof fn lemma_only_the_current_route_counts(
    m: RetainedManagerView,
    child: ThreadId,
    parent: ThreadId,
    turn_id: Seq<char>,
    generation: u64,
)
    ensures
        ({
            let current = m.routes.contains_key(child) && m.routes[child].parent_thread_id
                == parent && m.routes[child].parent_turn_id == turn_id
                && m.routes[child].generation == generation;
            &&& m.route_is_current(child, parent, turn_id, generation) == current
            &&& current ==> m.route_terminal(child, parent, turn_id, generation)
                == m.routes[child].terminal
            &&& !current ==> m.route_terminal(child, parent, turn_id, generation) is Invalidated
        }),
{
}

/// A wait that is over leaves a current route that still waits as timed out, since then. A late end
/// that arrived ends the wait of a current route that is settled. Any other route stays as it is,
/// and nothing else changes.
pub proof fn lemma_waits_end(
    m: RetainedManagerView,
    child: ThreadId,
    parent: ThreadId,
    turn_id: Seq<char>,
    generation: u64,
    now: u64,
)
    ensures
        ({
            let after = m.timed_out(child, parent, turn_id, generation, now);
            let waits = m.routes.contains_key(child) && m.routes[child].parent_thread_id == parent
                && m.routes[child].parent_turn_id == turn_id && m.routes[child].generation
                == generation && m.routes[child].terminal is Pending;
            &&& !waits ==> after == m
            &&& same_but(m, after, child) && after.threads == m.threads
            &&& waits ==> after.routes.contains_key(child) && same_way(
                m.routes[child],
                after.routes[child],
            ) && after.routes[child].terminal is TimedOut && after.routes[child].timed_out_at
                == Some(now)
        }),
        ({
            let after = m.late_completed(child, parent, turn_id, generation);
            let settled = m.routes.contains_key(child) && m.routes[child].parent_thread_id == parent
                && m.routes[child].parent_turn_id == turn_id && m.routes[child].generation
                == generation && m.routes[child].terminal is Settled;
            &&& !settled ==> after == m
            &&& same_but(m, after, child) && after.threads == m.threads
            &&& settled ==> after.routes.contains_key(child) && same_way(
                m.routes[child],
                after.routes[child],
            ) && after.routes[child].terminal == m.routes[child].terminal
                && after.routes[child].timed_out_at is None
        }),
{
}

/// A route to a parent that has waited for a late end for the whole retention goes; every other route
/// stays. A parent awaits late ends while a route to it waits for one.
pub proof fn lemma_waits_expire(
    m: RetainedManagerView,
    parent: ThreadId,
    child: ThreadId,
    now: u64,
)
    ensures
        ({
            let after = m.without_expired(parent, now);
            let route = m.routes[child];
            let over = route.parent_thread_id == parent && route.timed_out_at is Some && now
                >= route.timed_out_at->0 && now - route.timed_out_at->0
                >= TIMED_OUT_ROUTE_RETENTION_MS;
            &&& after.routes.contains_key(child) == (m.routes.contains_key(child) && !over)
            &&& after.routes.contains_key(child) ==> after.routes[child] == route
            &&& after.threads == m.threads && after.lineages == m.lineages && after.invalidated
                == m.invalidated && after.listeners == m.listeners
                && after.next_route_generation == m.next_route_generation
            &&& m.routes.contains_key(child) && route.parent_thread_id == parent
                && route.timed_out_at is Some ==> m.awaits_late(parent)
            &&& m.awaits_late(parent) ==> exists|c: ThreadId| #[trigger]
                m.routes.contains_key(c) && m.routes[c].parent_thread_id == parent
                    && m.routes[c].timed_out_at is Some
        }),
{
}

/// Whether the end of the wait for a child is what its route gave: the settled state of a current
/// route; else, of one that is current, what the parent is to be shown of the child's card as it is;
/// nothing of a route that is gone.
pub open spec fn ends_as(
    m: RetainedManagerView,
    parent: ThreadId,
    turn_id: Seq<char>,
    waited: WaitedView,
    end: EndView,
) -> bool {
    let current = m.routes.contains_key(waited.child) && m.routes[waited.child].parent_thread_id
        == parent && m.routes[waited.child].parent_turn_id == turn_id
        && m.routes[waited.child].generation == waited.generation && !(
    m.routes[waited.child].terminal is Invalidated);
    &&& end.child == waited.child
    &&& end.generation == waited.generation
    &&& !current ==> end.state is None
    &&& current && m.routes[waited.child].terminal is Settled ==> end.state
        == m.routes[waited.child].terminal->Settled_0
    &&& current && !(m.routes[waited.child].terminal is Settled) ==> may_be_excerpt(
        own_card(m, waited.child),
        end.state,
        waited.baseline,
    )
}

/// Whether a child's end did not come: its route is current and neither settled nor gone.
pub open spec fn is_late(
    m: RetainedManagerView,
    parent: ThreadId,
    turn_id: Seq<char>,
    waited: WaitedView,
) -> bool {
    &&& m.routes.contains_key(waited.child)
    &&& m.routes[waited.child].parent_thread_id == parent
    &&& m.routes[waited.child].parent_turn_id == turn_id
    &&& m.routes[waited.child].generation == waited.generation
    &&& m.routes[waited.child].terminal is Pending || m.routes[waited.child].terminal is TimedOut
}

/// Whether no child is waited for twice.
pub open spec fn waits_once(waiting: Seq<WaitedView>) -> bool {
    forall|i: int, j: int|
        0 <= i < j < waiting.len() ==> (#[trigger] waiting[i]).child != (
        #[trigger] waiting[j]).child
}

/// The wait of a turn takes its children in order. Each that it is done with is entered once, with
/// the end that its route gave, after those before it; it is reported as late exactly where its end
/// did not come, and its route is then timed out. The wait stops at the first child whose end may
/// still come, and only there, unless the time is over.
pub proof fn lemma_wait_collects_the_ends(
    barrier: BarrierView,
    m: RetainedManagerView,
    time_over: bool,
    now: u64,
)
    requires
        waits_once(barrier.waiting),
    ensures
        ({
            let (after, left) = barrier.advanced(m, time_over, now);
            let done = barrier.waiting.len() - after.waiting.len();
            &&& after.parent == barrier.parent && after.turn_id == barrier.turn_id
            &&& 0 <= done
            &&& after.waiting == barrier.waiting.skip(done)
            &&& after.states.len() == barrier.states.len() + done
            &&& forall|k: int|
                0 <= k < barrier.states.len() ==> #[trigger] after.states[k] == barrier.states[k]
            &&& forall|k: int|
                #![trigger barrier.waiting[k]]
                0 <= k < done ==> ends_as(
                    m,
                    barrier.parent,
                    barrier.turn_id,
                    barrier.waiting[k],
                    after.states[barrier.states.len() + k],
                )
            &&& forall|k: int|
                #![trigger barrier.waiting[k]]
                0 <= k < done && is_late(m, barrier.parent, barrier.turn_id, barrier.waiting[k])
                    ==> after.timed_out.contains(
                    (barrier.waiting[k].child, barrier.waiting[k].generation),
                )
            &&& forall|late: (ThreadId, u64)| #[trigger]
                after.timed_out.contains(late) ==> barrier.timed_out.contains(late) || exists|
                    k: int,
                |
                    #![trigger barrier.waiting[k]]
                    0 <= k < done && is_late(
                        m,
                        barrier.parent,
                        barrier.turn_id,
                        barrier.waiting[k],
                    ) && late == (barrier.waiting[k].child, barrier.waiting[k].generation)
            &&& forall|late: (ThreadId, u64)|
                barrier.timed_out.contains(late) ==> #[trigger] after.timed_out.contains(late)
            &&& time_over ==> after.waiting.len() == 0
            &&& after.waiting.len() > 0 ==> is_late(
                m,
                barrier.parent,
                barrier.turn_id,
                after.waiting[0],
            ) && m.routes[after.waiting[0].child].terminal is Pending
            &&& left.threads == m.threads
            &&& forall|c: ThreadId|
                (forall|k: int| 0 <= k < done ==> (#[trigger] barrier.waiting[k]).child != c)
                    ==> #[trigger] left.routes.contains_key(c) == m.routes.contains_key(c) && (
                m.routes.contains_key(c) ==> left.routes[c] == m.routes[c])
        }),
    decreases barrier.waiting.len(),
{
    if barrier.waiting.len() > 0 && !barrier.blocked(m, time_over) {
        let first = barrier.waiting[0];
        let next = barrier.past_first(m);
        let later = barrier.manager_past_first(m, now);
        lemma_only_the_current_route_counts(
            m,
            first.child,
            barrier.parent,
            barrier.turn_id,
            first.generation,
        );
        lemma_waits_end(m, first.child, barrier.parent, barrier.turn_id, first.generation, now);
        lemma_excerpt(own_card(m, first.child), first.baseline);
        let (after, left) = barrier.advanced(m, time_over, now);
        let done = barrier.waiting.len() - after.waiting.len();
        assert forall|k: int| 0 <= k < next.waiting.len() implies #[trigger] next.waiting[k]
            == barrier.waiting[k + 1] by {}
        assert(waits_once(next.waiting)) by {
            assert forall|i: int, j: int| 0 <= i < j < next.waiting.len() implies (
            #[trigger] next.waiting[i]).child != (#[trigger] next.waiting[j]).child by {
                assert(barrier.waiting[i + 1].child != barrier.waiting[j + 1].child);
            }
        }
        lemma_wait_collects_the_ends(next, later, time_over, now);
        assert forall|k: int| 1 <= k < barrier.waiting.len() implies (
        #[trigger] barrier.waiting[k]).child != first.child by {
            assert(barrier.waiting[0].child != barrier.waiting[k].child);
        }
        let rest = done - 1;
        assert(next.waiting.skip(rest) =~= barrier.waiting.skip(done));
        assert(ends_as(m, barrier.parent, barrier.turn_id, first, next.states.last()));
        assert forall|k: int|
            #![trigger barrier.waiting[k]]
            0 <= k < done implies ends_as(
            m,
            barrier.parent,
            barrier.turn_id,
            barrier.waiting[k],
            after.states[barrier.states.len() + k],
        ) by {
            if k == 0 {
                assert(after.states[barrier.states.len() as int]
                    == next.states[barrier.states.len() as int]);
            } else {
                assert(next.waiting[k - 1] == barrier.waiting[k]);
                assert(after.states[next.states.len() + (k - 1)] == after.states[barrier.states.len()
                    + k]);
            }
        }
        assert forall|k: int| 0 <= k < barrier.states.len() implies #[trigger] after.states[k]
            == barrier.states[k] by {
            assert(after.states[k] == next.states[k]);
        }
        let late_first = (first.child, first.generation);
        if is_late(m, barrier.parent, barrier.turn_id, first) {
            assert(next.timed_out.last() == late_first);
            assert(next.timed_out.contains(late_first));
        }
        assert forall|late: (ThreadId, u64)| barrier.timed_out.contains(late) implies #[trigger]
            after.timed_out.contains(late) by {
            let k = choose|k: int|
                0 <= k < barrier.timed_out.len() && barrier.timed_out[k] == late;
            assert(next.timed_out[k] == late);
            assert(next.timed_out.contains(late));
        }
        assert forall|k: int|
            #![trigger barrier.waiting[k]]
            0 <= k < done && is_late(
                m,
                barrier.parent,
                barrier.turn_id,
                barrier.waiting[k],
            ) implies after.timed_out.contains(
            (barrier.waiting[k].child, barrier.waiting[k].generation),
        ) by {
            if k > 0 {
                assert(next.waiting[k - 1] == barrier.waiting[k]);
            }
        }
        assert forall|late: (ThreadId, u64)| #[trigger]
            after.timed_out.contains(late) implies barrier.timed_out.contains(late) || exists|
            k: int,
        |
            #![trigger barrier.waiting[k]]
            0 <= k < done && is_late(m, barrier.parent, barrier.turn_id, barrier.waiting[k])
                && late == (barrier.waiting[k].child, barrier.waiting[k].generation) by {
            if next.timed_out.contains(late) {
                if !barrier.timed_out.contains(late) {
                    let k = choose|k: int|
                        0 <= k < next.timed_out.len() && next.timed_out[k] == late;
                    if k < barrier.timed_out.len() {
                        assert(barrier.timed_out[k] == late);
                    }
                    assert(late == late_first);
                    assert(barrier.waiting[0] == first);
                }
            } else {
                let k = choose|k: int|
                    #![trigger next.waiting[k]]
                    0 <= k < rest && is_late(
                        later,
                        barrier.parent,
                        barrier.turn_id,
                        next.waiting[k],
                    ) && late == (next.waiting[k].child, next.waiting[k].generation);
                assert(barrier.waiting[k + 1] == next.waiting[k]);
            }
        }
        assert forall|c: ThreadId|
            (forall|k: int| 0 <= k < done ==> (#[trigger] barrier.waiting[k]).child
                != c) implies #[trigger] left.routes.contains_key(c) == m.routes.contains_key(c) && (
        m.routes.contains_key(c) ==> left.routes[c] == m.routes[c]) by {
            assert(barrier.waiting[0].child != c);
            assert forall|k: int| 0 <= k < rest implies (#[trigger] next.waiting[k]).child != c by {
                assert(barrier.waiting[k + 1].child != c);
            }
            assert(later.routes.contains_key(c) == m.routes.contains_key(c));
        }
    } else {
        assert(barrier.waiting.skip(0) =~= barrier.waiting);
        if barrier.waiting.len() > 0 {
            lemma_only_the_current_route_counts(
                m,
                barrier.waiting[0].child,
                barrier.parent,
                barrier.turn_id,
                barrier.waiting[0].generation,
            );
        }
    }
}

/// Whether no settled route brings its parent a node that the parent shows itself.
pub open spec fn nothing_is_shown_twice(m: RetainedManagerView) -> bool {
    forall|c: ThreadId|
        #![trigger m.routes.contains_key(c)]
        m.routes.contains_key(c) && m.routes[c].terminal is Settled
            && m.routes[c].terminal->Settled_0 is Some
            && m.routes[c].terminal->Settled_0->0.snapshot is Some ==> new_nodes_only(
            m.routes[c].terminal->Settled_0->0.snapshot->0.nodes,
            m.routes[c].baseline,
        )
}

/// Whether no node of a list is in a baseline.
pub open spec fn new_nodes_only(nodes: Seq<NodeView>, baseline: Set<Seq<char>>) -> bool {
    forall|i: int| 0 <= i < nodes.len() ==> !baseline.contains((#[trigger] nodes[i]).node_id)
}

/// No parent is shown its own nodes a second time inside a child's card: no route ever settles with
/// one, whatever ends, spawns, listeners, turns and waits do to it.
pub proof fn lemma_nothing_is_shown_twice(
    m: RetainedManagerView,
    child: ThreadId,
    parent: ThreadId,
    turn_id: Seq<char>,
    baseline: Set<Seq<char>>,
    generation: u64,
    now: u64,
)
    requires
        nothing_is_shown_twice(m),
    ensures
        nothing_is_shown_twice(m.knowing(child)),
        nothing_is_shown_twice(m.acknowledged(child, generation, turn_id, now)),
        nothing_is_shown_twice(m.with_route(child, parent, turn_id, baseline)),
        nothing_is_shown_twice(m.with_listener_generation(child, generation)),
        nothing_is_shown_twice(m.with_turn_started(child, generation)),
        nothing_is_shown_twice(m.timed_out(child, parent, turn_id, generation, now)),
        nothing_is_shown_twice(m.late_completed(child, parent, turn_id, generation)),
        nothing_is_shown_twice(m.without_expired(parent, now)),
        nothing_is_shown_twice(m.without_turn_routes(parent, turn_id)),
        nothing_is_shown_twice(m.cut(child)),
        nothing_is_shown_twice(m.isolated(child)),
        nothing_is_shown_twice(m.without_thread(child)),
        nothing_is_shown_twice(m.shut_down()),
{
    lemma_end_settles_the_route(m, child, generation, turn_id, now);
    lemma_spawned_child_has_a_route(m, child, parent, turn_id, baseline);
    let ended = m.acknowledged(child, generation, turn_id, now);
    assert forall|c: ThreadId|
        #![trigger ended.routes.contains_key(c)]
        ended.routes.contains_key(c) && ended.routes[c].terminal is Settled
            && ended.routes[c].terminal->Settled_0 is Some
            && ended.routes[c].terminal->Settled_0->0.snapshot is Some implies new_nodes_only(
        ended.routes[c].terminal->Settled_0->0.snapshot->0.nodes,
        ended.routes[c].baseline,
    ) by {
        assert(m.routes.contains_key(c));
    }
    let routed = m.with_route(child, parent, turn_id, baseline);
    assert forall|c: ThreadId|
        #![trigger routed.routes.contains_key(c)]
        routed.routes.contains_key(c) && routed.routes[c].terminal is Settled
            && routed.routes[c].terminal->Settled_0 is Some
            && routed.routes[c].terminal->Settled_0->0.snapshot is Some implies new_nodes_only(
        routed.routes[c].terminal->Settled_0->0.snapshot->0.nodes,
        routed.routes[c].baseline,
    ) by {
        if c != child {
            assert(m.routes.contains_key(c));
        } else if routed.routes == m.routes {
            assert(m.routes.contains_key(c));
        }
    }
    assert(m.routes.contains_key(child) ==> nothing_is_shown_twice(m.rewaiting(child))) by {
        let again = m.rewaiting(child);
        assert forall|c: ThreadId|
            #![trigger again.routes.contains_key(c)]
            again.routes.contains_key(c) && again.routes[c].terminal is Settled implies
            m.routes.contains_key(c) by {}
    }
    let listened = m.with_listener_generation(child, generation);
    assert forall|c: ThreadId| #[trigger] listened.routes.contains_key(c) implies m.routes.contains_key(
        c,
    ) && (listened.routes[c] == m.routes[c] || !(listened.routes[c].terminal is Settled)) by {}
    let started = m.with_turn_started(child, generation);
    assert forall|c: ThreadId| #[trigger] started.routes.contains_key(c) implies m.routes.contains_key(
        c,
    ) && (started.routes[c] == m.routes[c] || !(started.routes[c].terminal is Settled)) by {}
    let over = m.timed_out(child, parent, turn_id, generation, now);
    assert forall|c: ThreadId| #[trigger] over.routes.contains_key(c) implies m.routes.contains_key(
        c,
    ) && (over.routes[c] == m.routes[c] || !(over.routes[c].terminal is Settled)) by {}
    let done = m.late_completed(child, parent, turn_id, generation);
    assert forall|c: ThreadId| #[trigger] done.routes.contains_key(c) implies m.routes.contains_key(
        c,
    ) && done.routes[c].terminal == m.routes[c].terminal && done.routes[c].baseline
        == m.routes[c].baseline by {}
    let pruned = m.without_expired(parent, now);
    assert forall|c: ThreadId| #[trigger] pruned.routes.contains_key(c) implies m.routes.contains_key(
        c,
    ) && pruned.routes[c] == m.routes[c] by {}
    let ended_turn = m.without_turn_routes(parent, turn_id);
    assert forall|c: ThreadId| #[trigger] ended_turn.routes.contains_key(c) implies
        m.routes.contains_key(c) && ended_turn.routes[c] == m.routes[c] by {}
    let cut = m.cut(child);
    assert forall|c: ThreadId| #[trigger] cut.routes.contains_key(c) implies m.routes.contains_key(c)
        && cut.routes[c] == m.routes[c] by {}
    let alone = m.isolated(child);
    assert forall|c: ThreadId| #[trigger] alone.routes.contains_key(c) implies m.routes.contains_key(
        c,
    ) && alone.routes[c] == m.routes[c] by {}
    let gone = m.without_thread(child);
    assert forall|c: ThreadId| #[trigger] gone.routes.contains_key(c) implies m.routes.contains_key(
        c,
    ) && gone.routes[c] == m.routes[c] by {}
}

/// The wait of a turn collects no card that shows its parent's own nodes: neither of a child that
/// ended in time nor of one that is late.
pub proof fn lemma_collected_cards_are_new(
    barrier: BarrierView,
    m: RetainedManagerView,
    time_over: bool,
    now: u64,
    k: int,
)
    requires
        waits_once(barrier.waiting),
        nothing_is_shown_twice(m),
        forall|i: int|
            0 <= i < barrier.waiting.len() && m.routes.contains_key(
                (#[trigger] barrier.waiting[i]).child,
            ) && m.routes[barrier.waiting[i].child].generation == barrier.waiting[i].generation
                ==> m.routes[barrier.waiting[i].child].baseline == barrier.waiting[i].baseline,
        0 <= k < barrier.waiting.len() - barrier.advanced(m, time_over, now).0.waiting.len(),
    ensures
        ({
            let end = barrier.advanced(m, time_over, now).0.states[barrier.states.len() + k];
            &&& end.child == barrier.waiting[k].child
            &&& end.state is Some && end.state->0.snapshot is Some ==> new_nodes_only(
                end.state->0.snapshot->0.nodes,
                barrier.waiting[k].baseline,
            )
        }),
{
    lemma_wait_collects_the_ends(barrier, m, time_over, now);
    let waited = barrier.waiting[k];
    let end = barrier.advanced(m, time_over, now).0.states[barrier.states.len() + k];
    assert(ends_as(m, barrier.parent, barrier.turn_id, waited, end));
    if m.routes.contains_key(waited.child) {
        assert(m.routes.contains_key(waited.child));
    }
}

/// The end of a turn takes the routes to it that do not wait for a late end, and no others. A child
/// that the parent's next card starts with, under the generation of its route and not invalidated
/// since, gets a lineage along that route; a lineage to the parent whose child is no longer shown so
/// goes; every other lineage stays.
pub proof fn lemma_turn_end_turns_routes_into_lineages(
    m: RetainedManagerView,
    parent: ThreadId,
    turn_id: Seq<char>,
    child: ThreadId,
)
    ensures
        ({
            let after = m.without_turn_routes(parent, turn_id);
            let route = m.routes[child];
            let goes = m.routes.contains_key(child) && route.parent_thread_id == parent
                && route.parent_turn_id == turn_id && route.timed_out_at is None;
            let shown = |generation: u64|
                m.threads.contains_key(parent)
                    && m.threads[parent].thread.carry.mentioned().contains_key(child)
                    && m.threads[parent].thread.carry.mentioned()[child] == generation && !(
                m.invalidated.contains_key(child) && m.invalidated[child] >= generation);
            &&& after.routes.contains_key(child) == (m.routes.contains_key(child) && !goes)
            &&& after.routes.contains_key(child) ==> after.routes[child] == route
            &&& goes && shown(route.generation) ==> after.lineages.contains_key(child)
                && after.lineages[child].parent_thread_id == parent
                && after.lineages[child].generation == route.generation
                && after.lineages[child].baseline == route.baseline
            &&& !(goes && shown(route.generation)) ==> (after.lineages.contains_key(child) == (
            m.lineages.contains_key(child) && (m.lineages[child].parent_thread_id != parent
                || shown(m.lineages[child].generation)))) && (after.lineages.contains_key(child)
                ==> after.lineages[child] == m.lineages[child])
            &&& after.threads == m.threads && after.invalidated == m.invalidated
                && after.listeners == m.listeners && after.next_route_generation
                == m.next_route_generation
        }),
{
}

/// A child's card goes along its route and along its lineage, each parent and generation once, with
/// the baseline that goes with it.
pub proof fn lemma_cards_go_to_every_parent(m: RetainedManagerView, child: ThreadId)
    ensures
        ({
            let targets = m.targets(child);
            let routed = m.routes.contains_key(child);
            let lined = m.lineages.contains_key(child);
            let route = m.routes[child];
            let lineage = m.lineages[child];
            let same = route.parent_thread_id == lineage.parent_thread_id && route.generation
                == lineage.generation;
            &&& targets.len() == (if routed {
                1int
            } else {
                0
            }) + (if lined && !(routed && same) {
                1int
            } else {
                0
            })
            &&& routed ==> targets[0].parent == route.parent_thread_id && targets[0].generation
                == route.generation && targets[0].baseline == route.baseline
            &&& lined && !(routed && same) ==> targets.last().parent == lineage.parent_thread_id
                && targets.last().generation == lineage.generation && targets.last().baseline
                == lineage.baseline
            &&& m.edges(child).len() == targets.len()
            &&& forall|k: int|
                0 <= k < targets.len() ==> (#[trigger] m.edges(child)[k]).child == child
                    && m.edges(child)[k].parent == targets[k].parent && m.edges(child)[k].generation
                    == targets[k].generation
        }),
{
}

/// A cut child has neither route nor lineage, and the generations of both are invalidated for good.
/// Every other child keeps what it has.
pub proof fn lemma_cut_takes_both_ways(
    m: RetainedManagerView,
    child: ThreadId,
    other: ThreadId,
    k: int,
)
    requires
        other != child,
    ensures
        ({
            let after = m.cut(child);
            &&& !after.routes.contains_key(child)
            &&& !after.lineages.contains_key(child)
            &&& 0 <= k < m.edges(child).len() ==> after.invalidated.contains_key(child)
                && after.invalidated[child] >= m.edges(child)[k].generation
            &&& m.invalidated.contains_key(child) ==> after.invalidated.contains_key(child)
                && after.invalidated[child] >= m.invalidated[child]
            &&& m.edges(child).len() == 0 ==> after.invalidated == m.invalidated
            &&& after.invalidated.contains_key(child) ==> (m.invalidated.contains_key(child)
                && after.invalidated[child] == m.invalidated[child]) || exists|j: int|
                0 <= j < m.edges(child).len() && after.invalidated[child] == (
                #[trigger] m.edges(child)[j]).generation
            &&& after.routes.contains_key(other) == m.routes.contains_key(other)
            &&& after.routes.contains_key(other) ==> after.routes[other] == m.routes[other]
            &&& after.lineages.contains_key(other) == m.lineages.contains_key(other)
            &&& after.lineages.contains_key(other) ==> after.lineages[other] == m.lineages[other]
            &&& after.invalidated.contains_key(other) == m.invalidated.contains_key(other)
            &&& after.invalidated.contains_key(other) ==> after.invalidated[other]
                == m.invalidated[other]
            &&& after.threads == m.threads && after.listeners == m.listeners
                && after.next_route_generation == m.next_route_generation
        }),
{
    let edges = m.edges(child);
    if edges.len() > 0 {
        assert(edges[0].generation == edges[0].generation);
        if edges.len() > 1 {
            assert(edges[1].generation == edges[1].generation);
        }
    }
}

/// An isolated thread is at neither end of a route or a lineage, and its last end is forgotten. A
/// removed thread is unknown besides. Every other route, lineage and thread stays.
pub proof fn lemma_isolation_and_removal(
    m: RetainedManagerView,
    thread_id: ThreadId,
    child: ThreadId,
)
    ensures
        ({
            let after = m.isolated(thread_id);
            let touched = child == thread_id || m.routes[child].parent_thread_id == thread_id;
            let lined = child == thread_id || m.lineages[child].parent_thread_id == thread_id;
            &&& after.routes.contains_key(child) == (m.routes.contains_key(child) && !touched)
            &&& after.routes.contains_key(child) ==> after.routes[child] == m.routes[child]
            &&& after.lineages.contains_key(child) == (m.lineages.contains_key(child) && !lined)
            &&& after.lineages.contains_key(child) ==> after.lineages[child] == m.lineages[child]
            &&& after.threads.contains_key(child) == m.threads.contains_key(child)
            &&& after.threads.contains_key(child) ==> after.threads[child].thread
                == m.threads[child].thread && after.threads[child].listener_generation
                == m.threads[child].listener_generation
            &&& after.threads.contains_key(thread_id) ==> after.threads[thread_id].terminal_ack
                is None
            &&& child != thread_id && after.threads.contains_key(child) ==> after.threads[child]
                == m.threads[child]
            &&& after.listeners == m.listeners && after.next_route_generation
                == m.next_route_generation
        }),
        ({
            let after = m.without_thread(thread_id);
            let touched = child == thread_id || m.routes[child].parent_thread_id == thread_id;
            let lined = child == thread_id || m.lineages[child].parent_thread_id == thread_id;
            &&& after.routes.contains_key(child) == (m.routes.contains_key(child) && !touched)
            &&& after.routes.contains_key(child) ==> after.routes[child] == m.routes[child]
            &&& after.lineages.contains_key(child) == (m.lineages.contains_key(child) && !lined)
            &&& after.lineages.contains_key(child) ==> after.lineages[child] == m.lineages[child]
            &&& after.threads.contains_key(child) == (m.threads.contains_key(child) && child
                != thread_id)
            &&& after.threads.contains_key(child) ==> after.threads[child] == m.threads[child]
            &&& after.invalidated.contains_key(child) == (m.invalidated.contains_key(child)
                && child != thread_id)
            &&& after.invalidated.contains_key(child) ==> after.invalidated[child]
                == m.invalidated[child]
            &&& after.listeners.contains(child) == (m.listeners.contains(child) && child
                != thread_id)
            &&& after.next_route_generation == m.next_route_generation
        }),
{
}

/// A shutdown leaves every thread with its cards and without a turn, and no listener, route or
/// lineage of a known thread.
pub proof fn lemma_shutdown_keeps_the_cards(m: RetainedManagerView, thread_id: ThreadId)
    ensures
        ({
            let after = m.shut_down();
            &&& !after.routes.contains_key(thread_id)
            &&& !after.lineages.contains_key(thread_id)
            &&& !after.invalidated.contains_key(thread_id)
            &&& after.threads.contains_key(thread_id) == m.threads.contains_key(thread_id)
            &&& after.listeners.contains(thread_id) == (m.listeners.contains(thread_id)
                && !m.threads.contains_key(thread_id))
            &&& after.next_route_generation == m.next_route_generation
            &&& m.threads.contains_key(thread_id) ==> {
                let was = m.threads[thread_id];
                let is = after.threads[thread_id];
                &&& is.listener_generation == was.listener_generation
                &&& is.terminal_ack == was.terminal_ack
                &&& is.thread.active == was.thread.active
                &&& is.thread.active_turn_id == was.thread.active_turn_id
                &&& is.thread.carry == was.thread.carry
                &&& is.thread.last_completed == was.thread.last_completed
                &&& is.thread.last_completed_turn_id == was.thread.last_completed_turn_id
                &&& is.thread.restored == was.thread.restored
                &&& is.thread.next_revision == was.thread.next_revision
                &&& is.thread.turns.latest is None
                &&& is.thread.turns.has_active_turn == false
            }
        }),
{
}

/// A stored card that is back gives every child that it mentions a lineage to its parent, under the
/// generation of the mention, unless that was invalidated or the child has one at least as new.
/// Generations to come are newer than every one that it mentions.
pub proof fn lemma_stored_card_brings_lineages(
    m: RetainedManagerView,
    parent: ThreadId,
    turn_id: Seq<char>,
    state: StateView,
    child: ThreadId,
)
    requires
        state.mentioned().dom().finite(),
    ensures
        ({
            let after = m.with_restored(parent, turn_id, state);
            let named = state.mentioned();
            let news = named.contains_key(child) && !(m.invalidated.contains_key(child)
                && m.invalidated[child] >= named[child]) && !(m.lineages.contains_key(child)
                && m.lineages[child].generation >= named[child]);
            &&& news ==> after.lineages.contains_key(child)
                && after.lineages[child].parent_thread_id == parent
                && after.lineages[child].generation == named[child] && forall|id: Seq<char>|
                !(#[trigger] after.lineages[child].baseline.contains(id))
            &&& !news ==> after.lineages.contains_key(child) == m.lineages.contains_key(child)
                && (after.lineages.contains_key(child) ==> after.lineages[child]
                == m.lineages[child])
            &&& named.contains_key(child) ==> after.next_route_generation >= named[child]
            &&& after.next_route_generation >= m.next_route_generation
            &&& after.next_route_generation == m.next_route_generation || exists|c: ThreadId|
                #[trigger]
                named.contains_key(c) && named[c] == after.next_route_generation
            &&& after.routes == m.routes && after.invalidated == m.invalidated && after.listeners
                == m.listeners
            &&& after.threads.contains_key(parent) && after.threads[parent].thread == m.knowing(
                parent,
            ).threads[parent].thread.with_restored(turn_id, state)
            &&& child != parent ==> after.threads.contains_key(child) == m.threads.contains_key(
                child,
            ) && (m.threads.contains_key(child) ==> after.threads[child] == m.threads[child])
        }),
{
    lemma_some_generation_is_the_top(state.mentioned());
    assert(tops(state.mentioned(), top_generation(state.mentioned())));
}

/// Whether a route is what a wait that was over left of it: timed out since then where it was current
/// and still waited, else as it was.
pub open spec fn is_waited_out(
    m: RetainedManagerView,
    left: RetainedManagerView,
    parent: ThreadId,
    turn_id: Seq<char>,
    waited: WaitedView,
    now: u64,
) -> bool {
    let was = m.routes[waited.child];
    let is = left.routes[waited.child];
    let waits = m.routes.contains_key(waited.child) && was.parent_thread_id == parent
        && was.parent_turn_id == turn_id && was.generation == waited.generation
        && was.terminal is Pending;
    &&& left.routes.contains_key(waited.child) == m.routes.contains_key(waited.child)
    &&& waits ==> same_way(was, is) && is.terminal is TimedOut && is.timed_out_at == Some(now)
    &&& !waits && m.routes.contains_key(waited.child) ==> is == was
}

/// The wait of a turn times out exactly the routes of the children that it is done with and that still
/// waited; nothing else of the threads, routes and lineages changes.
pub proof fn lemma_wait_times_routes_out(
    barrier: BarrierView,
    m: RetainedManagerView,
    time_over: bool,
    now: u64,
)
    requires
        waits_once(barrier.waiting),
    ensures
        ({
            let (after, left) = barrier.advanced(m, time_over, now);
            let done = barrier.waiting.len() - after.waiting.len();
            &&& forall|k: int|
                #![trigger barrier.waiting[k]]
                0 <= k < done ==> is_waited_out(
                    m,
                    left,
                    barrier.parent,
                    barrier.turn_id,
                    barrier.waiting[k],
                    now,
                )
            &&& left.lineages == m.lineages && left.invalidated == m.invalidated && left.listeners
                == m.listeners && left.next_route_generation == m.next_route_generation
        }),
    decreases barrier.waiting.len(),
{
    if barrier.waiting.len() > 0 && !barrier.blocked(m, time_over) {
        let first = barrier.waiting[0];
        let next = barrier.past_first(m);
        let later = barrier.manager_past_first(m, now);
        lemma_waits_end(m, first.child, barrier.parent, barrier.turn_id, first.generation, now);
        assert forall|k: int| 0 <= k < next.waiting.len() implies #[trigger] next.waiting[k]
            == barrier.waiting[k + 1] by {}
        assert(waits_once(next.waiting)) by {
            assert forall|i: int, j: int| 0 <= i < j < next.waiting.len() implies (
            #[trigger] next.waiting[i]).child != (#[trigger] next.waiting[j]).child by {
                assert(barrier.waiting[i + 1].child != barrier.waiting[j + 1].child);
            }
        }
        lemma_wait_times_routes_out(next, later, time_over, now);
        lemma_wait_collects_the_ends(next, later, time_over, now);
        lemma_wait_collects_the_ends(barrier, m, time_over, now);
        let (after, left) = barrier.advanced(m, time_over, now);
        let done = barrier.waiting.len() - after.waiting.len();
        assert forall|k: int| 1 <= k < barrier.waiting.len() implies (
        #[trigger] barrier.waiting[k]).child != first.child by {
            assert(barrier.waiting[0].child != barrier.waiting[k].child);
        }
        assert forall|k: int|
            #![trigger barrier.waiting[k]]
            0 <= k < done implies is_waited_out(
            m,
            left,
            barrier.parent,
            barrier.turn_id,
            barrier.waiting[k],
            now,
        ) by {
            if k == 0 {
                assert forall|j: int| 0 <= j < done - 1 implies (#[trigger] next.waiting[j]).child
                    != first.child by {
                    assert(barrier.waiting[j + 1].child != first.child);
                }
                assert(left.routes.contains_key(first.child) == later.routes.contains_key(
                    first.child,
                ));
            } else {
                assert(next.waiting[k - 1] == barrier.waiting[k]);
                let c = barrier.waiting[k].child;
                assert(later.routes.contains_key(c) == m.routes.contains_key(c));
            }
        }
    }
}

/// A turn waits for the known children whose routes lead to it, each under the generation and the
/// baseline of its route.
pub proof fn lemma_turn_waits_for_its_children(
    m: RetainedManagerView,
    parent: ThreadId,
    turn_id: Seq<char>,
    child: ThreadId,
)
    ensures
        m.waits_for(parent, turn_id, child) == (m.threads.contains_key(child)
            && m.routes.contains_key(child) && m.routes[child].parent_thread_id == parent
            && m.routes[child].parent_turn_id == turn_id),
        m.waited(child).child == child,
        m.waited(child).generation == m.routes[child].generation,
        m.waited(child).baseline == m.routes[child].baseline,
{
}

/// An isolated thread's generations are invalidated for good, as those of a cut one are. A thread that
/// is not known gets a listener or spawns as one that just became known; a turn that starts on it
/// changes nothing.
pub proof fn lemma_isolation_invalidates(
    m: RetainedManagerView,
    thread_id: ThreadId,
    listener_generation: u64,
    turn_id: Seq<char>,
    progress: SpawnProgressView,
)
    ensures
        m.isolated(thread_id).invalidated == m.cut(thread_id).invalidated,
        m.with_listener_generation(thread_id, listener_generation) == m.knowing(
            thread_id,
        ).with_listener_generation(thread_id, listener_generation),
        m.with_spawn(thread_id, turn_id, progress) == m.knowing(thread_id).with_spawn(
            thread_id,
            turn_id,
            progress,
        ),
        !m.threads.contains_key(thread_id) ==> m.with_turn_started(thread_id, listener_generation)
            == m,
{
}

/// What a shutdown and a stored card leave of a thread's listener, turns and settings.
pub proof fn lemma_listeners_outlive_cards(
    m: RetainedManagerView,
    thread_id: ThreadId,
    turn_id: Seq<char>,
    state: StateView,
)
    requires
        m.threads.contains_key(thread_id),
    ensures
        ({
            let was = m.threads[thread_id];
            let is = m.shut_down().threads[thread_id];
            &&& is.thread.listener_generation == was.thread.listener_generation
            &&& is.thread.experimental_raw_events == was.thread.experimental_raw_events
            &&& is.thread.last_terminal_turn_id == was.thread.last_terminal_turn_id
            &&& is.thread.started_at == was.thread.started_at
            &&& is.thread.last_settings == was.thread.last_settings
        }),
        ({
            let was = m.threads[thread_id];
            let is = m.with_restored(thread_id, turn_id, state).threads[thread_id];
            &&& is.listener_generation == was.listener_generation
            &&& is.terminal_ack == was.terminal_ack
        }),
{
}

} // verus!
