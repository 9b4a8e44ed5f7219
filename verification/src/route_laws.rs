//! What the routes of running cards do, seen from outside.
use crate::lineage_laws::{is_excerpt, lemma_excerpt};
use crate::live::LiveView;
use crate::protocol::{ConnectionId, SpawnProgressView, TaskProgressView, ThreadId};
use crate::routes::{CommandView, EntryView, ManagerView, RouteView, SentView, TerminalAckView};
use crate::state::empty_state;
use vstd::prelude::*;

verus! {

/// Whether two managers differ in their routes alone.
pub open spec fn only_routes_differ(a: ManagerView, b: ManagerView) -> bool {
    &&& a.threads == b.threads
    &&& a.next_route_generation == b.next_route_generation
    &&& a.next_instance == b.next_instance
    &&& a.listeners == b.listeners
}

/// Whether the route of a thread is the same under two managers: none, or one and the same.
pub open spec fn same_route(a: ManagerView, b: ManagerView, child: ThreadId) -> bool {
    &&& a.routes.contains_key(child) == b.routes.contains_key(child)
    &&& a.routes.contains_key(child) ==> a.routes[child] == b.routes[child]
}

/// Whether a thread is the same under two managers: unknown, or one and the same.
pub open spec fn same_thread(a: ManagerView, b: ManagerView, thread_id: ThreadId) -> bool {
    &&& a.threads.contains_key(thread_id) == b.threads.contains_key(thread_id)
    &&& a.threads.contains_key(thread_id) ==> a.threads[thread_id] == b.threads[thread_id]
}

/// A thread that becomes known has no card, no listener, no turn and no end, and an instance that no
/// thread had before; what is known stays.
pub proof fn lemma_new_thread_has_its_instance(
    m: ManagerView,
    thread_id: ThreadId,
    other: ThreadId,
)
    ensures
        ({
            let after = m.knowing(thread_id);
            let entry = after.threads[thread_id];
            &&& after.threads.contains_key(thread_id)
            &&& m.threads.contains_key(thread_id) ==> after == m
            &&& !m.threads.contains_key(thread_id) ==> {
                &&& entry.instance == m.next_instance
                &&& m.next_instance < u64::MAX ==> after.next_instance == m.next_instance + 1
                &&& entry.listener_generation == 0
                &&& entry.active_turn_id is None && entry.terminal_ack is None
                &&& entry.thread.active == empty_state() && entry.thread.cumulative
                    == empty_state()
                &&& entry.thread.active_turn_id is None && entry.thread.terminal is None
                &&& entry.thread.pending.len() == 0 && entry.thread.turns.latest is None
                &&& !entry.thread.turns.has_active_turn
                &&& entry.thread.next_revision == 0 && entry.thread.next_turn_order == 0
                    && entry.thread.terminal_order == 0 && entry.thread.listener_generation == 0
                    && entry.thread.started_at is None
                    && entry.thread.last_terminal_turn_id is None
                &&& !entry.thread.experimental_raw_events
                &&& forall|c: ConnectionId| !(#[trigger] entry.thread.mounted.contains(c))
            }
            &&& other != thread_id ==> same_thread(m, after, other)
            &&& after.routes == m.routes && after.listeners == m.listeners
                && after.next_route_generation == m.next_route_generation
        }),
{
}

/// A child's card goes to its parent's listener over its route, as the parent is to be shown it: where
/// the child has a card newer than the last that was delivered, and none is on its way. It is on its
/// way from then on.
pub proof fn lemma_card_is_sent_once(m: ManagerView, child: ThreadId, other: ThreadId)
    ensures
        ({
            let route = m.routes[child];
            let card = m.threads[child].thread.forwarded();
            let sent = m.queued(child);
            let after = m.after_queue(child);
            &&& sent is Some == (m.routes.contains_key(child) && m.threads.contains_key(child)
                && card is Some && m.listeners.contains(route.parent_thread_id)
                && route.queued_revision is None && (route.last_forwarded_revision is None
                || route.last_forwarded_revision->0 < card->0.revision))
            &&& sent matches Some(s) ==> {
                &&& s.to == route.parent_thread_id
                &&& s.command is ForwardSpineUiAgentState
                &&& s.command->child_thread_id == child
                &&& s.command->parent_turn_id == route.parent_turn_id
                &&& s.command->parent_listener_generation == route.parent_listener_generation
                &&& s.command->generation == route.generation
                &&& s.command->state is Some
                &&& is_excerpt(card->0, s.command->state->0, route.baseline)
                &&& after.routes.contains_key(child)
                &&& after.routes[child] == (RouteView {
                    queued_revision: Some(card->0.revision),
                    ..route
                })
            }
            &&& sent is None ==> after == m
            &&& only_routes_differ(m, after)
            &&& other != child ==> same_route(m, after, other)
        }),
{
    if m.queued(child) is Some {
        lemma_excerpt(m.threads[child].thread.forwarded(), m.routes[child].baseline);
    }
}

/// The cards of several children are sent one by one, in order, each after those before it are on
/// their way.
pub proof fn lemma_cards_are_sent_in_order(
    m: ManagerView,
    children: Seq<ThreadId>,
    child: ThreadId,
)
    ensures
        m.queues(Seq::empty()) == Seq::<SentView>::empty(),
        m.after_queues(Seq::empty()) == m,
        m.after_queues(children.push(child)) == m.after_queues(children).after_queue(child),
        ({
            let sent = m.after_queues(children).queued(child);
            &&& sent is Some ==> m.queues(children.push(child)) == m.queues(children).push(sent->0)
            &&& sent is None ==> m.queues(children.push(child)) == m.queues(children)
        }),
{
    assert(children.push(child).drop_last() =~= children);
}

/// A spawned child gets a route to the turn that spawned it, and is known from then on. A route that
/// leads there stays as it is. A new one has a newer generation than every route before, the given
/// baseline and listener, and expects the end of the child's turn: the running one, else the last
/// ended one. Nothing has been sent over it.
pub proof fn lemma_spawned_child_is_routed(
    m: ManagerView,
    child: ThreadId,
    parent: ThreadId,
    turn_id: Seq<char>,
    listener_generation: u64,
    baseline: Set<Seq<char>>,
    other: ThreadId,
)
    ensures
        ({
            let after = m.with_route(child, parent, turn_id, listener_generation, baseline);
            let there = m.routes.contains_key(child) && m.routes[child].parent_thread_id == parent
                && m.routes[child].parent_turn_id == turn_id;
            let known = m.knowing(child);
            let entry = known.threads[child];
            let route = after.routes[child];
            &&& after.threads == known.threads && after.next_instance == known.next_instance
                && after.listeners == m.listeners
            &&& other != child ==> same_route(m, after, other)
            &&& after.routes.contains_key(child)
            &&& there ==> route == m.routes[child] && after.next_route_generation
                == m.next_route_generation
            &&& !there ==> {
                &&& route.parent_thread_id == parent && route.parent_turn_id == turn_id
                &&& route.parent_listener_generation == listener_generation
                &&& route.baseline == baseline
                &&& route.generation == after.next_route_generation
                &&& after.next_route_generation >= m.next_route_generation
                &&& m.next_route_generation < u64::MAX ==> route.generation
                    == m.next_route_generation + 1
                &&& route.queued_revision is None && route.last_forwarded_revision is None
                &&& entry.active_turn_id is Some ==> route.expected_child_turn_id
                    == entry.active_turn_id
                &&& entry.active_turn_id is None && entry.terminal_ack is Some
                    ==> route.expected_child_turn_id == Some(entry.terminal_ack->0.turn_id)
                &&& entry.active_turn_id is None && entry.terminal_ack is None
                    ==> route.expected_child_turn_id is None
            }
        }),
{
}

/// The children of several tasks are routed one by one, in order; those whose route was new are
/// listed in that order.
pub proof fn lemma_children_are_routed_in_order(
    m: ManagerView,
    tasks: Seq<TaskProgressView>,
    task: TaskProgressView,
    parent: ThreadId,
    turn_id: Seq<char>,
    listener_generation: u64,
    baseline: Set<Seq<char>>,
)
    ensures
        m.with_routes(Seq::empty(), parent, turn_id, listener_generation, baseline) == m,
        m.new_routes(Seq::empty(), parent, turn_id, listener_generation, baseline) == Seq::<
            ThreadId,
        >::empty(),
        ({
            let before = m.with_routes(tasks, parent, turn_id, listener_generation, baseline);
            let listed = m.new_routes(tasks, parent, turn_id, listener_generation, baseline);
            let more = tasks.push(task);
            let child = task.thread_id;
            let there = before.routes.contains_key(child) && before.routes[child].parent_thread_id
                == parent && before.routes[child].parent_turn_id == turn_id;
            &&& m.with_routes(more, parent, turn_id, listener_generation, baseline)
                == before.with_route(child, parent, turn_id, listener_generation, baseline)
            &&& there ==> m.new_routes(more, parent, turn_id, listener_generation, baseline)
                == listed
            &&& !there ==> m.new_routes(more, parent, turn_id, listener_generation, baseline)
                == listed.push(child)
        }),
{
    assert(tasks.push(task).drop_last() =~= tasks);
}

/// A report of spawns makes routes for all its tasks where the parent's turn runs with a card under the
/// listener that reports; the nodes that the parent shows are their baseline. Elsewhere it makes none.
pub proof fn lemma_report_makes_routes(
    m: ManagerView,
    parent: ThreadId,
    listener_generation: u64,
    turn_id: Seq<char>,
    progress: SpawnProgressView,
)
    ensures
        ({
            let known = m.knowing(parent);
            let entry = known.threads[parent];
            let takes = entry.thread.turns.runs(turn_id) && entry.thread.active_turn_id == Some(
                turn_id,
            ) && entry.listener_generation == listener_generation;
            let after = m.routed(parent, listener_generation, turn_id, progress);
            let children = m.routed_children(parent, listener_generation, turn_id, progress);
            &&& takes == m.takes_spawn(parent, listener_generation, turn_id)
            &&& !takes ==> after == known && children.len() == 0
            &&& takes ==> after == known.with_routes(
                progress.tasks,
                parent,
                turn_id,
                listener_generation,
                entry.thread.baseline(turn_id)->0,
            ) && children == known.new_routes(
                progress.tasks,
                parent,
                turn_id,
                listener_generation,
                entry.thread.baseline(turn_id)->0,
            )
        }),
{
}

/// Only the current route of a child counts: the same parent, turn, listener and generation. A
/// delivery is awaited over the route of that parent, turn and generation, for the revision that is
/// on its way.
pub proof fn lemma_only_the_current_way_counts(
    m: ManagerView,
    child: ThreadId,
    parent: ThreadId,
    turn_id: Seq<char>,
    listener_generation: u64,
    generation: u64,
    revision: u64,
)
    ensures
        ({
            let route = m.routes[child];
            let there = m.routes.contains_key(child) && route.parent_thread_id == parent
                && route.parent_turn_id == turn_id;
            &&& m.leads_to(child, parent, turn_id) == there
            &&& m.route_is_current(child, parent, turn_id, listener_generation, generation) == (
            there && route.parent_listener_generation == listener_generation && route.generation
                == generation)
            &&& m.awaits(child, parent, turn_id, generation, revision) == (there
                && route.generation == generation && route.queued_revision == Some(revision))
        }),
{
}

/// A delivered card is no longer on its way, and nothing as old is sent again; a delivery that is not
/// awaited changes nothing.
pub proof fn lemma_delivery_is_noted(
    m: ManagerView,
    child: ThreadId,
    parent: ThreadId,
    turn_id: Seq<char>,
    generation: u64,
    revision: u64,
    other: ThreadId,
)
    ensures
        ({
            let after = m.delivered(child, parent, turn_id, generation, revision);
            let route = m.routes[child];
            let awaited = m.awaits(child, parent, turn_id, generation, revision);
            let last = after.routes[child].last_forwarded_revision;
            &&& !awaited ==> after == m
            &&& awaited ==> {
                &&& only_routes_differ(m, after)
                &&& other != child ==> same_route(m, after, other)
                &&& after.routes.contains_key(child)
                &&& last is Some && last->0 >= revision
                &&& route.last_forwarded_revision is None ==> last == Some(revision)
                &&& route.last_forwarded_revision matches Some(before) ==> last->0 >= before && (
                last->0 == before || last->0 == revision)
                &&& after.routes[child] == (RouteView {
                    queued_revision: None,
                    last_forwarded_revision: last,
                    ..route
                })
            }
        }),
{
}

/// A child leaves the card of a turn that runs under that listener, and of no other; where that
/// changed the card, the parent's listener, if there is one, is told to show the turn's card anew.
pub proof fn lemma_child_leaves_the_turn(
    m: ManagerView,
    parent: ThreadId,
    turn_id: Seq<char>,
    listener_generation: u64,
    child: ThreadId,
    generation: u64,
    other: ThreadId,
)
    ensures
        ({
            let thread = m.threads[parent].thread;
            let runs = m.threads.contains_key(parent) && thread.listener_generation
                == listener_generation && thread.turns.runs(turn_id) && thread.active_turn_id
                == Some(turn_id);
            let after = m.invalidated_on_turn(
                parent,
                turn_id,
                listener_generation,
                child,
                generation,
            );
            let sent = m.turn_invalidation(
                parent,
                turn_id,
                listener_generation,
                child,
                generation,
            );
            &&& m.reaches_turn(parent, turn_id, listener_generation) == runs
            &&& !runs ==> after == m && sent is None
            &&& runs ==> {
                &&& after.threads.contains_key(parent)
                &&& after.threads[parent] == (EntryView {
                    thread: thread.without_agent(child, generation),
                    ..m.threads[parent]
                })
                &&& other != parent ==> same_thread(m, after, other)
                &&& after.routes == m.routes && after.listeners == m.listeners
                    && after.next_instance == m.next_instance && after.next_route_generation
                    == m.next_route_generation
                &&& sent is Some == (thread.active.drops_agent(child, generation)
                    && m.listeners.contains(parent))
                &&& sent matches Some(s) ==> s.to == parent && s.command == (
                CommandView::EmitSpineUiInvalidation { listener_generation, turn_id })
            }
        }),
{
}

/// A newer listener of a thread replaces the one before: its turn and its end are forgotten, the routes
/// under it that another listener made are gone, and its own route starts anew with a newer
/// generation, after the child left the parent's card under the old one. A listener that is not newer
/// changes nothing but that the thread is known.
pub proof fn lemma_newer_listener_takes_over(
    m: ManagerView,
    thread_id: ThreadId,
    listener_generation: u64,
    other: ThreadId,
)
    requires
        other != thread_id,
    ensures
        ({
            let known = m.knowing(thread_id);
            let after = m.with_listener_generation(thread_id, listener_generation);
            let sent = m.listener_invalidation(thread_id, listener_generation);
            let newer = listener_generation > known.threads[thread_id].listener_generation;
            let route = m.routes[thread_id];
            let own = m.routes.contains_key(thread_id) && !(route.parent_thread_id == thread_id
                && route.parent_listener_generation != listener_generation);
            let fresh = after.routes[thread_id];
            &&& !newer ==> after == known && sent is None
            &&& newer ==> {
                &&& after.threads.contains_key(thread_id)
                &&& after.threads[thread_id].listener_generation == listener_generation
                &&& after.threads[thread_id].active_turn_id is None
                &&& after.threads[thread_id].terminal_ack is None
                &&& after.threads[thread_id].instance == known.threads[thread_id].instance
                &&& after.next_instance == known.next_instance
                &&& after.listeners == m.listeners
                &&& after.routes.contains_key(other) == (m.routes.contains_key(other) && !(
                m.routes[other].parent_thread_id == thread_id
                    && m.routes[other].parent_listener_generation != listener_generation))
                &&& after.routes.contains_key(other) ==> after.routes[other] == m.routes[other]
                &&& after.routes.contains_key(thread_id) == own
                &&& !own ==> after.next_route_generation == m.next_route_generation && sent is None
                    && same_thread(m, after, other) && after.threads[thread_id].thread
                    == known.threads[thread_id].thread
                &&& own ==> {
                    &&& fresh.parent_thread_id == route.parent_thread_id && fresh.parent_turn_id
                        == route.parent_turn_id && fresh.parent_listener_generation
                        == route.parent_listener_generation && fresh.baseline == route.baseline
                    &&& fresh.expected_child_turn_id is None && fresh.queued_revision is None
                        && fresh.last_forwarded_revision is None
                    &&& fresh.generation == after.next_route_generation
                    &&& fresh.generation >= m.next_route_generation
                    &&& m.next_route_generation < u64::MAX ==> fresh.generation
                        == m.next_route_generation + 1
                    &&& other != route.parent_thread_id ==> same_thread(m, after, other)
                    &&& route.parent_thread_id != thread_id ==> ({
                        let parent = route.parent_thread_id;
                        let cut = m.invalidated_on_turn(
                            parent,
                            route.parent_turn_id,
                            route.parent_listener_generation,
                            thread_id,
                            route.generation,
                        );
                        &&& same_thread(cut, after, parent)
                        &&& after.threads[thread_id].thread == known.threads[thread_id].thread
                        &&& sent == m.turn_invalidation(
                            parent,
                            route.parent_turn_id,
                            route.parent_listener_generation,
                            thread_id,
                            route.generation,
                        )
                    })
                }
            }
        }),
{
}

/// The start of a turn under the thread's current listener ends every route to its turns before,
/// forgets its last end, and is what the thread's own route expects the end of. Under another listener
/// it changes nothing.
pub proof fn lemma_started_turn_is_expected(
    m: ManagerView,
    thread_id: ThreadId,
    listener_generation: u64,
    turn_id: Seq<char>,
    other: ThreadId,
)
    requires
        other != thread_id,
    ensures
        ({
            let after = m.with_turn_started(thread_id, listener_generation, turn_id);
            let listens = m.threads.contains_key(thread_id)
                && m.threads[thread_id].listener_generation == listener_generation;
            &&& m.listened(thread_id, listener_generation) == listens
            &&& !listens ==> after == m
            &&& listens ==> {
                &&& after.threads.contains_key(thread_id)
                &&& after.threads[thread_id] == (EntryView {
                    active_turn_id: Some(turn_id),
                    terminal_ack: None,
                    ..m.threads[thread_id]
                })
                &&& same_thread(m, after, other)
                &&& after.routes.contains_key(other) == (m.routes.contains_key(other)
                    && m.routes[other].parent_thread_id != thread_id)
                &&& after.routes.contains_key(other) ==> after.routes[other] == m.routes[other]
                &&& after.routes.contains_key(thread_id) == (m.routes.contains_key(thread_id)
                    && m.routes[thread_id].parent_thread_id != thread_id)
                &&& after.routes.contains_key(thread_id) ==> after.routes[thread_id] == (RouteView {
                    expected_child_turn_id: Some(turn_id),
                    ..m.routes[thread_id]
                })
                &&& after.listeners == m.listeners && after.next_instance == m.next_instance
                    && after.next_route_generation == m.next_route_generation
            }
        }),
{
}

/// The end of a turn under the thread's current listener is remembered, unless another turn runs or
/// another end came before; it is what the thread's route then expects, unless that expects another
/// turn. Under another listener it changes nothing.
pub proof fn lemma_ended_turn_is_noted(
    m: ManagerView,
    child: ThreadId,
    listener_generation: u64,
    turn_id: Seq<char>,
    other: ThreadId,
)
    requires
        other != child,
    ensures
        ({
            let after = m.acknowledged(child, listener_generation, turn_id);
            let entry = m.threads[child];
            let listens = m.threads.contains_key(child) && entry.listener_generation
                == listener_generation;
            let other_turn = entry.active_turn_id is Some && entry.active_turn_id != Some(turn_id);
            let other_end = entry.active_turn_id is None && entry.terminal_ack is Some
                && entry.terminal_ack != Some(TerminalAckView { listener_generation, turn_id });
            let route = m.routes[child];
            let expects = m.routes.contains_key(child) && (route.expected_child_turn_id is None
                || route.expected_child_turn_id == Some(turn_id));
            &&& m.expects(child, turn_id) == expects
            &&& !listens ==> after == m
            &&& listens ==> {
                &&& after.threads.contains_key(child)
                &&& other_turn || other_end ==> after.threads[child] == entry
                &&& !other_turn && !other_end ==> after.threads[child] == (EntryView {
                    active_turn_id: None,
                    terminal_ack: Some(TerminalAckView { listener_generation, turn_id }),
                    ..entry
                })
                &&& same_thread(m, after, other)
                &&& same_route(m, after, other)
                &&& !expects ==> same_route(m, after, child)
                &&& expects ==> after.routes.contains_key(child) && after.routes[child] == (
                RouteView { expected_child_turn_id: Some(turn_id), ..route })
                &&& after.listeners == m.listeners && after.next_instance == m.next_instance
                    && after.next_route_generation == m.next_route_generation
            }
        }),
{
}

/// When a turn is over, the routes to it under its listener are gone, and no others. A thread that
/// leaves the routes is at neither end of one, and its last end is forgotten.
pub proof fn lemma_routes_end(
    m: ManagerView,
    parent: ThreadId,
    turn_id: Seq<char>,
    listener_generation: u64,
    child: ThreadId,
)
    ensures
        ({
            let after = m.without_turn_routes(parent, turn_id, listener_generation);
            let route = m.routes[child];
            &&& only_routes_differ(m, after)
            &&& after.routes.contains_key(child) == (m.routes.contains_key(child) && !(
            route.parent_thread_id == parent && route.parent_turn_id == turn_id
                && route.parent_listener_generation == listener_generation))
            &&& after.routes.contains_key(child) ==> after.routes[child] == route
        }),
        ({
            let after = m.without_routes(parent);
            &&& only_routes_differ(m, after)
            &&& after.routes.contains_key(child) == (m.routes.contains_key(child) && child != parent
                && m.routes[child].parent_thread_id != parent)
            &&& after.routes.contains_key(child) ==> after.routes[child] == m.routes[child]
        }),
        ({
            let after = m.unrouted(parent);
            &&& after.routes == m.without_routes(parent).routes
            &&& child != parent ==> same_thread(m, after, child)
            &&& after.threads.contains_key(parent) == m.threads.contains_key(parent)
            &&& m.threads.contains_key(parent) ==> after.threads[parent] == (EntryView {
                terminal_ack: None,
                ..m.threads[parent]
            })
            &&& after.listeners == m.listeners && after.next_instance == m.next_instance
                && after.next_route_generation == m.next_route_generation
        }),
{
}

/// A thread that is cleared leaves the routes, and its parent's card where its route's listener still
/// shows it; where that changed the card, the parent's listener is told to show it anew.
pub proof fn lemma_cleared_thread_leaves_its_parent(
    m: ManagerView,
    thread_id: ThreadId,
    other: ThreadId,
)
    ensures
        ({
            let after = m.cleared(thread_id);
            let sent = m.clear_invalidation(thread_id);
            let route = m.routes[thread_id];
            let parent = route.parent_thread_id;
            let base = m.unrouted(thread_id);
            let shown = m.routes.contains_key(thread_id) && m.threads.contains_key(parent)
                && m.threads[parent].thread.listener_generation
                == route.parent_listener_generation;
            let thread = m.threads[parent].thread;
            &&& after.routes == base.routes && after.listeners == m.listeners
                && after.next_instance == m.next_instance && after.next_route_generation
                == m.next_route_generation
            &&& !shown ==> after == base && sent is None
            &&& shown ==> {
                &&& after.threads.contains_key(parent)
                &&& after.threads[parent] == (EntryView {
                    thread: thread.without_agent(thread_id, route.generation),
                    ..base.threads[parent]
                })
                &&& other != parent ==> same_thread(base, after, other)
                &&& sent is Some == (thread.active.drops_agent(thread_id, route.generation)
                    && m.listeners.contains(parent) && thread.active_card() is Some)
                &&& sent matches Some(s) ==> s.to == parent && s.command == (
                CommandView::EmitSpineUiInvalidation {
                    listener_generation: route.parent_listener_generation,
                    turn_id: thread.active_turn_id->0,
                })
            }
        }),
{
}

/// A listener is a thread's own where it has the thread's current generation and its instance.
pub proof fn lemma_listener_is_the_current_one(
    m: ManagerView,
    thread_id: ThreadId,
    listener_generation: u64,
    instance: u64,
)
    ensures
        m.is_listener(thread_id, listener_generation, instance) == (m.threads.contains_key(
            thread_id,
        ) && m.threads[thread_id].listener_generation == listener_generation
            && m.threads[thread_id].instance == instance),
        m.reaches(thread_id, listener_generation) == (m.threads.contains_key(thread_id)
            && m.threads[thread_id].thread.listener_generation == listener_generation),
{
}

/// A thread's own part of a manager can be replaced without touching anything else.
pub proof fn lemma_thread_is_replaced_alone(
    m: ManagerView,
    thread_id: ThreadId,
    thread: LiveView,
    other: ThreadId,
)
    ensures
        ({
            let after = m.with_thread(thread_id, thread);
            &&& after.threads.contains_key(thread_id)
            &&& after.threads[thread_id] == (EntryView { thread, ..m.threads[thread_id] })
            &&& other != thread_id ==> same_thread(m, after, other)
            &&& after.routes == m.routes && after.listeners == m.listeners && after.next_instance
                == m.next_instance && after.next_route_generation == m.next_route_generation
        }),
{
}

} // verus!
