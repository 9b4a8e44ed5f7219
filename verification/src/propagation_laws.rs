//! How a change climbs from a thread to its ancestors, and how a turn's events act on the cards of
//! many threads, seen from outside.
use crate::ancestry::{Invalidation, PendingRefresh, Propagation};
use crate::barrier::EndView;
use crate::card::{started_view, upsert_of};
use crate::events::{Event, EventMsg};
use crate::keyed::views;
use crate::lifecycle::{
    card_of_turn, ends_turn, is_forwarded, listed_sent, moves_card, with_children_settled, with_end,
    with_ends, with_timeouts, RetainedOutput,
};
use crate::lineage::{
    Edge, RetainedCommandView, RetainedManagerView, RetainedSentView, Target, UpdateView,
};
use crate::lineage_laws::same_but;
use crate::protocol::ThreadId;
use crate::retained::{invalidated_cards, AgentReport, CardView, RetainedView};
use crate::state::StateView;
use crate::turns::TurnReportView;
use vstd::prelude::*;

verus! {

/// Whether updates tell of a thread's cards: one for each, in order.
pub open spec fn tell_of(
    updates: Seq<UpdateView>,
    thread_id: ThreadId,
    cards: Seq<CardView>,
) -> bool {
    &&& updates.len() == cards.len()
    &&& forall|i: int|
        0 <= i < cards.len() ==> (#[trigger] updates[i]).thread_id == thread_id
            && updates[i].turn_id == cards[i].turn_id && updates[i].state == cards[i].state
}

/// Whether reports of a child's card wait for each of its parents, in order.
pub open spec fn wait_for_parents(
    pending: Seq<PendingRefresh>,
    child: ThreadId,
    state: StateView,
    targets: Seq<Target>,
) -> bool {
    &&& pending.len() == targets.len()
    &&& forall|i: int|
        0 <= i < targets.len() ==> (#[trigger] pending[i]).child == child && pending[i].state
            == state && pending[i].target == targets[i]
}

/// Whether a list is another one with more behind it.
pub open spec fn extends<A>(before: Seq<A>, after: Seq<A>) -> bool {
    before.len() <= after.len() && after.take(before.len() as int) == before
}

/// Whether a listener is told to show a card anew.
pub open spec fn shows_anew(
    sent: RetainedSentView,
    to: ThreadId,
    turn_id: Seq<char>,
    card: StateView,
) -> bool {
    sent.to == to && sent.command == (RetainedCommandView::EmitSpineUiInvalidation { turn_id, card })
}

/// The parent's report of a child's card: under the route's generation, with the nodes that the parent
/// has not seen yet, and not the last one.
pub open spec fn reported(item: PendingRefresh) -> AgentReport {
    AgentReport {
        child: item.child,
        generation: item.target.generation,
        state: Some(item.state.projected(item.target.baseline)),
        is_final: false,
    }
}

/// The first report that waits is heard by its parent, once for a parent and generation: the parent's
/// cards take it in, its completed cards that changed are told of, its listener shows the running card
/// anew, and what the parent's own parents should see waits behind the rest. Nothing else changes.
pub proof fn lemma_reports_climb(p: Propagation)
    ensures
        ({
            let after = p.step();
            &&& p.pending.len() == 0 ==> after == p
            &&& p.pending.len() > 0 ==> {
                let item = p.pending[0];
                let parent = item.target.parent;
                let way = Edge { child: item.child, parent, generation: item.target.generation };
                let arrives = !p.visited.contains(way) && p.manager.threads.contains_key(parent);
                let thread = p.manager.threads[parent].thread;
                let told = thread.refresh(reported(item));
                &&& after.visited.contains(way)
                &&& forall|e: Edge|
                    e != way ==> #[trigger] after.visited.contains(e) == p.visited.contains(e)
                &&& !arrives ==> after.manager == p.manager && after.updates == p.updates
                    && after.sent == p.sent && after.pending == p.pending.skip(1)
                &&& arrives ==> {
                    &&& same_but(p.manager, after.manager, parent)
                    &&& after.manager.routes == p.manager.routes
                    &&& after.manager.threads.contains_key(parent)
                    &&& after.manager.threads[parent].thread == thread.refreshed(reported(item))
                    &&& after.manager.threads[parent].listener_generation
                        == p.manager.threads[parent].listener_generation
                    &&& after.manager.threads[parent].terminal_ack
                        == p.manager.threads[parent].terminal_ack
                    &&& extends(p.updates, after.updates)
                    &&& tell_of(
                        after.updates.skip(p.updates.len() as int),
                        parent,
                        told.completed,
                    )
                    &&& extends(p.sent, after.sent)
                    &&& told.active is Some && p.manager.listeners.contains(parent)
                        ==> after.sent.len() == p.sent.len() + 1 && (told.active matches Some(
                        (turn_id, card),
                    ) ==> shows_anew(after.sent.last(), parent, turn_id, card))
                    &&& told.active is None || !p.manager.listeners.contains(parent)
                        ==> after.sent == p.sent
                    &&& extends(p.pending.skip(1), after.pending)
                    &&& told.forward is None ==> after.pending == p.pending.skip(1)
                    &&& told.forward is Some ==> wait_for_parents(
                        after.pending.skip(p.pending.len() - 1),
                        parent,
                        told.forward->0,
                        p.manager.targets(parent),
                    )
                }
            }
        }),
{
    let after = p.step();
    if p.pending.len() > 0 {
        assert(p.pending.skip(1) =~= p.pending.drop_first());
        let item = p.pending[0];
        let parent = item.target.parent;
        let thread = p.manager.threads[parent].thread;
        assert(item.report() == reported(item));
        let told = thread.refresh(reported(item));
        assert(p.updates.take(p.updates.len() as int) =~= p.updates);
        assert(p.sent.take(p.sent.len() as int) =~= p.sent);
        let more = crate::ancestry::updates_of(parent, told.completed);
        assert((p.updates + more).take(p.updates.len() as int) =~= p.updates);
        assert((p.updates + more).skip(p.updates.len() as int) =~= more);
        assert(after.sent.take(p.sent.len() as int) =~= p.sent);
        let rest = p.pending.drop_first();
        assert(after.pending.take(rest.len() as int) =~= rest);
        if told.forward is Some {
            let waits = crate::ancestry::pending_refreshes(
                parent,
                told.forward->0,
                p.manager.targets(parent),
            );
            assert((rest + waits).skip(rest.len() as int) =~= waits);
        }
    }
}

/// A change starts to climb with one report for each parent of the changed thread; nothing is told,
/// sent or seen yet.
pub proof fn lemma_climb_starts_at_the_parents(
    m: RetainedManagerView,
    child: ThreadId,
    state: StateView,
)
    ensures
        ({
            let p = m.propagation(child, state);
            &&& p.manager == m
            &&& wait_for_parents(p.pending, child, state, m.targets(child))
            &&& p.updates.len() == 0 && p.sent.len() == 0
            &&& forall|e: Edge| !(#[trigger] p.visited.contains(e))
            &&& m.optional_propagation(child, Some(state)) == p
        }),
        ({
            let p = m.optional_propagation(child, None);
            p.manager == m && p.pending.len() == 0 && p.updates.len() == 0 && p.sent.len() == 0
        }),
{
}

/// The first way that waits is cut at its parent, once: the child leaves the parent's newest and older
/// cards. Where that changed a card, the parent's own ways up are cut and wait in turn; the completed
/// card and the older ones that changed are told of, and the listener shows the running card anew.
pub proof fn lemma_invalidations_climb(p: Invalidation)
    ensures
        ({
            let after = p.step();
            &&& p.pending.len() == 0 ==> after == p
            &&& p.pending.len() > 0 ==> {
                let way = p.pending[0];
                let parent = way.parent;
                let arrives = !p.visited.contains(way) && p.manager.threads.contains_key(parent);
                let before = p.manager.threads[parent].thread;
                let newest = before.without_agent(way.child, way.generation);
                let older = invalidated_cards(
                    newest.restored,
                    way.child,
                    way.generation,
                    newest.next_revision,
                );
                let drops = before.active.drops_agent(way.child, way.generation)
                    || before.carry.drops_agent(way.child, way.generation)
                    || before.last_completed.drops_agent(way.child, way.generation);
                let changes = drops || older.changed.len() > 0;
                let shows = drops && newest.active_card() is Some && p.manager.listeners.contains(
                    parent,
                );
                let told = if drops && newest.completed_card() is Some {
                    seq![newest.completed_card()->0] + older.changed
                } else {
                    older.changed
                };
                &&& after.visited.contains(way)
                &&& forall|e: Edge|
                    e != way ==> #[trigger] after.visited.contains(e) == p.visited.contains(e)
                &&& !arrives ==> after.manager == p.manager && after.updates == p.updates
                    && after.sent == p.sent && after.pending == p.pending.skip(1)
                &&& arrives ==> {
                    &&& after.manager.threads.contains_key(parent)
                    &&& after.manager.threads[parent].thread == (RetainedView {
                        restored: older.kept,
                        next_revision: older.next_revision,
                        ..newest
                    })
                    &&& after.manager.threads[parent].listener_generation
                        == p.manager.threads[parent].listener_generation
                    &&& after.manager.threads[parent].terminal_ack
                        == p.manager.threads[parent].terminal_ack
                    &&& after.manager.listeners == p.manager.listeners
                    &&& after.manager.next_route_generation == p.manager.next_route_generation
                    &&& forall|t: ThreadId|
                        t != parent ==> #[trigger] after.manager.threads.contains_key(t)
                            == p.manager.threads.contains_key(t)
                    &&& forall|t: ThreadId|
                        t != parent && #[trigger] p.manager.threads.contains_key(t)
                            ==> after.manager.threads[t] == p.manager.threads[t]
                    &&& forall|t: ThreadId|
                        t != parent ==> #[trigger] after.manager.routes.contains_key(t)
                            == p.manager.routes.contains_key(t)
                    &&& forall|t: ThreadId|
                        t != parent && #[trigger] p.manager.routes.contains_key(t)
                            ==> after.manager.routes[t] == p.manager.routes[t]
                    &&& forall|t: ThreadId|
                        t != parent ==> #[trigger] after.manager.lineages.contains_key(t)
                            == p.manager.lineages.contains_key(t)
                    &&& forall|t: ThreadId|
                        t != parent && #[trigger] p.manager.lineages.contains_key(t)
                            ==> after.manager.lineages[t] == p.manager.lineages[t]
                    &&& !changes ==> after.updates == p.updates && after.sent == p.sent
                        && after.pending == p.pending.skip(1) && after.manager.routes
                        == p.manager.routes && after.manager.lineages == p.manager.lineages
                        && after.manager.invalidated == p.manager.invalidated
                    &&& changes ==> {
                        &&& !after.manager.routes.contains_key(parent)
                        &&& !after.manager.lineages.contains_key(parent)
                        &&& extends(p.updates, after.updates)
                        &&& tell_of(after.updates.skip(p.updates.len() as int), parent, told)
                        &&& !shows ==> after.sent == p.sent
                        &&& shows ==> extends(p.sent, after.sent) && after.sent.len()
                            == p.sent.len() + 1 && (newest.active_card() matches Some(
                            (turn_id, card),
                        ) ==> shows_anew(after.sent.last(), parent, turn_id, card))
                        &&& extends(p.pending.skip(1), after.pending)
                        &&& after.pending.len() == p.pending.len() - 1 + p.manager.targets(
                            parent,
                        ).len()
                        &&& forall|i: int|
                            0 <= i < p.manager.targets(parent).len() ==> {
                                let target = #[trigger] p.manager.targets(parent)[i];
                                after.pending[p.pending.len() - 1 + i] == Edge {
                                    child: parent,
                                    parent: target.parent,
                                    generation: target.generation,
                                }
                            }
                    }
                }
            }
        }),
{
    let after = p.step();
    if p.pending.len() > 0 {
        let way = p.pending[0];
        let parent = way.parent;
        let rest = p.pending.drop_first();
        assert(p.pending.skip(1) =~= rest);
        if !p.visited.contains(way) && p.manager.threads.contains_key(parent) {
            let before = p.manager.threads[parent].thread;
            let newest = before.without_agent(way.child, way.generation);
            let manager = p.manager.with_thread(
                parent,
                newest.restored_without(way.child, way.generation),
            );
            assert(manager.targets(parent) == p.manager.targets(parent));
            assert(after.updates.take(p.updates.len() as int) =~= p.updates);
            assert(after.sent.take(p.sent.len() as int) =~= p.sent);
            assert(after.pending.take(rest.len() as int) =~= rest);
            let older = invalidated_cards(
                newest.restored,
                way.child,
                way.generation,
                newest.next_revision,
            ).changed;
            let drops = before.drops_agent(way.child, way.generation);
            let told = (if drops && newest.completed_card() is Some {
                seq![newest.completed_card()->0]
            } else {
                Seq::empty()
            }) + older;
            let more = crate::ancestry::updates_of(parent, told);
            if !(drops && newest.completed_card() is Some) {
                assert(told =~= older);
            }
            if drops || older.len() > 0 {
                assert(after.updates.skip(p.updates.len() as int) =~= more);
            }
        }
    }
}

/// A cut starts with the given ways; nothing is told, sent or seen yet.
pub proof fn lemma_cut_starts_at_the_ways(m: RetainedManagerView, ways: Seq<Edge>)
    ensures
        ({
            let p = m.invalidation(ways);
            p.manager == m && p.pending == ways && p.updates.len() == 0 && p.sent.len() == 0
                && forall|e: Edge| !(#[trigger] p.visited.contains(e))
        }),
{
}

/// Which events end a turn, and which may change what a parent should see.
pub proof fn lemma_events_have_their_parts(event: EventMsg)
    ensures
        event is TurnComplete || event is TurnAborted ==> ends_turn(event) && moves_card(event),
        event is TurnStarted || event is SpineTreeUpdate || event is SpineSpawnProgress
            ==> !ends_turn(event) && moves_card(event),
        event is RawResponseItem ==> !ends_turn(event) && !moves_card(event),
        moves_card(event) ==> event is TurnStarted || event is SpineTreeUpdate
            || event is SpineSpawnProgress || event is TurnComplete || event is TurnAborted,
{
}

/// The card of a turn is the first one among the cards that is of that turn.
pub proof fn lemma_turn_has_its_card(cards: Seq<CardView>, turn_id: Seq<char>)
    ensures
        card_of_turn(cards, turn_id) is Some == exists|i: int|
            0 <= i < cards.len() && (#[trigger] cards[i]).turn_id == turn_id,
        card_of_turn(cards, turn_id) matches Some(state) ==> exists|i: int|
            0 <= i < cards.len() && (#[trigger] cards[i]).turn_id == turn_id && cards[i].state
                == state && forall|k: int|
                0 <= k < i ==> (#[trigger] cards[k]).turn_id != turn_id,
{
    crate::keyed::lemma_position(cards, |c: CardView| c.turn_id == turn_id);
}

/// A collected end enters the running card: a card of the child is shown, an end without one takes the
/// child off.
pub proof fn lemma_end_enters_the_card(thread: RetainedView, end: EndView)
    ensures
        end.state is Some ==> with_end(thread, end) == thread.with_agent(
            end.child,
            end.generation,
            end.state->0,
        ),
        end.state is None ==> with_end(thread, end) == thread.without_agent(
            end.child,
            end.generation,
        ),
{
}

/// Ends and missing ends enter one after the other, in order, none left out: one more at the end is
/// one more step.
pub proof fn lemma_ends_enter_in_order(
    thread: RetainedView,
    ends: Seq<EndView>,
    end: EndView,
    missing: Seq<(ThreadId, u64)>,
    child: ThreadId,
    generation: u64,
)
    ensures
        with_ends(thread, Seq::empty()) == thread,
        with_ends(thread, ends.push(end)) == with_end(with_ends(thread, ends), end),
        with_timeouts(thread, Seq::empty()) == thread,
        with_timeouts(thread, missing.push((child, generation))) == with_timeouts(
            thread,
            missing,
        ).with_timeout(child, generation),
{
    assert(ends.push(end).drop_last() =~= ends);
    assert(missing.push((child, generation)).drop_last() =~= missing);
}

/// Before a running turn's card ends, the collected ends enter it and then the missing ones; a turn
/// without a running card takes none.
pub proof fn lemma_children_settle_before_the_end(
    thread: RetainedView,
    turn_id: Seq<char>,
    ends: Seq<EndView>,
    missing: Seq<(ThreadId, u64)>,
)
    ensures
        ({
            let runs = thread.turns.runs(turn_id) && thread.active_turn_id == Some(turn_id);
            let after = with_children_settled(thread, turn_id, ends, missing);
            &&& runs ==> after == with_timeouts(with_ends(thread, ends), missing)
            &&& !runs ==> after == thread
        }),
{
}

/// An event makes its thread known and is followed by it alone. A report of spawns of an enabled thread
/// also makes routes; nothing else does.
pub proof fn lemma_event_is_followed_by_its_thread(
    m: RetainedManagerView,
    thread_id: ThreadId,
    event: Event,
    report: TurnReportView,
    enabled: bool,
)
    ensures
        ({
            let after = m.followed(thread_id, event, report, enabled);
            let known = m.knowing(thread_id);
            let spawns = enabled && event.msg is SpineSpawnProgress;
            &&& !spawns ==> {
                &&& same_but(known, after, thread_id)
                &&& after.routes == m.routes
                &&& after.threads[thread_id].thread
                    == known.threads[thread_id].thread.with_event(event.id@, event.msg, report)
                &&& after.threads[thread_id].listener_generation
                    == known.threads[thread_id].listener_generation
                &&& after.threads[thread_id].terminal_ack
                    == known.threads[thread_id].terminal_ack
                &&& m.followed_commands(thread_id, event, report, enabled).len() == 0
            }
            &&& spawns ==> {
                let plain = m.followed(thread_id, event, report, false);
                let progress = event.msg->SpineSpawnProgress_0;
                &&& after == plain.with_spawn(thread_id, event.id@, progress@)
                &&& plain.threads[thread_id].thread.live(event.id@) is Some
                    ==> m.followed_commands(thread_id, event, report, enabled) == after.queues(
                    progress@.tasks,
                )
                &&& plain.threads[thread_id].thread.live(event.id@) is None
                    ==> m.followed_commands(thread_id, event, report, enabled).len() == 0
            }
        }),
{
}

/// The start of a turn begins it for the thread's routes; another event begins none.
pub proof fn lemma_only_a_start_begins_a_turn(
    m: RetainedManagerView,
    thread_id: ThreadId,
    listener_generation: u64,
    event: EventMsg,
)
    ensures
        event is TurnStarted ==> m.begun(thread_id, listener_generation, event)
            == m.with_turn_started(thread_id, listener_generation),
        !(event is TurnStarted) ==> m.begun(thread_id, listener_generation, event) == m,
{
}

/// After the end of a turn its thread's end is noted and the routes under the turn are lineages. An
/// event that may change what the parent should see sends the card; the end of a turn also sends a
/// last card that its parent waited for in vain. Another event does nothing here.
pub proof fn lemma_end_of_a_turn_is_noted(
    m: RetainedManagerView,
    thread_id: ThreadId,
    listener_generation: u64,
    event: Event,
    now: u64,
)
    ensures
        ({
            let after = m.done_with(thread_id, listener_generation, event, now);
            let sent = m.done_commands(thread_id, listener_generation, event);
            let ends = event.msg is TurnComplete || event.msg is TurnAborted;
            let moves = ends || event.msg is TurnStarted || event.msg is SpineTreeUpdate
                || event.msg is SpineSpawnProgress;
            let card = m.queued(thread_id);
            let last = m.late_final(thread_id, listener_generation, event.id@);
            &&& !ends ==> after == m
            &&& ends ==> after == m.acknowledged(
                thread_id,
                listener_generation,
                event.id@,
                now,
            ).without_turn_routes(thread_id, event.id@)
            &&& !moves ==> sent.len() == 0
            &&& moves && card is Some ==> sent.len() > 0 && sent[0] == card->0
            &&& ends && last is Some ==> sent.len() > 0 && sent.last() == last->0
            &&& sent.len() == (if moves && card is Some {
                1int
            } else {
                0
            }) + (if ends && last is Some {
                1int
            } else {
                0
            })
        }),
{
}

/// A last report that comes after its parent's turn ended is heard where the turn left a card, and is
/// not heard elsewhere; the turn's card climbs on where it changed.
pub proof fn lemma_late_report_is_heard_by_the_turn_it_belongs_to(
    m: RetainedManagerView,
    report: AgentReport,
    parent: ThreadId,
    turn_id: Seq<char>,
)
    requires
        m.threads.contains_key(parent),
    ensures
        ({
            let thread = m.threads[parent].thread;
            let left = thread.last_completed_turn_id == Some(turn_id) || exists|i: int|
                0 <= i < thread.restored.len() && (#[trigger] thread.restored[i]).turn_id
                    == turn_id;
            let told = m.late_refresh(report, parent, turn_id);
            let after = m.with_late(report, parent, turn_id);
            let start = m.late_start(report, parent, turn_id);
            &&& left ==> told == thread.refresh(report)
            &&& !left ==> told.active is None && told.forward is None && told.completed.len() == 0
            &&& same_but(m, after, parent)
            &&& after.routes == m.routes
            &&& after.threads[parent].thread == (if left {
                thread.refreshed(report)
            } else {
                thread
            })
            &&& after.threads[parent].listener_generation
                == m.threads[parent].listener_generation
            &&& after.threads[parent].terminal_ack == m.threads[parent].terminal_ack
            &&& start.manager == after
            &&& (forall|i: int|
                0 <= i < told.completed.len() ==> (#[trigger] told.completed[i]).turn_id
                    != turn_id) ==> start.pending.len() == 0
            &&& forall|i: int|
                0 <= i < told.completed.len() && (#[trigger] told.completed[i]).turn_id
                    == turn_id && (forall|k: int|
                    0 <= k < i ==> (#[trigger] told.completed[k]).turn_id != turn_id)
                    ==> wait_for_parents(
                    start.pending,
                    parent,
                    told.completed[i].state,
                    after.targets(parent),
                )
        }),
{
    let told = m.late_refresh(report, parent, turn_id);
    lemma_turn_has_its_card(told.completed, turn_id);
    assert(m.with_late(report, parent, turn_id).targets(parent) == m.targets(parent));
}

/// A last report settles its route for a child that ended late, and the routes of the turn become
/// lineages.
pub proof fn lemma_last_report_settles_the_route(
    m: RetainedManagerView,
    child: ThreadId,
    parent: ThreadId,
    turn_id: Seq<char>,
    generation: u64,
)
    ensures
        m.settled_for(child, parent, turn_id, generation) == m.late_completed(
            child,
            parent,
            turn_id,
            generation,
        ).without_turn_routes(parent, turn_id),
{
}

/// A child's card that comes over its current route is shown on the parent's card while the parent's
/// turn runs, announced and sent on where it changed the card; a last one also settles the route. A
/// last one that comes after the turn ended is heard by the cards that the turn left, and told of. One
/// over another route, or a late one that is not the last, does nothing.
pub proof fn lemma_forwarded_state_is_taken(
    before: RetainedManagerView,
    after: RetainedManagerView,
    r: RetainedOutput,
    parent: ThreadId,
    name: Seq<char>,
    child: ThreadId,
    turn_id: Seq<char>,
    generation: u64,
    state: Option<StateView>,
    terminal: bool,
)
    requires
        is_forwarded(
            before,
            after,
            r,
            parent,
            name,
            child,
            turn_id,
            generation,
            state,
            terminal,
        ),
    ensures
        ({
            let route = before.routes[child];
            let current = before.routes.contains_key(child) && route.parent_thread_id == parent
                && route.parent_turn_id == turn_id && route.generation == generation;
            let known = before.knowing(parent);
            let thread = known.threads[parent].thread;
            let runs = thread.turns.runs(turn_id) && thread.active_turn_id == Some(turn_id);
            let plain = if state is Some {
                thread.with_agent(child, generation, state->0)
            } else {
                thread
            };
            let changes = state is Some && thread.active.takes_agent(child, generation, state->0);
            let entered = known.with_thread(parent, plain);
            let last = AgentReport { child, generation, state, is_final: true };
            let told = known.late_refresh(last, parent, turn_id);
            let heard = known.with_late(last, parent, turn_id);
            &&& !current ==> after == before
            &&& current && !runs && !terminal ==> after == known
            &&& !current || (!runs && !terminal) ==> r.started is None && r.completed@.len() == 0
                && r.sent@.len() == 0
            &&& current && runs ==> {
                &&& changes ==> started_view(r.started) == upsert_of(name, turn_id, plain.active)
                &&& !changes ==> r.started is None
                &&& r.completed@.len() == 0
                &&& changes && entered.queued(parent) is Some ==> r.sent@.len() == 1
                    && r.sent@[0]@ == entered.queued(parent)->0
                &&& !changes || entered.queued(parent) is None ==> r.sent@.len() == 0
                &&& !terminal ==> after == entered
                &&& terminal ==> after == entered.late_completed(
                    child,
                    parent,
                    turn_id,
                    generation,
                ).without_turn_routes(parent, turn_id)
            }
            &&& current && !runs && terminal ==> {
                &&& told.active is None ==> r.started is None
                &&& told.active matches Some((active_turn, card)) ==> started_view(r.started)
                    == upsert_of(name, active_turn, card)
                &&& r.completed@.len() >= told.completed.len()
                &&& tell_of(
                    views(r.completed@).take(told.completed.len() as int),
                    parent,
                    told.completed,
                )
                &&& exists|steps: nat|
                    {
                        let end = #[trigger] known.late_start(last, parent, turn_id).run(steps);
                        &&& end.pending.len() == 0
                        &&& after == end.manager.late_completed(
                            child,
                            parent,
                            turn_id,
                            generation,
                        ).without_turn_routes(parent, turn_id)
                        &&& views(r.completed@).skip(told.completed.len() as int) == end.updates
                        &&& told.forward is Some && heard.queued(parent) is Some
                            ==> r.sent@.len() > 0 && r.sent@[0]@ == heard.queued(parent)->0
                            && views(r.sent@).skip(1) == end.sent
                        &&& told.forward is None || heard.queued(parent) is None ==> views(r.sent@)
                            == end.sent
                    }
            }
        }),
{
    assert(views(r.sent@).len() == r.sent@.len());
    if r.sent@.len() > 0 {
        assert(views(r.sent@)[0] == r.sent@[0]@);
    }
    let current = before.route_is_current(child, parent, turn_id, generation);
    let known = before.knowing(parent);
    let thread = known.threads[parent].thread;
    if current && thread.live(turn_id) is None && terminal {
        let last = crate::lifecycle::final_report(child, generation, state);
        let told = known.late_refresh(last, parent, turn_id);
        let first = crate::ancestry::updates_of(parent, told.completed);
        let steps = choose|steps: nat|
            {
                let end = #[trigger] known.late_start(last, parent, turn_id).run(steps);
                &&& end.pending.len() == 0
                &&& views(r.completed@) == first + end.updates
                &&& views(r.sent@) == (if told.forward is Some {
                    listed_sent(known.with_late(last, parent, turn_id).queued(parent))
                } else {
                    Seq::empty()
                }) + end.sent
                &&& after == end.manager.settled_for(child, parent, turn_id, generation)
            };
        let end = known.late_start(last, parent, turn_id).run(steps);
        assert((first + end.updates).take(first.len() as int) =~= first);
        assert((first + end.updates).skip(first.len() as int) =~= end.updates);
        assert(views(r.completed@).len() == r.completed@.len());
        let sent = if told.forward is Some {
            listed_sent(known.with_late(last, parent, turn_id).queued(parent))
        } else {
            Seq::empty()
        };
        assert((sent + end.sent).skip(sent.len() as int) =~= end.sent);
        if sent.len() == 0 {
            assert(sent + end.sent =~= end.sent);
        }
    }
}

} // verus!
