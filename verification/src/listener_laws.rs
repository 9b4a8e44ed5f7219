//! What a thread's listener does at each event, seen from outside.
use crate::card::{terminal_of, upsert_of, OutcomeView, StartedView};
use crate::events::{Event, EventMsg};
use crate::keyed::views;
use crate::listener::{
    abort_status, event_outcome, is_ending, is_event_end, is_listener_failure, mounted_by, mounts,
    Ending, Output,
};
use crate::live::LiveView;
use crate::live_laws::lemma_waiting_card_is_found;
use crate::protocol::{AgentStatusView, ConnectionId, ThreadId, TurnAbortReason};
use crate::retained_laws::same_card;
use crate::routes::ManagerView;
use crate::state::StateView;
use vstd::prelude::*;

verus! {

/// What an aborted turn leaves its agents as: interrupted where it was interrupted or ran out of its
/// budget, else failed, with the reason told.
pub proof fn lemma_abort_leaves_a_status(reason: TurnAbortReason)
    ensures
        reason == TurnAbortReason::Interrupted || reason == TurnAbortReason::BudgetLimited
            ==> abort_status(reason) is Interrupted,
        reason == TurnAbortReason::Replaced ==> abort_status(reason) == AgentStatusView::Errored(
            "child turn aborted: "@ + "Replaced"@,
        ),
        reason == TurnAbortReason::ReviewEnded ==> abort_status(reason)
            == AgentStatusView::Errored("child turn aborted: "@ + "ReviewEnded"@),
{
}

/// The end of a turn is told as it came: a completed turn as completed, an aborted one as aborted for
/// its reason. No other event is an end.
pub proof fn lemma_ends_are_told_as_they_came(event: EventMsg)
    ensures
        event is TurnComplete ==> event_outcome(event) == Some(OutcomeView::Completed),
        event is TurnAborted ==> event_outcome(event) == Some(
            OutcomeView::Aborted(event->reason),
        ),
        !(event is TurnComplete) && !(event is TurnAborted) ==> event_outcome(event) is None,
{
}

/// Connections that were shown a turn's card are mounted to it, and stay so; nothing else changes, and
/// nothing at all for another turn.
pub proof fn lemma_connections_are_mounted(
    thread: LiveView,
    turn_id: Seq<char>,
    connections: Seq<ConnectionId>,
    c: ConnectionId,
)
    ensures
        ({
            let after = mounted_by(thread, turn_id, connections);
            &&& thread.active_turn_id == Some(turn_id) ==> after.mounted.contains(c) == (
            thread.mounted.contains(c) || connections.contains(c))
            &&& thread.active_turn_id != Some(turn_id) ==> after.mounted == thread.mounted
            &&& after == (LiveView { mounted: after.mounted, ..thread })
        }),
{
}

/// Whether a thread and its announcement follow from a change of its card: the announcement is owed
/// where the card changed and its turn runs, and the connections are mounted by it.
pub open spec fn is_announced(
    plain: LiveView,
    after: LiveView,
    told: Option<StartedView>,
    changes: bool,
    name: Seq<char>,
    turn_id: Seq<char>,
    connections: Seq<ConnectionId>,
) -> bool {
    let runs = plain.turns.runs(turn_id) && plain.active_turn_id == Some(turn_id);
    &&& !(changes && runs) ==> told is None
    &&& changes && runs ==> told == upsert_of(name, turn_id, plain.active)
    &&& told is None ==> after == plain
    &&& told is Some ==> after == mounted_by(plain, turn_id, connections)
}

/// Before an event is followed, its record enters the card: a snapshot or a report of spawns is
/// announced where it changed the card of the running turn. An abort ends the card's open tasks. The
/// end of a turn whose card can end makes it wait, under a new token. No other event does anything.
pub proof fn lemma_record_is_announced(
    thread: LiveView,
    name: Seq<char>,
    connections: Seq<ConnectionId>,
    event: Event,
    now: i64,
)
    ensures
        ({
            let after = thread.before_event(name, connections, event, now);
            let told = thread.bespoke_notification(name, event, now);
            let token = thread.bespoke_token(event);
            let runs = thread.active_turn_id is Some && thread.turns.has_active_turn;
            let settled = if event.msg is TurnAborted {
                thread.ended(abort_status(event.msg->reason))
            } else {
                thread
            };
            let ends = (event.msg is TurnComplete || event.msg is TurnAborted)
                && settled.can_complete(event.id@);
            &&& event.msg is SpineTreeUpdate ==> is_announced(
                thread.with_snapshot(event.msg->SpineTreeUpdate_0@, now),
                after,
                told,
                runs && thread.active.takes_snapshot(event.msg->SpineTreeUpdate_0@),
                name,
                event.id@,
                connections,
            )
            &&& event.msg is SpineSpawnProgress ==> is_announced(
                thread.with_progress(event.msg->SpineSpawnProgress_0@, now),
                after,
                told,
                runs && thread.active.takes_progress(event.msg->SpineSpawnProgress_0@),
                name,
                event.id@,
                connections,
            )
            &&& !(event.msg is SpineTreeUpdate || event.msg is SpineSpawnProgress)
                ==> told is None
            &&& token is Some == ends
            &&& token matches Some(t) ==> t >= thread.next_turn_order && (thread.next_turn_order
                < u64::MAX ==> t == thread.next_turn_order + 1) && after == settled.completing(
                event.id@,
            ) && after.next_turn_order == t
            &&& !ends && !(event.msg is SpineTreeUpdate || event.msg is SpineSpawnProgress)
                ==> after == settled
        }),
{
}

/// A followed event opens or closes cards as it is seen; a rollback drops every card besides, and
/// forgets the last end.
pub proof fn lemma_rollback_drops_the_live_cards(thread: LiveView, event: Event)
    ensures
        ({
            let after = thread.followed(event);
            &&& event.msg is ThreadRolledBack ==> after == (LiveView {
                last_terminal_turn_id: None,
                ..thread.without_cards()
            })
            &&& !(event.msg is ThreadRolledBack) ==> after == thread.observed(event.id@, event.msg)
        }),
{
}

/// A connection that comes to a thread is mounted to the card that it is shown: the active one with a
/// tree, else the newest that waits for its end, else none.
pub proof fn lemma_newcomer_is_mounted_to_what_it_sees(
    before: LiveView,
    after: LiveView,
    connection: ConnectionId,
    i: int,
)
    requires
        mounts(before, after, connection),
    ensures
        ({
            let active = before.active_turn_id is Some && before.active.snapshot is Some;
            &&& active ==> after.pending == before.pending && after.mounted == before.mounted.insert(
                connection,
            )
            &&& !active ==> after.mounted == before.mounted && after.pending.len()
                == before.pending.len()
            &&& !active && before.pending.len() > 0 ==> exists|k: int|
                0 <= k < before.pending.len() && (#[trigger] after.pending[k]).mounted.contains(
                    connection,
                ) && forall|j: int|
                    0 <= j < before.pending.len() ==> (#[trigger] before.pending[j]).order
                        <= before.pending[k].order
            &&& 0 <= i < before.pending.len() ==> {
                &&& after.pending[i].turn_id == before.pending[i].turn_id
                &&& after.pending[i].state == before.pending[i].state
                &&& after.pending[i].order == before.pending[i].order
                &&& forall|c: ConnectionId|
                    c != connection ==> (#[trigger] after.pending[i].mounted.contains(c)
                        == before.pending[i].mounted.contains(c))
            }
            &&& after == (LiveView { mounted: after.mounted, pending: after.pending, ..before })
        }),
{
    if before.pending.len() > 0 {
        crate::live::lemma_newest(before.pending);
        if !(before.active_turn_id is Some && before.active.snapshot is Some) {
            assert(after.pending[crate::live::newest(before.pending)].mounted.contains(connection));
        }
    }
}

/// An end goes to the connections that were shown the card and still listen, each once; there is one
/// where the card has a tree and a completion time.
pub proof fn lemma_end_goes_to_who_was_shown(
    r: Option<Ending>,
    name: Seq<char>,
    turn_id: Seq<char>,
    state: StateView,
    mounted: Set<ConnectionId>,
    subscribed: Seq<ConnectionId>,
    outcome: OutcomeView,
    c: ConnectionId,
)
    requires
        is_ending(r, name, turn_id, state, mounted, subscribed, outcome),
    ensures
        r is Some == (state.snapshot is Some && state.completed_at_ms is Some),
        r matches Some(e) ==> {
            &&& e.notification@.thread_id == name
            &&& e.notification@.turn_id == turn_id
            &&& Some(e.notification@.completed_at_ms) == state.completed_at_ms
            &&& Some(e.notification@) == terminal_of(name, turn_id, state, outcome)
            &&& e.connection_ids@.contains(c) == (mounted.contains(c) && subscribed.contains(c))
            &&& e.connection_ids@.no_duplicates()
        },
{
    crate::payload_laws::lemma_cards_are_announced(name, turn_id, state, outcome);
}

/// Whether an end tells that a turn's card failed with an error: the card as it was, completed.
pub open spec fn fails_the_card(
    e: Ending,
    name: Seq<char>,
    turn_id: Seq<char>,
    state: StateView,
    error: Seq<char>,
    now: i64,
) -> bool {
    exists|card: StateView|
        same_card(card, state.completed_by(now)) && Some(e.notification@) == #[trigger] terminal_of(
            name,
            turn_id,
            card,
            OutcomeView::ListenerFailed(error),
        )
}

/// A listener that fails ends the running turn's card as failed: the card's open tasks fail with the
/// error, and where the card can end, it ends at once. A listener that is not the current one, or one
/// without a turn, does nothing.
pub proof fn lemma_failed_listener_ends_the_card(
    before: LiveView,
    after: LiveView,
    r: (bool, Option<Ending>),
    name: Seq<char>,
    subscribed: Seq<ConnectionId>,
    listener_generation: u64,
    error: Seq<char>,
    now: i64,
)
    requires
        is_listener_failure(before, after, r, name, subscribed, listener_generation, error, now),
    ensures
        ({
            let counts = before.listener_generation == listener_generation
                && before.turns.latest is Some;
            let failed = before.ended(AgentStatusView::Errored(error));
            &&& !counts ==> after == before && r == (false, None::<Ending>)
            &&& before.turns.latest matches Some((turn_id, status)) ==> (counts ==> {
                &&& r.0 == failed.can_complete(turn_id)
                &&& !r.0 ==> after == failed && r.1 is None
                &&& r.0 ==> {
                    &&& after.active_turn_id is None
                    &&& after.cumulative == failed.active
                    &&& after.pending == before.pending
                    &&& after.next_revision > before.next_revision || before.next_revision
                        == u64::MAX
                    &&& r.1 is Some
                    &&& r.1 matches Some(e) ==> {
                        &&& fails_the_card(e, name, turn_id, failed.active, error, now)
                        &&& forall|c: ConnectionId| #[trigger]
                            e.connection_ids@.contains(c) == (before.mounted.contains(c)
                                && subscribed.contains(c))
                    }
                }
            })
        }),
{
    if before.listener_generation == listener_generation && before.turns.latest is Some {
        let turn_id = (before.turns.latest->0).0;
        let failed = before.ended(AgentStatusView::Errored(error));
        if failed.can_complete(turn_id) {
            let completing = failed.completing(turn_id);
            let token = crate::live::following(before.next_turn_order);
            let at = crate::live::pending_position(completing.pending, turn_id, token);
            lemma_waiting_card_is_found(completing.pending, turn_id, token);
            let card = completing.completed_card(completing.pending[at], now);
            crate::live_laws::lemma_waiting_card_ends(completing, at, now, 0);
            assert(completing.pending[at].state == failed.active) by {
                if at < before.pending.len() {
                    assert(completing.pending[at] == before.pending[at]);
                    assert(failed.pending[at].turn_id != turn_id);
                }
            }
            assert(card.completed_at_ms is Some) by {
                crate::agent_laws::lemma_cards_go_on(completing.pending[at].state, now, 0);
            }
            lemma_end_goes_to_who_was_shown(
                r.1,
                name,
                turn_id,
                card,
                completing.pending[at].mounted,
                subscribed,
                OutcomeView::ListenerFailed(error),
                ConnectionId(0),
            );
            assert(at == before.pending.len()) by {
                if at < before.pending.len() {
                    assert(completing.pending[at] == before.pending[at]);
                    assert(failed.pending[at].turn_id != turn_id);
                }
            }
            assert(completing.pending.remove(at) =~= before.pending);
            assert(same_card(card, failed.active.completed_by(now)));
        }
    }
}

/// What a followed event does to the routes: a rollback clears the thread where its own listener
/// reports it; a start begins the turn; a report of spawns makes routes and sends the cards of the
/// children that got one. No other event does anything.
pub proof fn lemma_followed_event_moves_the_routes(
    m: ManagerView,
    thread_id: ThreadId,
    instance: u64,
    listener_generation: u64,
    event: Event,
)
    ensures
        ({
            let after = m.after_followed(thread_id, instance, listener_generation, event);
            let sent = m.followed_commands(thread_id, instance, listener_generation, event);
            let own = m.threads.contains_key(thread_id) && m.threads[thread_id].listener_generation
                == listener_generation && m.threads[thread_id].instance == instance;
            let told = m.clear_invalidation(thread_id);
            &&& event.msg is ThreadRolledBack && own ==> after == m.cleared(thread_id)
            &&& event.msg is ThreadRolledBack && own && told is Some ==> sent.len() == 1 && sent[0]
                == told->0
            &&& event.msg is ThreadRolledBack && (!own || told is None) ==> sent.len() == 0
            &&& event.msg is ThreadRolledBack && !own ==> after == m
            &&& event.msg is TurnStarted ==> after == m.with_turn_started(
                thread_id,
                listener_generation,
                event.id@,
            ) && sent.len() == 0
            &&& event.msg is SpineSpawnProgress ==> ({
                let progress = event.msg->SpineSpawnProgress_0@;
                let routed = m.routed(thread_id, listener_generation, event.id@, progress);
                let children = m.routed_children(
                    thread_id,
                    listener_generation,
                    event.id@,
                    progress,
                );
                after == routed.after_queues(children) && sent == routed.queues(children)
            })
            &&& !(event.msg is ThreadRolledBack || event.msg is TurnStarted
                || event.msg is SpineSpawnProgress) ==> after == m && sent.len() == 0
        }),
{
}

/// A turn that is over is noted, its last card is sent where the thread's route expects it, and the
/// routes to the turn are gone.
pub proof fn lemma_turn_that_is_over_is_sent(
    m: ManagerView,
    thread_id: ThreadId,
    listener_generation: u64,
    turn_id: Seq<char>,
)
    ensures
        ({
            let noted = m.acknowledged(thread_id, listener_generation, turn_id);
            let route = m.routes[thread_id];
            let expects = m.threads.contains_key(thread_id)
                && m.threads[thread_id].listener_generation == listener_generation
                && m.routes.contains_key(thread_id) && (route.expected_child_turn_id is None
                || route.expected_child_turn_id == Some(turn_id));
            let after = m.turn_over(thread_id, listener_generation, turn_id);
            let sent = m.turn_over_commands(thread_id, listener_generation, turn_id);
            &&& expects ==> after == noted.after_queue(thread_id).without_turn_routes(
                thread_id,
                turn_id,
                listener_generation,
            )
            &&& !expects ==> after == noted.without_turn_routes(
                thread_id,
                turn_id,
                listener_generation,
            )
            &&& expects && noted.queued(thread_id) is Some ==> sent.len() == 1 && sent[0]
                == noted.queued(thread_id)->0
            &&& !expects || noted.queued(thread_id) is None ==> sent.len() == 0
        }),
{
}

/// After an event: an end with a token ends the card that waits under it, and the turn is over; with a
/// token that no card waits under, nothing happens. An end without a token is over without a card.
/// The start of a turn, a snapshot and a report of spawns send the card. Nothing is announced.
pub proof fn lemma_event_is_over(
    before: ManagerView,
    after: ManagerView,
    r: Output,
    thread_id: ThreadId,
    name: Seq<char>,
    subscribed: Seq<ConnectionId>,
    listener_generation: u64,
    event: Event,
    token: Option<u64>,
    now: i64,
)
    requires
        is_event_end(
            before,
            after,
            r,
            thread_id,
            name,
            subscribed,
            listener_generation,
            event,
            token,
            now,
        ),
    ensures
        ({
            let ends = event.msg is TurnComplete || event.msg is TurnAborted;
            let moves = event.msg is TurnStarted || event.msg is SpineTreeUpdate
                || event.msg is SpineSpawnProgress;
            let turn_id = event.id@;
            let thread = before.threads[thread_id].thread;
            let waits = token is Some && before.threads.contains_key(thread_id)
                && thread.listener_generation == listener_generation && exists|i: int|
                0 <= i < thread.pending.len() && (#[trigger] thread.pending[i]).turn_id == turn_id
                    && thread.pending[i].order == token->0;
            &&& r.started is None
            &&& !ends && !moves ==> after == before && r.ended is None && r.commands@.len() == 0
            &&& moves ==> after == before.after_queue(thread_id) && r.ended is None
            &&& moves && before.queued(thread_id) is Some ==> r.commands@.len() == 1
                && r.commands@[0]@ == before.queued(thread_id)->0
            &&& moves && before.queued(thread_id) is None ==> r.commands@.len() == 0
            &&& ends && token is None ==> r.ended is None && after == before.turn_over(
                thread_id,
                listener_generation,
                turn_id,
            ) && views(r.commands@) == before.turn_over_commands(
                thread_id,
                listener_generation,
                turn_id,
            )
            &&& ends && token is Some && !waits ==> after == before && r.ended is None
                && r.commands@.len() == 0
            &&& ends && waits ==> exists|i: int|
                0 <= i < thread.pending.len() && (#[trigger] thread.pending[i]).turn_id == turn_id
                    && thread.pending[i].order == token->0 && ({
                    let closed = before.with_thread(thread_id, thread.finalized(i, now));
                    &&& after == closed.turn_over(thread_id, listener_generation, turn_id)
                    &&& views(r.commands@) == closed.turn_over_commands(
                        thread_id,
                        listener_generation,
                        turn_id,
                    )
                    &&& r.ended matches Some(e) ==> Some(e.notification@) == terminal_of(
                        name,
                        turn_id,
                        thread.completed_card(thread.pending[i], now),
                        if event.msg is TurnComplete {
                            OutcomeView::Completed
                        } else {
                            OutcomeView::Aborted(event.msg->reason)
                        },
                    ) && forall|c: ConnectionId| #[trigger]
                        e.connection_ids@.contains(c) == (thread.pending[i].mounted.contains(c)
                            && subscribed.contains(c))
                    &&& r.ended is None ==> thread.pending[i].state.snapshot is None
                })
        }),
{
    let turn_id = event.id@;
    let thread = before.threads[thread_id].thread;
    assert(views(r.commands@).len() == r.commands@.len());
    if r.commands@.len() > 0 {
        assert(views(r.commands@)[0] == r.commands@[0]@);
    }
    if token is Some {
        lemma_waiting_card_is_found(thread.pending, turn_id, token->0);
        let at = crate::live::pending_position(thread.pending, turn_id, token->0);
        if at < thread.pending.len() {
            assert(thread.pending[at].turn_id == turn_id);
            let card = thread.completed_card(thread.pending[at], now);
            crate::agent_laws::lemma_cards_go_on(thread.pending[at].state, now, 0);
            crate::live_laws::lemma_waiting_card_ends(thread, at, now, 0);
            if event_outcome(event.msg) is Some {
                crate::payload_laws::lemma_cards_are_announced(
                    name,
                    turn_id,
                    card,
                    event_outcome(event.msg)->0,
                );
            }
        }
    }
}

/// A child's card that comes over its current route to a running turn under its listener is shown on
/// the turn's card, announced to the connections, which are mounted, and sent on; one that changes
/// nothing, and one over another route, does nothing.
pub proof fn lemma_forwarded_card_is_shown(
    m: ManagerView,
    thread_id: ThreadId,
    name: Seq<char>,
    child: ThreadId,
    turn_id: Seq<char>,
    listener_generation: u64,
    generation: u64,
    state: Option<StateView>,
    subscribed: Seq<ConnectionId>,
)
    ensures
        ({
            let thread = m.threads[thread_id].thread;
            let route = m.routes[child];
            let current = m.routes.contains_key(child) && route.parent_thread_id == thread_id
                && route.parent_turn_id == turn_id && route.parent_listener_generation
                == listener_generation && route.generation == generation;
            let runs = m.threads.contains_key(thread_id) && thread.listener_generation
                == listener_generation && thread.turns.runs(turn_id) && thread.active_turn_id
                == Some(turn_id);
            let takes = current && runs && state is Some && thread.active.takes_agent(
                child,
                generation,
                state->0,
            );
            let plain = thread.with_agent(child, generation, state->0);
            let shown = m.with_thread(thread_id, mounted_by(plain, turn_id, subscribed));
            let after = m.forward_handled(
                thread_id,
                child,
                turn_id,
                listener_generation,
                generation,
                state,
                subscribed,
            );
            let told = m.forward_notification(
                name,
                thread_id,
                child,
                turn_id,
                listener_generation,
                generation,
                state,
            );
            let sent = m.forward_commands(
                thread_id,
                child,
                turn_id,
                listener_generation,
                generation,
                state,
                subscribed,
            );
            &&& !takes ==> after == m && told is None && sent.len() == 0
            &&& takes ==> {
                &&& after == shown.after_queue(thread_id)
                &&& told == upsert_of(name, turn_id, plain.active)
                &&& shown.queued(thread_id) is Some ==> sent.len() == 1 && sent[0]
                    == shown.queued(thread_id)->0
                &&& shown.queued(thread_id) is None ==> sent.len() == 0
            }
        }),
{
}

/// A delivery that is awaited is noted, and the child's next card is sent; another changes nothing.
pub proof fn lemma_delivery_sends_the_next_card(
    m: ManagerView,
    child: ThreadId,
    parent: ThreadId,
    turn_id: Seq<char>,
    generation: u64,
    revision: u64,
)
    ensures
        ({
            let route = m.routes[child];
            let awaited = m.routes.contains_key(child) && route.parent_thread_id == parent
                && route.parent_turn_id == turn_id && route.generation == generation
                && route.queued_revision == Some(revision);
            let noted = m.delivered(child, parent, turn_id, generation, revision);
            let after = m.next_forward(child, parent, turn_id, generation, revision);
            let sent = m.next_forward_commands(child, parent, turn_id, generation, revision);
            &&& !awaited ==> after == m && sent.len() == 0
            &&& awaited ==> after == noted.after_queue(child)
            &&& awaited && noted.queued(child) is Some ==> sent.len() == 1 && sent[0]
                == noted.queued(child)->0
            &&& awaited && noted.queued(child) is None ==> sent.len() == 0
        }),
{
}

} // verus!
