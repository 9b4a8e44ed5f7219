//! What happens to the card of a thread that shows it while its turn runs, seen from outside.
use crate::events::{opens_card, EventMsg};
use crate::live::{
    following, larger, newest, node_ids, pending_position, LiveView, PendingView,
};
use crate::protocol::{
    AgentStatusView, ConnectionId, NodeView, SpawnProgressView, ThreadId, TreeUpdateView,
};
use crate::retained_laws::same_card;
use crate::state::{empty_state, StateView};
use crate::turns::TurnReportView;
use vstd::prelude::*;

verus! {

/// Revisions and orders grow by one until there are no more numbers, and never fall.
pub proof fn lemma_numbers_grow(a: u64, b: u64)
    ensures
        larger(a, b) >= a && larger(a, b) >= b && (larger(a, b) == a || larger(a, b) == b),
        following(a) >= a,
        a < u64::MAX ==> following(a) == a + 1,
{
}

/// Whether a thread differs from another in its active card and the revisions given out alone.
pub open spec fn only_card_differs(a: LiveView, b: LiveView) -> bool {
    b == (LiveView { active: b.active, next_revision: b.next_revision, ..a })
}

/// Whether the active card of a thread became another one: a card that changed has a revision of its
/// own, above every one before it.
pub open spec fn card_became(was: LiveView, is: LiveView, card: StateView, changes: bool) -> bool {
    &&& only_card_differs(was, is)
    &&& same_card(is.active, card)
    &&& !changes ==> is.active.revision == card.revision && is.next_revision == was.next_revision
    &&& changes ==> is.active.revision == is.next_revision && is.next_revision >= card.revision
        && is.next_revision >= was.next_revision && (was.next_revision < u64::MAX
        ==> is.next_revision > was.next_revision) && (is.next_revision == card.revision
        || is.next_revision == u64::MAX || is.next_revision == was.next_revision + 1)
}

/// A snapshot or a report of spawns enters the card of a running turn; between turns a snapshot goes to
/// what the next card starts from, and a report goes nowhere. An agent's card, its invalidation and an
/// end act on the active card. Every change has a newer revision than all before it.
pub proof fn lemma_live_card_takes_records(
    thread: LiveView,
    snapshot: TreeUpdateView,
    progress: SpawnProgressView,
    child: ThreadId,
    generation: u64,
    state: StateView,
    terminal: AgentStatusView,
    now: i64,
)
    ensures
        ({
            let runs = thread.active_turn_id is Some && thread.turns.has_active_turn;
            &&& runs ==> card_became(
                thread,
                thread.with_snapshot(snapshot, now),
                thread.active.with_snapshot(snapshot, now),
                thread.active.takes_snapshot(snapshot),
            )
            &&& !runs ==> thread.with_snapshot(snapshot, now) == (LiveView {
                cumulative: thread.cumulative.with_snapshot(snapshot, now),
                ..thread
            })
            &&& runs ==> card_became(
                thread,
                thread.with_progress(progress, now),
                thread.active.with_progress(progress, now),
                thread.active.takes_progress(progress),
            )
            &&& !runs ==> thread.with_progress(progress, now) == thread
        }),
        card_became(
            thread,
            thread.with_agent(child, generation, state),
            thread.active.with_agent(child, generation, state),
            thread.active.takes_agent(child, generation, state),
        ),
        card_became(
            thread,
            thread.without_agent(child, generation),
            thread.active.without_agent(child, generation),
            thread.active.drops_agent(child, generation),
        ),
        card_became(
            thread,
            thread.ended(terminal),
            thread.active.ended(terminal),
            thread.active.incomplete(),
        ),
{
}

/// The waiting card of a turn and token is the first with both; there is none where no card has both.
pub proof fn lemma_waiting_card_is_found(
    pending: Seq<PendingView>,
    turn_id: Seq<char>,
    token: u64,
)
    ensures
        ({
            let at = pending_position(pending, turn_id, token);
            &&& 0 <= at <= pending.len()
            &&& at < pending.len() ==> pending[at].turn_id == turn_id && pending[at].order == token
            &&& forall|i: int|
                0 <= i < at ==> !((#[trigger] pending[i]).turn_id == turn_id && pending[i].order
                    == token)
        }),
{
    crate::keyed::lemma_position(
        pending,
        |p: PendingView| p.turn_id == turn_id && p.order == token,
    );
}

/// Whether a node of that identity is among the nodes.
pub open spec fn has_node(nodes: Seq<NodeView>, id: Seq<char>) -> bool {
    exists|i: int| 0 <= i < nodes.len() && (#[trigger] nodes[i]).node_id == id
}

/// The running turn's card is the active one while its turn runs. A child that spawns under it is
/// shown what is not among the nodes of that card yet, or, before it has a tree, of what it starts
/// from. What a parent should see is the latest turn's card once it has a tree, else the newest card
/// that waits for its end, else the last ended one.
pub proof fn lemma_live_cards_have_their_places(
    thread: LiveView,
    turn_id: Seq<char>,
    id: Seq<char>,
)
    ensures
        ({
            let runs = thread.turns.runs(turn_id) && thread.active_turn_id == Some(turn_id);
            &&& thread.live(turn_id) is Some == runs
            &&& runs ==> thread.live(turn_id)->0 == thread.active
            &&& thread.baseline(turn_id) is Some == runs
            &&& runs && thread.active.snapshot is Some ==> thread.baseline(turn_id)->0.contains(id)
                == has_node(thread.active.snapshot->0.nodes, id)
            &&& runs && thread.active.snapshot is None ==> thread.baseline(turn_id)->0.contains(id)
                == (thread.cumulative.snapshot is Some && has_node(
                thread.cumulative.snapshot->0.nodes,
                id,
            ))
        }),
        ({
            let shows = thread.active.snapshot is Some && thread.active_turn_id is Some
                && thread.turns.is_latest(thread.active_turn_id);
            &&& shows ==> thread.forwarded() == Some(thread.active) && thread.active_card()
                == Some((thread.active_turn_id->0, thread.active))
            &&& !shows ==> thread.active_card() is None
            &&& !shows && thread.pending.len() > 0 ==> exists|k: int|
                0 <= k < thread.pending.len() && thread.forwarded() == Some(
                    (#[trigger] thread.pending[k]).state,
                ) && forall|i: int|
                    0 <= i < thread.pending.len() ==> (#[trigger] thread.pending[i]).order
                        <= thread.pending[k].order
            &&& !shows && thread.pending.len() == 0 ==> thread.forwarded() == thread.terminal
        }),
        thread.has_card() == (thread.active_turn_id is Some && thread.turns.has_active_turn),
{
    if thread.pending.len() > 0 {
        crate::live::lemma_newest(thread.pending);
        let k = newest(thread.pending);
        assert(thread.pending[k].state == thread.pending[k].state);
    }
}

/// Which turn runs, and which is the latest: the latest turn alone runs, while it is in progress.
pub proof fn lemma_latest_turn_alone_runs(
    turns: TurnReportView,
    turn_id: Seq<char>,
    other: Seq<char>,
)
    ensures
        turns.runs(turn_id) ==> turns.is_latest(Some(turn_id)),
        turns.is_latest(Some(turn_id)) && turns.is_latest(Some(other)) ==> turn_id == other,
        !turns.is_latest(None),
        turns.latest is None ==> !turns.is_latest(Some(turn_id)),
        turns.latest matches Some((id, status)) ==> turns.is_latest(Some(id)) && (turns.runs(id)
            == (status is InProgress)),
{
}

/// Seen by the card before the event is reported: the start of a turn drops the card of the one before
/// and the last ended card. A tree tool's call or a report of spawns in a running turn opens the turn's
/// card, mounted by nobody, from what the last one handed on; a card that is open stays. No other
/// event does anything here.
pub proof fn lemma_cards_open_and_close(thread: LiveView, turn_id: Seq<char>, event: EventMsg)
    ensures
        ({
            let after = thread.observed(turn_id, event);
            let opens = thread.turns.runs(turn_id) && (event is SpineSpawnProgress || (
            event is RawResponseItem && crate::events::affects_tree(event->RawResponseItem_0)));
            &&& event is TurnStarted ==> after == (LiveView {
                terminal: None,
                active: empty_state(),
                active_turn_id: None,
                mounted: Set::empty(),
                ..thread
            })
            &&& opens && thread.active_turn_id != Some(turn_id) ==> after == (LiveView {
                active: thread.cumulative.carried(),
                active_turn_id: Some(turn_id),
                mounted: Set::empty(),
                ..thread
            })
            &&& opens && thread.active_turn_id == Some(turn_id) ==> after == thread
            &&& !opens && !(event is TurnStarted) ==> after == thread
        }),
        opens_card(event) ==> event is SpineSpawnProgress || event is RawResponseItem,
{
}

/// Dropped cards leave nothing behind that could be shown; numbers given out stay given out.
pub proof fn lemma_dropped_cards_are_gone(thread: LiveView)
    ensures
        ({
            let after = thread.without_cards();
            &&& after.active == empty_state() && after.cumulative == empty_state()
            &&& after.active_turn_id is None && after.terminal is None
            &&& after.pending.len() == 0
            &&& forall|c: ConnectionId| !(#[trigger] after.mounted.contains(c))
            &&& after.forwarded() is None
            &&& after.listener_generation == thread.listener_generation
            &&& after.experimental_raw_events == thread.experimental_raw_events
            &&& after.last_terminal_turn_id == thread.last_terminal_turn_id
            &&& after.started_at == thread.started_at && after.turns == thread.turns
            &&& after.next_turn_order == thread.next_turn_order
            &&& after.terminal_order == thread.terminal_order
            &&& after.next_revision == thread.next_revision
        }),
{
}

/// A reported event leaves the cards alone: the turns are as reported, but that an ended turn with no
/// other running leaves none and is remembered; a start notes its time and forgets the last end.
pub proof fn lemma_live_events_are_followed(
    thread: LiveView,
    turn_id: Seq<char>,
    event: EventMsg,
    report: TurnReportView,
)
    ensures
        ({
            let after = thread.with_event(turn_id, event, report);
            let ended = (event is TurnComplete || event is TurnAborted)
                && !report.has_active_turn;
            &&& ended ==> after.turns.latest is None && !after.turns.has_active_turn
                && after.last_terminal_turn_id == Some(turn_id)
            &&& !ended ==> after.turns == report
            &&& event is TurnStarted ==> after.last_terminal_turn_id is None && after.started_at
                == event->started_at
            &&& !(event is TurnStarted) ==> after.started_at == thread.started_at && (!ended
                ==> after.last_terminal_turn_id == thread.last_terminal_turn_id)
            &&& after == (LiveView {
                turns: after.turns,
                last_terminal_turn_id: after.last_terminal_turn_id,
                started_at: after.started_at,
                ..thread
            })
        }),
{
}

/// A turn's card can end once: it is the active one, has a tree, and does not wait for its end already.
/// It then waits last, with its mounts and a new order, and the next card starts from it.
pub proof fn lemma_ending_card_waits(thread: LiveView, turn_id: Seq<char>)
    ensures
        thread.can_complete(turn_id) == (thread.active_turn_id == Some(turn_id)
            && thread.active.snapshot is Some && !exists|i: int|
            0 <= i < thread.pending.len() && (#[trigger] thread.pending[i]).turn_id == turn_id),
        ({
            let after = thread.completing(turn_id);
            let last = after.pending.last();
            &&& after.pending.len() == thread.pending.len() + 1
            &&& after.pending.drop_last() == thread.pending
            &&& last.turn_id == turn_id && last.state == thread.active && last.mounted
                == thread.mounted
            &&& last.order == after.next_turn_order
            &&& thread.next_turn_order < u64::MAX ==> last.order == thread.next_turn_order + 1
            &&& after.cumulative == thread.active
            &&& after.active == empty_state() && after.active_turn_id is None
            &&& forall|c: ConnectionId| !(#[trigger] after.mounted.contains(c))
            &&& !after.can_complete(turn_id)
            &&& after == (LiveView {
                pending: after.pending,
                cumulative: after.cumulative,
                active: after.active,
                active_turn_id: after.active_turn_id,
                mounted: after.mounted,
                next_turn_order: after.next_turn_order,
                ..thread
            })
        }),
{
    assert(thread.completing(turn_id).pending.drop_last() =~= thread.pending);
}

/// A waiting card that ends leaves the ones that wait, gets its completion time and a new revision, and
/// is the last ended card unless a later turn's card ended before it.
pub proof fn lemma_waiting_card_ends(thread: LiveView, at: int, now: i64, i: int)
    requires
        0 <= at < thread.pending.len(),
    ensures
        ({
            let after = thread.finalized(at, now);
            let card = thread.pending[at];
            let shown = thread.completed_card(card, now);
            &&& after.pending.len() == thread.pending.len() - 1
            &&& 0 <= i < after.pending.len() ==> after.pending[i] == (if i < at {
                thread.pending[i]
            } else {
                thread.pending[i + 1]
            })
            &&& same_card(shown, card.state.completed_by(now))
            &&& shown.revision == after.next_revision
            &&& after.next_revision >= thread.next_revision && after.next_revision
                >= card.state.revision
            &&& thread.next_revision < u64::MAX ==> after.next_revision > thread.next_revision
            &&& card.order >= thread.terminal_order ==> after.terminal == Some(shown)
                && after.terminal_order == card.order
            &&& card.order < thread.terminal_order ==> after.terminal == thread.terminal
                && after.terminal_order == thread.terminal_order
            &&& after == (LiveView {
                pending: after.pending,
                next_revision: after.next_revision,
                terminal: after.terminal,
                terminal_order: after.terminal_order,
                ..thread
            })
        }),
{
}

/// The nodes of a tree are named by their identities.
pub proof fn lemma_node_ids_name_the_nodes(nodes: Seq<NodeView>, id: Seq<char>)
    ensures
        node_ids(nodes).contains(id) == has_node(nodes, id),
{
}

} // verus!
