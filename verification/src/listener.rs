//! What a thread's listener does to the cards at each step of an event.
//!
//! Every function here works on plain state. It hands back the notifications and commands to send.
use crate::card::{
    snapshot_terminal_notification, snapshot_upsert_notification, started_view, terminal_of,
    upsert_of, ItemCompletedNotification, ItemStartedNotification, OutcomeView,
    SpineUiTerminalOutcome, StartedView,
};
use crate::events::{Event, EventMsg};
use crate::keyed::views;
use crate::live::{
    following, pending_position, state_view, LiveThread, LiveView, SpineUiCompletion,
};
use crate::protocol::{AgentStatus, AgentStatusView, ConnectionId, ThreadId, TurnAbortReason};
use crate::routes::{sent_view, Command, ManagerView, RouteManager, Sent, SentView};
use crate::state::{SpineUiState, StateView};
use crate::text::join;
use vstd::prelude::*;

verus! {

/// The diagnostic name of an abort reason.
pub open spec fn abort_label(reason: TurnAbortReason) -> Seq<char> {
    match reason {
        TurnAbortReason::Interrupted => "Interrupted"@,
        TurnAbortReason::Replaced => "Replaced"@,
        TurnAbortReason::ReviewEnded => "ReviewEnded"@,
        TurnAbortReason::BudgetLimited => "BudgetLimited"@,
    }
}

/// The status that an aborted turn gives its incomplete agents.
pub open spec fn abort_status(reason: TurnAbortReason) -> AgentStatusView {
    match reason {
        TurnAbortReason::Interrupted => AgentStatusView::Interrupted,
        TurnAbortReason::BudgetLimited => AgentStatusView::Interrupted,
        _ => AgentStatusView::Errored("child turn aborted: "@ + abort_label(reason)),
    }
}

fn status_of_abort(reason: &TurnAbortReason) -> (r: AgentStatus)
    ensures
        r@ == abort_status(*reason),
{
    match reason {
        TurnAbortReason::Interrupted => AgentStatus::Interrupted,
        TurnAbortReason::BudgetLimited => AgentStatus::Interrupted,
        TurnAbortReason::Replaced => AgentStatus::Errored(join("child turn aborted: ", "Replaced")),
        TurnAbortReason::ReviewEnded => AgentStatus::Errored(
            join("child turn aborted: ", "ReviewEnded"),
        ),
    }
}

/// How an event ends a turn.
pub open spec fn event_outcome(event: EventMsg) -> Option<OutcomeView> {
    match event {
        EventMsg::TurnComplete => Some(OutcomeView::Completed),
        EventMsg::TurnAborted { reason } => Some(OutcomeView::Aborted(reason)),
        _ => None,
    }
}

/// The notification that a card's change owes: none without a change or without a live card.
pub open spec fn owed_upsert(
    changed: bool,
    after: LiveView,
    thread: Seq<char>,
    turn_id: Seq<char>,
) -> Option<StartedView> {
    match after.live(turn_id) {
        Some(state) => if changed {
            upsert_of(thread, turn_id, state)
        } else {
            None
        },
        None => None,
    }
}

/// The cards once some connections show a turn's card.
pub open spec fn mounted_by(
    thread: LiveView,
    turn_id: Seq<char>,
    connections: Seq<ConnectionId>,
) -> LiveView {
    LiveView {
        mounted: if thread.active_turn_id == Some(turn_id) {
            thread.mounted.union(connections.to_set())
        } else {
            thread.mounted
        },
        ..thread
    }
}

/// The cards after a change that was announced, if it was.
pub open spec fn announced(
    after: LiveView,
    notification: Option<StartedView>,
    turn_id: Seq<char>,
    connections: Seq<ConnectionId>,
) -> LiveView {
    if notification is Some {
        mounted_by(after, turn_id, connections)
    } else {
        after
    }
}

impl LiveView {
    /// The cards after the current listener followed an event.
    pub open spec fn followed(self, event: Event) -> LiveView {
        let observed = self.observed(event.id@, event.msg);
        if event.msg is ThreadRolledBack {
            LiveView { last_terminal_turn_id: None, ..observed.without_cards() }
        } else {
            observed
        }
    }

    /// What the card of a turn announces before an event is handled.
    pub open spec fn bespoke_notification(
        self,
        thread: Seq<char>,
        event: Event,
        now: i64,
    ) -> Option<StartedView> {
        match event.msg {
            EventMsg::SpineTreeUpdate(snapshot) => owed_upsert(
                self.has_card() && self.active.takes_snapshot(snapshot@),
                self.with_snapshot(snapshot@, now),
                thread,
                event.id@,
            ),
            EventMsg::SpineSpawnProgress(progress) => owed_upsert(
                self.has_card() && self.active.takes_progress(progress@),
                self.with_progress(progress@, now),
                thread,
                event.id@,
            ),
            _ => None,
        }
    }

    /// The cards with the incomplete agents of an aborted turn ended.
    pub open spec fn aborted_by(self, event: EventMsg) -> LiveView {
        match event {
            EventMsg::TurnAborted { reason } => self.ended(abort_status(reason)),
            _ => self,
        }
    }

    /// The completion token that an event of a turn begins.
    pub open spec fn bespoke_token(self, event: Event) -> Option<u64> {
        if event_outcome(event.msg) is Some && self.aborted_by(event.msg).can_complete(event.id@) {
            Some(following(self.next_turn_order))
        } else {
            None
        }
    }

    /// The cards once an event is about to be handled.
    pub open spec fn before_event(
        self,
        thread: Seq<char>,
        connections: Seq<ConnectionId>,
        event: Event,
        now: i64,
    ) -> LiveView {
        let notification = self.bespoke_notification(thread, event, now);
        match event.msg {
            EventMsg::SpineTreeUpdate(snapshot) => announced(
                self.with_snapshot(snapshot@, now),
                notification,
                event.id@,
                connections,
            ),
            EventMsg::SpineSpawnProgress(progress) => announced(
                self.with_progress(progress@, now),
                notification,
                event.id@,
                connections,
            ),
            _ => {
                let ended = self.aborted_by(event.msg);
                if self.bespoke_token(event) is Some {
                    ended.completing(event.id@)
                } else {
                    ended
                }
            },
        }
    }
}

/// Follows an event on a thread's cards for its current listener. Says whether it is the current
/// one.
pub fn follow_event(
    thread: &mut LiveThread,
    listener_generation: u64,
    event: &Event,
) -> (current: bool)
    ensures
        current == (old(thread)@.listener_generation == listener_generation),
        final(thread)@ == (if current {
            old(thread)@.followed(*event)
        } else {
            old(thread)@
        }),
{
    if thread.listener_generation != listener_generation {
        return false;
    }
    thread.observe_spine_ui_event(event.id.as_str(), &event.msg);
    match &event.msg {
        EventMsg::ThreadRolledBack => {
            thread.reset_spine_ui_after_rollback();
        },
        _ => {},
    }
    true
}

/// Records an event on a thread's cards before it is handled: trees and spawn progress, which may be
/// announced to the connections, and the end of a turn, which yields a completion token.
pub fn before_bespoke_enabled(
    thread: &mut LiveThread,
    thread_name: &str,
    connection_ids: &Vec<ConnectionId>,
    listener_generation: u64,
    event: &Event,
    now: i64,
) -> (r: (Option<ItemStartedNotification>, Option<u64>))
    ensures
        if old(thread)@.listener_generation == listener_generation {
            &&& started_view(r.0) == old(thread)@.bespoke_notification(thread_name@, *event, now)
            &&& r.1 == old(thread)@.bespoke_token(*event)
            &&& final(thread)@ == old(thread)@.before_event(
                thread_name@,
                connection_ids@,
                *event,
                now,
            )
        } else {
            r.0 is None && r.1 is None && final(thread)@ == old(thread)@
        },
{
    if thread.listener_generation != listener_generation {
        return (None, None);
    }
    let turn_id = event.id.as_str();
    match &event.msg {
        EventMsg::SpineTreeUpdate(snapshot) => {
            let changed = thread.record_spine_ui_snapshot(snapshot.clone(), now);
            (announce(thread, changed, thread_name, turn_id, connection_ids), None)
        },
        EventMsg::SpineSpawnProgress(progress) => {
            let changed = thread.record_spine_ui_spawn_progress(progress.clone(), now);
            (announce(thread, changed, thread_name, turn_id, connection_ids), None)
        },
        EventMsg::TurnComplete => (None, thread.begin_spine_ui_turn_completion(turn_id)),
        EventMsg::TurnAborted { reason } => {
            let _ = thread.terminalize_spine_ui_incomplete_agents(&status_of_abort(reason));
            (None, thread.begin_spine_ui_turn_completion(turn_id))
        },
        _ => (None, None),
    }
}

fn announce(
    thread: &mut LiveThread,
    changed: bool,
    thread_name: &str,
    turn_id: &str,
    connection_ids: &Vec<ConnectionId>,
) -> (r: Option<ItemStartedNotification>)
    ensures
        started_view(r) == owed_upsert(changed, old(thread)@, thread_name@, turn_id@),
        final(thread)@ == announced(old(thread)@, started_view(r), turn_id@, connection_ids@),
{
    if !changed {
        return None;
    }
    let notification = match thread.live_spine_ui(turn_id) {
        Some(state) => snapshot_upsert_notification(thread_name, turn_id, state),
        None => None,
    };
    if notification.is_some() {
        thread.mark_spine_ui_mounted(turn_id, connection_ids);
    }
    notification
}

/// Refreshes a turn's card for a thread's connections, for the listener that filled it.
pub fn emit_invalidation(
    thread: &mut LiveThread,
    thread_name: &str,
    connection_ids: &Vec<ConnectionId>,
    listener_generation: u64,
    turn_id: &str,
) -> (r: Option<ItemStartedNotification>)
    ensures
        ({
            let before = old(thread)@;
            if before.listener_generation == listener_generation && before.live(turn_id@) is Some {
                started_view(r) == upsert_of(thread_name@, turn_id@, before.active)
                    && final(thread)@ == mounted_by(before, turn_id@, connection_ids@)
            } else {
                r is None && final(thread)@ == before
            }
        }),
{
    if thread.listener_generation != listener_generation {
        return None;
    }
    let notification = match thread.live_spine_ui(turn_id) {
        Some(state) => snapshot_upsert_notification(thread_name, turn_id, state),
        None => {
            return None;
        },
    };
    thread.mark_spine_ui_mounted(turn_id, connection_ids);
    notification
}

/// Mounts the newest card for a connection that joins.
pub fn mount_for_connection(
    enabled: bool,
    thread: &mut LiveThread,
    thread_name: &str,
    connection_id: ConnectionId,
) -> (r: Option<ItemStartedNotification>)
    ensures
        !enabled ==> r is None && final(thread)@ == old(thread)@,
        enabled ==> ({
            let before = old(thread)@;
            let at = crate::live::newest(before.pending);
            if before.active_turn_id is Some && before.active.snapshot is Some {
                started_view(r) == upsert_of(
                    thread_name@,
                    before.active_turn_id->0,
                    before.active,
                )
            } else if before.pending.len() > 0 {
                started_view(r) == upsert_of(
                    thread_name@,
                    before.pending[at].turn_id,
                    before.pending[at].state,
                )
            } else {
                r is None
            }
        }),
        enabled ==> mounts(old(thread)@, final(thread)@, connection_id),
{
    if !enabled {
        return None;
    }
    match thread.mount_spine_ui_for_connection(connection_id) {
        Some((turn_id, state)) => snapshot_upsert_notification(
            thread_name,
            turn_id.as_str(),
            &state,
        ),
        None => None,
    }
}

/// The cards before and after a connection joined: the newest one notes the connection.
pub open spec fn mounts(before: LiveView, after: LiveView, connection_id: ConnectionId) -> bool {
    let at = crate::live::newest(before.pending);
    if before.active_turn_id is Some && before.active.snapshot is Some {
        after == (LiveView { mounted: before.mounted.insert(connection_id), ..before })
    } else if before.pending.len() > 0 {
        after == (LiveView {
            pending: before.pending.update(
                at,
                crate::live::PendingView {
                    mounted: before.pending[at].mounted.insert(connection_id),
                    ..before.pending[at]
                },
            ),
            ..before
        })
    } else {
        after == before
    }
}

/// The connections that showed a card and are still subscribed, in the card's order.
pub fn still_subscribed(
    connection_ids: Vec<ConnectionId>,
    subscribed: &Vec<ConnectionId>,
) -> (r: Vec<ConnectionId>)
    ensures
        r@ == connection_ids@.filter(|c: ConnectionId| subscribed@.contains(c)),
{
    let listed = |c: &ConnectionId| -> (b: bool)
        ensures
            b == subscribed@.contains(c@),
    {
        let mut i: usize = 0;
        while i < subscribed.len() && subscribed[i] != *c
            invariant
                i <= subscribed.len(),
                forall|k: int| 0 <= k < i ==> subscribed@[k] != *c,
            decreases subscribed.len() - i,
        {
            i += 1;
        }
        i < subscribed.len()
    };
    let r = crate::keyed::retain_items(
        connection_ids,
        listed,
        Ghost(|c: ConnectionId| subscribed@.contains(c)),
    );
    assert(views(r@) =~= r@);
    assert(views(connection_ids@) =~= connection_ids@);
    r
}

/// A card's end and the connections to tell.
pub struct Ending {
    pub notification: ItemCompletedNotification,
    pub connection_ids: Vec<ConnectionId>,
}

/// The end of a card: owed where the card has a snapshot, to its connections that are still
/// subscribed.
pub open spec fn is_ending(
    r: Option<Ending>,
    thread_name: Seq<char>,
    turn_id: Seq<char>,
    state: StateView,
    mounted: Set<ConnectionId>,
    subscribed: Seq<ConnectionId>,
    outcome: OutcomeView,
) -> bool {
    match r {
        Some(e) => {
            &&& Some(e.notification@) == terminal_of(thread_name, turn_id, state, outcome)
            &&& e.connection_ids@.no_duplicates()
            &&& forall|c: ConnectionId| #[trigger]
                e.connection_ids@.contains(c) == (mounted.contains(c) && subscribed.contains(c))
        },
        None => terminal_of(thread_name, turn_id, state, outcome) is None,
    }
}

proof fn lemma_filter_distinct<A>(s: Seq<A>, p: spec_fn(A) -> bool)
    requires
        s.no_duplicates(),
    ensures
        s.filter(p).no_duplicates(),
        forall|x: A| #[trigger] s.filter(p).contains(x) == (s.contains(x) && p(x)),
    decreases s.len(),
{
    reveal(Seq::filter);
    if s.len() > 0 {
        let rest = s.drop_last();
        let last = s.last();
        lemma_filter_distinct(rest, p);
        assert(s =~= rest.push(last));
        assert forall|x: A| s.contains(x) == (rest.contains(x) || x == last) by {
            if rest.contains(x) {
                let i = choose|i: int| 0 <= i < rest.len() && rest[i] == x;
                assert(s[i] == x);
            }
            if x == last {
                assert(s[s.len() - 1] == x);
            }
            if s.contains(x) && x != last {
                let i = choose|i: int| 0 <= i < s.len() && s[i] == x;
                assert(rest[i] == x);
            }
        }
        assert(!rest.contains(last)) by {
            if rest.contains(last) {
                let i = choose|i: int| 0 <= i < rest.len() && rest[i] == last;
                assert(s[i] == s[s.len() - 1]);
            }
        }
        let f = rest.filter(p);
        if p(last) {
            assert(s.filter(p) =~= f.push(last));
            assert forall|x: A| f.push(last).contains(x) == (f.contains(x) || x == last) by {
                if f.contains(x) {
                    let i = choose|i: int| 0 <= i < f.len() && f[i] == x;
                    assert(f.push(last)[i] == x);
                }
                if x == last {
                    assert(f.push(last)[f.len() as int] == x);
                }
            }
            assert(!f.contains(last));
            assert forall|x: A| #[trigger] s.filter(p).contains(x) == (s.contains(x) && p(x)) by {
                assert(f.push(last).contains(x) == (f.contains(x) || x == last));
                assert(f.contains(x) == (rest.contains(x) && p(x)));
                assert(s.contains(x) == (rest.contains(x) || x == last));
            }
            assert forall|i: int, j: int| 0 <= i < j < f.push(last).len() implies f.push(last)[i]
                != f.push(last)[j] by {
                if j == f.len() {
                    assert(f.contains(f[i]));
                }
            }
        } else {
            assert forall|x: A| #[trigger] s.filter(p).contains(x) == (s.contains(x) && p(x)) by {
                assert(f.contains(x) == (rest.contains(x) && p(x)));
                assert(s.contains(x) == (rest.contains(x) || x == last));
            }
        }
    }
}

fn ending_of(
    thread_name: &str,
    turn_id: &str,
    completion: SpineUiCompletion,
    subscribed: &Vec<ConnectionId>,
    outcome: &SpineUiTerminalOutcome,
) -> (r: Option<Ending>)
    requires
        completion.connection_ids@.no_duplicates(),
    ensures
        is_ending(
            r,
            thread_name@,
            turn_id@,
            completion.state@,
            completion.connection_ids@.to_set(),
            subscribed@,
            outcome@,
        ),
{
    match snapshot_terminal_notification(thread_name, turn_id, &completion.state, outcome) {
        Some(notification) => {
            let ghost p = |c: ConnectionId| subscribed@.contains(c);
            proof {
                lemma_filter_distinct(completion.connection_ids@, p);
            }
            let connection_ids = still_subscribed(completion.connection_ids, subscribed);
            Some(Ending { notification, connection_ids })
        },
        None => None,
    }
}

impl LiveView {
    /// The cards with every incomplete agent of the running turn ended by a listener's error.
    pub open spec fn failed_with(self, error: Seq<char>) -> LiveView {
        self.ended(AgentStatusView::Errored(error))
    }
}

/// The failure of a listener: it ends the card of the running turn where the listener is the current
/// one and the turn has a card with a tree. The first part of the outcome says whether it did.
pub open spec fn is_listener_failure(
    before: LiveView,
    after: LiveView,
    r: (bool, Option<Ending>),
    thread_name: Seq<char>,
    subscribed: Seq<ConnectionId>,
    listener_generation: u64,
    error: Seq<char>,
    now: i64,
) -> bool {
    let failed = before.failed_with(error);
    if before.listener_generation != listener_generation || before.turns.latest is None {
        r.0 == false && r.1 is None && after == before
    } else {
        let turn_id = (before.turns.latest->0).0;
        if !failed.can_complete(turn_id) {
            r.0 == false && r.1 is None && after == failed
        } else {
            let completing = failed.completing(turn_id);
            let token = following(before.next_turn_order);
            let at = pending_position(completing.pending, turn_id, token);
            &&& r.0
            &&& at < completing.pending.len()
            &&& after == completing.finalized(at, now)
            &&& is_ending(
                r.1,
                thread_name,
                turn_id,
                completing.completed_card(completing.pending[at], now),
                completing.pending[at].mounted,
                subscribed,
                OutcomeView::ListenerFailed(error),
            )
        }
    }
}

/// Ends the card of the running turn after its listener failed. Says how, where the listener is the
/// current one and the turn has a card with a tree.
pub fn listener_failed_enabled(
    thread: &mut LiveThread,
    thread_name: &str,
    subscribed: &Vec<ConnectionId>,
    listener_generation: u64,
    error: &String,
    now: i64,
) -> (r: (bool, Option<Ending>))
    ensures
        is_listener_failure(
            old(thread)@,
            final(thread)@,
            r,
            thread_name@,
            subscribed@,
            listener_generation,
            error@,
            now,
        ),
{
    if thread.listener_generation != listener_generation {
        return (false, None);
    }
    let turn_id = match &thread.turns.latest {
        Some(t) => t.id.clone(),
        None => {
            return (false, None);
        },
    };
    let _ = thread.terminalize_spine_ui_incomplete_agents(&AgentStatus::Errored(error.clone()));
    let ghost failed = thread@;
    let token = match thread.begin_spine_ui_turn_completion(turn_id.as_str()) {
        Some(token) => token,
        None => {
            return (false, None);
        },
    };
    proof {
        let pending = thread@.pending;
        crate::keyed::lemma_position(
            pending,
            |p: crate::live::PendingView| p.turn_id == turn_id@ && p.order == token,
        );
        assert(pending[pending.len() - 1].turn_id == turn_id@);
    }
    match thread.finalize_spine_ui_turn(turn_id.as_str(), token, now) {
        Some(completion) => {
            let outcome = SpineUiTerminalOutcome::ListenerFailed(error.clone());
            (true, ending_of(thread_name, turn_id.as_str(), completion, subscribed, &outcome))
        },
        None => (false, None),
    }
}

/// What a step of the listener sends.
pub struct Output {
    pub started: Option<ItemStartedNotification>,
    pub ended: Option<Ending>,
    pub commands: Vec<Sent>,
}

/// The commands of up to one step, as a list.
pub open spec fn listed(o: Option<SentView>) -> Seq<SentView> {
    match o {
        Some(s) => seq![s],
        None => Seq::empty(),
    }
}

fn list(o: Option<Sent>) -> (r: Vec<Sent>)
    ensures
        views(r@) == listed(sent_view(o)),
{
    let mut out: Vec<Sent> = Vec::new();
    match o {
        Some(s) => {
            out.push(s);
        },
        None => {},
    }
    assert(views(out@) =~= listed(sent_view(o)));
    out
}

impl ManagerView {
    /// The manager once it has routed what an event of a thread's listener changes.
    pub open spec fn after_followed(
        self,
        thread_id: ThreadId,
        instance: u64,
        listener_generation: u64,
        event: Event,
    ) -> ManagerView {
        match event.msg {
            EventMsg::ThreadRolledBack => if self.is_listener(
                thread_id,
                listener_generation,
                instance,
            ) {
                self.cleared(thread_id)
            } else {
                self
            },
            EventMsg::TurnStarted { .. } => self.with_turn_started(
                thread_id,
                listener_generation,
                event.id@,
            ),
            EventMsg::SpineSpawnProgress(progress) => self.routed(
                thread_id,
                listener_generation,
                event.id@,
                progress@,
            ).after_queues(
                self.routed_children(thread_id, listener_generation, event.id@, progress@),
            ),
            _ => self,
        }
    }

    /// The commands that this sends.
    pub open spec fn followed_commands(
        self,
        thread_id: ThreadId,
        instance: u64,
        listener_generation: u64,
        event: Event,
    ) -> Seq<SentView> {
        match event.msg {
            EventMsg::ThreadRolledBack => if self.is_listener(
                thread_id,
                listener_generation,
                instance,
            ) {
                listed(self.clear_invalidation(thread_id))
            } else {
                Seq::empty()
            },
            EventMsg::SpineSpawnProgress(progress) => self.routed(
                thread_id,
                listener_generation,
                event.id@,
                progress@,
            ).queues(self.routed_children(thread_id, listener_generation, event.id@, progress@)),
            _ => Seq::empty(),
        }
    }

    /// The manager once a turn's end is acknowledged and its children are released.
    pub open spec fn turn_over(
        self,
        thread_id: ThreadId,
        listener_generation: u64,
        turn_id: Seq<char>,
    ) -> ManagerView {
        let acked = self.acknowledged(thread_id, listener_generation, turn_id);
        (if self.listened(thread_id, listener_generation) && self.expects(thread_id, turn_id) {
            acked.after_queue(thread_id)
        } else {
            acked
        }).without_turn_routes(thread_id, turn_id, listener_generation)
    }

    /// The commands that this sends.
    pub open spec fn turn_over_commands(
        self,
        thread_id: ThreadId,
        listener_generation: u64,
        turn_id: Seq<char>,
    ) -> Seq<SentView> {
        if self.listened(thread_id, listener_generation) && self.expects(thread_id, turn_id) {
            listed(self.acknowledged(thread_id, listener_generation, turn_id).queued(thread_id))
        } else {
            Seq::empty()
        }
    }

    /// Whether a token completes a card of a thread, for the listener that fills it.
    pub open spec fn finalizes(
        self,
        thread_id: ThreadId,
        listener_generation: u64,
        turn_id: Seq<char>,
        token: u64,
    ) -> bool {
        &&& self.reaches(thread_id, listener_generation)
        &&& pending_position(self.threads[thread_id].thread.pending, turn_id, token)
            < self.threads[thread_id].thread.pending.len()
    }
}

/// The end of an event's handling: a turn that ended is finalized or acknowledged, and any other
/// event that changes the card queues it for the parent.
pub open spec fn is_event_end(
    before: ManagerView,
    after: ManagerView,
    r: Output,
    thread_id: ThreadId,
    thread_name: Seq<char>,
    subscribed: Seq<ConnectionId>,
    listener_generation: u64,
    event: Event,
    token: Option<u64>,
    now: i64,
) -> bool {
    let turn_id = event.id@;
    &&& r.started is None
    &&& match (event_outcome(event.msg), token) {
        (Some(outcome), Some(token)) => if before.finalizes(
            thread_id,
            listener_generation,
            turn_id,
            token,
        ) {
            let thread = before.threads[thread_id].thread;
            let at = pending_position(thread.pending, turn_id, token);
            let closed = before.with_thread(thread_id, thread.finalized(at, now));
            &&& after == closed.turn_over(thread_id, listener_generation, turn_id)
            &&& views(r.commands@) == closed.turn_over_commands(
                thread_id,
                listener_generation,
                turn_id,
            )
            &&& is_ending(
                r.ended,
                thread_name,
                turn_id,
                thread.completed_card(thread.pending[at], now),
                thread.pending[at].mounted,
                subscribed,
                outcome,
            )
        } else {
            after == before && r.ended is None && r.commands@.len() == 0
        },
        (Some(_), None) => {
            &&& r.ended is None
            &&& after == before.turn_over(thread_id, listener_generation, turn_id)
            &&& views(r.commands@) == before.turn_over_commands(
                thread_id,
                listener_generation,
                turn_id,
            )
        },
        (None, _) => {
            &&& r.ended is None
            &&& if event.msg is TurnStarted || event.msg is SpineTreeUpdate
                || event.msg is SpineSpawnProgress {
                after == before.after_queue(thread_id) && views(r.commands@) == listed(
                    before.queued(thread_id),
                )
            } else {
                after == before && r.commands@.len() == 0
            }
        },
    }
}

impl RouteManager {
    /// Publishes a started listener while the card is on.
    pub fn listener_started(
        &mut self,
        enabled: bool,
        thread_id: ThreadId,
        generation: u64,
    ) -> (r: Option<Sent>)
        ensures
            !enabled ==> r is None && final(self)@ == old(self)@,
            enabled ==> final(self)@ == old(self)@.with_listener_generation(thread_id, generation)
                && sent_view(r) == old(self)@.listener_invalidation(thread_id, generation),
    {
        if !enabled {
            return None;
        }
        self.note_spine_ui_listener_generation(thread_id, generation)
    }

    /// Routes what an event changes, once the current listener has followed it on the thread's
    /// cards.
    pub fn after_followed_event(
        &mut self,
        thread_id: ThreadId,
        instance: u64,
        listener_generation: u64,
        event: &Event,
    ) -> (r: Vec<Sent>)
        ensures
            final(self)@ == old(self)@.after_followed(
                thread_id,
                instance,
                listener_generation,
                *event,
            ),
            views(r@) == old(self)@.followed_commands(
                thread_id,
                instance,
                listener_generation,
                *event,
            ),
    {
        let none: Vec<Sent> = Vec::new();
        assert(views(none@) =~= Seq::empty());
        match &event.msg {
            EventMsg::ThreadRolledBack => {
                let sent = self.clear_spine_ui_routes_for_listener_exit(
                    thread_id,
                    listener_generation,
                    instance,
                );
                list(sent)
            },
            EventMsg::TurnStarted { started_at: _ } => {
                self.note_spine_ui_agent_turn_started(
                    thread_id,
                    listener_generation,
                    event.id.as_str(),
                );
                none
            },
            EventMsg::SpineSpawnProgress(progress) => self.register_spine_ui_spawn_progress(
                thread_id,
                listener_generation,
                event.id.as_str(),
                progress,
            ),
            _ => none,
        }
    }

    /// Follows an event on a known thread's cards and routes what it changes; nothing for a
    /// listener that is not the current one.
    pub fn after_track_enabled(
        &mut self,
        thread_id: ThreadId,
        listener_generation: u64,
        event: &Event,
    ) -> (r: Vec<Sent>)
        ensures
            ({
                let before = old(self)@;
                if before.reaches(thread_id, listener_generation) {
                    let entry = before.threads[thread_id];
                    let followed = before.with_thread(thread_id, entry.thread.followed(*event));
                    &&& final(self)@ == followed.after_followed(
                        thread_id,
                        entry.instance,
                        listener_generation,
                        *event,
                    )
                    &&& views(r@) == followed.followed_commands(
                        thread_id,
                        entry.instance,
                        listener_generation,
                        *event,
                    )
                } else {
                    final(self)@ == before && r@.len() == 0
                }
            }),
    {
        match self.threads.remove(&thread_id) {
            Some(mut entry) => {
                let current = follow_event(&mut entry.thread, listener_generation, event);
                let instance = entry.instance;
                self.threads.insert(thread_id, entry);
                if current {
                    assert(self@.threads =~= old(self)@.with_thread(
                        thread_id,
                        old(self)@.threads[thread_id].thread.followed(*event),
                    ).threads);
                    return self.after_followed_event(
                        thread_id,
                        instance,
                        listener_generation,
                        event,
                    );
                }
                assert(self@.threads =~= old(self)@.threads);
            },
            None => {
                assert(self@.threads =~= old(self)@.threads);
            },
        }
        Vec::new()
    }

    fn end_turn(
        &mut self,
        thread_id: ThreadId,
        listener_generation: u64,
        turn_id: &str,
    ) -> (r: Vec<Sent>)
        ensures
            final(self)@ == old(self)@.turn_over(thread_id, listener_generation, turn_id@),
            views(r@) == old(self)@.turn_over_commands(thread_id, listener_generation, turn_id@),
    {
        let sent = self.acknowledge_spine_ui_agent_terminal(
            thread_id,
            listener_generation,
            turn_id,
        );
        self.clear_spine_ui_parent_routes(thread_id, turn_id, listener_generation);
        list(sent)
    }

    /// Completes a turn's card with its token, announces its end, acknowledges it to the parent and
    /// releases its children; nothing where the token completes no card of this listener.
    pub fn finalize_turn(
        &mut self,
        thread_id: ThreadId,
        thread_name: &str,
        subscribed: &Vec<ConnectionId>,
        listener_generation: u64,
        turn_id: &str,
        token: u64,
        outcome: &SpineUiTerminalOutcome,
        now: i64,
    ) -> (r: Output)
        ensures
            ({
                let before = old(self)@;
                &&& r.started is None
                &&& if before.finalizes(thread_id, listener_generation, turn_id@, token) {
                    let thread = before.threads[thread_id].thread;
                    let at = pending_position(thread.pending, turn_id@, token);
                    let closed = before.with_thread(thread_id, thread.finalized(at, now));
                    &&& final(self)@ == closed.turn_over(thread_id, listener_generation, turn_id@)
                    &&& views(r.commands@) == closed.turn_over_commands(
                        thread_id,
                        listener_generation,
                        turn_id@,
                    )
                    &&& is_ending(
                        r.ended,
                        thread_name@,
                        turn_id@,
                        thread.completed_card(thread.pending[at], now),
                        thread.pending[at].mounted,
                        subscribed@,
                        outcome@,
                    )
                } else {
                    final(self)@ == before && r.ended is None && r.commands@.len() == 0
                }
            }),
    {
        let mut completed: Option<SpineUiCompletion> = None;
        let ghost before = self@;
        match self.threads.remove(&thread_id) {
            Some(mut entry) => {
                if entry.thread.listener_generation == listener_generation {
                    proof {
                        crate::keyed::lemma_position(
                            entry.thread@.pending,
                            |p: crate::live::PendingView| p.turn_id == turn_id@ && p.order == token,
                        );
                    }
                    completed = entry.thread.finalize_spine_ui_turn(turn_id, token, now);
                }
                self.threads.insert(thread_id, entry);
            },
            None => {},
        }
        match completed {
            Some(completion) => {
                let ghost thread = before.threads[thread_id].thread;
                let ghost at = pending_position(thread.pending, turn_id@, token);
                assert(self@.threads =~= before.with_thread(
                    thread_id,
                    thread.finalized(at, now),
                ).threads);
                let ended = ending_of(thread_name, turn_id, completion, subscribed, outcome);
                let commands = self.end_turn(thread_id, listener_generation, turn_id);
                Output { started: None, ended, commands }
            },
            None => {
                assert(self@.threads =~= before.threads);
                Output { started: None, ended: None, commands: Vec::new() }
            },
        }
    }

    /// Closes an event: a turn that ended is finalized or acknowledged, and any other event that
    /// changes the card queues it for the parent.
    pub fn after_event_enabled(
        &mut self,
        thread_id: ThreadId,
        thread_name: &str,
        subscribed: &Vec<ConnectionId>,
        listener_generation: u64,
        event: &Event,
        token: Option<u64>,
        now: i64,
    ) -> (r: Output)
        ensures
            is_event_end(
                old(self)@,
                final(self)@,
                r,
                thread_id,
                thread_name@,
                subscribed@,
                listener_generation,
                *event,
                token,
                now,
            ),
    {
        let outcome = match &event.msg {
            EventMsg::TurnComplete => Some(SpineUiTerminalOutcome::Completed),
            EventMsg::TurnAborted { reason } => Some(SpineUiTerminalOutcome::Aborted(*reason)),
            _ => None,
        };
        match outcome {
            Some(outcome) => match token {
                Some(token) => self.finalize_turn(
                    thread_id,
                    thread_name,
                    subscribed,
                    listener_generation,
                    event.id.as_str(),
                    token,
                    &outcome,
                    now,
                ),
                None => {
                    let commands = self.end_turn(
                        thread_id,
                        listener_generation,
                        event.id.as_str(),
                    );
                    Output { started: None, ended: None, commands }
                },
            },
            None => {
                let changes = match &event.msg {
                    EventMsg::TurnStarted { started_at: _ } => true,
                    EventMsg::SpineTreeUpdate(_) => true,
                    EventMsg::SpineSpawnProgress(_) => true,
                    _ => false,
                };
                let commands = if changes {
                    list(self.queue_spine_ui_agent_state(thread_id))
                } else {
                    Vec::new()
                };
                Output { started: None, ended: None, commands }
            },
        }
    }

    /// Clears the routes of a thread whose listener exits, unless its state is under another
    /// listener by now. `authoritative_generation` is the one that the state itself holds.
    pub fn listener_exited_enabled(
        &mut self,
        thread_id: ThreadId,
        instance: u64,
        authoritative_generation: u64,
        listener_generation: u64,
    ) -> (r: Option<Sent>)
        ensures
            if authoritative_generation == listener_generation && old(self)@.is_listener(
                thread_id,
                listener_generation,
                instance,
            ) {
                final(self)@ == old(self)@.cleared(thread_id) && sent_view(r)
                    == old(self)@.clear_invalidation(thread_id)
            } else {
                final(self)@ == old(self)@ && r is None
            },
    {
        if authoritative_generation != listener_generation {
            return None;
        }
        self.clear_spine_ui_routes_for_listener_exit(thread_id, listener_generation, instance)
    }
}

impl ManagerView {
    /// Whether a forwarded card is news for the parent's card: the route and the listener are
    /// current, the turn shows a card, and the card takes the child's.
    pub open spec fn takes_forward(
        self,
        thread_id: ThreadId,
        child: ThreadId,
        turn_id: Seq<char>,
        listener_generation: u64,
        generation: u64,
        state: Option<StateView>,
    ) -> bool {
        &&& self.route_is_current(child, thread_id, turn_id, listener_generation, generation)
        &&& self.reaches_turn(thread_id, turn_id, listener_generation)
        &&& state is Some
        &&& self.threads[thread_id].thread.active.takes_agent(child, generation, state->0)
    }

    /// The manager once a forwarded card is on the parent's card, and the parent's own card is
    /// queued for its parent.
    pub open spec fn forward_shown(
        self,
        thread_id: ThreadId,
        child: ThreadId,
        turn_id: Seq<char>,
        generation: u64,
        state: StateView,
        subscribed: Seq<ConnectionId>,
    ) -> ManagerView {
        self.with_thread(
            thread_id,
            mounted_by(
                self.threads[thread_id].thread.with_agent(child, generation, state),
                turn_id,
                subscribed,
            ),
        )
    }

    /// What the parent's card announces.
    pub open spec fn forward_notification(
        self,
        thread_name: Seq<char>,
        thread_id: ThreadId,
        child: ThreadId,
        turn_id: Seq<char>,
        listener_generation: u64,
        generation: u64,
        state: Option<StateView>,
    ) -> Option<StartedView> {
        if self.takes_forward(thread_id, child, turn_id, listener_generation, generation, state) {
            upsert_of(
                thread_name,
                turn_id,
                self.threads[thread_id].thread.with_agent(child, generation, state->0).active,
            )
        } else {
            None
        }
    }

    /// The manager after a forwarded card reached the parent's listener, before the next one of
    /// that child is queued.
    pub open spec fn forward_handled(
        self,
        thread_id: ThreadId,
        child: ThreadId,
        turn_id: Seq<char>,
        listener_generation: u64,
        generation: u64,
        state: Option<StateView>,
        subscribed: Seq<ConnectionId>,
    ) -> ManagerView {
        if self.takes_forward(thread_id, child, turn_id, listener_generation, generation, state) {
            self.forward_shown(
                thread_id,
                child,
                turn_id,
                generation,
                state->0,
                subscribed,
            ).after_queue(thread_id)
        } else {
            self
        }
    }

    /// The commands that this sends.
    pub open spec fn forward_commands(
        self,
        thread_id: ThreadId,
        child: ThreadId,
        turn_id: Seq<char>,
        listener_generation: u64,
        generation: u64,
        state: Option<StateView>,
        subscribed: Seq<ConnectionId>,
    ) -> Seq<SentView> {
        if self.takes_forward(thread_id, child, turn_id, listener_generation, generation, state) {
            listed(
                self.forward_shown(
                    thread_id,
                    child,
                    turn_id,
                    generation,
                    state->0,
                    subscribed,
                ).queued(thread_id),
            )
        } else {
            Seq::empty()
        }
    }

    /// The manager once a delivered revision is noted and the next one queued.
    pub open spec fn next_forward(
        self,
        child: ThreadId,
        parent: ThreadId,
        turn_id: Seq<char>,
        generation: u64,
        revision: u64,
    ) -> ManagerView {
        if self.awaits(child, parent, turn_id, generation, revision) {
            self.delivered(child, parent, turn_id, generation, revision).after_queue(child)
        } else {
            self
        }
    }

    pub open spec fn next_forward_commands(
        self,
        child: ThreadId,
        parent: ThreadId,
        turn_id: Seq<char>,
        generation: u64,
        revision: u64,
    ) -> Seq<SentView> {
        if self.awaits(child, parent, turn_id, generation, revision) {
            listed(self.delivered(child, parent, turn_id, generation, revision).queued(child))
        } else {
            Seq::empty()
        }
    }
}

impl RouteManager {
    /// Puts a child's card on its parent's, announces the parent's card and passes it on to the
    /// parent's own parent, then queues the child's next card.
    pub fn forward_agent_state(
        &mut self,
        thread_id: ThreadId,
        thread_name: &str,
        subscribed: &Vec<ConnectionId>,
        child: ThreadId,
        turn_id: &str,
        listener_generation: u64,
        generation: u64,
        state: Option<SpineUiState>,
    ) -> (r: Output)
        ensures
            ({
                let before = old(self)@;
                let sv = state_view(state);
                let handled = before.forward_handled(
                    thread_id,
                    child,
                    turn_id@,
                    listener_generation,
                    generation,
                    sv,
                    subscribed@,
                );
                let first = before.forward_commands(
                    thread_id,
                    child,
                    turn_id@,
                    listener_generation,
                    generation,
                    sv,
                    subscribed@,
                );
                &&& r.ended is None
                &&& started_view(r.started) == before.forward_notification(
                    thread_name@,
                    thread_id,
                    child,
                    turn_id@,
                    listener_generation,
                    generation,
                    sv,
                )
                &&& if before.route_is_current(
                    child,
                    thread_id,
                    turn_id@,
                    listener_generation,
                    generation,
                ) && sv is Some {
                    &&& final(self)@ == handled.next_forward(
                        child,
                        thread_id,
                        turn_id@,
                        generation,
                        sv->0.revision,
                    )
                    &&& views(r.commands@) == first + handled.next_forward_commands(
                        child,
                        thread_id,
                        turn_id@,
                        generation,
                        sv->0.revision,
                    )
                } else {
                    final(self)@ == before && r.commands@.len() == 0
                }
            }),
    {
        if !self.spine_ui_route_is_current(
            child,
            thread_id,
            turn_id,
            listener_generation,
            generation,
        ) {
            return Output { started: None, ended: None, commands: Vec::new() };
        }
        let state = match state {
            Some(s) => s,
            None => {
                return Output { started: None, ended: None, commands: Vec::new() };
            },
        };
        let ghost before = self@;
        let ghost sv = state@;
        let revision = state.revision();
        let mut changed = false;
        let mut started: Option<ItemStartedNotification> = None;
        match self.threads.remove(&thread_id) {
            Some(mut entry) => {
                if entry.thread.listener_generation == listener_generation
                    && entry.thread.live_spine_ui(turn_id).is_some() {
                    changed = entry.thread.record_spine_ui_agent_state(child, generation, state);
                    if changed {
                        started = match entry.thread.live_spine_ui(turn_id) {
                            Some(card) => snapshot_upsert_notification(thread_name, turn_id, card),
                            None => None,
                        };
                        entry.thread.mark_spine_ui_mounted(turn_id, subscribed);
                    }
                }
                self.threads.insert(thread_id, entry);
            },
            None => {},
        }
        let mut commands: Vec<Sent> = Vec::new();
        assert(views(commands@) =~= Seq::empty());
        if changed {
            assert(self@.threads =~= before.forward_shown(
                thread_id,
                child,
                turn_id@,
                generation,
                sv,
                subscribed@,
            ).threads);
            commands = list(self.queue_spine_ui_agent_state(thread_id));
        } else {
            assert(self@.threads =~= before.threads);
        }
        let ghost first = views(commands@);
        let next = self.complete_spine_ui_agent_state_forward(
            child,
            thread_id,
            turn_id,
            generation,
            revision,
        );
        let ghost nv = sent_view(next);
        match next {
            Some(s) => {
                commands.push(s);
            },
            None => {},
        }
        assert(views(commands@) =~= first + listed(nv));
        Output { started, ended: None, commands }
    }

    /// Carries out a command for a known thread's listener while the card is on.
    pub fn handle_command(
        &mut self,
        enabled: bool,
        thread_id: ThreadId,
        thread_name: &str,
        subscribed: &Vec<ConnectionId>,
        command: Command,
    ) -> (r: Output)
        ensures
            !enabled ==> final(self)@ == old(self)@ && r.started is None && r.ended is None
                && r.commands@.len() == 0,
            enabled ==> r.ended is None,
            enabled && command@ is ForwardSpineUiAgentState ==> ({
                let before = old(self)@;
                let child = command@->child_thread_id;
                let turn_id = command@->parent_turn_id;
                let listener = command@->parent_listener_generation;
                let generation = command@->generation;
                let sv = command@->state;
                let handled = before.forward_handled(
                    thread_id,
                    child,
                    turn_id,
                    listener,
                    generation,
                    sv,
                    subscribed@,
                );
                let first = before.forward_commands(
                    thread_id,
                    child,
                    turn_id,
                    listener,
                    generation,
                    sv,
                    subscribed@,
                );
                &&& started_view(r.started) == before.forward_notification(
                    thread_name@,
                    thread_id,
                    child,
                    turn_id,
                    listener,
                    generation,
                    sv,
                )
                &&& if before.route_is_current(child, thread_id, turn_id, listener, generation)
                    && sv is Some {
                    &&& final(self)@ == handled.next_forward(
                        child,
                        thread_id,
                        turn_id,
                        generation,
                        sv->0.revision,
                    )
                    &&& views(r.commands@) == first + handled.next_forward_commands(
                        child,
                        thread_id,
                        turn_id,
                        generation,
                        sv->0.revision,
                    )
                } else {
                    final(self)@ == before && r.commands@.len() == 0
                }
            }),
            enabled && command@ is EmitSpineUiInvalidation ==> ({
                let before = old(self)@;
                let turn_id = command@->turn_id;
                let listener = command@->listener_generation;
                &&& r.commands@.len() == 0
                &&& if before.reaches_turn(thread_id, turn_id, listener) {
                    &&& started_view(r.started) == upsert_of(
                        thread_name@,
                        turn_id,
                        before.threads[thread_id].thread.active,
                    )
                    &&& final(self)@ == before.with_thread(
                        thread_id,
                        mounted_by(before.threads[thread_id].thread, turn_id, subscribed@),
                    )
                } else {
                    final(self)@ == before && r.started is None
                }
            }),
    {
        if !enabled {
            return Output { started: None, ended: None, commands: Vec::new() };
        }
        match command {
            Command::ForwardSpineUiAgentState {
                child_thread_id,
                parent_turn_id,
                parent_listener_generation,
                generation,
                state,
            } => self.forward_agent_state(
                thread_id,
                thread_name,
                subscribed,
                child_thread_id,
                parent_turn_id.as_str(),
                parent_listener_generation,
                generation,
                state,
            ),
            Command::EmitSpineUiInvalidation { listener_generation, turn_id } => {
                let mut started: Option<ItemStartedNotification> = None;
                match self.threads.remove(&thread_id) {
                    Some(mut entry) => {
                        started = emit_invalidation(
                            &mut entry.thread,
                            thread_name,
                            subscribed,
                            listener_generation,
                            turn_id.as_str(),
                        );
                        self.threads.insert(thread_id, entry);
                    },
                    None => {},
                }
                proof {
                    let before = old(self)@;
                    if before.reaches_turn(thread_id, turn_id@, listener_generation) {
                        assert(self@.threads =~= before.with_thread(
                            thread_id,
                            mounted_by(before.threads[thread_id].thread, turn_id@, subscribed@),
                        ).threads);
                    } else {
                        assert(self@.threads =~= before.threads);
                    }
                }
                Output { started, ended: None, commands: Vec::new() }
            },
        }
    }
}

/// Records an event before it is handled, while the card is on.
pub fn before_bespoke(
    enabled: bool,
    thread: &mut LiveThread,
    thread_name: &str,
    connection_ids: &Vec<ConnectionId>,
    listener_generation: u64,
    event: &Event,
    now: i64,
) -> (r: (Option<ItemStartedNotification>, Option<u64>))
    ensures
        if enabled && old(thread)@.listener_generation == listener_generation {
            &&& started_view(r.0) == old(thread)@.bespoke_notification(thread_name@, *event, now)
            &&& r.1 == old(thread)@.bespoke_token(*event)
            &&& final(thread)@ == old(thread)@.before_event(
                thread_name@,
                connection_ids@,
                *event,
                now,
            )
        } else {
            r.0 is None && r.1 is None && final(thread)@ == old(thread)@
        },
{
    if !enabled {
        return (None, None);
    }
    before_bespoke_enabled(thread, thread_name, connection_ids, listener_generation, event, now)
}

/// Ends the card of the running turn after its listener failed, while the card is on.
pub fn listener_failed(
    enabled: bool,
    thread: &mut LiveThread,
    thread_name: &str,
    subscribed: &Vec<ConnectionId>,
    listener_generation: u64,
    error: &String,
    now: i64,
) -> (r: (bool, Option<Ending>))
    ensures
        !enabled ==> !r.0 && r.1 is None && final(thread)@ == old(thread)@,
        enabled ==> is_listener_failure(
            old(thread)@,
            final(thread)@,
            r,
            thread_name@,
            subscribed@,
            listener_generation,
            error@,
            now,
        ),
{
    if !enabled {
        return (false, None);
    }
    listener_failed_enabled(thread, thread_name, subscribed, listener_generation, error, now)
}

impl RouteManager {
    /// Follows an event on a known thread's cards and routes what it changes, while the card is on.
    pub fn after_track(
        &mut self,
        enabled: bool,
        thread_id: ThreadId,
        listener_generation: u64,
        event: &Event,
    ) -> (r: Vec<Sent>)
        ensures
            ({
                let before = old(self)@;
                if enabled && before.reaches(thread_id, listener_generation) {
                    let entry = before.threads[thread_id];
                    let followed = before.with_thread(thread_id, entry.thread.followed(*event));
                    &&& final(self)@ == followed.after_followed(
                        thread_id,
                        entry.instance,
                        listener_generation,
                        *event,
                    )
                    &&& views(r@) == followed.followed_commands(
                        thread_id,
                        entry.instance,
                        listener_generation,
                        *event,
                    )
                } else {
                    final(self)@ == before && r@.len() == 0
                }
            }),
    {
        if !enabled {
            return Vec::new();
        }
        self.after_track_enabled(thread_id, listener_generation, event)
    }

    /// Closes an event, while the card is on.
    pub fn after_event(
        &mut self,
        enabled: bool,
        thread_id: ThreadId,
        thread_name: &str,
        subscribed: &Vec<ConnectionId>,
        listener_generation: u64,
        event: &Event,
        token: Option<u64>,
        now: i64,
    ) -> (r: Output)
        ensures
            !enabled ==> final(self)@ == old(self)@ && r.started is None && r.ended is None
                && r.commands@.len() == 0,
            enabled ==> is_event_end(
                old(self)@,
                final(self)@,
                r,
                thread_id,
                thread_name@,
                subscribed@,
                listener_generation,
                *event,
                token,
                now,
            ),
    {
        if !enabled {
            return Output { started: None, ended: None, commands: Vec::new() };
        }
        self.after_event_enabled(
            thread_id,
            thread_name,
            subscribed,
            listener_generation,
            event,
            token,
            now,
        )
    }

    /// Clears the routes of a thread whose listener exits, while the card is on.
    pub fn listener_exited(
        &mut self,
        enabled: bool,
        thread_id: ThreadId,
        instance: u64,
        authoritative_generation: u64,
        listener_generation: u64,
    ) -> (r: Option<Sent>)
        ensures
            if enabled && authoritative_generation == listener_generation && old(
                self,
            )@.is_listener(thread_id, listener_generation, instance) {
                final(self)@ == old(self)@.cleared(thread_id) && sent_view(r)
                    == old(self)@.clear_invalidation(thread_id)
            } else {
                final(self)@ == old(self)@ && r is None
            },
    {
        if !enabled {
            return None;
        }
        self.listener_exited_enabled(
            thread_id,
            instance,
            authoritative_generation,
            listener_generation,
        )
    }
}

} // verus!
