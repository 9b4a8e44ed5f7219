//! A thread's listener over retained cards: what each event and each command does, in order.
use crate::ancestry::{add_updates, updates_of, AncestorUpdates, Propagation};
use crate::barrier::{ChildEnd, EndView};
use crate::card::{snapshot_upsert_notification, started_view, upsert_of, ItemStartedNotification};
use crate::events::{Event, EventMsg};
use crate::keyed::{lemma_position, position, views};
use crate::lineage::{
    RetainedManager, RetainedManagerView, RetainedSent, RetainedSentView, SpineUiCompletedUpdate,
};
use crate::live::state_view;
use crate::protocol::ThreadId;
use crate::retained::{
    no_refresh, report_of, AgentReport, CardView, RefreshView, RetainedThread, RetainedView, TurnCard,
};
use crate::state::{SpineUiState, StateView};
use crate::text::same_text;
use crate::turns::{TurnReport, TurnReportView};
use vstd::prelude::*;

verus! {

/// Whether an event ends its turn.
pub open spec fn ends_turn(event: EventMsg) -> bool {
    event is TurnComplete || event is TurnAborted
}

/// Whether a thread's card may have changed with an event, so that its parent is told.
pub open spec fn moves_card(event: EventMsg) -> bool {
    event is TurnStarted || event is SpineTreeUpdate || event is SpineSpawnProgress || ends_turn(
        event,
    )
}

/// At most one command.
pub open spec fn listed_sent(o: Option<RetainedSentView>) -> Seq<RetainedSentView> {
    match o {
        Some(s) => seq![s],
        None => Seq::empty(),
    }
}

/// The first card of a turn.
pub open spec fn card_of_turn(cards: Seq<CardView>, turn_id: Seq<char>) -> Option<StateView> {
    let at = position(cards, |c: CardView| c.turn_id == turn_id);
    if at < cards.len() {
        Some(cards[at].state)
    } else {
        None
    }
}

/// A child's card entered on the running turn's card, or the child taken off it where it has none.
pub open spec fn with_end(thread: RetainedView, end: EndView) -> RetainedView {
    match end.state {
        Some(state) => thread.with_agent(end.child, end.generation, state),
        None => thread.without_agent(end.child, end.generation),
    }
}

/// The cards of some children entered in order.
pub open spec fn with_ends(thread: RetainedView, ends: Seq<EndView>) -> RetainedView
    decreases ends.len(),
{
    if ends.len() == 0 {
        thread
    } else {
        with_end(with_ends(thread, ends.drop_last()), ends.last())
    }
}

/// The final states of some children reported missing.
pub open spec fn with_timeouts(
    thread: RetainedView,
    timed_out: Seq<(ThreadId, u64)>,
) -> RetainedView
    decreases timed_out.len(),
{
    if timed_out.len() == 0 {
        thread
    } else {
        with_timeouts(thread, timed_out.drop_last()).with_timeout(
            timed_out.last().0,
            timed_out.last().1,
        )
    }
}

/// A thread once the wait for a turn's children is over. Only the card of the running turn changes.
pub open spec fn with_children_settled(
    thread: RetainedView,
    turn_id: Seq<char>,
    ends: Seq<EndView>,
    timed_out: Seq<(ThreadId, u64)>,
) -> RetainedView {
    if thread.live(turn_id) is Some {
        with_timeouts(with_ends(thread, ends), timed_out)
    } else {
        thread
    }
}

/// What a command or an event left to do outside: a card to announce, completed cards to store and
/// announce, and commands for other listeners.
pub struct RetainedOutput {
    pub started: Option<ItemStartedNotification>,
    pub completed: Vec<SpineUiCompletedUpdate>,
    pub sent: Vec<RetainedSent>,
}

impl RetainedManagerView {
    /// The manager after an event's start was noted.
    pub open spec fn begun(
        self,
        thread_id: ThreadId,
        listener_generation: u64,
        event: EventMsg,
    ) -> RetainedManagerView {
        if event is TurnStarted {
            self.with_turn_started(thread_id, listener_generation)
        } else {
            self
        }
    }

    /// The manager after an event was followed. Spawn progress makes routes while the card is on.
    pub open spec fn followed(
        self,
        thread_id: ThreadId,
        event: Event,
        report: TurnReportView,
        enabled: bool,
    ) -> RetainedManagerView {
        let known = self.knowing(thread_id);
        let after = known.with_thread(
            thread_id,
            known.threads[thread_id].thread.with_event(event.id@, event.msg, report),
        );
        match event.msg {
            EventMsg::SpineSpawnProgress(progress) => if enabled {
                after.with_spawn(thread_id, event.id@, progress@)
            } else {
                after
            },
            _ => after,
        }
    }

    /// The commands that an event owes when it is followed.
    pub open spec fn followed_commands(
        self,
        thread_id: ThreadId,
        event: Event,
        report: TurnReportView,
        enabled: bool,
    ) -> Seq<RetainedSentView> {
        let after = self.followed(thread_id, event, report, enabled);
        match event.msg {
            EventMsg::SpineSpawnProgress(progress) => if enabled
                && self.knowing(thread_id).threads[thread_id].thread.with_event(
                event.id@,
                event.msg,
                report,
            ).live(event.id@) is Some {
                after.queues(progress@.tasks)
            } else {
                Seq::empty()
            },
            _ => Seq::empty(),
        }
    }

    /// The manager after an event was handled. The end of a turn settles the thread's own route and
    /// ends those of its children.
    pub open spec fn done_with(
        self,
        thread_id: ThreadId,
        listener_generation: u64,
        event: Event,
        now: u64,
    ) -> RetainedManagerView {
        if ends_turn(event.msg) {
            self.acknowledged(thread_id, listener_generation, event.id@, now).without_turn_routes(
                thread_id,
                event.id@,
            )
        } else {
            self
        }
    }

    /// The commands that an event owes when it was handled.
    pub open spec fn done_commands(
        self,
        thread_id: ThreadId,
        listener_generation: u64,
        event: Event,
    ) -> Seq<RetainedSentView> {
        (if moves_card(event.msg) {
            listed_sent(self.queued(thread_id))
        } else {
            Seq::empty()
        }) + (if ends_turn(event.msg) {
            listed_sent(self.late_final(thread_id, listener_generation, event.id@))
        } else {
            Seq::empty()
        })
    }

    /// A propagation that starts at a thread, or one that is over where there is no card.
    pub open spec fn optional_propagation(
        self,
        thread_id: ThreadId,
        state: Option<StateView>,
    ) -> Propagation {
        match state {
            Some(s) => self.propagation(thread_id, s),
            None => Propagation {
                manager: self,
                pending: Seq::empty(),
                visited: Set::empty(),
                updates: Seq::empty(),
                sent: Seq::empty(),
            },
        }
    }

    /// What a late final state changes on a parent's cards, if its turn has a completed one.
    pub open spec fn late_refresh(
        self,
        report: AgentReport,
        parent: ThreadId,
        turn_id: Seq<char>,
    ) -> RefreshView {
        let thread = self.threads[parent].thread;
        if thread.has_completed_card(turn_id) {
            thread.refresh(report)
        } else {
            no_refresh()
        }
    }

    /// The manager once a late final state is entered on a parent's cards.
    pub open spec fn with_late(
        self,
        report: AgentReport,
        parent: ThreadId,
        turn_id: Seq<char>,
    ) -> RetainedManagerView {
        let thread = self.threads[parent].thread;
        if thread.has_completed_card(turn_id) {
            self.with_thread(parent, thread.refreshed(report))
        } else {
            self.with_thread(parent, thread)
        }
    }

    /// The way of a late final state from a parent's completed card on upwards.
    pub open spec fn late_start(
        self,
        report: AgentReport,
        parent: ThreadId,
        turn_id: Seq<char>,
    ) -> Propagation {
        self.with_late(report, parent, turn_id).optional_propagation(
            parent,
            card_of_turn(self.late_refresh(report, parent, turn_id).completed, turn_id),
        )
    }

    /// The manager once a final state has arrived at the turn that it belongs to.
    pub open spec fn settled_for(
        self,
        child: ThreadId,
        parent: ThreadId,
        turn_id: Seq<char>,
        generation: u64,
    ) -> RetainedManagerView {
        self.late_completed(child, parent, turn_id, generation).without_turn_routes(
            parent,
            turn_id,
        )
    }
}

/// A child's final report.
pub open spec fn final_report(
    child: ThreadId,
    generation: u64,
    state: Option<StateView>,
) -> AgentReport {
    AgentReport { child, generation, state, is_final: true }
}

/// What becomes of a child's card at its parent: it is entered on the card of the running turn, or,
/// where it is a late final one, on the completed cards and upwards. Nothing happens where the
/// child's route has changed since.
pub open spec fn is_forwarded(
    before: RetainedManagerView,
    after: RetainedManagerView,
    r: RetainedOutput,
    parent: ThreadId,
    parent_name: Seq<char>,
    child: ThreadId,
    turn_id: Seq<char>,
    generation: u64,
    state: Option<StateView>,
    terminal: bool,
) -> bool {
    let known = before.knowing(parent);
    let thread = known.threads[parent].thread;
    if !before.route_is_current(child, parent, turn_id, generation) {
        &&& after == before
        &&& r.started is None
        &&& r.completed@.len() == 0
        &&& r.sent@.len() == 0
    } else if thread.live(turn_id) is Some {
        let shown = match state {
            Some(s) => thread.with_agent(child, generation, s),
            None => thread,
        };
        let changed = match state {
            Some(s) => thread.active.takes_agent(child, generation, s),
            None => false,
        };
        let entered = known.with_thread(parent, shown);
        &&& started_view(r.started) == (if changed {
            upsert_of(parent_name, turn_id, shown.active)
        } else {
            None
        })
        &&& r.completed@.len() == 0
        &&& views(r.sent@) == (if changed {
            listed_sent(entered.queued(parent))
        } else {
            Seq::empty()
        })
        &&& after == (if terminal {
            entered.settled_for(child, parent, turn_id, generation)
        } else {
            entered
        })
    } else if terminal {
        let report = final_report(child, generation, state);
        let refresh = known.late_refresh(report, parent, turn_id);
        &&& started_view(r.started) == (match refresh.active {
            Some((active_turn, card)) => upsert_of(parent_name, active_turn, card),
            None => None,
        })
        &&& exists|steps: nat|
            {
                let end = #[trigger] known.late_start(report, parent, turn_id).run(steps);
                &&& end.pending.len() == 0
                &&& views(r.completed@) == updates_of(parent, refresh.completed) + end.updates
                &&& views(r.sent@) == (if refresh.forward is Some {
                    listed_sent(known.with_late(report, parent, turn_id).queued(parent))
                } else {
                    Seq::empty()
                }) + end.sent
                &&& after == end.manager.settled_for(child, parent, turn_id, generation)
            }
    } else {
        &&& after == known
        &&& r.started is None
        &&& r.completed@.len() == 0
        &&& r.sent@.len() == 0
    }
}

fn list_sent(o: Option<RetainedSent>) -> (r: Vec<RetainedSent>)
    ensures
        views(r@) == listed_sent(
            crate::lineage::retained_sent_view(o),
        ),
{
    let mut out: Vec<RetainedSent> = Vec::new();
    match o {
        Some(s) => {
            out.push(s);
        },
        None => {},
    }
    assert(views(out@) =~= listed_sent(crate::lineage::retained_sent_view(o)));
    out
}

fn find_card(cards: &Vec<TurnCard>, turn_id: &str) -> (r: Option<SpineUiState>)
    ensures
        state_view(r) == card_of_turn(views(cards@), turn_id@),
{
    let ghost all = views(cards@);
    proof {
        lemma_position(all, |c: CardView| c.turn_id == turn_id@);
    }
    let mut at: usize = 0;
    while at < cards.len() && !same_text(cards[at].turn_id.as_str(), turn_id)
        invariant
            at <= cards.len(),
            all == views(cards@),
            forall|k: int| 0 <= k < at ==> (#[trigger] all[k]).turn_id != turn_id@,
        decreases cards.len() - at,
    {
        assert(all[at as int] == cards@[at as int]@);
        at += 1;
    }
    if at < cards.len() {
        assert(all[at as int] == cards@[at as int]@);
        assert(at == position(all, |c: CardView| c.turn_id == turn_id@));
        Some(cards[at].state.copy_state())
    } else {
        None
    }
}

/// Enters the outcome of the wait for a turn's children in the turn's card.
pub fn settle_children(
    thread: &mut RetainedThread,
    turn_id: &str,
    ends: &Vec<ChildEnd>,
    timed_out: &Vec<(ThreadId, u64)>,
)
    ensures
        final(thread)@ == with_children_settled(
            old(thread)@,
            turn_id@,
            views(ends@),
            timed_out@,
        ),
{
    if thread.live_spine_ui(turn_id).is_none() {
        return;
    }
    let ghost start = thread@;
    let ghost all = views(ends@);
    let mut i: usize = 0;
    assert(all.take(0) =~= Seq::empty());
    while i < ends.len()
        invariant
            i <= ends.len(),
            all == views(ends@),
            thread@ == with_ends(start, all.take(i as int)),
        decreases ends.len() - i,
    {
        proof {
            assert(all.take(i + 1).drop_last() =~= all.take(i as int));
            assert(all[i as int] == ends@[i as int]@);
        }
        match &ends[i].state {
            Some(state) => {
                let _ = thread.record_spine_ui_agent_state(
                    ends[i].child,
                    ends[i].generation,
                    state.copy_state(),
                );
            },
            None => {
                let _ = thread.invalidate_spine_ui_agent_state(ends[i].child, ends[i].generation);
            },
        }
        i += 1;
    }
    assert(all.take(i as int) =~= all);
    let ghost middle = thread@;
    let mut j: usize = 0;
    assert(timed_out@.take(0) =~= Seq::empty());
    while j < timed_out.len()
        invariant
            j <= timed_out.len(),
            thread@ == with_timeouts(middle, timed_out@.take(j as int)),
        decreases timed_out.len() - j,
    {
        assert(timed_out@.take(j + 1).drop_last() =~= timed_out@.take(j as int));
        let _ = thread.mark_spine_ui_agent_sync_timeout(timed_out[j].0, timed_out[j].1);
        j += 1;
    }
    assert(timed_out@.take(j as int) =~= timed_out@);
}

impl RetainedManager {
    /// Installs a listener for a thread and gives its generation; nothing where the thread's listener
    /// listens to it already.
    pub fn install_listener(
        &mut self,
        thread_id: ThreadId,
        listening: bool,
        settings_baseline: String,
    ) -> (r: Option<u64>)
        ensures
            listening ==> r is None && final(self)@ == old(self)@,
            !listening ==> ({
                let known = old(self)@.knowing(thread_id);
                let thread = known.threads[thread_id].thread;
                let generation = thread.listener_generation.wrapping_add(1);
                let listening = known.with_thread(
                    thread_id,
                    RetainedView {
                        listener_generation: generation,
                        last_settings: Some(settings_baseline@),
                        ..thread
                    },
                );
                &&& r == Some(generation)
                &&& final(self)@ == (RetainedManagerView {
                    listeners: known.listeners.insert(thread_id),
                    ..listening
                }).with_listener_generation(thread_id, generation)
            }),
    {
        if listening {
            return None;
        }
        self.ensure_thread(thread_id);
        let ghost known = self@;
        let ghost sv = settings_baseline@;
        let mut generation: u64 = 0;
        match self.threads.remove(&thread_id) {
            Some(mut entry) => {
                generation = entry.thread.set_listener(settings_baseline);
                self.threads.insert(thread_id, entry);
            },
            None => {},
        }
        assert(self@.threads =~= known.with_thread(
            thread_id,
            RetainedView {
                listener_generation: generation,
                last_settings: Some(sv),
                ..known.threads[thread_id].thread
            },
        ).threads);
        self.register_listener(thread_id);
        self.note_spine_ui_listener_generation(thread_id, generation);
        Some(generation)
    }

    /// Notes the start of an event.
    pub fn event_begun(&mut self, thread_id: ThreadId, listener_generation: u64, event: &Event)
        ensures
            final(self)@ == old(self)@.begun(thread_id, listener_generation, event.msg),
    {
        match &event.msg {
            EventMsg::TurnStarted { .. } => {
                self.note_spine_ui_agent_turn_started(thread_id, listener_generation);
            },
            _ => {},
        }
    }

    /// Enters the outcome of the wait for a turn's children in the card of a known thread.
    pub fn children_settled(
        &mut self,
        thread_id: ThreadId,
        turn_id: &str,
        ends: &Vec<ChildEnd>,
        timed_out: &Vec<(ThreadId, u64)>,
    )
        ensures
            final(self)@ == (if old(self)@.threads.contains_key(thread_id) {
                old(self)@.with_thread(
                    thread_id,
                    with_children_settled(
                        old(self)@.threads[thread_id].thread,
                        turn_id@,
                        views(ends@),
                        timed_out@,
                    ),
                )
            } else {
                old(self)@
            }),
    {
        match self.threads.remove(&thread_id) {
            Some(mut entry) => {
                settle_children(&mut entry.thread, turn_id, ends, timed_out);
                self.threads.insert(thread_id, entry);
                assert(self@.threads =~= old(self)@.with_thread(
                    thread_id,
                    with_children_settled(
                        old(self)@.threads[thread_id].thread,
                        turn_id@,
                        views(ends@),
                        timed_out@,
                    ),
                ).threads);
            },
            None => {
                assert(self@.threads =~= old(self)@.threads);
            },
        }
    }

    /// Follows an event, given what the turn history reports after it. Says whether the event goes
    /// on to the clients: raw response items do so only where they are asked for.
    pub fn event_followed(
        &mut self,
        thread_id: ThreadId,
        event: &Event,
        report: TurnReport,
        enabled: bool,
    ) -> (r: (bool, Vec<RetainedSent>))
        ensures
            final(self)@ == old(self)@.followed(thread_id, *event, report@, enabled),
            views(r.1@) == old(self)@.followed_commands(thread_id, *event, report@, enabled),
            r.0 == (event.msg is RawResponseItem ==> old(self)@.knowing(
                thread_id,
            ).threads[thread_id].thread.experimental_raw_events),
    {
        self.ensure_thread(thread_id);
        let ghost known = self@;
        let ghost rv = report@;
        let mut raw_events_enabled = false;
        match self.threads.remove(&thread_id) {
            Some(mut entry) => {
                entry.thread.track_current_turn_event(event.id.as_str(), &event.msg, report);
                raw_events_enabled = entry.thread.experimental_raw_events;
                self.threads.insert(thread_id, entry);
            },
            None => {},
        }
        let ghost after = known.with_thread(
            thread_id,
            known.threads[thread_id].thread.with_event(event.id@, event.msg, rv),
        );
        assert(self@.threads =~= after.threads);
        assert(self@ == after);
        let passes = match &event.msg {
            EventMsg::RawResponseItem(_) => raw_events_enabled,
            _ => true,
        };
        let mut sent: Vec<RetainedSent> = Vec::new();
        assert(views(sent@) =~= Seq::empty());
        match &event.msg {
            EventMsg::SpineSpawnProgress(progress) => {
                if enabled {
                    sent =
                    self.register_spine_ui_spawn_progress(thread_id, event.id.as_str(), progress);
                }
            },
            _ => {},
        }
        (passes, sent)
    }

    /// Drops a thread's cards after a rollback, and takes the thread off the cards of its ancestors.
    /// The stored cards of the ancestors are to be back by then.
    pub fn rolled_back(&mut self, thread_id: ThreadId) -> (r: AncestorUpdates)
        ensures
            ({
                let known = old(self)@.knowing(thread_id);
                let dropped = known.with_thread(
                    thread_id,
                    known.threads[thread_id].thread.rolled_back(),
                );
                exists|steps: nat|
                    {
                        let end = #[trigger] dropped.isolated(thread_id).invalidation(
                            dropped.edges(thread_id),
                        ).run(steps);
                        &&& end.pending.len() == 0
                        &&& final(self)@ == end.manager
                        &&& views(r.completed@) == end.updates
                        &&& views(r.sent@) == end.sent
                    }
            }),
    {
        self.ensure_thread(thread_id);
        let ghost known = self@;
        match self.threads.remove(&thread_id) {
            Some(mut entry) => {
                entry.thread.reset_spine_ui_after_rollback();
                self.threads.insert(thread_id, entry);
            },
            None => {},
        }
        assert(self@.threads =~= known.with_thread(
            thread_id,
            known.threads[thread_id].thread.rolled_back(),
        ).threads);
        self.clear_all_spine_ui_routes_for_thread(thread_id)
    }

    /// Ends the handling of an event.
    pub fn event_done(
        &mut self,
        thread_id: ThreadId,
        listener_generation: u64,
        event: &Event,
        now: u64,
    ) -> (r: Vec<RetainedSent>)
        ensures
            final(self)@ == old(self)@.done_with(thread_id, listener_generation, *event, now),
            views(r@) == old(self)@.done_commands(thread_id, listener_generation, *event),
    {
        let (moves, ends) = match &event.msg {
            EventMsg::TurnStarted { .. } => (true, false),
            EventMsg::SpineTreeUpdate(_) => (true, false),
            EventMsg::SpineSpawnProgress(_) => (true, false),
            EventMsg::TurnComplete => (true, true),
            EventMsg::TurnAborted { .. } => (true, true),
            _ => (false, false),
        };
        let mut out: Vec<RetainedSent> = Vec::new();
        assert(views(out@) =~= Seq::empty());
        if moves {
            let queued = self.queue_spine_ui_agent_state(thread_id);
            out = list_sent(queued);
        }
        let ghost first = views(out@);
        if ends {
            let late = self.acknowledge_spine_ui_agent_terminal(
                thread_id,
                listener_generation,
                event.id.as_str(),
                now,
            );
            let mut late = list_sent(late);
            let ghost second = views(late@);
            out.append(&mut late);
            assert(views(out@) =~= first + second);
            self.clear_spine_ui_parent_routes(thread_id, event.id.as_str());
        }
        assert(views(out@) =~= old(self)@.done_commands(thread_id, listener_generation, *event));
        out
    }

    /// Removes the listener of a generation once it has ended; nothing where another has taken its
    /// place.
    pub fn listener_done(&mut self, thread_id: ThreadId, listener_generation: u64)
        ensures
            final(self)@ == (if old(self)@.threads.contains_key(thread_id)
                && old(self)@.threads[thread_id].thread.listener_generation == listener_generation {
                RetainedManagerView {
                    listeners: old(self)@.listeners.remove(thread_id),
                    ..old(self)@.with_thread(
                        thread_id,
                        RetainedView {
                            turns: crate::turns::no_turns(),
                            ..old(self)@.threads[thread_id].thread
                        },
                    )
                }
            } else {
                old(self)@
            }),
    {
        let current = match self.threads.get(&thread_id) {
            Some(entry) => entry.thread.listener_generation == listener_generation,
            None => false,
        };
        if !current {
            return;
        }
        match self.threads.remove(&thread_id) {
            Some(mut entry) => {
                entry.thread.clear_listener();
                self.threads.insert(thread_id, entry);
            },
            None => {},
        }
        self.unregister_listener(thread_id);
        assert(self@.threads =~= old(self)@.with_thread(
            thread_id,
            RetainedView {
                turns: crate::turns::no_turns(),
                ..old(self)@.threads[thread_id].thread
            },
        ).threads);
    }

    /// Enters a child's card where it belongs: on the card of the running turn, or, where it is a
    /// late final one, on the completed cards and upwards. Nothing happens where the child's route
    /// has changed since.
    pub fn forward_agent_state(
        &mut self,
        parent: ThreadId,
        parent_name: &str,
        child: ThreadId,
        turn_id: &str,
        generation: u64,
        state: Option<SpineUiState>,
        terminal: bool,
    ) -> (r: RetainedOutput)
        ensures
            is_forwarded(
                old(self)@,
                final(self)@,
                r,
                parent,
                parent_name@,
                child,
                turn_id@,
                generation,
                state_view(state),
                terminal,
            ),
    {
        let ghost before = self@;
        let mut completed: Vec<SpineUiCompletedUpdate> = Vec::new();
        let mut sent: Vec<RetainedSent> = Vec::new();
        let mut started: Option<ItemStartedNotification> = None;
        assert(views(sent@) =~= Seq::empty());
        assert(views(completed@) =~= Seq::empty());
        if !self.spine_ui_route_is_current(child, parent, turn_id, generation) {
            return RetainedOutput { started, completed, sent };
        }
        self.ensure_thread(parent);
        let ghost known = self@;
        let ghost thread = known.threads[parent].thread;
        let live = match self.threads.get(&parent) {
            Some(entry) => entry.thread.live_spine_ui(turn_id).is_some(),
            None => false,
        };
        if live {
            let ghost sv = state_view(state);
            let mut changed = false;
            match self.threads.remove(&parent) {
                Some(mut entry) => {
                    match state {
                        Some(state) => {
                            changed =
                            entry.thread.record_spine_ui_agent_state(child, generation, state);
                        },
                        None => {},
                    }
                    if changed {
                        match entry.thread.live_spine_ui(turn_id) {
                            Some(card) => {
                                started = snapshot_upsert_notification(parent_name, turn_id, card);
                            },
                            None => {},
                        }
                    }
                    self.threads.insert(parent, entry);
                },
                None => {},
            }
            let ghost shown = match sv {
                Some(s) => thread.with_agent(child, generation, s),
                None => thread,
            };
            assert(self@.threads =~= known.with_thread(parent, shown).threads);
            assert(self@ == known.with_thread(parent, shown));
            if changed {
                let queued = self.queue_spine_ui_agent_state(parent);
                sent = list_sent(queued);
            }
            if terminal {
                self.complete_spine_ui_late_terminal(child, parent, turn_id, generation);
                self.clear_spine_ui_parent_routes(parent, turn_id);
            }
            return RetainedOutput { started, completed, sent };
        }
        if !terminal {
            return RetainedOutput { started, completed, sent };
        }
        let ghost report = final_report(child, generation, state_view(state));
        let ghost refresh = known.late_refresh(report, parent, turn_id@);
        let ghost after = known.with_late(report, parent, turn_id@);
        let ghost start = known.late_start(report, parent, turn_id@);
        let ghost mut steps: nat = 0;
        match self.threads.remove(&parent) {
            Some(mut entry) => {
                let state_ref = match &state {
                    Some(s) => Some(s),
                    None => None,
                };
                assert(report_of(child, generation, state_ref, true) == report);
                let change = entry.thread.record_completed_spine_ui_agent_terminal(
                    turn_id,
                    child,
                    generation,
                    state_ref,
                );
                self.threads.insert(parent, entry);
                proof {
                    assert(change@ == refresh);
                    assert(self@.threads =~= after.threads);
                    assert(self@ == after);
                }
                match &change.active {
                    Some((active_turn, card)) => {
                        started = snapshot_upsert_notification(parent_name, active_turn.as_str(), card);
                    },
                    None => {},
                }
                let card = find_card(&change.completed, turn_id);
                let has_forward = change.forward.is_some();
                add_updates(&mut completed, parent, change.completed);
                assert(views(completed@) =~= updates_of(parent, refresh.completed));
                if has_forward {
                    let queued = self.queue_spine_ui_agent_state(parent);
                    sent = list_sent(queued);
                }
                let ghost first_updates = views(completed@);
                let ghost first_sent = views(sent@);
                match card {
                    Some(card) => {
                        let mut more = self.propagate_spine_ui_completed_agent_state(parent, &card);
                        proof {
                            steps =
                            choose|n: nat|
                                {
                                    let end = #[trigger] start.run(n);
                                    &&& end.pending.len() == 0
                                    &&& self@ == end.manager
                                    &&& views(more.completed@) == end.updates
                                    &&& views(more.sent@) == end.sent
                                };
                        }
                        let ghost later_updates = views(more.completed@);
                        let ghost later_sent = views(more.sent@);
                        completed.append(&mut more.completed);
                        sent.append(&mut more.sent);
                        assert(views(completed@) =~= first_updates + later_updates);
                        assert(views(sent@) =~= first_sent + later_sent);
                    },
                    None => {
                        proof {
                            assert(start.run(0) == start);
                            assert(views(completed@) =~= first_updates + start.updates);
                            assert(views(sent@) =~= first_sent + start.sent);
                        }
                    },
                }
                assert(self@ == start.run(steps).manager);
            },
            None => {},
        }
        self.complete_spine_ui_late_terminal(child, parent, turn_id, generation);
        self.clear_spine_ui_parent_routes(parent, turn_id);
        RetainedOutput { started, completed, sent }
    }
}

/// Announces a card again after one of its agents was taken off it.
pub fn emit_spine_ui_invalidation(
    thread_name: &str,
    turn_id: &str,
    card: &SpineUiState,
) -> (r: Option<ItemStartedNotification>)
    ensures
        started_view(r) == upsert_of(thread_name@, turn_id@, card@),
{
    snapshot_upsert_notification(thread_name, turn_id, card)
}

} // verus!
