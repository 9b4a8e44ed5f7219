//! A thread's live cards: the card of the running turn, the cards whose completion is pending, and
//! the last completed one. Nothing outlives the listener that fills them.
use crate::events::{activates_card, opens_card, EventMsg};
use crate::keyed::{views, KeySet};
use crate::protocol::{
    AgentStatus, AgentStatusView, ConnectionId, NodeView, SpawnProgressView,
    SpineSpawnProgressEvent, SpineTreeNodeSnapshot, SpineTreeUpdateEvent, ThreadId, TreeUpdateView,
};
use crate::state::{empty_state, SpineUiState, StateView};
use crate::text::{copy_optional_text, is_text, same_text, text_view};
use crate::turns::{no_turns, TurnReport, TurnReportView};
use vstd::prelude::*;

verus! {

/// A card whose turn ended and whose completion is not announced yet.
pub struct PendingTurn {
    pub turn_id: String,
    pub state: SpineUiState,
    pub mounted_connection_ids: KeySet<ConnectionId>,
    pub order: u64,
}

pub struct PendingView {
    pub turn_id: Seq<char>,
    pub state: StateView,
    pub mounted: Set<ConnectionId>,
    pub order: u64,
}

impl View for PendingTurn {
    type V = PendingView;

    open spec fn view(&self) -> PendingView {
        PendingView {
            turn_id: self.turn_id@,
            state: self.state@,
            mounted: self.mounted_connection_ids@,
            order: self.order,
        }
    }
}

/// The live cards of a thread.
pub struct LiveThread {
    pub listener_generation: u64,
    pub experimental_raw_events: bool,
    pub last_terminal_turn_id: Option<String>,
    pub started_at: Option<i64>,
    pub turns: TurnReport,
    /// The card of the running turn.
    pub active: SpineUiState,
    pub active_turn_id: Option<String>,
    pub mounted_connection_ids: KeySet<ConnectionId>,
    /// What the next card starts from.
    pub cumulative: SpineUiState,
    /// The last completed card.
    pub terminal: Option<SpineUiState>,
    pub pending: Vec<PendingTurn>,
    pub next_turn_order: u64,
    pub terminal_order: u64,
    pub next_revision: u64,
}

pub struct LiveView {
    pub listener_generation: u64,
    pub experimental_raw_events: bool,
    pub last_terminal_turn_id: Option<Seq<char>>,
    pub started_at: Option<i64>,
    pub turns: TurnReportView,
    pub active: StateView,
    pub active_turn_id: Option<Seq<char>>,
    pub mounted: Set<ConnectionId>,
    pub cumulative: StateView,
    pub terminal: Option<StateView>,
    pub pending: Seq<PendingView>,
    pub next_turn_order: u64,
    pub terminal_order: u64,
    pub next_revision: u64,
}

/// The view of an optional card.
pub open spec fn state_view(o: Option<SpineUiState>) -> Option<StateView> {
    match o {
        Some(s) => Some(s@),
        None => None,
    }
}

/// The view of an optional card, borrowed.
pub open spec fn state_ref_view(o: Option<&SpineUiState>) -> Option<StateView> {
    match o {
        Some(s) => Some(s@),
        None => None,
    }
}

/// The view of a card with the turn it belongs to.
pub open spec fn turn_state_view(o: Option<(String, SpineUiState)>) -> Option<(Seq<char>, StateView)> {
    match o {
        Some((id, s)) => Some((id@, s@)),
        None => None,
    }
}

impl View for LiveThread {
    type V = LiveView;

    open spec fn view(&self) -> LiveView {
        LiveView {
            listener_generation: self.listener_generation,
            experimental_raw_events: self.experimental_raw_events,
            last_terminal_turn_id: text_view(self.last_terminal_turn_id),
            started_at: self.started_at,
            turns: self.turns@,
            active: self.active@,
            active_turn_id: text_view(self.active_turn_id),
            mounted: self.mounted_connection_ids@,
            cumulative: self.cumulative@,
            terminal: state_view(self.terminal),
            pending: views(self.pending@),
            next_turn_order: self.next_turn_order,
            terminal_order: self.terminal_order,
            next_revision: self.next_revision,
        }
    }
}

/// The larger of two numbers.
pub open spec fn larger(a: u64, b: u64) -> u64 {
    if a >= b {
        a
    } else {
        b
    }
}

/// The number after another. It stays at its largest value once there.
pub open spec fn following(n: u64) -> u64 {
    if n < u64::MAX {
        (n + 1) as u64
    } else {
        n
    }
}

/// The position of the newest pending card, the last one among equals.
pub open spec fn newest(pending: Seq<PendingView>) -> int
    decreases pending.len(),
{
    if pending.len() <= 1 {
        0
    } else {
        let before = newest(pending.drop_last());
        if pending.last().order >= pending[before].order {
            pending.len() - 1
        } else {
            before
        }
    }
}

/// The position of a pending card by its turn and its completion token, or the length.
pub open spec fn pending_position(
    pending: Seq<PendingView>,
    turn_id: Seq<char>,
    token: u64,
) -> int {
    crate::keyed::position(pending, |p: PendingView| p.turn_id == turn_id && p.order == token)
}

/// The identifiers of some nodes.
pub open spec fn node_ids(nodes: Seq<NodeView>) -> Set<Seq<char>> {
    Set::new(
        |id: Seq<char>|
            exists|i: int| 0 <= i < nodes.len() && (#[trigger] nodes[i]).node_id == id,
    )
}

/// The identifiers of the nodes of an optional snapshot.
pub open spec fn snapshot_ids(snapshot: Option<TreeUpdateView>) -> Set<Seq<char>> {
    match snapshot {
        Some(s) => node_ids(s.nodes),
        None => Set::empty(),
    }
}

/// A thread without cards.
pub open spec fn empty_live() -> LiveView {
    LiveView {
        listener_generation: 0,
        experimental_raw_events: false,
        last_terminal_turn_id: None,
        started_at: None,
        turns: no_turns(),
        active: empty_state(),
        active_turn_id: None,
        mounted: Set::empty(),
        cumulative: empty_state(),
        terminal: None,
        pending: Seq::empty(),
        next_turn_order: 0,
        terminal_order: 0,
        next_revision: 0,
    }
}

impl LiveView {
    /// The card of a running turn.
    pub open spec fn live(self, turn_id: Seq<char>) -> Option<StateView> {
        if self.turns.runs(turn_id) && self.active_turn_id == Some(turn_id) {
            Some(self.active)
        } else {
            None
        }
    }

    /// The nodes that a running turn shows already: those of its tree, or of the last known one
    /// before its first tree.
    pub open spec fn baseline(self, turn_id: Seq<char>) -> Option<Set<Seq<char>>> {
        if self.live(turn_id) is Some {
            Some(
                if self.active.snapshot is Some {
                    snapshot_ids(self.active.snapshot)
                } else {
                    snapshot_ids(self.cumulative.snapshot)
                },
            )
        } else {
            None
        }
    }

    /// The card that a parent should show: the current turn's once it has a tree, else the newest
    /// pending one, else the last completed one.
    pub open spec fn forwarded(self) -> Option<StateView> {
        if self.turns.is_latest(self.active_turn_id) && self.active.snapshot is Some {
            Some(self.active)
        } else if self.pending.len() > 0 {
            Some(self.pending[newest(self.pending)].state)
        } else {
            self.terminal
        }
    }

    /// The current turn's card with its turn, once it has a tree.
    pub open spec fn active_card(self) -> Option<(Seq<char>, StateView)> {
        if self.turns.is_latest(self.active_turn_id) && self.active.snapshot is Some {
            Some((self.active_turn_id->0, self.active))
        } else {
            None
        }
    }

    /// The cards once the listener that filled them is gone.
    pub open spec fn without_cards(self) -> LiveView {
        LiveView {
            active: empty_state(),
            active_turn_id: None,
            mounted: Set::empty(),
            cumulative: empty_state(),
            terminal: None,
            pending: Seq::empty(),
            ..self
        }
    }

    /// The cards at the start of a turn.
    pub open spec fn turn_begun(self) -> LiveView {
        LiveView {
            terminal: None,
            active: empty_state(),
            active_turn_id: None,
            mounted: Set::empty(),
            ..self
        }
    }

    /// The cards once a turn has opened one.
    pub open spec fn activated(self, turn_id: Seq<char>) -> LiveView {
        if self.active_turn_id == Some(turn_id) {
            self
        } else {
            LiveView {
                active: self.cumulative.carried(),
                active_turn_id: Some(turn_id),
                mounted: Set::empty(),
                ..self
            }
        }
    }

    /// The cards after an event of a turn.
    pub open spec fn observed(self, turn_id: Seq<char>, event: EventMsg) -> LiveView {
        let begun = if event is TurnStarted {
            self.turn_begun()
        } else {
            self
        };
        if begun.turns.runs(turn_id) && opens_card(event) {
            begun.activated(turn_id)
        } else {
            begun
        }
    }

    /// The thread after an event, given what the turn history then reports. A turn that ended
    /// leaves an empty history.
    pub open spec fn with_event(
        self,
        turn_id: Seq<char>,
        event: EventMsg,
        report: TurnReportView,
    ) -> LiveView {
        let ends = (event is TurnAborted || event is TurnComplete) && !report.has_active_turn;
        LiveView {
            started_at: match event {
                EventMsg::TurnStarted { started_at } => started_at,
                _ => self.started_at,
            },
            last_terminal_turn_id: if ends {
                Some(turn_id)
            } else if event is TurnStarted {
                None
            } else {
                self.last_terminal_turn_id
            },
            turns: if ends {
                no_turns()
            } else {
                report
            },
            ..self
        }
    }

    /// The revision that the next change of a card gets: above every earlier one, and at least the
    /// card's own.
    pub open spec fn allocated(self, candidate: u64) -> u64 {
        larger(following(self.next_revision), candidate)
    }

    /// The cards with a changed active one, under a fresh revision.
    pub open spec fn with_active(self, active: StateView) -> LiveView {
        let revision = self.allocated(active.revision);
        LiveView { active: active.at_revision(revision), next_revision: revision, ..self }
    }

    /// Whether the running turn has opened a card.
    pub open spec fn has_card(self) -> bool {
        self.active_turn_id is Some && self.turns.has_active_turn
    }

    pub open spec fn with_snapshot(self, snapshot: TreeUpdateView, now: i64) -> LiveView {
        if !self.has_card() {
            LiveView { cumulative: self.cumulative.with_snapshot(snapshot, now), ..self }
        } else if self.active.takes_snapshot(snapshot) {
            self.with_active(self.active.with_snapshot(snapshot, now))
        } else {
            self
        }
    }

    pub open spec fn with_progress(self, progress: SpawnProgressView, now: i64) -> LiveView {
        if self.has_card() && self.active.takes_progress(progress) {
            self.with_active(self.active.with_progress(progress, now))
        } else {
            self
        }
    }

    pub open spec fn with_agent(
        self,
        child: ThreadId,
        generation: u64,
        state: StateView,
    ) -> LiveView {
        if self.active.takes_agent(child, generation, state) {
            self.with_active(self.active.with_agent(child, generation, state))
        } else {
            self
        }
    }

    /// The cards after a child's generation was invalidated. The invalidation is remembered even
    /// where nothing was shown.
    pub open spec fn without_agent(self, child: ThreadId, generation: u64) -> LiveView {
        let active = self.active.without_agent(child, generation);
        if self.active.drops_agent(child, generation) {
            self.with_active(active)
        } else {
            LiveView { active, ..self }
        }
    }

    pub open spec fn ended(self, terminal: AgentStatusView) -> LiveView {
        let active = self.active.ended(terminal);
        if self.active.incomplete() {
            self.with_active(active)
        } else {
            LiveView { active, ..self }
        }
    }

    /// Whether a turn's card can begin its completion: it is the active one, has a tree and is not
    /// pending already.
    pub open spec fn can_complete(self, turn_id: Seq<char>) -> bool {
        &&& self.active_turn_id == Some(turn_id)
        &&& self.active.snapshot is Some
        &&& forall|i: int|
            0 <= i < self.pending.len() ==> (#[trigger] self.pending[i]).turn_id != turn_id
    }

    /// The cards once a turn's card is pending. Its order is the completion token.
    pub open spec fn completing(self, turn_id: Seq<char>) -> LiveView {
        let order = following(self.next_turn_order);
        LiveView {
            active: empty_state(),
            active_turn_id: None,
            mounted: Set::empty(),
            cumulative: self.active,
            pending: self.pending.push(
                PendingView { turn_id, state: self.active, mounted: self.mounted, order },
            ),
            next_turn_order: order,
            ..self
        }
    }

    /// The completed form of a pending card.
    pub open spec fn completed_card(self, pending: PendingView, now: i64) -> StateView {
        pending.state.completed_by(now).at_revision(self.allocated(pending.state.revision))
    }

    /// The cards once the pending card at a position is completed.
    pub open spec fn finalized(self, at: int, now: i64) -> LiveView {
        let pending = self.pending[at];
        LiveView {
            pending: self.pending.remove(at),
            next_revision: self.allocated(pending.state.revision),
            terminal_order: if pending.order >= self.terminal_order {
                pending.order
            } else {
                self.terminal_order
            },
            terminal: if pending.order >= self.terminal_order {
                Some(self.completed_card(pending, now))
            } else {
                self.terminal
            },
            ..self
        }
    }
}

/// A completed card and the connections that show it.
pub struct SpineUiCompletion {
    pub state: SpineUiState,
    pub connection_ids: Vec<ConnectionId>,
}

pub fn larger_of(a: u64, b: u64) -> (r: u64)
    ensures
        r == larger(a, b),
{
    if a >= b {
        a
    } else {
        b
    }
}

/// The identifiers of the nodes of a snapshot.
pub fn ids_of_nodes(nodes: &Vec<SpineTreeNodeSnapshot>) -> (r: KeySet<String>)
    ensures
        r@ == node_ids(views(nodes@)),
{
    let ghost all = views(nodes@);
    let mut out: KeySet<String> = KeySet::new();
    let mut i: usize = 0;
    while i < nodes.len()
        invariant
            i <= nodes.len(),
            all == views(nodes@),
            forall|id: Seq<char>| #[trigger]
                out@.contains(id) == exists|k: int|
                    0 <= k < i && (#[trigger] all[k]).node_id == id,
        decreases nodes.len() - i,
    {
        assert(all[i as int] == nodes@[i as int]@);
        let _ = out.insert(nodes[i].node_id.clone());
        i += 1;
    }
    assert(out@ =~= node_ids(all));
    out
}

pub proof fn lemma_newest(pending: Seq<PendingView>)
    requires
        pending.len() > 0,
    ensures
        0 <= newest(pending) < pending.len(),
        forall|i: int|
            0 <= i < pending.len() ==> (#[trigger] pending[i]).order <= pending[newest(
                pending,
            )].order,
        forall|i: int|
            newest(pending) < i < pending.len() ==> (#[trigger] pending[i]).order < pending[newest(
                pending,
            )].order,
    decreases pending.len(),
{
    if pending.len() > 1 {
        lemma_newest(pending.drop_last());
        assert forall|i: int| 0 <= i < pending.len() - 1 implies pending.drop_last()[i]
            == #[trigger] pending[i] by {}
    }
}

fn newest_pending(pending: &Vec<PendingTurn>) -> (at: usize)
    requires
        pending@.len() > 0,
    ensures
        at == newest(views(pending@)),
        at < pending@.len(),
{
    let ghost all = views(pending@);
    let mut at: usize = 0;
    let mut i: usize = 1;
    assert(all.take(1).len() == 1);
    while i < pending.len()
        invariant
            1 <= i <= pending.len(),
            at < i,
            all == views(pending@),
            at == newest(all.take(i as int)),
        decreases pending.len() - i,
    {
        assert(all.take(i + 1).drop_last() =~= all.take(i as int));
        assert(all[i as int] == pending@[i as int]@);
        assert(all[at as int] == pending@[at as int]@);
        if pending[i].order >= pending[at].order {
            at = i;
        }
        i += 1;
    }
    assert(all.take(i as int) =~= all);
    at
}

impl LiveThread {
    pub fn new() -> (r: Self)
        ensures
            r@ == empty_live(),
    {
        let r = LiveThread {
            listener_generation: 0,
            experimental_raw_events: false,
            last_terminal_turn_id: None,
            started_at: None,
            turns: TurnReport::none(),
            active: SpineUiState::new(),
            active_turn_id: None,
            mounted_connection_ids: KeySet::new(),
            cumulative: SpineUiState::new(),
            terminal: None,
            pending: Vec::new(),
            next_turn_order: 0,
            terminal_order: 0,
            next_revision: 0,
        };
        assert(r@.pending =~= Seq::empty());
        r
    }

    /// Drops every card.
    pub fn clear_spine_ui_transient_state(&mut self)
        ensures
            final(self)@ == old(self)@.without_cards(),
    {
        self.active = SpineUiState::new();
        self.active_turn_id = None;
        self.mounted_connection_ids = KeySet::new();
        self.cumulative = SpineUiState::new();
        self.terminal = None;
        self.pending = Vec::new();
        assert(self@.pending =~= Seq::empty());
    }

    /// Drops every card and forgets the last ended turn. Revisions go on from where they were.
    pub fn reset_spine_ui_after_rollback(&mut self)
        ensures
            final(self)@ == (LiveView {
                last_terminal_turn_id: None,
                ..old(self)@.without_cards()
            }),
    {
        self.clear_spine_ui_transient_state();
        self.last_terminal_turn_id = None;
    }

    /// Installs a listener: the cards of the one before go, and a new generation starts.
    pub fn set_listener(&mut self) -> (generation: u64)
        ensures
            generation == old(self)@.listener_generation.wrapping_add(1),
            final(self)@ == (LiveView {
                listener_generation: generation,
                ..old(self)@.without_cards()
            }),
    {
        self.clear_spine_ui_transient_state();
        self.listener_generation = self.listener_generation.wrapping_add(1);
        self.listener_generation
    }

    /// Removes the listener with its cards and the turns it followed.
    pub fn clear_listener(&mut self)
        ensures
            final(self)@ == (LiveView { turns: no_turns(), ..old(self)@.without_cards() }),
    {
        self.clear_spine_ui_transient_state();
        self.turns = TurnReport::none();
    }

    pub fn set_experimental_raw_events(&mut self, enabled: bool)
        ensures
            final(self)@ == (LiveView { experimental_raw_events: enabled, ..old(self)@ }),
    {
        self.experimental_raw_events = enabled;
    }

    /// Follows an event, given what the turn history reports after it.
    pub fn track_current_turn_event(&mut self, turn_id: &str, event: &EventMsg, report: TurnReport)
        ensures
            final(self)@ == old(self)@.with_event(turn_id@, *event, report@),
    {
        let mut ends = false;
        match event {
            EventMsg::TurnStarted { started_at } => {
                self.started_at = *started_at;
                self.last_terminal_turn_id = None;
            },
            EventMsg::TurnComplete => {
                ends = !report.has_active_turn;
            },
            EventMsg::TurnAborted { reason: _ } => {
                ends = !report.has_active_turn;
            },
            _ => {},
        }
        if ends {
            self.last_terminal_turn_id = Some(turn_id.to_owned());
            self.turns = TurnReport::none();
        } else {
            self.turns = report;
        }
    }

    /// Follows an event for the current listener; nothing for another one. Says whether raw events
    /// are wanted.
    pub fn track_current_turn_event_for_listener(
        &mut self,
        listener_generation: u64,
        turn_id: &str,
        event: &EventMsg,
        report: TurnReport,
    ) -> (r: Option<bool>)
        ensures
            old(self)@.listener_generation != listener_generation ==> r is None && *final(self)
                == *old(self),
            old(self)@.listener_generation == listener_generation ==> r == Some(
                old(self)@.experimental_raw_events,
            ) && final(self)@ == old(self)@.with_event(turn_id@, *event, report@),
    {
        if self.listener_generation != listener_generation {
            return None;
        }
        self.track_current_turn_event(turn_id, event, report);
        Some(self.experimental_raw_events)
    }

    fn start_turn(&mut self)
        ensures
            final(self)@ == old(self)@.turn_begun(),
    {
        self.terminal = None;
        self.active = SpineUiState::new();
        self.active_turn_id = None;
        self.mounted_connection_ids = KeySet::new();
    }

    fn activate(&mut self, turn_id: &str)
        ensures
            final(self)@ == old(self)@.activated(turn_id@),
    {
        if !is_text(&self.active_turn_id, turn_id) {
            self.active = self.cumulative.carry_forward();
            self.active_turn_id = Some(turn_id.to_owned());
            self.mounted_connection_ids = KeySet::new();
        }
    }

    /// Opens a card where an event of the running turn calls for one.
    pub fn observe_spine_ui_event(&mut self, turn_id: &str, event: &EventMsg)
        ensures
            final(self)@ == old(self)@.observed(turn_id@, *event),
    {
        match event {
            EventMsg::TurnStarted { started_at: _ } => {
                self.start_turn();
            },
            _ => {},
        }
        if self.turns.runs(turn_id) && activates_card(event) {
            self.activate(turn_id);
        }
    }

    pub fn has_active_turn(&self, turn_id: &str) -> (r: bool)
        ensures
            r == self@.turns.runs(turn_id@),
    {
        self.turns.runs(turn_id)
    }

    /// The card of a running turn.
    pub fn live_spine_ui(&self, turn_id: &str) -> (r: Option<&SpineUiState>)
        ensures
            state_ref_view(r) == self@.live(turn_id@),
    {
        if self.turns.runs(turn_id) && is_text(&self.active_turn_id, turn_id) {
            Some(&self.active)
        } else {
            None
        }
    }

    /// The nodes that a running turn shows already.
    pub fn spine_ui_baseline_node_ids(&self, turn_id: &str) -> (r: Option<KeySet<String>>)
        ensures
            match r {
                Some(ids) => self@.baseline(turn_id@) == Some(ids@),
                None => self@.baseline(turn_id@) is None,
            },
    {
        if self.live_spine_ui(turn_id).is_none() {
            return None;
        }
        match &self.active.snapshot {
            Some(s) => Some(ids_of_nodes(&s.nodes)),
            None => match &self.cumulative.snapshot {
                Some(s) => Some(ids_of_nodes(&s.nodes)),
                None => Some(KeySet::new()),
            },
        }
    }

    /// The card that a parent should show.
    pub fn current_spine_ui_for_forward(&self) -> (r: Option<&SpineUiState>)
        ensures
            state_ref_view(r) == self@.forwarded(),
    {
        if self.turns.is_latest(&self.active_turn_id) && self.active.snapshot.is_some() {
            return Some(&self.active);
        }
        if self.pending.len() > 0 {
            let at = newest_pending(&self.pending);
            assert(self@.pending[at as int] == self.pending@[at as int]@);
            return Some(&self.pending[at].state);
        }
        match &self.terminal {
            Some(s) => Some(s),
            None => None,
        }
    }

    /// Notes the connections that show a turn's card.
    pub fn mark_spine_ui_mounted(&mut self, turn_id: &str, connection_ids: &Vec<ConnectionId>)
        ensures
            final(self)@ == (LiveView {
                mounted: if old(self)@.active_turn_id == Some(turn_id@) {
                    old(self)@.mounted.union(connection_ids@.to_set())
                } else {
                    old(self)@.mounted
                },
                ..old(self)@
            }),
    {
        if is_text(&self.active_turn_id, turn_id) {
            let ghost start = self.mounted_connection_ids@;
            let mut ids = self.mounted_connection_ids.copy_set();
            let mut i: usize = 0;
            assert(ids@ =~= start.union(connection_ids@.take(0).to_set()));
            while i < connection_ids.len()
                invariant
                    i <= connection_ids.len(),
                    ids@ == start.union(connection_ids@.take(i as int).to_set()),
                decreases connection_ids.len() - i,
            {
                let _ = ids.insert(connection_ids[i]);
                proof {
                    lemma_take_set(connection_ids@, i as int);
                    assert(ids@ =~= start.union(connection_ids@.take(i + 1).to_set()));
                }
                i += 1;
            }
            assert(connection_ids@.take(i as int) =~= connection_ids@);
            self.mounted_connection_ids = ids;
        }
    }

    /// Mounts the newest card for a connection: the active one with a tree, else the newest pending
    /// one.
    pub fn mount_spine_ui_for_connection(
        &mut self,
        connection_id: ConnectionId,
    ) -> (r: Option<(String, SpineUiState)>)
        ensures
            ({
                let before = old(self)@;
                let at = newest(before.pending);
                if before.active_turn_id is Some && before.active.snapshot is Some {
                    &&& turn_state_view(r) == Some((before.active_turn_id->0, before.active))
                    &&& final(self)@ == (LiveView {
                        mounted: before.mounted.insert(connection_id),
                        ..before
                    })
                } else if before.pending.len() > 0 {
                    &&& turn_state_view(r) == Some(
                        (before.pending[at].turn_id, before.pending[at].state),
                    )
                    &&& final(self)@ == (LiveView {
                        pending: before.pending.update(
                            at,
                            PendingView {
                                mounted: before.pending[at].mounted.insert(connection_id),
                                ..before.pending[at]
                            },
                        ),
                        ..before
                    })
                } else {
                    &&& r is None
                    &&& final(self)@ == before
                }
            }),
    {
        match copy_optional_text(&self.active_turn_id) {
            Some(turn_id) => {
                if self.active.snapshot.is_some() {
                    let _ = self.mounted_connection_ids.insert(connection_id);
                    return Some((turn_id, self.active.copy_state()));
                }
            },
            None => {},
        }
        if self.pending.len() == 0 {
            return None;
        }
        let at = newest_pending(&self.pending);
        let ghost all = views(self.pending@);
        assert(all[at as int] == self.pending@[at as int]@);
        let mut mounted = self.pending[at].mounted_connection_ids.copy_set();
        let _ = mounted.insert(connection_id);
        let turn_id = self.pending[at].turn_id.clone();
        let state = self.pending[at].state.copy_state();
        let entry = PendingTurn {
            turn_id: turn_id.clone(),
            state: state.copy_state(),
            mounted_connection_ids: mounted,
            order: self.pending[at].order,
        };
        let ghost ev = entry@;
        self.pending.set(at, entry);
        assert(views(self.pending@) =~= all.update(at as int, ev));
        Some((turn_id, state))
    }

    /// The current turn's card with its turn, once it has a tree.
    pub fn active_spine_ui_snapshot(&self) -> (r: Option<(String, SpineUiState)>)
        ensures
            turn_state_view(r) == self@.active_card(),
    {
        if self.turns.is_latest(&self.active_turn_id) && self.active.snapshot.is_some() {
            match &self.active_turn_id {
                Some(id) => Some((id.clone(), self.active.copy_state())),
                None => None,
            }
        } else {
            None
        }
    }

    fn allocate_spine_ui_revision(&mut self, candidate: u64) -> (revision: u64)
        ensures
            revision == old(self)@.allocated(candidate),
            final(self)@ == (LiveView { next_revision: revision, ..old(self)@ }),
    {
        let revision = larger_of(self.next_revision.saturating_add(1), candidate);
        self.next_revision = revision;
        revision
    }

    fn assign_active_revision(&mut self)
        ensures
            final(self)@ == old(self)@.with_active(old(self)@.active),
    {
        let candidate = self.active.revision();
        let revision = self.allocate_spine_ui_revision(candidate);
        self.active.set_revision(revision);
    }

    /// Records a tree: on the card of the running turn, or as what the next card starts from. Says
    /// whether the card of the running turn changed.
    pub fn record_spine_ui_snapshot(
        &mut self,
        snapshot: SpineTreeUpdateEvent,
        now: i64,
    ) -> (changed: bool)
        ensures
            changed == (old(self)@.has_card() && old(self)@.active.takes_snapshot(snapshot@)),
            final(self)@ == old(self)@.with_snapshot(snapshot@, now),
    {
        if self.active_turn_id.is_none() || !self.turns.has_active_turn {
            let _ = self.cumulative.record_snapshot_at(snapshot, now);
            return false;
        }
        let changed = self.active.record_snapshot_at(snapshot, now);
        if changed {
            self.assign_active_revision();
        }
        changed
    }

    /// Records spawn progress on the card of the running turn. Says whether it changed.
    pub fn record_spine_ui_spawn_progress(
        &mut self,
        progress: SpineSpawnProgressEvent,
        now: i64,
    ) -> (changed: bool)
        ensures
            changed == (old(self)@.has_card() && old(self)@.active.takes_progress(progress@)),
            final(self)@ == old(self)@.with_progress(progress@, now),
    {
        if self.active_turn_id.is_none() || !self.turns.has_active_turn {
            return false;
        }
        let changed = self.active.record_spawn_progress_at(progress, now);
        if changed {
            self.assign_active_revision();
        }
        changed
    }

    /// Records a child's card. Says whether the active card changed.
    pub fn record_spine_ui_agent_state(
        &mut self,
        child: ThreadId,
        generation: u64,
        state: SpineUiState,
    ) -> (changed: bool)
        ensures
            changed == old(self)@.active.takes_agent(child, generation, state@),
            final(self)@ == old(self)@.with_agent(child, generation, state@),
    {
        let changed = self.active.record_agent_state(child, generation, state);
        if changed {
            self.assign_active_revision();
        }
        changed
    }

    /// Makes a turn's card pending. Gives the token that completes it.
    pub fn begin_spine_ui_turn_completion(&mut self, turn_id: &str) -> (token: Option<u64>)
        ensures
            old(self)@.can_complete(turn_id@) ==> token == Some(
                following(old(self)@.next_turn_order),
            ) && final(self)@ == old(self)@.completing(turn_id@),
            !old(self)@.can_complete(turn_id@) ==> token is None && final(self)@ == old(self)@,
    {
        if !is_text(&self.active_turn_id, turn_id) || self.active.snapshot.is_none() {
            return None;
        }
        let ghost all = views(self.pending@);
        let mut i: usize = 0;
        while i < self.pending.len()
            invariant
                i <= self.pending.len(),
                all == views(self.pending@),
                self@ == old(self)@,
                forall|k: int| 0 <= k < i ==> (#[trigger] all[k]).turn_id != turn_id@,
            decreases self.pending.len() - i,
        {
            assert(all[i as int] == self.pending@[i as int]@);
            if same_text(self.pending[i].turn_id.as_str(), turn_id) {
                assert(self@.pending[i as int].turn_id == turn_id@);
                return None;
            }
            i += 1;
        }
        let token = self.next_turn_order.saturating_add(1);
        self.next_turn_order = token;
        let mut state = SpineUiState::new();
        std::mem::swap(&mut state, &mut self.active);
        self.cumulative = state.copy_state();
        let mut mounted: KeySet<ConnectionId> = KeySet::new();
        std::mem::swap(&mut mounted, &mut self.mounted_connection_ids);
        let entry = PendingTurn {
            turn_id: turn_id.to_owned(),
            state,
            mounted_connection_ids: mounted,
            order: token,
        };
        let ghost ev = entry@;
        self.pending.push(entry);
        assert(views(self.pending@) =~= all.push(ev));
        self.active_turn_id = None;
        Some(token)
    }

    /// Ends every incomplete agent of the active card. Says whether there was one.
    pub fn terminalize_spine_ui_incomplete_agents(
        &mut self,
        terminal: &AgentStatus,
    ) -> (changed: bool)
        ensures
            changed == old(self)@.active.incomplete(),
            final(self)@ == old(self)@.ended(terminal@),
    {
        let changed = self.active.terminalize_incomplete_agents(terminal);
        if changed {
            self.assign_active_revision();
        }
        changed
    }

    /// Completes a pending card with its token. A token completes once.
    pub fn finalize_spine_ui_turn(
        &mut self,
        turn_id: &str,
        token: u64,
        now: i64,
    ) -> (r: Option<SpineUiCompletion>)
        ensures
            ({
                let before = old(self)@;
                let at = pending_position(before.pending, turn_id@, token);
                match r {
                    Some(completion) => {
                        &&& at < before.pending.len()
                        &&& completion.state@ == before.completed_card(before.pending[at], now)
                        &&& completion.connection_ids@.to_set() == before.pending[at].mounted
                        &&& completion.connection_ids@.no_duplicates()
                        &&& final(self)@ == before.finalized(at, now)
                    },
                    None => at == before.pending.len() && final(self)@ == before,
                }
            }),
    {
        let ghost all = views(self.pending@);
        proof {
            crate::keyed::lemma_position(
                all,
                |p: PendingView| p.turn_id == turn_id@ && p.order == token,
            );
        }
        let mut at: usize = 0;
        while at < self.pending.len() && !(same_text(self.pending[at].turn_id.as_str(), turn_id)
            && self.pending[at].order == token)
            invariant
                at <= self.pending.len(),
                all == views(self.pending@),
                forall|k: int|
                    0 <= k < at ==> !((#[trigger] all[k]).turn_id == turn_id@ && all[k].order
                        == token),
            decreases self.pending.len() - at,
        {
            assert(all[at as int] == self.pending@[at as int]@);
            at += 1;
        }
        if at == self.pending.len() {
            return None;
        }
        assert(all[at as int] == self.pending@[at as int]@);
        assert(at == pending_position(all, turn_id@, token));
        let pending = self.pending.remove(at);
        assert(views(self.pending@) =~= all.remove(at as int));
        let mut state = pending.state;
        state.mark_completed_at(now);
        let candidate = state.revision();
        let revision = self.allocate_spine_ui_revision(candidate);
        state.set_revision(revision);
        if pending.order >= self.terminal_order {
            self.terminal_order = pending.order;
            self.terminal = Some(state.copy_state());
        }
        let connection_ids = pending.mounted_connection_ids.members_of();
        assert(views(connection_ids@) =~= connection_ids@);
        Some(SpineUiCompletion { state, connection_ids })
    }

    /// Invalidates a child's generation on the active card. Says whether the card showed it.
    pub fn invalidate_spine_ui_agent_state(
        &mut self,
        child: ThreadId,
        generation: u64,
    ) -> (changed: bool)
        ensures
            changed == old(self)@.active.drops_agent(child, generation),
            final(self)@ == old(self)@.without_agent(child, generation),
    {
        let changed = self.active.remove_agent_state(child, generation);
        if changed {
            self.assign_active_revision();
        }
        changed
    }
}

/// One more element adds one more member.
pub proof fn lemma_take_set<A>(s: Seq<A>, i: int)
    requires
        0 <= i < s.len(),
    ensures
        s.take(i + 1).to_set() == s.take(i).to_set().insert(s[i]),
{
    let a = s.take(i);
    let b = s.take(i + 1);
    assert forall|x: A| #[trigger] b.to_set().contains(x) == a.to_set().insert(s[i]).contains(x) by {
        if a.contains(x) {
            let j = choose|j: int| 0 <= j < a.len() && a[j] == x;
            assert(b[j] == x);
        }
        if x == s[i] {
            assert(b[i] == x);
        }
        if b.contains(x) && x != s[i] {
            let j = choose|j: int| 0 <= j < b.len() && b[j] == x;
            assert(a[j] == x);
        }
    }
    assert(b.to_set() =~= a.to_set().insert(s[i]));
}

} // verus!
