//! A thread's retained cards: the card of the running turn, the completed one, and older completed
//! ones that still miss an agent's final state. A final state that comes late is still shown.
use crate::events::{affects_tree, is_tree_affecting_item, EventMsg};
use crate::keyed::{lemma_filter_step, retain_items, views, AssocMap, KeySet};
use crate::live::{
    following, ids_of_nodes, larger, larger_of, snapshot_ids, state_ref_view, state_view,
    turn_state_view,
};
use crate::protocol::{
    SpawnProgressView, SpineSpawnProgressEvent, SpineTreeUpdateEvent, ThreadId, TreeUpdateView,
};
use crate::state::{empty_state, SpineUiState, StateView};
use crate::text::{copy_optional_text, is_text, same_text, text_view};
use crate::turns::{no_turns, TurnReport, TurnReportView};
use vstd::prelude::*;

verus! {

/// A card and the turn it belongs to.
pub struct TurnCard {
    pub turn_id: String,
    pub state: SpineUiState,
}

pub struct CardView {
    pub turn_id: Seq<char>,
    pub state: StateView,
}

impl View for TurnCard {
    type V = CardView;

    open spec fn view(&self) -> CardView {
        CardView { turn_id: self.turn_id@, state: self.state@ }
    }
}

/// What a running turn has gathered.
pub struct TurnSummary {
    pub started_at: Option<i64>,
    pub spine_ui: SpineUiState,
    pub spine_ui_turn_id: Option<String>,
}

pub struct SummaryView {
    pub started_at: Option<i64>,
    pub spine_ui: StateView,
    pub turn_id: Option<Seq<char>>,
}

impl View for TurnSummary {
    type V = SummaryView;

    open spec fn view(&self) -> SummaryView {
        SummaryView {
            started_at: self.started_at,
            spine_ui: self.spine_ui@,
            turn_id: text_view(self.spine_ui_turn_id),
        }
    }
}

/// The retained cards of a thread.
pub struct RetainedThread {
    pub listener_generation: u64,
    pub experimental_raw_events: bool,
    pub last_terminal_turn_id: Option<String>,
    pub turns: TurnReport,
    /// What the running turn has gathered, its card among it.
    pub turn_summary: TurnSummary,
    /// What the next card starts from.
    pub carry: SpineUiState,
    pub last_completed: SpineUiState,
    pub last_completed_turn_id: Option<String>,
    /// Older completed cards, one for each turn.
    pub restored: Vec<TurnCard>,
    pub next_revision: u64,
    /// The last settings that were announced, in their serialised form.
    pub last_settings: Option<String>,
}

pub struct RetainedView {
    pub listener_generation: u64,
    pub experimental_raw_events: bool,
    pub last_terminal_turn_id: Option<Seq<char>>,
    pub turns: TurnReportView,
    pub started_at: Option<i64>,
    pub active: StateView,
    pub active_turn_id: Option<Seq<char>>,
    pub carry: StateView,
    pub last_completed: StateView,
    pub last_completed_turn_id: Option<Seq<char>>,
    pub restored: Seq<CardView>,
    pub next_revision: u64,
    pub last_settings: Option<Seq<char>>,
}

impl View for RetainedThread {
    type V = RetainedView;

    open spec fn view(&self) -> RetainedView {
        RetainedView {
            listener_generation: self.listener_generation,
            experimental_raw_events: self.experimental_raw_events,
            last_terminal_turn_id: text_view(self.last_terminal_turn_id),
            turns: self.turns@,
            started_at: self.turn_summary.started_at,
            active: self.turn_summary.spine_ui@,
            active_turn_id: text_view(self.turn_summary.spine_ui_turn_id),
            carry: self.carry@,
            last_completed: self.last_completed@,
            last_completed_turn_id: text_view(self.last_completed_turn_id),
            restored: views(self.restored@),
            next_revision: self.next_revision,
            last_settings: text_view(self.last_settings),
        }
    }
}

/// A thread without cards.
pub open spec fn empty_retained() -> RetainedView {
    RetainedView {
        listener_generation: 0,
        experimental_raw_events: false,
        last_terminal_turn_id: None,
        turns: no_turns(),
        started_at: None,
        active: empty_state(),
        active_turn_id: None,
        carry: empty_state(),
        last_completed: empty_state(),
        last_completed_turn_id: None,
        restored: Seq::empty(),
        next_revision: 0,
        last_settings: None,
    }
}

/// A child's report of its card. A final one also ends the wait for the child.
pub struct AgentReport {
    pub child: ThreadId,
    pub generation: u64,
    pub state: Option<StateView>,
    pub is_final: bool,
}

impl StateView {
    /// Whether an agent's final state is missing.
    pub open spec fn awaits(self) -> bool {
        !(self.timeouts =~= Map::empty())
    }

    /// Whether the card shows the child that a report is about, or misses its final state.
    pub open spec fn concerned(self, report: AgentReport) -> bool {
        if report.is_final {
            self.tracks_or_awaits(report.child, report.generation)
        } else {
            self.tracks(report.child, report.generation)
        }
    }

    /// The card with the state that a report carries.
    pub open spec fn shown(self, report: AgentReport) -> StateView {
        match report.state {
            Some(state) => self.with_agent(report.child, report.generation, state),
            None => self,
        }
    }

    /// Whether a report changes the card.
    pub open spec fn hears(self, report: AgentReport) -> bool {
        &&& self.concerned(report)
        &&& if report.is_final && report.state is None {
            self.drops_agent(report.child, report.generation)
        } else {
            ||| match report.state {
                Some(state) => self.takes_agent(report.child, report.generation, state),
                None => false,
            }
            ||| report.is_final && self.shown(report).drops_timeout(
                report.child,
                report.generation,
            )
        }
    }

    /// The card after a report. A final report without a state takes the child off the card.
    pub open spec fn heard(self, report: AgentReport) -> StateView {
        if !self.concerned(report) {
            self
        } else if report.is_final && report.state is None {
            self.without_agent(report.child, report.generation)
        } else if report.is_final {
            self.shown(report).without_timeout(report.child, report.generation)
        } else {
            self.shown(report)
        }
    }

    /// The card after a report, under a new revision if the report changed it.
    pub open spec fn heard_at(self, report: AgentReport, revision: u64) -> StateView {
        if self.hears(report) {
            self.heard(report).at_revision(revision)
        } else {
            self.heard(report)
        }
    }
}

/// The older cards that a report changes, changed.
pub open spec fn changed_cards(cards: Seq<CardView>, report: AgentReport) -> Seq<CardView> {
    cards.filter(|c: CardView| c.state.hears(report)).map_values(
        |c: CardView| CardView { state: c.state.heard(report), ..c },
    )
}

/// The older cards after a report. A changed card goes once it misses nothing.
pub open spec fn cards_after(
    cards: Seq<CardView>,
    report: AgentReport,
    revision: u64,
) -> Seq<CardView> {
    cards.filter(
        |c: CardView| c.state.hears(report) ==> c.state.heard(report).awaits(),
    ).map_values(
        |c: CardView|
            CardView {
                state: if c.state.hears(report) {
                    c.state.heard(report).at_revision(revision)
                } else {
                    c.state
                },
                ..c
            },
    )
}

/// The cards under another revision.
pub open spec fn cards_at(cards: Seq<CardView>, revision: u64) -> Seq<CardView> {
    cards.map_values(|c: CardView| CardView { state: c.state.at_revision(revision), ..c })
}

/// The largest of a number and the revisions of some cards.
pub open spec fn top_revision(cards: Seq<CardView>, from: u64) -> u64
    decreases cards.len(),
{
    if cards.len() == 0 {
        from
    } else {
        larger(top_revision(cards.drop_last(), from), cards.last().state.revision)
    }
}

/// The cards with one more, in place of the one of its turn.
pub open spec fn placed(cards: Seq<CardView>, card: CardView) -> Seq<CardView> {
    cards.filter(|c: CardView| c.turn_id != card.turn_id).push(card)
}

/// The older cards after a child's generation was invalidated: those that stay, those that changed,
/// and the last revision given. Every changed card gets a revision of its own.
pub struct Invalidated {
    pub kept: Seq<CardView>,
    pub changed: Seq<CardView>,
    pub next_revision: u64,
}

pub open spec fn invalidated_cards(
    cards: Seq<CardView>,
    child: ThreadId,
    generation: u64,
    next_revision: u64,
) -> Invalidated
    decreases cards.len(),
{
    if cards.len() == 0 {
        Invalidated { kept: Seq::empty(), changed: Seq::empty(), next_revision }
    } else {
        let before = invalidated_cards(cards.drop_last(), child, generation, next_revision);
        let card = cards.last();
        if card.state.tracks_or_awaits(child, generation) {
            let state = card.state.without_agent(child, generation);
            let revision = larger(following(before.next_revision), state.revision);
            let next = CardView { state: state.at_revision(revision), ..card };
            Invalidated {
                kept: if next.state.awaits() {
                    before.kept.push(next)
                } else {
                    before.kept
                },
                changed: before.changed.push(next),
                next_revision: revision,
            }
        } else {
            Invalidated { kept: before.kept.push(card), ..before }
        }
    }
}

/// What a child's report changed: the running turn's card, completed ones, and the card that the
/// thread's own parent should now show.
pub struct SpineUiAgentRefresh {
    pub active: Option<(String, SpineUiState)>,
    pub completed: Vec<TurnCard>,
    pub forward: Option<SpineUiState>,
}

pub struct RefreshView {
    pub active: Option<(Seq<char>, StateView)>,
    pub completed: Seq<CardView>,
    pub forward: Option<StateView>,
}

impl View for SpineUiAgentRefresh {
    type V = RefreshView;

    open spec fn view(&self) -> RefreshView {
        RefreshView {
            active: turn_state_view(self.active),
            completed: views(self.completed@),
            forward: state_view(self.forward),
        }
    }
}

pub open spec fn no_refresh() -> RefreshView {
    RefreshView { active: None, completed: Seq::empty(), forward: None }
}

impl RetainedView {
    /// The card of a running turn.
    pub open spec fn live(self, turn_id: Seq<char>) -> Option<StateView> {
        if self.turns.runs(turn_id) && self.active_turn_id == Some(turn_id) {
            Some(self.active)
        } else {
            None
        }
    }

    /// The current turn's card with its turn.
    pub open spec fn active_card(self) -> Option<(Seq<char>, StateView)> {
        if self.turns.is_latest(self.active_turn_id) {
            Some((self.active_turn_id->0, self.active))
        } else {
            None
        }
    }

    /// The completed card with its turn, once it has a tree.
    pub open spec fn completed_card(self) -> Option<CardView> {
        match self.last_completed_turn_id {
            Some(turn_id) => if self.last_completed.snapshot is Some {
                Some(CardView { turn_id, state: self.last_completed })
            } else {
                None
            },
            None => None,
        }
    }

    /// The card that a parent should show: the current turn's, else the completed one.
    pub open spec fn forwarded(self) -> Option<StateView> {
        if self.turns.is_latest(self.active_turn_id) {
            Some(self.active)
        } else if self.last_completed.snapshot is Some {
            Some(self.last_completed)
        } else {
            None
        }
    }

    /// Whether a turn has a completed card.
    pub open spec fn has_completed_card(self, turn_id: Seq<char>) -> bool {
        self.last_completed_turn_id == Some(turn_id) || exists|i: int|
            0 <= i < self.restored.len() && (#[trigger] self.restored[i]).turn_id == turn_id
    }

    pub open spec fn allocated(self, candidate: u64) -> u64 {
        larger(following(self.next_revision), candidate)
    }

    /// The cards with a changed active one, under a fresh revision.
    pub open spec fn with_active(self, active: StateView) -> RetainedView {
        let revision = self.allocated(active.revision);
        RetainedView { active: active.at_revision(revision), next_revision: revision, ..self }
    }

    pub open spec fn with_snapshot(self, snapshot: TreeUpdateView, now: i64) -> RetainedView {
        if self.active.takes_snapshot(snapshot) {
            self.with_active(self.active.with_snapshot(snapshot, now))
        } else {
            self
        }
    }

    pub open spec fn with_progress(self, progress: SpawnProgressView, now: i64) -> RetainedView {
        if self.active.takes_progress(progress) {
            self.with_active(self.active.with_progress(progress, now))
        } else {
            self
        }
    }

    pub open spec fn with_agent(
        self,
        child: ThreadId,
        generation: u64,
        state: StateView,
    ) -> RetainedView {
        if self.active.takes_agent(child, generation, state) {
            self.with_active(self.active.with_agent(child, generation, state))
        } else {
            self
        }
    }

    pub open spec fn with_timeout(self, child: ThreadId, generation: u64) -> RetainedView {
        if self.active.takes_timeout(child, generation) {
            self.with_active(self.active.with_timeout(child, generation))
        } else {
            self
        }
    }

    /// Whether a report changes one of the three newest cards.
    pub open spec fn newest_hear(self, report: AgentReport) -> bool {
        self.active.hears(report) || self.carry.hears(report) || self.last_completed.hears(report)
    }

    /// The one revision that every card changed by a report gets.
    pub open spec fn report_revision(self, report: AgentReport) -> u64 {
        self.allocated(
            top_revision(
                changed_cards(self.restored, report),
                larger(
                    larger(
                        self.active.heard(report).revision,
                        self.carry.heard(report).revision,
                    ),
                    self.last_completed.heard(report).revision,
                ),
            ),
        )
    }

    /// Whether a report changes any card.
    pub open spec fn hears(self, report: AgentReport) -> bool {
        self.newest_hear(report) || changed_cards(self.restored, report).len() > 0
    }

    /// The cards after a child's report.
    pub open spec fn refreshed(self, report: AgentReport) -> RetainedView {
        if self.hears(report) {
            let revision = self.report_revision(report);
            RetainedView {
                active: self.active.heard_at(report, revision),
                carry: self.carry.heard_at(report, revision),
                last_completed: self.last_completed.heard_at(report, revision),
                restored: cards_after(self.restored, report, revision),
                next_revision: revision,
                ..self
            }
        } else {
            self
        }
    }

    /// What a child's report changed.
    pub open spec fn refresh(self, report: AgentReport) -> RefreshView {
        let after = self.refreshed(report);
        if self.hears(report) {
            RefreshView {
                active: if self.active.hears(report) {
                    after.active_card()
                } else {
                    None
                },
                completed: (if self.last_completed.hears(report) && after.completed_card() is Some {
                    seq![after.completed_card()->0]
                } else {
                    Seq::empty()
                }) + cards_at(
                    changed_cards(self.restored, report),
                    self.report_revision(report),
                ),
                forward: if self.newest_hear(report) {
                    after.forwarded()
                } else {
                    None
                },
            }
        } else {
            no_refresh()
        }
    }

    /// Whether one of the three newest cards shows a child under a generation or an older one.
    pub open spec fn drops_agent(self, child: ThreadId, generation: u64) -> bool {
        self.active.drops_agent(child, generation) || self.carry.drops_agent(child, generation)
            || self.last_completed.drops_agent(child, generation)
    }

    /// The three newest cards after a child's generation was invalidated.
    pub open spec fn without_agent(self, child: ThreadId, generation: u64) -> RetainedView {
        let active = self.active.without_agent(child, generation);
        let carry = self.carry.without_agent(child, generation);
        let completed = self.last_completed.without_agent(child, generation);
        let revision = self.allocated(
            larger(larger(active.revision, carry.revision), completed.revision),
        );
        RetainedView {
            active: if self.active.drops_agent(child, generation) {
                active.at_revision(revision)
            } else {
                active
            },
            carry: if self.carry.drops_agent(child, generation) {
                carry.at_revision(revision)
            } else {
                carry
            },
            last_completed: if self.last_completed.drops_agent(child, generation) {
                completed.at_revision(revision)
            } else {
                completed
            },
            next_revision: if self.drops_agent(child, generation) {
                revision
            } else {
                self.next_revision
            },
            ..self
        }
    }

    /// The older cards after a child's generation was invalidated.
    pub open spec fn restored_without(self, child: ThreadId, generation: u64) -> RetainedView {
        let after = invalidated_cards(self.restored, child, generation, self.next_revision);
        RetainedView { restored: after.kept, next_revision: after.next_revision, ..self }
    }

    /// The cards after a rollback. Revisions go on from where they were.
    pub open spec fn rolled_back(self) -> RetainedView {
        RetainedView {
            active: empty_state(),
            active_turn_id: None,
            carry: empty_state(),
            last_completed: empty_state(),
            last_completed_turn_id: None,
            restored: Seq::empty(),
            last_terminal_turn_id: None,
            ..self
        }
    }

    /// The cards once a stored completed card is back. It never replaces a card that is shown.
    pub open spec fn with_restored(self, turn_id: Seq<char>, state: StateView) -> RetainedView {
        let revision = larger(self.next_revision, state.revision);
        let back = state.at_revision(revision);
        let numbered = RetainedView { next_revision: revision, ..self };
        if self.last_completed_turn_id == Some(turn_id) && self.last_completed.snapshot is Some {
            numbered
        } else if self.last_completed.snapshot is None && self.active.snapshot is None {
            RetainedView {
                last_completed: back,
                carry: back.carried(),
                last_completed_turn_id: Some(turn_id),
                last_terminal_turn_id: Some(turn_id),
                ..numbered
            }
        } else {
            RetainedView {
                restored: placed(self.restored, CardView { turn_id, state: back }),
                ..numbered
            }
        }
    }

    /// Whether the completed card moves to the older ones when another turn completes.
    pub open spec fn keeps_completed(self, turn_id: Seq<char>) -> bool {
        self.last_completed_turn_id is Some && self.last_completed_turn_id != Some(turn_id)
            && self.last_completed.awaits()
    }

    /// The thread once the running turn's summary is taken. Its card is then the completed one.
    pub open spec fn summary_taken(self) -> RetainedView {
        let emptied = RetainedView {
            started_at: None,
            active: empty_state(),
            active_turn_id: None,
            ..self
        };
        match self.active_turn_id {
            Some(turn_id) => RetainedView {
                last_completed: self.active,
                carry: self.active.carried(),
                last_completed_turn_id: Some(turn_id),
                restored: if self.keeps_completed(turn_id) {
                    placed(
                        self.restored,
                        CardView {
                            turn_id: self.last_completed_turn_id->0,
                            state: self.last_completed,
                        },
                    )
                } else {
                    self.restored
                },
                ..emptied
            },
            None => emptied,
        }
    }

    /// The thread after an event, given what the turn history then reports. A call of a tree tool
    /// in the running turn opens the turn's card.
    pub open spec fn with_event(
        self,
        turn_id: Seq<char>,
        event: EventMsg,
        report: TurnReportView,
    ) -> RetainedView {
        let opens = report.runs(turn_id) && match event {
            EventMsg::RawResponseItem(item) => affects_tree(item),
            _ => false,
        };
        let ends = (event is TurnAborted || event is TurnComplete) && !report.has_active_turn;
        RetainedView {
            started_at: match event {
                EventMsg::TurnStarted { started_at } => started_at,
                _ => self.started_at,
            },
            active: if opens && self.active_turn_id != Some(turn_id) {
                self.carry.carried()
            } else {
                self.active
            },
            active_turn_id: if opens {
                Some(turn_id)
            } else {
                self.active_turn_id
            },
            last_terminal_turn_id: if ends {
                Some(turn_id)
            } else if event is TurnStarted {
                None
            } else {
                self.last_terminal_turn_id
            },
            turns: if ends {
                no_turns()
            } else {
                report
            },
            ..self
        }
    }
}


/// The report that a child's card makes.
pub open spec fn report_of(
    child: ThreadId,
    generation: u64,
    state: Option<&SpineUiState>,
    is_final: bool,
) -> AgentReport {
    AgentReport { child, generation, state: state_ref_view(state), is_final }
}

fn hear(
    card: &mut SpineUiState,
    child: ThreadId,
    generation: u64,
    state: Option<&SpineUiState>,
    is_final: bool,
) -> (changed: bool)
    ensures
        changed == old(card)@.hears(report_of(child, generation, state, is_final)),
        final(card)@ == old(card)@.heard(report_of(child, generation, state, is_final)),
{
    let concerned = if is_final {
        card.tracks_agent_or_timeout_generation(child, generation)
    } else {
        card.tracks_agent_generation(child, generation)
    };
    if !concerned {
        return false;
    }
    match state {
        Some(state) => {
            let shown = card.record_agent_state(child, generation, state.copy_state());
            if is_final {
                let withdrawn = card.clear_agent_sync_timeout(child, generation);
                shown || withdrawn
            } else {
                shown
            }
        },
        None => {
            if is_final {
                card.remove_agent_state(child, generation)
            } else {
                false
            }
        },
    }
}

fn hear_restored(
    cards: &Vec<TurnCard>,
    child: ThreadId,
    generation: u64,
    state: Option<&SpineUiState>,
    is_final: bool,
) -> (r: Vec<TurnCard>)
    ensures
        views(r@) == changed_cards(
            views(cards@),
            report_of(child, generation, state, is_final),
        ),
{
    let ghost report = report_of(child, generation, state, is_final);
    let ghost all = views(cards@);
    let ghost p = |c: CardView| c.state.hears(report);
    let ghost f = |c: CardView| CardView { state: c.state.heard(report), ..c };
    let mut out: Vec<TurnCard> = Vec::new();
    let mut i: usize = 0;
    proof {
        reveal(Seq::filter);
        assert(views(out@) =~= all.take(0).filter(p).map_values(f));
    }
    while i < cards.len()
        invariant
            i <= cards.len(),
            all == views(cards@),
            report == report_of(child, generation, state, is_final),
            p == (|c: CardView| c.state.hears(report)),
            f == (|c: CardView| CardView { state: c.state.heard(report), ..c }),
            views(out@) == all.take(i as int).filter(p).map_values(f),
        decreases cards.len() - i,
    {
        proof {
            assert(all[i as int] == cards@[i as int]@);
            lemma_filter_step(all, p, i as int);
        }
        let ghost before = views(out@);
        let mut card = cards[i].state.copy_state();
        if hear(&mut card, child, generation, state, is_final) {
            out.push(TurnCard { turn_id: cards[i].turn_id.clone(), state: card });
            assert(views(out@) =~= before.push(f(all[i as int])));
            assert(views(out@) =~= all.take(i + 1).filter(p).map_values(f));
        }
        i += 1;
    }
    assert(all.take(i as int) =~= all);
    out
}

fn settle_restored(
    cards: &Vec<TurnCard>,
    child: ThreadId,
    generation: u64,
    state: Option<&SpineUiState>,
    is_final: bool,
    revision: u64,
) -> (r: Vec<TurnCard>)
    ensures
        views(r@) == cards_after(
            views(cards@),
            report_of(child, generation, state, is_final),
            revision,
        ),
{
    let ghost report = report_of(child, generation, state, is_final);
    let ghost all = views(cards@);
    let ghost p = |c: CardView| c.state.hears(report) ==> c.state.heard(report).awaits();
    let ghost f = |c: CardView|
        CardView {
            state: if c.state.hears(report) {
                c.state.heard(report).at_revision(revision)
            } else {
                c.state
            },
            ..c
        };
    let mut out: Vec<TurnCard> = Vec::new();
    let mut i: usize = 0;
    proof {
        reveal(Seq::filter);
        assert(views(out@) =~= all.take(0).filter(p).map_values(f));
    }
    while i < cards.len()
        invariant
            i <= cards.len(),
            all == views(cards@),
            report == report_of(child, generation, state, is_final),
            p == (|c: CardView| c.state.hears(report) ==> c.state.heard(report).awaits()),
            f == (|c: CardView|
                CardView {
                    state: if c.state.hears(report) {
                        c.state.heard(report).at_revision(revision)
                    } else {
                        c.state
                    },
                    ..c
                }),
            views(out@) == all.take(i as int).filter(p).map_values(f),
        decreases cards.len() - i,
    {
        proof {
            assert(all[i as int] == cards@[i as int]@);
            lemma_filter_step(all, p, i as int);
        }
        let ghost before = views(out@);
        let mut card = cards[i].state.copy_state();
        let mut keep = true;
        if hear(&mut card, child, generation, state, is_final) {
            card.set_revision(revision);
            keep = card.has_agent_sync_timeouts();
        }
        if keep {
            out.push(TurnCard { turn_id: cards[i].turn_id.clone(), state: card });
            assert(views(out@) =~= before.push(f(all[i as int])));
            assert(views(out@) =~= all.take(i + 1).filter(p).map_values(f));
        }
        i += 1;
    }
    assert(all.take(i as int) =~= all);
    out
}

fn top_of(cards: &Vec<TurnCard>, from: u64) -> (r: u64)
    ensures
        r == top_revision(views(cards@), from),
{
    let ghost all = views(cards@);
    let mut top = from;
    let mut i: usize = 0;
    while i < cards.len()
        invariant
            i <= cards.len(),
            all == views(cards@),
            top == top_revision(all.take(i as int), from),
        decreases cards.len() - i,
    {
        assert(all[i as int] == cards@[i as int]@);
        assert(all.take(i + 1).drop_last() =~= all.take(i as int));
        top = larger_of(top, cards[i].state.revision());
        i += 1;
    }
    assert(all.take(i as int) =~= all);
    top
}

fn number_cards(cards: &Vec<TurnCard>, revision: u64) -> (r: Vec<TurnCard>)
    ensures
        views(r@) == cards_at(views(cards@), revision),
{
    let mut out: Vec<TurnCard> = Vec::new();
    let mut i: usize = 0;
    while i < cards.len()
        invariant
            i <= cards.len(),
            out@.len() == i,
            forall|k: int|
                0 <= k < i ==> (#[trigger] out@[k])@ == (CardView {
                    state: cards@[k]@.state.at_revision(revision),
                    ..cards@[k]@
                }),
        decreases cards.len() - i,
    {
        let mut state = cards[i].state.copy_state();
        state.set_revision(revision);
        out.push(TurnCard { turn_id: cards[i].turn_id.clone(), state });
        i += 1;
    }
    assert(views(out@) =~= cards_at(views(cards@), revision));
    out
}

fn place_card(cards: &mut Vec<TurnCard>, card: TurnCard)
    ensures
        views(final(cards)@) == placed(views(old(cards)@), card@),
{
    let ghost all = views(cards@);
    let mut taken: Vec<TurnCard> = Vec::new();
    std::mem::swap(&mut taken, cards);
    let test = |c: &TurnCard| -> (b: bool)
        ensures
            b == (c@.turn_id != card.turn_id@),
        {
            !same_text(c.turn_id.as_str(), card.turn_id.as_str())
        };
    let mut rest = retain_items(
        taken,
        test,
        Ghost(|c: CardView| c.turn_id != card@.turn_id),
    );
    let ghost left = views(rest@);
    let ghost cv = card@;
    rest.push(card);
    assert(views(rest@) =~= left.push(cv));
    *cards = rest;
}

impl TurnSummary {
    pub fn new() -> (r: Self)
        ensures
            r@ == (SummaryView { started_at: None, spine_ui: empty_state(), turn_id: None }),
    {
        TurnSummary { started_at: None, spine_ui: SpineUiState::new(), spine_ui_turn_id: None }
    }

    /// The card of a turn.
    pub fn active_spine_ui(&self, turn_id: &str) -> (r: Option<&SpineUiState>)
        ensures
            state_ref_view(r) == (if self@.turn_id == Some(turn_id@) {
                Some(self@.spine_ui)
            } else {
                None
            }),
    {
        if is_text(&self.spine_ui_turn_id, turn_id) {
            Some(&self.spine_ui)
        } else {
            None
        }
    }
}

impl RetainedThread {
    pub fn new() -> (r: Self)
        ensures
            r@ == empty_retained(),
    {
        let r = RetainedThread {
            listener_generation: 0,
            experimental_raw_events: false,
            last_terminal_turn_id: None,
            turns: TurnReport::none(),
            turn_summary: TurnSummary::new(),
            carry: SpineUiState::new(),
            last_completed: SpineUiState::new(),
            last_completed_turn_id: None,
            restored: Vec::new(),
            next_revision: 0,
            last_settings: None,
        };
        assert(r@.restored =~= Seq::empty());
        r
    }

    /// Installs a listener: a new generation starts, from the given settings.
    pub fn set_listener(&mut self, settings_baseline: String) -> (generation: u64)
        ensures
            generation == old(self)@.listener_generation.wrapping_add(1),
            final(self)@ == (RetainedView {
                listener_generation: generation,
                last_settings: Some(settings_baseline@),
                ..old(self)@
            }),
    {
        self.listener_generation = self.listener_generation.wrapping_add(1);
        self.last_settings = Some(settings_baseline);
        self.listener_generation
    }

    /// Removes the listener with the turns it followed. The cards stay.
    pub fn clear_listener(&mut self)
        ensures
            final(self)@ == (RetainedView { turns: no_turns(), ..old(self)@ }),
    {
        self.turns = TurnReport::none();
    }

    pub fn set_experimental_raw_events(&mut self, enabled: bool)
        ensures
            final(self)@ == (RetainedView { experimental_raw_events: enabled, ..old(self)@ }),
    {
        self.experimental_raw_events = enabled;
    }

    /// Notes the effective settings. Says whether they changed.
    pub fn note_thread_settings(&mut self, settings: String) -> (changed: bool)
        ensures
            changed == (old(self)@.last_settings != Some(settings@)),
            final(self)@ == (RetainedView { last_settings: Some(settings@), ..old(self)@ }),
    {
        let changed = !is_text(&self.last_settings, settings.as_str());
        self.last_settings = Some(settings);
        changed
    }

    pub fn has_active_turn(&self, turn_id: &str) -> (r: bool)
        ensures
            r == self@.turns.runs(turn_id@),
    {
        self.turns.runs(turn_id)
    }

    /// The card of a running turn.
    pub fn live_spine_ui(&self, turn_id: &str) -> (r: Option<&SpineUiState>)
        ensures
            state_ref_view(r) == self@.live(turn_id@),
    {
        if self.turns.runs(turn_id) {
            self.turn_summary.active_spine_ui(turn_id)
        } else {
            None
        }
    }

    /// The card that a parent should show.
    pub fn current_spine_ui_for_forward(&self) -> (r: Option<&SpineUiState>)
        ensures
            state_ref_view(r) == self@.forwarded(),
    {
        if self.turns.is_latest(&self.turn_summary.spine_ui_turn_id) {
            return Some(&self.turn_summary.spine_ui);
        }
        if self.last_completed.latest_snapshot().is_some() {
            Some(&self.last_completed)
        } else {
            None
        }
    }

    /// The current turn's card with its turn.
    pub fn active_spine_ui_snapshot(&self) -> (r: Option<(String, SpineUiState)>)
        ensures
            turn_state_view(r) == self@.active_card(),
    {
        if self.turns.is_latest(&self.turn_summary.spine_ui_turn_id) {
            match &self.turn_summary.spine_ui_turn_id {
                Some(id) => Some((id.clone(), self.turn_summary.spine_ui.copy_state())),
                None => None,
            }
        } else {
            None
        }
    }

    /// The completed card with its turn, once it has a tree.
    pub fn completed_spine_ui_snapshot(&self) -> (r: Option<TurnCard>)
        ensures
            match r {
                Some(card) => self@.completed_card() == Some(card@),
                None => self@.completed_card() is None,
            },
    {
        if self.last_completed.latest_snapshot().is_none() {
            return None;
        }
        match &self.last_completed_turn_id {
            Some(id) => Some(
                TurnCard { turn_id: id.clone(), state: self.last_completed.copy_state() },
            ),
            None => None,
        }
    }

    /// The nodes that the running turn's card shows.
    pub fn baseline_node_ids(&self) -> (r: KeySet<String>)
        ensures
            r@ == snapshot_ids(self@.active.snapshot),
    {
        match self.turn_summary.spine_ui.latest_snapshot() {
            Some(s) => ids_of_nodes(&s.nodes),
            None => KeySet::new(),
        }
    }

    fn allocate_spine_ui_revision(&mut self, candidate: u64) -> (revision: u64)
        ensures
            revision == old(self)@.allocated(candidate),
            final(self)@ == (RetainedView { next_revision: revision, ..old(self)@ }),
            final(self).restored == old(self).restored,
    {
        let revision = larger_of(self.next_revision.saturating_add(1), candidate);
        self.next_revision = revision;
        revision
    }

    fn assign_turn_summary_spine_ui_revision(&mut self)
        ensures
            final(self)@ == old(self)@.with_active(old(self)@.active),
    {
        let candidate = self.turn_summary.spine_ui.revision();
        let revision = self.allocate_spine_ui_revision(candidate);
        self.turn_summary.spine_ui.set_revision(revision);
    }

    /// Records a tree on the running turn's card. Says whether it changed.
    pub fn record_spine_ui_snapshot(
        &mut self,
        snapshot: SpineTreeUpdateEvent,
        now: i64,
    ) -> (changed: bool)
        ensures
            changed == old(self)@.active.takes_snapshot(snapshot@),
            final(self)@ == old(self)@.with_snapshot(snapshot@, now),
    {
        let changed = self.turn_summary.spine_ui.record_snapshot_at(snapshot, now);
        if changed {
            self.assign_turn_summary_spine_ui_revision();
        }
        changed
    }

    /// Records spawn progress on the running turn's card. Says whether it changed.
    pub fn record_spine_ui_spawn_progress(
        &mut self,
        progress: SpineSpawnProgressEvent,
        now: i64,
    ) -> (changed: bool)
        ensures
            changed == old(self)@.active.takes_progress(progress@),
            final(self)@ == old(self)@.with_progress(progress@, now),
    {
        let changed = self.turn_summary.spine_ui.record_spawn_progress_at(progress, now);
        if changed {
            self.assign_turn_summary_spine_ui_revision();
        }
        changed
    }

    /// Records a child's card on the running turn's. Says whether it changed.
    pub fn record_spine_ui_agent_state(
        &mut self,
        child: ThreadId,
        generation: u64,
        state: SpineUiState,
    ) -> (changed: bool)
        ensures
            changed == old(self)@.active.takes_agent(child, generation, state@),
            final(self)@ == old(self)@.with_agent(child, generation, state@),
    {
        let changed = self.turn_summary.spine_ui.record_agent_state(child, generation, state);
        if changed {
            self.assign_turn_summary_spine_ui_revision();
        }
        changed
    }

    /// Reports a child's final state missing from the running turn's card. Says whether it changed.
    pub fn mark_spine_ui_agent_sync_timeout(
        &mut self,
        child: ThreadId,
        generation: u64,
    ) -> (changed: bool)
        ensures
            changed == old(self)@.active.takes_timeout(child, generation),
            final(self)@ == old(self)@.with_timeout(child, generation),
    {
        let changed = self.turn_summary.spine_ui.mark_agent_sync_timeout(child, generation);
        if changed {
            self.assign_turn_summary_spine_ui_revision();
        }
        changed
    }

    fn has_completed_card(&self, turn_id: &str) -> (r: bool)
        ensures
            r == self@.has_completed_card(turn_id@),
    {
        if is_text(&self.last_completed_turn_id, turn_id) {
            return true;
        }
        let ghost all = views(self.restored@);
        let mut i: usize = 0;
        while i < self.restored.len()
            invariant
                i <= self.restored.len(),
                all == views(self.restored@),
                all == self@.restored,
                forall|k: int| 0 <= k < i ==> (#[trigger] all[k]).turn_id != turn_id@,
            decreases self.restored.len() - i,
        {
            assert(all[i as int] == self.restored@[i as int]@);
            if same_text(self.restored[i].turn_id.as_str(), turn_id) {
                assert(self@.restored[i as int].turn_id == turn_id@);
                return true;
            }
            i += 1;
        }
        false
    }

    /// Enters a child's final state, or its absence, in the cards of ended turns, if the turn that
    /// the child belongs to has a completed card.
    pub fn record_completed_spine_ui_agent_terminal(
        &mut self,
        parent_turn_id: &str,
        child: ThreadId,
        generation: u64,
        state: Option<&SpineUiState>,
    ) -> (r: SpineUiAgentRefresh)
        ensures
            !old(self)@.has_completed_card(parent_turn_id@) ==> r@ == no_refresh()
                && final(self)@ == old(self)@,
            old(self)@.has_completed_card(parent_turn_id@) ==> r@ == old(self)@.refresh(
                report_of(child, generation, state, true),
            ) && final(self)@ == old(self)@.refreshed(report_of(child, generation, state, true)),
    {
        if !self.has_completed_card(parent_turn_id) {
            let r = SpineUiAgentRefresh { active: None, completed: Vec::new(), forward: None };
            assert(r@.completed =~= Seq::empty());
            return r;
        }
        self.refresh_cards(child, generation, state, true)
    }

    /// Enters a child's card wherever that child is shown under the same generation.
    pub fn refresh_spine_ui_agent_state(
        &mut self,
        child: ThreadId,
        generation: u64,
        state: &SpineUiState,
    ) -> (r: SpineUiAgentRefresh)
        ensures
            r@ == old(self)@.refresh(report_of(child, generation, Some(state), false)),
            final(self)@ == old(self)@.refreshed(
                report_of(child, generation, Some(state), false),
            ),
    {
        self.refresh_cards(child, generation, Some(state), false)
    }

    fn refresh_cards(
        &mut self,
        child: ThreadId,
        generation: u64,
        state: Option<&SpineUiState>,
        is_final: bool,
    ) -> (r: SpineUiAgentRefresh)
        ensures
            r@ == old(self)@.refresh(report_of(child, generation, state, is_final)),
            final(self)@ == old(self)@.refreshed(report_of(child, generation, state, is_final)),
    {
        let ghost report = report_of(child, generation, state, is_final);
        let ghost before = self@;
        let turn_changed = hear(
            &mut self.turn_summary.spine_ui,
            child,
            generation,
            state,
            is_final,
        );
        let carry_changed = hear(&mut self.carry, child, generation, state, is_final);
        let completed_changed = hear(&mut self.last_completed, child, generation, state, is_final);
        let changed = hear_restored(&self.restored, child, generation, state, is_final);
        if !turn_changed && !carry_changed && !completed_changed && changed.len() == 0 {
            let r = SpineUiAgentRefresh { active: None, completed: Vec::new(), forward: None };
            assert(r@.completed =~= Seq::empty());
            assert(!before.hears(report));
            return r;
        }
        assert(before.hears(report));
        let newest = larger_of(
            larger_of(self.turn_summary.spine_ui.revision(), self.carry.revision()),
            self.last_completed.revision(),
        );
        let candidate = top_of(&changed, newest);
        let revision = self.allocate_spine_ui_revision(candidate);
        assert(revision == before.report_revision(report));
        if turn_changed {
            self.turn_summary.spine_ui.set_revision(revision);
        }
        if carry_changed {
            self.carry.set_revision(revision);
        }
        if completed_changed {
            self.last_completed.set_revision(revision);
        }
        self.restored =
        settle_restored(&self.restored, child, generation, state, is_final, revision);
        assert(self@ == before.refreshed(report));
        let active = if turn_changed {
            self.active_spine_ui_snapshot()
        } else {
            None
        };
        let mut completed: Vec<TurnCard> = Vec::new();
        if completed_changed {
            match self.completed_spine_ui_snapshot() {
                Some(card) => {
                    completed.push(card);
                },
                None => {},
            }
        }
        let ghost first = views(completed@);
        assert(first =~= if before.last_completed.hears(report)
            && self@.completed_card() is Some {
            seq![self@.completed_card()->0]
        } else {
            Seq::empty()
        });
        let mut numbered = number_cards(&changed, revision);
        let ghost later = views(numbered@);
        completed.append(&mut numbered);
        assert(views(completed@) =~= first + later);
        let forward = if turn_changed || carry_changed || completed_changed {
            match self.current_spine_ui_for_forward() {
                Some(s) => Some(s.copy_state()),
                None => None,
            }
        } else {
            None
        };
        SpineUiAgentRefresh { active, completed, forward }
    }

    /// Invalidates a child's generation on the three newest cards. Says whether one showed it.
    pub fn invalidate_spine_ui_agent_state(
        &mut self,
        child: ThreadId,
        generation: u64,
    ) -> (changed: bool)
        ensures
            changed == old(self)@.drops_agent(child, generation),
            final(self)@ == old(self)@.without_agent(child, generation),
    {
        let turn_changed = self.turn_summary.spine_ui.remove_agent_state(child, generation);
        let carry_changed = self.carry.remove_agent_state(child, generation);
        let completed_changed = self.last_completed.remove_agent_state(child, generation);
        if !turn_changed && !carry_changed && !completed_changed {
            return false;
        }
        let candidate = larger_of(
            larger_of(self.turn_summary.spine_ui.revision(), self.carry.revision()),
            self.last_completed.revision(),
        );
        let revision = self.allocate_spine_ui_revision(candidate);
        if turn_changed {
            self.turn_summary.spine_ui.set_revision(revision);
        }
        if carry_changed {
            self.carry.set_revision(revision);
        }
        if completed_changed {
            self.last_completed.set_revision(revision);
        }
        true
    }

    /// The newest generation of every agent that the next card starts with.
    pub fn spine_ui_carry_agent_generations(&self) -> (r: AssocMap<ThreadId, u64>)
        ensures
            r@ == self@.carry.mentioned(),
    {
        self.carry.tracked_agent_generations()
    }

    /// Drops every card after a rollback. Revisions go on from where they were.
    pub fn reset_spine_ui_after_rollback(&mut self)
        ensures
            final(self)@ == old(self)@.rolled_back(),
    {
        self.turn_summary.spine_ui = SpineUiState::new();
        self.turn_summary.spine_ui_turn_id = None;
        self.carry = SpineUiState::new();
        self.last_completed = SpineUiState::new();
        self.last_completed_turn_id = None;
        self.restored = Vec::new();
        self.last_terminal_turn_id = None;
        assert(self@.restored =~= Seq::empty());
    }

    /// Takes a stored completed card back.
    pub fn restore_spine_ui_completed_state(&mut self, turn_id: String, state: SpineUiState)
        ensures
            final(self)@ == old(self)@.with_restored(turn_id@, state@),
    {
        let mut state = state;
        let revision = larger_of(self.next_revision, state.revision());
        self.next_revision = revision;
        state.set_revision(revision);
        if is_text(&self.last_completed_turn_id, turn_id.as_str())
            && self.last_completed.latest_snapshot().is_some() {
            return;
        }
        if self.last_completed.latest_snapshot().is_none()
            && self.turn_summary.spine_ui.latest_snapshot().is_none() {
            self.carry = state.carry_forward();
            self.last_completed = state;
            self.last_completed_turn_id = Some(turn_id.clone());
            self.last_terminal_turn_id = Some(turn_id);
            return;
        }
        place_card(&mut self.restored, TurnCard { turn_id, state });
    }

    /// Invalidates a child's generation on the older cards. Gives the changed ones.
    pub fn invalidate_restored_spine_ui_agent_states(
        &mut self,
        child: ThreadId,
        generation: u64,
    ) -> (r: Vec<TurnCard>)
        ensures
            views(r@) == invalidated_cards(
                old(self)@.restored,
                child,
                generation,
                old(self)@.next_revision,
            ).changed,
            final(self)@ == old(self)@.restored_without(child, generation),
    {
        let ghost before = self@;
        let ghost all = views(self.restored@);
        let mut kept: Vec<TurnCard> = Vec::new();
        let mut changed: Vec<TurnCard> = Vec::new();
        let mut i: usize = 0;
        proof {
            assert(views(kept@) =~= Seq::empty());
            assert(views(changed@) =~= Seq::empty());
        }
        while i < self.restored.len()
            invariant
                i <= self.restored.len(),
                all == views(self.restored@),
                self@ == (RetainedView { next_revision: self.next_revision, ..before }),
                ({
                    let fold = invalidated_cards(
                        all.take(i as int),
                        child,
                        generation,
                        before.next_revision,
                    );
                    &&& views(kept@) == fold.kept
                    &&& views(changed@) == fold.changed
                    &&& self.next_revision == fold.next_revision
                }),
            decreases self.restored.len() - i,
        {
            assert(all[i as int] == self.restored@[i as int]@);
            assert(all.take(i + 1).drop_last() =~= all.take(i as int));
            let ghost kept_before = views(kept@);
            let ghost changed_before = views(changed@);
            let turn_id = self.restored[i].turn_id.clone();
            let mut state = self.restored[i].state.copy_state();
            if state.tracks_agent_or_timeout_generation(child, generation) {
                let _ = state.remove_agent_state(child, generation);
                let candidate = state.revision();
                let revision = self.allocate_spine_ui_revision(candidate);
                state.set_revision(revision);
                let ghost card = CardView { turn_id: turn_id@, state: state@ };
                changed.push(TurnCard { turn_id: turn_id.clone(), state: state.copy_state() });
                assert(views(changed@) =~= changed_before.push(card));
                if state.has_agent_sync_timeouts() {
                    kept.push(TurnCard { turn_id, state });
                    assert(views(kept@) =~= kept_before.push(card));
                }
            } else {
                kept.push(TurnCard { turn_id, state });
                assert(views(kept@) =~= kept_before.push(all[i as int]));
            }
            i += 1;
        }
        assert(all.take(i as int) =~= all);
        self.restored = kept;
        changed
    }

    /// Takes the running turn's summary. Its card becomes the completed one.
    pub fn take_turn_summary(&mut self) -> (r: TurnSummary)
        ensures
            r@ == (SummaryView {
                started_at: old(self)@.started_at,
                spine_ui: old(self)@.active,
                turn_id: old(self)@.active_turn_id,
            }),
            final(self)@ == old(self)@.summary_taken(),
    {
        let mut summary = TurnSummary::new();
        std::mem::swap(&mut summary, &mut self.turn_summary);
        match &summary.spine_ui_turn_id {
            Some(turn_id) => {
                if !is_text(&self.last_completed_turn_id, turn_id.as_str())
                    && self.last_completed.has_agent_sync_timeouts() {
                    match copy_optional_text(&self.last_completed_turn_id) {
                        Some(previous) => {
                            let card = TurnCard {
                                turn_id: previous,
                                state: self.last_completed.copy_state(),
                            };
                            place_card(&mut self.restored, card);
                        },
                        None => {},
                    }
                }
                self.last_completed = summary.spine_ui.copy_state();
                self.carry = summary.spine_ui.carry_forward();
                self.last_completed_turn_id = Some(turn_id.clone());
            },
            None => {},
        }
        summary
    }

    /// Follows an event, given what the turn history reports after it.
    pub fn track_current_turn_event(&mut self, turn_id: &str, event: &EventMsg, report: TurnReport)
        ensures
            final(self)@ == old(self)@.with_event(turn_id@, *event, report@),
    {
        let mut ends = false;
        match event {
            EventMsg::TurnStarted { started_at } => {
                self.turn_summary.started_at = *started_at;
                self.last_terminal_turn_id = None;
            },
            EventMsg::TurnComplete => {
                ends = !report.has_active_turn;
            },
            EventMsg::TurnAborted { reason: _ } => {
                ends = !report.has_active_turn;
            },
            EventMsg::RawResponseItem(item) => {
                if report.runs(turn_id) && is_tree_affecting_item(item) {
                    if !is_text(&self.turn_summary.spine_ui_turn_id, turn_id) {
                        self.turn_summary.spine_ui = self.carry.carry_forward();
                    }
                    self.turn_summary.spine_ui_turn_id = Some(turn_id.to_owned());
                }
            },
            _ => {},
        }
        if ends {
            self.last_terminal_turn_id = Some(turn_id.to_owned());
            self.turns = TurnReport::none();
        } else {
            self.turns = report;
        }
    }
}

} // verus!
