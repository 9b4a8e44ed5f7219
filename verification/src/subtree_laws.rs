//! Every thread has one subtree at most, at every depth of every card.
use crate::agents::{agent_position, lemma_agent_position};
use crate::ancestry_laws::lemma_older_cards_after;
use crate::events::EventMsg;
use crate::laws::lemma_subtrees_stay_unique;
use crate::live::{empty_live, larger, lemma_newest, LiveView};
use crate::protocol::{AgentStatusView, SpawnProgressView, ThreadId, TreeUpdateView};
use crate::retained::{
    cards_after, empty_retained, invalidated_cards, placed, AgentReport, CardView, RetainedView,
};
use crate::snapshot::{spawned, visible_agents};
use crate::state::{empty_state, one_subtree_each, AgentSubtreeView, StateView};
use crate::turns::TurnReportView;
use vstd::prelude::*;

verus! {

/// Whether no thread has two subtrees, neither on a card nor on any card that it shows.
pub open spec fn subtrees_unique(s: StateView) -> bool
    decreases s,
{
    one_subtree_each(s.agents) && forall|k: int|
        0 <= k < s.agents.len() ==> subtrees_unique((#[trigger] s.agents[k]).state)
}

/// Ending the agents of a card keeps its subtrees unique.
proof fn lemma_ended_subtrees(s: StateView, terminal: AgentStatusView)
    requires
        subtrees_unique(s),
    ensures
        subtrees_unique(s.ended(terminal)),
    decreases s,
{
    let ended = s.ended(terminal);
    assert forall|k: int| 0 <= k < ended.agents.len() implies subtrees_unique(
        (#[trigger] ended.agents[k]).state,
    ) by {
        lemma_ended_subtrees(s.agents[k].state, terminal);
    }
    assert forall|i: int, j: int| 0 <= i < j < ended.agents.len() implies (
    #[trigger] ended.agents[i]).thread_id != (#[trigger] ended.agents[j]).thread_id by {
        assert(s.agents[i].thread_id != s.agents[j].thread_id);
    }
}

/// A card starts with unique subtrees, and whatever happens to it, they stay unique at every depth,
/// where the cards that it is told of have unique ones.
pub proof fn lemma_subtrees_stay_unique_at_every_depth(
    s: StateView,
    snapshot: TreeUpdateView,
    report: SpawnProgressView,
    child: ThreadId,
    generation: u64,
    state: StateView,
    terminal: AgentStatusView,
    baseline: Set<Seq<char>>,
    revision: u64,
    now: i64,
)
    requires
        subtrees_unique(s),
        subtrees_unique(state),
    ensures
        subtrees_unique(empty_state()),
        subtrees_unique(s.with_snapshot(snapshot, now)),
        subtrees_unique(s.with_progress(report, now)),
        subtrees_unique(s.with_agent(child, generation, state)),
        subtrees_unique(s.without_agent(child, generation)),
        subtrees_unique(s.with_timeout(child, generation)),
        subtrees_unique(s.without_timeout(child, generation)),
        subtrees_unique(s.ended(terminal)),
        subtrees_unique(s.projected(baseline)),
        subtrees_unique(s.carried()),
        subtrees_unique(s.completed_by(now)),
        subtrees_unique(s.at_revision(revision)),
{
    lemma_subtrees_stay_unique(
        s,
        snapshot,
        report,
        child,
        generation,
        state,
        terminal,
        baseline,
        revision,
        now,
    );
    lemma_agent_position(s.agents, child);
    lemma_ended_subtrees(s, terminal);
    let calls = s.calls_with_snapshot(snapshot);
    let visible = visible_agents(s.agents, calls);
    let p = |a: AgentSubtreeView| spawned(calls, a.thread_id);
    assert forall|k: int| 0 <= k < visible.len() implies subtrees_unique(
        (#[trigger] visible[k]).state,
    ) by {
        s.agents.lemma_filter_contains_rev(p, visible[k]);
        let i = choose|i: int| 0 <= i < s.agents.len() && s.agents[i] == visible[k];
        assert(subtrees_unique(s.agents[i].state));
    }
    let without = s.without_agent(child, generation);
    let at = agent_position(s.agents, child);
    assert forall|k: int| 0 <= k < without.agents.len() implies subtrees_unique(
        (#[trigger] without.agents[k]).state,
    ) by {
        if without.agents != s.agents && k >= at {
            assert(without.agents[k] == s.agents[k + 1]);
        } else {
            assert(without.agents[k] == s.agents[k]);
        }
    }
}

/// Whether every card of a live thread has unique subtrees.
pub open spec fn live_unique(thread: LiveView) -> bool {
    &&& subtrees_unique(thread.active)
    &&& subtrees_unique(thread.cumulative)
    &&& thread.terminal is Some ==> subtrees_unique(thread.terminal->0)
    &&& forall|i: int|
        0 <= i < thread.pending.len() ==> subtrees_unique((#[trigger] thread.pending[i]).state)
}

/// The cards of a live thread keep unique subtrees, whatever happens to the thread.
pub proof fn lemma_live_subtrees_stay_unique(
    thread: LiveView,
    turn_id: Seq<char>,
    event: EventMsg,
    turns: TurnReportView,
    snapshot: TreeUpdateView,
    progress: SpawnProgressView,
    child: ThreadId,
    generation: u64,
    state: StateView,
    terminal: AgentStatusView,
    at: int,
    now: i64,
)
    requires
        live_unique(thread),
        subtrees_unique(state),
    ensures
        live_unique(empty_live()),
        live_unique(thread.without_cards()),
        live_unique(thread.with_event(turn_id, event, turns)),
        live_unique(thread.observed(turn_id, event)),
        live_unique(thread.with_snapshot(snapshot, now)),
        live_unique(thread.with_progress(progress, now)),
        live_unique(thread.with_agent(child, generation, state)),
        live_unique(thread.without_agent(child, generation)),
        live_unique(thread.ended(terminal)),
        live_unique(thread.completing(turn_id)),
        0 <= at < thread.pending.len() ==> live_unique(thread.finalized(at, now)),
        thread.forwarded() is Some ==> subtrees_unique(thread.forwarded()->0),
{
    lemma_subtrees_stay_unique_at_every_depth(
        thread.active,
        snapshot,
        progress,
        child,
        generation,
        state,
        terminal,
        Set::empty(),
        0,
        now,
    );
    lemma_subtrees_stay_unique_at_every_depth(
        thread.cumulative,
        snapshot,
        progress,
        child,
        generation,
        state,
        terminal,
        Set::empty(),
        0,
        now,
    );
    let completing = thread.completing(turn_id);
    assert forall|i: int| 0 <= i < completing.pending.len() implies subtrees_unique(
        (#[trigger] completing.pending[i]).state,
    ) by {
        if i < thread.pending.len() {
            assert(completing.pending[i] == thread.pending[i]);
        }
    }
    if 0 <= at < thread.pending.len() {
        lemma_subtrees_stay_unique_at_every_depth(
            thread.pending[at].state,
            snapshot,
            progress,
            child,
            generation,
            state,
            terminal,
            Set::empty(),
            0,
            now,
        );
        let finalized = thread.finalized(at, now);
        assert forall|i: int| 0 <= i < finalized.pending.len() implies subtrees_unique(
            (#[trigger] finalized.pending[i]).state,
        ) by {
            assert(finalized.pending[i] == thread.pending[if i < at {
                i
            } else {
                i + 1
            }]);
        }
    }
    if thread.pending.len() > 0 {
        lemma_newest(thread.pending);
    }
}

/// Whether every card of a retained thread has unique subtrees.
pub open spec fn retained_unique(thread: RetainedView) -> bool {
    &&& subtrees_unique(thread.active)
    &&& subtrees_unique(thread.carry)
    &&& subtrees_unique(thread.last_completed)
    &&& cards_unique(thread.restored)
}

/// Whether each of some cards has unique subtrees.
pub open spec fn cards_unique(cards: Seq<CardView>) -> bool {
    forall|i: int| 0 <= i < cards.len() ==> subtrees_unique((#[trigger] cards[i]).state)
}

/// What a report can do to a card keeps unique subtrees.
proof fn lemma_agent_changes(
    s: StateView,
    child: ThreadId,
    generation: u64,
    state: StateView,
)
    requires
        subtrees_unique(s),
        subtrees_unique(state),
    ensures
        subtrees_unique(s.with_agent(child, generation, state)),
        subtrees_unique(s.without_agent(child, generation)),
        subtrees_unique(s.with_timeout(child, generation)),
        subtrees_unique(s.without_timeout(child, generation)),
{
    lemma_subtrees_stay_unique_at_every_depth(
        s,
        arbitrary(),
        arbitrary(),
        child,
        generation,
        state,
        arbitrary(),
        Set::empty(),
        0,
        0,
    );
}

/// A report keeps unique subtrees, where it carries a card with unique ones.
proof fn lemma_heard_subtrees(s: StateView, report: AgentReport, revision: u64)
    requires
        subtrees_unique(s),
        report.state is Some ==> subtrees_unique(report.state->0),
    ensures
        subtrees_unique(s.heard(report)),
        subtrees_unique(s.heard(report).at_revision(revision)),
        subtrees_unique(s.heard_at(report, revision)),
{
    let state = match report.state {
        Some(state) => state,
        None => empty_state(),
    };
    lemma_agent_changes(s, report.child, report.generation, state);
    lemma_agent_changes(s.shown(report), report.child, report.generation, state);
}

/// One more card with unique subtrees keeps them so.
proof fn lemma_placed_cards(cards: Seq<CardView>, card: CardView)
    requires
        cards_unique(cards),
        subtrees_unique(card.state),
    ensures
        cards_unique(placed(cards, card)),
{
    let p = |c: CardView| c.turn_id != card.turn_id;
    let kept = cards.filter(p);
    let after = placed(cards, card);
    assert forall|i: int| 0 <= i < after.len() implies subtrees_unique(
        (#[trigger] after[i]).state,
    ) by {
        if i < kept.len() {
            cards.lemma_filter_contains_rev(p, kept[i]);
            let j = choose|j: int| 0 <= j < cards.len() && cards[j] == kept[i];
            assert(subtrees_unique(cards[j].state));
        }
    }
}

/// An invalidation keeps unique subtrees on the older cards.
proof fn lemma_invalidated_subtrees(
    cards: Seq<CardView>,
    child: ThreadId,
    generation: u64,
    next_revision: u64,
)
    requires
        cards_unique(cards),
    ensures
        cards_unique(invalidated_cards(cards, child, generation, next_revision).kept),
        cards_unique(invalidated_cards(cards, child, generation, next_revision).changed),
    decreases cards.len(),
{
    if cards.len() > 0 {
        let rest = cards.drop_last();
        assert forall|i: int| 0 <= i < rest.len() implies subtrees_unique(
            (#[trigger] rest[i]).state,
        ) by {
            assert(rest[i] == cards[i]);
        }
        lemma_invalidated_subtrees(rest, child, generation, next_revision);
        assert(subtrees_unique(cards[cards.len() - 1].state));
        lemma_agent_changes(cards.last().state, child, generation, empty_state());
    }
}

/// The cards of a retained thread keep unique subtrees, whatever happens to the thread.
pub proof fn lemma_retained_subtrees_stay_unique(
    thread: RetainedView,
    turn_id: Seq<char>,
    event: EventMsg,
    turns: TurnReportView,
    snapshot: TreeUpdateView,
    progress: SpawnProgressView,
    report: AgentReport,
    state: StateView,
    now: i64,
)
    requires
        retained_unique(thread),
        subtrees_unique(state),
        report.state is Some ==> subtrees_unique(report.state->0),
    ensures
        retained_unique(empty_retained()),
        retained_unique(thread.with_event(turn_id, event, turns)),
        retained_unique(thread.with_snapshot(snapshot, now)),
        retained_unique(thread.with_progress(progress, now)),
        retained_unique(thread.with_agent(report.child, report.generation, state)),
        retained_unique(thread.with_timeout(report.child, report.generation)),
        retained_unique(thread.refreshed(report)),
        retained_unique(thread.without_agent(report.child, report.generation)),
        retained_unique(thread.restored_without(report.child, report.generation)),
        retained_unique(thread.rolled_back()),
        retained_unique(thread.with_restored(turn_id, state)),
        retained_unique(thread.summary_taken()),
        thread.forwarded() is Some ==> subtrees_unique(thread.forwarded()->0),
{
    let child = report.child;
    let generation = report.generation;
    let revision = thread.report_revision(report);
    lemma_subtrees_stay_unique_at_every_depth(
        thread.active,
        snapshot,
        progress,
        child,
        generation,
        state,
        arbitrary(),
        Set::empty(),
        0,
        now,
    );
    lemma_agent_changes(thread.carry, child, generation, state);
    lemma_agent_changes(thread.last_completed, child, generation, state);
    lemma_heard_subtrees(thread.active, report, revision);
    lemma_heard_subtrees(thread.carry, report, revision);
    lemma_heard_subtrees(thread.last_completed, report, revision);
    let older = cards_after(thread.restored, report, revision);
    assert forall|i: int| 0 <= i < older.len() implies subtrees_unique(
        (#[trigger] older[i]).state,
    ) by {
        lemma_older_cards_after(thread.restored, report, revision, i);
        let j = choose|j: int| #![trigger thread.restored[j]]
            0 <= j < thread.restored.len() && older[i].state == (
            if thread.restored[j].state.hears(report) {
                thread.restored[j].state.heard(report).at_revision(revision)
            } else {
                thread.restored[j].state
            });
        lemma_heard_subtrees(thread.restored[j].state, report, revision);
    }
    lemma_invalidated_subtrees(thread.restored, child, generation, thread.next_revision);
    let back = state.at_revision(larger(thread.next_revision, state.revision));
    assert(subtrees_unique(back));
    lemma_placed_cards(thread.restored, CardView { turn_id, state: back });
    if thread.last_completed_turn_id is Some {
        lemma_placed_cards(
            thread.restored,
            CardView {
                turn_id: thread.last_completed_turn_id->0,
                state: thread.last_completed,
            },
        );
    }
}

} // verus!
