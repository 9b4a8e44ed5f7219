//! What happens to the cards of a thread that keeps them over its turns, seen from outside.
use crate::events::{affects_tree, EventMsg};
use crate::protocol::{SpawnProgressView, ThreadId, TreeUpdateView};
use crate::retained::{
    cards_after, changed_cards, empty_retained, invalidated_cards, placed, AgentReport, CardView,
    RetainedView,
};
use crate::snapshot_laws::{in_order, lemma_choice_keeps_order};
use crate::state::{empty_state, StateView};
use crate::turns::TurnReportView;
use vstd::prelude::*;

verus! {

/// Whether two cards are the same but for their revisions.
pub open spec fn same_card(a: StateView, b: StateView) -> bool {
    a.started_at_ms == b.started_at_ms && a.completed_at_ms == b.completed_at_ms && a.snapshot
        == b.snapshot && a.spawn_calls == b.spawn_calls && a.settled == b.settled && a.agents
        == b.agents && a.invalidated == b.invalidated && a.timeouts == b.timeouts
}

/// Whether a thread differs from another in its active card and its revisions alone.
pub open spec fn only_active_differs(a: RetainedView, b: RetainedView) -> bool {
    &&& a.listener_generation == b.listener_generation
    &&& a.experimental_raw_events == b.experimental_raw_events
    &&& a.last_terminal_turn_id == b.last_terminal_turn_id
    &&& a.turns == b.turns
    &&& a.started_at == b.started_at
    &&& a.active_turn_id == b.active_turn_id
    &&& a.carry == b.carry
    &&& a.last_completed == b.last_completed
    &&& a.last_completed_turn_id == b.last_completed_turn_id
    &&& a.restored == b.restored
    &&& a.last_settings == b.last_settings
}

/// Whether the active card of a thread became another one: the thread is otherwise the same, and a
/// card that changed has a revision of its own, above every one before it.
pub open spec fn active_became(was: RetainedView, is: RetainedView, card: StateView) -> bool {
    &&& only_active_differs(was, is)
    &&& same_card(is.active, card)
    &&& card == was.active ==> is.active.revision == was.active.revision || is.active.revision
        == is.next_revision
    &&& card != was.active ==> is.active.revision == is.next_revision
        && is.active.revision >= card.revision && is.next_revision >= was.next_revision && (
    was.next_revision < u64::MAX ==> is.next_revision > was.next_revision)
}

/// What the running turn's card is told, it does; nothing else of the thread changes, and every change
/// has a newer revision than all before it.
pub proof fn lemma_running_card_takes_records(
    thread: RetainedView,
    snapshot: TreeUpdateView,
    progress: SpawnProgressView,
    child: ThreadId,
    generation: u64,
    state: StateView,
    now: i64,
)
    ensures
        active_became(
            thread,
            thread.with_snapshot(snapshot, now),
            thread.active.with_snapshot(snapshot, now),
        ),
        active_became(
            thread,
            thread.with_progress(progress, now),
            thread.active.with_progress(progress, now),
        ),
        active_became(
            thread,
            thread.with_agent(child, generation, state),
            thread.active.with_agent(child, generation, state),
        ),
        active_became(
            thread,
            thread.with_timeout(child, generation),
            thread.active.with_timeout(child, generation),
        ),
{
}

/// Which card is which: the running turn's card is the active one while its turn runs; the one to
/// forward is the latest turn's, else the completed one once it has a tree.
pub proof fn lemma_cards_have_their_places(thread: RetainedView, turn_id: Seq<char>)
    ensures
        thread.live(turn_id) is Some == (thread.turns.runs(turn_id) && thread.active_turn_id
            == Some(turn_id)),
        thread.live(turn_id) is Some ==> thread.live(turn_id)->0 == thread.active,
        ({
            let latest = thread.active_turn_id is Some && thread.turns.is_latest(
                thread.active_turn_id,
            );
            &&& thread.active_card() is Some == latest
            &&& latest ==> thread.active_card() == Some((thread.active_turn_id->0, thread.active))
            &&& latest ==> thread.forwarded() == Some(thread.active)
            &&& !latest && thread.last_completed.snapshot is Some ==> thread.forwarded() == Some(
                thread.last_completed,
            )
            &&& !latest && thread.last_completed.snapshot is None ==> thread.forwarded() is None
        }),
        thread.completed_card() is Some == (thread.last_completed_turn_id is Some
            && thread.last_completed.snapshot is Some),
        thread.completed_card() is Some ==> thread.completed_card()->0.state
            == thread.last_completed && thread.completed_card()->0.turn_id
            == thread.last_completed_turn_id->0,
        thread.has_completed_card(turn_id) == (thread.last_completed_turn_id == Some(turn_id)
            || exists|i: int|
            0 <= i < thread.restored.len() && (#[trigger] thread.restored[i]).turn_id == turn_id),
{
}

/// Whether a card shows the child of a report under the report's generation, or, for a last report,
/// misses its end under it.
pub open spec fn is_about(s: StateView, report: AgentReport) -> bool {
    (s.agent(report.child) is Some && s.agent(report.child)->0.generation == report.generation)
        || (report.is_final && s.timeouts.contains_key(report.child) && s.timeouts[report.child]
        == report.generation)
}

/// What a card is after it heard a report: a card that the report is not about stays as it is. Else a
/// report with a state enters it, and a last one withdraws the missing end; a last report without a
/// state takes the child off the card.
pub proof fn lemma_reports_are_heard(s: StateView, report: AgentReport)
    ensures
        ({
            let after = s.heard(report);
            &&& !is_about(s, report) ==> after == s && !s.hears(report)
            &&& is_about(s, report) ==> {
                &&& report.state matches Some(state) ==> {
                    let told = s.with_agent(report.child, report.generation, state);
                    &&& !report.is_final ==> after == told
                    &&& report.is_final ==> after == told.without_timeout(
                        report.child,
                        report.generation,
                    )
                }
                &&& report.state is None && report.is_final ==> after == s.without_agent(
                    report.child,
                    report.generation,
                )
                &&& report.state is None && !report.is_final ==> after == s
            }
            &&& !s.hears(report) ==> same_card(
                after,
                StateView {
                    invalidated: after.invalidated,
                    ..s
                },
            ) && after.revision == s.revision
            &&& s.hears(report) && s.revision < u64::MAX ==> after.revision > s.revision
        }),
{
}

/// Whether a card of a thread has heard a report: it is what hearing makes of it, and where that
/// changed it, it has the thread's newest revision.
pub open spec fn has_taken_in(
    was: StateView,
    is: StateView,
    report: AgentReport,
    newest: u64,
) -> bool {
    &&& same_card(is, was.heard(report))
    &&& was.hears(report) ==> is.revision == newest
    &&& !was.hears(report) ==> is.revision == was.heard(report).revision
}

/// A report is heard by every card of a thread: the active one, the carried one, the completed one and
/// the older ones. All that it changes get one new revision, above every one before. An older card
/// that it changes stays only while it misses an end. A report that no card hears changes nothing.
pub proof fn lemma_report_reaches_every_card(
    thread: RetainedView,
    report: AgentReport,
    i: int,
)
    ensures
        ({
            let after = thread.refreshed(report);
            let any = thread.active.hears(report) || thread.carry.hears(report)
                || thread.last_completed.hears(report) || exists|k: int|
                0 <= k < thread.restored.len() && (#[trigger] thread.restored[k]).state.hears(
                    report,
                );
            &&& !any ==> after == thread
            &&& any ==> {
                &&& has_taken_in(thread.active, after.active, report, after.next_revision)
                &&& has_taken_in(thread.carry, after.carry, report, after.next_revision)
                &&& has_taken_in(
                    thread.last_completed,
                    after.last_completed,
                    report,
                    after.next_revision,
                )
                &&& thread.next_revision < u64::MAX ==> after.next_revision > thread.next_revision
                &&& after.next_revision >= thread.next_revision
                &&& 0 <= i < after.restored.len() ==> exists|k: int|
                    #![trigger thread.restored[k]]
                    0 <= k < thread.restored.len() && after.restored[i].turn_id
                        == thread.restored[k].turn_id && (if thread.restored[k].state.hears(
                        report,
                    ) {
                        has_taken_in(
                            thread.restored[k].state,
                            after.restored[i].state,
                            report,
                            after.next_revision,
                        ) && after.restored[i].state.awaits()
                    } else {
                        after.restored[i] == thread.restored[k]
                    })
                &&& 0 <= i < thread.restored.len() && (!thread.restored[i].state.hears(report)
                    || thread.restored[i].state.heard(report).awaits()) ==> exists|k: int|
                    #![trigger after.restored[k]]
                    0 <= k < after.restored.len() && after.restored[k].turn_id
                        == thread.restored[i].turn_id
            }
            &&& after.listener_generation == thread.listener_generation
            &&& after.experimental_raw_events == thread.experimental_raw_events
            &&& after.last_terminal_turn_id == thread.last_terminal_turn_id
            &&& after.turns == thread.turns
            &&& after.started_at == thread.started_at
            &&& after.active_turn_id == thread.active_turn_id
            &&& after.last_completed_turn_id == thread.last_completed_turn_id
            &&& after.last_settings == thread.last_settings
        }),
{
    let after = thread.refreshed(report);
    let revision = thread.report_revision(report);
    let cards = thread.restored;
    crate::ancestry_laws::lemma_older_cards_hear(cards, report);
    let p = |c: CardView| c.state.hears(report) ==> c.state.heard(report).awaits();
    if thread.hears(report) {
        if 0 <= i < after.restored.len() {
            let kept = cards.filter(p);
            cards.lemma_filter_contains_rev(p, kept[i]);
            cards.lemma_filter_pred(p, i);
            let k = choose|k: int| 0 <= k < cards.len() && cards[k] == kept[i];
            assert(cards[k] == kept[i]);
        }
        if 0 <= i < cards.len() && p(cards[i]) {
            let kept = cards.filter(p);
            cards.lemma_filter_contains(p, i);
            let k = choose|k: int| 0 <= k < kept.len() && kept[k] == cards[i];
            assert(after.restored[k].turn_id == cards[i].turn_id);
        }
    }
}

/// What a report leaves to tell: the latest turn's card where it changed, the completed card with a
/// tree where it changed, every older card that changed, and what the thread's own parent should show
/// now, where one of the newest cards changed.
pub proof fn lemma_refresh_tells_what_changed(
    thread: RetainedView,
    report: AgentReport,
    i: int,
)
    ensures
        ({
            let after = thread.refreshed(report);
            let told = thread.refresh(report);
            let completed = thread.last_completed.hears(report) && after.completed_card() is Some;
            let changed = changed_cards(thread.restored, report);
            &&& told.active is Some == (thread.active.hears(report) && after.active_card()
                is Some)
            &&& told.active is Some ==> told.active == after.active_card()
            &&& told.forward is Some == ((thread.active.hears(report) || thread.carry.hears(report)
                || thread.last_completed.hears(report)) && after.forwarded() is Some)
            &&& told.forward is Some ==> told.forward == after.forwarded()
            &&& completed ==> told.completed.len() > 0 && told.completed[0]
                == after.completed_card()->0
            &&& told.completed.len() == changed.len() + (if completed {
                1int
            } else {
                0
            })
            &&& 0 <= i < thread.restored.len() && thread.restored[i].state.hears(report)
                ==> exists|k: int|
                #![trigger told.completed[k]]
                0 <= k < told.completed.len() && told.completed[k].turn_id
                    == thread.restored[i].turn_id && same_card(
                    told.completed[k].state,
                    thread.restored[i].state.heard(report),
                ) && told.completed[k].state.revision == after.next_revision
        }),
{
    let after = thread.refreshed(report);
    let told = thread.refresh(report);
    let cards = thread.restored;
    let p = |c: CardView| c.state.hears(report);
    let kept = cards.filter(p);
    crate::ancestry_laws::lemma_older_cards_hear(cards, report);
    if 0 <= i < cards.len() && cards[i].state.hears(report) {
        cards.lemma_filter_contains(p, i);
        let m = choose|m: int| 0 <= m < kept.len() && kept[m] == cards[i];
        let completed = thread.last_completed.hears(report) && after.completed_card() is Some;
        let k = if completed {
            m + 1
        } else {
            m
        };
        assert(told.completed[k].turn_id == cards[i].turn_id);
    }
}

/// An invalidation is heard by the three newest cards; those that it changes get one new revision.
pub proof fn lemma_invalidation_reaches_the_newest_cards(
    thread: RetainedView,
    child: ThreadId,
    generation: u64,
)
    ensures
        ({
            let after = thread.without_agent(child, generation);
            let any = thread.active.drops_agent(child, generation) || thread.carry.drops_agent(
                child,
                generation,
            ) || thread.last_completed.drops_agent(child, generation);
            &&& same_card(after.active, thread.active.without_agent(child, generation))
            &&& same_card(after.carry, thread.carry.without_agent(child, generation))
            &&& same_card(
                after.last_completed,
                thread.last_completed.without_agent(child, generation),
            )
            &&& !any ==> after.next_revision == thread.next_revision && after.active.revision
                == thread.active.revision && after.carry.revision == thread.carry.revision
                && after.last_completed.revision == thread.last_completed.revision
            &&& any && thread.next_revision < u64::MAX ==> after.next_revision
                > thread.next_revision
            &&& thread.active.drops_agent(child, generation) ==> after.active.revision
                == after.next_revision
            &&& thread.carry.drops_agent(child, generation) ==> after.carry.revision
                == after.next_revision
            &&& thread.last_completed.drops_agent(child, generation)
                ==> after.last_completed.revision == after.next_revision
            &&& after.restored == thread.restored
            &&& after.listener_generation == thread.listener_generation
            &&& after.experimental_raw_events == thread.experimental_raw_events
            &&& after.last_terminal_turn_id == thread.last_terminal_turn_id
            &&& after.turns == thread.turns
            &&& after.started_at == thread.started_at
            &&& after.active_turn_id == thread.active_turn_id
            &&& after.last_completed_turn_id == thread.last_completed_turn_id
            &&& after.last_settings == thread.last_settings
        }),
{
}

/// An invalidation takes the child off every older card that mentions it under exactly the generation,
/// gives each of those a revision above all before, and keeps of them those that still miss an end.
/// Every other older card stays.
pub proof fn lemma_invalidation_reaches_the_older_cards(
    cards: Seq<CardView>,
    child: ThreadId,
    generation: u64,
    next_revision: u64,
    i: int,
)
    requires
        0 <= i < cards.len(),
    ensures
        ({
            let out = invalidated_cards(cards, child, generation, next_revision);
            let card = cards[i];
            let named = card.state.tracks_or_awaits(child, generation);
            let bare = card.state.without_agent(child, generation);
            &&& out.next_revision >= next_revision
            &&& !named ==> out.kept.contains(card)
            &&& named ==> exists|k: int|
                #![trigger out.changed[k]]
                0 <= k < out.changed.len() && out.changed[k].turn_id == card.turn_id && same_card(
                    out.changed[k].state,
                    bare,
                ) && out.changed[k].state.revision >= bare.revision && (next_revision < u64::MAX
                    ==> out.changed[k].state.revision > next_revision) && (bare.awaits()
                    ==> out.kept.contains(out.changed[k]))
        }),
    decreases cards.len(),
{
    let out = invalidated_cards(cards, child, generation, next_revision);
    let rest = cards.drop_last();
    let before = invalidated_cards(rest, child, generation, next_revision);
    if rest.len() > 0 {
        lemma_invalidation_reaches_the_older_cards(
            rest,
            child,
            generation,
            next_revision,
            if i < rest.len() {
                i
            } else {
                0
            },
        );
    }
    assert forall|c: CardView| before.kept.contains(c) implies #[trigger] out.kept.contains(c) by {
        let k = choose|k: int| 0 <= k < before.kept.len() && before.kept[k] == c;
        assert(out.kept[k] == c);
    }
    if i < rest.len() {
        assert(rest[i] == cards[i]);
        if cards[i].state.tracks_or_awaits(child, generation) {
            let bare = cards[i].state.without_agent(child, generation);
            let k = choose|k: int|
                #![trigger before.changed[k]]
                0 <= k < before.changed.len() && before.changed[k].turn_id == rest[i].turn_id
                    && same_card(before.changed[k].state, bare) && before.changed[k].state.revision
                    >= bare.revision && (next_revision < u64::MAX
                    ==> before.changed[k].state.revision > next_revision) && (bare.awaits()
                    ==> before.kept.contains(before.changed[k]));
            assert(out.changed[k] == before.changed[k]);
        }
    } else {
        if cards.last().state.tracks_or_awaits(child, generation) {
            let n = before.changed.len() as int;
            assert(out.changed[n].turn_id == cards.last().turn_id);
            if out.changed[n].state.awaits() {
                assert(out.kept[before.kept.len() as int] == out.changed[n]);
            }
        } else {
            assert(out.kept[before.kept.len() as int] == cards.last());
        }
    }
}

/// Nothing but what stood among the older cards stays among them after an invalidation, changed or
/// not, and a changed one stays only while it misses an end.
pub proof fn lemma_older_cards_stay_themselves(
    cards: Seq<CardView>,
    child: ThreadId,
    generation: u64,
    next_revision: u64,
)
    ensures
        ({
            let out = invalidated_cards(cards, child, generation, next_revision);
            &&& out.kept.len() <= cards.len()
            &&& forall|k: int|
                0 <= k < out.kept.len() ==> cards.contains(#[trigger] out.kept[k])
                    || (out.changed.contains(out.kept[k]) && out.kept[k].state.awaits())
            &&& forall|k: int|
                0 <= k < out.changed.len() ==> exists|m: int|
                    #![trigger cards[m]]
                    0 <= m < cards.len() && cards[m].state.tracks_or_awaits(child, generation)
                        && (#[trigger] out.changed[k]).turn_id == cards[m].turn_id
        }),
    decreases cards.len(),
{
    if cards.len() > 0 {
        let rest = cards.drop_last();
        lemma_older_cards_stay_themselves(rest, child, generation, next_revision);
        let before = invalidated_cards(rest, child, generation, next_revision);
        let out = invalidated_cards(cards, child, generation, next_revision);
        let n = cards.len() - 1;
        assert forall|k: int| 0 <= k < out.kept.len() implies cards.contains(
            #[trigger] out.kept[k],
        ) || (out.changed.contains(out.kept[k]) && out.kept[k].state.awaits()) by {
            if k < before.kept.len() {
                assert(out.kept[k] == before.kept[k]);
                if rest.contains(before.kept[k]) {
                    let m = choose|m: int| 0 <= m < rest.len() && rest[m] == before.kept[k];
                    assert(cards[m] == out.kept[k]);
                } else {
                    let m = choose|m: int|
                        0 <= m < before.changed.len() && before.changed[m] == before.kept[k];
                    assert(out.changed[m] == out.kept[k]);
                }
            } else if cards[n].state.tracks_or_awaits(child, generation) {
                assert(out.changed[before.changed.len() as int] == out.kept[k]);
            } else {
                assert(cards[n] == out.kept[k]);
            }
        }
        assert forall|k: int| 0 <= k < out.changed.len() implies exists|m: int|
            #![trigger cards[m]]
            0 <= m < cards.len() && cards[m].state.tracks_or_awaits(child, generation) && (
            #[trigger] out.changed[k]).turn_id == cards[m].turn_id by {
            if k < before.changed.len() {
                assert(out.changed[k] == before.changed[k]);
                let m = choose|m: int|
                    #![trigger rest[m]]
                    0 <= m < rest.len() && rest[m].state.tracks_or_awaits(child, generation)
                        && before.changed[k].turn_id == rest[m].turn_id;
                assert(cards[m] == rest[m]);
            } else {
                assert(cards[n].turn_id == out.changed[k].turn_id);
            }
        }
    }
}

/// The older cards stay in their order, whatever reaches them: one more at the end leaves what became
/// of the others as it is, and comes behind them where it stays or has changed.
pub proof fn lemma_older_cards_keep_their_order(
    cards: Seq<CardView>,
    card: CardView,
    report: AgentReport,
    revision: u64,
    child: ThreadId,
    generation: u64,
)
    ensures
        ({
            let heard = card.state.hears(report);
            let before = changed_cards(cards, report);
            let after = changed_cards(cards.push(card), report);
            &&& !heard ==> after == before
            &&& heard ==> after.len() == before.len() + 1 && after.drop_last() == before
                && after.last().turn_id == card.turn_id && same_card(
                after.last().state,
                card.state.heard(report),
            )
        }),
        ({
            let stays = card.state.hears(report) ==> card.state.heard(report).awaits();
            let before = cards_after(cards, report, revision);
            let after = cards_after(cards.push(card), report, revision);
            &&& !stays ==> after == before
            &&& stays ==> after.len() == before.len() + 1 && after.drop_last() == before
                && after.last().turn_id == card.turn_id
        }),
        ({
            let named = card.state.tracks_or_awaits(child, generation);
            let before = invalidated_cards(cards, child, generation, revision);
            let after = invalidated_cards(cards.push(card), child, generation, revision);
            &&& !named ==> after.changed == before.changed && after.kept == before.kept.push(card)
            &&& named ==> after.changed.len() == before.changed.len() + 1
                && after.changed.drop_last() == before.changed && after.changed.last().turn_id
                == card.turn_id && (after.kept == before.kept || after.kept == before.kept.push(
                after.changed.last(),
            ))
        }),
{
    let more = cards.push(card);
    assert(more.drop_last() =~= cards);
    let p = |c: CardView| c.state.hears(report);
    let q = |c: CardView| c.state.hears(report) ==> c.state.heard(report).awaits();
    reveal(Seq::filter);
    assert(more.filter(p) == if p(card) {
        cards.filter(p).push(card)
    } else {
        cards.filter(p)
    });
    assert(more.filter(q) == if q(card) {
        cards.filter(q).push(card)
    } else {
        cards.filter(q)
    });
    assert(changed_cards(more, report).drop_last() =~= changed_cards(cards, report) || !p(card));
    assert(cards_after(more, report, revision).drop_last() =~= cards_after(cards, report, revision)
        || !q(card));
    let named = card.state.tracks_or_awaits(child, generation);
    assert(!named || invalidated_cards(more, child, generation, revision).changed.drop_last()
        =~= invalidated_cards(cards, child, generation, revision).changed);
}

/// Whether a thread shows and remembers no card.
pub open spec fn has_no_cards(thread: RetainedView) -> bool {
    &&& thread.active == empty_state()
    &&& thread.active_turn_id is None
    &&& thread.carry == empty_state()
    &&& thread.last_completed == empty_state()
    &&& thread.last_completed_turn_id is None
    &&& thread.restored.len() == 0
}

/// A rollback drops every card and the last end; revisions go on, and the turns and the listener stay.
pub proof fn lemma_rollback_drops_every_card(thread: RetainedView)
    ensures
        ({
            let after = thread.rolled_back();
            &&& has_no_cards(after)
            &&& after.last_terminal_turn_id is None
            &&& after.next_revision == thread.next_revision
            &&& after.listener_generation == thread.listener_generation
            &&& after.experimental_raw_events == thread.experimental_raw_events
            &&& after.turns == thread.turns
            &&& after.started_at == thread.started_at
            &&& after.last_settings == thread.last_settings
        }),
        has_no_cards(empty_retained()),
        ({
            let fresh = empty_retained();
            &&& fresh.next_revision == 0 && fresh.listener_generation == 0
            &&& !fresh.experimental_raw_events && fresh.last_settings is None
            &&& fresh.turns.latest is None && !fresh.turns.has_active_turn
            &&& fresh.started_at is None && fresh.last_terminal_turn_id is None
        }),
        empty_state().snapshot is None && empty_state().agents.len() == 0
            && empty_state().spawn_calls.len() == 0 && empty_state().revision == 0
            && empty_state().started_at_ms is None && empty_state().completed_at_ms is None,
        forall|id: Seq<char>| !(#[trigger] empty_state().settled.contains(id)),
        forall|t: ThreadId| !(#[trigger] empty_state().invalidated.contains_key(t)),
        forall|t: ThreadId| !(#[trigger] empty_state().timeouts.contains_key(t)),
{
}

/// Placing a card replaces the cards of its turn and keeps every other one in order; the card is the
/// last one.
proof fn lemma_placed(cards: Seq<CardView>, card: CardView, other: CardView)
    ensures
        placed(cards, card).last() == card,
        in_order(placed(cards, card).drop_last(), cards),
        placed(cards, card).drop_last().contains(other) == (cards.contains(other) && other.turn_id
            != card.turn_id),
{
    let p = |c: CardView| c.turn_id != card.turn_id;
    let rest = cards.filter(p);
    lemma_choice_keeps_order(cards, p);
    assert(placed(cards, card).drop_last() =~= rest);
    if rest.contains(other) {
        cards.lemma_filter_contains_rev(p, other);
        let k = choose|k: int| 0 <= k < rest.len() && rest[k] == other;
        cards.lemma_filter_pred(p, k);
    }
    if cards.contains(other) && other.turn_id != card.turn_id {
        let k = choose|k: int| 0 <= k < cards.len() && cards[k] == other;
        cards.lemma_filter_contains(p, k);
    }
}

/// A stored card that is back is the completed card of a thread without one and without a running
/// tree, and what the next card starts from; where another card is shown, it is an older card, in the
/// place of one of its turn; where its own turn's card is shown, it is not needed. Revisions to come
/// are above its own.
pub proof fn lemma_stored_card_comes_back(
    thread: RetainedView,
    turn_id: Seq<char>,
    state: StateView,
    other: CardView,
)
    ensures
        ({
            let after = thread.with_restored(turn_id, state);
            let shown = thread.last_completed.snapshot is Some;
            let own = thread.last_completed_turn_id == Some(turn_id) && shown;
            let first = !shown && thread.active.snapshot is None;
            &&& after.next_revision >= thread.next_revision && after.next_revision
                >= state.revision
            &&& after.next_revision == thread.next_revision || after.next_revision
                == state.revision
            &&& own ==> after.restored == thread.restored && after.last_completed
                == thread.last_completed && after.carry == thread.carry
            &&& !own && first ==> {
                &&& same_card(after.last_completed, state)
                &&& after.last_completed.revision == after.next_revision
                &&& after.carry == after.last_completed.carried()
                &&& after.last_completed_turn_id == Some(turn_id)
                &&& after.last_terminal_turn_id == Some(turn_id)
                &&& after.restored == thread.restored
            }
            &&& !own && !first ==> {
                &&& after.last_completed == thread.last_completed && after.carry == thread.carry
                &&& after.restored.len() > 0
                &&& after.restored.last().turn_id == turn_id
                &&& same_card(after.restored.last().state, state)
                &&& after.restored.last().state.revision == after.next_revision
                &&& after.restored.drop_last().contains(other) == (thread.restored.contains(other)
                    && other.turn_id != turn_id)
                &&& in_order(after.restored.drop_last(), thread.restored)
            }
            &&& own || !first ==> after.last_completed_turn_id == thread.last_completed_turn_id
                && after.last_terminal_turn_id == thread.last_terminal_turn_id
            &&& after.active == thread.active && after.active_turn_id == thread.active_turn_id
            &&& after.turns == thread.turns && after.started_at == thread.started_at
            &&& after.listener_generation == thread.listener_generation
                && after.experimental_raw_events == thread.experimental_raw_events
                && after.last_settings == thread.last_settings
        }),
{
    let revision = crate::live::larger(thread.next_revision, state.revision);
    lemma_placed(
        thread.restored,
        CardView { turn_id, state: state.at_revision(revision) },
        other,
    );
}

/// Taking the summary of a turn makes its card the completed one, and what the next card starts from.
/// The completed card before it is kept among the older ones while it misses an end. A turn without a
/// card leaves the completed one.
pub proof fn lemma_turn_summary_completes_the_card(thread: RetainedView, other: CardView)
    ensures
        ({
            let after = thread.summary_taken();
            &&& after.active == empty_state()
            &&& after.active_turn_id is None
            &&& after.started_at is None
            &&& thread.active_turn_id is None ==> after.last_completed == thread.last_completed
                && after.carry == thread.carry && after.last_completed_turn_id
                == thread.last_completed_turn_id && after.restored == thread.restored
            &&& thread.active_turn_id matches Some(turn_id) ==> {
                let keeps = thread.last_completed_turn_id is Some
                    && thread.last_completed_turn_id->0 != turn_id && exists|t: ThreadId|
                    #[trigger] thread.last_completed.timeouts.contains_key(t);
                &&& after.last_completed == thread.active
                &&& after.carry == thread.active.carried()
                &&& after.last_completed_turn_id == Some(turn_id)
                &&& !keeps ==> after.restored == thread.restored
                &&& keeps ==> after.restored.len() > 0 && after.restored.last().turn_id
                    == thread.last_completed_turn_id->0 && after.restored.last().state
                    == thread.last_completed && after.restored.drop_last().contains(other) == (
                thread.restored.contains(other) && other.turn_id
                    != thread.last_completed_turn_id->0)
            }
            &&& after.next_revision == thread.next_revision
            &&& after.last_terminal_turn_id == thread.last_terminal_turn_id
            &&& after.turns == thread.turns
            &&& after.listener_generation == thread.listener_generation
                && after.experimental_raw_events == thread.experimental_raw_events
                && after.last_settings == thread.last_settings
        }),
{
    crate::agent_laws::lemma_mentions_are_newest(thread.last_completed, ThreadId(0), 0);
    if thread.last_completed_turn_id is Some {
        lemma_placed(
            thread.restored,
            CardView {
                turn_id: thread.last_completed_turn_id->0,
                state: thread.last_completed,
            },
            other,
        );
    }
}

/// An event is followed: the turns are as reported, but that a turn that ended leaves none; a start
/// notes its time and forgets the last end; an end is remembered. A call of a tree tool in a running
/// turn opens the turn's card, from what the last one handed on; nothing else touches a card.
pub proof fn lemma_events_are_followed(
    thread: RetainedView,
    turn_id: Seq<char>,
    event: EventMsg,
    report: TurnReportView,
)
    ensures
        ({
            let after = thread.with_event(turn_id, event, report);
            let ended = (event is TurnComplete || event is TurnAborted)
                && !report.has_active_turn;
            let opens = event is RawResponseItem && affects_tree(event->RawResponseItem_0)
                && report.runs(turn_id);
            &&& ended ==> after.turns.latest is None && !after.turns.has_active_turn
                && after.last_terminal_turn_id == Some(turn_id)
            &&& !ended ==> after.turns == report
            &&& event is TurnStarted ==> after.last_terminal_turn_id is None && after.started_at
                == event->started_at
            &&& !(event is TurnStarted) ==> after.started_at == thread.started_at && (!ended
                ==> after.last_terminal_turn_id == thread.last_terminal_turn_id)
            &&& opens ==> after.active_turn_id == Some(turn_id)
            &&& opens && thread.active_turn_id != Some(turn_id) ==> after.active
                == thread.carry.carried()
            &&& !opens ==> after.active_turn_id == thread.active_turn_id
            &&& !opens || thread.active_turn_id == Some(turn_id) ==> after.active == thread.active
            &&& after.carry == thread.carry && after.last_completed == thread.last_completed
                && after.last_completed_turn_id == thread.last_completed_turn_id
                && after.restored == thread.restored && after.next_revision
                == thread.next_revision
            &&& after.listener_generation == thread.listener_generation
                && after.experimental_raw_events == thread.experimental_raw_events
                && after.last_settings == thread.last_settings
        }),
{
}

} // verus!
