//! What holds of threads, routes and lineages whatever happens to them.
use crate::invariants::routes_ok;
use crate::keyed::lemma_position;
use crate::lineage::RetainedManagerView;
use crate::live::{following, pending_position, LiveView, PendingView};
use crate::protocol::ThreadId;
use crate::retained::{cards_after, AgentReport, CardView, RetainedView};
use crate::routes::ManagerView;
use crate::state::StateView;
use vstd::prelude::*;

verus! {

/// Every change of a live card gets a revision above all earlier ones of its thread, up to the
/// largest there is, and a rollback does not start over.
pub proof fn lemma_live_revisions_grow(thread: LiveView, changed: StateView)
    ensures
        thread.with_active(changed).active.revision == thread.with_active(changed).next_revision,
        thread.with_active(changed).next_revision >= following(thread.next_revision),
        thread.next_revision < u64::MAX ==> thread.with_active(changed).active.revision
            > thread.next_revision,
        thread.without_cards().next_revision == thread.next_revision,
        thread.without_cards().turn_begun().next_revision == thread.next_revision,
{
}

/// A rollback, or a listener that goes, voids every token that was given out.
pub proof fn lemma_dropped_cards_void_tokens(thread: LiveView, turn_id: Seq<char>, token: u64)
    ensures
        pending_position(thread.without_cards().pending, turn_id, token)
            == thread.without_cards().pending.len(),
{
    lemma_position(
        thread.without_cards().pending,
        |c: PendingView| c.turn_id == turn_id && c.order == token,
    );
}

/// The card of a turn starts with the agents that the last completed turn showed.
pub proof fn lemma_next_card_keeps_agents(
    thread: LiveView,
    turn_id: Seq<char>,
    next_turn_id: Seq<char>,
)
    ensures
        thread.completing(turn_id).turn_begun().activated(next_turn_id).active
            == thread.active.carried(),
{
}

/// A new route has a generation above those of all routes there are, as long as there is one.
pub proof fn lemma_new_route_is_newest(
    manager: ManagerView,
    child: ThreadId,
    parent: ThreadId,
    turn_id: Seq<char>,
    listener_generation: u64,
    baseline: Set<Seq<char>>,
)
    requires
        routes_ok(manager),
    ensures
        ({
            let after = manager.with_route(child, parent, turn_id, listener_generation, baseline);
            &&& after.leads_to(child, parent, turn_id)
            &&& !manager.leads_to(child, parent, turn_id) && manager.next_route_generation
                < u64::MAX ==> forall|c: ThreadId| #[trigger]
                manager.routes.contains_key(c) ==> manager.routes[c].generation
                    < after.routes[child].generation
        }),
{
    assert(manager.knowing(child).routes == manager.routes);
}

/// One card at a time is on its way: a child's card is not queued again before the parent has taken
/// the one that is.
pub proof fn lemma_one_card_is_on_its_way(manager: ManagerView, child: ThreadId)
    requires
        manager.queued(child) is Some,
    ensures
        manager.after_queue(child).queued(child) is None,
        manager.after_queue(child).after_queue(child) == manager.after_queue(child),
{
}

/// A removed thread has no route and is at the end of none.
pub proof fn lemma_removed_thread_has_no_routes(
    manager: ManagerView,
    thread_id: ThreadId,
    child: ThreadId,
)
    ensures
        !manager.without_routes(thread_id).routes.contains_key(thread_id),
        manager.without_routes(thread_id).routes.contains_key(child) ==> manager.without_routes(
            thread_id,
        ).routes[child].parent_thread_id != thread_id,
{
}

/// Every change of a retained card gets a revision above all earlier ones of its thread, up to the
/// largest there is, and a rollback does not start over.
pub proof fn lemma_retained_revisions_grow(
    thread: RetainedView,
    changed: StateView,
    report: AgentReport,
)
    ensures
        thread.with_active(changed).next_revision >= following(thread.next_revision),
        thread.with_active(changed).active.revision == thread.with_active(changed).next_revision,
        thread.hears(report) ==> thread.refreshed(report).next_revision >= following(
            thread.next_revision,
        ),
        thread.active.hears(report) ==> thread.refreshed(report).active.revision
            == thread.refreshed(report).next_revision,
        thread.last_completed.hears(report) ==> thread.refreshed(report).last_completed.revision
            == thread.refreshed(report).next_revision,
        thread.next_revision < u64::MAX ==> following(thread.next_revision) > thread.next_revision,
        thread.rolled_back().next_revision == thread.next_revision,
{
}

/// A final report ends the wait for its child, and for no other.
pub proof fn lemma_final_report_ends_the_wait(s: StateView, report: AgentReport, other: ThreadId)
    requires
        report.is_final,
    ensures
        s.heard(report).timeouts.contains_key(report.child)
            ==> s.heard(report).timeouts[report.child] != report.generation,
        other != report.child ==> s.heard(report).timeouts.contains_key(other)
            == s.timeouts.contains_key(other),
{
}

/// A report about a generation that no card shows or awaits changes nothing.
pub proof fn lemma_unrelated_report_changes_nothing(thread: RetainedView, report: AgentReport)
    requires
        !thread.active.concerned(report),
        !thread.carry.concerned(report),
        !thread.last_completed.concerned(report),
        forall|i: int|
            0 <= i < thread.restored.len() ==> !(
            #[trigger] thread.restored[i]).state.concerned(report),
    ensures
        thread.refreshed(report) == thread,
        thread.refresh(report) == crate::retained::no_refresh(),
{
    let p = |c: CardView| c.state.hears(report);
    let heard = thread.restored.filter(p);
    if heard.len() > 0 {
        thread.restored.lemma_filter_pred(p, 0);
        thread.restored.lemma_filter_contains_rev(p, heard[0]);
        let i = choose|i: int| 0 <= i < thread.restored.len() && thread.restored[i] == heard[0];
        assert(!thread.restored[i].state.concerned(report));
    }
}

/// After a report, every older card is one that the report did not change, or still misses the final
/// state of an agent.
pub proof fn lemma_settled_older_cards_go(
    cards: Seq<CardView>,
    report: AgentReport,
    revision: u64,
    i: int,
)
    requires
        0 <= i < cards_after(cards, report, revision).len(),
    ensures
        ({
            let card = cards_after(cards, report, revision)[i];
            card.state.awaits() || (cards.contains(card) && !card.state.hears(report))
        }),
{
    let p = |c: CardView| c.state.hears(report) ==> c.state.heard(report).awaits();
    let left = cards.filter(p);
    cards.lemma_filter_pred(p, i);
    cards.lemma_filter_contains_rev(p, left[i]);
}

/// A stored card never replaces one that is shown.
pub proof fn lemma_stored_card_replaces_nothing_shown(
    thread: RetainedView,
    turn_id: Seq<char>,
    state: StateView,
)
    ensures
        thread.with_restored(turn_id, state).active == thread.active,
        thread.with_restored(turn_id, state).active_turn_id == thread.active_turn_id,
        thread.last_completed.snapshot is Some ==> thread.with_restored(
            turn_id,
            state,
        ).last_completed == thread.last_completed && thread.with_restored(turn_id, state).carry
            == thread.carry,
        thread.active.snapshot is Some ==> thread.with_restored(turn_id, state).last_completed
            == thread.last_completed,
        thread.with_restored(turn_id, state).next_revision >= thread.next_revision,
{
}

/// A child that was cut off is not taken back by a stored card that shows it under the generation of
/// its route or its lineage.
pub proof fn lemma_cut_child_stays_cut(
    manager: RetainedManagerView,
    child: ThreadId,
    generations: Map<ThreadId, u64>,
)
    requires
        generations.contains_key(child),
        (manager.routes.contains_key(child) && generations[child]
            <= manager.routes[child].generation) || (manager.lineages.contains_key(child)
            && generations[child] <= manager.lineages[child].generation),
    ensures
        !manager.cut(child).adopts(generations, child),
        !manager.cut(child).routes.contains_key(child),
        !manager.cut(child).lineages.contains_key(child),
{
    assert(manager.edges(child).len() == manager.targets(child).len());
    if manager.routes.contains_key(child) {
        assert(manager.edges(child)[0].generation == manager.routes[child].generation);
    }
    if manager.edges(child).len() == 2 {
        assert(manager.edges(child)[1].generation == manager.lineages[child].generation);
    }
}

/// The end of a parent's turn keeps the routes that wait for a late final state, and those of other
/// turns.
pub proof fn lemma_turn_end_keeps_late_routes(
    manager: RetainedManagerView,
    parent: ThreadId,
    turn_id: Seq<char>,
    child: ThreadId,
)
    requires
        manager.routes.contains_key(child),
        manager.routes[child].timed_out_at is Some || !manager.leads_to(child, parent, turn_id),
    ensures
        manager.without_turn_routes(parent, turn_id).routes.contains_key(child),
        manager.without_turn_routes(parent, turn_id).routes[child] == manager.routes[child],
{
}

/// A settled route stays settled when the time is over, and a late one counts as timed out.
pub proof fn lemma_timeout_spares_settled_routes(
    manager: RetainedManagerView,
    child: ThreadId,
    parent: ThreadId,
    turn_id: Seq<char>,
    generation: u64,
    now: u64,
)
    ensures
        manager.route_terminal(child, parent, turn_id, generation) is Settled ==> manager.timed_out(
            child,
            parent,
            turn_id,
            generation,
            now,
        ) == manager,
        !(manager.timed_out(child, parent, turn_id, generation, now).route_terminal(
            child,
            parent,
            turn_id,
            generation,
        ) is Pending),
{
}

/// A thread that was isolated has no route and no lineage, and is at the end of none.
pub proof fn lemma_isolated_thread_is_alone(
    manager: RetainedManagerView,
    thread_id: ThreadId,
    child: ThreadId,
)
    ensures
        ({
            let after = manager.isolated(thread_id);
            &&& !after.routes.contains_key(thread_id)
            &&& !after.lineages.contains_key(thread_id)
            &&& after.routes.contains_key(child) ==> after.routes[child].parent_thread_id
                != thread_id
            &&& after.lineages.contains_key(child) ==> after.lineages[child].parent_thread_id
                != thread_id
        }),
{
}

} // verus!
