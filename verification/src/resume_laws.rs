//! What a client sees of a thread that it resumes.
use crate::card::{item_of, McpToolCallStatus};
use crate::history::{
    interrupted_turn, merged_turns, resumed_turns, with_item, without_internal, ItemView,
    ThreadStatus, TurnView,
};
use crate::keyed::{lemma_position, position};
use crate::mcp::{SERVER_NAME, TOOL_NAME};
use crate::retained::RetainedView;
use crate::snapshot_laws::{in_order, lemma_choice_keeps_order};
use crate::turns::{TurnReportView, TurnStatus};
use vstd::prelude::*;

verus! {

/// A turn that has stopped is the same turn with the same items. It is no longer in progress; any
/// other status stays.
pub proof fn lemma_stopped_turn_keeps_its_items(turn: TurnView)
    ensures
        interrupted_turn(turn).id == turn.id,
        interrupted_turn(turn).items == turn.items,
        turn.status != TurnStatus::InProgress ==> interrupted_turn(turn).status == turn.status,
        turn.status == TurnStatus::InProgress ==> interrupted_turn(turn).status
            == TurnStatus::Interrupted,
{
}

/// Whether an item is a call of the card's own tool.
pub open spec fn is_card_call(item: ItemView) -> bool {
    match item {
        ItemView::Card(card) => card.server == SERVER_NAME@ && card.tool == TOOL_NAME@,
        ItemView::McpToolCall { server, tool, .. } => server == SERVER_NAME@ && tool
            == TOOL_NAME@,
        ItemView::Other { .. } => false,
    }
}

/// Whether a turn is another one without the calls of the card's own tool.
pub open spec fn hides_card_calls(turn: TurnView, shown: TurnView) -> bool {
    &&& shown.id == turn.id
    &&& shown.status == turn.status
    &&& in_order(shown.items, turn.items)
    &&& forall|item: ItemView| #[trigger]
        shown.items.contains(item) == (turn.items.contains(item) && !is_card_call(item))
}

/// Hiding leaves every item of a turn but the calls of the card's own tool.
pub proof fn lemma_only_card_calls_are_hidden(turn: TurnView)
    ensures
        hides_card_calls(turn, without_internal(turn)),
{
    let p = |i: ItemView| !i.is_internal();
    let shown = turn.items.filter(p);
    lemma_choice_keeps_order(turn.items, p);
    assert forall|item: ItemView| #[trigger] shown.contains(item) == (turn.items.contains(item)
        && !is_card_call(item)) by {
        if shown.contains(item) {
            turn.items.lemma_filter_contains_rev(p, item);
            let k = choose|k: int| 0 <= k < shown.len() && shown[k] == item;
            turn.items.lemma_filter_pred(p, k);
        }
        if turn.items.contains(item) && !is_card_call(item) {
            let k = choose|k: int| 0 <= k < turn.items.len() && turn.items[k] == item;
            turn.items.lemma_filter_contains(p, k);
        }
    }
}

/// A history with the active turn holds every other turn, in order and as it is, and the active turn
/// once, at the end. While the card is off, the calls of its tool are hidden in every turn.
pub proof fn lemma_history_keeps_its_turns(
    turns: Seq<TurnView>,
    active: TurnView,
    turn: TurnView,
)
    ensures
        ({
            let on = merged_turns(turns, active, true);
            let off = merged_turns(turns, active, false);
            &&& on.len() > 0 && on.last() == active
            &&& in_order(on.drop_last(), turns)
            &&& on.drop_last().contains(turn) == (turns.contains(turn) && turn.id != active.id)
            &&& off.len() == on.len()
            &&& forall|k: int| 0 <= k < on.len() ==> hides_card_calls(on[k], #[trigger] off[k])
        }),
{
    let p = |t: TurnView| t.id != active.id;
    let rest = turns.filter(p);
    let on = merged_turns(turns, active, true);
    let off = merged_turns(turns, active, false);
    lemma_choice_keeps_order(turns, p);
    assert(on.drop_last() =~= rest);
    if rest.contains(turn) {
        turns.lemma_filter_contains_rev(p, turn);
        let k = choose|k: int| 0 <= k < rest.len() && rest[k] == turn;
        turns.lemma_filter_pred(p, k);
    }
    if turns.contains(turn) && turn.id != active.id {
        let k = choose|k: int| 0 <= k < turns.len() && turns[k] == turn;
        turns.lemma_filter_contains(p, k);
    }
    assert forall|k: int| 0 <= k < on.len() implies hides_card_calls(on[k], #[trigger] off[k]) by {
        lemma_only_card_calls_are_hidden(on[k]);
    }
}

/// Whether a shown turn is a turn of a thread in some status: the same turn with the same items,
/// which is not in progress where the thread is not active.
pub open spec fn shows_turn(turn: TurnView, shown: TurnView, active: bool) -> bool {
    &&& shown.id == turn.id
    &&& shown.items == turn.items
    &&& active || turn.status != TurnStatus::InProgress ==> shown.status == turn.status
    &&& !active && turn.status == TurnStatus::InProgress ==> shown.status
        == TurnStatus::Interrupted
}

/// A resumed thread shows, one by one and in order, the turns that it has where none are asked for;
/// else those of its history, with the active turn, if any, at the end.
pub proof fn lemma_resumed_thread_shows_its_turns(
    turns: Seq<TurnView>,
    history: Seq<TurnView>,
    active: Option<TurnView>,
    enabled: bool,
    status: ThreadStatus,
)
    ensures
        ({
            let shown = resumed_turns(turns, false, history, active, enabled, status);
            &&& shown.len() == turns.len()
            &&& forall|k: int|
                0 <= k < turns.len() ==> shows_turn(turns[k], #[trigger] shown[k], status is Active)
        }),
        active is None ==> {
            let shown = resumed_turns(turns, true, history, active, enabled, status);
            &&& shown.len() == history.len()
            &&& forall|k: int|
                0 <= k < history.len() ==> shows_turn(
                    history[k],
                    #[trigger] shown[k],
                    status is Active,
                )
        },
        active is Some ==> {
            let shown = resumed_turns(turns, true, history, active, enabled, status);
            let whole = merged_turns(history, active->0, enabled);
            &&& shown.len() == whole.len()
            &&& forall|k: int|
                0 <= k < whole.len() ==> shows_turn(whole[k], #[trigger] shown[k], status is Active)
        },
{
}

/// Whether a shown turn is a turn of a thread, with all its items where the card is on, else with all
/// but the calls of the card's own tool.
pub open spec fn shows_all_but_hidden(
    turn: TurnView,
    shown: TurnView,
    active: bool,
    enabled: bool,
) -> bool {
    &&& shown.id == turn.id
    &&& active || turn.status != TurnStatus::InProgress ==> shown.status == turn.status
    &&& !active && turn.status == TurnStatus::InProgress ==> shown.status
        == TurnStatus::Interrupted
    &&& enabled ==> shown.items == turn.items
    &&& !enabled ==> in_order(shown.items, turn.items) && forall|item: ItemView| #[trigger]
        shown.items.contains(item) == (turn.items.contains(item) && !is_card_call(item))
}

/// A thread that is resumed with its history and an active turn shows the active turn last and, before
/// it, every other turn of the history; it shows no other turn.
pub proof fn lemma_resumed_history_is_complete(
    turns: Seq<TurnView>,
    history: Seq<TurnView>,
    active: TurnView,
    enabled: bool,
    status: ThreadStatus,
    i: int,
)
    ensures
        ({
            let shown = resumed_turns(turns, true, history, Some(active), enabled, status);
            let runs = status is Active;
            &&& shown.len() > 0
            &&& shows_all_but_hidden(active, shown.last(), runs, enabled)
            &&& 0 <= i < history.len() && history[i].id != active.id ==> exists|k: int|
                0 <= k < shown.len() - 1 && shows_all_but_hidden(
                    history[i],
                    #[trigger] shown[k],
                    runs,
                    enabled,
                )
            &&& 0 <= i < shown.len() - 1 ==> shown[i].id != active.id && exists|k: int|
                0 <= k < history.len() && shows_all_but_hidden(
                    #[trigger] history[k],
                    shown[i],
                    runs,
                    enabled,
                )
        }),
{
    let shown = resumed_turns(turns, true, history, Some(active), enabled, status);
    let p = |t: TurnView| t.id != active.id;
    let others = history.filter(p);
    let plain = others.push(active);
    let whole = merged_turns(history, active, enabled);
    assert(whole.len() == plain.len());
    assert forall|k: int| 0 <= k < plain.len() implies shows_all_but_hidden(
        plain[k],
        #[trigger] shown[k],
        status is Active,
        enabled,
    ) by {
        if !enabled {
            lemma_only_card_calls_are_hidden(plain[k]);
            assert(whole[k] == without_internal(plain[k]));
        } else {
            assert(whole[k] == plain[k]);
        }
        lemma_stopped_turn_keeps_its_items(whole[k]);
        if !(status is Active) {
            assert(shown[k] == interrupted_turn(whole[k]));
        }
    }
    if 0 <= i < history.len() && history[i].id != active.id {
        history.lemma_filter_contains(p, i);
        let k = choose|k: int| 0 <= k < others.len() && others[k] == history[i];
        assert(plain[k] == history[i]);
        assert(shows_all_but_hidden(history[i], shown[k], status is Active, enabled));
    }
    if 0 <= i < shown.len() - 1 {
        history.lemma_filter_contains_rev(p, others[i]);
        history.lemma_filter_pred(p, i);
        let k = choose|k: int| 0 <= k < history.len() && history[k] == others[i];
        assert(plain[i] == history[k]);
        assert(shows_all_but_hidden(history[k], shown[i], status is Active, enabled));
    }
    assert(plain[shown.len() - 1] == active);
}

/// The card of a turn takes the place of the first item with its identity, else comes last; every
/// other item stays where it was.
pub proof fn lemma_item_takes_its_place(items: Seq<ItemView>, item: ItemView)
    ensures
        ({
            let after = with_item(items, item);
            &&& (forall|i: int|
                0 <= i < items.len() ==> (#[trigger] items[i]).item_id() != item.item_id())
                ==> after == items.push(item)
            &&& forall|i: int|
                #![trigger items[i]]
                0 <= i < items.len() && items[i].item_id() == item.item_id() && (forall|j: int|
                    0 <= j < i ==> (#[trigger] items[j]).item_id() != item.item_id()) ==> after
                    == items.update(i, item)
        }),
{
    let p = |i: ItemView| i.item_id() == item.item_id();
    lemma_position(items, p);
    let at = position(items, p);
    if at < items.len() {
        assert(items[at].item_id() == item.item_id());
    }
    assert forall|i: int|
        #![trigger items[i]]
        0 <= i < items.len() && items[i].item_id() == item.item_id() && (forall|j: int|
            0 <= j < i ==> (#[trigger] items[j]).item_id() != item.item_id()) implies i == at by {
        if at < i {
            assert(items[at].item_id() != item.item_id());
        }
    }
}

/// The active turn is shown with the card that it has opened, as in progress; any other turn, and one
/// whose card has no tree yet, as it is.
pub proof fn lemma_active_turn_shows_its_card(thread: RetainedView, turn: TurnView)
    ensures
        ({
            let shown = thread.turn_with_card(turn);
            &&& shown.id == turn.id
            &&& shown.status == turn.status
            &&& thread.active_turn_id != Some(turn.id) ==> shown.items == turn.items
            &&& thread.active.snapshot is None ==> shown.items == turn.items
            &&& thread.active_turn_id == Some(turn.id) && thread.active.snapshot is Some
                ==> shown.items == with_item(
                turn.items,
                ItemView::Card(
                    item_of(turn.id, thread.active, McpToolCallStatus::InProgress, None)->0,
                ),
            )
        }),
{
}

/// An item is known by its own identity.
pub proof fn lemma_items_have_identities(item: ItemView)
    ensures
        item matches ItemView::Card(card) ==> item.item_id() == card.id,
        item matches ItemView::McpToolCall { call_id, .. } ==> item.item_id() == call_id,
        item matches ItemView::Other { id, .. } ==> item.item_id() == id,
        item.is_internal() == is_card_call(item),
{
}

/// A turn runs while it is the latest one and in progress; a card belongs to the latest turn in
/// whatever status that is.
pub proof fn lemma_latest_turn_runs(report: TurnReportView, turn_id: Seq<char>)
    ensures
        report.latest is None ==> !report.runs(turn_id) && !report.is_latest(Some(turn_id)),
        report.latest matches Some((id, status)) ==> {
            &&& report.runs(turn_id) == (id == turn_id && status == TurnStatus::InProgress)
            &&& report.is_latest(Some(turn_id)) == (id == turn_id)
        },
        !report.is_latest(None),
{
}

} // verus!
