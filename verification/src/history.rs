//! The turns of a thread as a client sees them.
use crate::card::{item_of, snapshot_core_item, CardItem, CardItemView, McpToolCallStatus};
use crate::keyed::{lemma_position, position, retain_items, views};
use crate::mcp::{is_internal_tool, SERVER_NAME, TOOL_NAME};
use crate::retained::{RetainedThread, RetainedView};
use crate::text::same_text;
use crate::turns::TurnStatus;
use vstd::prelude::*;

verus! {

/// An item of a turn. What the rules here do not read is kept in its serialised form.
#[derive(Debug, PartialEq, Eq)]
pub enum ThreadItem {
    /// A turn's card.
    Card(CardItem),
    McpToolCall { call_id: String, server: String, tool: String, call: String },
    Other { id: String, body: String },
}

pub enum ItemView {
    Card(CardItemView),
    McpToolCall { call_id: Seq<char>, server: Seq<char>, tool: Seq<char>, call: Seq<char> },
    Other { id: Seq<char>, body: Seq<char> },
}

impl View for ThreadItem {
    type V = ItemView;

    open spec fn view(&self) -> ItemView {
        match self {
            ThreadItem::Card(card) => ItemView::Card(card@),
            ThreadItem::McpToolCall { call_id, server, tool, call } => ItemView::McpToolCall {
                call_id: call_id@,
                server: server@,
                tool: tool@,
                call: call@,
            },
            ThreadItem::Other { id, body } => ItemView::Other { id: id@, body: body@ },
        }
    }
}

impl ItemView {
    pub open spec fn item_id(self) -> Seq<char> {
        match self {
            ItemView::Card(card) => card.id,
            ItemView::McpToolCall { call_id, .. } => call_id,
            ItemView::Other { id, .. } => id,
        }
    }

    /// Whether the item is a call of the card's own tool.
    pub open spec fn is_internal(self) -> bool {
        match self {
            ItemView::Card(card) => card.server == SERVER_NAME@ && card.tool == TOOL_NAME@,
            ItemView::McpToolCall { server, tool, .. } => server == SERVER_NAME@ && tool
                == TOOL_NAME@,
            ItemView::Other { .. } => false,
        }
    }
}

impl ThreadItem {
    pub fn item_id(&self) -> (r: &str)
        ensures
            r@ == self@.item_id(),
    {
        match self {
            ThreadItem::Card(card) => card.id.as_str(),
            ThreadItem::McpToolCall { call_id, .. } => call_id.as_str(),
            ThreadItem::Other { id, .. } => id.as_str(),
        }
    }

    /// Whether the item is a call of the card's own tool.
    pub fn is_internal(&self) -> (r: bool)
        ensures
            r == self@.is_internal(),
    {
        match self {
            ThreadItem::Card(card) => is_internal_tool(card.server.as_str(), card.tool.as_str()),
            ThreadItem::McpToolCall { server, tool, .. } => is_internal_tool(
                server.as_str(),
                tool.as_str(),
            ),
            ThreadItem::Other { .. } => false,
        }
    }
}

/// A turn with its items.
#[derive(Debug, PartialEq, Eq)]
pub struct Turn {
    pub id: String,
    pub status: TurnStatus,
    pub items: Vec<ThreadItem>,
}

pub struct TurnView {
    pub id: Seq<char>,
    pub status: TurnStatus,
    pub items: Seq<ItemView>,
}

impl View for Turn {
    type V = TurnView;

    open spec fn view(&self) -> TurnView {
        TurnView { id: self.id@, status: self.status, items: views(self.items@) }
    }
}

/// What a thread does.
#[derive(Debug, PartialEq, Eq)]
pub enum ThreadStatus {
    NotLoaded,
    Idle,
    SystemError,
    Active { active_flags: Vec<String> },
}

/// A thread as a client sees it.
#[derive(Debug, PartialEq, Eq)]
pub struct Thread {
    pub id: String,
    pub session_id: String,
    pub status: ThreadStatus,
    pub turns: Vec<Turn>,
}

/// The items with one more, in place of the first of the same identity.
pub open spec fn with_item(items: Seq<ItemView>, item: ItemView) -> Seq<ItemView> {
    let at = position(items, |i: ItemView| i.item_id() == item.item_id());
    if at < items.len() {
        items.update(at, item)
    } else {
        items.push(item)
    }
}

/// A turn without the calls of the card's own tool.
pub open spec fn without_internal(turn: TurnView) -> TurnView {
    TurnView { items: turn.items.filter(|i: ItemView| !i.is_internal()), ..turn }
}

/// A turn history that ends with the active turn. The card's own calls are hidden while the card is
/// off.
pub open spec fn merged_turns(
    turns: Seq<TurnView>,
    active: TurnView,
    enabled: bool,
) -> Seq<TurnView> {
    let merged = turns.filter(|t: TurnView| t.id != active.id).push(active);
    if enabled {
        merged
    } else {
        merged.map_values(|t: TurnView| without_internal(t))
    }
}

/// A turn that has stopped.
pub open spec fn interrupted_turn(turn: TurnView) -> TurnView {
    if turn.status == TurnStatus::InProgress {
        TurnView { status: TurnStatus::Interrupted, ..turn }
    } else {
        turn
    }
}

/// The turns that a resumed thread shows: those that it has, or those of its history where they are
/// asked for. A thread that is not active has no turn in progress.
pub open spec fn resumed_turns(
    turns: Seq<TurnView>,
    include_turns: bool,
    history: Seq<TurnView>,
    active: Option<TurnView>,
    enabled: bool,
    status: ThreadStatus,
) -> Seq<TurnView> {
    let shown = if !include_turns {
        turns
    } else {
        match active {
            Some(active) => merged_turns(history, active, enabled),
            None => history,
        }
    };
    if status is Active {
        shown
    } else {
        shown.map_values(|t: TurnView| interrupted_turn(t))
    }
}

pub open spec fn turn_view(turn: Option<Turn>) -> Option<TurnView> {
    match turn {
        Some(t) => Some(t@),
        None => None,
    }
}

fn place_item(items: &mut Vec<ThreadItem>, item: ThreadItem)
    ensures
        views(final(items)@) == with_item(views(old(items)@), item@),
{
    let ghost all = views(items@);
    let ghost iv = item@;
    proof {
        lemma_position(all, |i: ItemView| i.item_id() == iv.item_id());
    }
    let mut at: usize = 0;
    while at < items.len() && !same_text(items[at].item_id(), item.item_id())
        invariant
            at <= items.len(),
            all == views(items@),
            iv == item@,
            forall|k: int| 0 <= k < at ==> (#[trigger] all[k]).item_id() != iv.item_id(),
        decreases items.len() - at,
    {
        assert(all[at as int] == items@[at as int]@);
        at += 1;
    }
    if at < items.len() {
        assert(all[at as int] == items@[at as int]@);
        assert(at == position(all, |i: ItemView| i.item_id() == iv.item_id()));
        items.set(at, item);
        assert(views(items@) =~= all.update(at as int, iv));
    } else {
        items.push(item);
        assert(views(items@) =~= all.push(iv));
    }
}

impl RetainedThread {
    /// The active turn, as its history has it, with the turn's card among its items.
    pub fn active_turn_snapshot(&self, turn: Turn) -> (r: Turn)
        ensures
            r@ == self@.turn_with_card(turn@),
    {
        let card = match self.turn_summary.active_spine_ui(turn.id.as_str()) {
            Some(state) => snapshot_core_item(
                turn.id.as_str(),
                state,
                McpToolCallStatus::InProgress,
                None,
            ),
            None => None,
        };
        let mut turn = turn;
        match card {
            Some(card) => {
                place_item(&mut turn.items, ThreadItem::Card(card));
            },
            None => {},
        }
        turn
    }
}

impl RetainedView {
    /// A turn with the card that it has opened.
    pub open spec fn turn_with_card(self, turn: TurnView) -> TurnView {
        if self.active_turn_id == Some(turn.id) {
            match item_of(turn.id, self.active, McpToolCallStatus::InProgress, None) {
                Some(card) => TurnView {
                    items: with_item(turn.items, ItemView::Card(card)),
                    ..turn
                },
                None => turn,
            }
        } else {
            turn
        }
    }
}

/// Puts the active turn at the end of a turn history.
pub fn merge_turn_history_with_active_turn(turns: &mut Vec<Turn>, active_turn: Turn, enabled: bool)
    ensures
        views(final(turns)@) == merged_turns(views(old(turns)@), active_turn@, enabled),
{
    let ghost all = views(turns@);
    let ghost av = active_turn@;
    let mut taken: Vec<Turn> = Vec::new();
    std::mem::swap(&mut taken, turns);
    let other = |t: &Turn| -> (b: bool)
        ensures
            b == (t@.id != active_turn.id@),
        {
            !same_text(t.id.as_str(), active_turn.id.as_str())
        };
    let mut rest = retain_items(taken, other, Ghost(|t: TurnView| t.id != active_turn@.id));
    let ghost left = views(rest@);
    rest.push(active_turn);
    assert(views(rest@) =~= left.push(av));
    if !enabled {
        rest = hide_internal_items(rest);
    }
    *turns = rest;
}

fn hide_internal_items(turns: Vec<Turn>) -> (r: Vec<Turn>)
    ensures
        views(r@) == views(turns@).map_values(|t: TurnView| without_internal(t)),
{
    let ghost all = views(turns@);
    let mut left = turns;
    let mut out: Vec<Turn> = Vec::new();
    let ghost mut i: int = 0;
    assert(views(left@) =~= all.skip(0));
    while left.len() > 0
        invariant
            0 <= i <= all.len(),
            left@.len() == all.len() - i,
            views(left@) == all.skip(i),
            out@.len() == i,
            forall|k: int| 0 <= k < i ==> (#[trigger] out@[k])@ == without_internal(all[k]),
        decreases left@.len(),
    {
        let ghost before = left@;
        let turn = left.remove(0);
        proof {
            assert(turn@ == views(before)[0]);
            assert(turn@ == all[i]);
            assert forall|j: int| 0 <= j < left@.len() implies views(left@)[j] == all.skip(
                i + 1,
            )[j] by {
                assert(views(before)[j + 1] == all.skip(i)[j + 1]);
            }
            assert(views(left@) =~= all.skip(i + 1));
        }
        let visible = |item: &ThreadItem| -> (b: bool)
            ensures
                b == !item@.is_internal(),
            {
                !item.is_internal()
            };
        let items = retain_items(turn.items, visible, Ghost(|i: ItemView| !i.is_internal()));
        out.push(Turn { id: turn.id, status: turn.status, items });
        proof {
            i = i + 1;
        }
    }
    assert(views(out@) =~= all.map_values(|t: TurnView| without_internal(t)));
    out
}

/// Gives a thread the turns that its stored history holds, and the active turn, if any, at the end.
pub fn populate_thread_turns_from_history(
    thread: &mut Thread,
    history_turns: Vec<Turn>,
    active_turn: Option<Turn>,
    enabled: bool,
)
    ensures
        views(final(thread).turns@) == (match turn_view(active_turn) {
            Some(active) => merged_turns(views(history_turns@), active, enabled),
            None => views(history_turns@),
        }),
        final(thread).id == old(thread).id,
        final(thread).session_id == old(thread).session_id,
        final(thread).status == old(thread).status,
{
    let mut turns = history_turns;
    match active_turn {
        Some(active) => {
            merge_turn_history_with_active_turn(&mut turns, active, enabled);
        },
        None => {},
    }
    thread.turns = turns;
}

/// Whether a thread has a turn in progress: its agent runs or its active turn is in progress.
pub fn has_live_in_progress_turn(agent_running: bool, active_turn: Option<&Turn>) -> (r: bool)
    ensures
        r == (agent_running || match active_turn {
            Some(turn) => turn.status == TurnStatus::InProgress,
            None => false,
        }),
{
    agent_running || match active_turn {
        Some(turn) => turn.status == TurnStatus::InProgress,
        None => false,
    }
}

/// Sets a thread's status. A thread that is not active has no turn in progress.
pub fn set_thread_status_and_interrupt_stale_turns(thread: &mut Thread, status: ThreadStatus)
    ensures
        final(thread).status == status,
        final(thread).id == old(thread).id,
        final(thread).session_id == old(thread).session_id,
        views(final(thread).turns@) == (if status is Active {
            views(old(thread).turns@)
        } else {
            views(old(thread).turns@).map_values(|t: TurnView| interrupted_turn(t))
        }),
{
    let active = match &status {
        ThreadStatus::Active { .. } => true,
        _ => false,
    };
    if !active {
        let ghost all = views(thread.turns@);
        let mut left: Vec<Turn> = Vec::new();
        std::mem::swap(&mut left, &mut thread.turns);
        let mut out: Vec<Turn> = Vec::new();
        let ghost mut i: int = 0;
        assert(views(left@) =~= all.skip(0));
        while left.len() > 0
            invariant
                0 <= i <= all.len(),
                left@.len() == all.len() - i,
                views(left@) == all.skip(i),
                out@.len() == i,
                forall|k: int| 0 <= k < i ==> (#[trigger] out@[k])@ == interrupted_turn(all[k]),
            decreases left@.len(),
        {
            let ghost before = left@;
            let mut turn = left.remove(0);
            proof {
                assert(turn@ == views(before)[0]);
                assert(turn@ == all[i]);
                assert forall|j: int| 0 <= j < left@.len() implies views(left@)[j] == all.skip(
                    i + 1,
                )[j] by {
                    assert(views(before)[j + 1] == all.skip(i)[j + 1]);
                }
                assert(views(left@) =~= all.skip(i + 1));
            }
            if turn.status == TurnStatus::InProgress {
                turn.status = TurnStatus::Interrupted;
            }
            out.push(turn);
            proof {
                i = i + 1;
            }
        }
        assert(views(out@) =~= all.map_values(|t: TurnView| interrupted_turn(t)));
        thread.turns = out;
    }
    thread.status = status;
}

/// A merged history holds the active turn once, at its end.
pub proof fn lemma_merged_history_ends_with_the_active_turn(turns: Seq<TurnView>, active: TurnView)
    ensures
        merged_turns(turns, active, true).last() == active,
        forall|k: int|
            0 <= k < merged_turns(turns, active, true).len() - 1 ==> (#[trigger] merged_turns(
                turns,
                active,
                true,
            )[k]).id != active.id,
{
    let p = |t: TurnView| t.id != active.id;
    let rest = turns.filter(p);
    assert forall|k: int| 0 <= k < rest.len() implies (#[trigger] rest[k]).id != active.id by {
        turns.lemma_filter_pred(p, k);
    }
}

} // verus!
