//! How events pass their steps and how requests are answered, seen from outside.
use crate::attach::{
    attach_log, closing_message, not_found_message, redaction_of, resume_check, resume_refusal,
    EnsureConversationListenerResult, GoalNotificationView, StoredHistory,
};
use crate::card::{item_of, started_view, upsert_of, McpToolCallStatus, OutcomeView};
use crate::commands::{is_handled, CommandAction, ThreadListenerCommand};
use crate::events::{
    affects_tree, carries_tree_call, is_tree_tool_name, opens_card, CodeModeSpineCarrier, EventMsg,
    ResponseItem, ToolOutputBody, CODE_MODE_SPINE_CARRIER_MARKER,
};
use crate::lineage::{RetainedCommandView, RetainedManagerView, UpdateView};
use crate::mcp::RequestErrorView;
use crate::names::{ascending, precedes};
use crate::protocol::{ConnectionId, ThreadId};
use crate::recovery::{completed_update_of, WalkStep, WalkView};
use crate::retained::CardView;
use crate::steps::{next_step, EventStep};
use vstd::prelude::*;

verus! {

/// Every event passes its steps in one order: it begins, the end of a turn waits for the children, it
/// is followed, a rollback is carried out, the clients are told, it is finished. Children are awaited
/// and rollbacks carried out for an enabled thread alone; an event that does not pass is told and
/// finished for nobody.
pub proof fn lemma_steps_come_in_order(event: EventMsg, enabled: bool, passes: bool)
    ensures
        ({
            let ends = event is TurnComplete || event is TurnAborted;
            let next = |s: EventStep| next_step(s, event, enabled, passes);
            &&& enabled && ends ==> next(EventStep::Begin) is AwaitChildren
            &&& !(enabled && ends) ==> next(EventStep::Begin) is Follow
            &&& next(EventStep::AwaitChildren) is Follow
            &&& enabled && event is ThreadRolledBack ==> next(EventStep::Follow) is RollBack
            &&& !(enabled && event is ThreadRolledBack) ==> next(EventStep::Follow) == next(
                EventStep::RollBack,
            )
            &&& passes ==> next(EventStep::RollBack) is Translate
            &&& !passes ==> next(EventStep::RollBack) is Done
            &&& next(EventStep::Translate) is Finish
            &&& next(EventStep::Finish) is Done
            &&& next(EventStep::Done) is Done
        }),
{
}

/// The tree tools are the four that open, move on, close and spawn.
pub proof fn lemma_tree_tools_are_four(name: Seq<char>)
    ensures
        is_tree_tool_name("open"@),
        is_tree_tool_name("next"@),
        is_tree_tool_name("close"@),
        is_tree_tool_name("spawn"@),
        is_tree_tool_name(name) ==> name == "open"@ || name == "next"@ || name == "close"@ || name
            == "spawn"@,
{
}

/// A call touches the tree where it names a tree tool of the tree's namespace, in either form; an
/// output does where it carries such a call and says so. Nothing else does. A card is opened by what
/// touches the tree and by a report of spawns.
pub proof fn lemma_tree_is_touched_by_its_tools(
    item: ResponseItem,
    carrier: CodeModeSpineCarrier,
    event: EventMsg,
)
    ensures
        item matches ResponseItem::FunctionCall { name, namespace: Some(n) } ==> affects_tree(item)
            == (n@ == "spine"@ && is_tree_tool_name(name@)),
        item matches ResponseItem::FunctionCall { name, namespace: None } ==> affects_tree(item)
            == (name@ == "spine."@ + "open"@ || name@ == "spine."@ + "next"@ || name@ == "spine."@
            + "close"@ || name@ == "spine."@ + "spawn"@),
        item matches ResponseItem::CustomToolCallOutput {
            output_name,
            body: ToolOutputBody::Text { text, carrier: Some(c) },
        } ==> affects_tree(item) == (output_name is Some && output_name->0@
            == CODE_MODE_SPINE_CARRIER_MARKER@ && carries_tree_call(c)),
        item matches ResponseItem::CustomToolCallOutput {
            output_name,
            body: ToolOutputBody::Text { text, carrier: None },
        } ==> !affects_tree(item),
        item matches ResponseItem::CustomToolCallOutput {
            output_name,
            body: ToolOutputBody::ContentItems,
        } ==> !affects_tree(item),
        item is Other ==> !affects_tree(item),
        carries_tree_call(carrier) == (carrier.schema@ == CODE_MODE_SPINE_CARRIER_MARKER@
            && exists|i: int|
            0 <= i < carrier.nested_spine_calls@.len() && is_tree_tool_name(
                (#[trigger] carrier.nested_spine_calls@[i])@,
            )),
        event is SpineSpawnProgress ==> opens_card(event),
        event is RawResponseItem ==> opens_card(event) == affects_tree(event->RawResponseItem_0),
        !(event is SpineSpawnProgress) && !(event is RawResponseItem) ==> !opens_card(event),
{
    if let ResponseItem::FunctionCall { name, namespace } = item {
        if namespace is None {
            assert(is_tree_tool_name("open"@));
            assert(is_tree_tool_name("next"@));
            assert(is_tree_tool_name("close"@));
            assert(is_tree_tool_name("spawn"@));
        }
    }
}

/// A listener that was attached is not logged; a connection that closed meanwhile is, quietly and by
/// name; a failure is a warning that tells the thread and the error.
pub proof fn lemma_attach_is_logged(
    thread: Seq<char>,
    connection: ConnectionId,
    kind: Seq<char>,
    message: Seq<char>,
)
    ensures
        attach_log(Ok(EnsureConversationListenerResult::Attached), thread, connection, kind)
            is None,
        attach_log(
            Ok(EnsureConversationListenerResult::ConnectionClosed),
            thread,
            connection,
            kind,
        ) matches Some(line) ==> line.level is Debug && line.connection_id == Some(connection)
            && line.message == "skipping auto-attach for closed connection"@,
        attach_log(
            Ok(EnsureConversationListenerResult::ConnectionClosed),
            thread,
            connection,
            kind,
        ) is Some,
        ({
            let a = attach_log(
                Err(RequestErrorView::Internal(message)),
                thread,
                connection,
                kind,
            );
            let b = attach_log(
                Err(RequestErrorView::InvalidRequest(message)),
                thread,
                connection,
                kind,
            );
            a == b && a is Some && a->0.level is Warn && a->0.connection_id is None && a->0.message
                == "failed to attach listener for "@ + kind + " "@ + thread + ": "@ + message
        }),
{
}

/// A resume is refused for want of a permit, then for its stored history, then for its first page, and
/// last because the thread closes: the first of these is told. It is refused for nothing else.
pub proof fn lemma_first_refusal_is_told(
    permit: bool,
    stored: StoredHistory,
    page: Result<(), RequestErrorView>,
    closing: bool,
    name: Seq<char>,
)
    ensures
        ({
            let refusal = resume_refusal(permit, stored, page, closing, name);
            let usable = permit && stored is Present;
            &&& refusal is None == (usable && page is Ok && !closing)
            &&& !permit ==> refusal == Some(
                RequestErrorView::Internal(
                    "failed to acquire thread list state permit for running thread resume"@,
                ),
            )
            &&& permit && stored is Missing ==> refusal == Some(
                RequestErrorView::Internal(
                    "running thread resume did not include persisted history"@,
                ),
            )
            &&& permit ==> (stored matches StoredHistory::Failed(error) ==> refusal == Some(
                RequestErrorView::Internal(
                    "failed to refresh running thread history for resume: "@ + error@,
                ),
            ))
            &&& usable && page is Err ==> refusal == Some(page->Err_0)
            &&& usable && page is Ok && closing ==> refusal == Some(
                RequestErrorView::InvalidRequest(
                    "thread "@ + name
                        + " is closing; retry thread/resume after the thread is closed"@,
                ),
            )
            &&& resume_check(permit, stored) is Ok == usable
        }),
{
}

/// A refusal names the thread that it is about.
pub proof fn lemma_refusals_name_the_thread(a: Seq<char>, b: Seq<char>)
    ensures
        not_found_message(a) == "thread not found: "@ + a,
        closing_message(a) == "thread "@ + a + " is closing; retry after the thread is closed"@,
        not_found_message(a) == not_found_message(b) ==> a == b,
{
    let head = "thread not found: "@;
    assert((head + a).skip(head.len() as int) =~= a);
    assert((head + b).skip(head.len() as int) =~= b);
}

/// What is redacted for a client that asks for it: the turns, and the first page where there is one;
/// never what the token usage is replayed from. Nothing is redacted for a client that does not ask.
pub proof fn lemma_redaction_is_asked_for(redact: bool, has_page: bool)
    ensures
        redaction_of(redact, has_page).turns == redact,
        redaction_of(redact, has_page).page == (redact && has_page),
        !redaction_of(redact, has_page).usage,
{
}

/// A command of a listener becomes one action: a goal or a resolved request is told with the thread's
/// name and what the command holds, a resume answered, a goal read. None of these touches a card. A
/// card to show anew is announced as it is.
pub proof fn lemma_commands_become_actions(
    before: RetainedManagerView,
    after: RetainedManagerView,
    r: CommandAction,
    thread_id: ThreadId,
    name: Seq<char>,
    command: ThreadListenerCommand,
)
    requires
        is_handled(before, after, r, thread_id, name, command),
    ensures
        !(command is Card) ==> after == before && !(r is Cards),
        command is SendThreadResumeResponse ==> r is AnswerResume,
        command is EmitThreadGoalSnapshot ==> r is ReadGoal,
        command is EmitThreadGoalCleared ==> r is TellGoal && r->TellGoal_0@ == (
        GoalNotificationView::Cleared { cleared_thread_id: name }),
        command matches ThreadListenerCommand::EmitThreadGoalUpdated { turn_id, goal } ==> r
            is TellGoal && r->TellGoal_0@ is Updated && r->TellGoal_0@->thread_id == name
            && r->TellGoal_0@->goal == goal@ && (turn_id is Some
            == r->TellGoal_0@->Updated_turn_id is Some) && (turn_id is Some
            ==> r->TellGoal_0@->Updated_turn_id->0 == turn_id->0@),
        command matches ThreadListenerCommand::ResolveServerRequest { request_id } ==> (r matches
            CommandAction::TellResolved { thread_id: told, request_id: resolved } && told@ == name
            && resolved@ == request_id@),
        command is Card ==> r is Cards,
        command matches ThreadListenerCommand::Card(card) ==> (card@ matches
            RetainedCommandView::EmitSpineUiInvalidation { turn_id, card } ==> after == before
            && started_view(r->Cards_0.started) == upsert_of(name, turn_id, card)
            && r->Cards_0.completed@.len() == 0 && r->Cards_0.sent@.len() == 0),
{
}

/// A walk over the ancestors reads each parent that it has not seen, notes it, and climbs to it with
/// the parent that was read of it; it stops without a parent, and a parent it has seen is a cycle.
pub proof fn lemma_walk_climbs(w: WalkView, grandparent: Option<ThreadId>, t: ThreadId)
    ensures
        w.parent is None ==> w.next_step() is Done && w.after_step() == w && w.climbed(grandparent)
            == w,
        w.parent matches Some(parent) ==> {
            &&& w.visited.contains(parent) ==> w.next_step() == WalkStep::Cyclic(parent)
            &&& !w.visited.contains(parent) ==> w.next_step() == WalkStep::Read(parent)
            &&& w.after_step().visited.contains(t) == (w.visited.contains(t) || t == parent)
            &&& w.after_step().child == w.child && w.after_step().parent == w.parent
            &&& w.climbed(grandparent).child == parent
            &&& w.climbed(grandparent).parent == grandparent
            &&& w.climbed(grandparent).visited == w.visited
        },
{
}

/// Stored cards come back one by one, in order.
pub proof fn lemma_stored_cards_come_back_in_order(
    m: RetainedManagerView,
    parent: ThreadId,
    cards: Seq<CardView>,
    card: CardView,
)
    ensures
        m.with_all_restored(parent, Seq::empty()) == m,
        m.with_all_restored(parent, cards.push(card)) == m.with_all_restored(
            parent,
            cards,
        ).with_restored(parent, card.turn_id, card.state),
{
    assert(cards.push(card).drop_last() =~= cards);
}

/// A completed card that changed is told of as completed, for its turn, at the time it completed; one
/// that has no such time is dated now. One without a tree is not told of.
pub proof fn lemma_completed_card_is_told_as_completed(
    update: UpdateView,
    name: Seq<char>,
    now: i64,
)
    ensures
        ({
            let told = completed_update_of(update, name, now);
            &&& told is Some == update.state.snapshot is Some
            &&& told matches Some(c) ==> {
                &&& c.thread_id == name && c.turn_id == update.turn_id
                &&& update.state.completed_at_ms is Some ==> Some(c.completed_at_ms)
                    == update.state.completed_at_ms
                &&& update.state.completed_at_ms is None ==> c.completed_at_ms == now
                &&& Some(c.item) == item_of(
                    update.turn_id,
                    update.state,
                    McpToolCallStatus::Completed,
                    Some(OutcomeView::Completed),
                )
            }
        }),
{
}

/// Names are ordered by their first difference, and a beginning comes before what it begins.
pub proof fn lemma_names_are_ordered_by_their_first_difference(
    common: Seq<char>,
    a: Seq<char>,
    b: Seq<char>,
)
    ensures
        precedes(common + a, common + b) == precedes(a, b),
        b.len() > 0 ==> precedes(Seq::empty(), b),
        !precedes(a, Seq::empty()),
        a.len() > 0 && b.len() > 0 && a[0] != b[0] ==> precedes(a, b) == (a[0] < b[0]),
    decreases common.len(),
{
    if common.len() > 0 {
        let rest = common.drop_first();
        lemma_names_are_ordered_by_their_first_difference(rest, a, b);
        assert((common + a).drop_first() =~= rest + a);
        assert((common + b).drop_first() =~= rest + b);
    } else {
        assert(common + a =~= a);
        assert(common + b =~= b);
    }
}

/// A list of names ascends where each comes before every later one.
pub proof fn lemma_ascending_names_stand_in_order(names: Seq<Seq<char>>, i: int, j: int)
    requires
        ascending(names),
        0 <= i < j < names.len(),
    ensures
        precedes(names[i], names[j]),
        names[i] != names[j],
{
    crate::names::lemma_precedes_irreflexive(names[i]);
}

} // verus!
