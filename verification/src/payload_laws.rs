//! What clients get to see of a card: the payload, the item that carries it and its notifications.
use crate::agents::lemma_agent_position;
use crate::card::{
    item_of, terminal_of, upsert_of, McpToolCallStatus, OutcomeView, ITEM_ID_PREFIX,
};
use crate::mcp::{RESOURCE_URI, SERVER_NAME, TOOL_NAME};
use crate::protocol::{AgentStatusView, NodeView, SpineTreeNodeKind, ThreadId, TurnAbortReason};
use crate::render::{
    all_tasks, lists_agent, RenderAgentStatus, RenderAgentSubtreeView, RenderNodeView,
    RenderSpawnTaskView, SCHEMA_VERSION,
};
use crate::snapshot_laws::works_on;
use crate::state::{SpawnCallView, SpawnTaskView, StateView};
use crate::text::decimal;
use vstd::prelude::*;

verus! {

/// Whether a rendered node is a node of the tree.
pub open spec fn draws_node(node: NodeView, drawn: RenderNodeView) -> bool {
    drawn.node_id == node.node_id && drawn.parent_id == node.parent_id && drawn.kind == node.kind
        && drawn.status == node.status && drawn.summary == node.summary && drawn.spawn_outcome
        == node.spawn_outcome && drawn.start == node.start
}

/// Whether a rendered status stands for a status.
pub open spec fn draws_status(status: AgentStatusView, drawn: RenderAgentStatus) -> bool {
    &&& (drawn == RenderAgentStatus::Pending) == (status is PendingInit)
    &&& (drawn == RenderAgentStatus::Running) == (status is Running)
    &&& (drawn == RenderAgentStatus::Interrupted) == (status is Interrupted)
    &&& (drawn == RenderAgentStatus::Completed) == (status is Completed)
    &&& (drawn == RenderAgentStatus::Error) == (status is Errored)
    &&& (drawn == RenderAgentStatus::Shutdown) == (status is Shutdown)
    &&& (drawn == RenderAgentStatus::NotFound) == (status is NotFound)
}

/// Whether a rendered task is a task of a call.
pub open spec fn draws_task(task: SpawnTaskView, drawn: RenderSpawnTaskView) -> bool {
    drawn.ordinal == task.progress.ordinal && drawn.summary == task.progress.summary
        && drawn.thread_id == task.progress.thread_id && drawn.result_node_id
        == task.result_node_id && draws_status(task.progress.status, drawn.status)
}

/// Whether a tree has a node, other than a root epoch, with an identifier.
pub open spec fn has_branch(nodes: Seq<NodeView>, node_id: Seq<char>) -> bool {
    exists|i: int|
        0 <= i < nodes.len() && (#[trigger] nodes[i]).node_id == node_id && nodes[i].kind
            != SpineTreeNodeKind::RootEpoch
}

/// The payload of a card is there once the card has a tree. It holds the card's revision, the active
/// node, every node of the tree with its parent, and every call with its tasks, all in order. A call
/// hangs under its node where the tree shows it as a branch, else at the root.
pub proof fn lemma_payload_draws_the_card(s: StateView)
    ensures
        s.rendered() is Some == s.snapshot is Some,
        s.snapshot matches Some(tree) ==> {
            let payload = s.rendered()->0;
            &&& payload.schema_version == SCHEMA_VERSION
            &&& payload.ui_revision == s.revision
            &&& payload.snapshot.active_node_id == tree.active_node_id
            &&& payload.snapshot.nodes.len() == tree.nodes.len()
            &&& forall|i: int|
                0 <= i < tree.nodes.len() ==> draws_node(
                    tree.nodes[i],
                    #[trigger] payload.snapshot.nodes[i],
                )
            &&& payload.spawn_calls.len() == s.spawn_calls.len()
            &&& forall|i: int|
                0 <= i < s.spawn_calls.len() ==> {
                    let call = s.spawn_calls[i];
                    let drawn = #[trigger] payload.spawn_calls[i];
                    &&& drawn.call_id == call.call_id
                    &&& drawn.tasks.len() == call.tasks.len()
                    &&& forall|j: int|
                        0 <= j < call.tasks.len() ==> draws_task(
                            call.tasks[j],
                            #[trigger] drawn.tasks[j],
                        )
                    &&& drawn.parent_node_id is Some ==> drawn.parent_node_id
                        == call.parent_node_id
                    &&& call.parent_node_id is Some ==> (drawn.parent_node_id is Some) == has_branch(
                        tree.nodes,
                        call.parent_node_id->0,
                    )
                }
            &&& payload.terminal_outcome is None
            &&& payload.terminal_reason is None
        },
{
}

/// Whether a task is of some call.
spec fn is_task_of(calls: Seq<SpawnCallView>, task: SpawnTaskView) -> bool {
    exists|i: int, j: int|
        0 <= i < calls.len() && 0 <= j < calls[i].tasks.len() && (#[trigger] calls[i].tasks[j])
            == task
}

/// Every task of a call is among all tasks, and every one of all tasks is of a call.
proof fn lemma_all_tasks(calls: Seq<SpawnCallView>)
    ensures
        forall|i: int, j: int|
            0 <= i < calls.len() && 0 <= j < calls[i].tasks.len() ==> all_tasks(calls).contains(
                #[trigger] calls[i].tasks[j],
            ),
        forall|k: int|
            0 <= k < all_tasks(calls).len() ==> is_task_of(calls, #[trigger] all_tasks(calls)[k]),
    decreases calls.len(),
{
    if calls.len() > 0 {
        let rest = calls.drop_last();
        lemma_all_tasks(rest);
        let all = all_tasks(calls);
        let early = all_tasks(rest);
        let last = calls.last().tasks;
        assert forall|i: int, j: int|
            0 <= i < calls.len() && 0 <= j < calls[i].tasks.len() implies all.contains(
            #[trigger] calls[i].tasks[j],
        ) by {
            if i < rest.len() {
                assert(rest[i] == calls[i]);
                assert(early.contains(rest[i].tasks[j]));
                let k = choose|k: int| 0 <= k < early.len() && early[k] == rest[i].tasks[j];
                assert(all[k] == calls[i].tasks[j]);
            } else {
                assert(all[early.len() + j] == calls[i].tasks[j]);
            }
        }
        assert forall|k: int| 0 <= k < all.len() implies is_task_of(calls, #[trigger] all[k]) by {
            if k < early.len() {
                assert(is_task_of(rest, early[k]));
                let (i, j) = choose|i: int, j: int|
                    0 <= i < rest.len() && 0 <= j < rest[i].tasks.len() && (
                    #[trigger] rest[i].tasks[j]) == early[k];
                assert(calls[i].tasks[j] == all[k]);
            } else {
                let i = calls.len() - 1;
                assert(calls[i].tasks[k - early.len()] == all[k]);
            }
        }
    }
}

/// Which subtrees are rendered for a list of tasks.
proof fn lemma_drawn_agents(s: StateView, tasks: Seq<SpawnTaskView>)
    ensures
        ({
            let drawn = s.rendered_agents(tasks);
            &&& forall|k: int|
                0 <= k < drawn.len() ==> (exists|m: int|
                    0 <= m < tasks.len() && (#[trigger] tasks[m]).progress.thread_id == (
                    #[trigger] drawn[k]).thread_id) && s.agent(drawn[k].thread_id) is Some
                    && s.agent(drawn[k].thread_id)->0.state.rendered() == Some(drawn[k].content)
            &&& forall|k: int, l: int|
                0 <= k < l < drawn.len() ==> (#[trigger] drawn[k]).thread_id != (
                #[trigger] drawn[l]).thread_id
            &&& forall|m: int|
                0 <= m < tasks.len() && s.agent((#[trigger] tasks[m]).progress.thread_id) is Some
                    && s.agent(tasks[m].progress.thread_id)->0.state.rendered() is Some
                    ==> lists_agent(drawn, tasks[m].progress.thread_id)
        }),
    decreases tasks.len(),
{
    if tasks.len() > 0 {
        let rest = tasks.drop_last();
        lemma_drawn_agents(s, rest);
        let before = s.rendered_agents(rest);
        let drawn = s.rendered_agents(tasks);
        let thread_id = tasks.last().progress.thread_id;
        lemma_agent_position(s.agents, thread_id);
        assert(tasks[tasks.len() - 1].progress.thread_id == thread_id);
        assert forall|k: int| 0 <= k < drawn.len() implies exists|m: int|
            0 <= m < tasks.len() && (#[trigger] tasks[m]).progress.thread_id == (
            #[trigger] drawn[k]).thread_id by {
            if k < before.len() {
                assert(drawn[k] == before[k]);
                let m = choose|m: int|
                    0 <= m < rest.len() && (#[trigger] rest[m]).progress.thread_id
                        == before[k].thread_id;
                assert(tasks[m].progress.thread_id == drawn[k].thread_id);
            }
        }
        assert forall|t: ThreadId| lists_agent(before, t) implies #[trigger] lists_agent(
            drawn,
            t,
        ) by {
            let k = choose|k: int| 0 <= k < before.len() && (#[trigger] before[k]).thread_id == t;
            assert(drawn[k].thread_id == t);
        }
        assert forall|m: int|
            0 <= m < tasks.len() && s.agent((#[trigger] tasks[m]).progress.thread_id) is Some
                && s.agent(tasks[m].progress.thread_id)->0.state.rendered() is Some implies lists_agent(
            drawn,
            tasks[m].progress.thread_id,
        ) by {
            if m < rest.len() {
                assert(rest[m] == tasks[m]);
            } else if !lists_agent(before, thread_id) {
                assert(drawn[before.len() as int].thread_id == thread_id);
            }
        }
    }
}

/// The payload nests exactly the cards of the agents that the card's tasks run on and that have
/// something to show, each thread once, and each with the payload of the card that it has here.
pub proof fn lemma_payload_nests_the_agents(s: StateView, thread_id: ThreadId)
    requires
        s.snapshot is Some,
    ensures
        ({
            let nested = s.rendered()->0.agent_subtrees;
            &&& forall|k: int, l: int|
                0 <= k < l < nested.len() ==> (#[trigger] nested[k]).thread_id != (
                #[trigger] nested[l]).thread_id
            &&& forall|k: int|
                0 <= k < nested.len() && (#[trigger] nested[k]).thread_id == thread_id
                    ==> works_on(s.spawn_calls, thread_id) && s.agent(thread_id) is Some
                    && s.agent(thread_id)->0.state.rendered() == Some(nested[k].content)
            &&& works_on(s.spawn_calls, thread_id) && s.agent(thread_id) is Some && s.agent(
                thread_id,
            )->0.state.snapshot is Some ==> exists|k: int|
                0 <= k < nested.len() && (#[trigger] nested[k]).thread_id == thread_id
        }),
{
    let tasks = all_tasks(s.spawn_calls);
    let nested = s.rendered()->0.agent_subtrees;
    lemma_all_tasks(s.spawn_calls);
    lemma_drawn_agents(s, tasks);
    assert forall|k: int|
        0 <= k < nested.len() && (#[trigger] nested[k]).thread_id == thread_id implies works_on(
        s.spawn_calls,
        thread_id,
    ) by {
        let m = choose|m: int|
            0 <= m < tasks.len() && (#[trigger] tasks[m]).progress.thread_id
                == nested[k].thread_id;
        assert(is_task_of(s.spawn_calls, tasks[m]));
        let (i, j) = choose|i: int, j: int|
            0 <= i < s.spawn_calls.len() && 0 <= j < s.spawn_calls[i].tasks.len() && (
            #[trigger] s.spawn_calls[i].tasks[j]) == tasks[m];
        assert(s.spawn_calls[i].tasks[j].progress.thread_id == thread_id);
    }
    if works_on(s.spawn_calls, thread_id) && s.agent(thread_id) is Some && s.agent(
        thread_id,
    )->0.state.snapshot is Some {
        let (i, j) = choose|i: int, j: int|
            0 <= i < s.spawn_calls.len() && 0 <= j < s.spawn_calls[i].tasks.len() && (
            #[trigger] s.spawn_calls[i].tasks[j]).progress.thread_id == thread_id;
        assert(tasks.contains(s.spawn_calls[i].tasks[j]));
        let m = choose|m: int| 0 <= m < tasks.len() && tasks[m] == s.spawn_calls[i].tasks[j];
        assert(tasks[m].progress.thread_id == thread_id);
        lemma_payload_draws_the_card(s.agent(thread_id)->0.state);
        assert(lists_agent(nested, thread_id));
    }
}

/// The nested cards stand in the order of the tasks: one more task leaves what was nested as it is, and
/// adds at most the card of its own agent, behind all others.
pub proof fn lemma_payload_nests_in_the_order_of_the_tasks(
    s: StateView,
    tasks: Seq<SpawnTaskView>,
    task: SpawnTaskView,
    calls: Seq<SpawnCallView>,
    call: SpawnCallView,
)
    ensures
        s.snapshot is Some ==> s.rendered()->0.agent_subtrees == s.rendered_agents(
            all_tasks(s.spawn_calls),
        ),
        all_tasks(Seq::empty()) == Seq::<SpawnTaskView>::empty(),
        all_tasks(calls.push(call)) == all_tasks(calls) + call.tasks,
        s.rendered_agents(Seq::empty()) == Seq::<RenderAgentSubtreeView>::empty(),
        ({
            let before = s.rendered_agents(tasks);
            let after = s.rendered_agents(tasks.push(task));
            &&& before.len() <= after.len() <= before.len() + 1
            &&& after.take(before.len() as int) == before
            &&& after.len() > before.len() ==> after.last().thread_id == task.progress.thread_id
        }),
{
    assert(calls.push(call).drop_last() =~= calls);
    assert(tasks.push(task).drop_last() =~= tasks);
    let before = s.rendered_agents(tasks);
    let after = s.rendered_agents(tasks.push(task));
    assert(after.take(before.len() as int) =~= before);
}

/// Whether two statuses are the same but for their messages.
pub open spec fn same_kind(a: AgentStatusView, b: AgentStatusView) -> bool {
    (a is PendingInit == b is PendingInit) && (a is Running == b is Running) && (a is Interrupted
        == b is Interrupted) && (a is Completed == b is Completed) && (a is Errored == b is Errored)
        && (a is Shutdown == b is Shutdown) && (a is NotFound == b is NotFound)
}

/// Two cards with the same payload show the same: revision, active node, and, one by one and in
/// order, the same nodes under the same parents and the same calls with the same tasks.
pub proof fn lemma_payload_tells_cards_apart(a: StateView, b: StateView)
    requires
        a.snapshot is Some,
        b.snapshot is Some,
        a.rendered() == b.rendered(),
    ensures
        a.revision == b.revision,
        a.snapshot->0.active_node_id == b.snapshot->0.active_node_id,
        a.snapshot->0.nodes.len() == b.snapshot->0.nodes.len(),
        forall|i: int|
            #![trigger a.snapshot->0.nodes[i]]
            0 <= i < a.snapshot->0.nodes.len() ==> {
                let x = a.snapshot->0.nodes[i];
                let y = b.snapshot->0.nodes[i];
                x.node_id == y.node_id && x.parent_id == y.parent_id && x.kind == y.kind
                    && x.status == y.status && x.summary == y.summary && x.spawn_outcome
                    == y.spawn_outcome && x.start == y.start
            },
        a.spawn_calls.len() == b.spawn_calls.len(),
        forall|i: int|
            #![trigger a.spawn_calls[i]]
            0 <= i < a.spawn_calls.len() ==> a.spawn_calls[i].call_id == b.spawn_calls[i].call_id
                && a.spawn_calls[i].tasks.len() == b.spawn_calls[i].tasks.len(),
        forall|i: int, j: int|
            #![trigger a.spawn_calls[i].tasks[j]]
            0 <= i < a.spawn_calls.len() && 0 <= j < a.spawn_calls[i].tasks.len() ==> {
                let x = a.spawn_calls[i].tasks[j];
                let y = b.spawn_calls[i].tasks[j];
                x.progress.ordinal == y.progress.ordinal && x.progress.summary
                    == y.progress.summary && x.progress.thread_id == y.progress.thread_id
                    && x.result_node_id == y.result_node_id && same_kind(
                    x.progress.status,
                    y.progress.status,
                )
            },
{
    lemma_payload_draws_the_card(a);
    lemma_payload_draws_the_card(b);
    let payload = a.rendered()->0;
    assert forall|i: int|
        #![trigger a.snapshot->0.nodes[i]]
        0 <= i < a.snapshot->0.nodes.len() implies {
        let x = a.snapshot->0.nodes[i];
        let y = b.snapshot->0.nodes[i];
        x.node_id == y.node_id && x.parent_id == y.parent_id && x.kind == y.kind && x.status
            == y.status && x.summary == y.summary && x.spawn_outcome == y.spawn_outcome && x.start
            == y.start
    } by {
        assert(draws_node(a.snapshot->0.nodes[i], payload.snapshot.nodes[i]));
        assert(draws_node(b.snapshot->0.nodes[i], payload.snapshot.nodes[i]));
    }
    assert forall|i: int|
        #![trigger a.spawn_calls[i]]
        0 <= i < a.spawn_calls.len() implies a.spawn_calls[i].call_id == b.spawn_calls[i].call_id
        && a.spawn_calls[i].tasks.len() == b.spawn_calls[i].tasks.len() by {
        assert(payload.spawn_calls[i].call_id == a.spawn_calls[i].call_id);
    }
    assert forall|i: int, j: int|
        #![trigger a.spawn_calls[i].tasks[j]]
        0 <= i < a.spawn_calls.len() && 0 <= j < a.spawn_calls[i].tasks.len() implies {
        let x = a.spawn_calls[i].tasks[j];
        let y = b.spawn_calls[i].tasks[j];
        x.progress.ordinal == y.progress.ordinal && x.progress.summary == y.progress.summary
            && x.progress.thread_id == y.progress.thread_id && x.result_node_id
            == y.result_node_id && same_kind(x.progress.status, y.progress.status)
    } by {
        assert(payload.spawn_calls[i].call_id == a.spawn_calls[i].call_id);
        assert(draws_task(a.spawn_calls[i].tasks[j], payload.spawn_calls[i].tasks[j]));
        assert(draws_task(b.spawn_calls[i].tasks[j], payload.spawn_calls[i].tasks[j]));
    }
}

/// The item of a card carries the card's payload, with the end of the turn written in where it has
/// ended, under the identity of its turn and with the status that it was asked for. It is an error
/// exactly where the turn did not complete; its text is then the error, else the number of the tree.
pub proof fn lemma_item_carries_the_payload(
    turn_id: Seq<char>,
    s: StateView,
    status: McpToolCallStatus,
    outcome: Option<OutcomeView>,
)
    ensures
        item_of(turn_id, s, status, outcome) is Some == s.snapshot is Some,
        item_of(turn_id, s, status, outcome) matches Some(item) ==> {
            let content = item.result.structured_content;
            let plain = s.rendered()->0;
            &&& item.id == ITEM_ID_PREFIX@ + turn_id
            &&& item.result.widget_session_id == item.id
            &&& item.server == SERVER_NAME@
            &&& item.connector_id == SERVER_NAME@
            &&& item.tool == TOOL_NAME@
            &&& item.action_name == TOOL_NAME@
            &&& item.app_name == "Spine UI"@
            &&& item.mcp_app_resource_uri == RESOURCE_URI@
            &&& item.result.resource_uri == RESOURCE_URI@
            &&& item.status == status
            &&& content.ui_revision == plain.ui_revision
            &&& content.schema_version == plain.schema_version
            &&& content.snapshot == plain.snapshot
            &&& content.spawn_calls == plain.spawn_calls
            &&& content.agent_subtrees == plain.agent_subtrees
            &&& item.result.is_error == (outcome is Some && !(outcome->0 is Completed))
            &&& outcome is None ==> content.terminal_outcome is None && content.terminal_reason
                is None
            &&& outcome matches Some(end) ==> {
                &&& end is Completed ==> content.terminal_outcome == Some("completed"@)
                    && content.terminal_reason is None
                &&& end is Aborted ==> content.terminal_outcome == Some("aborted"@)
                    && content.terminal_reason is Some
                &&& end is ListenerFailed ==> content.terminal_outcome == Some("failed"@)
                    && content.terminal_reason == Some("listener_error"@)
                &&& end matches OutcomeView::ListenerFailed(error) ==> item.result.text
                    == "Spine listener stopped unexpectedly: "@ + error
                &&& end matches OutcomeView::Aborted(reason) ==> item.result.text
                    == "Spine turn aborted: "@ + content.terminal_reason->0
            }
            &&& outcome is None || outcome->0 is Completed ==> item.result.text
                == "Spine snapshot "@ + decimal(s.snapshot->0.snapshot_seq as nat)
        },
{
}

/// Every reason to abort a turn has its own name in the payload.
pub proof fn lemma_abort_reasons_are_named(reason: TurnAbortReason)
    ensures
        ({
            let name = OutcomeView::Aborted(reason).reason();
            &&& reason == TurnAbortReason::Interrupted ==> name == Some("interrupted"@)
            &&& reason == TurnAbortReason::Replaced ==> name == Some("replaced"@)
            &&& reason == TurnAbortReason::ReviewEnded ==> name == Some("review_ended"@)
            &&& reason == TurnAbortReason::BudgetLimited ==> name == Some("budget_limited"@)
        }),
{
}

/// A card is announced once it has a tree and a start: as in progress, without an end, from its
/// start. It is ended once it has a tree and a completion time: with the status and the end of its
/// turn, at that time.
pub proof fn lemma_cards_are_announced(
    thread_id: Seq<char>,
    turn_id: Seq<char>,
    s: StateView,
    outcome: OutcomeView,
)
    ensures
        upsert_of(thread_id, turn_id, s) is Some == (s.snapshot is Some && s.started_at_ms
            is Some),
        upsert_of(thread_id, turn_id, s) matches Some(started) ==> {
            &&& started.thread_id == thread_id
            &&& started.turn_id == turn_id
            &&& Some(started.started_at_ms) == s.started_at_ms
            &&& Some(started.item) == item_of(turn_id, s, McpToolCallStatus::InProgress, None)
        },
        terminal_of(thread_id, turn_id, s, outcome) is Some == (s.snapshot is Some
            && s.completed_at_ms is Some),
        terminal_of(thread_id, turn_id, s, outcome) matches Some(ended) ==> {
            &&& ended.thread_id == thread_id
            &&& ended.turn_id == turn_id
            &&& Some(ended.completed_at_ms) == s.completed_at_ms
            &&& Some(ended.item) == item_of(
                turn_id,
                s,
                if outcome is Completed {
                    McpToolCallStatus::Completed
                } else {
                    McpToolCallStatus::Failed
                },
                Some(outcome),
            )
        },
{
}

} // verus!
