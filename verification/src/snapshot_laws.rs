//! What a tree snapshot does to a card, seen from outside.
use crate::protocol::{AgentStatusView, NodeView, SpineSpawnOutcome, ThreadId, TreeUpdateView};
use crate::snapshot::{
    anchored, lemma_result_position, result_position, results_of_calls, results_of_tasks,
    settled_calls, settled_task, settled_tasks, spawned,
};
use crate::state::{AgentSubtreeView, SpawnCallView, SpawnTaskView, StateView};
use vstd::prelude::*;

verus! {

/// A snapshot is news where the card has no tree, or an older one, or another one of the same
/// number. The card then shows it; any other snapshot leaves the card as it is. So a card never goes
/// back to a tree with a smaller number.
pub proof fn lemma_card_shows_the_newest_tree(s: StateView, snapshot: TreeUpdateView, now: i64)
    ensures
        ({
            let after = s.with_snapshot(snapshot, now);
            &&& s.snapshot is None ==> after.snapshot == Some(snapshot)
            &&& s.snapshot matches Some(current) ==> {
                &&& snapshot.snapshot_seq < current.snapshot_seq ==> after == s
                &&& snapshot == current ==> after == s
                &&& snapshot.snapshot_seq >= current.snapshot_seq ==> after.snapshot == Some(
                    snapshot,
                )
            }
        }),
{
}

/// What a snapshot leaves as it is, and what it sets beside the tree: the first record dates the
/// card, and every change counts.
pub proof fn lemma_snapshot_dates_the_card(s: StateView, snapshot: TreeUpdateView, now: i64)
    requires
        s.snapshot is None || (snapshot.snapshot_seq >= s.snapshot->0.snapshot_seq && snapshot
            != s.snapshot->0),
    ensures
        ({
            let after = s.with_snapshot(snapshot, now);
            &&& after.started_at_ms == Some(
                if s.started_at_ms is Some {
                    s.started_at_ms->0
                } else {
                    now
                },
            )
            &&& after.completed_at_ms == s.completed_at_ms
            &&& s.revision < u64::MAX ==> after.revision == s.revision + 1
            &&& s.revision == u64::MAX ==> after.revision == s.revision
        }),
{
}

/// Whether a node is a spawn result that a task under a parent can be linked to.
pub open spec fn answers(node: NodeView, parent: Option<Seq<char>>, summary: Seq<char>) -> bool {
    node.spawn_outcome is Some && node.parent_id == parent && node.summary == Some(summary)
}

/// Whether some task of some calls is linked to a node.
pub open spec fn linked_to(calls: Seq<SpawnCallView>, node_id: Seq<char>) -> bool {
    exists|i: int, j: int|
        0 <= i < calls.len() && 0 <= j < calls[i].tasks.len() && (
        #[trigger] calls[i].tasks[j]).result_node_id == Some(node_id)
}

/// Whether a status awaits an end.
pub open spec fn is_open(status: AgentStatusView) -> bool {
    status == AgentStatusView::PendingInit || status == AgentStatusView::Running
}

/// Whether a task was linked to a node: it holds the node, and the node's outcome gave an open task
/// its status.
pub open spec fn linked(before: SpawnTaskView, after: SpawnTaskView, node: NodeView) -> bool {
    let was = before.progress.status;
    let is = after.progress.status;
    &&& after.result_node_id == Some(node.node_id)
    &&& !is_open(was) ==> is == was
    &&& is_open(was) ==> {
        &&& (is is Completed) == (node.spawn_outcome == Some(SpineSpawnOutcome::Completed))
        &&& (is is Errored) == (node.spawn_outcome == Some(SpineSpawnOutcome::Errored))
        &&& (is is Interrupted) == (node.spawn_outcome == Some(SpineSpawnOutcome::Aborted))
        &&& is is Completed ==> is == AgentStatusView::Completed(None)
        &&& is matches AgentStatusView::Errored(message) ==> (node.memory_summary is Some
            ==> message == node.memory_summary->0) && (node.memory_summary is None ==> message
            == "Agent failed"@)
    }
}

/// Whether every node before a position that could answer a task is held by another one.
pub open spec fn first_free(
    nodes: Seq<NodeView>,
    k: int,
    parent: Option<Seq<char>>,
    summary: Seq<char>,
    held: Set<Seq<char>>,
) -> bool {
    forall|m: int|
        0 <= m < k && answers(#[trigger] nodes[m], parent, summary) ==> held.contains(
            nodes[m].node_id,
        )
}

/// Whether a task names the same work as another.
pub open spec fn same_work(a: SpawnTaskView, b: SpawnTaskView) -> bool {
    a.progress.ordinal == b.progress.ordinal && a.progress.summary == b.progress.summary
        && a.progress.thread_id == b.progress.thread_id && a.progress.agent_path
        == b.progress.agent_path
}

/// What linking does to the tasks of one settled call.
proof fn lemma_linked_tasks(
    tasks: Seq<SpawnTaskView>,
    parent: Option<Seq<char>>,
    nodes: Seq<NodeView>,
    claimed: Set<Seq<char>>,
)
    ensures
        ({
            let out = settled_tasks(tasks, parent, nodes, claimed);
            &&& out.len() == tasks.len()
            &&& forall|j: int|
                0 <= j < tasks.len() ==> same_work(tasks[j], #[trigger] out[j]) && (
                tasks[j].result_node_id is Some ==> out[j] == tasks[j])
            &&& forall|j: int|
                0 <= j < tasks.len() && tasks[j].result_node_id is None && (
                #[trigger] out[j]).result_node_id is None ==> out[j] == tasks[j]
            &&& forall|j: int|
                0 <= j < tasks.len() && tasks[j].result_node_id is None && (
                #[trigger] out[j]).result_node_id is Some ==> exists|k: int|
                    0 <= k < nodes.len() && answers(
                        #[trigger] nodes[k],
                        parent,
                        tasks[j].progress.summary,
                    ) && linked(tasks[j], out[j], nodes[k]) && first_free(
                        nodes,
                        k,
                        parent,
                        tasks[j].progress.summary,
                        claimed.union(results_of_tasks(out)),
                    )
            &&& forall|j: int, k: int|
                #![trigger out[j], nodes[k]]
                0 <= j < tasks.len() && out[j].result_node_id is None && 0 <= k < nodes.len()
                    && answers(nodes[k], parent, tasks[j].progress.summary) ==> claimed.contains(
                    nodes[k].node_id,
                ) || results_of_tasks(out).contains(nodes[k].node_id)
        }),
    decreases tasks.len(),
{
    if tasks.len() > 0 {
        let rest = tasks.drop_last();
        lemma_linked_tasks(rest, parent, nodes, claimed);
        let before = settled_tasks(rest, parent, nodes, claimed);
        let out = settled_tasks(tasks, parent, nodes, claimed);
        let taken = claimed.union(results_of_tasks(before));
        let last = tasks.last();
        let n = tasks.len() - 1;
        lemma_result_position(nodes, parent, last.progress.summary, taken);
        let at = result_position(nodes, parent, last.progress.summary, taken);
        assert forall|j: int| 0 <= j < n implies #[trigger] out[j] == before[j] && rest[j]
            == tasks[j] by {}
        assert forall|id: Seq<char>| results_of_tasks(before).contains(id) implies #[trigger]
            results_of_tasks(out).contains(id) by {
            let j = choose|j: int|
                0 <= j < before.len() && (#[trigger] before[j]).result_node_id == Some(id);
            assert(out[j].result_node_id == Some(id));
        }
        if last.result_node_id is None && at < nodes.len() {
            assert(answers(nodes[at], parent, last.progress.summary));
            assert(linked(last, out[n], nodes[at]));
        }
        assert forall|j: int, k: int|
            #![trigger out[j], nodes[k]]
            0 <= j < tasks.len() && out[j].result_node_id is None && 0 <= k < nodes.len()
                && answers(nodes[k], parent, tasks[j].progress.summary) implies claimed.contains(
            nodes[k].node_id,
        ) || results_of_tasks(out).contains(nodes[k].node_id) by {
            if j < n {
                assert(before[j].result_node_id is None);
                assert(rest[j] == tasks[j]);
            } else {
                assert(taken.contains(nodes[k].node_id));
            }
        }
        assert forall|j: int|
            0 <= j < tasks.len() && tasks[j].result_node_id is None && (
            #[trigger] out[j]).result_node_id is Some implies exists|k: int|
            0 <= k < nodes.len() && answers(
                #[trigger] nodes[k],
                parent,
                tasks[j].progress.summary,
            ) && linked(tasks[j], out[j], nodes[k]) && first_free(
                nodes,
                k,
                parent,
                tasks[j].progress.summary,
                claimed.union(results_of_tasks(out)),
            ) by {
            if j < n {
                assert(rest[j] == tasks[j]);
                assert(out[j] == before[j]);
                let k = choose|k: int|
                    0 <= k < nodes.len() && answers(
                        #[trigger] nodes[k],
                        parent,
                        rest[j].progress.summary,
                    ) && linked(rest[j], before[j], nodes[k]) && first_free(
                        nodes,
                        k,
                        parent,
                        rest[j].progress.summary,
                        claimed.union(results_of_tasks(before)),
                    );
                assert(answers(nodes[k], parent, tasks[j].progress.summary));
                assert(first_free(
                    nodes,
                    k,
                    parent,
                    tasks[j].progress.summary,
                    claimed.union(results_of_tasks(out)),
                ));
            } else {
                assert(first_free(
                    nodes,
                    at,
                    parent,
                    last.progress.summary,
                    claimed.union(results_of_tasks(out)),
                ));
            }
        }
    }
}

/// Whether a task of a settled call was linked to the first free node that answers it, or there was
/// none. `held` are the nodes that tasks hold afterwards.
pub open spec fn task_is_settled(
    before: SpawnTaskView,
    after: SpawnTaskView,
    parent: Option<Seq<char>>,
    nodes: Seq<NodeView>,
    held: Set<Seq<char>>,
) -> bool {
    &&& same_work(before, after)
    &&& before.result_node_id is Some ==> after == before
    &&& before.result_node_id is None && after.result_node_id is Some ==> exists|k: int|
        0 <= k < nodes.len() && answers(#[trigger] nodes[k], parent, before.progress.summary)
            && linked(before, after, nodes[k]) && first_free(
            nodes,
            k,
            parent,
            before.progress.summary,
            held,
        )
    &&& after.result_node_id is None ==> after == before && first_free(
        nodes,
        nodes.len() as int,
        parent,
        before.progress.summary,
        held,
    )
}

proof fn lemma_held_grows(
    before: SpawnTaskView,
    after: SpawnTaskView,
    parent: Option<Seq<char>>,
    nodes: Seq<NodeView>,
    held: Set<Seq<char>>,
    more: Set<Seq<char>>,
)
    requires
        task_is_settled(before, after, parent, nodes, held),
        held.subset_of(more),
    ensures
        task_is_settled(before, after, parent, nodes, more),
{
    if before.result_node_id is None && after.result_node_id is Some {
        let k = choose|k: int|
            0 <= k < nodes.len() && answers(#[trigger] nodes[k], parent, before.progress.summary)
                && linked(before, after, nodes[k]) && first_free(
                nodes,
                k,
                parent,
                before.progress.summary,
                held,
            );
        assert(answers(nodes[k], parent, before.progress.summary));
        assert(first_free(nodes, k, parent, before.progress.summary, more));
    }
}

proof fn lemma_linked_calls(
    calls: Seq<SpawnCallView>,
    settled: Set<Seq<char>>,
    nodes: Seq<NodeView>,
    claimed: Set<Seq<char>>,
)
    ensures
        ({
            let out = settled_calls(calls, settled, nodes, claimed);
            let held = claimed.union(results_of_calls(out));
            &&& out.len() == calls.len()
            &&& forall|i: int|
                0 <= i < calls.len() ==> (#[trigger] out[i]).call_id == calls[i].call_id
                    && out[i].parent_node_id == calls[i].parent_node_id && out[i].tasks.len()
                    == calls[i].tasks.len()
            &&& forall|i: int|
                0 <= i < calls.len() && !settled.contains(calls[i].call_id) ==> #[trigger] out[i]
                    == calls[i]
            &&& forall|i: int, j: int|
                #![trigger out[i].tasks[j]]
                0 <= i < calls.len() && 0 <= j < calls[i].tasks.len() && settled.contains(
                    calls[i].call_id,
                ) ==> task_is_settled(
                    calls[i].tasks[j],
                    out[i].tasks[j],
                    calls[i].parent_node_id,
                    nodes,
                    held,
                )
        }),
    decreases calls.len(),
{
    if calls.len() > 0 {
        let rest = calls.drop_last();
        lemma_linked_calls(rest, settled, nodes, claimed);
        let before = settled_calls(rest, settled, nodes, claimed);
        let out = settled_calls(calls, settled, nodes, claimed);
        let call = calls.last();
        let n = calls.len() - 1;
        let taken = claimed.union(results_of_calls(before));
        let held = claimed.union(results_of_calls(out));
        lemma_linked_tasks(call.tasks, call.parent_node_id, nodes, taken);
        assert forall|i: int| 0 <= i < n implies #[trigger] out[i] == before[i] && rest[i]
            == calls[i] by {}
        assert(taken.subset_of(held)) by {
            assert forall|id: Seq<char>| taken.contains(id) implies #[trigger] held.contains(
                id,
            ) by {
                if results_of_calls(before).contains(id) {
                    let i = choose|i: int|
                        0 <= i < before.len() && results_of_tasks(
                            (#[trigger] before[i]).tasks,
                        ).contains(id);
                    assert(results_of_tasks(out[i].tasks).contains(id));
                }
            }
        }
        assert forall|i: int, j: int|
            #![trigger out[i].tasks[j]]
            0 <= i < calls.len() && 0 <= j < calls[i].tasks.len() && settled.contains(
                calls[i].call_id,
            ) implies task_is_settled(
            calls[i].tasks[j],
            out[i].tasks[j],
            calls[i].parent_node_id,
            nodes,
            held,
        ) by {
            if i < n {
                assert(rest[i] == calls[i]);
                assert(out[i] == before[i]);
                assert(task_is_settled(
                    rest[i].tasks[j],
                    before[i].tasks[j],
                    rest[i].parent_node_id,
                    nodes,
                    taken,
                ));
                lemma_held_grows(
                    calls[i].tasks[j],
                    out[i].tasks[j],
                    calls[i].parent_node_id,
                    nodes,
                    taken,
                    held,
                );
            } else {
                let own = taken.union(results_of_tasks(out[n].tasks));
                assert(own.subset_of(held)) by {
                    assert forall|id: Seq<char>| own.contains(id) implies #[trigger] held.contains(
                        id,
                    ) by {
                        if results_of_tasks(out[n].tasks).contains(id) {
                            assert(results_of_calls(out).contains(id));
                        } else {
                            assert(taken.contains(id));
                        }
                    }
                }
                assert(task_is_settled(
                    call.tasks[j],
                    out[n].tasks[j],
                    call.parent_node_id,
                    nodes,
                    own,
                ));
                lemma_held_grows(
                    call.tasks[j],
                    out[n].tasks[j],
                    call.parent_node_id,
                    nodes,
                    own,
                    held,
                );
            }
        }
    }
}

/// A snapshot keeps every call, its work and its links. A call without a parent hangs under the
/// active node from then on. In the calls that are settled, by this snapshot or before, every open
/// task takes the first free result node with its parent and its summary, and the end that the
/// node's outcome stands for; a task without such a node, and every task of another call, stays as
/// it is.
pub proof fn lemma_snapshot_links_results(s: StateView, snapshot: TreeUpdateView, now: i64)
    requires
        s.with_snapshot(snapshot, now) != s,
    ensures
        ({
            let after = s.with_snapshot(snapshot, now);
            let held = Set::new(|id: Seq<char>| linked_to(after.spawn_calls, id));
            &&& after.spawn_calls.len() == s.spawn_calls.len()
            &&& forall|i: int|
                0 <= i < s.spawn_calls.len() ==> {
                    let was = s.spawn_calls[i];
                    let is = #[trigger] after.spawn_calls[i];
                    &&& is.call_id == was.call_id
                    &&& is.tasks.len() == was.tasks.len()
                    &&& was.parent_node_id is Some ==> is.parent_node_id == was.parent_node_id
                    &&& was.parent_node_id is None ==> is.parent_node_id == Some(
                        snapshot.active_node_id,
                    )
                    &&& !s.settled.contains(was.call_id)
                        && !snapshot.settled_spawn_call_ids.contains(was.call_id) ==> is.tasks
                        == was.tasks
                }
            &&& forall|i: int, j: int|
                #![trigger after.spawn_calls[i].tasks[j]]
                0 <= i < s.spawn_calls.len() && 0 <= j < s.spawn_calls[i].tasks.len() && (
                s.settled.contains(s.spawn_calls[i].call_id)
                    || snapshot.settled_spawn_call_ids.contains(s.spawn_calls[i].call_id))
                    ==> task_is_settled(
                    s.spawn_calls[i].tasks[j],
                    after.spawn_calls[i].tasks[j],
                    after.spawn_calls[i].parent_node_id,
                    snapshot.nodes,
                    held,
                )
        }),
{
    let calls = anchored(s.spawn_calls, snapshot.active_node_id);
    let settled = s.settled_with(snapshot);
    let claimed = results_of_calls(calls);
    let after = s.with_snapshot(snapshot, now);
    let out = after.spawn_calls;
    lemma_linked_calls(calls, settled, snapshot.nodes, claimed);
    let held = Set::new(|id: Seq<char>| linked_to(out, id));
    let known = claimed.union(results_of_calls(out));
    assert(known.subset_of(held)) by {
        assert forall|id: Seq<char>| known.contains(id) implies #[trigger] held.contains(id) by {
            if results_of_calls(out).contains(id) {
                let i = choose|i: int|
                    0 <= i < out.len() && results_of_tasks((#[trigger] out[i]).tasks).contains(id);
                let j = choose|j: int|
                    0 <= j < out[i].tasks.len() && (#[trigger] out[i].tasks[j]).result_node_id
                        == Some(id);
                assert(out[i].tasks[j].result_node_id == Some(id));
            } else {
                let i = choose|i: int|
                    0 <= i < calls.len() && results_of_tasks((#[trigger] calls[i]).tasks).contains(
                        id,
                    );
                let j = choose|j: int|
                    0 <= j < calls[i].tasks.len() && (#[trigger] calls[i].tasks[j]).result_node_id
                        == Some(id);
                if settled.contains(calls[i].call_id) {
                    assert(task_is_settled(
                        calls[i].tasks[j],
                        out[i].tasks[j],
                        calls[i].parent_node_id,
                        snapshot.nodes,
                        known,
                    ));
                } else {
                    assert(out[i] == calls[i]);
                }
                assert(out[i].tasks[j].result_node_id == Some(id));
            }
        }
    }
    assert forall|i: int| 0 <= i < s.spawn_calls.len() implies settled.contains(
        (#[trigger] calls[i]).call_id,
    ) == (s.settled.contains(s.spawn_calls[i].call_id)
        || snapshot.settled_spawn_call_ids.contains(s.spawn_calls[i].call_id)) by {}
    assert forall|i: int, j: int|
        #![trigger after.spawn_calls[i].tasks[j]]
        0 <= i < s.spawn_calls.len() && 0 <= j < s.spawn_calls[i].tasks.len() && (
        s.settled.contains(s.spawn_calls[i].call_id) || snapshot.settled_spawn_call_ids.contains(
            s.spawn_calls[i].call_id,
        )) implies task_is_settled(
        s.spawn_calls[i].tasks[j],
        after.spawn_calls[i].tasks[j],
        after.spawn_calls[i].parent_node_id,
        snapshot.nodes,
        held,
    ) by {
        assert(calls[i].tasks == s.spawn_calls[i].tasks);
        assert(task_is_settled(
            calls[i].tasks[j],
            out[i].tasks[j],
            calls[i].parent_node_id,
            snapshot.nodes,
            known,
        ));
        lemma_held_grows(
            calls[i].tasks[j],
            out[i].tasks[j],
            calls[i].parent_node_id,
            snapshot.nodes,
            known,
            held,
        );
    }
    assert forall|i: int| 0 <= i < s.spawn_calls.len() implies {
        let was = s.spawn_calls[i];
        let is = #[trigger] after.spawn_calls[i];
        &&& is.call_id == was.call_id
        &&& is.tasks.len() == was.tasks.len()
        &&& was.parent_node_id is Some ==> is.parent_node_id == was.parent_node_id
        &&& was.parent_node_id is None ==> is.parent_node_id == Some(snapshot.active_node_id)
        &&& !s.settled.contains(was.call_id) && !snapshot.settled_spawn_call_ids.contains(
            was.call_id,
        ) ==> is.tasks == was.tasks
    } by {
        assert(calls[i].call_id == s.spawn_calls[i].call_id);
    }
}

/// Whether a node is held by the time a task has its turn: by a task that held it before, or by an
/// earlier task that took it.
pub open spec fn taken_before(
    was: Seq<SpawnCallView>,
    is: Seq<SpawnCallView>,
    i: int,
    j: int,
    node_id: Seq<char>,
) -> bool {
    ||| linked_to(was, node_id)
    ||| linked_to(is.take(i), node_id)
    ||| exists|b: int|
        0 <= b < j && b < is[i].tasks.len() && (#[trigger] is[i].tasks[b]).result_node_id == Some(
            node_id,
        )
}

proof fn lemma_tasks_are_settled_in_order(
    tasks: Seq<SpawnTaskView>,
    parent: Option<Seq<char>>,
    nodes: Seq<NodeView>,
    claimed: Set<Seq<char>>,
    j: int,
)
    requires
        0 <= j < tasks.len(),
    ensures
        ({
            let out = settled_tasks(tasks, parent, nodes, claimed);
            &&& out.len() == tasks.len()
            &&& out[j] == settled_task(
                tasks[j],
                parent,
                nodes,
                claimed.union(results_of_tasks(out.take(j))),
            )
        }),
    decreases tasks.len(),
{
    let rest = tasks.drop_last();
    let before = settled_tasks(rest, parent, nodes, claimed);
    let out = settled_tasks(tasks, parent, nodes, claimed);
    if rest.len() > 0 {
        lemma_tasks_are_settled_in_order(
            rest,
            parent,
            nodes,
            claimed,
            if j < rest.len() {
                j
            } else {
                0
            },
        );
    }
    if j < rest.len() {
        assert(rest[j] == tasks[j]);
        assert(out.take(j) =~= before.take(j));
    } else {
        assert(out.take(j) =~= before);
    }
}

proof fn lemma_calls_are_settled_in_order(
    calls: Seq<SpawnCallView>,
    settled: Set<Seq<char>>,
    nodes: Seq<NodeView>,
    claimed: Set<Seq<char>>,
    i: int,
)
    requires
        0 <= i < calls.len(),
        settled.contains(calls[i].call_id),
    ensures
        ({
            let out = settled_calls(calls, settled, nodes, claimed);
            &&& out.len() == calls.len()
            &&& out[i].tasks == settled_tasks(
                calls[i].tasks,
                calls[i].parent_node_id,
                nodes,
                claimed.union(results_of_calls(out.take(i))),
            )
            &&& out[i].parent_node_id == calls[i].parent_node_id
        }),
    decreases calls.len(),
{
    let rest = calls.drop_last();
    let before = settled_calls(rest, settled, nodes, claimed);
    let out = settled_calls(calls, settled, nodes, claimed);
    lemma_linked_calls(calls, settled, nodes, claimed);
    lemma_linked_calls(rest, settled, nodes, claimed);
    if i < rest.len() {
        assert(rest[i] == calls[i]);
        lemma_calls_are_settled_in_order(rest, settled, nodes, claimed, i);
        assert(out.take(i) =~= before.take(i));
    } else {
        assert(out.take(i) =~= before);
    }
}

proof fn lemma_results_are_links(calls: Seq<SpawnCallView>, id: Seq<char>)
    ensures
        results_of_calls(calls).contains(id) == linked_to(calls, id),
{
    if results_of_calls(calls).contains(id) {
        let i = choose|i: int|
            0 <= i < calls.len() && results_of_tasks((#[trigger] calls[i]).tasks).contains(id);
        let j = choose|j: int|
            0 <= j < calls[i].tasks.len() && (#[trigger] calls[i].tasks[j]).result_node_id == Some(
                id,
            );
        assert(calls[i].tasks[j].result_node_id == Some(id));
    }
    if linked_to(calls, id) {
        let (i, j) = choose|i: int, j: int|
            0 <= i < calls.len() && 0 <= j < calls[i].tasks.len() && (
            #[trigger] calls[i].tasks[j]).result_node_id == Some(id);
        assert(results_of_tasks(calls[i].tasks).contains(id));
    }
}

/// The tasks of the settled calls take their result nodes in order: each takes the first node that
/// answers it and that neither a task held before nor an earlier task took, and goes without only
/// where there is none.
pub proof fn lemma_earlier_tasks_take_earlier_results(
    s: StateView,
    snapshot: TreeUpdateView,
    now: i64,
    i: int,
    j: int,
)
    requires
        s.with_snapshot(snapshot, now) != s,
        0 <= i < s.spawn_calls.len(),
        0 <= j < s.spawn_calls[i].tasks.len(),
        s.spawn_calls[i].tasks[j].result_node_id is None,
        s.settled.contains(s.spawn_calls[i].call_id) || snapshot.settled_spawn_call_ids.contains(
            s.spawn_calls[i].call_id,
        ),
    ensures
        ({
            let after = s.with_snapshot(snapshot, now).spawn_calls;
            let summary = s.spawn_calls[i].tasks[j].progress.summary;
            let result = after[i].tasks[j].result_node_id;
            &&& result is Some ==> exists|k: int|
                0 <= k < snapshot.nodes.len() && answers(
                    #[trigger] snapshot.nodes[k],
                    after[i].parent_node_id,
                    summary,
                ) && result == Some(snapshot.nodes[k].node_id) && !taken_before(
                    s.spawn_calls,
                    after,
                    i,
                    j,
                    snapshot.nodes[k].node_id,
                ) && forall|m: int|
                    0 <= m < k && answers(
                        #[trigger] snapshot.nodes[m],
                        after[i].parent_node_id,
                        summary,
                    ) ==> taken_before(s.spawn_calls, after, i, j, snapshot.nodes[m].node_id)
            &&& result is None ==> forall|m: int|
                0 <= m < snapshot.nodes.len() && answers(
                    #[trigger] snapshot.nodes[m],
                    after[i].parent_node_id,
                    summary,
                ) ==> taken_before(s.spawn_calls, after, i, j, snapshot.nodes[m].node_id)
        }),
{
    let calls = anchored(s.spawn_calls, snapshot.active_node_id);
    let settled = s.settled_with(snapshot);
    let claimed = results_of_calls(calls);
    let out = s.with_snapshot(snapshot, now).spawn_calls;
    let nodes = snapshot.nodes;
    assert(settled.contains(calls[i].call_id));
    lemma_calls_are_settled_in_order(calls, settled, nodes, claimed, i);
    let parent = calls[i].parent_node_id;
    let held = claimed.union(results_of_calls(out.take(i)));
    lemma_tasks_are_settled_in_order(calls[i].tasks, parent, nodes, held, j);
    let taken = held.union(results_of_tasks(out[i].tasks.take(j)));
    let summary = s.spawn_calls[i].tasks[j].progress.summary;
    lemma_result_position(nodes, parent, summary, taken);
    assert forall|id: Seq<char>| #[trigger] taken.contains(id) == taken_before(
        s.spawn_calls,
        out,
        i,
        j,
        id,
    ) by {
        lemma_results_are_links(calls, id);
        lemma_results_are_links(out.take(i), id);
        assert(linked_to(calls, id) == linked_to(s.spawn_calls, id)) by {
            if linked_to(calls, id) {
                let (a, b) = choose|a: int, b: int|
                    0 <= a < calls.len() && 0 <= b < calls[a].tasks.len() && (
                    #[trigger] calls[a].tasks[b]).result_node_id == Some(id);
                assert(s.spawn_calls[a].tasks[b].result_node_id == Some(id));
            }
            if linked_to(s.spawn_calls, id) {
                let (a, b) = choose|a: int, b: int|
                    0 <= a < s.spawn_calls.len() && 0 <= b < s.spawn_calls[a].tasks.len() && (
                    #[trigger] s.spawn_calls[a].tasks[b]).result_node_id == Some(id);
                assert(calls[a].tasks[b].result_node_id == Some(id));
            }
        }
        let part = out[i].tasks.take(j);
        if results_of_tasks(part).contains(id) {
            let b = choose|b: int|
                0 <= b < part.len() && (#[trigger] part[b]).result_node_id == Some(id);
            assert(out[i].tasks[b].result_node_id == Some(id));
        }
        if exists|b: int|
            0 <= b < j && b < out[i].tasks.len() && (#[trigger] out[i].tasks[b]).result_node_id
                == Some(id) {
            let b = choose|b: int|
                0 <= b < j && b < out[i].tasks.len() && (
                #[trigger] out[i].tasks[b]).result_node_id == Some(id);
            assert(part[b].result_node_id == Some(id));
        }
    }
    let at = result_position(nodes, parent, summary, taken);
    if at < nodes.len() {
        assert(answers(nodes[at], parent, summary));
        assert(!taken.contains(nodes[at].node_id));
    }
    assert forall|m: int| 0 <= m < at && answers(#[trigger] nodes[m], parent, summary) implies
        taken_before(s.spawn_calls, out, i, j, nodes[m].node_id) by {
        assert(taken.contains(nodes[m].node_id));
    }
}

/// Whether a list holds elements of another one in their order.
pub open spec fn in_order<A>(part: Seq<A>, whole: Seq<A>) -> bool
    decreases whole.len(),
{
    if part.len() == 0 {
        true
    } else if whole.len() == 0 {
        false
    } else if part.last() == whole.last() {
        in_order(part.drop_last(), whole.drop_last())
    } else {
        in_order(part, whole.drop_last())
    }
}

/// A choice from a list keeps its order.
pub proof fn lemma_choice_keeps_order<A>(whole: Seq<A>, p: spec_fn(A) -> bool)
    ensures
        in_order(whole.filter(p), whole),
    decreases whole.len(),
{
    reveal(Seq::filter);
    if whole.len() > 0 {
        let rest = whole.drop_last();
        lemma_choice_keeps_order(rest, p);
        let part = whole.filter(p);
        if p(whole.last()) {
            assert(part.drop_last() =~= rest.filter(p));
        } else if part.len() > 0 {
            rest.lemma_filter_pred(p, part.len() - 1);
        }
    }
}

/// Whether some task of some calls runs on a thread.
pub open spec fn works_on(calls: Seq<SpawnCallView>, thread_id: ThreadId) -> bool {
    exists|i: int, j: int|
        0 <= i < calls.len() && 0 <= j < calls[i].tasks.len() && (
        #[trigger] calls[i].tasks[j]).progress.thread_id == thread_id
}

/// A snapshot keeps exactly the subtrees, invalidations and missing ends of the threads that the
/// card's tasks run on, in their order, and remembers as settled exactly the settled calls that the
/// card has.
pub proof fn lemma_snapshot_keeps_its_agents(
    s: StateView,
    snapshot: TreeUpdateView,
    now: i64,
    thread_id: ThreadId,
    call_id: Seq<char>,
)
    requires
        s.with_snapshot(snapshot, now) != s,
    ensures
        ({
            let after = s.with_snapshot(snapshot, now);
            let here = works_on(s.spawn_calls, thread_id);
            &&& works_on(after.spawn_calls, thread_id) == here
            &&& in_order(after.agents, s.agents)
            &&& forall|a: AgentSubtreeView|
                a.thread_id == thread_id ==> (#[trigger] after.agents.contains(a)
                    == (here && s.agents.contains(a)))
            &&& after.invalidated.contains_key(thread_id) == (here
                && s.invalidated.contains_key(thread_id))
            &&& after.invalidated.contains_key(thread_id) ==> after.invalidated[thread_id]
                == s.invalidated[thread_id]
            &&& after.timeouts.contains_key(thread_id) == (here && s.timeouts.contains_key(
                thread_id,
            ))
            &&& after.timeouts.contains_key(thread_id) ==> after.timeouts[thread_id]
                == s.timeouts[thread_id]
            &&& after.settled.contains(call_id) == ((s.settled.contains(call_id)
                || snapshot.settled_spawn_call_ids.contains(call_id)) && exists|i: int|
                0 <= i < s.spawn_calls.len() && (#[trigger] s.spawn_calls[i]).call_id == call_id)
        }),
{
    lemma_snapshot_links_results(s, snapshot, now);
    let after = s.with_snapshot(snapshot, now);
    let before_calls = s.spawn_calls;
    let calls = after.spawn_calls;
    assert forall|i: int, j: int|
        0 <= i < calls.len() && 0 <= j < calls[i].tasks.len() implies (
    #[trigger] calls[i].tasks[j]).progress.thread_id
        == before_calls[i].tasks[j].progress.thread_id by {
        if s.settled.contains(before_calls[i].call_id) || snapshot.settled_spawn_call_ids.contains(
            before_calls[i].call_id,
        ) {
        } else {
            assert(calls[i].tasks == before_calls[i].tasks);
        }
    }
    if works_on(before_calls, thread_id) {
        let (i, j) = choose|i: int, j: int|
            0 <= i < before_calls.len() && 0 <= j < before_calls[i].tasks.len() && (
            #[trigger] before_calls[i].tasks[j]).progress.thread_id == thread_id;
        assert(calls[i].call_id == before_calls[i].call_id);
        assert(calls[i].tasks[j].progress.thread_id == thread_id);
    }
    if works_on(calls, thread_id) {
        let (i, j) = choose|i: int, j: int|
            0 <= i < calls.len() && 0 <= j < calls[i].tasks.len() && (
            #[trigger] calls[i].tasks[j]).progress.thread_id == thread_id;
        assert(before_calls[i].tasks[j].progress.thread_id == thread_id);
    }
    assert(spawned(calls, thread_id) == works_on(calls, thread_id));
    let p = |a: AgentSubtreeView| spawned(calls, a.thread_id);
    lemma_choice_keeps_order(s.agents, p);
    assert forall|a: AgentSubtreeView| a.thread_id == thread_id implies (
    #[trigger] after.agents.contains(a)) == (works_on(before_calls, thread_id)
        && s.agents.contains(a)) by {
        if after.agents.contains(a) {
            s.agents.lemma_filter_contains_rev(p, a);
            let k = choose|k: int| 0 <= k < after.agents.len() && after.agents[k] == a;
            s.agents.lemma_filter_pred(p, k);
        }
        if s.agents.contains(a) && works_on(before_calls, thread_id) {
            let k = choose|k: int| 0 <= k < s.agents.len() && s.agents[k] == a;
            s.agents.lemma_filter_contains(p, k);
        }
    }
    if exists|i: int| 0 <= i < calls.len() && (#[trigger] calls[i]).call_id == call_id {
        let i = choose|i: int| 0 <= i < calls.len() && (#[trigger] calls[i]).call_id == call_id;
        assert(before_calls[i].call_id == call_id);
    }
    if exists|i: int| 0 <= i < before_calls.len() && (#[trigger] before_calls[i]).call_id
        == call_id {
        let i = choose|i: int|
            0 <= i < before_calls.len() && (#[trigger] before_calls[i]).call_id == call_id;
        assert(calls[i].call_id == call_id);
    }
}

} // verus!
