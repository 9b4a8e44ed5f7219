//! What holds of cards whatever happens to them.
use crate::agents::{
    agent_position, ended_call, has_incomplete, is_incomplete, lemma_agent_position,
    lemma_removed_subtree,
};
use crate::protocol::{
    AgentStatusView, NodeView, SpawnProgressView, SpineTreeNodeKind, TaskProgressView, ThreadId,
    TreeUpdateView,
};
use crate::render::{all_tasks, rendered_task, shows_parent};
use crate::snapshot::{
    anchored, lemma_result_position, results_of_calls, results_of_tasks, settled_calls,
    settled_task, settled_tasks, spawned,
};
use crate::spawn::{
    call_position, first_with_ordinal, fresh_call, is_terminal, lemma_call_position,
    lemma_first_with_ordinal, merged_call, merged_status, merged_task, result_of_ordinal,
};
use crate::state::{
    empty_state, lemma_filtered_subtrees, next_revision, one_subtree_each, AgentSubtreeView,
    SpawnCallView, SpawnTaskView, StateView,
};
use vstd::prelude::*;

verus! {

/// Every change of a card moves its revision to the next one, and what changes nothing leaves the
/// card as it is. An invalidation that takes nothing off a card is still remembered by it.
pub proof fn lemma_revision_follows_changes(
    s: StateView,
    snapshot: TreeUpdateView,
    report: SpawnProgressView,
    child: ThreadId,
    generation: u64,
    child_state: StateView,
    terminal: AgentStatusView,
    now: i64,
)
    ensures
        s.takes_snapshot(snapshot) ==> s.with_snapshot(snapshot, now).revision == next_revision(
            s.revision,
        ),
        !s.takes_snapshot(snapshot) ==> s.with_snapshot(snapshot, now) == s,
        s.takes_progress(report) ==> s.with_progress(report, now).revision == next_revision(
            s.revision,
        ),
        !s.takes_progress(report) ==> s.with_progress(report, now) == s,
        s.takes_agent(child, generation, child_state) ==> s.with_agent(
            child,
            generation,
            child_state,
        ).revision == next_revision(s.revision),
        !s.takes_agent(child, generation, child_state) ==> s.with_agent(
            child,
            generation,
            child_state,
        ) == s,
        s.takes_timeout(child, generation) ==> s.with_timeout(child, generation).revision
            == next_revision(s.revision),
        !s.takes_timeout(child, generation) ==> s.with_timeout(child, generation) == s,
        s.drops_timeout(child, generation) ==> s.without_timeout(child, generation).revision
            == next_revision(s.revision),
        !s.drops_timeout(child, generation) ==> s.without_timeout(child, generation) == s,
        s.without_agent(child, generation).revision == if s.drops_agent(child, generation) {
            next_revision(s.revision)
        } else {
            s.revision
        },
        s.ended(terminal).revision == if s.incomplete() {
            next_revision(s.revision)
        } else {
            s.revision
        },
        next_revision(s.revision) >= s.revision,
        s.revision < u64::MAX ==> next_revision(s.revision) > s.revision,
{
}

/// A snapshot that is older than the shown one, or equal to it, changes nothing; one that was
/// recorded changes nothing when it comes again.
pub proof fn lemma_stale_snapshot_changes_nothing(
    s: StateView,
    snapshot: TreeUpdateView,
    now: i64,
    later: i64,
)
    ensures
        s.snapshot is Some && snapshot.snapshot_seq < s.snapshot->0.snapshot_seq
            ==> s.with_snapshot(snapshot, now) == s,
        s.with_snapshot(snapshot, now).with_snapshot(snapshot, later) == s.with_snapshot(
            snapshot,
            now,
        ),
{
}

/// A final status outlives every later report.
pub proof fn lemma_final_status_stays(current: AgentStatusView, incoming: AgentStatusView)
    requires
        is_terminal(current),
    ensures
        merged_status(current, incoming) == current,
{
}

/// A status never steps back: what a report leaves is at least as far as what was known.
pub proof fn lemma_status_never_steps_back(current: AgentStatusView, incoming: AgentStatusView)
    ensures
        crate::spawn::status_rank_of(merged_status(current, incoming))
            >= crate::spawn::status_rank_of(current),
{
}

/// Whether no ordinal occurs twice in a report.
pub open spec fn distinct_ordinals(tasks: Seq<TaskProgressView>) -> bool {
    forall|i: int, j: int|
        0 <= i < j < tasks.len() ==> (#[trigger] tasks[i]).ordinal != (#[trigger] tasks[j]).ordinal
}

proof fn lemma_result_at(tasks: Seq<SpawnTaskView>, i: int)
    requires
        0 <= i < tasks.len(),
        forall|a: int, b: int|
            0 <= a < b < tasks.len() ==> (#[trigger] tasks[a]).progress.ordinal != (
            #[trigger] tasks[b]).progress.ordinal,
    ensures
        result_of_ordinal(tasks, tasks[i].progress.ordinal) == tasks[i].result_node_id,
        first_with_ordinal(tasks, tasks[i].progress.ordinal) == i,
    decreases tasks.len(),
{
    lemma_first_with_ordinal(tasks, tasks[i].progress.ordinal);
    if i < tasks.len() - 1 {
        let rest = tasks.drop_last();
        assert(rest[i] == tasks[i]);
        assert(tasks.last() == tasks[tasks.len() - 1]);
        lemma_result_at(rest, i);
    }
}

proof fn lemma_merge_twice(
    call: SpawnCallView,
    report: SpawnProgressView,
    active: Option<Seq<char>>,
)
    requires
        distinct_ordinals(report.tasks),
    ensures
        merged_call(merged_call(call, report, active), report, active) == merged_call(
            call,
            report,
            active,
        ),
        merged_call(fresh_call(report, active), report, active) == fresh_call(report, active),
{
    let once = merged_call(call, report, active);
    assert forall|i: int| 0 <= i < report.tasks.len() implies merged_task(
        once.tasks,
        report.tasks[i],
    ) == once.tasks[i] by {
        assert(once.tasks[i].progress.ordinal == report.tasks[i].ordinal);
        assert forall|a: int, b: int| 0 <= a < b < once.tasks.len() implies (
        #[trigger] once.tasks[a]).progress.ordinal != (
        #[trigger] once.tasks[b]).progress.ordinal by {
            assert(report.tasks[a].ordinal != report.tasks[b].ordinal);
        }
        lemma_result_at(once.tasks, i);
    }
    assert(merged_call(once, report, active).tasks =~= once.tasks);
    let fresh = fresh_call(report, active);
    assert forall|i: int| 0 <= i < report.tasks.len() implies merged_task(
        fresh.tasks,
        report.tasks[i],
    ) == fresh.tasks[i] by {
        assert(fresh.tasks[i].progress == report.tasks[i]);
        assert forall|a: int, b: int| 0 <= a < b < fresh.tasks.len() implies (
        #[trigger] fresh.tasks[a]).progress.ordinal != (
        #[trigger] fresh.tasks[b]).progress.ordinal by {
            assert(report.tasks[a].ordinal != report.tasks[b].ordinal);
        }
        lemma_result_at(fresh.tasks, i);
    }
    assert(merged_call(fresh, report, active).tasks =~= fresh.tasks);
}

/// A progress report that comes again changes nothing, where no ordinal occurs twice in it.
pub proof fn lemma_repeated_progress_changes_nothing(
    s: StateView,
    report: SpawnProgressView,
    now: i64,
    later: i64,
)
    requires
        distinct_ordinals(report.tasks),
    ensures
        s.with_progress(report, now).with_progress(report, later) == s.with_progress(report, now),
{
    let once = s.with_progress(report, now);
    if s.takes_progress(report) {
        let at = call_position(s.spawn_calls, report.call_id);
        lemma_call_position(s.spawn_calls, report.call_id);
        lemma_call_position(once.spawn_calls, report.call_id);
        assert forall|j: int| 0 <= j < at implies (#[trigger] once.spawn_calls[j]).call_id
            != report.call_id by {
            assert(once.spawn_calls[j] == s.spawn_calls[j]);
        }
        assert(once.spawn_calls[at].call_id == report.call_id);
        assert(call_position(once.spawn_calls, report.call_id) == at);
        if at < s.spawn_calls.len() {
            lemma_merge_twice(s.spawn_calls[at], report, s.active_node());
        } else {
            lemma_merge_twice(fresh_call(report, s.active_node()), report, s.active_node());
        }
        assert(!once.takes_progress(report));
    }
}

/// An invalidated generation, and every older one, stays off a card.
pub proof fn lemma_invalidated_generation_stays_off(
    s: StateView,
    child: ThreadId,
    generation: u64,
    later: u64,
    state: StateView,
)
    requires
        later <= generation,
    ensures
        !s.without_agent(child, generation).takes_agent(child, later, state),
        !s.without_agent(child, generation).takes_timeout(child, later),
{
}

/// An older generation neither replaces nor removes a newer one.
pub proof fn lemma_older_generation_yields(
    s: StateView,
    child: ThreadId,
    older: u64,
    state: StateView,
)
    requires
        s.agent(child) is Some,
        older < s.agent(child)->0.generation,
    ensures
        s.with_agent(child, older, state) == s,
        s.without_agent(child, older).agents == s.agents,
        !s.timeouts.contains_key(child) ==> !s.drops_agent(child, older),
{
}

/// A card takes the states of its own agents only.
pub proof fn lemma_only_spawned_agents_are_shown(
    s: StateView,
    child: ThreadId,
    generation: u64,
    state: StateView,
)
    requires
        !spawned(s.spawn_calls, child),
    ensures
        s.with_agent(child, generation, state) == s,
        s.with_timeout(child, generation) == s,
{
}

/// Once its agents are ended, no agent of a card, at any depth, awaits an end; ending them again
/// changes nothing.
pub proof fn lemma_ended_card_is_complete(s: StateView, terminal: AgentStatusView)
    requires
        !is_incomplete(terminal),
    ensures
        !s.ended(terminal).incomplete(),
        s.ended(terminal).ended(terminal) == s.ended(terminal),
    decreases s,
{
    let once = s.ended(terminal);
    assert forall|k: int| 0 <= k < s.agents.len() implies !(#[trigger] once.agents[k]).state.incomplete()
        && once.agents[k].state.ended(terminal) == once.agents[k].state by {
        lemma_ended_card_is_complete(s.agents[k].state, terminal);
    }
    assert(!has_incomplete(once.spawn_calls)) by {
        assert forall|i: int, j: int|
            0 <= i < once.spawn_calls.len() && 0 <= j < once.spawn_calls[i].tasks.len() implies !is_incomplete(
            (#[trigger] once.spawn_calls[i].tasks[j]).progress.status,
        ) by {
            assert(once.spawn_calls[i] == ended_call(s.spawn_calls[i], terminal));
        }
    }
    let twice = once.ended(terminal);
    assert forall|i: int| 0 <= i < once.spawn_calls.len() implies #[trigger] twice.spawn_calls[i]
        == once.spawn_calls[i] by {
        assert(twice.spawn_calls[i].tasks =~= once.spawn_calls[i].tasks);
    }
    assert(twice.spawn_calls =~= once.spawn_calls);
    assert(twice.agents =~= once.agents);
}

/// Ending the agents of a card keeps every status that is final already.
pub proof fn lemma_ending_keeps_final_statuses(
    s: StateView,
    terminal: AgentStatusView,
    call: int,
    task: int,
)
    requires
        0 <= call < s.spawn_calls.len(),
        0 <= task < s.spawn_calls[call].tasks.len(),
        !is_incomplete(s.spawn_calls[call].tasks[task].progress.status),
    ensures
        s.ended(terminal).spawn_calls[call].tasks[task] == s.spawn_calls[call].tasks[task],
{
}

/// The next turn's card starts with everything but the tree and the times of the one before.
pub proof fn lemma_carried_card_keeps_agents(s: StateView)
    ensures
        s.carried().snapshot is None,
        s.carried().started_at_ms is None,
        s.carried().completed_at_ms is None,
        s.carried().spawn_calls == s.spawn_calls,
        s.carried().agents == s.agents,
        s.carried().settled == s.settled,
        s.carried().invalidated == s.invalidated,
        s.carried().revision == s.revision,
{
}

/// A parent shows none of the nodes of its own tree again, and every other node of the child's.
pub proof fn lemma_projection_shows_new_nodes_only(
    s: StateView,
    baseline: Set<Seq<char>>,
    node: NodeView,
)
    requires
        s.snapshot is Some,
    ensures
        s.projected(baseline).snapshot is Some,
        s.projected(baseline).snapshot->0.nodes.contains(node) == (s.snapshot->0.nodes.contains(
            node,
        ) && !baseline.contains(node.node_id)),
        s.projected(baseline).agents == s.agents,
{
    let nodes = s.snapshot->0.nodes;
    let p = |n: NodeView| !baseline.contains(n.node_id);
    if nodes.filter(p).contains(node) {
        let i = choose|i: int| 0 <= i < nodes.filter(p).len() && nodes.filter(p)[i] == node;
        nodes.lemma_filter_pred(p, i);
        nodes.lemma_filter_contains_rev(p, node);
    }
    if nodes.contains(node) && p(node) {
        let i = choose|i: int| 0 <= i < nodes.len() && nodes[i] == node;
        nodes.lemma_filter_contains(p, i);
    }
}

/// Whether no result node belongs to two tasks.
pub open spec fn distinct_results(calls: Seq<SpawnCallView>) -> bool {
    forall|i: int, j: int, k: int, l: int|
        0 <= i < calls.len() && 0 <= j < calls[i].tasks.len() && 0 <= k < calls.len() && 0 <= l
            < calls[k].tasks.len() && (i != k || j != l) && (
        #[trigger] calls[i].tasks[j]).result_node_id is Some ==> calls[i].tasks[j].result_node_id
            != (#[trigger] calls[k].tasks[l]).result_node_id
}

/// A settled task keeps its node or takes one that nobody has.
proof fn lemma_settled_tasks(
    tasks: Seq<SpawnTaskView>,
    parent: Option<Seq<char>>,
    nodes: Seq<NodeView>,
    claimed: Set<Seq<char>>,
)
    ensures
        ({
            let out = settled_tasks(tasks, parent, nodes, claimed);
            &&& out.len() == tasks.len()
            &&& forall|i: int|
                0 <= i < tasks.len() && tasks[i].result_node_id is Some ==> (
                #[trigger] out[i]).result_node_id == tasks[i].result_node_id
            &&& forall|i: int|
                0 <= i < tasks.len() && tasks[i].result_node_id is None && (
                #[trigger] out[i]).result_node_id is Some ==> !claimed.contains(
                    out[i].result_node_id->0,
                )
            &&& forall|i: int, j: int|
                0 <= i < j < tasks.len() && tasks[j].result_node_id is None && (
                #[trigger] out[j]).result_node_id is Some ==> (#[trigger] out[i]).result_node_id
                    != out[j].result_node_id
        }),
    decreases tasks.len(),
{
    if tasks.len() > 0 {
        let rest = tasks.drop_last();
        lemma_settled_tasks(rest, parent, nodes, claimed);
        let before = settled_tasks(rest, parent, nodes, claimed);
        let taken = claimed.union(results_of_tasks(before));
        let last = tasks.last();
        let out = settled_tasks(tasks, parent, nodes, claimed);
        let n = tasks.len() - 1;
        lemma_result_position(nodes, parent, last.progress.summary, taken);
        assert(out[n] == settled_task(last, parent, nodes, taken));
        assert forall|i: int| 0 <= i < n implies #[trigger] out[i] == before[i] && rest[i]
            == tasks[i] by {}
        if last.result_node_id is None && out[n].result_node_id is Some {
            let id = out[n].result_node_id->0;
            assert(!taken.contains(id));
            assert forall|i: int| 0 <= i < n implies (#[trigger] out[i]).result_node_id
                != out[n].result_node_id by {
                if out[i].result_node_id == Some(id) {
                    assert(before[i].result_node_id == Some(id));
                    assert(results_of_tasks(before).contains(id));
                }
            }
        }
    }
}

proof fn lemma_settled_calls(
    calls: Seq<SpawnCallView>,
    settled: Set<Seq<char>>,
    nodes: Seq<NodeView>,
    claimed: Set<Seq<char>>,
)
    ensures
        ({
            let out = settled_calls(calls, settled, nodes, claimed);
            &&& out.len() == calls.len()
            &&& forall|i: int|
                0 <= i < calls.len() ==> (#[trigger] out[i]).tasks.len() == calls[i].tasks.len()
            &&& forall|i: int, j: int|
                0 <= i < calls.len() && 0 <= j < calls[i].tasks.len()
                    && calls[i].tasks[j].result_node_id is Some ==> (
                #[trigger] out[i].tasks[j]).result_node_id == calls[i].tasks[j].result_node_id
            &&& forall|i: int, j: int|
                0 <= i < calls.len() && 0 <= j < calls[i].tasks.len()
                    && calls[i].tasks[j].result_node_id is None && (
                #[trigger] out[i].tasks[j]).result_node_id is Some ==> !claimed.contains(
                    out[i].tasks[j].result_node_id->0,
                )
            &&& forall|i: int, j: int, k: int, l: int|
                0 <= i < calls.len() && 0 <= j < calls[i].tasks.len() && 0 <= k < calls.len() && 0
                    <= l < calls[k].tasks.len() && (i < k || (i == k && j < l))
                    && calls[k].tasks[l].result_node_id is None && (
                #[trigger] out[k].tasks[l]).result_node_id is Some ==> (
                #[trigger] out[i].tasks[j]).result_node_id != out[k].tasks[l].result_node_id
        }),
    decreases calls.len(),
{
    if calls.len() > 0 {
        let rest = calls.drop_last();
        lemma_settled_calls(rest, settled, nodes, claimed);
        let before = settled_calls(rest, settled, nodes, claimed);
        let taken = claimed.union(results_of_calls(before));
        let last = calls.last();
        let out = settled_calls(calls, settled, nodes, claimed);
        let n = calls.len() - 1;
        lemma_settled_tasks(last.tasks, last.parent_node_id, nodes, taken);
        assert forall|i: int| 0 <= i < n implies #[trigger] out[i] == before[i] && rest[i]
            == calls[i] by {}
        assert forall|i: int, j: int, l: int|
            0 <= i < n && 0 <= j < calls[i].tasks.len() && 0 <= l < calls[n].tasks.len()
                && calls[n].tasks[l].result_node_id is None && (
            #[trigger] out[n].tasks[l]).result_node_id is Some implies (
        #[trigger] out[i].tasks[j]).result_node_id != out[n].tasks[l].result_node_id by {
            let id = out[n].tasks[l].result_node_id->0;
            assert(!taken.contains(id));
            if out[i].tasks[j].result_node_id == Some(id) {
                assert(before[i].tasks[j].result_node_id == Some(id));
                assert(results_of_tasks(before[i].tasks).contains(id));
                assert(results_of_calls(before).contains(id));
            }
        }
    }
}

/// A snapshot links every result node to one task at most, whatever was linked before.
pub proof fn lemma_result_nodes_are_claimed_once(s: StateView, snapshot: TreeUpdateView, now: i64)
    requires
        distinct_results(s.spawn_calls),
    ensures
        distinct_results(s.with_snapshot(snapshot, now).spawn_calls),
{
    if s.takes_snapshot(snapshot) {
        let calls = anchored(s.spawn_calls, snapshot.active_node_id);
        let settled = s.settled_with(snapshot);
        let claimed = results_of_calls(calls);
        let out = settled_calls(calls, settled, snapshot.nodes, claimed);
        lemma_settled_calls(calls, settled, snapshot.nodes, claimed);
        assert forall|i: int| 0 <= i < calls.len() implies (#[trigger] calls[i]).tasks
            == s.spawn_calls[i].tasks by {}
        assert forall|i: int, j: int, k: int, l: int|
            0 <= i < out.len() && 0 <= j < out[i].tasks.len() && 0 <= k < out.len() && 0 <= l
                < out[k].tasks.len() && (i != k || j != l) && (
            #[trigger] out[i].tasks[j]).result_node_id is Some implies out[i].tasks[j].result_node_id
            != (#[trigger] out[k].tasks[l]).result_node_id by {
            if out[i].tasks[j].result_node_id == out[k].tasks[l].result_node_id {
                let id = out[i].tasks[j].result_node_id->0;
                let first_kept = calls[i].tasks[j].result_node_id is Some;
                let second_kept = calls[k].tasks[l].result_node_id is Some;
                if first_kept {
                    assert(s.spawn_calls[i].tasks[j].result_node_id == Some(id));
                    assert(results_of_tasks(calls[i].tasks).contains(id));
                    assert(claimed.contains(id));
                }
                if second_kept {
                    assert(s.spawn_calls[k].tasks[l].result_node_id == Some(id));
                    assert(results_of_tasks(calls[k].tasks).contains(id));
                    assert(claimed.contains(id));
                }
            }
        }
    }
}

/// A result node under an ordinal is that of some task with the ordinal.
proof fn lemma_result_source(tasks: Seq<SpawnTaskView>, ordinal: u32) -> (m: int)
    requires
        result_of_ordinal(tasks, ordinal) is Some,
    ensures
        0 <= m < tasks.len(),
        tasks[m].progress.ordinal == ordinal,
        tasks[m].result_node_id == result_of_ordinal(tasks, ordinal),
    decreases tasks.len(),
{
    if tasks.last().progress.ordinal == ordinal {
        tasks.len() - 1
    } else {
        lemma_result_source(tasks.drop_last(), ordinal)
    }
}

/// A progress report keeps every result node with one task at most, where no ordinal occurs twice
/// in it.
pub proof fn lemma_progress_keeps_results_apart(s: StateView, report: SpawnProgressView, now: i64)
    requires
        distinct_results(s.spawn_calls),
        distinct_ordinals(report.tasks),
    ensures
        distinct_results(s.with_progress(report, now).spawn_calls),
{
    let calls = s.spawn_calls;
    let at = call_position(calls, report.call_id);
    lemma_call_position(calls, report.call_id);
    if s.takes_progress(report) {
        let out = s.calls_with_progress(report);
        assert forall|i: int, j: int, k: int, l: int|
            0 <= i < out.len() && 0 <= j < out[i].tasks.len() && 0 <= k < out.len() && 0 <= l
                < out[k].tasks.len() && (i != k || j != l) && (
            #[trigger] out[i].tasks[j]).result_node_id is Some implies out[i].tasks[j].result_node_id
            != (#[trigger] out[k].tasks[l]).result_node_id by {
            if out[i].tasks[j].result_node_id == out[k].tasks[l].result_node_id {
                let from_first = if i == at {
                    lemma_result_source(calls[at].tasks, report.tasks[j].ordinal)
                } else {
                    j
                };
                let from_second = if k == at {
                    lemma_result_source(calls[at].tasks, report.tasks[l].ordinal)
                } else {
                    l
                };
                assert(calls[i].tasks[from_first].result_node_id
                    == out[i].tasks[j].result_node_id);
                assert(calls[k].tasks[from_second].result_node_id
                    == out[k].tasks[l].result_node_id);
                if i == k && i == at {
                    assert(report.tasks[j].ordinal != report.tasks[l].ordinal);
                }
            }
        }
    }
}

/// A status without the message that came with it.
pub open spec fn bare_status(status: AgentStatusView) -> AgentStatusView {
    match status {
        AgentStatusView::Completed(_) => AgentStatusView::Completed(None),
        AgentStatusView::Errored(_) => AgentStatusView::Errored(Seq::empty()),
        other => other,
    }
}

/// A task without the path of its agent and the message of its status.
pub open spec fn bare_task(task: SpawnTaskView) -> SpawnTaskView {
    SpawnTaskView {
        progress: TaskProgressView {
            agent_path: None,
            status: bare_status(task.progress.status),
            ..task.progress
        },
        ..task
    }
}

pub open spec fn bare_call(call: SpawnCallView) -> SpawnCallView {
    SpawnCallView { tasks: call.tasks.map_values(|t: SpawnTaskView| bare_task(t)), ..call }
}

/// A node without its memory, its end and its context pressure.
pub open spec fn bare_node(node: NodeView) -> NodeView {
    NodeView { memory_summary: None, end: None, context_pressure: None, ..node }
}

/// A tree without its number and the calls that it settles.
pub open spec fn bare_snapshot(snapshot: TreeUpdateView) -> TreeUpdateView {
    TreeUpdateView {
        snapshot_seq: 0,
        nodes: snapshot.nodes.map_values(|n: NodeView| bare_node(n)),
        settled_spawn_call_ids: Seq::empty(),
        ..snapshot
    }
}

/// A card without what its payload leaves out, at every depth: the number of the tree, the memory,
/// ends and context pressure of its nodes, the paths and messages of agents, generations, settled
/// calls, invalidations, timeouts and times.
pub open spec fn bare(s: StateView) -> StateView
    decreases s,
{
    StateView {
        revision: s.revision,
        started_at_ms: None,
        completed_at_ms: None,
        snapshot: match s.snapshot {
            Some(snapshot) => Some(bare_snapshot(snapshot)),
            None => None,
        },
        spawn_calls: s.spawn_calls.map_values(|c: SpawnCallView| bare_call(c)),
        settled: Set::empty(),
        agents: Seq::new(
            s.agents.len(),
            |k: int|
                if 0 <= k < s.agents.len() {
                    AgentSubtreeView {
                        thread_id: s.agents[k].thread_id,
                        generation: 0,
                        state: bare(s.agents[k].state),
                    }
                } else {
                    arbitrary()
                },
        ),
        invalidated: Map::empty(),
        timeouts: Map::empty(),
    }
}

proof fn lemma_bare_tasks(calls: Seq<SpawnCallView>)
    ensures
        all_tasks(calls.map_values(|c: SpawnCallView| bare_call(c))) == all_tasks(
            calls,
        ).map_values(|t: SpawnTaskView| bare_task(t)),
    decreases calls.len(),
{
    let f = |c: SpawnCallView| bare_call(c);
    let g = |t: SpawnTaskView| bare_task(t);
    if calls.len() > 0 {
        lemma_bare_tasks(calls.drop_last());
        assert(calls.map_values(f).drop_last() =~= calls.drop_last().map_values(f));
        assert(all_tasks(calls.map_values(f)) =~= all_tasks(calls).map_values(g));
    } else {
        assert(all_tasks(calls.map_values(f)) =~= all_tasks(calls).map_values(g));
    }
}

proof fn lemma_bare_position(s: StateView, thread_id: ThreadId)
    ensures
        agent_position(bare(s).agents, thread_id) == agent_position(s.agents, thread_id),
        0 <= agent_position(s.agents, thread_id) <= s.agents.len(),
{
    lemma_agent_position(s.agents, thread_id);
    lemma_agent_position(bare(s).agents, thread_id);
    let a = agent_position(s.agents, thread_id);
    let b = agent_position(bare(s).agents, thread_id);
    assert forall|k: int| 0 <= k < s.agents.len() implies (#[trigger] bare(s).agents[k]).thread_id
        == s.agents[k].thread_id by {}
    if a < b {
        assert(bare(s).agents[a].thread_id == s.agents[a].thread_id);
    }
    if b < a {
        assert(bare(s).agents[b].thread_id == s.agents[b].thread_id);
    }
}

proof fn lemma_bare_parents(nodes: Seq<NodeView>, node_id: Seq<char>)
    ensures
        shows_parent(nodes.map_values(|n: NodeView| bare_node(n)), node_id) == shows_parent(
            nodes,
            node_id,
        ),
{
    let out = nodes.map_values(|n: NodeView| bare_node(n));
    if shows_parent(nodes, node_id) {
        let i = choose|i: int|
            0 <= i < nodes.len() && (#[trigger] nodes[i]).node_id == node_id && nodes[i].kind
                != SpineTreeNodeKind::RootEpoch;
        assert(out[i].node_id == node_id);
    }
    if shows_parent(out, node_id) {
        let i = choose|i: int|
            0 <= i < out.len() && (#[trigger] out[i]).node_id == node_id && out[i].kind
                != SpineTreeNodeKind::RootEpoch;
        assert(nodes[i].node_id == node_id);
    }
}

proof fn lemma_bare_agents(s: StateView, tasks: Seq<SpawnTaskView>)
    ensures
        bare(s).rendered_agents(tasks.map_values(|t: SpawnTaskView| bare_task(t)))
            == s.rendered_agents(tasks),
    decreases s, tasks.len(), 0nat,
{
    let g = |t: SpawnTaskView| bare_task(t);
    if tasks.len() > 0 {
        lemma_bare_agents(s, tasks.drop_last());
        assert(tasks.map_values(g).drop_last() =~= tasks.drop_last().map_values(g));
        let thread_id = tasks.last().progress.thread_id;
        assert(tasks.map_values(g).last() == bare_task(tasks.last()));
        lemma_bare_position(s, thread_id);
        let at = agent_position(s.agents, thread_id);
        if 0 <= at < s.agents.len() {
            lemma_bare_payload(s.agents[at].state);
            assert(bare(s).agents[at].state == bare(s.agents[at].state));
        }
    }
}

proof fn lemma_bare_payload(s: StateView)
    ensures
        bare(s).rendered() == s.rendered(),
    decreases s, all_tasks(s.spawn_calls).len(), 1nat,
{
    match s.snapshot {
        Some(snapshot) => {
            lemma_bare_tasks(s.spawn_calls);
            lemma_bare_agents(s, all_tasks(s.spawn_calls));
            let a = bare(s).rendered()->0;
            let b = s.rendered()->0;
            assert(a.snapshot.nodes =~= b.snapshot.nodes);
            assert forall|i: int| 0 <= i < s.spawn_calls.len() implies #[trigger] a.spawn_calls[i]
                == b.spawn_calls[i] by {
                let call = s.spawn_calls[i];
                assert(bare_call(call).tasks.map_values(|t: SpawnTaskView| rendered_task(t))
                    =~= call.tasks.map_values(|t: SpawnTaskView| rendered_task(t)));
                if call.parent_node_id is Some {
                    lemma_bare_parents(snapshot.nodes, call.parent_node_id->0);
                }
            }
            assert(a.spawn_calls =~= b.spawn_calls);
        },
        None => {},
    }
}

/// The payload of a card holds nothing but what the card component shows: two cards have the same
/// payload where they differ, at any depth, in nothing but the number of the tree, the memory, ends
/// and context pressure of nodes, the paths and messages of agents, generations, settled calls,
/// invalidations, timeouts and times.
pub proof fn lemma_payload_leaves_the_rest_out(a: StateView, b: StateView)
    requires
        bare(a) == bare(b),
    ensures
        a.rendered() == b.rendered(),
{
    lemma_bare_payload(a);
    lemma_bare_payload(b);
}

/// The identity of a card's item names its turn: one turn's card keeps one identity, and two turns
/// never share one.
pub proof fn lemma_item_identity_names_the_turn(
    turn_id: Seq<char>,
    other_turn_id: Seq<char>,
    s: StateView,
    other: StateView,
    status: crate::card::McpToolCallStatus,
    other_status: crate::card::McpToolCallStatus,
    outcome: Option<crate::card::OutcomeView>,
    other_outcome: Option<crate::card::OutcomeView>,
)
    requires
        s.snapshot is Some,
        other.snapshot is Some,
    ensures
        ({
            let item = crate::card::item_of(turn_id, s, status, outcome);
            let other_item = crate::card::item_of(
                other_turn_id,
                other,
                other_status,
                other_outcome,
            );
            &&& item is Some
            &&& other_item is Some
            &&& (item->0.id == other_item->0.id) == (turn_id == other_turn_id)
            &&& (item->0.result.widget_session_id == other_item->0.result.widget_session_id) == (
            turn_id == other_turn_id)
        }),
{
    let prefix = crate::card::ITEM_ID_PREFIX@;
    if prefix + turn_id == prefix + other_turn_id {
        assert((prefix + turn_id).skip(prefix.len() as int) =~= turn_id);
        assert((prefix + other_turn_id).skip(prefix.len() as int) =~= other_turn_id);
    }
}

/// A card starts without subtrees, and whatever happens to it, it shows every thread in one subtree
/// at most.
pub proof fn lemma_subtrees_stay_unique(
    s: StateView,
    snapshot: TreeUpdateView,
    report: SpawnProgressView,
    child: ThreadId,
    generation: u64,
    state: StateView,
    terminal: AgentStatusView,
    baseline: Set<Seq<char>>,
    revision: u64,
    now: i64,
)
    requires
        one_subtree_each(s.agents),
    ensures
        one_subtree_each(empty_state().agents),
        one_subtree_each(s.with_snapshot(snapshot, now).agents),
        one_subtree_each(s.with_progress(report, now).agents),
        one_subtree_each(s.with_agent(child, generation, state).agents),
        one_subtree_each(s.without_agent(child, generation).agents),
        one_subtree_each(s.with_timeout(child, generation).agents),
        one_subtree_each(s.without_timeout(child, generation).agents),
        one_subtree_each(s.ended(terminal).agents),
        one_subtree_each(s.projected(baseline).agents),
        one_subtree_each(s.carried().agents),
        one_subtree_each(s.completed_by(now).agents),
        one_subtree_each(s.at_revision(revision).agents),
{
    lemma_agent_position(s.agents, child);
    let calls = s.calls_with_snapshot(snapshot);
    lemma_filtered_subtrees(s.agents, |a: AgentSubtreeView| spawned(calls, a.thread_id));
    let ended = s.ended(terminal);
    assert forall|i: int, j: int| 0 <= i < j < ended.agents.len() implies (
    #[trigger] ended.agents[i]).thread_id != (#[trigger] ended.agents[j]).thread_id by {
        assert(s.agents[i].thread_id != s.agents[j].thread_id);
    }
}

/// An agent whose generation was invalidated is off the card.
pub proof fn lemma_invalidated_agent_is_gone(s: StateView, child: ThreadId, generation: u64)
    requires
        one_subtree_each(s.agents),
    ensures
        ({
            let after = s.without_agent(child, generation);
            &&& match after.agent(child) {
                Some(current) => current.generation > generation,
                None => true,
            }
            &&& after.timeouts.contains_key(child) ==> after.timeouts[child] > generation
        }),
{
    lemma_removed_subtree(s, child, generation);
}

} // verus!
