//! Tree snapshots: acceptance, result-node linking and what a new tree keeps of the card.
use crate::keyed::{kept, lemma_position, position, retain_items, views, AssocMap, KeySet};
use crate::protocol::{
    AgentStatus, AgentStatusView, NodeView, SpineSpawnOutcome, SpineSpawnTaskProgress,
    SpineTreeNodeSnapshot, SpineTreeUpdateEvent, TaskProgressView, ThreadId, TreeUpdateView,
};
use crate::spawn::{merged_status, should_keep_agent_status};
use crate::state::{
    each_thread_once, lemma_agents, lemma_filtered_subtrees, lemma_once_views, next_revision,
    AgentSubtree, AgentSubtreeView, AgentSubtrees, SpawnCall, SpawnCallView,
    SpawnTask, SpawnTaskView, SpineUiState, StateView,
};
use crate::text::{copy_optional_text, same_optional_text, text_view};
use vstd::prelude::*;

verus! {

/// Whether a node can carry the result of a task: it is a spawn result under the call's parent with
/// the task's summary, and no other task has claimed it.
pub open spec fn carries_result(
    node: NodeView,
    parent: Option<Seq<char>>,
    summary: Seq<char>,
    claimed: Set<Seq<char>>,
) -> bool {
    &&& node.spawn_outcome is Some
    &&& node.parent_id == parent
    &&& node.summary == Some(summary)
    &&& !claimed.contains(node.node_id)
}

/// The first node that can carry the result of a task, or the length.
pub open spec fn result_position(
    nodes: Seq<NodeView>,
    parent: Option<Seq<char>>,
    summary: Seq<char>,
    claimed: Set<Seq<char>>,
) -> int {
    position(nodes, |n: NodeView| carries_result(n, parent, summary, claimed))
}

pub proof fn lemma_result_position(
    nodes: Seq<NodeView>,
    parent: Option<Seq<char>>,
    summary: Seq<char>,
    claimed: Set<Seq<char>>,
)
    ensures
        ({
            let at = result_position(nodes, parent, summary, claimed);
            &&& 0 <= at <= nodes.len()
            &&& at < nodes.len() ==> carries_result(nodes[at], parent, summary, claimed)
            &&& forall|j: int|
                0 <= j < at ==> !carries_result(#[trigger] nodes[j], parent, summary, claimed)
        }),
{
    lemma_position(nodes, |n: NodeView| carries_result(n, parent, summary, claimed));
}

/// The agent status that a committed result node stands for.
pub open spec fn outcome_status(node: NodeView) -> AgentStatusView {
    match node.spawn_outcome {
        Some(SpineSpawnOutcome::Completed) => AgentStatusView::Completed(None),
        Some(SpineSpawnOutcome::Errored) => AgentStatusView::Errored(
            match node.memory_summary {
                Some(m) => m,
                None => "Agent failed"@,
            },
        ),
        _ => AgentStatusView::Interrupted,
    }
}

/// A task of a settled call, linked to its result node where there is one.
pub open spec fn settled_task(
    task: SpawnTaskView,
    parent: Option<Seq<char>>,
    nodes: Seq<NodeView>,
    claimed: Set<Seq<char>>,
) -> SpawnTaskView {
    let at = result_position(nodes, parent, task.progress.summary, claimed);
    if task.result_node_id is Some || at == nodes.len() {
        task
    } else {
        SpawnTaskView {
            progress: TaskProgressView {
                status: merged_status(task.progress.status, outcome_status(nodes[at])),
                ..task.progress
            },
            result_node_id: Some(nodes[at].node_id),
        }
    }
}

/// The result nodes of some tasks.
pub open spec fn results_of_tasks(tasks: Seq<SpawnTaskView>) -> Set<Seq<char>> {
    Set::new(
        |id: Seq<char>|
            exists|i: int|
                0 <= i < tasks.len() && (#[trigger] tasks[i]).result_node_id == Some(id),
    )
}

/// The result nodes of all tasks of some calls.
pub open spec fn results_of_calls(calls: Seq<SpawnCallView>) -> Set<Seq<char>> {
    Set::new(
        |id: Seq<char>|
            exists|i: int|
                0 <= i < calls.len() && results_of_tasks((#[trigger] calls[i]).tasks).contains(id),
    )
}

/// The tasks of a settled call, each claiming a node that no earlier task has.
pub open spec fn settled_tasks(
    tasks: Seq<SpawnTaskView>,
    parent: Option<Seq<char>>,
    nodes: Seq<NodeView>,
    claimed: Set<Seq<char>>,
) -> Seq<SpawnTaskView>
    decreases tasks.len(),
{
    if tasks.len() == 0 {
        Seq::empty()
    } else {
        let before = settled_tasks(tasks.drop_last(), parent, nodes, claimed);
        before.push(
            settled_task(tasks.last(), parent, nodes, claimed.union(results_of_tasks(before))),
        )
    }
}

/// The calls after the settled ones among them are linked to their result nodes.
pub open spec fn settled_calls(
    calls: Seq<SpawnCallView>,
    settled: Set<Seq<char>>,
    nodes: Seq<NodeView>,
    claimed: Set<Seq<char>>,
) -> Seq<SpawnCallView>
    decreases calls.len(),
{
    if calls.len() == 0 {
        Seq::empty()
    } else {
        let before = settled_calls(calls.drop_last(), settled, nodes, claimed);
        let call = calls.last();
        before.push(
            if settled.contains(call.call_id) {
                SpawnCallView {
                    tasks: settled_tasks(
                        call.tasks,
                        call.parent_node_id,
                        nodes,
                        claimed.union(results_of_calls(before)),
                    ),
                    ..call
                }
            } else {
                call
            },
        )
    }
}

/// The calls linked to the result nodes of a snapshot. A node that a task already holds stays with
/// that task.
pub open spec fn reconciled(
    calls: Seq<SpawnCallView>,
    settled: Set<Seq<char>>,
    nodes: Seq<NodeView>,
) -> Seq<SpawnCallView> {
    settled_calls(calls, settled, nodes, results_of_calls(calls))
}

/// Calls without a parent are anchored at the active node.
pub open spec fn anchored(calls: Seq<SpawnCallView>, active: Seq<char>) -> Seq<SpawnCallView> {
    calls.map_values(
        |c: SpawnCallView|
            SpawnCallView {
                parent_node_id: if c.parent_node_id is Some {
                    c.parent_node_id
                } else {
                    Some(active)
                },
                ..c
            },
    )
}

/// Whether some call spawned an agent on a thread.
pub open spec fn spawned(calls: Seq<SpawnCallView>, thread_id: ThreadId) -> bool {
    exists|i: int, j: int|
        0 <= i < calls.len() && 0 <= j < calls[i].tasks.len() && (
        #[trigger] calls[i].tasks[j]).progress.thread_id == thread_id
}

/// Whether some call has an identifier.
pub open spec fn has_call(calls: Seq<SpawnCallView>, call_id: Seq<char>) -> bool {
    exists|i: int| 0 <= i < calls.len() && (#[trigger] calls[i]).call_id == call_id
}

/// The subtrees whose agents were spawned by the given calls.
pub open spec fn visible_agents(
    agents: Seq<AgentSubtreeView>,
    calls: Seq<SpawnCallView>,
) -> Seq<AgentSubtreeView> {
    agents.filter(|a: AgentSubtreeView| spawned(calls, a.thread_id))
}

/// The generations whose agents were spawned by the given calls.
pub open spec fn visible_generations(
    generations: Map<ThreadId, u64>,
    calls: Seq<SpawnCallView>,
) -> Map<ThreadId, u64> {
    kept(generations, |t: ThreadId, g: u64| spawned(calls, t))
}

impl StateView {
    /// Whether a snapshot is news: not older than the current one and not equal to it.
    pub open spec fn takes_snapshot(self, snapshot: TreeUpdateView) -> bool {
        match self.snapshot {
            Some(current) => snapshot.snapshot_seq >= current.snapshot_seq && snapshot != current,
            None => true,
        }
    }

    /// All spawn calls known to be settled once a snapshot arrived.
    pub open spec fn settled_with(self, snapshot: TreeUpdateView) -> Set<Seq<char>> {
        self.settled.union(snapshot.settled_spawn_call_ids.to_set())
    }

    /// The spawn calls once a snapshot arrived.
    pub open spec fn calls_with_snapshot(self, snapshot: TreeUpdateView) -> Seq<SpawnCallView> {
        reconciled(
            anchored(self.spawn_calls, snapshot.active_node_id),
            self.settled_with(snapshot),
            snapshot.nodes,
        )
    }

    /// The state after a snapshot at `now`.
    pub open spec fn with_snapshot(self, snapshot: TreeUpdateView, now: i64) -> StateView {
        if self.takes_snapshot(snapshot) {
            let calls = self.calls_with_snapshot(snapshot);
            StateView {
                revision: next_revision(self.revision),
                started_at_ms: self.started_by(now),
                completed_at_ms: self.completed_at_ms,
                snapshot: Some(snapshot),
                spawn_calls: calls,
                settled: self.settled_with(snapshot).filter(|id: Seq<char>| has_call(calls, id)),
                agents: visible_agents(self.agents, calls),
                invalidated: visible_generations(self.invalidated, calls),
                timeouts: visible_generations(self.timeouts, calls),
            }
        } else {
            self
        }
    }
}

pub proof fn lemma_results_push(tasks: Seq<SpawnTaskView>, task: SpawnTaskView)
    ensures
        results_of_tasks(tasks.push(task)) == match task.result_node_id {
            Some(id) => results_of_tasks(tasks).insert(id),
            None => results_of_tasks(tasks),
        },
{
    let after = tasks.push(task);
    assert forall|id: Seq<char>| #[trigger]
        results_of_tasks(after).contains(id) == (results_of_tasks(tasks).contains(id)
            || task.result_node_id == Some(id)) by {
        if results_of_tasks(tasks).contains(id) {
            let i = choose|i: int|
                0 <= i < tasks.len() && (#[trigger] tasks[i]).result_node_id == Some(id);
            assert(after[i].result_node_id == Some(id));
        }
        if task.result_node_id == Some(id) {
            assert(after[tasks.len() as int].result_node_id == Some(id));
        }
    }
    assert(results_of_tasks(after) =~= match task.result_node_id {
        Some(id) => results_of_tasks(tasks).insert(id),
        None => results_of_tasks(tasks),
    });
}

pub proof fn lemma_call_results_push(calls: Seq<SpawnCallView>, call: SpawnCallView)
    ensures
        results_of_calls(calls.push(call)) == results_of_calls(calls).union(
            results_of_tasks(call.tasks),
        ),
{
    let after = calls.push(call);
    assert forall|id: Seq<char>| #[trigger]
        results_of_calls(after).contains(id) == (results_of_calls(calls).contains(id)
            || results_of_tasks(call.tasks).contains(id)) by {
        if results_of_calls(calls).contains(id) {
            let i = choose|i: int|
                0 <= i < calls.len() && results_of_tasks((#[trigger] calls[i]).tasks).contains(id);
            assert(results_of_tasks(after[i].tasks).contains(id));
        }
        if results_of_tasks(call.tasks).contains(id) {
            assert(results_of_tasks(after[calls.len() as int].tasks).contains(id));
        }
    }
    assert(results_of_calls(after) =~= results_of_calls(calls).union(results_of_tasks(call.tasks)));
}

fn status_of_outcome(node: &SpineTreeNodeSnapshot) -> (r: AgentStatus)
    ensures
        r@ == outcome_status(node@),
{
    match node.spawn_outcome {
        Some(SpineSpawnOutcome::Completed) => AgentStatus::Completed(None),
        Some(SpineSpawnOutcome::Errored) => AgentStatus::Errored(
            match &node.memory_summary {
                Some(m) => m.clone(),
                None => "Agent failed".to_owned(),
            },
        ),
        Some(SpineSpawnOutcome::Aborted) => AgentStatus::Interrupted,
        None => AgentStatus::Interrupted,
    }
}

fn find_result(
    nodes: &Vec<SpineTreeNodeSnapshot>,
    parent: &Option<String>,
    summary: &String,
    claimed: &KeySet<String>,
) -> (at: usize)
    ensures
        at == result_position(views(nodes@), text_view(*parent), summary@, claimed@),
{
    let ghost all = views(nodes@);
    let mut at: usize = 0;
    while at < nodes.len()
        invariant
            at <= nodes.len(),
            all == views(nodes@),
            forall|j: int|
                0 <= j < at ==> !carries_result(
                    #[trigger] all[j],
                    text_view(*parent),
                    summary@,
                    claimed@,
                ),
        decreases nodes.len() - at,
    {
        let node = &nodes[at];
        assert(all[at as int] == node@);
        let same_summary = match &node.summary {
            Some(s) => *s == *summary,
            None => false,
        };
        if node.spawn_outcome.is_some() && same_optional_text(&node.parent_id, parent)
            && same_summary && !claimed.contains(&node.node_id) {
            proof {
                lemma_result_position(all, text_view(*parent), summary@, claimed@);
            }
            return at;
        }
        at += 1;
    }
    proof {
        lemma_result_position(all, text_view(*parent), summary@, claimed@);
    }
    at
}

fn settle_tasks(
    tasks: &Vec<SpawnTask>,
    parent: &Option<String>,
    nodes: &Vec<SpineTreeNodeSnapshot>,
    claimed: &mut KeySet<String>,
) -> (r: Vec<SpawnTask>)
    ensures
        views(r@) == settled_tasks(
            views(tasks@),
            text_view(*parent),
            views(nodes@),
            old(claimed)@,
        ),
        final(claimed)@ == old(claimed)@.union(results_of_tasks(views(r@))),
{
    let ghost all = views(tasks@);
    let ghost nv = views(nodes@);
    let ghost pv = text_view(*parent);
    let ghost start = claimed@;
    let mut out: Vec<SpawnTask> = Vec::new();
    let mut i: usize = 0;
    proof {
        assert(views(out@) =~= Seq::empty());
        assert(start.union(results_of_tasks(views(out@))) =~= start);
    }
    while i < tasks.len()
        invariant
            i <= tasks.len(),
            all == views(tasks@),
            nv == views(nodes@),
            pv == text_view(*parent),
            views(out@) == settled_tasks(all.take(i as int), pv, nv, start),
            claimed@ == start.union(results_of_tasks(views(out@))),
        decreases tasks.len() - i,
    {
        let task = &tasks[i];
        let ghost before = views(out@);
        proof {
            assert(all[i as int] == task@);
            assert(all.take(i + 1).drop_last() =~= all.take(i as int));
            lemma_result_position(nv, pv, task@.progress.summary, claimed@);
        }
        let at = if task.result_node_id.is_some() {
            nodes.len()
        } else {
            find_result(nodes, parent, &task.progress.summary, claimed)
        };
        let next: SpawnTask = if at < nodes.len() {
            let status = status_of_outcome(&nodes[at]);
            assert(nv[at as int] == nodes@[at as int]@);
            let _ = claimed.insert(nodes[at].node_id.clone());
            SpawnTask {
                progress: SpineSpawnTaskProgress {
                    ordinal: task.progress.ordinal,
                    summary: task.progress.summary.clone(),
                    thread_id: task.progress.thread_id,
                    agent_path: copy_optional_text(&task.progress.agent_path),
                    status: if should_keep_agent_status(&task.progress.status, &status) {
                        task.progress.status.clone()
                    } else {
                        status
                    },
                },
                result_node_id: Some(nodes[at].node_id.clone()),
            }
        } else {
            match &task.result_node_id {
                Some(id) => {
                    let _ = claimed.insert(id.clone());
                },
                None => {},
            }
            task.clone()
        };
        let ghost nextv = next@;
        out.push(next);
        proof {
            assert(views(out@) =~= before.push(nextv));
            lemma_results_push(before, nextv);
            assert(claimed@ =~= start.union(results_of_tasks(views(out@))));
        }
        i += 1;
    }
    assert(all.take(i as int) =~= all);
    out
}

fn claimed_results(calls: &Vec<SpawnCall>) -> (r: KeySet<String>)
    ensures
        r@ == results_of_calls(views(calls@)),
{
    let ghost all = views(calls@);
    let mut out: KeySet<String> = KeySet::new();
    let mut i: usize = 0;
    assert(out@ =~= results_of_calls(all.take(0)));
    while i < calls.len()
        invariant
            i <= calls.len(),
            all == views(calls@),
            out@ == results_of_calls(all.take(i as int)),
        decreases calls.len() - i,
    {
        let tasks = &calls[i].tasks;
        let ghost tv = views(tasks@);
        let ghost start = out@;
        let mut j: usize = 0;
        assert(start.union(results_of_tasks(tv.take(0))) =~= start);
        while j < tasks.len()
            invariant
                j <= tasks.len(),
                tv == views(tasks@),
                out@ == start.union(results_of_tasks(tv.take(j as int))),
            decreases tasks.len() - j,
        {
            assert(tv.take(j + 1) =~= tv.take(j as int).push(tv[j as int]));
            assert(tv[j as int] == tasks@[j as int]@);
            proof {
                lemma_results_push(tv.take(j as int), tv[j as int]);
            }
            match &tasks[j].result_node_id {
                Some(id) => {
                    let _ = out.insert(id.clone());
                },
                None => {},
            }
            assert(out@ =~= start.union(results_of_tasks(tv.take(j + 1))));
            j += 1;
        }
        proof {
            assert(tv.take(j as int) =~= tv);
            assert(all[i as int] == calls@[i as int]@);
            assert(all.take(i + 1) =~= all.take(i as int).push(all[i as int]));
            lemma_call_results_push(all.take(i as int), all[i as int]);
        }
        i += 1;
    }
    assert(all.take(i as int) =~= all);
    out
}

/// Links the settled calls to the result nodes of a snapshot.
pub fn reconcile_spawn_result_nodes(
    calls: &Vec<SpawnCall>,
    settled: &KeySet<String>,
    nodes: &Vec<SpineTreeNodeSnapshot>,
) -> (r: Vec<SpawnCall>)
    ensures
        views(r@) == reconciled(views(calls@), settled@, views(nodes@)),
{
    let ghost all = views(calls@);
    let ghost nv = views(nodes@);
    let mut claimed = claimed_results(calls);
    let ghost start = claimed@;
    let mut out: Vec<SpawnCall> = Vec::new();
    let mut i: usize = 0;
    proof {
        assert(views(out@) =~= Seq::empty());
        assert(start.union(results_of_calls(views(out@))) =~= start);
        lemma_results_bound(all);
    }
    while i < calls.len()
        invariant
            i <= calls.len(),
            all == views(calls@),
            nv == views(nodes@),
            start == results_of_calls(all),
            forall|j: int|
                0 <= j < all.len() ==> results_of_tasks((#[trigger] all[j]).tasks).subset_of(start),
            views(out@) == settled_calls(all.take(i as int), settled@, nv, start),
            claimed@ == start.union(results_of_calls(views(out@))),
        decreases calls.len() - i,
    {
        let call = &calls[i];
        let ghost before = views(out@);
        proof {
            assert(all[i as int] == call@);
            assert(all.take(i + 1).drop_last() =~= all.take(i as int));
        }
        let next = if settled.contains(&call.call_id) {
            let tasks = settle_tasks(&call.tasks, &call.parent_node_id, nodes, &mut claimed);
            SpawnCall {
                call_id: call.call_id.clone(),
                parent_node_id: copy_optional_text(&call.parent_node_id),
                tasks,
            }
        } else {
            call.clone()
        };
        let ghost nextv = next@;
        out.push(next);
        proof {
            assert(views(out@) =~= before.push(nextv));
            lemma_call_results_push(before, nextv);
            assert(claimed@ =~= start.union(results_of_calls(views(out@))));
        }
        i += 1;
    }
    assert(all.take(i as int) =~= all);
    out
}

proof fn lemma_results_bound(calls: Seq<SpawnCallView>)
    ensures
        forall|j: int|
            0 <= j < calls.len() ==> results_of_tasks((#[trigger] calls[j]).tasks).subset_of(
                results_of_calls(calls),
            ),
{
    assert forall|j: int| 0 <= j < calls.len() implies results_of_tasks(
        (#[trigger] calls[j]).tasks,
    ).subset_of(results_of_calls(calls)) by {
        assert forall|id: Seq<char>| results_of_tasks(calls[j].tasks).contains(id) implies
            results_of_calls(calls).contains(id) by {}
    }
}

/// Whether some call spawned an agent on a thread.
pub fn is_known_agent(calls: &Vec<SpawnCall>, thread_id: ThreadId) -> (r: bool)
    ensures
        r == spawned(views(calls@), thread_id),
{
    let ghost all = views(calls@);
    let mut i: usize = 0;
    while i < calls.len()
        invariant
            i <= calls.len(),
            all == views(calls@),
            forall|k: int, l: int|
                0 <= k < i && 0 <= l < all[k].tasks.len() ==> (
                #[trigger] all[k].tasks[l]).progress.thread_id != thread_id,
        decreases calls.len() - i,
    {
        let tasks = &calls[i].tasks;
        assert(all[i as int] == calls@[i as int]@);
        let mut j: usize = 0;
        while j < tasks.len()
            invariant
                i < calls.len(),
                j <= tasks.len(),
                all == views(calls@),
                all[i as int].tasks == views(tasks@),
                forall|l: int|
                    0 <= l < j ==> (#[trigger] all[i as int].tasks[l]).progress.thread_id
                        != thread_id,
            decreases tasks.len() - j,
        {
            assert(all[i as int].tasks[j as int] == tasks@[j as int]@);
            if tasks[j].progress.thread_id == thread_id {
                return true;
            }
            j += 1;
        }
        i += 1;
    }
    false
}

fn knows_call(calls: &Vec<SpawnCall>, call_id: &String) -> (r: bool)
    ensures
        r == has_call(views(calls@), call_id@),
{
    let ghost all = views(calls@);
    let mut i: usize = 0;
    while i < calls.len()
        invariant
            i <= calls.len(),
            all == views(calls@),
            forall|k: int| 0 <= k < i ==> (#[trigger] all[k]).call_id != call_id@,
        decreases calls.len() - i,
    {
        assert(all[i as int] == calls@[i as int]@);
        if calls[i].call_id == *call_id {
            return true;
        }
        i += 1;
    }
    false
}

fn anchor_calls(calls: &Vec<SpawnCall>, active: &String) -> (r: Vec<SpawnCall>)
    ensures
        views(r@) == anchored(views(calls@), active@),
{
    let mut out: Vec<SpawnCall> = Vec::new();
    let mut i: usize = 0;
    while i < calls.len()
        invariant
            i <= calls.len(),
            out@.len() == i,
            forall|j: int|
                0 <= j < i ==> (#[trigger] out@[j])@ == anchored(views(calls@), active@)[j],
        decreases calls.len() - i,
    {
        let mut call = calls[i].clone();
        if call.parent_node_id.is_none() {
            call.parent_node_id = Some(active.clone());
        }
        out.push(call);
        i += 1;
    }
    assert(views(out@) =~= anchored(views(calls@), active@));
    out
}

fn settled_of(
    before: &KeySet<String>,
    reported: &Vec<String>,
) -> (r: KeySet<String>)
    ensures
        r@ == before@.union(views(reported@).to_set()),
{
    let ghost all = views(reported@);
    let mut out = before.copy_set();
    let mut i: usize = 0;
    assert(out@ =~= before@.union(all.take(0).to_set()));
    while i < reported.len()
        invariant
            i <= reported.len(),
            all == views(reported@),
            out@ == before@.union(all.take(i as int).to_set()),
        decreases reported.len() - i,
    {
        let _ = out.insert(reported[i].clone());
        proof {
            let a = all.take(i as int);
            let b = all.take(i + 1);
            assert(b =~= a.push(all[i as int]));
            assert forall|x: Seq<char>| #[trigger] b.contains(x) == (a.contains(x) || x == all[i as int]) by {
                if a.contains(x) {
                    let j = choose|j: int| 0 <= j < a.len() && a[j] == x;
                    assert(b[j] == x);
                }
                if x == all[i as int] {
                    assert(b[i as int] == x);
                }
            }
            assert(out@ =~= before@.union(b.to_set()));
        }
        i += 1;
    }
    assert(all.take(i as int) =~= all);
    out
}

fn settled_in(ids: &KeySet<String>, calls: &Vec<SpawnCall>) -> (r: KeySet<String>)
    ensures
        r@ == ids@.filter(|id: Seq<char>| has_call(views(calls@), id)),
{
    let listed = ids.members_of();
    let ghost all = views(listed@);
    let ghost cv = views(calls@);
    let mut out: KeySet<String> = KeySet::new();
    let mut i: usize = 0;
    while i < listed.len()
        invariant
            i <= listed.len(),
            all == views(listed@),
            cv == views(calls@),
            all.to_set() == ids@,
            forall|x: Seq<char>| #[trigger]
                out@.contains(x) == (all.take(i as int).contains(x) && has_call(cv, x)),
        decreases listed.len() - i,
    {
        let ghost earlier = out@;
        if knows_call(calls, &listed[i]) {
            let _ = out.insert(listed[i].clone());
        }
        proof {
            let a = all.take(i as int);
            let b = all.take(i + 1);
            assert forall|x: Seq<char>| #[trigger]
                out@.contains(x) == (b.contains(x) && has_call(cv, x)) by {
                assert(b.contains(x) == (a.contains(x) || x == all[i as int])) by {
                    if a.contains(x) {
                        let j = choose|j: int| 0 <= j < a.len() && a[j] == x;
                        assert(b[j] == x);
                    }
                    if x == all[i as int] {
                        assert(b[i as int] == x);
                    }
                    if b.contains(x) && x != all[i as int] {
                        let j = choose|j: int| 0 <= j < b.len() && b[j] == x;
                        assert(a[j] == x);
                    }
                }
                assert(earlier.contains(x) == (a.contains(x) && has_call(cv, x)));
                assert(all[i as int] == listed@[i as int]@);
            }
        }
        i += 1;
    }
    assert(all.take(i as int) =~= all);
    assert(out@ =~= ids@.filter(|id: Seq<char>| has_call(views(calls@), id)));
    out
}

fn retain_visible_agents(agents: Vec<AgentSubtree>, calls: &Vec<SpawnCall>) -> (r: Vec<
    AgentSubtree,
>)
    requires
        each_thread_once(agents@),
    ensures
        views(r@) == visible_agents(views(agents@), views(calls@)),
        each_thread_once(r@),
{
    let shows = |a: &AgentSubtree| -> (b: bool)
        ensures
            b == spawned(views(calls@), a@.thread_id),
    {
        is_known_agent(calls, a.thread_id)
    };
    let ghost all = agents@;
    let out = retain_items(
        agents,
        shows,
        Ghost(|a: AgentSubtreeView| spawned(views(calls@), a.thread_id)),
    );
    proof {
        lemma_once_views(all);
        lemma_once_views(out@);
        lemma_filtered_subtrees(
            views(all),
            |a: AgentSubtreeView| spawned(views(calls@), a.thread_id),
        );
    }
    out
}

fn retain_visible_generations(generations: &mut AssocMap<ThreadId, u64>, calls: &Vec<SpawnCall>)
    ensures
        final(generations)@ == visible_generations(old(generations)@, views(calls@)),
{
    let shows = |t: &ThreadId, g: &u64| -> (b: bool)
        ensures
            b == spawned(views(calls@), t@),
    {
        is_known_agent(calls, *t)
    };
    generations.retain(shows, Ghost(|t: ThreadId, g: u64| spawned(views(calls@), t)));
}

impl SpineUiState {
    /// Records a snapshot at a given time. Says whether the card changed.
    pub fn record_snapshot_at(
        &mut self,
        snapshot: SpineTreeUpdateEvent,
        now: i64,
    ) -> (changed: bool)
        ensures
            changed == old(self)@.takes_snapshot(snapshot@),
            final(self)@ == old(self)@.with_snapshot(snapshot@, now),
    {
        proof {
            lemma_agents(*self);
        }
        if let Some(current) = &self.snapshot {
            if snapshot.snapshot_seq < current.snapshot_seq || snapshot.same(current) {
                return false;
            }
        }
        let anchored_calls = anchor_calls(&self.spawn_calls, &snapshot.active_node_id);
        let settled = settled_of(&self.settled_spawn_call_ids, &snapshot.settled_spawn_call_ids);
        let calls = reconcile_spawn_result_nodes(&anchored_calls, &settled, &snapshot.nodes);
        let agents = self.agent_subtrees.take();
        self.agent_subtrees = AgentSubtrees::from_items(retain_visible_agents(agents, &calls));
        retain_visible_generations(&mut self.invalidated_agent_generations, &calls);
        retain_visible_generations(&mut self.agent_sync_timeouts, &calls);
        self.settled_spawn_call_ids = settled_in(&settled, &calls);
        self.spawn_calls = calls;
        self.snapshot = Some(snapshot);
        if self.started_at_ms.is_none() {
            self.started_at_ms = Some(now);
        }
        self.revision = self.revision.saturating_add(1);
        proof {
            lemma_agents(*self);
        }
        true
    }
}

} // verus!
