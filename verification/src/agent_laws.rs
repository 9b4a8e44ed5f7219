//! What progress reports, agents' cards and their ends do to a card, seen from outside.
use crate::agents::{agent_position, lemma_agent_position, started_call, task_position};
use crate::keyed::lemma_position;
use crate::protocol::{AgentStatusView, NodeView, SpawnProgressView, TaskProgressView, ThreadId};
use crate::snapshot::spawned;
use crate::snapshot_laws::{in_order, is_open, lemma_choice_keeps_order, works_on};
use crate::spawn::{
    call_position, first_with_ordinal, is_terminal, lemma_call_position, lemma_first_with_ordinal,
    merged_call, merged_status, merged_task, result_of_ordinal, status_rank_of,
};
use crate::state::{AgentSubtreeView, SpawnTaskView, StateView};
use vstd::prelude::*;

verus! {

/// A status that ended stays. A running agent does not start over; any other report is believed.
pub proof fn lemma_reports_move_agents_on(current: AgentStatusView, incoming: AgentStatusView)
    ensures
        ({
            let after = merged_status(current, incoming);
            &&& !is_open(current) ==> after == current
            &&& current == AgentStatusView::PendingInit ==> after == incoming
            &&& current == AgentStatusView::Running && incoming == AgentStatusView::PendingInit
                ==> after == current
            &&& current == AgentStatusView::Running && incoming != AgentStatusView::PendingInit
                ==> after == incoming
        }),
{
}

/// A status that is still open ranks below every one that ended: starting lowest, then running, then
/// interrupted, and all other ends alike above it.
pub proof fn lemma_statuses_are_ranked(a: AgentStatusView, b: AgentStatusView)
    ensures
        is_terminal(a) == !is_open(a),
        a is PendingInit && !(b is PendingInit) ==> status_rank_of(a) < status_rank_of(b),
        a is Running && !is_open(b) ==> status_rank_of(a) < status_rank_of(b),
        a is Interrupted && !is_open(b) && !(b is Interrupted) ==> status_rank_of(a)
            < status_rank_of(b),
        !is_open(a) && !(a is Interrupted) && !is_open(b) && !(b is Interrupted)
            ==> status_rank_of(a) == status_rank_of(b),
        status_rank_of(AgentStatusView::PendingInit) == 0,
        status_rank_of(AgentStatusView::Shutdown) == 3,
{
}

/// Whether a card differs from another in its calls, its start and its revision alone.
pub open spec fn only_calls_differ(a: StateView, b: StateView) -> bool {
    a.completed_at_ms == b.completed_at_ms && a.snapshot == b.snapshot && a.settled == b.settled
        && a.agents == b.agents && a.invalidated == b.invalidated && a.timeouts == b.timeouts
}

/// Whether the tasks of a call are those of a report, on top of what was known of their ordinals: a
/// task keeps the result node and moves on from the status that its ordinal had.
pub open spec fn reports(
    known: Seq<SpawnTaskView>,
    reported: Seq<TaskProgressView>,
    after: Seq<SpawnTaskView>,
) -> bool {
    &&& after.len() == reported.len()
    &&& forall|k: int|
        0 <= k < reported.len() ==> {
            let task = #[trigger] after[k];
            &&& task.progress.ordinal == reported[k].ordinal
            &&& task.progress.summary == reported[k].summary
            &&& task.progress.thread_id == reported[k].thread_id
            &&& task.progress.agent_path == reported[k].agent_path
            &&& (forall|m: int|
                0 <= m < known.len() ==> (#[trigger] known[m]).progress.ordinal
                    != reported[k].ordinal) ==> task.progress.status == reported[k].status
                && task.result_node_id is None
        }
    &&& forall|k: int, m: int|
        #![trigger after[k], known[m]]
        0 <= k < reported.len() && 0 <= m < known.len() && known[m].progress.ordinal
            == reported[k].ordinal && (forall|n: int|
            0 <= n < known.len() && n != m ==> (#[trigger] known[n]).progress.ordinal
                != reported[k].ordinal) ==> {
            let was = known[m].progress.status;
            &&& after[k].result_node_id == known[m].result_node_id
            &&& !is_open(was) ==> after[k].progress.status == was
            &&& was == AgentStatusView::PendingInit ==> after[k].progress.status
                == reported[k].status
            &&& was == AgentStatusView::Running ==> after[k].progress.status == (
            if reported[k].status == AgentStatusView::PendingInit {
                was
            } else {
                reported[k].status
            })
        }
}

/// The result node of an ordinal that no task has, and of one that a single task has.
proof fn lemma_single_result(tasks: Seq<SpawnTaskView>, ordinal: u32)
    ensures
        (forall|m: int| 0 <= m < tasks.len() ==> (#[trigger] tasks[m]).progress.ordinal != ordinal)
            ==> result_of_ordinal(tasks, ordinal) is None,
        forall|m: int|
            #![trigger tasks[m]]
            0 <= m < tasks.len() && tasks[m].progress.ordinal == ordinal && (forall|n: int|
                0 <= n < tasks.len() && n != m ==> (#[trigger] tasks[n]).progress.ordinal
                    != ordinal) ==> result_of_ordinal(tasks, ordinal) == tasks[m].result_node_id,
    decreases tasks.len(),
{
    if tasks.len() > 0 {
        let rest = tasks.drop_last();
        lemma_single_result(rest, ordinal);
        assert forall|m: int| 0 <= m < rest.len() implies #[trigger] rest[m] == tasks[m] by {}
        if (forall|m: int| 0 <= m < tasks.len() ==> (#[trigger] tasks[m]).progress.ordinal
            != ordinal) {
            assert(tasks[tasks.len() - 1].progress.ordinal != ordinal);
        }
        assert forall|m: int|
            #![trigger tasks[m]]
            0 <= m < tasks.len() && tasks[m].progress.ordinal == ordinal && (forall|n: int|
                0 <= n < tasks.len() && n != m ==> (#[trigger] tasks[n]).progress.ordinal
                    != ordinal) implies result_of_ordinal(tasks, ordinal)
            == tasks[m].result_node_id by {
            if m < rest.len() {
                assert(tasks[tasks.len() - 1].progress.ordinal != ordinal);
                assert(rest[m].progress.ordinal == ordinal);
            }
        }
    }
}

/// Progress of a settled call is ignored. Any other report leaves every other call as it is, and
/// gives its own call exactly the reported tasks: where the call was known, in its place and on top
/// of what was known; else as a new call at the end. The call hangs under the node that it had, else
/// under the active node of the tree.
pub proof fn lemma_progress_is_entered(s: StateView, report: SpawnProgressView, now: i64)
    ensures
        ({
            let after = s.with_progress(report, now);
            let calls = s.spawn_calls;
            &&& s.settled.contains(report.call_id) ==> after == s
            &&& only_calls_differ(s, after)
            &&& after != s ==> after.started_at_ms == Some(
                if s.started_at_ms is Some {
                    s.started_at_ms->0
                } else {
                    now
                },
            )
            &&& after != s && s.revision < u64::MAX ==> after.revision == s.revision + 1
            &&& !s.settled.contains(report.call_id) && (forall|i: int|
                0 <= i < calls.len() ==> (#[trigger] calls[i]).call_id != report.call_id) ==> {
                &&& after.spawn_calls.len() == calls.len() + 1
                &&& forall|i: int|
                    0 <= i < calls.len() ==> #[trigger] after.spawn_calls[i] == calls[i]
                &&& after.spawn_calls.last().call_id == report.call_id
                &&& reports(Seq::empty(), report.tasks, after.spawn_calls.last().tasks)
                &&& s.snapshot is Some ==> after.spawn_calls.last().parent_node_id == Some(
                    s.snapshot->0.active_node_id,
                )
                &&& s.snapshot is None ==> after.spawn_calls.last().parent_node_id is None
            }
            &&& forall|k: int|
                #![trigger calls[k]]
                !s.settled.contains(report.call_id) && 0 <= k < calls.len() && calls[k].call_id
                    == report.call_id && (forall|i: int|
                    0 <= i < k ==> (#[trigger] calls[i]).call_id != report.call_id) ==> {
                    let call = after.spawn_calls[k];
                    &&& after.spawn_calls.len() == calls.len()
                    &&& forall|i: int|
                        0 <= i < calls.len() && i != k ==> #[trigger] after.spawn_calls[i]
                            == calls[i]
                    &&& call.call_id == report.call_id
                    &&& reports(calls[k].tasks, report.tasks, call.tasks)
                    &&& calls[k].parent_node_id is Some ==> call.parent_node_id
                        == calls[k].parent_node_id
                    &&& calls[k].parent_node_id is None && s.snapshot is Some
                        ==> call.parent_node_id == Some(s.snapshot->0.active_node_id)
                    &&& calls[k].parent_node_id is None && s.snapshot is None
                        ==> call.parent_node_id is None
                }
        }),
{
    let after = s.with_progress(report, now);
    let calls = s.spawn_calls;
    let at = call_position(calls, report.call_id);
    lemma_call_position(calls, report.call_id);
    if at < calls.len() {
        let known = calls[at].tasks;
        let merged = merged_call(calls[at], report, s.active_node());
        assert(reports(known, report.tasks, merged.tasks)) by {
            assert forall|k: int| 0 <= k < report.tasks.len() implies {
                let task = #[trigger] merged.tasks[k];
                &&& task.progress.ordinal == report.tasks[k].ordinal
                &&& task.progress.summary == report.tasks[k].summary
                &&& task.progress.thread_id == report.tasks[k].thread_id
                &&& task.progress.agent_path == report.tasks[k].agent_path
                &&& (forall|m: int|
                    0 <= m < known.len() ==> (#[trigger] known[m]).progress.ordinal
                        != report.tasks[k].ordinal) ==> task.progress.status
                    == report.tasks[k].status && task.result_node_id is None
            } by {
                lemma_first_with_ordinal(known, report.tasks[k].ordinal);
                lemma_single_result(known, report.tasks[k].ordinal);
            }
            assert forall|k: int, m: int|
                #![trigger merged.tasks[k], known[m]]
                0 <= k < report.tasks.len() && 0 <= m < known.len() && known[m].progress.ordinal
                    == report.tasks[k].ordinal && (forall|n: int|
                    0 <= n < known.len() && n != m ==> (#[trigger] known[n]).progress.ordinal
                        != report.tasks[k].ordinal) implies {
                let was = known[m].progress.status;
                &&& merged.tasks[k].result_node_id == known[m].result_node_id
                &&& !is_open(was) ==> merged.tasks[k].progress.status == was
                &&& was == AgentStatusView::PendingInit ==> merged.tasks[k].progress.status
                    == report.tasks[k].status
                &&& was == AgentStatusView::Running ==> merged.tasks[k].progress.status == (
                if report.tasks[k].status == AgentStatusView::PendingInit {
                    was
                } else {
                    report.tasks[k].status
                })
            } by {
                lemma_first_with_ordinal(known, report.tasks[k].ordinal);
                lemma_single_result(known, report.tasks[k].ordinal);
                let first = first_with_ordinal(known, report.tasks[k].ordinal);
                if first != m {
                    assert(known[m].progress.ordinal == report.tasks[k].ordinal);
                    if first < m {
                        assert(known[first].progress.ordinal != report.tasks[k].ordinal);
                    }
                }
                assert(first == m);
            }
        }
        if !s.settled.contains(report.call_id) {
            assert(after.spawn_calls =~= calls.update(at, merged));
            assert forall|k: int|
                #![trigger calls[k]]
                0 <= k < calls.len() && calls[k].call_id == report.call_id && (forall|i: int|
                    0 <= i < k ==> (#[trigger] calls[i]).call_id != report.call_id) implies k
                == at by {
                if at < k {
                    assert(calls[at].call_id != report.call_id);
                }
            }
        }
    } else {
        if !s.settled.contains(report.call_id) {
            let none = Seq::<SpawnTaskView>::empty();
            assert(reports(none, report.tasks, after.spawn_calls.last().tasks));
        }
    }
}

/// An agent is looked up by its thread: what is found is the first subtree of the thread, and nothing
/// is found only where the thread has none.
pub proof fn lemma_agent_is_found_by_thread(s: StateView, thread_id: ThreadId)
    ensures
        s.agent(thread_id) matches Some(found) ==> found.thread_id == thread_id
            && s.agents.contains(found),
        s.agent(thread_id) is None ==> forall|i: int|
            0 <= i < s.agents.len() ==> (#[trigger] s.agents[i]).thread_id != thread_id,
        forall|i: int|
            0 <= i < s.agents.len() && (#[trigger] s.agents[i]).thread_id == thread_id && (forall|
                j: int,
            |
                0 <= j < i ==> (#[trigger] s.agents[j]).thread_id != thread_id) ==> s.agent(
                thread_id,
            ) == Some(s.agents[i]),
{
    lemma_agent_position(s.agents, thread_id);
    let at = agent_position(s.agents, thread_id);
    assert forall|i: int|
        0 <= i < s.agents.len() && (#[trigger] s.agents[i]).thread_id == thread_id && (forall|
            j: int,
        |
            0 <= j < i ==> (#[trigger] s.agents[j]).thread_id != thread_id) implies s.agent(
        thread_id,
    ) == Some(s.agents[i]) by {
        if at < i {
            assert(s.agents[at].thread_id != thread_id);
        }
    }
}

/// Whether two cards differ in their calls, subtrees and revision alone.
pub open spec fn same_frame(a: StateView, b: StateView) -> bool {
    a.started_at_ms == b.started_at_ms && a.completed_at_ms == b.completed_at_ms && a.snapshot
        == b.snapshot && a.settled == b.settled && a.invalidated == b.invalidated && a.timeouts
        == b.timeouts
}

/// Whether a task is the same but that its agent, on a thread, may have gone from starting to
/// running.
pub open spec fn may_have_started(
    before: SpawnTaskView,
    after: SpawnTaskView,
    thread_id: ThreadId,
) -> bool {
    &&& after.progress.ordinal == before.progress.ordinal
    &&& after.progress.summary == before.progress.summary
    &&& after.progress.thread_id == before.progress.thread_id
    &&& after.progress.agent_path == before.progress.agent_path
    &&& after.result_node_id == before.result_node_id
    &&& after.progress.status == before.progress.status || (before.progress.status
        == AgentStatusView::PendingInit && after.progress.status == AgentStatusView::Running
        && before.progress.thread_id == thread_id)
}

/// A card takes an agent's card where one of its tasks runs on the agent's thread, the generation is
/// newer than every invalidated one, and no newer card is shown: one of a newer generation, or of
/// the same one with at least the same revision. It then shows that card, under that generation, in
/// the place of the agent's last one, every other agent as before, and the agent's first task of
/// each call no longer as starting.
pub proof fn lemma_agents_card_is_shown(
    s: StateView,
    child: ThreadId,
    generation: u64,
    state: StateView,
)
    ensures
        ({
            let after = s.with_agent(child, generation, state);
            let refused = !works_on(s.spawn_calls, child) || (s.invalidated.contains_key(child)
                && s.invalidated[child] >= generation) || (s.agent(child) matches Some(current)
                && (current.generation > generation || (current.generation == generation
                && current.state.revision >= state.revision)));
            &&& refused ==> after == s
            &&& !refused ==> {
                &&& after.agent(child) == Some(
                    AgentSubtreeView { thread_id: child, generation, state },
                )
                &&& forall|t: ThreadId|
                    t != child ==> #[trigger] after.agent(t) == s.agent(t)
                &&& after.agents.len() == s.agents.len() + (if s.agent(child) is Some {
                    0int
                } else {
                    1
                })
                &&& same_frame(s, after)
                &&& s.revision < u64::MAX ==> after.revision == s.revision + 1
                &&& after.spawn_calls.len() == s.spawn_calls.len()
                &&& forall|i: int|
                    0 <= i < s.spawn_calls.len() ==> {
                        let was = s.spawn_calls[i];
                        let is = #[trigger] after.spawn_calls[i];
                        &&& is.call_id == was.call_id
                        &&& is.parent_node_id == was.parent_node_id
                        &&& is.tasks.len() == was.tasks.len()
                        &&& forall|j: int|
                            0 <= j < was.tasks.len() ==> may_have_started(
                                was.tasks[j],
                                #[trigger] is.tasks[j],
                                child,
                            )
                        &&& forall|j: int|
                            0 <= j < was.tasks.len() && (
                            #[trigger] is.tasks[j]).progress.thread_id == child && (forall|m: int|
                                0 <= m < j ==> (#[trigger] was.tasks[m]).progress.thread_id
                                    != child) ==> is.tasks[j].progress.status
                                != AgentStatusView::PendingInit
                    }
            }
        }),
{
    let after = s.with_agent(child, generation, state);
    lemma_agent_position(s.agents, child);
    assert(spawned(s.spawn_calls, child) == works_on(s.spawn_calls, child));
    if s.takes_agent(child, generation, state) {
        let at = agent_position(s.agents, child);
        lemma_agent_position(after.agents, child);
        let there = agent_position(after.agents, child);
        assert(after.agents[at].thread_id == child);
        if there < at {
            assert(after.agents[there] == s.agents[there]);
        }
        assert forall|t: ThreadId| t != child implies #[trigger] after.agent(t) == s.agent(t) by {
            lemma_agent_position(s.agents, t);
            lemma_agent_position(after.agents, t);
            let a = agent_position(s.agents, t);
            let b = agent_position(after.agents, t);
            if a < s.agents.len() {
                assert(after.agents[a] == s.agents[a]);
            }
            if b < after.agents.len() {
                assert(b != at);
                assert(after.agents[b] == s.agents[b]);
            }
        }
        assert forall|i: int| 0 <= i < s.spawn_calls.len() implies {
            let was = s.spawn_calls[i];
            let is = #[trigger] after.spawn_calls[i];
            &&& is.call_id == was.call_id
            &&& is.parent_node_id == was.parent_node_id
            &&& is.tasks.len() == was.tasks.len()
            &&& forall|j: int|
                0 <= j < was.tasks.len() ==> may_have_started(
                    was.tasks[j],
                    #[trigger] is.tasks[j],
                    child,
                )
            &&& forall|j: int|
                0 <= j < was.tasks.len() && (#[trigger] is.tasks[j]).progress.thread_id == child
                    && (forall|m: int|
                    0 <= m < j ==> (#[trigger] was.tasks[m]).progress.thread_id != child)
                    ==> is.tasks[j].progress.status != AgentStatusView::PendingInit
        } by {
            let was = s.spawn_calls[i];
            lemma_position(was.tasks, |t: SpawnTaskView| t.progress.thread_id == child);
            let first = task_position(was.tasks, child);
            assert(after.spawn_calls[i] == started_call(was, child));
            assert forall|j: int|
                0 <= j < was.tasks.len() && was.tasks[j].progress.thread_id == child && (forall|
                    m: int,
                |
                    0 <= m < j ==> (#[trigger] was.tasks[m]).progress.thread_id != child) implies j
                == first by {
                if first < j {
                    assert(was.tasks[first].progress.thread_id != child);
                }
            }
        }
    }
}

/// An invalidation takes an agent of the generation, or of an older one, off the card with its
/// missing end, and leaves every other agent, and a newer one, as they are. The newest invalidated
/// generation is remembered. The revision moves where something went.
pub proof fn lemma_invalidation_takes_one_agent_off(
    s: StateView,
    child: ThreadId,
    generation: u64,
    other: ThreadId,
)
    requires
        crate::state::one_subtree_each(s.agents),
        other != child,
    ensures
        ({
            let after = s.without_agent(child, generation);
            let gone = s.agent(child) is Some && s.agent(child)->0.generation <= generation;
            let missed = s.timeouts.contains_key(child) && s.timeouts[child] <= generation;
            &&& gone ==> after.agent(child) is None
            &&& !gone ==> after.agent(child) == s.agent(child)
            &&& after.agent(other) == s.agent(other)
            &&& after.agents.len() == s.agents.len() - (if gone {
                1int
            } else {
                0
            })
            &&& after.timeouts.contains_key(child) == (s.timeouts.contains_key(child) && !missed)
            &&& after.timeouts.contains_key(child) ==> after.timeouts[child] == s.timeouts[child]
            &&& after.timeouts.contains_key(other) == s.timeouts.contains_key(other)
            &&& after.timeouts.contains_key(other) ==> after.timeouts[other] == s.timeouts[other]
            &&& after.invalidated.contains_key(child)
            &&& after.invalidated[child] >= generation
            &&& s.invalidated.contains_key(child) ==> after.invalidated[child]
                >= s.invalidated[child] && (after.invalidated[child] == generation
                || after.invalidated[child] == s.invalidated[child])
            &&& !s.invalidated.contains_key(child) ==> after.invalidated[child] == generation
            &&& after.invalidated.contains_key(other) == s.invalidated.contains_key(other)
            &&& after.invalidated.contains_key(other) ==> after.invalidated[other]
                == s.invalidated[other]
            &&& !gone && !missed ==> after.revision == s.revision
            &&& (gone || missed) && s.revision < u64::MAX ==> after.revision == s.revision + 1
            &&& after.started_at_ms == s.started_at_ms
            &&& after.completed_at_ms == s.completed_at_ms
            &&& after.snapshot == s.snapshot
            &&& after.spawn_calls == s.spawn_calls
            &&& after.settled == s.settled
        }),
{
    let after = s.without_agent(child, generation);
    let at = agent_position(s.agents, child);
    lemma_agent_position(s.agents, child);
    lemma_agent_position(after.agents, child);
    lemma_agent_position(s.agents, other);
    lemma_agent_position(after.agents, other);
    if after.agents != s.agents {
        assert forall|k: int| 0 <= k < after.agents.len() implies #[trigger] after.agents[k]
            == s.agents[if k < at {
            k
        } else {
            k + 1
        }] by {}
        let there = agent_position(after.agents, child);
        if there < after.agents.len() {
            let from = if there < at {
                there
            } else {
                there + 1
            };
            assert(after.agents[there] == s.agents[from]);
            assert(s.agents[at].thread_id == child);
        }
        let a = agent_position(s.agents, other);
        let b = agent_position(after.agents, other);
        if a < s.agents.len() {
            let to = if a < at {
                a
            } else {
                a - 1
            };
            assert(after.agents[to] == s.agents[a]);
            if b < after.agents.len() {
                let from = if b < at {
                    b
                } else {
                    b + 1
                };
                assert(after.agents[b] == s.agents[from]);
                if a != from {
                    if a < from {
                        assert(s.agents[a].thread_id != s.agents[from].thread_id);
                    } else {
                        assert(s.agents[from].thread_id != s.agents[a].thread_id);
                    }
                }
            }
        } else if b < after.agents.len() {
            let from = if b < at {
                b
            } else {
                b + 1
            };
            assert(after.agents[b] == s.agents[from]);
        }
    } else {
        assert(after.agents == s.agents);
    }
}

/// Whether a task of a card, or of any card that it shows, awaits its end.
pub open spec fn has_open_task(s: StateView) -> bool
    decreases s,
{
    (exists|i: int, j: int|
        0 <= i < s.spawn_calls.len() && 0 <= j < s.spawn_calls[i].tasks.len() && is_open(
            (#[trigger] s.spawn_calls[i].tasks[j]).progress.status,
        )) || (exists|k: int| 0 <= k < s.agents.len() && has_open_task(
        (#[trigger] s.agents[k]).state,
    ))
}

proof fn lemma_open_is_incomplete(s: StateView)
    ensures
        has_open_task(s) == s.incomplete(),
    decreases s,
{
    assert forall|k: int| 0 <= k < s.agents.len() implies has_open_task(
        (#[trigger] s.agents[k]).state,
    ) == s.agents[k].state.incomplete() by {
        lemma_open_is_incomplete(s.agents[k].state);
    }
    if exists|i: int, j: int|
        0 <= i < s.spawn_calls.len() && 0 <= j < s.spawn_calls[i].tasks.len() && is_open(
            (#[trigger] s.spawn_calls[i].tasks[j]).progress.status,
        ) {
        let (i, j) = choose|i: int, j: int|
            0 <= i < s.spawn_calls.len() && 0 <= j < s.spawn_calls[i].tasks.len() && is_open(
                (#[trigger] s.spawn_calls[i].tasks[j]).progress.status,
            );
        assert(crate::agents::is_incomplete(s.spawn_calls[i].tasks[j].progress.status));
    }
    if crate::agents::has_incomplete(s.spawn_calls) {
        let (i, j) = choose|i: int, j: int|
            0 <= i < s.spawn_calls.len() && 0 <= j < s.spawn_calls[i].tasks.len()
                && crate::agents::is_incomplete(
                (#[trigger] s.spawn_calls[i].tasks[j]).progress.status,
            );
        assert(is_open(s.spawn_calls[i].tasks[j].progress.status));
    }
}

/// Ending the agents of a card gives every open task the end, at every depth, and changes nothing
/// else; the revision moves where a task was open somewhere.
pub proof fn lemma_open_tasks_end(s: StateView, terminal: AgentStatusView)
    ensures
        ({
            let after = s.ended(terminal);
            &&& after.spawn_calls.len() == s.spawn_calls.len()
            &&& forall|i: int|
                0 <= i < s.spawn_calls.len() ==> (#[trigger] after.spawn_calls[i]).call_id
                    == s.spawn_calls[i].call_id && after.spawn_calls[i].parent_node_id
                    == s.spawn_calls[i].parent_node_id && after.spawn_calls[i].tasks.len()
                    == s.spawn_calls[i].tasks.len()
            &&& forall|i: int, j: int|
                0 <= i < s.spawn_calls.len() && 0 <= j < s.spawn_calls[i].tasks.len() ==> {
                    let was = s.spawn_calls[i].tasks[j];
                    let is = #[trigger] after.spawn_calls[i].tasks[j];
                    &&& is_open(was.progress.status) ==> is.progress.status == terminal
                    &&& !is_open(was.progress.status) ==> is.progress.status
                        == was.progress.status
                    &&& is.progress.ordinal == was.progress.ordinal
                    &&& is.progress.summary == was.progress.summary
                    &&& is.progress.thread_id == was.progress.thread_id
                    &&& is.progress.agent_path == was.progress.agent_path
                    &&& is.result_node_id == was.result_node_id
                }
            &&& after.agents.len() == s.agents.len()
            &&& forall|k: int|
                0 <= k < s.agents.len() ==> (#[trigger] after.agents[k]).thread_id
                    == s.agents[k].thread_id && after.agents[k].generation
                    == s.agents[k].generation && after.agents[k].state
                    == s.agents[k].state.ended(terminal)
            &&& same_frame(s, after)
            &&& !has_open_task(s) ==> after.revision == s.revision
            &&& has_open_task(s) && s.revision < u64::MAX ==> after.revision == s.revision + 1
        }),
{
    lemma_open_is_incomplete(s);
}

/// What a parent shows of a child's tree: exactly the nodes that it does not show itself, in their
/// order. The active node is kept where it is among them, else the last of them takes its place; a
/// tree without new nodes keeps its active node. A call that hangs under a node of the parent loses
/// its anchor. Everything else of the card is kept.
pub proof fn lemma_projection_keeps_the_rest(s: StateView, baseline: Set<Seq<char>>)
    ensures
        ({
            let after = s.projected(baseline);
            &&& after.snapshot is Some == s.snapshot is Some
            &&& s.snapshot matches Some(tree) ==> {
                let shown = after.snapshot->0;
                &&& shown.snapshot_seq == tree.snapshot_seq
                &&& shown.settled_spawn_call_ids == tree.settled_spawn_call_ids
                &&& in_order(shown.nodes, tree.nodes)
                &&& forall|n: NodeView| #[trigger]
                    shown.nodes.contains(n) == (tree.nodes.contains(n) && !baseline.contains(
                        n.node_id,
                    ))
                &&& (exists|i: int|
                    0 <= i < shown.nodes.len() && (#[trigger] shown.nodes[i]).node_id
                        == tree.active_node_id) ==> shown.active_node_id == tree.active_node_id
                &&& shown.nodes.len() == 0 ==> shown.active_node_id == tree.active_node_id
                &&& shown.nodes.len() > 0 && !(exists|i: int|
                    0 <= i < shown.nodes.len() && (#[trigger] shown.nodes[i]).node_id
                        == tree.active_node_id) ==> shown.active_node_id
                    == shown.nodes.last().node_id
            }
            &&& after.spawn_calls.len() == s.spawn_calls.len()
            &&& forall|i: int|
                0 <= i < s.spawn_calls.len() ==> {
                    let was = s.spawn_calls[i];
                    let is = #[trigger] after.spawn_calls[i];
                    &&& is.call_id == was.call_id
                    &&& is.tasks == was.tasks
                    &&& was.parent_node_id is Some && baseline.contains(was.parent_node_id->0)
                        ==> is.parent_node_id is None
                    &&& !(was.parent_node_id is Some && baseline.contains(was.parent_node_id->0))
                        ==> is.parent_node_id == was.parent_node_id
                }
            &&& same_rest(s, after)
        }),
{
    if let Some(tree) = s.snapshot {
        let p = |n: NodeView| !baseline.contains(n.node_id);
        let shown = tree.nodes.filter(p);
        lemma_choice_keeps_order(tree.nodes, p);
        assert forall|n: NodeView| #[trigger] shown.contains(n) == (tree.nodes.contains(n)
            && !baseline.contains(n.node_id)) by {
            if shown.contains(n) {
                tree.nodes.lemma_filter_contains_rev(p, n);
                let k = choose|k: int| 0 <= k < shown.len() && shown[k] == n;
                tree.nodes.lemma_filter_pred(p, k);
            }
            if tree.nodes.contains(n) && !baseline.contains(n.node_id) {
                let k = choose|k: int| 0 <= k < tree.nodes.len() && tree.nodes[k] == n;
                tree.nodes.lemma_filter_contains(p, k);
            }
        }
    }
}

/// Whether two cards differ in their tree and their calls alone.
pub open spec fn same_rest(a: StateView, b: StateView) -> bool {
    a.revision == b.revision && a.started_at_ms == b.started_at_ms && a.completed_at_ms
        == b.completed_at_ms && a.settled == b.settled && a.agents == b.agents && a.invalidated
        == b.invalidated && a.timeouts == b.timeouts
}

/// The next turn starts with everything that a card holds but its tree and its times. A completed
/// card keeps its first completion time. A new revision changes nothing else.
pub proof fn lemma_cards_go_on(s: StateView, now: i64, revision: u64)
    ensures
        ({
            let next = s.carried();
            &&& next.started_at_ms is None
            &&& next.completed_at_ms is None
            &&& next.snapshot is None
            &&& next.revision == s.revision
            &&& next.spawn_calls == s.spawn_calls
            &&& next.settled == s.settled
            &&& next.agents == s.agents
            &&& next.invalidated == s.invalidated
            &&& next.timeouts == s.timeouts
        }),
        ({
            let done = s.completed_by(now);
            &&& s.completed_at_ms is Some ==> done == s
            &&& s.completed_at_ms is None ==> done.completed_at_ms == Some(now)
            &&& done.snapshot == s.snapshot && done.spawn_calls == s.spawn_calls
                && done.started_at_ms == s.started_at_ms && done.revision == s.revision
            &&& done.settled == s.settled && done.agents == s.agents && done.invalidated
                == s.invalidated && done.timeouts == s.timeouts
        }),
        ({
            let numbered = s.at_revision(revision);
            &&& numbered.revision == revision
            &&& numbered.snapshot == s.snapshot && numbered.spawn_calls == s.spawn_calls
            &&& same_frame(numbered, s) && numbered.agents == s.agents
        }),
{
}

/// An agent's end is reported missing where one of the card's tasks runs on its thread, and nothing
/// newer than the generation was invalidated or shown, nor anything as new invalidated or reported
/// missing. The report is withdrawn by the same generation or a newer one. Nothing but the missing
/// ends and the revision changes.
pub proof fn lemma_missing_ends_come_and_go(
    s: StateView,
    child: ThreadId,
    generation: u64,
    withdrawn: u64,
    other: ThreadId,
)
    requires
        other != child,
    ensures
        ({
            let after = s.with_timeout(child, generation);
            let refused = !works_on(s.spawn_calls, child) || (s.invalidated.contains_key(child)
                && s.invalidated[child] >= generation) || (s.timeouts.contains_key(child)
                && s.timeouts[child] >= generation) || (s.agent(child) matches Some(current)
                && current.generation > generation);
            &&& refused ==> after == s
            &&& !refused ==> after.timeouts.contains_key(child) && after.timeouts[child]
                == generation && (s.revision < u64::MAX ==> after.revision == s.revision + 1)
            &&& after.timeouts.contains_key(other) == s.timeouts.contains_key(other)
            &&& after.timeouts.contains_key(other) ==> after.timeouts[other] == s.timeouts[other]
            &&& after.spawn_calls == s.spawn_calls && after.agents == s.agents && after.snapshot
                == s.snapshot && after.invalidated == s.invalidated && after.settled == s.settled
            &&& after.started_at_ms == s.started_at_ms && after.completed_at_ms
                == s.completed_at_ms
        }),
        ({
            let after = s.without_timeout(child, withdrawn);
            let held = s.timeouts.contains_key(child) && s.timeouts[child] <= withdrawn;
            &&& !held ==> after == s
            &&& held ==> !after.timeouts.contains_key(child) && (s.revision < u64::MAX
                ==> after.revision == s.revision + 1)
            &&& after.timeouts.contains_key(other) == s.timeouts.contains_key(other)
            &&& after.timeouts.contains_key(other) ==> after.timeouts[other] == s.timeouts[other]
            &&& after.spawn_calls == s.spawn_calls && after.agents == s.agents && after.snapshot
                == s.snapshot && after.invalidated == s.invalidated && after.settled == s.settled
            &&& after.started_at_ms == s.started_at_ms && after.completed_at_ms
                == s.completed_at_ms
        }),
{
    assert(spawned(s.spawn_calls, child) == works_on(s.spawn_calls, child));
}

/// A card mentions an agent that it shows or whose end is missing, under the newer of the two
/// generations; it tracks one that it shows under exactly a generation.
pub proof fn lemma_mentions_are_newest(s: StateView, child: ThreadId, generation: u64)
    ensures
        ({
            let shown = s.agent(child);
            let missed = s.timeouts.contains_key(child);
            let named = s.mentioned();
            &&& named.contains_key(child) == (shown is Some || missed)
            &&& shown is Some ==> named[child] >= shown->0.generation
            &&& missed ==> named[child] >= s.timeouts[child]
            &&& named.contains_key(child) ==> (shown is Some && named[child]
                == shown->0.generation) || (missed && named[child] == s.timeouts[child])
            &&& s.tracks(child, generation) == (shown is Some && shown->0.generation
                == generation)
            &&& s.tracks_or_awaits(child, generation) == ((shown is Some && shown->0.generation
                == generation) || (missed && s.timeouts[child] == generation))
            &&& s.awaits() == (exists|t: ThreadId| #[trigger] s.timeouts.contains_key(t))
        }),
{
    if !s.awaits() {
        assert(s.timeouts =~= Map::empty());
    } else {
        assert(!(s.timeouts =~= Map::empty()));
        if forall|t: ThreadId| !(#[trigger] s.timeouts.contains_key(t)) {
            assert(s.timeouts =~= Map::empty());
        }
    }
}

/// Where several known tasks have the ordinal of a reported one, its status moves on from the first of
/// them and its result node is that of the last.
pub proof fn lemma_repeated_ordinals_are_told_apart(
    known: Seq<SpawnTaskView>,
    report: TaskProgressView,
    first: int,
    last: int,
)
    requires
        0 <= first < known.len(),
        0 <= last < known.len(),
        known[first].progress.ordinal == report.ordinal,
        known[last].progress.ordinal == report.ordinal,
        forall|m: int| 0 <= m < first ==> (#[trigger] known[m]).progress.ordinal != report.ordinal,
        forall|m: int|
            last < m < known.len() ==> (#[trigger] known[m]).progress.ordinal != report.ordinal,
    ensures
        ({
            let after = merged_task(known, report);
            let was = known[first].progress.status;
            &&& after.result_node_id == known[last].result_node_id
            &&& !is_open(was) ==> after.progress.status == was
            &&& was == AgentStatusView::PendingInit ==> after.progress.status == report.status
            &&& was == AgentStatusView::Running && report.status == AgentStatusView::PendingInit
                ==> after.progress.status == was
            &&& was == AgentStatusView::Running && report.status != AgentStatusView::PendingInit
                ==> after.progress.status == report.status
        }),
{
    lemma_first_with_ordinal(known, report.ordinal);
    let at = first_with_ordinal(known, report.ordinal);
    if at < first {
        assert(known[at].progress.ordinal != report.ordinal);
    }
    lemma_last_result(known, report.ordinal, last);
}

proof fn lemma_last_result(tasks: Seq<SpawnTaskView>, ordinal: u32, last: int)
    requires
        0 <= last < tasks.len(),
        tasks[last].progress.ordinal == ordinal,
        forall|m: int| last < m < tasks.len() ==> (#[trigger] tasks[m]).progress.ordinal != ordinal,
    ensures
        result_of_ordinal(tasks, ordinal) == tasks[last].result_node_id,
    decreases tasks.len(),
{
    if last < tasks.len() - 1 {
        assert(tasks[tasks.len() - 1].progress.ordinal != ordinal);
        let rest = tasks.drop_last();
        assert forall|m: int| last < m < rest.len() implies (#[trigger] rest[m]).progress.ordinal
            != ordinal by {
            assert(tasks[m].progress.ordinal != ordinal);
        }
        lemma_last_result(rest, ordinal, last);
    }
}

/// A report that leaves the calls as they are leaves the whole card as it is.
pub proof fn lemma_report_without_news_changes_nothing(
    s: StateView,
    report: SpawnProgressView,
    now: i64,
)
    ensures
        s.with_progress(report, now).spawn_calls == s.spawn_calls ==> s.with_progress(report, now)
            == s,
{
    let calls = s.spawn_calls;
    let at = call_position(calls, report.call_id);
    lemma_call_position(calls, report.call_id);
    let after = s.with_progress(report, now);
    if s.takes_progress(report) {
        if at < calls.len() {
            assert(after.spawn_calls[at] == merged_call(calls[at], report, s.active_node()));
        }
    }
}

/// Agents keep their places: a card that is shown anew stands where the agent's last one stood, or
/// behind all others; what an invalidation leaves stands in its order. Of the tasks on an agent's
/// thread only the first of each call is started with its card.
pub proof fn lemma_agents_keep_their_places(
    s: StateView,
    child: ThreadId,
    generation: u64,
    state: StateView,
)
    ensures
        ({
            let after = s.with_agent(child, generation, state);
            &&& forall|k: int|
                0 <= k < s.agents.len() ==> (#[trigger] after.agents[k]).thread_id
                    == s.agents[k].thread_id && (s.agents[k].thread_id != child ==> after.agents[k]
                    == s.agents[k])
            &&& after.agents.len() > s.agents.len() ==> after.agents.last().thread_id == child
            &&& forall|i: int, j: int, m: int|
                #![trigger after.spawn_calls[i].tasks[j], s.spawn_calls[i].tasks[m]]
                0 <= i < s.spawn_calls.len() && 0 <= m < j < s.spawn_calls[i].tasks.len()
                    && s.spawn_calls[i].tasks[m].progress.thread_id == child
                    ==> after.spawn_calls[i].tasks[j] == s.spawn_calls[i].tasks[j]
        }),
        in_order(s.without_agent(child, generation).agents, s.agents),
{
    let after = s.with_agent(child, generation, state);
    lemma_agent_position(s.agents, child);
    let at = agent_position(s.agents, child);
    assert forall|i: int, j: int, m: int|
        #![trigger after.spawn_calls[i].tasks[j], s.spawn_calls[i].tasks[m]]
        0 <= i < s.spawn_calls.len() && 0 <= m < j < s.spawn_calls[i].tasks.len()
            && s.spawn_calls[i].tasks[m].progress.thread_id == child implies
        after.spawn_calls[i].tasks[j] == s.spawn_calls[i].tasks[j] by {
        let was = s.spawn_calls[i];
        lemma_position(was.tasks, |t: SpawnTaskView| t.progress.thread_id == child);
        let first = task_position(was.tasks, child);
        if first > m {
            assert(was.tasks[m].progress.thread_id != child);
        }
        if s.takes_agent(child, generation, state) {
            assert(after.spawn_calls[i] == started_call(was, child));
        }
    }
    lemma_removal_keeps_order(s.agents, at);
    lemma_whole_is_in_order(s.agents);
}

proof fn lemma_whole_is_in_order<A>(whole: Seq<A>)
    ensures
        in_order(whole, whole),
    decreases whole.len(),
{
    if whole.len() > 0 {
        lemma_whole_is_in_order(whole.drop_last());
    }
}

proof fn lemma_removal_keeps_order<A>(whole: Seq<A>, at: int)
    ensures
        0 <= at < whole.len() ==> in_order(whole.remove(at), whole),
    decreases whole.len(),
{
    if 0 <= at < whole.len() {
        let rest = whole.drop_last();
        if at == whole.len() - 1 {
            assert(whole.remove(at) =~= rest);
            lemma_whole_is_in_order(rest);
            if rest.len() > 0 {
                lemma_removal_keeps_order(rest, rest.len() - 1);
                assert(rest.remove(rest.len() - 1) =~= rest.drop_last());
            }
        } else {
            lemma_removal_keeps_order(rest, at);
            assert(whole.remove(at).drop_last() =~= rest.remove(at));
            assert(whole.remove(at).last() == whole.last());
        }
    }
}

} // verus!
