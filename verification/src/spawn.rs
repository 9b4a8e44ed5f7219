//! Spawn calls: agent status precedence and progress updates.
use crate::keyed::{lemma_position, position, views};
use crate::protocol::{
    AgentStatus, AgentStatusView, SpawnProgressView, SpineSpawnProgressEvent,
    SpineSpawnTaskProgress, TaskProgressView,
};
use crate::state::{
    lemma_agents, next_revision, SpawnCall, SpawnCallView, SpawnTask, SpawnTaskView, SpineUiState,
    StateView,
};
use crate::text::copy_optional_text;
use vstd::prelude::*;

verus! {

/// How far an agent has come: starting, running, interrupted, finished.
pub open spec fn status_rank_of(status: AgentStatusView) -> u8 {
    match status {
        AgentStatusView::PendingInit => 0,
        AgentStatusView::Running => 1,
        AgentStatusView::Interrupted => 2,
        AgentStatusView::Completed(_)
        | AgentStatusView::Errored(_)
        | AgentStatusView::Shutdown
        | AgentStatusView::NotFound => 3,
    }
}

/// Whether a status is final.
pub open spec fn is_terminal(status: AgentStatusView) -> bool {
    status_rank_of(status) >= 2
}

/// Whether a known status outlives a reported one: a final status always does, another one where
/// the report would step back.
pub open spec fn keeps_status(current: AgentStatusView, incoming: AgentStatusView) -> bool {
    is_terminal(current) || status_rank_of(current) > status_rank_of(incoming)
}

/// The status after a report.
pub open spec fn merged_status(
    current: AgentStatusView,
    incoming: AgentStatusView,
) -> AgentStatusView {
    if keeps_status(current, incoming) {
        current
    } else {
        incoming
    }
}

pub fn status_rank(status: &AgentStatus) -> (r: u8)
    ensures
        r == status_rank_of(status@),
{
    match status {
        AgentStatus::PendingInit => 0,
        AgentStatus::Running => 1,
        AgentStatus::Interrupted => 2,
        AgentStatus::Completed(_) => 3,
        AgentStatus::Errored(_) => 3,
        AgentStatus::Shutdown => 3,
        AgentStatus::NotFound => 3,
    }
}

pub fn should_keep_agent_status(current: &AgentStatus, incoming: &AgentStatus) -> (r: bool)
    ensures
        r == keeps_status(current@, incoming@),
{
    status_rank(current) >= 2 || status_rank(current) > status_rank(incoming)
}

/// The first task of a list with an ordinal, or the length.
pub open spec fn first_with_ordinal(tasks: Seq<SpawnTaskView>, ordinal: u32) -> int {
    position(tasks, |t: SpawnTaskView| t.progress.ordinal == ordinal)
}

/// The result node of the last task with an ordinal.
pub open spec fn result_of_ordinal(tasks: Seq<SpawnTaskView>, ordinal: u32) -> Option<Seq<char>>
    decreases tasks.len(),
{
    if tasks.len() == 0 {
        None
    } else if tasks.last().progress.ordinal == ordinal {
        tasks.last().result_node_id
    } else {
        result_of_ordinal(tasks.drop_last(), ordinal)
    }
}

/// A reported task merged with what was known of its ordinal.
pub open spec fn merged_task(known: Seq<SpawnTaskView>, report: TaskProgressView) -> SpawnTaskView {
    let at = first_with_ordinal(known, report.ordinal);
    SpawnTaskView {
        progress: TaskProgressView {
            status: if at < known.len() {
                merged_status(known[at].progress.status, report.status)
            } else {
                report.status
            },
            ..report
        },
        result_node_id: result_of_ordinal(known, report.ordinal),
    }
}

/// A call after a progress report, made while `active` is the active node.
pub open spec fn merged_call(
    call: SpawnCallView,
    report: SpawnProgressView,
    active: Option<Seq<char>>,
) -> SpawnCallView {
    SpawnCallView {
        call_id: call.call_id,
        parent_node_id: if call.parent_node_id is Some {
            call.parent_node_id
        } else {
            active
        },
        tasks: report.tasks.map_values(|t: TaskProgressView| merged_task(call.tasks, t)),
    }
}

/// A call seen for the first time.
pub open spec fn fresh_call(
    report: SpawnProgressView,
    active: Option<Seq<char>>,
) -> SpawnCallView {
    SpawnCallView {
        call_id: report.call_id,
        parent_node_id: active,
        tasks: report.tasks.map_values(
            |t: TaskProgressView| SpawnTaskView { progress: t, result_node_id: None },
        ),
    }
}

/// The first call with an identifier, or the length.
pub open spec fn call_position(calls: Seq<SpawnCallView>, call_id: Seq<char>) -> int {
    position(calls, |c: SpawnCallView| c.call_id == call_id)
}

pub proof fn lemma_call_position(calls: Seq<SpawnCallView>, call_id: Seq<char>)
    ensures
        0 <= call_position(calls, call_id) <= calls.len(),
        call_position(calls, call_id) < calls.len() ==> calls[call_position(
            calls,
            call_id,
        )].call_id == call_id,
        forall|j: int|
            0 <= j < call_position(calls, call_id) ==> (#[trigger] calls[j]).call_id != call_id,
{
    lemma_position(calls, |c: SpawnCallView| c.call_id == call_id);
}

pub proof fn lemma_first_with_ordinal(tasks: Seq<SpawnTaskView>, ordinal: u32)
    ensures
        0 <= first_with_ordinal(tasks, ordinal) <= tasks.len(),
        first_with_ordinal(tasks, ordinal) < tasks.len() ==> tasks[first_with_ordinal(
            tasks,
            ordinal,
        )].progress.ordinal == ordinal,
        forall|j: int|
            0 <= j < first_with_ordinal(tasks, ordinal) ==> (
            #[trigger] tasks[j]).progress.ordinal != ordinal,
{
    lemma_position(tasks, |t: SpawnTaskView| t.progress.ordinal == ordinal);
}

impl StateView {
    /// The active node of the latest snapshot.
    pub open spec fn active_node(self) -> Option<Seq<char>> {
        match self.snapshot {
            Some(s) => Some(s.active_node_id),
            None => None,
        }
    }

    /// Whether a progress report would change the card: its call is not settled, and it is new or
    /// differs from what is known.
    pub open spec fn takes_progress(self, report: SpawnProgressView) -> bool {
        let at = call_position(self.spawn_calls, report.call_id);
        !self.settled.contains(report.call_id) && (at == self.spawn_calls.len() || merged_call(
            self.spawn_calls[at],
            report,
            self.active_node(),
        ) != self.spawn_calls[at])
    }

    /// The spawn calls after a progress report.
    pub open spec fn calls_with_progress(self, report: SpawnProgressView) -> Seq<SpawnCallView> {
        let at = call_position(self.spawn_calls, report.call_id);
        if at < self.spawn_calls.len() {
            self.spawn_calls.update(
                at,
                merged_call(self.spawn_calls[at], report, self.active_node()),
            )
        } else {
            self.spawn_calls.push(fresh_call(report, self.active_node()))
        }
    }

    /// The start time once something was recorded at `now`.
    pub open spec fn started_by(self, now: i64) -> Option<i64> {
        if self.started_at_ms is Some {
            self.started_at_ms
        } else {
            Some(now)
        }
    }

    /// The state after a progress report at `now`.
    pub open spec fn with_progress(self, report: SpawnProgressView, now: i64) -> StateView {
        if self.takes_progress(report) {
            StateView {
                spawn_calls: self.calls_with_progress(report),
                started_at_ms: self.started_by(now),
                revision: next_revision(self.revision),
                ..self
            }
        } else {
            self
        }
    }
}

fn merge_task(known: &Vec<SpawnTask>, report: &SpineSpawnTaskProgress) -> (r: SpawnTask)
    ensures
        r@ == merged_task(views(known@), report@),
{
    let mut at: Option<usize> = None;
    let mut result: Option<String> = None;
    let mut i: usize = 0;
    let ghost all = views(known@);
    proof {
        lemma_first_with_ordinal(all, report.ordinal);
        assert(all.take(0) =~= Seq::empty());
    }
    while i < known.len()
        invariant
            i <= known.len(),
            all == views(known@),
            crate::text::text_view(result) == result_of_ordinal(
                all.take(i as int),
                report.ordinal,
            ),
            match at {
                Some(k) => k < i && all[k as int].progress.ordinal == report.ordinal && (forall|
                    j: int,
                |
                    0 <= j < k ==> (#[trigger] all[j]).progress.ordinal != report.ordinal),
                None => forall|j: int|
                    0 <= j < i ==> (#[trigger] all[j]).progress.ordinal != report.ordinal,
            },
        decreases known.len() - i,
    {
        assert(all.take(i + 1).drop_last() =~= all.take(i as int));
        assert(all[i as int] == known@[i as int]@);
        if known[i].progress.ordinal == report.ordinal {
            if at.is_none() {
                at = Some(i);
            }
            result = copy_optional_text(&known[i].result_node_id);
        }
        i += 1;
    }
    assert(all.take(i as int) =~= all);
    let status = match at {
        Some(k) => {
            if should_keep_agent_status(&known[k].progress.status, &report.status) {
                known[k].progress.status.clone()
            } else {
                report.status.clone()
            }
        },
        None => report.status.clone(),
    };
    SpawnTask {
        progress: SpineSpawnTaskProgress {
            ordinal: report.ordinal,
            summary: report.summary.clone(),
            thread_id: report.thread_id,
            agent_path: copy_optional_text(&report.agent_path),
            status,
        },
        result_node_id: result,
    }
}

impl SpineUiState {
    /// Records a progress report at a given time. Says whether the card changed.
    pub fn record_spawn_progress_at(
        &mut self,
        progress: SpineSpawnProgressEvent,
        now: i64,
    ) -> (changed: bool)
        ensures
            changed == old(self)@.takes_progress(progress@),
            final(self)@ == old(self)@.with_progress(progress@, now),
    {
        proof {
            lemma_agents(*self);
        }
        if self.settled_spawn_call_ids.contains(&progress.call_id) {
            return false;
        }
        let active: Option<String> = match &self.snapshot {
            Some(s) => Some(s.active_node_id.clone()),
            None => None,
        };
        let ghost calls = views(self.spawn_calls@);
        let mut at: usize = 0;
        while at < self.spawn_calls.len() && !(self.spawn_calls[at].call_id == progress.call_id)
            invariant
                at <= self.spawn_calls.len(),
                calls == views(self.spawn_calls@),
                forall|j: int| 0 <= j < at ==> (#[trigger] calls[j]).call_id != progress@.call_id,
            decreases self.spawn_calls.len() - at,
        {
            assert(calls[at as int] == self.spawn_calls@[at as int]@);
            at += 1;
        }
        proof {
            lemma_call_position(calls, progress@.call_id);
            if at < calls.len() {
                assert(calls[at as int] == self.spawn_calls@[at as int]@);
            }
            assert(at == call_position(calls, progress@.call_id));
        }
        let found = at < self.spawn_calls.len();
        let mut tasks: Vec<SpawnTask> = Vec::new();
        let mut i: usize = 0;
        while i < progress.tasks.len()
            invariant
                i <= progress.tasks.len(),
                at <= self.spawn_calls.len(),
                found == (at < self.spawn_calls.len()),
                calls == views(self.spawn_calls@),
                tasks@.len() == i,
                forall|j: int|
                    0 <= j < i ==> (#[trigger] tasks@[j])@ == if found {
                        merged_task(calls[at as int].tasks, progress@.tasks[j])
                    } else {
                        SpawnTaskView { progress: progress@.tasks[j], result_node_id: None }
                    },
            decreases progress.tasks.len() - i,
        {
            assert(progress@.tasks[i as int] == progress.tasks@[i as int]@);
            if found {
                assert(calls[at as int] == self.spawn_calls@[at as int]@);
                tasks.push(merge_task(&self.spawn_calls[at].tasks, &progress.tasks[i]));
            } else {
                tasks.push(
                    SpawnTask { progress: progress.tasks[i].clone(), result_node_id: None },
                );
            }
            i += 1;
        }
        if found {
            let parent = if self.spawn_calls[at].parent_node_id.is_some() {
                copy_optional_text(&self.spawn_calls[at].parent_node_id)
            } else {
                active
            };
            let merged = SpawnCall {
                call_id: self.spawn_calls[at].call_id.clone(),
                parent_node_id: parent,
                tasks,
            };
            assert(calls[at as int] == self.spawn_calls@[at as int]@);
            assert(merged@.tasks =~= merged_call(
                calls[at as int],
                progress@,
                self@.active_node(),
            ).tasks);
            if merged.same(&self.spawn_calls[at]) {
                return false;
            }
            let ghost mv = merged@;
            self.spawn_calls.set(at, merged);
            assert(views(self.spawn_calls@) =~= calls.update(at as int, mv));
        } else {
            let fresh = SpawnCall { call_id: progress.call_id, parent_node_id: active, tasks };
            let ghost fv = fresh@;
            assert(fv.tasks =~= fresh_call(progress@, self@.active_node()).tasks);
            self.spawn_calls.push(fresh);
            assert(views(self.spawn_calls@) =~= calls.push(fv));
        }
        if self.started_at_ms.is_none() {
            self.started_at_ms = Some(now);
        }
        self.revision = self.revision.saturating_add(1);
        proof {
            lemma_agents(*self);
        }
        true
    }
}

} // verus!
