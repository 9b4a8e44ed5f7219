//! Agent subtrees: recording, invalidation, terminal marking, and projection into a parent's card.
use crate::clock::now_unix_timestamp_ms;
use crate::keyed::{lemma_position, position, retain_items, views, AssocMap, KeySet};
use crate::protocol::{
    AgentStatus, AgentStatusView, NodeView, SpineSpawnProgressEvent, SpineTreeNodeSnapshot,
    SpineTreeUpdateEvent, TaskProgressView, ThreadId, TreeUpdateView,
};
use crate::snapshot::{is_known_agent, spawned};
use crate::state::{
    copy_calls, copy_generations, each_thread_once, lemma_agents, lemma_once_views,
    lemma_subtree_is_smaller, next_revision, one_subtree_each, snapshot_view, AgentSubtree,
    AgentSubtreeView, AgentSubtrees, SpawnCall, SpawnCallView, SpawnTask, SpawnTaskView,
    SpineUiState, StateView,
};
use vstd::prelude::*;

verus! {

/// The first subtree of a thread, or the length.
pub open spec fn agent_position(agents: Seq<AgentSubtreeView>, thread_id: ThreadId) -> int {
    position(agents, |a: AgentSubtreeView| a.thread_id == thread_id)
}

pub proof fn lemma_agent_position(agents: Seq<AgentSubtreeView>, thread_id: ThreadId)
    ensures
        0 <= agent_position(agents, thread_id) <= agents.len(),
        agent_position(agents, thread_id) < agents.len() ==> agents[agent_position(
            agents,
            thread_id,
        )].thread_id == thread_id,
        forall|j: int|
            0 <= j < agent_position(agents, thread_id) ==> (#[trigger] agents[j]).thread_id
                != thread_id,
{
    lemma_position(agents, |a: AgentSubtreeView| a.thread_id == thread_id);
}

/// The first task on a thread, or the length.
pub open spec fn task_position(tasks: Seq<SpawnTaskView>, thread_id: ThreadId) -> int {
    position(tasks, |t: SpawnTaskView| t.progress.thread_id == thread_id)
}

/// A call once its agent on a thread has reported: a task that was starting is running.
pub open spec fn started_call(call: SpawnCallView, thread_id: ThreadId) -> SpawnCallView {
    let at = task_position(call.tasks, thread_id);
    if at < call.tasks.len() && call.tasks[at].progress.status is PendingInit {
        SpawnCallView {
            tasks: call.tasks.update(
                at,
                SpawnTaskView {
                    progress: TaskProgressView {
                        status: AgentStatusView::Running,
                        ..call.tasks[at].progress
                    },
                    ..call.tasks[at]
                },
            ),
            ..call
        }
    } else {
        call
    }
}

/// The generation recorded for a thread is at least the given one.
pub open spec fn covers(generations: Map<ThreadId, u64>, thread_id: ThreadId, generation: u64) -> bool {
    generations.contains_key(thread_id) && generation <= generations[thread_id]
}

/// Whether a status still awaits an end.
pub open spec fn is_incomplete(status: AgentStatusView) -> bool {
    status is PendingInit || status is Running
}

/// A status once incomplete agents are ended.
pub open spec fn ended_status(status: AgentStatusView, terminal: AgentStatusView) -> AgentStatusView {
    if is_incomplete(status) {
        terminal
    } else {
        status
    }
}

pub open spec fn ended_task(task: SpawnTaskView, terminal: AgentStatusView) -> SpawnTaskView {
    SpawnTaskView {
        progress: TaskProgressView {
            status: ended_status(task.progress.status, terminal),
            ..task.progress
        },
        ..task
    }
}

pub open spec fn ended_call(call: SpawnCallView, terminal: AgentStatusView) -> SpawnCallView {
    SpawnCallView {
        tasks: call.tasks.map_values(|t: SpawnTaskView| ended_task(t, terminal)),
        ..call
    }
}

/// Whether some task of the calls is incomplete.
pub open spec fn has_incomplete(calls: Seq<SpawnCallView>) -> bool {
    exists|i: int, j: int|
        0 <= i < calls.len() && 0 <= j < calls[i].tasks.len() && is_incomplete(
            (#[trigger] calls[i].tasks[j]).progress.status,
        )
}

/// A snapshot without the nodes that a parent already shows. The active node falls back to the last
/// node left.
pub open spec fn projected_snapshot(
    snapshot: TreeUpdateView,
    baseline: Set<Seq<char>>,
) -> TreeUpdateView {
    let nodes = snapshot.nodes.filter(|n: NodeView| !baseline.contains(n.node_id));
    TreeUpdateView {
        nodes,
        active_node_id: if nodes.len() > 0 && !(exists|i: int|
            0 <= i < nodes.len() && (#[trigger] nodes[i]).node_id == snapshot.active_node_id) {
            nodes.last().node_id
        } else {
            snapshot.active_node_id
        },
        ..snapshot
    }
}

/// A call without an anchor that a parent already shows.
pub open spec fn projected_call(call: SpawnCallView, baseline: Set<Seq<char>>) -> SpawnCallView {
    SpawnCallView {
        parent_node_id: match call.parent_node_id {
            Some(id) => if baseline.contains(id) {
                None
            } else {
                Some(id)
            },
            None => None,
        },
        ..call
    }
}

impl StateView {
    /// The subtree of a thread.
    pub open spec fn agent(self, thread_id: ThreadId) -> Option<AgentSubtreeView> {
        let at = agent_position(self.agents, thread_id);
        if at < self.agents.len() {
            Some(self.agents[at])
        } else {
            None
        }
    }

    /// Whether an agent's state is news: the agent was spawned here, its generation was not
    /// invalidated, and no newer state is held.
    pub open spec fn takes_agent(
        self,
        thread_id: ThreadId,
        generation: u64,
        child: StateView,
    ) -> bool {
        &&& spawned(self.spawn_calls, thread_id)
        &&& !covers(self.invalidated, thread_id, generation)
        &&& match self.agent(thread_id) {
            Some(current) => generation > current.generation || (generation == current.generation
                && child.revision > current.state.revision),
            None => true,
        }
    }

    /// The state after an agent reported its state under a generation.
    pub open spec fn with_agent(
        self,
        thread_id: ThreadId,
        generation: u64,
        child: StateView,
    ) -> StateView {
        if self.takes_agent(thread_id, generation, child) {
            let at = agent_position(self.agents, thread_id);
            let entry = AgentSubtreeView { thread_id, generation, state: child };
            StateView {
                spawn_calls: self.spawn_calls.map_values(
                    |c: SpawnCallView| started_call(c, thread_id),
                ),
                agents: if at < self.agents.len() {
                    self.agents.update(at, entry)
                } else {
                    self.agents.push(entry)
                },
                revision: next_revision(self.revision),
                ..self
            }
        } else {
            self
        }
    }

    /// Whether the subtree or the timeout of a thread is at most as new as a generation.
    pub open spec fn drops_agent(self, thread_id: ThreadId, generation: u64) -> bool {
        (match self.agent(thread_id) {
            Some(current) => current.generation <= generation,
            None => false,
        }) || (self.timeouts.contains_key(thread_id) && self.timeouts[thread_id] <= generation)
    }

    /// The state after a generation of an agent, and every older one, was invalidated.
    pub open spec fn without_agent(self, thread_id: ThreadId, generation: u64) -> StateView {
        StateView {
            invalidated: self.invalidated.insert(
                thread_id,
                if covers(self.invalidated, thread_id, generation) {
                    self.invalidated[thread_id]
                } else {
                    generation
                },
            ),
            agents: match self.agent(thread_id) {
                Some(current) => if current.generation <= generation {
                    self.agents.remove(agent_position(self.agents, thread_id))
                } else {
                    self.agents
                },
                None => self.agents,
            },
            timeouts: if self.timeouts.contains_key(thread_id) && self.timeouts[thread_id]
                <= generation {
                self.timeouts.remove(thread_id)
            } else {
                self.timeouts
            },
            revision: if self.drops_agent(thread_id, generation) {
                next_revision(self.revision)
            } else {
                self.revision
            },
            ..self
        }
    }

    /// Whether an agent somewhere in the card still awaits an end.
    pub open spec fn incomplete(self) -> bool
        decreases self,
    {
        has_incomplete(self.spawn_calls) || exists|k: int|
            0 <= k < self.agents.len() && (#[trigger] self.agents[k]).state.incomplete()
    }

    /// The card once every incomplete agent, at any depth, has a terminal status.
    pub open spec fn ended(self, terminal: AgentStatusView) -> StateView
        decreases self,
    {
        StateView {
            spawn_calls: self.spawn_calls.map_values(|c: SpawnCallView| ended_call(c, terminal)),
            agents: Seq::new(
                self.agents.len(),
                |k: int|
                    if 0 <= k < self.agents.len() {
                        AgentSubtreeView {
                            state: self.agents[k].state.ended(terminal),
                            ..self.agents[k]
                        }
                    } else {
                        arbitrary()
                    },
            ),
            revision: if self.incomplete() {
                next_revision(self.revision)
            } else {
                self.revision
            },
            ..self
        }
    }

    /// The card as a parent shows it, which already shows the baseline nodes.
    pub open spec fn projected(self, baseline: Set<Seq<char>>) -> StateView {
        StateView {
            snapshot: match self.snapshot {
                Some(s) => Some(projected_snapshot(s, baseline)),
                None => None,
            },
            spawn_calls: self.spawn_calls.map_values(
                |c: SpawnCallView| projected_call(c, baseline),
            ),
            ..self
        }
    }

    /// What a card hands on to the next turn: everything but its tree and its times.
    pub open spec fn carried(self) -> StateView {
        StateView { started_at_ms: None, completed_at_ms: None, snapshot: None, ..self }
    }

    /// The card completed at `now`, unless it was completed before.
    pub open spec fn completed_by(self, now: i64) -> StateView {
        StateView {
            completed_at_ms: if self.completed_at_ms is Some {
                self.completed_at_ms
            } else {
                Some(now)
            },
            ..self
        }
    }

    /// The card under another revision.
    pub open spec fn at_revision(self, revision: u64) -> StateView {
        StateView { revision, ..self }
    }

    /// Whether an agent's final state may be reported missing under a generation: the agent was
    /// spawned here and nothing at least as new was invalidated, recorded later or reported.
    pub open spec fn takes_timeout(self, thread_id: ThreadId, generation: u64) -> bool {
        &&& spawned(self.spawn_calls, thread_id)
        &&& !covers(self.invalidated, thread_id, generation)
        &&& !covers(self.timeouts, thread_id, generation)
        &&& match self.agent(thread_id) {
            Some(current) => current.generation <= generation,
            None => true,
        }
    }

    /// The card after an agent's final state was reported missing.
    pub open spec fn with_timeout(self, thread_id: ThreadId, generation: u64) -> StateView {
        if self.takes_timeout(thread_id, generation) {
            StateView {
                timeouts: self.timeouts.insert(thread_id, generation),
                revision: next_revision(self.revision),
                ..self
            }
        } else {
            self
        }
    }

    /// Whether a timeout at most as new as a generation is held.
    pub open spec fn drops_timeout(self, thread_id: ThreadId, generation: u64) -> bool {
        self.timeouts.contains_key(thread_id) && self.timeouts[thread_id] <= generation
    }

    /// The card without a timeout at most as new as a generation.
    pub open spec fn without_timeout(self, thread_id: ThreadId, generation: u64) -> StateView {
        if self.drops_timeout(thread_id, generation) {
            StateView {
                timeouts: self.timeouts.remove(thread_id),
                revision: next_revision(self.revision),
                ..self
            }
        } else {
            self
        }
    }

    /// Whether the card shows an agent under exactly this generation.
    pub open spec fn tracks(self, thread_id: ThreadId, generation: u64) -> bool {
        match self.agent(thread_id) {
            Some(current) => current.generation == generation,
            None => false,
        }
    }

    /// Whether the card shows an agent, or misses its final state, under exactly this generation.
    pub open spec fn tracks_or_awaits(self, thread_id: ThreadId, generation: u64) -> bool {
        self.tracks(thread_id, generation) || (self.timeouts.contains_key(thread_id)
            && self.timeouts[thread_id] == generation)
    }

    /// Whether the card mentions an agent, shown or missed.
    pub open spec fn mentions(self, thread_id: ThreadId) -> bool {
        self.agent(thread_id) is Some || self.timeouts.contains_key(thread_id)
    }

    /// The newest generation under which the card mentions an agent.
    pub open spec fn tracked_generation(self, thread_id: ThreadId) -> u64 {
        match self.agent(thread_id) {
            Some(current) => if covers(self.timeouts, thread_id, current.generation) {
                self.timeouts[thread_id]
            } else {
                current.generation
            },
            None => self.timeouts[thread_id],
        }
    }

    /// The newest generation of every agent that the card mentions.
    pub open spec fn mentioned(self) -> Map<ThreadId, u64> {
        Map::new(|t: ThreadId| self.mentions(t), |t: ThreadId| self.tracked_generation(t))
    }
}

/// A thread without two subtrees has none at most as new as a generation that was invalidated.
pub proof fn lemma_removed_subtree(s: StateView, thread_id: ThreadId, generation: u64)
    requires
        one_subtree_each(s.agents),
    ensures
        !s.without_agent(thread_id, generation).drops_agent(thread_id, generation),
        one_subtree_each(s.without_agent(thread_id, generation).agents),
{
    let after = s.without_agent(thread_id, generation);
    let at = agent_position(s.agents, thread_id);
    lemma_agent_position(s.agents, thread_id);
    lemma_agent_position(after.agents, thread_id);
    if after.agents != s.agents {
        assert forall|i: int| 0 <= i < after.agents.len() implies #[trigger] after.agents[i]
            == s.agents[if i < at {
            i
        } else {
            i + 1
        }] by {}
        let there = agent_position(after.agents, thread_id);
        if there < after.agents.len() {
            let before = if there < at {
                there
            } else {
                there + 1
            };
            assert(after.agents[there] == s.agents[before]);
            assert(s.agents[at].thread_id == thread_id);
        }
    }
}

fn find_agent(agents: &Vec<AgentSubtree>, thread_id: ThreadId) -> (at: usize)
    ensures
        at == agent_position(views(agents@), thread_id),
        at <= agents@.len(),
{
    let ghost all = views(agents@);
    let mut at: usize = 0;
    proof {
        lemma_agent_position(all, thread_id);
    }
    while at < agents.len()
        invariant
            at <= agents.len(),
            all == views(agents@),
            forall|j: int| 0 <= j < at ==> (#[trigger] all[j]).thread_id != thread_id,
            0 <= agent_position(all, thread_id) <= all.len(),
            agent_position(all, thread_id) < all.len() ==> all[agent_position(
                all,
                thread_id,
            )].thread_id == thread_id,
            forall|j: int|
                0 <= j < agent_position(all, thread_id) ==> (#[trigger] all[j]).thread_id
                    != thread_id,
        decreases agents.len() - at,
    {
        assert(all[at as int] == agents@[at as int]@);
        if agents[at].thread_id == thread_id {
            return at;
        }
        at += 1;
    }
    at
}

fn start_call(call: &SpawnCall, thread_id: ThreadId) -> (r: SpawnCall)
    ensures
        r@ == started_call(call@, thread_id),
{
    let mut out = call.clone();
    let ghost all = call@.tasks;
    let mut at: usize = 0;
    while at < out.tasks.len()
        invariant
            at <= out.tasks.len(),
            out@ == call@,
            all == views(out.tasks@),
            forall|j: int| 0 <= j < at ==> (#[trigger] all[j]).progress.thread_id != thread_id,
        decreases out.tasks.len() - at,
    {
        assert(all[at as int] == out.tasks@[at as int]@);
        if out.tasks[at].progress.thread_id == thread_id {
            proof {
                lemma_position(all, |t: SpawnTaskView| t.progress.thread_id == thread_id);
                assert(at == task_position(all, thread_id));
            }
            let starting = match out.tasks[at].progress.status {
                AgentStatus::PendingInit => true,
                _ => false,
            };
            if starting {
                let mut task = out.tasks[at].clone();
                task.progress.status = AgentStatus::Running;
                let ghost tv = task@;
                out.tasks.set(at, task);
                assert(views(out.tasks@) =~= all.update(at as int, tv));
            }
            return out;
        }
        at += 1;
    }
    proof {
        lemma_position(all, |t: SpawnTaskView| t.progress.thread_id == thread_id);
    }
    out
}

fn end_calls(calls: &mut Vec<SpawnCall>, terminal: &AgentStatus) -> (changed: bool)
    ensures
        changed == has_incomplete(views(old(calls)@)),
        views(final(calls)@) == views(old(calls)@).map_values(
            |c: SpawnCallView| ended_call(c, terminal@),
        ),
{
    let ghost all = views(calls@);
    let mut out: Vec<SpawnCall> = Vec::new();
    let mut changed = false;
    let mut i: usize = 0;
    while i < calls.len()
        invariant
            i <= calls.len(),
            all == views(calls@),
            out@.len() == i,
            forall|k: int| 0 <= k < i ==> (#[trigger] out@[k])@ == ended_call(all[k], terminal@),
            changed == exists|k: int, l: int|
                0 <= k < i && 0 <= l < all[k].tasks.len() && is_incomplete(
                    (#[trigger] all[k].tasks[l]).progress.status,
                ),
        decreases calls.len() - i,
    {
        let call = &calls[i];
        assert(all[i as int] == call@);
        let ghost was = changed;
        let mut tasks: Vec<SpawnTask> = Vec::new();
        let mut j: usize = 0;
        while j < call.tasks.len()
            invariant
                i < all.len(),
                j <= call.tasks.len(),
                all[i as int] == call@,
                tasks@.len() == j,
                forall|l: int|
                    0 <= l < j ==> (#[trigger] tasks@[l])@ == ended_task(call@.tasks[l], terminal@),
                changed == (was || exists|l: int|
                    0 <= l < j && is_incomplete(
                        (#[trigger] all[i as int].tasks[l]).progress.status,
                    )),
            decreases call.tasks.len() - j,
        {
            let mut task = call.tasks[j].clone();
            assert(call@.tasks[j as int] == call.tasks@[j as int]@);
            assert(all[i as int].tasks[j as int] == call.tasks@[j as int]@);
            let pending = match task.progress.status {
                AgentStatus::PendingInit => true,
                AgentStatus::Running => true,
                _ => false,
            };
            if pending {
                task.progress.status = terminal.clone();
                changed = true;
            }
            tasks.push(task);
            j += 1;
        }
        let next = SpawnCall {
            call_id: call.call_id.clone(),
            parent_node_id: crate::text::copy_optional_text(&call.parent_node_id),
            tasks,
        };
        assert(next@.tasks =~= ended_call(all[i as int], terminal@).tasks);
        out.push(next);
        i += 1;
    }
    assert(views(out@) =~= all.map_values(|c: SpawnCallView| ended_call(c, terminal@)));
    *calls = out;
    changed
}

impl SpineUiState {
    /// Records a snapshot now. Says whether the card changed.
    pub fn record_snapshot(&mut self, snapshot: SpineTreeUpdateEvent) -> (changed: bool)
        ensures
            changed == old(self)@.takes_snapshot(snapshot@),
            exists|now: i64|
                now >= 0 && final(self)@ == #[trigger] old(self)@.with_snapshot(snapshot@, now),
    {
        let now: i64 = now_unix_timestamp_ms();
        self.record_snapshot_at(snapshot, now)
    }

    /// Records a progress report now. Says whether the card changed.
    pub fn record_spawn_progress(&mut self, progress: SpineSpawnProgressEvent) -> (changed: bool)
        ensures
            changed == old(self)@.takes_progress(progress@),
            exists|now: i64|
                now >= 0 && final(self)@ == #[trigger] old(self)@.with_progress(progress@, now),
    {
        let now: i64 = now_unix_timestamp_ms();
        self.record_spawn_progress_at(progress, now)
    }

    /// Records the state that an agent reported under a generation. Says whether the card changed.
    pub fn record_agent_state(
        &mut self,
        thread_id: ThreadId,
        generation: u64,
        state: SpineUiState,
    ) -> (changed: bool)
        ensures
            changed == old(self)@.takes_agent(thread_id, generation, state@),
            final(self)@ == old(self)@.with_agent(thread_id, generation, state@),
    {
        proof {
            lemma_agents(*self);
        }
        if !is_known_agent(&self.spawn_calls, thread_id) {
            return false;
        }
        match self.invalidated_agent_generations.get(&thread_id) {
            Some(invalidated) => {
                if generation <= *invalidated {
                    return false;
                }
            },
            None => {},
        }
        let at = find_agent(self.agent_subtrees.items(), thread_id);
        let ghost agents = views(self.agent_subtrees@);
        let ghost calls = views(self.spawn_calls@);
        if at < self.agent_subtrees.items().len() {
            let current = &self.agent_subtrees.items()[at];
            assert(agents[at as int] == current@);
            if generation < current.generation || (generation == current.generation
                && state.revision <= current.state.revision) {
                return false;
            }
        }
        let mut started: Vec<SpawnCall> = Vec::new();
        let mut i: usize = 0;
        while i < self.spawn_calls.len()
            invariant
                i <= self.spawn_calls.len(),
                calls == views(self.spawn_calls@),
                started@.len() == i,
                forall|k: int|
                    0 <= k < i ==> (#[trigger] started@[k])@ == started_call(calls[k], thread_id),
            decreases self.spawn_calls.len() - i,
        {
            assert(calls[i as int] == self.spawn_calls@[i as int]@);
            started.push(start_call(&self.spawn_calls[i], thread_id));
            i += 1;
        }
        assert(views(started@) =~= calls.map_values(|c: SpawnCallView| started_call(c, thread_id)));
        self.spawn_calls = started;
        let entry = AgentSubtree { thread_id, generation, state };
        let ghost ev = entry@;
        let mut subtrees = self.agent_subtrees.take();
        let ghost known = subtrees@;
        if at < subtrees.len() {
            subtrees.set(at, entry);
            assert(views(subtrees@) =~= agents.update(at as int, ev));
        } else {
            subtrees.push(entry);
            assert(views(subtrees@) =~= agents.push(ev));
        }
        proof {
            lemma_agent_position(agents, thread_id);
            assert forall|i: int, j: int| 0 <= i < j < subtrees@.len() implies (
            #[trigger] subtrees@[i]).thread_id != (#[trigger] subtrees@[j]).thread_id by {
                assert(forall|k: int|
                    0 <= k < known.len() ==> (#[trigger] known[k]).thread_id == agents[k].thread_id);
                if i != at && j != at {
                    assert(known[i].thread_id != known[j].thread_id);
                } else if at < known.len() {
                    assert(known[at as int].thread_id == thread_id);
                    assert(known[i].thread_id != known[j].thread_id);
                } else {
                    assert(known[i].thread_id == agents[i].thread_id);
                }
            }
        }
        self.agent_subtrees = AgentSubtrees::from_items(subtrees);
        self.revision = self.revision.saturating_add(1);
        proof {
            lemma_agents(*self);
        }
        true
    }

    /// Gives every incomplete agent, at any depth, a terminal status. Says whether there was one.
    pub fn terminalize_incomplete_agents(&mut self, terminal: &AgentStatus) -> (changed: bool)
        ensures
            changed == old(self)@.incomplete(),
            final(self)@ == old(self)@.ended(terminal@),
        decreases *old(self),
    {
        let ghost before = *self;
        let ghost all = self.agent_subtrees@;
        proof {
            lemma_agents(*self);
        }
        let mut changed = end_calls(&mut self.spawn_calls, terminal);
        let ghost own = changed;
        let mut rest = self.agent_subtrees.take();
        let mut out: Vec<AgentSubtree> = Vec::new();
        let ghost mut i: int = 0;
        assert(all.skip(0) =~= all);
        while rest.len() > 0
            invariant
                0 <= i <= all.len(),
                all == before.agent_subtrees@,
                each_thread_once(all),
                *old(self) == before,
                rest@ == all.skip(i),
                out@.len() == i,
                forall|k: int|
                    0 <= k < i ==> (#[trigger] out@[k])@ == (AgentSubtreeView {
                        state: all[k].state@.ended(terminal@),
                        ..all[k]@
                    }),
                changed == (own || exists|k: int|
                    0 <= k < i && (#[trigger] all[k]).state@.incomplete()),
            decreases rest@.len(),
        {
            let mut agent = rest.remove(0);
            proof {
                assert(all.skip(i)[0] == all[i]);
                assert(agent == all[i]);
                assert(rest@ =~= all.skip(i + 1));
                lemma_subtree_is_smaller(before, i);
            }
            let child_changed = agent.state.terminalize_incomplete_agents(terminal);
            if child_changed {
                changed = true;
            }
            out.push(agent);
            proof {
                i = i + 1;
            }
        }
        assert forall|j: int, k: int| 0 <= j < k < out@.len() implies (
        #[trigger] out@[j]).thread_id != (#[trigger] out@[k]).thread_id by {
            assert(out@[j]@.thread_id == all[j].thread_id);
            assert(out@[k]@.thread_id == all[k].thread_id);
            assert(all[j].thread_id != all[k].thread_id);
        }
        self.agent_subtrees = AgentSubtrees::from_items(out);
        if changed {
            self.revision = self.revision.saturating_add(1);
        }
        proof {
            lemma_agents(*self);
            assert(before@.agents.len() == all.len());
            assert forall|k: int| 0 <= k < all.len() implies #[trigger] before@.agents[k]
                == all[k]@ by {}
            assert(changed == before@.incomplete()) by {
                if exists|k: int| 0 <= k < all.len() && (#[trigger] all[k]).state@.incomplete() {
                    let k = choose|k: int|
                        0 <= k < all.len() && (#[trigger] all[k]).state@.incomplete();
                    assert(before@.agents[k].state.incomplete());
                }
                if exists|k: int|
                    0 <= k < before@.agents.len() && (
                    #[trigger] before@.agents[k]).state.incomplete() {
                    let k = choose|k: int|
                        0 <= k < before@.agents.len() && (
                        #[trigger] before@.agents[k]).state.incomplete();
                    assert(all[k].state@.incomplete());
                }
            }
            assert(self@.agents =~= before@.ended(terminal@).agents);
        }
        changed
    }

    /// Invalidates a generation of an agent and every older one. Says whether the card showed or
    /// awaited one of them; then it does so no more.
    pub fn remove_agent_state(&mut self, thread_id: ThreadId, generation: u64) -> (changed: bool)
        ensures
            changed == old(self)@.drops_agent(thread_id, generation),
            final(self)@ == old(self)@.without_agent(thread_id, generation),
            !final(self)@.drops_agent(thread_id, generation),
            one_subtree_each(final(self)@.agents),
    {
        let known = self.agent_subtrees.items();
        proof {
            lemma_agents(*self);
            lemma_once_views(known@);
            lemma_removed_subtree(self@, thread_id, generation);
        }
        let newest: u64 = match self.invalidated_agent_generations.get(&thread_id) {
            Some(invalidated) => if *invalidated > generation {
                *invalidated
            } else {
                generation
            },
            None => generation,
        };
        self.invalidated_agent_generations.insert(thread_id, newest);
        let at = find_agent(self.agent_subtrees.items(), thread_id);
        let ghost agents = views(self.agent_subtrees@);
        let mut changed = false;
        if at < self.agent_subtrees.items().len() {
            assert(agents[at as int] == self.agent_subtrees@[at as int]@);
            if self.agent_subtrees.items()[at].generation <= generation {
                let mut subtrees = self.agent_subtrees.take();
                let ghost known = subtrees@;
                let _ = subtrees.remove(at);
                assert forall|i: int, j: int| 0 <= i < j < subtrees@.len() implies (
                #[trigger] subtrees@[i]).thread_id != (#[trigger] subtrees@[j]).thread_id by {
                    let before_i = if i < at {
                        i
                    } else {
                        i + 1
                    };
                    let before_j = if j < at {
                        j
                    } else {
                        j + 1
                    };
                    assert(known[before_i].thread_id != known[before_j].thread_id);
                }
                self.agent_subtrees = AgentSubtrees::from_items(subtrees);
                changed = true;
                assert(views(self.agent_subtrees@) =~= agents.remove(at as int));
            }
        }
        let awaited = match self.agent_sync_timeouts.get(&thread_id) {
            Some(g) => *g <= generation,
            None => false,
        };
        if awaited {
            let _ = self.agent_sync_timeouts.remove(&thread_id);
            changed = true;
        }
        if changed {
            self.revision = self.revision.saturating_add(1);
        }
        proof {
            lemma_agents(*self);
        }
        changed
    }

    /// Reports an agent's final state missing. Says whether the card changed.
    pub fn mark_agent_sync_timeout(
        &mut self,
        thread_id: ThreadId,
        generation: u64,
    ) -> (changed: bool)
        ensures
            changed == old(self)@.takes_timeout(thread_id, generation),
            final(self)@ == old(self)@.with_timeout(thread_id, generation),
    {
        proof {
            lemma_agents(*self);
        }
        if !is_known_agent(&self.spawn_calls, thread_id) {
            return false;
        }
        match self.invalidated_agent_generations.get(&thread_id) {
            Some(g) => {
                if generation <= *g {
                    return false;
                }
            },
            None => {},
        }
        match self.agent_sync_timeouts.get(&thread_id) {
            Some(g) => {
                if generation <= *g {
                    return false;
                }
            },
            None => {},
        }
        let at = find_agent(self.agent_subtrees.items(), thread_id);
        if at < self.agent_subtrees.items().len() {
            assert(views(self.agent_subtrees@)[at as int] == self.agent_subtrees@[at as int]@);
            if self.agent_subtrees.items()[at].generation > generation {
                return false;
            }
        }
        self.agent_sync_timeouts.insert(thread_id, generation);
        self.revision = self.revision.saturating_add(1);
        proof {
            lemma_agents(*self);
        }
        true
    }

    /// Withdraws a report of a missing final state. Says whether there was one.
    pub fn clear_agent_sync_timeout(
        &mut self,
        thread_id: ThreadId,
        generation: u64,
    ) -> (changed: bool)
        ensures
            changed == old(self)@.drops_timeout(thread_id, generation),
            final(self)@ == old(self)@.without_timeout(thread_id, generation),
    {
        proof {
            lemma_agents(*self);
        }
        let awaited = match self.agent_sync_timeouts.get(&thread_id) {
            Some(g) => *g <= generation,
            None => false,
        };
        if !awaited {
            return false;
        }
        let _ = self.agent_sync_timeouts.remove(&thread_id);
        self.revision = self.revision.saturating_add(1);
        proof {
            lemma_agents(*self);
        }
        true
    }

    /// Whether any agent's final state is missing.
    pub fn has_agent_sync_timeouts(&self) -> (r: bool)
        ensures
            r == !(self@.timeouts =~= Map::empty()),
    {
        let keys = self.agent_sync_timeouts.keys();
        let r = keys.len() > 0;
        proof {
            if r {
                assert(views(keys@)[0] == keys@[0]);
                assert(views(keys@).contains(keys@[0]));
                assert(self@.timeouts.contains_key(keys@[0]));
            } else {
                assert forall|t: ThreadId| !self@.timeouts.contains_key(t) by {
                    assert(!views(keys@).contains(t));
                }
                assert(self@.timeouts =~= Map::empty());
            }
        }
        r
    }

    /// Whether the card shows an agent under exactly this generation.
    pub fn tracks_agent_generation(&self, thread_id: ThreadId, generation: u64) -> (r: bool)
        ensures
            r == self@.tracks(thread_id, generation),
    {
        proof {
            lemma_agents(*self);
        }
        let at = find_agent(self.agent_subtrees.items(), thread_id);
        if at < self.agent_subtrees.items().len() {
            assert(views(self.agent_subtrees@)[at as int] == self.agent_subtrees@[at as int]@);
            self.agent_subtrees.items()[at].generation == generation
        } else {
            false
        }
    }

    /// Whether the card shows an agent, or misses its final state, under exactly this generation.
    pub fn tracks_agent_or_timeout_generation(
        &self,
        thread_id: ThreadId,
        generation: u64,
    ) -> (r: bool)
        ensures
            r == self@.tracks_or_awaits(thread_id, generation),
    {
        let awaited = match self.agent_sync_timeouts.get(&thread_id) {
            Some(g) => *g == generation,
            None => false,
        };
        awaited || self.tracks_agent_generation(thread_id, generation)
    }

    /// The generation under which the card shows each agent.
    pub fn agent_generations(&self) -> (r: AssocMap<ThreadId, u64>)
        ensures
            forall|t: ThreadId| #[trigger]
                r@.contains_key(t) == (self@.agent(t) is Some),
            forall|t: ThreadId| #[trigger]
                r@.contains_key(t) ==> r@[t] == self@.agent(t)->0.generation,
    {
        proof {
            lemma_agents(*self);
        }
        let ghost all = self@.agents;
        let mut out: AssocMap<ThreadId, u64> = AssocMap::new();
        let mut i: usize = 0;
        proof {
            assert forall|t: ThreadId| agent_position(all, t) >= 0 by {
                lemma_agent_position(all, t);
            }
        }
        while i < self.agent_subtrees.items().len()
            invariant
                i <= self.agent_subtrees@.len(),
                all == views(self.agent_subtrees@),
                forall|t: ThreadId| #[trigger]
                    out@.contains_key(t) <==> agent_position(all, t) < i,
                forall|t: ThreadId| #[trigger]
                    out@.contains_key(t) ==> out@[t] == all[agent_position(all, t)].generation,
            decreases self.agent_subtrees@.len() - i,
        {
            let thread_id = self.agent_subtrees.items()[i].thread_id;
            let ghost earlier = out@;
            assert(all[i as int] == self.agent_subtrees@[i as int]@);
            proof {
                assert forall|t: ThreadId| agent_position(all, t) == i implies t == thread_id by {
                    lemma_agent_position(all, t);
                }
                lemma_agent_position(all, thread_id);
            }
            if !out.contains_key(&thread_id) {
                out.insert(thread_id, self.agent_subtrees.items()[i].generation);
            }
            i += 1;
        }
        proof {
            assert forall|t: ThreadId| #[trigger]
                out@.contains_key(t) == (self@.agent(t) is Some) by {
                lemma_agent_position(all, t);
            }
        }
        out
    }

    /// The newest generation of every agent that the card shows or awaits.
    pub fn tracked_agent_generations(&self) -> (r: AssocMap<ThreadId, u64>)
        ensures
            r@ == self@.mentioned(),
    {
        let mut out = self.agent_generations();
        let ghost shown = out@;
        let keys = self.agent_sync_timeouts.keys();
        let ghost timeouts = self@.timeouts;
        let mut i: usize = 0;
        assert(views(keys@).take(0) =~= Seq::empty());
        while i < keys.len()
            invariant
                i <= keys.len(),
                timeouts == self.agent_sync_timeouts@,
                forall|k: ThreadId| #[trigger]
                    views(keys@).contains(k) == timeouts.contains_key(k),
                forall|t: ThreadId| #[trigger]
                    out@.contains_key(t) == (shown.contains_key(t) || views(keys@).take(
                        i as int,
                    ).contains(t)),
                forall|t: ThreadId| #[trigger]
                    out@.contains_key(t) ==> out@[t] == if views(keys@).take(i as int).contains(t)
                        && !(shown.contains_key(t) && shown[t] > timeouts[t]) {
                        timeouts[t]
                    } else {
                        shown[t]
                    },
            decreases keys.len() - i,
        {
            let t = keys[i];
            proof {
                assert(views(keys@)[i as int] == t);
                assert(views(keys@).contains(t));
                let a = views(keys@).take(i as int);
                let b = views(keys@).take(i + 1);
                assert forall|x: ThreadId| #[trigger] b.contains(x) == (a.contains(x) || x == t) by {
                    if a.contains(x) {
                        let j = choose|j: int| 0 <= j < a.len() && a[j] == x;
                        assert(b[j] == x);
                    }
                    if x == t {
                        assert(b[i as int] == x);
                    }
                    if b.contains(x) && x != t {
                        let j = choose|j: int| 0 <= j < b.len() && b[j] == x;
                        assert(a[j] == x);
                    }
                }
            }
            let awaited: u64 = match self.agent_sync_timeouts.get(&t) {
                Some(g) => *g,
                None => 0,
            };
            let newer = match out.get(&t) {
                Some(g) => *g > awaited,
                None => false,
            };
            if !newer {
                out.insert(t, awaited);
            }
            i += 1;
        }
        proof {
            assert(views(keys@).take(i as int) =~= views(keys@));
            assert forall|t: ThreadId| out@.contains_key(t) == self@.mentioned().contains_key(t) by {
                assert(views(keys@).contains(t) == timeouts.contains_key(t));
                assert(shown.contains_key(t) == (self@.agent(t) is Some));
            }
            assert forall|t: ThreadId| out@.contains_key(t) implies out@[t] == self@.mentioned()[t] by {
                assert(views(keys@).contains(t) == timeouts.contains_key(t));
                assert(shown.contains_key(t) == (self@.agent(t) is Some));
            }
        }
        assert(out@ =~= self@.mentioned());
        out
    }

    /// The latest snapshot.
    pub fn latest_snapshot(&self) -> (r: Option<&SpineTreeUpdateEvent>)
        ensures
            match r {
                Some(s) => self@.snapshot == Some(s@),
                None => self@.snapshot is None,
            },
    {
        match &self.snapshot {
            Some(s) => Some(s),
            None => None,
        }
    }

    /// The card as a parent shows it, which already shows the baseline nodes.
    pub fn filtered_for_parent(&self, baseline: &KeySet<String>) -> (r: Self)
        ensures
            r@ == self@.projected(baseline@),
    {
        let mut filtered = self.copy_state();
        let snapshot = filtered.snapshot.take();
        match snapshot {
            Some(s) => {
                let ghost sv = s@;
                let active = s.active_node_id;
                let outside = |n: &SpineTreeNodeSnapshot| -> (b: bool)
                    ensures
                        b == !baseline@.contains(n@.node_id),
                {
                    !baseline.contains(&n.node_id)
                };
                let nodes = retain_items(
                    s.nodes,
                    outside,
                    Ghost(|n: NodeView| !baseline@.contains(n.node_id)),
                );
                let ghost nv = views(nodes@);
                let mut found = false;
                let mut i: usize = 0;
                while i < nodes.len()
                    invariant
                        i <= nodes.len(),
                        nv == views(nodes@),
                        found == exists|j: int|
                            0 <= j < i && (#[trigger] nv[j]).node_id == active@,
                    decreases nodes.len() - i,
                {
                    assert(nv[i as int] == nodes@[i as int]@);
                    if nodes[i].node_id == active {
                        found = true;
                    }
                    i += 1;
                }
                let next_active = if nodes.len() > 0 && !found {
                    assert(nv.last() == nodes@[nodes@.len() - 1]@);
                    nodes[nodes.len() - 1].node_id.clone()
                } else {
                    active
                };
                filtered.snapshot = Some(
                    SpineTreeUpdateEvent {
                        snapshot_seq: s.snapshot_seq,
                        active_node_id: next_active,
                        nodes,
                        settled_spawn_call_ids: s.settled_spawn_call_ids,
                    },
                );
                assert(snapshot_view(filtered.snapshot) == Some(
                    projected_snapshot(sv, baseline@),
                ));
            },
            None => {},
        }
        let ghost calls = views(self.spawn_calls@);
        let mut out: Vec<SpawnCall> = Vec::new();
        let mut i: usize = 0;
        while i < self.spawn_calls.len()
            invariant
                i <= self.spawn_calls.len(),
                calls == views(self.spawn_calls@),
                out@.len() == i,
                forall|k: int|
                    0 <= k < i ==> (#[trigger] out@[k])@ == projected_call(calls[k], baseline@),
            decreases self.spawn_calls.len() - i,
        {
            let mut call = self.spawn_calls[i].clone();
            assert(calls[i as int] == self.spawn_calls@[i as int]@);
            let inherited = match &call.parent_node_id {
                Some(id) => baseline.contains(id),
                None => false,
            };
            if inherited {
                call.parent_node_id = None;
            }
            out.push(call);
            i += 1;
        }
        assert(views(out@) =~= calls.map_values(|c: SpawnCallView| projected_call(c, baseline@)));
        filtered.spawn_calls = out;
        proof {
            lemma_agents(filtered);
            lemma_agents(*self);
        }
        filtered
    }

    /// What the card hands on to the next turn.
    pub fn carry_forward(&self) -> (r: Self)
        ensures
            r@ == self@.carried(),
    {
        let r = SpineUiState {
            revision: self.revision,
            started_at_ms: None,
            completed_at_ms: None,
            snapshot: None,
            spawn_calls: copy_calls(&self.spawn_calls),
            settled_spawn_call_ids: self.settled_spawn_call_ids.copy_set(),
            agent_subtrees: self.agent_subtrees.copy_agents(),
            invalidated_agent_generations: copy_generations(&self.invalidated_agent_generations),
            agent_sync_timeouts: copy_generations(&self.agent_sync_timeouts),
        };
        proof {
            lemma_agents(r);
            lemma_agents(*self);
        }
        r
    }

    pub fn revision(&self) -> (r: u64)
        ensures
            r == self@.revision,
    {
        self.revision
    }

    pub fn set_revision(&mut self, revision: u64)
        ensures
            final(self)@ == old(self)@.at_revision(revision),
    {
        proof {
            lemma_agents(*self);
        }
        self.revision = revision;
        proof {
            lemma_agents(*self);
        }
    }

    /// Marks the card completed at a given time, unless it is completed.
    pub fn mark_completed_at(&mut self, now: i64)
        ensures
            final(self)@ == old(self)@.completed_by(now),
    {
        proof {
            lemma_agents(*self);
        }
        if self.completed_at_ms.is_none() {
            self.completed_at_ms = Some(now);
        }
        proof {
            lemma_agents(*self);
        }
    }

    /// Marks the card completed now, unless it is completed.
    pub fn mark_completed(&mut self)
        ensures
            exists|now: i64| now >= 0 && final(self)@ == #[trigger] old(self)@.completed_by(now),
    {
        let now: i64 = now_unix_timestamp_ms();
        self.mark_completed_at(now);
    }

    pub fn started_at_ms(&self) -> (r: Option<i64>)
        ensures
            r == self@.started_at_ms,
    {
        self.started_at_ms
    }

    pub fn completed_at_ms(&self) -> (r: Option<i64>)
        ensures
            r == self@.completed_at_ms,
    {
        self.completed_at_ms
    }
}

} // verus!
