//! The card state of one turn: the latest tree, its spawn calls and the agent subtrees.
use crate::keyed::{views, AssocMap, KeySet};
use crate::protocol::{
    SpineSpawnTaskProgress, SpineTreeUpdateEvent, TaskProgressView, ThreadId, TreeUpdateView,
};
use crate::text::{copy_optional_text, same_optional_text, text_view};
use vstd::prelude::*;

verus! {

/// A task of a spawn call and the tree node that carries its result.
pub struct SpawnTask {
    pub progress: SpineSpawnTaskProgress,
    pub result_node_id: Option<String>,
}

pub struct SpawnTaskView {
    pub progress: TaskProgressView,
    pub result_node_id: Option<Seq<char>>,
}

impl View for SpawnTask {
    type V = SpawnTaskView;

    open spec fn view(&self) -> SpawnTaskView {
        SpawnTaskView { progress: self.progress@, result_node_id: text_view(self.result_node_id) }
    }
}

/// A spawn call and the node it was made from.
pub struct SpawnCall {
    pub call_id: String,
    pub parent_node_id: Option<String>,
    pub tasks: Vec<SpawnTask>,
}

pub struct SpawnCallView {
    pub call_id: Seq<char>,
    pub parent_node_id: Option<Seq<char>>,
    pub tasks: Seq<SpawnTaskView>,
}

impl View for SpawnCall {
    type V = SpawnCallView;

    open spec fn view(&self) -> SpawnCallView {
        SpawnCallView {
            call_id: self.call_id@,
            parent_node_id: text_view(self.parent_node_id),
            tasks: views(self.tasks@),
        }
    }
}

/// The card of a spawned agent, under the route generation that delivered it.
pub struct AgentSubtree {
    pub thread_id: ThreadId,
    pub generation: u64,
    pub state: SpineUiState,
}

pub struct AgentSubtreeView {
    pub thread_id: ThreadId,
    pub generation: u64,
    pub state: StateView,
}

impl View for AgentSubtree {
    type V = AgentSubtreeView;

    open spec fn view(&self) -> AgentSubtreeView {
        AgentSubtreeView {
            thread_id: self.thread_id,
            generation: self.generation,
            state: self.state.content(),
        }
    }
}

/// The subtrees of a card, in the order in which they came. A thread has one at most.
pub struct AgentSubtrees {
    items: Vec<AgentSubtree>,
}

/// Whether no thread has two of some subtrees.
pub open spec fn each_thread_once(agents: Seq<AgentSubtree>) -> bool {
    forall|i: int, j: int|
        0 <= i < j < agents.len() ==> (#[trigger] agents[i]).thread_id != (
        #[trigger] agents[j]).thread_id
}

impl View for AgentSubtrees {
    type V = Seq<AgentSubtree>;

    closed spec fn view(&self) -> Seq<AgentSubtree> {
        self.items@
    }
}

/// The card state of one turn.
pub struct SpineUiState {
    pub revision: u64,
    pub started_at_ms: Option<i64>,
    pub completed_at_ms: Option<i64>,
    pub snapshot: Option<SpineTreeUpdateEvent>,
    pub spawn_calls: Vec<SpawnCall>,
    pub settled_spawn_call_ids: KeySet<String>,
    pub agent_subtrees: AgentSubtrees,
    /// The newest generation of each agent that may no longer be shown.
    pub invalidated_agent_generations: AssocMap<ThreadId, u64>,
    /// The generation of each agent whose final state did not arrive in time.
    pub agent_sync_timeouts: AssocMap<ThreadId, u64>,
}

pub struct StateView {
    pub revision: u64,
    pub started_at_ms: Option<i64>,
    pub completed_at_ms: Option<i64>,
    pub snapshot: Option<TreeUpdateView>,
    pub spawn_calls: Seq<SpawnCallView>,
    pub settled: Set<Seq<char>>,
    pub agents: Seq<AgentSubtreeView>,
    pub invalidated: Map<ThreadId, u64>,
    pub timeouts: Map<ThreadId, u64>,
}

/// The view of an optional snapshot.
pub open spec fn snapshot_view(o: Option<SpineTreeUpdateEvent>) -> Option<TreeUpdateView> {
    match o {
        Some(s) => Some(s@),
        None => None,
    }
}

impl SpineUiState {
    /// The mathematical content of the state, subtrees included.
    pub open spec fn content(self) -> StateView
        decreases self,
    {
        StateView {
            revision: self.revision,
            started_at_ms: self.started_at_ms,
            completed_at_ms: self.completed_at_ms,
            snapshot: snapshot_view(self.snapshot),
            spawn_calls: views(self.spawn_calls@),
            settled: self.settled_spawn_call_ids@,
            agents: self.agent_subtrees.shown(),
            invalidated: self.invalidated_agent_generations@,
            timeouts: self.agent_sync_timeouts@,
        }
    }
}

impl View for SpineUiState {
    type V = StateView;

    open spec fn view(&self) -> StateView {
        self.content()
    }
}

impl Clone for SpawnTask {
    fn clone(&self) -> (r: Self)
        ensures
            r@ == self@,
    {
        SpawnTask {
            progress: self.progress.clone(),
            result_node_id: copy_optional_text(&self.result_node_id),
        }
    }
}

impl SpawnTask {
    pub fn same(&self, other: &Self) -> (b: bool)
        ensures
            b == (self@ == other@),
    {
        self.progress.same(&other.progress) && same_optional_text(
            &self.result_node_id,
            &other.result_node_id,
        )
    }
}

impl Clone for SpawnCall {
    fn clone(&self) -> (r: Self)
        ensures
            r@ == self@,
    {
        let mut out: Vec<SpawnTask> = Vec::new();
        let mut i: usize = 0;
        while i < self.tasks.len()
            invariant
                i <= self.tasks.len(),
                out@.len() == i,
                forall|j: int| 0 <= j < i ==> out@[j]@ == self.tasks@[j]@,
            decreases self.tasks.len() - i,
        {
            out.push(self.tasks[i].clone());
            i += 1;
        }
        assert(views(out@) =~= views(self.tasks@));
        SpawnCall {
            call_id: self.call_id.clone(),
            parent_node_id: copy_optional_text(&self.parent_node_id),
            tasks: out,
        }
    }
}

impl SpawnCall {
    pub fn same(&self, other: &Self) -> (b: bool)
        ensures
            b == (self@ == other@),
    {
        if !(self.call_id == other.call_id) || !same_optional_text(
            &self.parent_node_id,
            &other.parent_node_id,
        ) {
            return false;
        }
        if self.tasks.len() != other.tasks.len() {
            assert(self@.tasks.len() != other@.tasks.len());
            return false;
        }
        let mut i: usize = 0;
        while i < self.tasks.len()
            invariant
                i <= self.tasks.len(),
                self.tasks@.len() == other.tasks@.len(),
                forall|j: int| 0 <= j < i ==> self.tasks@[j]@ == other.tasks@[j]@,
            decreases self.tasks.len() - i,
        {
            if !self.tasks[i].same(&other.tasks[i]) {
                assert(self@.tasks[i as int] != other@.tasks[i as int]);
                return false;
            }
            i += 1;
        }
        assert(self@.tasks =~= other@.tasks);
        true
    }
}

/// Copies the spawn calls of a card.
pub fn copy_calls(calls: &Vec<SpawnCall>) -> (r: Vec<SpawnCall>)
    ensures
        views(r@) == views(calls@),
{
    let mut out: Vec<SpawnCall> = Vec::new();
    let mut i: usize = 0;
    while i < calls.len()
        invariant
            i <= calls.len(),
            out@.len() == i,
            forall|j: int| 0 <= j < i ==> out@[j]@ == calls@[j]@,
        decreases calls.len() - i,
    {
        out.push(calls[i].clone());
        i += 1;
    }
    assert(views(out@) =~= views(calls@));
    out
}

/// Copies a table of generations.
pub fn copy_generations(m: &AssocMap<ThreadId, u64>) -> (r: AssocMap<ThreadId, u64>)
    ensures
        r@ == m@,
{
    let keys = m.keys();
    let mut out: AssocMap<ThreadId, u64> = AssocMap::new();
    let mut i: usize = 0;
    while i < keys.len()
        invariant
            i <= keys.len(),
            forall|k: ThreadId| #[trigger] views(keys@).contains(k) == m@.contains_key(k),
            forall|k: ThreadId| #[trigger]
                out@.contains_key(k) ==> m@.contains_key(k) && out@[k] == m@[k],
            forall|j: int| 0 <= j < i ==> out@.contains_key(#[trigger] keys@[j]),
        decreases keys.len() - i,
    {
        assert(views(keys@)[i as int] == keys@[i as int]);
        assert(views(keys@).contains(keys@[i as int]));
        match m.get(&keys[i]) {
            Some(v) => {
                out.insert(keys[i], *v);
            },
            None => {},
        }
        i += 1;
    }
    proof {
        assert forall|k: ThreadId| m@.contains_key(k) implies out@.contains_key(k) by {
            assert(views(keys@).contains(k));
            let j = choose|j: int| 0 <= j < views(keys@).len() && views(keys@)[j] == k;
            assert(keys@[j] == k);
        }
    }
    assert(out@ =~= m@);
    out
}

pub fn copy_snapshot(o: &Option<SpineTreeUpdateEvent>) -> (r: Option<SpineTreeUpdateEvent>)
    ensures
        snapshot_view(r) == snapshot_view(*o),
{
    match o {
        Some(s) => Some(s.clone()),
        None => None,
    }
}

impl AgentSubtrees {
    #[verifier::type_invariant]
    spec fn inv(self) -> bool {
        each_thread_once(self.items@)
    }

    /// The mathematical content of the subtrees.
    pub closed spec fn shown(self) -> Seq<AgentSubtreeView>
        decreases self,
    {
        Seq::new(
            self.items@.len(),
            |i: int|
                if 0 <= i < self.items@.len() {
                    AgentSubtreeView {
                        thread_id: self.items@[i].thread_id,
                        generation: self.items@[i].generation,
                        state: self.items@[i].state.content(),
                    }
                } else {
                    arbitrary()
                },
        )
    }

    pub fn new() -> (r: Self)
        ensures
            r@ == Seq::<AgentSubtree>::empty(),
    {
        AgentSubtrees { items: Vec::new() }
    }

    /// The subtrees, each of another thread.
    pub fn items(&self) -> (r: &Vec<AgentSubtree>)
        ensures
            r@ == self@,
            each_thread_once(r@),
    {
        proof {
            use_type_invariant(self);
        }
        &self.items
    }

    /// Takes the subtrees out.
    pub(crate) fn take(&mut self) -> (r: Vec<AgentSubtree>)
        ensures
            r@ == old(self)@,
            each_thread_once(r@),
            final(self)@ == Seq::<AgentSubtree>::empty(),
    {
        proof {
            use_type_invariant(&*self);
        }
        let mut out: Vec<AgentSubtree> = Vec::new();
        std::mem::swap(&mut out, &mut self.items);
        out
    }

    /// Subtrees of different threads.
    pub(crate) fn from_items(items: Vec<AgentSubtree>) -> (r: Self)
        requires
            each_thread_once(items@),
        ensures
            r@ == items@,
    {
        AgentSubtrees { items }
    }

    /// Other subtrees with the same content.
    pub fn copy_agents(&self) -> (r: Self)
        ensures
            views(r@) == views(self@),
        decreases self, 0nat,
    {
        proof {
            use_type_invariant(self);
        }
        let mut out: Vec<AgentSubtree> = Vec::new();
        let mut i: usize = 0;
        while i < self.items.len()
            invariant
                i <= self.items.len(),
                out@.len() == i,
                each_thread_once(self.items@),
                forall|j: int| 0 <= j < i ==> (#[trigger] out@[j])@ == self.items@[j]@,
            decreases self.items.len() - i,
        {
            let a = &self.items[i];
            assert(decreases_to!(self => self.items));
            assert(decreases_to!(self => self.items@));
            assert(decreases_to!(self => self.items@[i as int]));
            assert(decreases_to!(self => self.items@[i as int].state));
            out.push(
                AgentSubtree {
                    thread_id: a.thread_id,
                    generation: a.generation,
                    state: a.state.copy_state(),
                },
            );
            i += 1;
        }
        assert(views(out@) =~= views(self.items@));
        assert forall|j: int, k: int| 0 <= j < k < out@.len() implies (
        #[trigger] out@[j]).thread_id != (#[trigger] out@[k]).thread_id by {
            assert(out@[j]@ == self.items@[j]@);
            assert(out@[k]@ == self.items@[k]@);
            assert(self.items@[j].thread_id != self.items@[k].thread_id);
        }
        AgentSubtrees { items: out }
    }
}

impl SpineUiState {
    /// A state with nothing recorded.
    pub fn new() -> (r: Self)
        ensures
            r@ == empty_state(),
    {
        let r = SpineUiState {
            revision: 0,
            started_at_ms: None,
            completed_at_ms: None,
            snapshot: None,
            spawn_calls: Vec::new(),
            settled_spawn_call_ids: KeySet::new(),
            agent_subtrees: AgentSubtrees::new(),
            invalidated_agent_generations: AssocMap::new(),
            agent_sync_timeouts: AssocMap::new(),
        };
        proof {
            assert(r@.spawn_calls =~= empty_state().spawn_calls);
            assert(r@.agents =~= empty_state().agents);
        }
        r
    }

    /// Another state with the same content.
    pub fn copy_state(&self) -> (r: Self)
        ensures
            r@ == self@,
        decreases self, 1nat,
    {
        assert(decreases_to!(self => self.agent_subtrees));
        let r = SpineUiState {
            revision: self.revision,
            started_at_ms: self.started_at_ms,
            completed_at_ms: self.completed_at_ms,
            snapshot: copy_snapshot(&self.snapshot),
            spawn_calls: copy_calls(&self.spawn_calls),
            settled_spawn_call_ids: self.settled_spawn_call_ids.copy_set(),
            agent_subtrees: self.agent_subtrees.copy_agents(),
            invalidated_agent_generations: copy_generations(&self.invalidated_agent_generations),
            agent_sync_timeouts: copy_generations(&self.agent_sync_timeouts),
        };
        proof {
            lemma_agents(r);
            lemma_agents(*self);
        }
        r
    }
}

impl Clone for SpineUiState {
    fn clone(&self) -> (r: Self)
        ensures
            r@ == self@,
    {
        self.copy_state()
    }
}

impl Default for SpineUiState {
    fn default() -> (r: Self)
        ensures
            r@ == empty_state(),
    {
        SpineUiState::new()
    }
}

/// The content of a state with nothing recorded.
pub open spec fn empty_state() -> StateView {
    StateView {
        revision: 0,
        started_at_ms: None,
        completed_at_ms: None,
        snapshot: None,
        spawn_calls: Seq::empty(),
        settled: Set::empty(),
        agents: Seq::empty(),
        invalidated: Map::empty(),
        timeouts: Map::empty(),
    }
}

/// The next revision. It stays at its largest value once there.
pub open spec fn next_revision(revision: u64) -> u64 {
    if revision < u64::MAX {
        (revision + 1) as u64
    } else {
        revision
    }
}

/// The subtrees of a content are the views of the stored subtrees.
pub proof fn lemma_agents(s: SpineUiState)
    ensures
        s@.agents == views(s.agent_subtrees@),
{
    assert(s@.agents =~= views(s.agent_subtrees@));
}

/// A subtree is smaller than the card that holds it.
pub proof fn lemma_subtree_is_smaller(s: SpineUiState, i: int)
    requires
        0 <= i < s.agent_subtrees@.len(),
    ensures
        decreases_to!(s => s.agent_subtrees@[i].state),
{
    assert(decreases_to!(s => s.agent_subtrees));
    assert(decreases_to!(s => s.agent_subtrees.items));
    assert(decreases_to!(s => s.agent_subtrees.items@));
    assert(decreases_to!(s => s.agent_subtrees.items@[i]));
    assert(decreases_to!(s => s.agent_subtrees.items@[i].state));
}

/// Whether no thread has two subtrees.
pub open spec fn one_subtree_each(agents: Seq<AgentSubtreeView>) -> bool {
    forall|i: int, j: int|
        0 <= i < j < agents.len() ==> (#[trigger] agents[i]).thread_id != (
        #[trigger] agents[j]).thread_id
}

/// Leaving some subtrees out makes no thread have two.
pub proof fn lemma_filtered_subtrees(
    agents: Seq<AgentSubtreeView>,
    p: spec_fn(AgentSubtreeView) -> bool,
)
    requires
        one_subtree_each(agents),
    ensures
        one_subtree_each(agents.filter(p)),
    decreases agents.len(),
{
    reveal(Seq::filter);
    if agents.len() > 0 {
        let rest = agents.drop_last();
        assert forall|i: int, j: int| 0 <= i < j < rest.len() implies (
        #[trigger] rest[i]).thread_id != (#[trigger] rest[j]).thread_id by {
            assert(agents[i].thread_id != agents[j].thread_id);
        }
        lemma_filtered_subtrees(rest, p);
        let kept = rest.filter(p);
        if p(agents.last()) {
            assert forall|i: int| 0 <= i < kept.len() implies (#[trigger] kept[i]).thread_id
                != agents.last().thread_id by {
                rest.lemma_filter_contains_rev(p, kept[i]);
                let k = choose|k: int| 0 <= k < rest.len() && rest[k] == kept[i];
                assert(agents[k].thread_id != agents[agents.len() - 1].thread_id);
            }
        }
    }
}

/// That no thread has two subtrees shows in their views.
pub proof fn lemma_once_views(agents: Seq<AgentSubtree>)
    ensures
        one_subtree_each(views(agents)) == each_thread_once(agents),
{
    let all = views(agents);
    assert forall|i: int| 0 <= i < agents.len() implies (#[trigger] agents[i]).thread_id
        == all[i].thread_id by {}
    assert forall|i: int| 0 <= i < agents.len() implies (#[trigger] all[i]).thread_id
        == agents[i].thread_id by {}
}

} // verus!
