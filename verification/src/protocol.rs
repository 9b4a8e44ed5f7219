//! The events and identifiers that reach the task-tree card.
use crate::keyed::{views, Key};
use crate::text::{
    copy_optional_text, same_optional_text, text_view,
};
use vstd::prelude::*;

verus! {

/// Identity of a conversation thread.
#[derive(Clone, Copy, PartialEq, Eq, Structural, Debug, Hash, PartialOrd, Ord)]
pub struct ThreadId(pub u128);

impl View for ThreadId {
    type V = ThreadId;

    open spec fn view(&self) -> ThreadId {
        *self
    }
}

impl Key for ThreadId {
    fn same(&self, other: &Self) -> (b: bool) {
        *self == *other
    }

    fn copy(&self) -> (r: Self) {
        *self
    }
}

/// Identity of a client connection.
#[derive(Clone, Copy, PartialEq, Eq, Structural, Debug, Hash, PartialOrd, Ord)]
pub struct ConnectionId(pub u64);

impl View for ConnectionId {
    type V = ConnectionId;

    open spec fn view(&self) -> ConnectionId {
        *self
    }
}

impl Key for ConnectionId {
    fn same(&self, other: &Self) -> (b: bool) {
        *self == *other
    }

    fn copy(&self) -> (r: Self) {
        *self
    }
}

/// What is known of a spawned agent.
#[derive(Debug, PartialEq, Eq)]
pub enum AgentStatus {
    PendingInit,
    Running,
    Interrupted,
    /// Finished, with its final message where it left one.
    Completed(Option<String>),
    /// Failed, with a diagnostic.
    Errored(String),
    Shutdown,
    NotFound,
}

/// The mathematical view of an agent status.
pub enum AgentStatusView {
    PendingInit,
    Running,
    Interrupted,
    Completed(Option<Seq<char>>),
    Errored(Seq<char>),
    Shutdown,
    NotFound,
}

impl View for AgentStatus {
    type V = AgentStatusView;

    open spec fn view(&self) -> AgentStatusView {
        match self {
            AgentStatus::PendingInit => AgentStatusView::PendingInit,
            AgentStatus::Running => AgentStatusView::Running,
            AgentStatus::Interrupted => AgentStatusView::Interrupted,
            AgentStatus::Completed(m) => AgentStatusView::Completed(text_view(*m)),
            AgentStatus::Errored(m) => AgentStatusView::Errored(m@),
            AgentStatus::Shutdown => AgentStatusView::Shutdown,
            AgentStatus::NotFound => AgentStatusView::NotFound,
        }
    }
}

impl Clone for AgentStatus {
    fn clone(&self) -> (r: Self)
        ensures
            r@ == self@,
    {
        match self {
            AgentStatus::PendingInit => AgentStatus::PendingInit,
            AgentStatus::Running => AgentStatus::Running,
            AgentStatus::Interrupted => AgentStatus::Interrupted,
            AgentStatus::Completed(m) => AgentStatus::Completed(copy_optional_text(m)),
            AgentStatus::Errored(m) => AgentStatus::Errored(m.clone()),
            AgentStatus::Shutdown => AgentStatus::Shutdown,
            AgentStatus::NotFound => AgentStatus::NotFound,
        }
    }
}

impl AgentStatus {
    /// Whether two statuses have the same view.
    pub fn same(&self, other: &Self) -> (b: bool)
        ensures
            b == (self@ == other@),
    {
        match (self, other) {
            (AgentStatus::PendingInit, AgentStatus::PendingInit) => true,
            (AgentStatus::Running, AgentStatus::Running) => true,
            (AgentStatus::Interrupted, AgentStatus::Interrupted) => true,
            (AgentStatus::Completed(a), AgentStatus::Completed(b)) => same_optional_text(a, b),
            (AgentStatus::Errored(a), AgentStatus::Errored(b)) => *a == *b,
            (AgentStatus::Shutdown, AgentStatus::Shutdown) => true,
            (AgentStatus::NotFound, AgentStatus::NotFound) => true,
            _ => false,
        }
    }
}

#[derive(Clone, Copy, PartialEq, Eq, Structural, Debug)]
pub enum SpineTreeNodeKind {
    /// A root of the tree, never shown as a parent of its own.
    RootEpoch,
    Task,
}

#[derive(Clone, Copy, PartialEq, Eq, Structural, Debug)]
pub enum SpineTreeNodeStatus {
    Opened,
    Live,
    Closed,
}

/// How a spawned agent's result was committed to the tree.
#[derive(Clone, Copy, PartialEq, Eq, Structural, Debug)]
pub enum SpineSpawnOutcome {
    Completed,
    Errored,
    Aborted,
}

/// Why a turn was aborted.
#[derive(Clone, Copy, PartialEq, Eq, Structural, Debug)]
pub enum TurnAbortReason {
    Interrupted,
    Replaced,
    ReviewEnded,
    BudgetLimited,
}

/// One node of the task tree.
#[derive(Debug, PartialEq, Eq)]
pub struct SpineTreeNodeSnapshot {
    pub node_id: String,
    pub parent_id: Option<String>,
    pub kind: SpineTreeNodeKind,
    pub status: SpineTreeNodeStatus,
    pub summary: Option<String>,
    pub memory_summary: Option<String>,
    pub spawn_outcome: Option<SpineSpawnOutcome>,
    pub start: u64,
    pub end: Option<u64>,
    pub context_pressure: Option<u64>,
}

pub struct NodeView {
    pub node_id: Seq<char>,
    pub parent_id: Option<Seq<char>>,
    pub kind: SpineTreeNodeKind,
    pub status: SpineTreeNodeStatus,
    pub summary: Option<Seq<char>>,
    pub memory_summary: Option<Seq<char>>,
    pub spawn_outcome: Option<SpineSpawnOutcome>,
    pub start: u64,
    pub end: Option<u64>,
    pub context_pressure: Option<u64>,
}

impl View for SpineTreeNodeSnapshot {
    type V = NodeView;

    open spec fn view(&self) -> NodeView {
        NodeView {
            node_id: self.node_id@,
            parent_id: text_view(self.parent_id),
            kind: self.kind,
            status: self.status,
            summary: text_view(self.summary),
            memory_summary: text_view(self.memory_summary),
            spawn_outcome: self.spawn_outcome,
            start: self.start,
            end: self.end,
            context_pressure: self.context_pressure,
        }
    }
}

impl Clone for SpineTreeNodeSnapshot {
    fn clone(&self) -> (r: Self)
        ensures
            r@ == self@,
    {
        SpineTreeNodeSnapshot {
            node_id: self.node_id.clone(),
            parent_id: copy_optional_text(&self.parent_id),
            kind: self.kind,
            status: self.status,
            summary: copy_optional_text(&self.summary),
            memory_summary: copy_optional_text(&self.memory_summary),
            spawn_outcome: self.spawn_outcome,
            start: self.start,
            end: self.end,
            context_pressure: self.context_pressure,
        }
    }
}

impl SpineTreeNodeSnapshot {
    pub fn same(&self, other: &Self) -> (b: bool)
        ensures
            b == (self@ == other@),
    {
        self.node_id == other.node_id && same_optional_text(&self.parent_id, &other.parent_id)
            && self.kind == other.kind && self.status == other.status && same_optional_text(
            &self.summary,
            &other.summary,
        ) && same_optional_text(&self.memory_summary, &other.memory_summary) && self.spawn_outcome
            == other.spawn_outcome && self.start == other.start && self.end == other.end
            && self.context_pressure == other.context_pressure
    }
}

/// A complete tree as of one committed boundary.
#[derive(Debug, PartialEq, Eq)]
pub struct SpineTreeUpdateEvent {
    pub snapshot_seq: u64,
    pub active_node_id: String,
    pub nodes: Vec<SpineTreeNodeSnapshot>,
    pub settled_spawn_call_ids: Vec<String>,
}

pub struct TreeUpdateView {
    pub snapshot_seq: u64,
    pub active_node_id: Seq<char>,
    pub nodes: Seq<NodeView>,
    pub settled_spawn_call_ids: Seq<Seq<char>>,
}

impl View for SpineTreeUpdateEvent {
    type V = TreeUpdateView;

    open spec fn view(&self) -> TreeUpdateView {
        TreeUpdateView {
            snapshot_seq: self.snapshot_seq,
            active_node_id: self.active_node_id@,
            nodes: views(self.nodes@),
            settled_spawn_call_ids: views(self.settled_spawn_call_ids@),
        }
    }
}

pub fn copy_texts(v: &Vec<String>) -> (r: Vec<String>)
    ensures
        views(r@) == views(v@),
{
    let mut out: Vec<String> = Vec::new();
    let mut i: usize = 0;
    while i < v.len()
        invariant
            i <= v.len(),
            out@.len() == i,
            forall|j: int| 0 <= j < i ==> out@[j]@ == v@[j]@,
        decreases v.len() - i,
    {
        out.push(v[i].clone());
        i += 1;
    }
    assert(views(out@) =~= views(v@));
    out
}

pub fn same_texts(a: &Vec<String>, b: &Vec<String>) -> (r: bool)
    ensures
        r == (views(a@) == views(b@)),
{
    if a.len() != b.len() {
        assert(views(a@).len() != views(b@).len());
        return false;
    }
    let mut i: usize = 0;
    while i < a.len()
        invariant
            i <= a.len(),
            a@.len() == b@.len(),
            forall|j: int| 0 <= j < i ==> a@[j]@ == b@[j]@,
        decreases a.len() - i,
    {
        if !(a[i] == b[i]) {
            assert(views(a@)[i as int] != views(b@)[i as int]);
            return false;
        }
        i += 1;
    }
    assert(views(a@) =~= views(b@));
    true
}

pub fn copy_nodes(v: &Vec<SpineTreeNodeSnapshot>) -> (r: Vec<SpineTreeNodeSnapshot>)
    ensures
        views(r@) == views(v@),
{
    let mut out: Vec<SpineTreeNodeSnapshot> = Vec::new();
    let mut i: usize = 0;
    while i < v.len()
        invariant
            i <= v.len(),
            out@.len() == i,
            forall|j: int| 0 <= j < i ==> out@[j]@ == v@[j]@,
        decreases v.len() - i,
    {
        out.push(v[i].clone());
        i += 1;
    }
    assert(views(out@) =~= views(v@));
    out
}

fn same_nodes(a: &Vec<SpineTreeNodeSnapshot>, b: &Vec<SpineTreeNodeSnapshot>) -> (r: bool)
    ensures
        r == (views(a@) == views(b@)),
{
    if a.len() != b.len() {
        assert(views(a@).len() != views(b@).len());
        return false;
    }
    let mut i: usize = 0;
    while i < a.len()
        invariant
            i <= a.len(),
            a@.len() == b@.len(),
            forall|j: int| 0 <= j < i ==> a@[j]@ == b@[j]@,
        decreases a.len() - i,
    {
        if !a[i].same(&b[i]) {
            assert(views(a@)[i as int] != views(b@)[i as int]);
            return false;
        }
        i += 1;
    }
    assert(views(a@) =~= views(b@));
    true
}

impl Clone for SpineTreeUpdateEvent {
    fn clone(&self) -> (r: Self)
        ensures
            r@ == self@,
    {
        SpineTreeUpdateEvent {
            snapshot_seq: self.snapshot_seq,
            active_node_id: self.active_node_id.clone(),
            nodes: copy_nodes(&self.nodes),
            settled_spawn_call_ids: copy_texts(&self.settled_spawn_call_ids),
        }
    }
}

impl SpineTreeUpdateEvent {
    pub fn same(&self, other: &Self) -> (b: bool)
        ensures
            b == (self@ == other@),
    {
        self.snapshot_seq == other.snapshot_seq && self.active_node_id == other.active_node_id
            && same_nodes(&self.nodes, &other.nodes) && same_texts(
            &self.settled_spawn_call_ids,
            &other.settled_spawn_call_ids,
        )
    }
}

/// Progress of one task of a spawn call.
#[derive(Debug, PartialEq, Eq)]
pub struct SpineSpawnTaskProgress {
    pub ordinal: u32,
    pub summary: String,
    pub thread_id: ThreadId,
    pub agent_path: Option<String>,
    pub status: AgentStatus,
}

pub struct TaskProgressView {
    pub ordinal: u32,
    pub summary: Seq<char>,
    pub thread_id: ThreadId,
    pub agent_path: Option<Seq<char>>,
    pub status: AgentStatusView,
}

impl View for SpineSpawnTaskProgress {
    type V = TaskProgressView;

    open spec fn view(&self) -> TaskProgressView {
        TaskProgressView {
            ordinal: self.ordinal,
            summary: self.summary@,
            thread_id: self.thread_id,
            agent_path: text_view(self.agent_path),
            status: self.status@,
        }
    }
}

impl Clone for SpineSpawnTaskProgress {
    fn clone(&self) -> (r: Self)
        ensures
            r@ == self@,
    {
        SpineSpawnTaskProgress {
            ordinal: self.ordinal,
            summary: self.summary.clone(),
            thread_id: self.thread_id,
            agent_path: copy_optional_text(&self.agent_path),
            status: self.status.clone(),
        }
    }
}

impl SpineSpawnTaskProgress {
    pub fn same(&self, other: &Self) -> (b: bool)
        ensures
            b == (self@ == other@),
    {
        self.ordinal == other.ordinal && self.summary == other.summary && self.thread_id
            == other.thread_id && same_optional_text(&self.agent_path, &other.agent_path)
            && self.status.same(&other.status)
    }
}

/// Progress of a spawn call: all of its tasks, in order.
#[derive(Debug, PartialEq, Eq)]
pub struct SpineSpawnProgressEvent {
    pub call_id: String,
    pub tasks: Vec<SpineSpawnTaskProgress>,
}

pub struct SpawnProgressView {
    pub call_id: Seq<char>,
    pub tasks: Seq<TaskProgressView>,
}

impl View for SpineSpawnProgressEvent {
    type V = SpawnProgressView;

    open spec fn view(&self) -> SpawnProgressView {
        SpawnProgressView { call_id: self.call_id@, tasks: views(self.tasks@) }
    }
}

impl Clone for SpineSpawnProgressEvent {
    fn clone(&self) -> (r: Self)
        ensures
            r@ == self@,
    {
        let mut out: Vec<SpineSpawnTaskProgress> = Vec::new();
        let mut i: usize = 0;
        while i < self.tasks.len()
            invariant
                i <= self.tasks.len(),
                out@.len() == i,
                forall|j: int| 0 <= j < i ==> out@[j]@ == self.tasks@[j]@,
            decreases self.tasks.len() - i,
        {
            out.push(self.tasks[i].clone());
            i += 1;
        }
        assert(views(out@) =~= views(self.tasks@));
        SpineSpawnProgressEvent { call_id: self.call_id.clone(), tasks: out }
    }
}

} // verus!
