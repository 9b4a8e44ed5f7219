//! The payload that the card component renders.
use crate::agents::{agent_position, lemma_agent_position};
use crate::keyed::views;
use crate::protocol::{
    AgentStatus, AgentStatusView, NodeView, SpineSpawnOutcome, SpineTreeNodeKind,
    SpineTreeNodeSnapshot, SpineTreeNodeStatus, ThreadId,
};
use crate::state::{
    lemma_agents, lemma_subtree_is_smaller, SpawnCall, SpawnCallView, SpawnTaskView, SpineUiState,
    StateView,
};
use crate::text::{copy_optional_text, text_view};
use vstd::prelude::*;

verus! {

/// Version of the payload layout.
pub const SCHEMA_VERSION: u64 = 1;

/// What the card shows of an agent's status. Messages stay out.
#[derive(Clone, Copy, PartialEq, Eq, Structural, Debug)]
pub enum RenderAgentStatus {
    Pending,
    Running,
    Interrupted,
    Completed,
    Error,
    Shutdown,
    NotFound,
}

pub open spec fn rendered_status(status: AgentStatusView) -> RenderAgentStatus {
    match status {
        AgentStatusView::PendingInit => RenderAgentStatus::Pending,
        AgentStatusView::Running => RenderAgentStatus::Running,
        AgentStatusView::Interrupted => RenderAgentStatus::Interrupted,
        AgentStatusView::Completed(_) => RenderAgentStatus::Completed,
        AgentStatusView::Errored(_) => RenderAgentStatus::Error,
        AgentStatusView::Shutdown => RenderAgentStatus::Shutdown,
        AgentStatusView::NotFound => RenderAgentStatus::NotFound,
    }
}

/// The rendered form of an agent status.
pub fn render_status(status: &AgentStatus) -> (r: RenderAgentStatus)
    ensures
        r == rendered_status(status@),
{
    match status {
        AgentStatus::PendingInit => RenderAgentStatus::Pending,
        AgentStatus::Running => RenderAgentStatus::Running,
        AgentStatus::Interrupted => RenderAgentStatus::Interrupted,
        AgentStatus::Completed(_) => RenderAgentStatus::Completed,
        AgentStatus::Errored(_) => RenderAgentStatus::Error,
        AgentStatus::Shutdown => RenderAgentStatus::Shutdown,
        AgentStatus::NotFound => RenderAgentStatus::NotFound,
    }
}

#[derive(Debug, PartialEq, Eq)]
pub struct RenderNode {
    pub node_id: String,
    pub parent_id: Option<String>,
    pub kind: SpineTreeNodeKind,
    pub status: SpineTreeNodeStatus,
    pub summary: Option<String>,
    pub spawn_outcome: Option<SpineSpawnOutcome>,
    pub start: u64,
}

pub struct RenderNodeView {
    pub node_id: Seq<char>,
    pub parent_id: Option<Seq<char>>,
    pub kind: SpineTreeNodeKind,
    pub status: SpineTreeNodeStatus,
    pub summary: Option<Seq<char>>,
    pub spawn_outcome: Option<SpineSpawnOutcome>,
    pub start: u64,
}

impl View for RenderNode {
    type V = RenderNodeView;

    open spec fn view(&self) -> RenderNodeView {
        RenderNodeView {
            node_id: self.node_id@,
            parent_id: text_view(self.parent_id),
            kind: self.kind,
            status: self.status,
            summary: text_view(self.summary),
            spawn_outcome: self.spawn_outcome,
            start: self.start,
        }
    }
}

#[derive(Debug, PartialEq, Eq)]
pub struct RenderSnapshot {
    pub active_node_id: String,
    pub nodes: Vec<RenderNode>,
}

pub struct RenderSnapshotView {
    pub active_node_id: Seq<char>,
    pub nodes: Seq<RenderNodeView>,
}

impl View for RenderSnapshot {
    type V = RenderSnapshotView;

    open spec fn view(&self) -> RenderSnapshotView {
        RenderSnapshotView { active_node_id: self.active_node_id@, nodes: views(self.nodes@) }
    }
}

#[derive(Debug, PartialEq, Eq)]
pub struct RenderSpawnTask {
    pub ordinal: u32,
    pub summary: String,
    pub thread_id: ThreadId,
    pub status: RenderAgentStatus,
    pub result_node_id: Option<String>,
}

pub struct RenderSpawnTaskView {
    pub ordinal: u32,
    pub summary: Seq<char>,
    pub thread_id: ThreadId,
    pub status: RenderAgentStatus,
    pub result_node_id: Option<Seq<char>>,
}

impl View for RenderSpawnTask {
    type V = RenderSpawnTaskView;

    open spec fn view(&self) -> RenderSpawnTaskView {
        RenderSpawnTaskView {
            ordinal: self.ordinal,
            summary: self.summary@,
            thread_id: self.thread_id,
            status: self.status,
            result_node_id: text_view(self.result_node_id),
        }
    }
}

#[derive(Debug, PartialEq, Eq)]
pub struct RenderSpawnCall {
    pub call_id: String,
    /// The node to hang the call under; none hangs it at the root.
    pub parent_node_id: Option<String>,
    pub tasks: Vec<RenderSpawnTask>,
}

pub struct RenderSpawnCallView {
    pub call_id: Seq<char>,
    pub parent_node_id: Option<Seq<char>>,
    pub tasks: Seq<RenderSpawnTaskView>,
}

impl View for RenderSpawnCall {
    type V = RenderSpawnCallView;

    open spec fn view(&self) -> RenderSpawnCallView {
        RenderSpawnCallView {
            call_id: self.call_id@,
            parent_node_id: text_view(self.parent_node_id),
            tasks: views(self.tasks@),
        }
    }
}

#[derive(Debug, PartialEq, Eq)]
pub struct RenderAgentSubtree {
    pub thread_id: ThreadId,
    pub content: SpineUiContent,
}

pub struct RenderAgentSubtreeView {
    pub thread_id: ThreadId,
    pub content: ContentView,
}

impl View for RenderAgentSubtree {
    type V = RenderAgentSubtreeView;

    open spec fn view(&self) -> RenderAgentSubtreeView {
        RenderAgentSubtreeView { thread_id: self.thread_id, content: self.content.payload() }
    }
}

/// The payload of a card.
#[derive(Debug, PartialEq, Eq)]
pub struct SpineUiContent {
    pub schema_version: u64,
    pub ui_revision: u64,
    pub snapshot: RenderSnapshot,
    pub spawn_calls: Vec<RenderSpawnCall>,
    pub agent_subtrees: Vec<RenderAgentSubtree>,
    /// How the turn ended, on the card of an ended turn.
    pub terminal_outcome: Option<String>,
    /// Why the turn did not complete.
    pub terminal_reason: Option<String>,
}

pub struct ContentView {
    pub schema_version: u64,
    pub ui_revision: u64,
    pub snapshot: RenderSnapshotView,
    pub spawn_calls: Seq<RenderSpawnCallView>,
    pub agent_subtrees: Seq<RenderAgentSubtreeView>,
    pub terminal_outcome: Option<Seq<char>>,
    pub terminal_reason: Option<Seq<char>>,
}

impl SpineUiContent {
    /// The mathematical content of the payload, subtrees included.
    pub open spec fn payload(self) -> ContentView
        decreases self,
    {
        ContentView {
            schema_version: self.schema_version,
            ui_revision: self.ui_revision,
            snapshot: self.snapshot@,
            spawn_calls: views(self.spawn_calls@),
            agent_subtrees: Seq::new(
                self.agent_subtrees@.len(),
                |i: int|
                    if 0 <= i < self.agent_subtrees@.len() {
                        RenderAgentSubtreeView {
                            thread_id: self.agent_subtrees@[i].thread_id,
                            content: self.agent_subtrees@[i].content.payload(),
                        }
                    } else {
                        arbitrary()
                    },
            ),
            terminal_outcome: text_view(self.terminal_outcome),
            terminal_reason: text_view(self.terminal_reason),
        }
    }
}

impl View for SpineUiContent {
    type V = ContentView;

    open spec fn view(&self) -> ContentView {
        self.payload()
    }
}

/// The view of an optional payload.
pub open spec fn content_view(o: Option<SpineUiContent>) -> Option<ContentView> {
    match o {
        Some(c) => Some(c@),
        None => None,
    }
}

pub open spec fn rendered_node(node: NodeView) -> RenderNodeView {
    RenderNodeView {
        node_id: node.node_id,
        parent_id: node.parent_id,
        kind: node.kind,
        status: node.status,
        summary: node.summary,
        spawn_outcome: node.spawn_outcome,
        start: node.start,
    }
}

/// Whether a snapshot shows a node that calls can hang under: one that is no root epoch.
pub open spec fn shows_parent(nodes: Seq<NodeView>, node_id: Seq<char>) -> bool {
    exists|i: int|
        0 <= i < nodes.len() && (#[trigger] nodes[i]).node_id == node_id && nodes[i].kind
            != SpineTreeNodeKind::RootEpoch
}

pub open spec fn rendered_task(task: SpawnTaskView) -> RenderSpawnTaskView {
    RenderSpawnTaskView {
        ordinal: task.progress.ordinal,
        summary: task.progress.summary,
        thread_id: task.progress.thread_id,
        status: rendered_status(task.progress.status),
        result_node_id: task.result_node_id,
    }
}

pub open spec fn rendered_call(call: SpawnCallView, nodes: Seq<NodeView>) -> RenderSpawnCallView {
    RenderSpawnCallView {
        call_id: call.call_id,
        parent_node_id: match call.parent_node_id {
            Some(id) => if shows_parent(nodes, id) {
                Some(id)
            } else {
                None
            },
            None => None,
        },
        tasks: call.tasks.map_values(|t: SpawnTaskView| rendered_task(t)),
    }
}

/// All tasks of some calls, in order.
pub open spec fn all_tasks(calls: Seq<SpawnCallView>) -> Seq<SpawnTaskView>
    decreases calls.len(),
{
    if calls.len() == 0 {
        Seq::empty()
    } else {
        all_tasks(calls.drop_last()) + calls.last().tasks
    }
}

/// Whether a thread is among some rendered subtrees.
pub open spec fn lists_agent(agents: Seq<RenderAgentSubtreeView>, thread_id: ThreadId) -> bool {
    exists|i: int| 0 <= i < agents.len() && (#[trigger] agents[i]).thread_id == thread_id
}

impl StateView {
    /// The payload of a card; none before the first snapshot.
    pub open spec fn rendered(self) -> Option<ContentView>
        decreases self, all_tasks(self.spawn_calls).len() + 1,
    {
        match self.snapshot {
            Some(snapshot) => Some(
                ContentView {
                    schema_version: SCHEMA_VERSION,
                    ui_revision: self.revision,
                    snapshot: RenderSnapshotView {
                        active_node_id: snapshot.active_node_id,
                        nodes: snapshot.nodes.map_values(|n: NodeView| rendered_node(n)),
                    },
                    spawn_calls: self.spawn_calls.map_values(
                        |c: SpawnCallView| rendered_call(c, snapshot.nodes),
                    ),
                    agent_subtrees: self.rendered_agents(all_tasks(self.spawn_calls)),
                    terminal_outcome: None,
                    terminal_reason: None,
                },
            ),
            None => None,
        }
    }

    /// The subtrees of the agents of some tasks, each once, where they have something to show.
    pub open spec fn rendered_agents(self, tasks: Seq<SpawnTaskView>) -> Seq<RenderAgentSubtreeView>
        decreases self, tasks.len(),
    {
        if tasks.len() == 0 {
            Seq::empty()
        } else {
            let before = self.rendered_agents(tasks.drop_last());
            let thread_id = tasks.last().progress.thread_id;
            let at = agent_position(self.agents, thread_id);
            if 0 <= at < self.agents.len() {
                match self.agents[at].state.rendered() {
                    Some(content) => if lists_agent(before, thread_id) {
                        before
                    } else {
                        before.push(RenderAgentSubtreeView { thread_id, content })
                    },
                    None => before,
                }
            } else {
                before
            }
        }
    }
}

fn render_nodes(nodes: &Vec<SpineTreeNodeSnapshot>) -> (r: Vec<RenderNode>)
    ensures
        views(r@) == views(nodes@).map_values(|n: NodeView| rendered_node(n)),
{
    let mut out: Vec<RenderNode> = Vec::new();
    let mut i: usize = 0;
    while i < nodes.len()
        invariant
            i <= nodes.len(),
            out@.len() == i,
            forall|k: int| 0 <= k < i ==> (#[trigger] out@[k])@ == rendered_node(nodes@[k]@),
        decreases nodes.len() - i,
    {
        let node = &nodes[i];
        out.push(
            RenderNode {
                node_id: node.node_id.clone(),
                parent_id: copy_optional_text(&node.parent_id),
                kind: node.kind,
                status: node.status,
                summary: copy_optional_text(&node.summary),
                spawn_outcome: node.spawn_outcome,
                start: node.start,
            },
        );
        i += 1;
    }
    assert(views(out@) =~= views(nodes@).map_values(|n: NodeView| rendered_node(n)));
    out
}

fn can_hang_under(nodes: &Vec<SpineTreeNodeSnapshot>, node_id: &String) -> (r: bool)
    ensures
        r == shows_parent(views(nodes@), node_id@),
{
    let ghost all = views(nodes@);
    let mut i: usize = 0;
    while i < nodes.len()
        invariant
            i <= nodes.len(),
            all == views(nodes@),
            forall|k: int|
                0 <= k < i ==> (#[trigger] all[k]).node_id != node_id@ || all[k].kind
                    == SpineTreeNodeKind::RootEpoch,
        decreases nodes.len() - i,
    {
        assert(all[i as int] == nodes@[i as int]@);
        if nodes[i].node_id == *node_id && nodes[i].kind != SpineTreeNodeKind::RootEpoch {
            return true;
        }
        i += 1;
    }
    false
}

fn render_calls(calls: &Vec<SpawnCall>, nodes: &Vec<SpineTreeNodeSnapshot>) -> (r: Vec<
    RenderSpawnCall,
>)
    ensures
        views(r@) == views(calls@).map_values(
            |c: SpawnCallView| rendered_call(c, views(nodes@)),
        ),
{
    let ghost nv = views(nodes@);
    let mut out: Vec<RenderSpawnCall> = Vec::new();
    let mut i: usize = 0;
    while i < calls.len()
        invariant
            i <= calls.len(),
            nv == views(nodes@),
            out@.len() == i,
            forall|k: int| 0 <= k < i ==> (#[trigger] out@[k])@ == rendered_call(calls@[k]@, nv),
        decreases calls.len() - i,
    {
        let call = &calls[i];
        let mut tasks: Vec<RenderSpawnTask> = Vec::new();
        let mut j: usize = 0;
        while j < call.tasks.len()
            invariant
                j <= call.tasks.len(),
                tasks@.len() == j,
                forall|k: int|
                    0 <= k < j ==> (#[trigger] tasks@[k])@ == rendered_task(call@.tasks[k]),
            decreases call.tasks.len() - j,
        {
            let task = &call.tasks[j];
            assert(call@.tasks[j as int] == task@);
            tasks.push(
                RenderSpawnTask {
                    ordinal: task.progress.ordinal,
                    summary: task.progress.summary.clone(),
                    thread_id: task.progress.thread_id,
                    status: render_status(&task.progress.status),
                    result_node_id: copy_optional_text(&task.result_node_id),
                },
            );
            j += 1;
        }
        let parent_node_id = match &call.parent_node_id {
            Some(id) => if can_hang_under(nodes, id) {
                Some(id.clone())
            } else {
                None
            },
            None => None,
        };
        let next = RenderSpawnCall { call_id: call.call_id.clone(), parent_node_id, tasks };
        assert(next@.tasks =~= rendered_call(call@, nv).tasks);
        out.push(next);
        i += 1;
    }
    assert(views(out@) =~= views(calls@).map_values(|c: SpawnCallView| rendered_call(c, nv)));
    out
}

fn has_agent(agents: &Vec<RenderAgentSubtree>, thread_id: ThreadId) -> (r: bool)
    ensures
        r == lists_agent(views(agents@), thread_id),
{
    let ghost all = views(agents@);
    let mut i: usize = 0;
    while i < agents.len()
        invariant
            i <= agents.len(),
            all == views(agents@),
            forall|k: int| 0 <= k < i ==> (#[trigger] all[k]).thread_id != thread_id,
        decreases agents.len() - i,
    {
        assert(all[i as int] == agents@[i as int]@);
        if agents[i].thread_id == thread_id {
            return true;
        }
        i += 1;
    }
    false
}

impl SpineUiState {
    fn render_agents(&self) -> (r: Vec<RenderAgentSubtree>)
        ensures
            views(r@) == self@.rendered_agents(all_tasks(self@.spawn_calls)),
        decreases self, 0nat,
    {
        let ghost calls = self@.spawn_calls;
        let mut out: Vec<RenderAgentSubtree> = Vec::new();
        let mut i: usize = 0;
        proof {
            lemma_agents(*self);
            assert(calls.take(0) =~= Seq::empty());
            assert(views(out@) =~= Seq::empty());
        }
        while i < self.spawn_calls.len()
            invariant
                i <= self.spawn_calls.len(),
                calls == views(self.spawn_calls@),
                self@.agents == views(self.agent_subtrees@),
                views(out@) == self@.rendered_agents(all_tasks(calls.take(i as int))),
            decreases self.spawn_calls.len() - i,
        {
            let tasks = &self.spawn_calls[i].tasks;
            let ghost tv = views(tasks@);
            let ghost base = all_tasks(calls.take(i as int));
            assert(calls[i as int] == self.spawn_calls@[i as int]@);
            assert(base + tv.take(0) =~= base);
            let mut j: usize = 0;
            while j < tasks.len()
                invariant
                    j <= tasks.len(),
                    tv == views(tasks@),
                    self@.agents == views(self.agent_subtrees@),
                    views(out@) == self@.rendered_agents(base + tv.take(j as int)),
                decreases tasks.len() - j,
            {
                let thread_id = tasks[j].progress.thread_id;
                let ghost before = views(out@);
                proof {
                    assert(tv[j as int] == tasks@[j as int]@);
                    let whole = base + tv.take(j + 1);
                    assert(whole.drop_last() =~= base + tv.take(j as int));
                    assert(whole.last() == tv[j as int]);
                    lemma_agent_position(self@.agents, thread_id);
                }
                let mut at: usize = 0;
                while at < self.agent_subtrees.items().len() && self.agent_subtrees.items()[at].thread_id
                    != thread_id
                    invariant
                        at <= self.agent_subtrees@.len(),
                        self@.agents == views(self.agent_subtrees@),
                        forall|k: int|
                            0 <= k < at ==> (#[trigger] self@.agents[k]).thread_id != thread_id,
                    decreases self.agent_subtrees@.len() - at,
                {
                    assert(self@.agents[at as int] == self.agent_subtrees@[at as int]@);
                    at += 1;
                }
                if at < self.agent_subtrees.items().len() {
                    proof {
                        assert(self@.agents[at as int] == self.agent_subtrees@[at as int]@);
                        assert(at == agent_position(self@.agents, thread_id));
                        lemma_subtree_is_smaller(*self, at as int);
                    }
                    match self.agent_subtrees.items()[at].state.structured_content() {
                        Some(content) => {
                            if !has_agent(&out, thread_id) {
                                let next = RenderAgentSubtree { thread_id, content };
                                let ghost nv = next@;
                                out.push(next);
                                assert(views(out@) =~= before.push(nv));
                            }
                        },
                        None => {},
                    }
                }
                j += 1;
            }
            proof {
                assert(tv.take(j as int) =~= tv);
                assert(calls.take(i + 1).drop_last() =~= calls.take(i as int));
                assert(calls.take(i + 1).last() == calls[i as int]);
            }
            i += 1;
        }
        assert(calls.take(i as int) =~= calls);
        out
    }

    /// The payload of the card; none before the first snapshot.
    pub fn structured_content(&self) -> (r: Option<SpineUiContent>)
        ensures
            content_view(r) == self@.rendered(),
        decreases self, 1nat,
    {
        match &self.snapshot {
            Some(snapshot) => {
                let agent_subtrees = self.render_agents();
                let r = SpineUiContent {
                    schema_version: SCHEMA_VERSION,
                    ui_revision: self.revision,
                    snapshot: RenderSnapshot {
                        active_node_id: snapshot.active_node_id.clone(),
                        nodes: render_nodes(&snapshot.nodes),
                    },
                    spawn_calls: render_calls(&self.spawn_calls, &snapshot.nodes),
                    agent_subtrees,
                    terminal_outcome: None,
                    terminal_reason: None,
                };
                assert(r@.agent_subtrees =~= views(r.agent_subtrees@));
                Some(r)
            },
            None => None,
        }
    }
}

} // verus!
