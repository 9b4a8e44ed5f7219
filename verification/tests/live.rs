use spine_ui::card::McpToolCallStatus;
use spine_ui::events::{
    CodeModeSpineCarrier, Event, EventMsg, ResponseItem, ToolOutputBody,
    CODE_MODE_SPINE_CARRIER_MARKER,
};
use spine_ui::listener::{
    before_bespoke, before_bespoke_enabled, emit_invalidation, follow_event, listener_failed,
    listener_failed_enabled, mount_for_connection, still_subscribed,
};
use spine_ui::live::LiveThread;
use spine_ui::protocol::{
    AgentStatus, ConnectionId, SpineSpawnProgressEvent, SpineSpawnTaskProgress, SpineTreeNodeKind,
    SpineTreeNodeSnapshot, SpineTreeNodeStatus, SpineTreeUpdateEvent, ThreadId, TurnAbortReason,
};
use spine_ui::render::RenderAgentStatus;
use spine_ui::routes::{Command, RouteManager, Sent};
use spine_ui::state::SpineUiState;
use spine_ui::subscriptions::{ConnectionCapabilities, Subscriptions};
use spine_ui::turns::{LatestTurn, TurnReport, TurnStatus};

const NOW: i64 = 1_700_000_000_000;

fn node(
    node_id: &str,
    parent_id: Option<&str>,
    kind: SpineTreeNodeKind,
    status: SpineTreeNodeStatus,
    summary: Option<&str>,
    memory_summary: Option<&str>,
    start: u64,
    end: Option<u64>,
) -> SpineTreeNodeSnapshot {
    SpineTreeNodeSnapshot {
        node_id: node_id.to_string(),
        parent_id: parent_id.map(str::to_string),
        kind,
        status,
        summary: summary.map(str::to_string),
        memory_summary: memory_summary.map(str::to_string),
        spawn_outcome: None,
        start,
        end,
        context_pressure: None,
    }
}

fn tree_snapshot(sequence: u64, active_node_id: &str, changed: bool) -> SpineTreeUpdateEvent {
    let mut nodes = vec![node(
        "1",
        None,
        SpineTreeNodeKind::RootEpoch,
        SpineTreeNodeStatus::Opened,
        None,
        Some("internal"),
        0,
        Some(10),
    )];
    nodes.push(node(
        "1.1",
        Some("1"),
        SpineTreeNodeKind::Task,
        if changed {
            SpineTreeNodeStatus::Closed
        } else {
            SpineTreeNodeStatus::Live
        },
        Some("first task"),
        Some("internal"),
        1,
        Some(11),
    ));
    if active_node_id == "1.2" {
        nodes.push(node(
            "1.2",
            Some("1"),
            SpineTreeNodeKind::Task,
            SpineTreeNodeStatus::Live,
            Some("second task"),
            None,
            2,
            None,
        ));
    }
    SpineTreeUpdateEvent {
        snapshot_seq: sequence,
        active_node_id: active_node_id.to_string(),
        nodes,
        settled_spawn_call_ids: Vec::new(),
    }
}

fn child_only_snapshot() -> SpineTreeUpdateEvent {
    let mut snapshot = tree_snapshot(2, "1.1.1", false);
    snapshot.nodes.push(node(
        "1.1.1",
        Some("1.1"),
        SpineTreeNodeKind::Task,
        SpineTreeNodeStatus::Live,
        Some("child-only task"),
        None,
        2,
        None,
    ));
    snapshot
}

fn growing_tree_snapshot(sequence: u64, task_count: u64) -> SpineTreeUpdateEvent {
    let mut nodes = vec![node(
        "1",
        None,
        SpineTreeNodeKind::RootEpoch,
        SpineTreeNodeStatus::Opened,
        None,
        None,
        0,
        None,
    )];
    nodes.extend((1..=task_count).map(|ordinal| {
        node(
            &format!("1.{ordinal}"),
            Some("1"),
            SpineTreeNodeKind::Task,
            SpineTreeNodeStatus::Live,
            Some(&format!("task {ordinal}")),
            None,
            ordinal,
            None,
        )
    }));
    SpineTreeUpdateEvent {
        snapshot_seq: sequence,
        active_node_id: format!("1.{task_count}"),
        nodes,
        settled_spawn_call_ids: Vec::new(),
    }
}

fn turn_started() -> EventMsg {
    EventMsg::TurnStarted { started_at: None }
}

fn spine_call() -> EventMsg {
    EventMsg::RawResponseItem(ResponseItem::FunctionCall {
        name: "open".to_string(),
        namespace: Some("spine".to_string()),
    })
}

fn code_mode_spine_carrier(tool: &str) -> EventMsg {
    EventMsg::RawResponseItem(ResponseItem::CustomToolCallOutput {
        output_name: Some(CODE_MODE_SPINE_CARRIER_MARKER.to_string()),
        body: ToolOutputBody::Text {
            text: format!(
                "{{\"schema\":\"{CODE_MODE_SPINE_CARRIER_MARKER}\",\
                 \"nested_spine_calls\":[{{\"name\":\"{tool}\"}}]}}"
            ),
            carrier: Some(CodeModeSpineCarrier {
                schema: CODE_MODE_SPINE_CARRIER_MARKER.to_string(),
                nested_spine_calls: vec![tool.to_string()],
            }),
        },
    })
}

fn turn_aborted(reason: TurnAbortReason) -> EventMsg {
    EventMsg::TurnAborted { reason }
}

fn spawn_progress(child_thread_id: ThreadId) -> SpineSpawnProgressEvent {
    SpineSpawnProgressEvent {
        call_id: format!("spawn-{}", child_thread_id.0),
        tasks: vec![SpineSpawnTaskProgress {
            ordinal: 0,
            summary: "Run child agent".to_string(),
            thread_id: child_thread_id,
            agent_path: None,
            status: AgentStatus::Running,
        }],
    }
}

/// What the turn history reports after an event.
fn report_after(state: &LiveThread, turn_id: &str, event: &EventMsg) -> TurnReport {
    let latest = |status: TurnStatus| {
        Some(LatestTurn {
            id: turn_id.to_string(),
            status,
        })
    };
    match event {
        EventMsg::TurnStarted { .. } => TurnReport {
            latest: latest(TurnStatus::InProgress),
            has_active_turn: true,
        },
        EventMsg::TurnComplete => TurnReport {
            latest: latest(TurnStatus::Completed),
            has_active_turn: false,
        },
        EventMsg::TurnAborted { .. } => TurnReport {
            latest: latest(TurnStatus::Interrupted),
            has_active_turn: false,
        },
        _ => TurnReport {
            latest: state.turns.latest.as_ref().map(|turn| LatestTurn {
                id: turn.id.clone(),
                status: turn.status,
            }),
            has_active_turn: state.turns.has_active_turn,
        },
    }
}

fn track_spine_ui_event(state: &mut LiveThread, turn_id: &str, event: &EventMsg) {
    let report = report_after(state, turn_id, event);
    state.track_current_turn_event(turn_id, event, report);
    state.observe_spine_ui_event(turn_id, event);
}

fn activate_spine_turn(state: &mut LiveThread, turn_id: &str, sequence: u64) {
    track_spine_ui_event(state, turn_id, &turn_started());
    track_spine_ui_event(state, turn_id, &spine_call());
    state.record_spine_ui_snapshot(tree_snapshot(sequence, "1.1", false), NOW);
}

fn take_turn_summary(state: &mut LiveThread) {
    if let Some(turn_id) = state.active_turn_id.clone() {
        if let Some(token) = state.begin_spine_ui_turn_completion(&turn_id) {
            state.finalize_spine_ui_turn(&turn_id, token, NOW);
        }
    }
}

fn finish_spine_turn(state: &mut LiveThread, turn_id: &str) {
    track_spine_ui_event(state, turn_id, &EventMsg::TurnComplete);
    take_turn_summary(state);
}

/// Works on the state of a thread that the manager knows.
fn with_thread<R>(
    manager: &mut RouteManager,
    thread_id: ThreadId,
    work: impl FnOnce(&mut LiveThread) -> R,
) -> R {
    manager.ensure_thread(thread_id);
    let mut entry = manager.threads.remove(&thread_id).expect("known thread");
    let result = work(&mut entry.thread);
    manager.threads.insert(thread_id, entry);
    result
}

fn listener_generation_of(manager: &RouteManager, thread_id: ThreadId) -> u64 {
    manager
        .threads
        .get(&thread_id)
        .map_or(0, |entry| entry.listener_generation)
}

fn register_test_route(
    manager: &mut RouteManager,
    parent_thread_id: ThreadId,
    parent_turn_id: &str,
    child_thread_id: ThreadId,
) -> (SpineSpawnProgressEvent, Vec<Sent>) {
    let parent_listener_generation = listener_generation_of(manager, parent_thread_id);
    let progress = spawn_progress(child_thread_id);
    with_thread(manager, parent_thread_id, |state| {
        activate_spine_turn(state, parent_turn_id, 1);
        state.record_spine_ui_spawn_progress(progress.clone(), NOW);
    });
    let sent = manager.register_spine_ui_spawn_progress(
        parent_thread_id,
        parent_listener_generation,
        parent_turn_id,
        &progress,
    );
    (progress, sent)
}

/// A forwarded card: its parent turn, its parent's listener generation, its generation and state.
fn forwarded(sent: Sent) -> (String, u64, u64, SpineUiState) {
    let Command::ForwardSpineUiAgentState {
        parent_turn_id,
        parent_listener_generation,
        generation,
        state: Some(state),
        ..
    } = sent.command
    else {
        panic!("expected a forwarded child state");
    };
    (parent_turn_id, parent_listener_generation, generation, state)
}

fn only(mut sent: Vec<Sent>) -> Sent {
    assert_eq!(sent.len(), 1);
    sent.remove(0)
}

fn node_ids(state: &SpineUiState) -> Vec<String> {
    state
        .latest_snapshot()
        .expect("snapshot")
        .nodes
        .iter()
        .map(|node| node.node_id.clone())
        .collect()
}

fn snapshot_seq(state: Option<&SpineUiState>) -> Option<u64> {
    state
        .and_then(SpineUiState::latest_snapshot)
        .map(|snapshot| snapshot.snapshot_seq)
}

fn routes_exist(
    manager: &RouteManager,
    parent_thread_id: ThreadId,
    current_thread_id: ThreadId,
    grandchild_thread_id: ThreadId,
) -> (bool, bool) {
    (
        manager
            .routes
            .get(&current_thread_id)
            .is_some_and(|route| route.parent_thread_id == parent_thread_id),
        manager
            .routes
            .get(&grandchild_thread_id)
            .is_some_and(|route| route.parent_thread_id == current_thread_id),
    )
}

#[test]
fn each_turn_keeps_the_complete_tree() {
    let mut state = LiveThread::new();
    track_spine_ui_event(&mut state, "turn-1", &turn_started());
    track_spine_ui_event(&mut state, "turn-1", &spine_call());
    state.record_spine_ui_snapshot(tree_snapshot(1, "1.1", false), NOW);
    let first = state.active.clone();
    take_turn_summary(&mut state);
    assert_eq!(first.latest_snapshot().unwrap().nodes.len(), 2);

    track_spine_ui_event(&mut state, "turn-2", &turn_started());
    track_spine_ui_event(&mut state, "turn-2", &spine_call());
    assert!(state.active.latest_snapshot().is_none());
    state.record_spine_ui_snapshot(tree_snapshot(1, "1.2", false), NOW);

    assert_eq!(node_ids(&state.active), vec!["1", "1.1", "1.2"]);
    let second = state.active.latest_snapshot().expect("second turn snapshot");
    assert_eq!(second.active_node_id, "1.2");
}

#[test]
fn a_changed_old_node_is_kept_in_the_complete_tree() {
    let mut state = LiveThread::new();
    track_spine_ui_event(&mut state, "turn-1", &turn_started());
    track_spine_ui_event(&mut state, "turn-1", &spine_call());
    state.record_spine_ui_snapshot(tree_snapshot(1, "1.1", false), NOW);
    take_turn_summary(&mut state);

    track_spine_ui_event(&mut state, "turn-2", &turn_started());
    track_spine_ui_event(&mut state, "turn-2", &spine_call());
    state.record_spine_ui_snapshot(tree_snapshot(2, "1.1", true), NOW);

    let second = state.active.latest_snapshot().expect("second turn snapshot");
    assert_eq!(second.nodes.len(), 2);
    assert_eq!(second.nodes[1].node_id, "1.1");
    assert_eq!(second.nodes[1].status, SpineTreeNodeStatus::Closed);
}

#[test]
fn snapshot_without_an_active_spine_turn_seeds_the_next_complete_tree() {
    let mut state = LiveThread::new();
    state.record_spine_ui_snapshot(tree_snapshot(1, "1.1", false), NOW);
    assert!(state.live_spine_ui("turn-1").is_none());

    track_spine_ui_event(&mut state, "turn-1", &turn_started());
    track_spine_ui_event(&mut state, "turn-1", &spine_call());
    state.record_spine_ui_snapshot(tree_snapshot(2, "1.2", false), NOW);
    let snapshot = state.active.latest_snapshot().expect("live snapshot");
    assert_eq!(snapshot.nodes.len(), 3);
    assert_eq!(snapshot.active_node_id, "1.2");
}

#[test]
fn every_live_card_contains_the_complete_tree_across_many_turns() {
    let mut state = LiveThread::new();
    let mut total_node_count = 0;

    for turn in 1..=32u64 {
        let turn_id = format!("turn-{turn}");
        track_spine_ui_event(&mut state, &turn_id, &turn_started());
        track_spine_ui_event(&mut state, &turn_id, &spine_call());
        state.record_spine_ui_snapshot(growing_tree_snapshot(turn, turn), NOW);

        let node_count = state
            .active
            .latest_snapshot()
            .expect("complete snapshot")
            .nodes
            .len();
        assert_eq!(node_count, turn as usize + 1);
        total_node_count += node_count;

        finish_spine_turn(&mut state, &turn_id);
    }

    assert_eq!(total_node_count, 560);
}

#[test]
fn a_turn_without_spine_does_not_discard_the_next_complete_tree() {
    let mut state = LiveThread::new();
    track_spine_ui_event(&mut state, "turn-1", &turn_started());
    track_spine_ui_event(&mut state, "turn-1", &spine_call());
    state.record_spine_ui_snapshot(tree_snapshot(1, "1.1", false), NOW);
    finish_spine_turn(&mut state, "turn-1");

    track_spine_ui_event(&mut state, "turn-2", &turn_started());
    finish_spine_turn(&mut state, "turn-2");

    track_spine_ui_event(&mut state, "turn-3", &turn_started());
    track_spine_ui_event(&mut state, "turn-3", &spine_call());
    state.record_spine_ui_snapshot(tree_snapshot(1, "1.2", false), NOW);

    let snapshot = state
        .active
        .latest_snapshot()
        .expect("complete tree after an ordinary turn");
    assert_eq!(snapshot.nodes.len(), 3);
    assert_eq!(snapshot.active_node_id, "1.2");
}

#[test]
fn spawned_agent_subtrees_are_carried_into_the_next_complete_tree() {
    let mut state = LiveThread::new();
    let child_thread_id = ThreadId(1);

    track_spine_ui_event(&mut state, "turn-1", &turn_started());
    track_spine_ui_event(&mut state, "turn-1", &spine_call());
    state.record_spine_ui_snapshot(tree_snapshot(1, "1.1", false), NOW);
    assert!(state.record_spine_ui_spawn_progress(spawn_progress(child_thread_id), NOW));

    let mut child_state = SpineUiState::default();
    child_state.record_snapshot(tree_snapshot(1, "1.1", false));
    assert!(state.record_spine_ui_agent_state(child_thread_id, 1, child_state));
    finish_spine_turn(&mut state, "turn-1");

    track_spine_ui_event(&mut state, "turn-2", &turn_started());
    track_spine_ui_event(&mut state, "turn-2", &spine_call());
    state.record_spine_ui_snapshot(tree_snapshot(1, "1.2", false), NOW);

    let content = state
        .active
        .structured_content()
        .expect("second complete tree");
    assert_eq!(content.snapshot.nodes.len(), 3);
    assert_eq!(content.spawn_calls.len(), 1);
    assert_eq!(content.agent_subtrees.len(), 1);
    assert_eq!(content.agent_subtrees[0].thread_id, child_thread_id);
}

#[test]
fn clearing_the_listener_drops_the_in_memory_complete_tree() {
    let mut state = LiveThread::new();
    track_spine_ui_event(&mut state, "turn-1", &turn_started());
    track_spine_ui_event(&mut state, "turn-1", &spine_call());
    state.record_spine_ui_snapshot(tree_snapshot(1, "1.1", false), NOW);
    finish_spine_turn(&mut state, "turn-1");

    state.clear_listener();
    track_spine_ui_event(&mut state, "turn-2", &turn_started());
    track_spine_ui_event(&mut state, "turn-2", &spine_call());

    assert!(state.active.latest_snapshot().is_none());
    assert!(state.cumulative.latest_snapshot().is_none());
}

#[test]
fn replacing_the_listener_drops_the_in_memory_complete_tree() {
    let mut state = LiveThread::new();
    track_spine_ui_event(&mut state, "turn-1", &turn_started());
    track_spine_ui_event(&mut state, "turn-1", &spine_call());
    state.record_spine_ui_snapshot(tree_snapshot(1, "1.1", false), NOW);
    finish_spine_turn(&mut state, "turn-1");

    assert!(state.cumulative.latest_snapshot().is_some());
    let replaced = state.listener_generation;
    assert_eq!(state.set_listener(), replaced + 1);
    assert!(state.cumulative.latest_snapshot().is_none());

    track_spine_ui_event(&mut state, "turn-2", &turn_started());
    track_spine_ui_event(&mut state, "turn-2", &spine_call());
    assert!(state.active.latest_snapshot().is_none());
}

#[test]
fn forwarded_agent_state_excludes_nodes_inherited_from_the_parent() {
    let mut manager = RouteManager::new();
    let parent_thread_id = ThreadId(1);
    let child_thread_id = ThreadId(2);
    with_thread(&mut manager, child_thread_id, |state| {
        track_spine_ui_event(state, "child-turn", &turn_started());
        track_spine_ui_event(state, "child-turn", &spine_call());
        state.record_spine_ui_snapshot(child_only_snapshot(), NOW);
    });
    manager.register_listener(parent_thread_id);

    let (_, sent) = register_test_route(
        &mut manager,
        parent_thread_id,
        "parent-turn",
        child_thread_id,
    );
    let sent = only(sent);
    assert_eq!(sent.to, parent_thread_id);
    let (_, _, _, state) = forwarded(sent);
    assert_eq!(node_ids(&state), vec!["1.1.1"]);
}

#[test]
fn route_baseline_uses_cumulative_tree_before_current_snapshot_exists() {
    let mut manager = RouteManager::new();
    let parent_thread_id = ThreadId(1);
    let child_thread_id = ThreadId(2);
    with_thread(&mut manager, parent_thread_id, |state| {
        activate_spine_turn(state, "previous-turn", 1);
        finish_spine_turn(state, "previous-turn");

        track_spine_ui_event(state, "parent-turn", &turn_started());
        track_spine_ui_event(state, "parent-turn", &spine_call());
        assert!(state.active.latest_snapshot().is_none());
        assert!(state.cumulative.latest_snapshot().is_some());
        assert!(state.record_spine_ui_spawn_progress(spawn_progress(child_thread_id), NOW));
    });
    with_thread(&mut manager, child_thread_id, |state| {
        track_spine_ui_event(state, "child-turn", &turn_started());
        track_spine_ui_event(state, "child-turn", &spine_call());
        state.record_spine_ui_snapshot(child_only_snapshot(), NOW);
    });

    manager.register_listener(parent_thread_id);
    let sent = manager.register_spine_ui_spawn_progress(
        parent_thread_id,
        0,
        "parent-turn",
        &spawn_progress(child_thread_id),
    );
    let (_, _, _, state) = forwarded(only(sent));
    assert_eq!(node_ids(&state), vec!["1.1.1"]);
}

#[test]
fn route_baseline_is_empty_before_the_first_snapshot() {
    let mut state = LiveThread::new();
    track_spine_ui_event(&mut state, "turn-1", &turn_started());
    track_spine_ui_event(&mut state, "turn-1", &spine_call());

    let baseline = state
        .spine_ui_baseline_node_ids("turn-1")
        .expect("an active card has a baseline");
    assert!(baseline.is_empty());
    assert!(state.spine_ui_baseline_node_ids("turn-2").is_none());
}

#[test]
fn repeated_progress_is_deduplicated_and_newer_states_are_coalesced() {
    let mut manager = RouteManager::new();
    let parent_thread_id = ThreadId(1);
    let child_thread_id = ThreadId(2);
    with_thread(&mut manager, child_thread_id, |state| {
        activate_spine_turn(state, "child-turn", 2);
    });
    manager.register_listener(parent_thread_id);

    let (progress, sent) = register_test_route(
        &mut manager,
        parent_thread_id,
        "parent-turn",
        child_thread_id,
    );
    let (_, _, generation, initial_state) = forwarded(only(sent));
    assert!(
        manager
            .complete_spine_ui_agent_state_forward(
                child_thread_id,
                parent_thread_id,
                "parent-turn",
                generation,
                initial_state.revision(),
            )
            .is_none()
    );

    let repeated =
        manager.register_spine_ui_spawn_progress(parent_thread_id, 0, "parent-turn", &progress);
    assert!(repeated.is_empty());
    assert!(manager.queue_spine_ui_agent_state(child_thread_id).is_none());

    with_thread(&mut manager, child_thread_id, |state| {
        state.record_spine_ui_snapshot(tree_snapshot(3, "1.2", false), NOW);
    });
    let updated = manager
        .queue_spine_ui_agent_state(child_thread_id)
        .expect("updated child state");
    assert!(manager.queue_spine_ui_agent_state(child_thread_id).is_none());
    let (_, _, _, updated) = forwarded(updated);

    with_thread(&mut manager, child_thread_id, |state| {
        state.record_spine_ui_snapshot(tree_snapshot(4, "1.1", false), NOW);
    });
    assert!(manager.queue_spine_ui_agent_state(child_thread_id).is_none());
    assert!(manager.queue_spine_ui_agent_state(child_thread_id).is_none());
    let coalesced = manager
        .complete_spine_ui_agent_state_forward(
            child_thread_id,
            parent_thread_id,
            "parent-turn",
            generation,
            updated.revision(),
        )
        .expect("coalesced latest child state");
    let (_, _, _, coalesced) = forwarded(coalesced);
    assert_eq!(snapshot_seq(Some(&coalesced)), Some(4));
}

#[test]
fn a_rejected_forward_can_be_repeated() {
    let mut manager = RouteManager::new();
    let parent_thread_id = ThreadId(1);
    let child_thread_id = ThreadId(2);
    with_thread(&mut manager, child_thread_id, |state| {
        activate_spine_turn(state, "child-turn", 2);
    });
    manager.register_listener(parent_thread_id);
    let (_, sent) = register_test_route(
        &mut manager,
        parent_thread_id,
        "parent-turn",
        child_thread_id,
    );
    let (_, _, generation, state) = forwarded(only(sent));
    assert!(manager.queue_spine_ui_agent_state(child_thread_id).is_none());
    manager.forward_rejected(child_thread_id, generation, state.revision() + 1);
    assert!(manager.queue_spine_ui_agent_state(child_thread_id).is_none());
    manager.forward_rejected(child_thread_id, generation, state.revision());
    assert!(manager.queue_spine_ui_agent_state(child_thread_id).is_some());
}

#[test]
fn spawn_progress_activates_a_turn_without_a_direct_spine_tool_call() {
    let mut state = LiveThread::new();
    let child_thread_id = ThreadId(1);
    track_spine_ui_event(&mut state, "turn-1", &turn_started());
    track_spine_ui_event(
        &mut state,
        "turn-1",
        &EventMsg::SpineSpawnProgress(spawn_progress(child_thread_id)),
    );

    assert!(state.record_spine_ui_spawn_progress(spawn_progress(child_thread_id), NOW));
    assert!(state.record_spine_ui_snapshot(tree_snapshot(1, "1.1", false), NOW));
    assert!(state.live_spine_ui("turn-1").is_some());
}

#[test]
fn code_mode_tree_control_activates_the_turn_before_its_snapshot() {
    let mut state = LiveThread::new();
    track_spine_ui_event(&mut state, "turn-1", &turn_started());
    track_spine_ui_event(&mut state, "turn-1", &code_mode_spine_carrier("close"));

    assert!(state.record_spine_ui_snapshot(tree_snapshot(1, "1", true), NOW));
    assert!(state.live_spine_ui("turn-1").is_some());
}

#[test]
fn code_mode_trim_keeps_the_snapshot_cumulative_without_opening_a_card() {
    let mut state = LiveThread::new();
    track_spine_ui_event(&mut state, "turn-1", &turn_started());
    track_spine_ui_event(&mut state, "turn-1", &code_mode_spine_carrier("trim"));

    assert!(!state.record_spine_ui_snapshot(tree_snapshot(1, "1", true), NOW));
    assert!(state.live_spine_ui("turn-1").is_none());
    assert!(state.cumulative.latest_snapshot().is_some());
}

#[test]
fn stale_turn_started_does_not_remove_routes_owned_by_a_new_listener() {
    let mut manager = RouteManager::new();
    let parent_thread_id = ThreadId(1);
    let child_thread_id = ThreadId(2);
    with_thread(&mut manager, child_thread_id, |state| {
        activate_spine_turn(state, "child-turn", 1);
    });
    manager.note_spine_ui_listener_generation(parent_thread_id, 2);
    manager.register_listener(parent_thread_id);
    let (_, sent) = register_test_route(
        &mut manager,
        parent_thread_id,
        "parent-turn",
        child_thread_id,
    );
    let (_, _, generation, _) = forwarded(only(sent));

    manager.note_spine_ui_agent_turn_started(parent_thread_id, 1, "stale-parent-turn");

    assert!(!manager.spine_ui_route_is_current(
        child_thread_id,
        parent_thread_id,
        "parent-turn",
        1,
        generation,
    ));
    assert!(manager.spine_ui_route_is_current(
        child_thread_id,
        parent_thread_id,
        "parent-turn",
        2,
        generation,
    ));
}

#[test]
fn pending_completion_survives_the_next_turn_and_completes_once() {
    let mut state = LiveThread::new();
    let child_thread_id = ThreadId(1);
    activate_spine_turn(&mut state, "turn-1", 1);
    assert!(state.record_spine_ui_spawn_progress(spawn_progress(child_thread_id), NOW));
    state.mark_spine_ui_mounted("turn-1", &vec![ConnectionId(7)]);
    track_spine_ui_event(&mut state, "turn-1", &EventMsg::TurnComplete);
    let completion_token = state
        .begin_spine_ui_turn_completion("turn-1")
        .expect("first turn should begin completion");

    track_spine_ui_event(&mut state, "turn-2", &turn_started());
    track_spine_ui_event(&mut state, "turn-2", &spine_call());
    assert!(state.record_spine_ui_snapshot(tree_snapshot(2, "1.2", false), NOW));
    let mounted = state
        .mount_spine_ui_for_connection(ConnectionId(8))
        .expect("active second turn should mount");
    assert_eq!(mounted.0, "turn-2");

    let completion = state
        .finalize_spine_ui_turn("turn-1", completion_token, NOW)
        .expect("first turn completion");
    assert_eq!(completion.connection_ids, vec![ConnectionId(7)]);
    assert!(completion.state.completed_at_ms().is_some());
    assert_eq!(
        completion
            .state
            .structured_content()
            .expect("completed content")
            .spawn_calls[0]
            .tasks[0]
            .status,
        RenderAgentStatus::Running
    );
    assert!(
        state
            .finalize_spine_ui_turn("turn-1", completion_token, NOW)
            .is_none()
    );
    let active = state
        .active_spine_ui_snapshot()
        .expect("second turn remains active");
    assert_eq!(snapshot_seq(Some(&active.1)), Some(2));
}

#[test]
fn interrupted_agents_remain_terminal_when_carried_into_the_next_turn() {
    let mut state = LiveThread::new();
    activate_spine_turn(&mut state, "turn-1", 1);
    assert!(state.record_spine_ui_spawn_progress(spawn_progress(ThreadId(1)), NOW));
    assert!(state.terminalize_spine_ui_incomplete_agents(&AgentStatus::Interrupted));
    state
        .begin_spine_ui_turn_completion("turn-1")
        .expect("interrupted turn should begin completion");
    track_spine_ui_event(
        &mut state,
        "turn-1",
        &turn_aborted(TurnAbortReason::Interrupted),
    );

    track_spine_ui_event(&mut state, "turn-2", &turn_started());
    track_spine_ui_event(&mut state, "turn-2", &spine_call());
    assert!(state.record_spine_ui_snapshot(tree_snapshot(2, "1.2", false), NOW));

    let content = state
        .active
        .structured_content()
        .expect("carried-forward content");
    assert_eq!(
        content.spawn_calls[0].tasks[0].status,
        RenderAgentStatus::Interrupted
    );
}

#[test]
fn rollback_invalidates_a_pending_completion_token() {
    let mut state = LiveThread::new();
    activate_spine_turn(&mut state, "turn-1", 1);
    track_spine_ui_event(&mut state, "turn-1", &EventMsg::TurnComplete);
    let completion_token = state
        .begin_spine_ui_turn_completion("turn-1")
        .expect("turn should begin completion");

    state.reset_spine_ui_after_rollback();

    assert!(
        state
            .finalize_spine_ui_turn("turn-1", completion_token, NOW)
            .is_none()
    );
}

#[test]
fn reconnect_mounts_a_pending_card_before_its_single_completion() {
    let mut state = LiveThread::new();
    activate_spine_turn(&mut state, "turn-1", 1);
    state.mark_spine_ui_mounted("turn-1", &vec![ConnectionId(7)]);
    track_spine_ui_event(&mut state, "turn-1", &EventMsg::TurnComplete);
    let completion_token = state
        .begin_spine_ui_turn_completion("turn-1")
        .expect("turn should begin completion");

    let (turn_id, mounted) = state
        .mount_spine_ui_for_connection(ConnectionId(8))
        .expect("pending card should mount");
    assert_eq!(turn_id, "turn-1");
    assert!(mounted.latest_snapshot().is_some());

    let mut connection_ids = state
        .finalize_spine_ui_turn("turn-1", completion_token, NOW)
        .expect("pending completion")
        .connection_ids;
    connection_ids.sort_by_key(|connection_id| connection_id.0);
    assert_eq!(connection_ids, vec![ConnectionId(7), ConnectionId(8)]);
}

#[test]
fn the_newest_pending_card_is_mounted_and_the_newest_completed_one_is_kept() {
    let mut state = LiveThread::new();
    activate_spine_turn(&mut state, "turn-1", 1);
    let first = state
        .begin_spine_ui_turn_completion("turn-1")
        .expect("first token");
    activate_spine_turn(&mut state, "turn-2", 2);
    let second = state
        .begin_spine_ui_turn_completion("turn-2")
        .expect("second token");
    assert!(second > first);
    let (turn_id, _) = state
        .mount_spine_ui_for_connection(ConnectionId(3))
        .expect("pending card");
    assert_eq!(turn_id, "turn-2");
    assert!(state.finalize_spine_ui_turn("turn-1", second, NOW).is_none());
    let newer = state
        .finalize_spine_ui_turn("turn-2", second, NOW)
        .expect("second completion");
    assert_eq!(newer.connection_ids, vec![ConnectionId(3)]);
    let older = state
        .finalize_spine_ui_turn("turn-1", first, NOW)
        .expect("first completion");
    assert!(older.connection_ids.is_empty());
    assert!(older.state.revision() > newer.state.revision());
    assert_eq!(snapshot_seq(state.terminal.as_ref()), Some(2));
}

#[test]
fn stale_listener_events_cannot_mutate_or_finalize_replacement_state() {
    let mut manager = RouteManager::new();
    let parent_thread_id = ThreadId(1);
    let child_thread_id = ThreadId(2);
    with_thread(&mut manager, parent_thread_id, |state| {
        state.listener_generation = 2;
        activate_spine_turn(state, "parent-turn", 1);
        state.record_spine_ui_spawn_progress(spawn_progress(child_thread_id), NOW);
    });
    with_thread(&mut manager, child_thread_id, |state| {
        activate_spine_turn(state, "child-turn", 2);
    });
    manager.note_spine_ui_listener_generation(parent_thread_id, 2);
    manager.register_listener(parent_thread_id);
    let (_, sent) = register_test_route(
        &mut manager,
        parent_thread_id,
        "parent-turn",
        child_thread_id,
    );
    let (_, _, route_generation, _) = forwarded(only(sent));

    with_thread(&mut manager, parent_thread_id, |state| {
        let report = report_after(state, "stale-turn", &turn_started());
        assert!(
            state
                .track_current_turn_event_for_listener(1, "stale-turn", &turn_started(), report)
                .is_none()
        );
        assert_eq!(
            state.turns.latest.as_ref().map(|turn| turn.id.clone()),
            Some("parent-turn".to_string())
        );
    });

    for event in [
        Event {
            id: "stale-turn".to_string(),
            msg: turn_started(),
        },
        Event {
            id: "parent-turn".to_string(),
            msg: EventMsg::ThreadRolledBack,
        },
    ] {
        let sent = manager.after_track_enabled(parent_thread_id, 1, &event);
        assert!(sent.is_empty());
    }

    let stale_terminal = Event {
        id: "parent-turn".to_string(),
        msg: EventMsg::TurnComplete,
    };
    let (started, token) = with_thread(&mut manager, parent_thread_id, |state| {
        before_bespoke_enabled(state, "parent", &Vec::new(), 1, &stale_terminal, NOW)
    });
    assert!(started.is_none());
    assert!(token.is_none());
    manager.clear_spine_ui_parent_routes(parent_thread_id, "parent-turn", 1);

    with_thread(&mut manager, parent_thread_id, |state| {
        assert_eq!(snapshot_seq(state.current_spine_ui_for_forward()), Some(1));
    });
    assert!(manager.spine_ui_route_is_current(
        child_thread_id,
        parent_thread_id,
        "parent-turn",
        2,
        route_generation,
    ));
}

#[test]
fn stale_route_invalidation_cannot_mutate_or_refresh_a_replacement_listener() {
    let mut manager = RouteManager::new();
    let parent_thread_id = ThreadId(1);
    let child_thread_id = ThreadId(2);
    with_thread(&mut manager, child_thread_id, |state| {
        activate_spine_turn(state, "child-turn", 2);
    });
    manager.register_listener(parent_thread_id);
    let (_, sent) = register_test_route(
        &mut manager,
        parent_thread_id,
        "parent-turn",
        child_thread_id,
    );
    forwarded(only(sent));

    with_thread(&mut manager, parent_thread_id, |state| {
        state.listener_generation = 1;
        activate_spine_turn(state, "replacement-turn", 9);
    });
    manager.register_listener(parent_thread_id);

    assert!(
        manager
            .clear_all_spine_ui_routes_for_thread(child_thread_id)
            .is_none()
    );
    with_thread(&mut manager, parent_thread_id, |state| {
        assert_eq!(snapshot_seq(state.current_spine_ui_for_forward()), Some(9));
        assert!(emit_invalidation(state, "parent", &Vec::new(), 0, "parent-turn").is_none());
    });
}

#[test]
fn stale_listener_exit_cannot_clear_replacement_routes_before_generation_is_mirrored() {
    let mut manager = RouteManager::new();
    let parent_thread_id = ThreadId(1);
    let replaced_thread_id = ThreadId(2);
    let grandchild_thread_id = ThreadId(3);
    let instance = manager.ensure_thread(replaced_thread_id);
    manager.note_spine_ui_listener_generation(replaced_thread_id, 1);
    with_thread(&mut manager, replaced_thread_id, |state| {
        state.listener_generation = 1;
        activate_spine_turn(state, "replaced-turn", 1);
    });
    with_thread(&mut manager, grandchild_thread_id, |state| {
        activate_spine_turn(state, "grandchild-turn", 1);
    });

    manager.register_listener(parent_thread_id);
    manager.register_listener(replaced_thread_id);

    let (_, sent) = register_test_route(
        &mut manager,
        parent_thread_id,
        "parent-turn",
        replaced_thread_id,
    );
    let (_, incoming_parent_generation, incoming_route_generation, _) = forwarded(only(sent));
    let (_, sent) = register_test_route(
        &mut manager,
        replaced_thread_id,
        "replaced-parent-turn",
        grandchild_thread_id,
    );
    let (_, outgoing_parent_generation, outgoing_route_generation, _) = forwarded(only(sent));

    // The thread's own generation is ahead of the manager's copy.
    with_thread(&mut manager, replaced_thread_id, |state| {
        state.listener_generation = 2;
    });
    assert_eq!(listener_generation_of(&manager, replaced_thread_id), 1);

    assert!(
        manager
            .listener_exited_enabled(replaced_thread_id, instance, 2, 1)
            .is_none()
    );

    assert!(manager.spine_ui_route_is_current(
        replaced_thread_id,
        parent_thread_id,
        "parent-turn",
        incoming_parent_generation,
        incoming_route_generation,
    ));
    assert!(manager.spine_ui_route_is_current(
        grandchild_thread_id,
        replaced_thread_id,
        "replaced-parent-turn",
        outgoing_parent_generation,
        outgoing_route_generation,
    ));
}

#[test]
fn current_listener_exit_still_clears_incoming_and_outgoing_routes() {
    let mut manager = RouteManager::new();
    let parent_thread_id = ThreadId(1);
    let current_thread_id = ThreadId(2);
    let grandchild_thread_id = ThreadId(3);
    let instance = manager.ensure_thread(current_thread_id);
    manager.note_spine_ui_listener_generation(current_thread_id, 1);
    with_thread(&mut manager, current_thread_id, |state| {
        state.listener_generation = 1;
        activate_spine_turn(state, "current-turn", 1);
    });
    with_thread(&mut manager, grandchild_thread_id, |state| {
        activate_spine_turn(state, "grandchild-turn", 1);
    });

    manager.register_listener(parent_thread_id);
    manager.register_listener(current_thread_id);

    let (_, sent) = register_test_route(
        &mut manager,
        parent_thread_id,
        "parent-turn",
        current_thread_id,
    );
    let (_, incoming_parent_generation, incoming_route_generation, _) = forwarded(only(sent));
    let (_, sent) = register_test_route(
        &mut manager,
        current_thread_id,
        "current-parent-turn",
        grandchild_thread_id,
    );
    let (_, outgoing_parent_generation, outgoing_route_generation, _) = forwarded(only(sent));

    let current = |manager: &RouteManager| {
        (
            manager.spine_ui_route_is_current(
                current_thread_id,
                parent_thread_id,
                "parent-turn",
                incoming_parent_generation,
                incoming_route_generation,
            ),
            manager.spine_ui_route_is_current(
                grandchild_thread_id,
                current_thread_id,
                "current-parent-turn",
                outgoing_parent_generation,
                outgoing_route_generation,
            ),
        )
    };
    assert_eq!(current(&manager), (true, true));
    manager.listener_exited_enabled(current_thread_id, instance, 1, 1);
    assert_eq!(current(&manager), (false, false));
}

#[test]
fn stale_thread_state_instance_cannot_clear_reloaded_thread_routes() {
    let mut manager = RouteManager::new();
    let parent_thread_id = ThreadId(1);
    let reloaded_thread_id = ThreadId(2);
    let grandchild_thread_id = ThreadId(3);

    let old_instance = manager.ensure_thread(reloaded_thread_id);
    with_thread(&mut manager, reloaded_thread_id, |state| {
        state.listener_generation = 1;
    });
    manager.note_spine_ui_listener_generation(reloaded_thread_id, 1);
    let mut old_state = manager
        .remove_thread_state(reloaded_thread_id)
        .expect("old state");

    let new_instance = manager.ensure_thread(reloaded_thread_id);
    assert_ne!(old_instance, new_instance);
    with_thread(&mut manager, reloaded_thread_id, |state| {
        state.listener_generation = 1;
        activate_spine_turn(state, "reloaded-turn", 1);
    });
    manager.note_spine_ui_listener_generation(reloaded_thread_id, 1);
    assert_eq!(old_state.listener_generation, 1);
    assert_eq!(listener_generation_of(&manager, reloaded_thread_id), 1);
    with_thread(&mut manager, grandchild_thread_id, |state| {
        activate_spine_turn(state, "grandchild-turn", 1);
    });

    manager.register_listener(parent_thread_id);
    manager.register_listener(reloaded_thread_id);
    register_test_route(
        &mut manager,
        parent_thread_id,
        "parent-turn",
        reloaded_thread_id,
    );
    register_test_route(
        &mut manager,
        reloaded_thread_id,
        "reloaded-parent-turn",
        grandchild_thread_id,
    );
    let exist = |manager: &RouteManager| {
        routes_exist(
            manager,
            parent_thread_id,
            reloaded_thread_id,
            grandchild_thread_id,
        )
    };
    assert_eq!(exist(&manager), (true, true));

    manager.listener_exited_enabled(
        reloaded_thread_id,
        old_instance,
        old_state.listener_generation,
        1,
    );
    assert_eq!(exist(&manager), (true, true));

    let rollback = Event {
        id: "old-turn".to_string(),
        msg: EventMsg::ThreadRolledBack,
    };
    assert!(follow_event(&mut old_state, 1, &rollback));
    manager.after_followed_event(reloaded_thread_id, old_instance, 1, &rollback);
    assert_eq!(exist(&manager), (true, true));

    manager.listener_exited_enabled(reloaded_thread_id, new_instance, 1, 1);
    assert_eq!(exist(&manager), (false, false));
}

#[test]
fn child_listener_replacement_invalidates_old_projection_and_accepts_new_state() {
    let mut manager = RouteManager::new();
    let parent_thread_id = ThreadId(1);
    let child_thread_id = ThreadId(2);
    let child_instance = manager.ensure_thread(child_thread_id);
    with_thread(&mut manager, child_thread_id, |state| {
        activate_spine_turn(state, "child-turn", 1);
    });
    manager.register_listener(parent_thread_id);
    let (_, sent) = register_test_route(
        &mut manager,
        parent_thread_id,
        "parent-turn",
        child_thread_id,
    );
    let (parent_turn_id, parent_listener_generation, route_generation, old_child_state) =
        forwarded(only(sent));
    with_thread(&mut manager, parent_thread_id, |state| {
        assert!(state.record_spine_ui_agent_state(
            child_thread_id,
            route_generation,
            old_child_state.clone(),
        ));
    });

    let invalidation = manager
        .note_spine_ui_listener_generation(child_thread_id, 2)
        .expect("replacement invalidation");
    assert_eq!(invalidation.to, parent_thread_id);
    assert!(matches!(
        invalidation.command,
        Command::EmitSpineUiInvalidation { .. }
    ));
    let shown = |manager: &mut RouteManager| {
        with_thread(manager, parent_thread_id, |state| {
            state
                .current_spine_ui_for_forward()
                .and_then(SpineUiState::structured_content)
                .map_or(0, |content| content.agent_subtrees.len())
        })
    };
    assert_eq!(shown(&mut manager), 0);
    assert!(!manager.spine_ui_route_is_current(
        child_thread_id,
        parent_thread_id,
        "parent-turn",
        parent_listener_generation,
        route_generation,
    ));

    let output = manager.handle_command(
        true,
        parent_thread_id,
        "parent",
        &vec![ConnectionId(1)],
        Command::ForwardSpineUiAgentState {
            child_thread_id,
            parent_turn_id,
            parent_listener_generation,
            generation: route_generation,
            state: Some(old_child_state),
        },
    );
    assert!(output.started.is_none());
    assert!(output.ended.is_none());

    manager.clear_spine_ui_routes_for_listener_exit(child_thread_id, 1, child_instance);
    manager.note_spine_ui_agent_turn_started(child_thread_id, 2, "child-turn");
    with_thread(&mut manager, child_thread_id, |state| {
        state.listener_generation = 2;
        assert!(state.record_spine_ui_snapshot(tree_snapshot(2, "1.1", true), NOW));
    });
    let replacement = manager
        .queue_spine_ui_agent_state(child_thread_id)
        .expect("replacement child state");
    let (_, _, replacement_generation, replacement_state) = forwarded(replacement);
    assert!(replacement_generation > route_generation);
    with_thread(&mut manager, parent_thread_id, |state| {
        assert!(state.record_spine_ui_agent_state(
            child_thread_id,
            replacement_generation,
            replacement_state,
        ));
    });
    assert_eq!(shown(&mut manager), 1);
}

fn subscribed_thread(
    thread_id: ThreadId,
    connection_id: ConnectionId,
    listener_generation: u64,
) -> (Subscriptions, LiveThread) {
    let mut subscriptions = Subscriptions::new();
    subscriptions.connection_initialized(connection_id, ConnectionCapabilities::default());
    subscriptions.ensure_thread(thread_id);
    assert!(subscriptions.try_add_connection_to_thread(thread_id, connection_id));
    let mut state = LiveThread::new();
    state.listener_generation = listener_generation;
    activate_spine_turn(&mut state, "turn-1", 1);
    state.record_spine_ui_spawn_progress(spawn_progress(ThreadId(99)), NOW);
    state.mark_spine_ui_mounted("turn-1", &vec![connection_id]);
    (subscriptions, state)
}

#[test]
fn listener_failure_terminalizes_only_the_current_live_carrier() {
    let thread_id = ThreadId(1);
    let connection_id = ConnectionId(1);
    let (subscriptions, mut state) = subscribed_thread(thread_id, connection_id, 2);
    let subscribed = subscriptions.subscribed_connection_ids(thread_id);

    let (current, ending) = listener_failed_enabled(
        &mut state,
        "thread",
        &subscribed,
        1,
        &"stale listener".to_string(),
        NOW,
    );
    assert!(!current);
    assert!(ending.is_none());
    let (current, ending) = listener_failed(
        true,
        &mut state,
        "thread",
        &subscribed,
        2,
        &"event stream closed".to_string(),
        NOW,
    );
    assert!(current);

    let ending = ending.expect("failed terminal notification");
    assert_eq!(ending.connection_ids, vec![connection_id]);
    let item = ending.notification.item;
    assert_eq!(item.status, McpToolCallStatus::Failed);
    let content = item.result.structured_content;
    assert_eq!(content.terminal_reason, Some("listener_error".to_string()));
    assert_eq!(
        content.spawn_calls[0].tasks[0].status,
        RenderAgentStatus::Error
    );
    assert!(item.result.text.contains("event stream closed"));
}

#[test]
fn turn_abort_terminalizes_the_live_carrier_as_failed() {
    let mut manager = RouteManager::new();
    let thread_id = ThreadId(1);
    let connection_id = ConnectionId(1);
    let (subscriptions, state) = subscribed_thread(thread_id, connection_id, 1);
    let subscribed = subscriptions.subscribed_connection_ids(thread_id);
    manager.ensure_thread(thread_id);
    manager.put_thread(thread_id, state);
    let event = Event {
        id: "turn-1".to_string(),
        msg: turn_aborted(TurnAbortReason::Interrupted),
    };
    let (started, token) = with_thread(&mut manager, thread_id, |state| {
        before_bespoke_enabled(state, "thread", &subscribed, 1, &event, NOW)
    });
    assert!(started.is_none());
    let completion_token = token.expect("abort completion token");
    let output = manager.after_event_enabled(
        thread_id,
        "thread",
        &subscribed,
        1,
        &event,
        Some(completion_token),
        NOW,
    );

    let ending = output.ended.expect("aborted terminal notification");
    let item = ending.notification.item;
    assert_eq!(item.status, McpToolCallStatus::Failed);
    let content = item.result.structured_content;
    assert_eq!(content.terminal_reason, Some("interrupted".to_string()));
    assert_eq!(
        content.spawn_calls[0].tasks[0].status,
        RenderAgentStatus::Interrupted
    );
}

#[test]
fn rollback_invalidates_the_route_and_a_replacement_gets_a_new_generation() {
    let mut manager = RouteManager::new();
    let parent_thread_id = ThreadId(1);
    let child_thread_id = ThreadId(2);
    with_thread(&mut manager, child_thread_id, |state| {
        activate_spine_turn(state, "child-turn", 3);
    });
    manager.register_listener(parent_thread_id);
    let (progress, sent) = register_test_route(
        &mut manager,
        parent_thread_id,
        "parent-turn",
        child_thread_id,
    );
    let (_, _, first_generation, state) = forwarded(only(sent));
    with_thread(&mut manager, parent_thread_id, |parent| {
        assert!(parent.record_spine_ui_agent_state(child_thread_id, first_generation, state));
    });

    let invalidation = manager
        .clear_all_spine_ui_routes_for_thread(child_thread_id)
        .expect("rollback invalidation");
    assert!(matches!(
        invalidation.command,
        Command::EmitSpineUiInvalidation { .. }
    ));
    assert!(!manager.spine_ui_route_is_current(
        child_thread_id,
        parent_thread_id,
        "parent-turn",
        0,
        first_generation,
    ));

    let sent =
        manager.register_spine_ui_spawn_progress(parent_thread_id, 0, "parent-turn", &progress);
    let (_, _, second_generation, _) = forwarded(only(sent));
    assert!(second_generation > first_generation);
}

#[test]
fn parent_terminal_completes_without_waiting_for_a_child_ack() {
    let mut manager = RouteManager::new();
    let parent_thread_id = ThreadId(1);
    let child_thread_id = ThreadId(2);
    with_thread(&mut manager, child_thread_id, |state| {
        activate_spine_turn(state, "child-turn", 4);
    });
    manager.register_listener(parent_thread_id);
    let (_, sent) = register_test_route(
        &mut manager,
        parent_thread_id,
        "parent-turn",
        child_thread_id,
    );
    let (_, _, route_generation, _) = forwarded(only(sent));

    let completion_token = with_thread(&mut manager, parent_thread_id, |state| {
        state.begin_spine_ui_turn_completion("parent-turn")
    })
    .expect("parent completion token");
    let event = Event {
        id: "parent-turn".to_string(),
        msg: EventMsg::TurnComplete,
    };
    manager.after_event_enabled(
        parent_thread_id,
        "parent",
        &Vec::new(),
        0,
        &event,
        Some(completion_token),
        NOW,
    );

    with_thread(&mut manager, parent_thread_id, |state| {
        assert!(
            state
                .current_spine_ui_for_forward()
                .is_some_and(|state| state.completed_at_ms().is_some())
        );
    });
    assert!(!manager.spine_ui_route_is_current(
        child_thread_id,
        parent_thread_id,
        "parent-turn",
        0,
        route_generation,
    ));
}

#[test]
fn a_late_child_terminal_is_only_forwarded_to_a_future_parent_turn() {
    let mut manager = RouteManager::new();
    let parent_thread_id = ThreadId(1);
    let child_thread_id = ThreadId(2);
    with_thread(&mut manager, child_thread_id, |state| {
        activate_spine_turn(state, "child-turn", 4);
    });
    manager.note_spine_ui_agent_turn_started(child_thread_id, 0, "child-turn");
    manager.register_listener(parent_thread_id);
    let (_, sent) = register_test_route(
        &mut manager,
        parent_thread_id,
        "parent-turn-1",
        child_thread_id,
    );
    forwarded(only(sent));
    manager.clear_spine_ui_parent_routes(parent_thread_id, "parent-turn-1", 0);

    with_thread(&mut manager, child_thread_id, |state| {
        finish_spine_turn(state, "child-turn");
    });
    assert!(
        manager
            .acknowledge_spine_ui_agent_terminal(child_thread_id, 0, "child-turn")
            .is_none()
    );

    // The parent's tree has the nodes of the child's, so the forwarded tree keeps none of them.
    let (_, sent) = register_test_route(
        &mut manager,
        parent_thread_id,
        "parent-turn-2",
        child_thread_id,
    );
    let (parent_turn_id, _, _, state) = forwarded(only(sent));
    assert_eq!(parent_turn_id, "parent-turn-2");
    assert!(state.completed_at_ms().is_some());
    assert_eq!(snapshot_seq(Some(&state)), Some(4));
}

#[test]
fn rollback_clears_a_cached_child_terminal_before_reuse() {
    let mut manager = RouteManager::new();
    let parent_thread_id = ThreadId(1);
    let child_thread_id = ThreadId(2);
    with_thread(&mut manager, child_thread_id, |state| {
        activate_spine_turn(state, "child-turn", 11);
        finish_spine_turn(state, "child-turn");
    });
    manager.acknowledge_spine_ui_agent_terminal(child_thread_id, 0, "child-turn");

    with_thread(&mut manager, child_thread_id, |state| {
        state.reset_spine_ui_after_rollback();
    });
    manager.clear_all_spine_ui_routes_for_thread(child_thread_id);
    manager.register_listener(parent_thread_id);
    let (_, sent) = register_test_route(
        &mut manager,
        parent_thread_id,
        "parent-turn",
        child_thread_id,
    );
    assert!(sent.is_empty());
}

/// A card lives from its first tree to the end of its turn, and nothing of it survives a reload of
/// the thread.
#[test]
fn spine_ui_is_live_only_and_rebuilds_core_tree_after_cold_resume() {
    let tree = |sequence: u64, summaries: &[&str]| {
        let mut update = tree_snapshot(sequence, "1.1", false);
        update.nodes = summaries
            .iter()
            .enumerate()
            .map(|(at, summary)| {
                let (node_id, parent_id, kind) = if at == 0 {
                    ("1".to_string(), None, SpineTreeNodeKind::RootEpoch)
                } else {
                    (format!("1.{at}"), Some("1"), SpineTreeNodeKind::Task)
                };
                node(
                    &node_id,
                    parent_id,
                    kind,
                    SpineTreeNodeStatus::Live,
                    Some(summary),
                    None,
                    0,
                    None,
                )
            })
            .collect();
        update.active_node_id = update.nodes[update.nodes.len() - 1].node_id.clone();
        EventMsg::SpineTreeUpdate(update)
    };

    let mut manager = RouteManager::new();
    let thread_id = ThreadId(1);
    let connection_id = ConnectionId(1);
    let connections = vec![connection_id];
    manager.ensure_thread(thread_id);

    let listen = |manager: &mut RouteManager, turn_id: &str, msg: EventMsg| {
        let event = Event {
            id: turn_id.to_string(),
            msg,
        };
        with_thread(manager, thread_id, |state| {
            let report = report_after(state, turn_id, &event.msg);
            state.track_current_turn_event(turn_id, &event.msg, report);
        });
        manager.after_track(true, thread_id, 0, &event);
        let (started, token) = with_thread(manager, thread_id, |state| {
            before_bespoke(true, state, "thread", &connections, 0, &event, NOW)
        });
        let output = manager.after_event(
            true,
            thread_id,
            "thread",
            &connections,
            0,
            &event,
            token,
            NOW,
        );
        (started, output.ended)
    };

    let (started, ended) = listen(&mut manager, "turn-1", turn_started());
    assert!(started.is_none() && ended.is_none());
    listen(&mut manager, "turn-1", spine_call());
    let (started, _) = listen(
        &mut manager,
        "turn-1",
        tree(1, &["root"]),
    );
    let started = started.expect("mounted card");
    assert_eq!(started.thread_id, "thread");
    assert_eq!(started.turn_id, "turn-1");
    assert_eq!(started.item.id, "spine-ui-turn-1");
    assert_eq!(started.item.status, McpToolCallStatus::InProgress);
    let (started, _) = listen(
        &mut manager,
        "turn-1",
        tree(2, &["root", "before cold resume"]),
    );
    assert_eq!(started.expect("refreshed card").item.id, "spine-ui-turn-1");
    let (_, ended) = listen(&mut manager, "turn-1", EventMsg::TurnComplete);
    let ended = ended.expect("completed card");
    assert_eq!(ended.notification.thread_id, "thread");
    assert_eq!(ended.notification.turn_id, "turn-1");
    assert_eq!(ended.notification.item.id, "spine-ui-turn-1");
    assert_eq!(ended.notification.item.status, McpToolCallStatus::Completed);
    assert_eq!(ended.connection_ids, vec![connection_id]);

    manager.remove_thread_state(thread_id);
    manager.ensure_thread(thread_id);
    with_thread(&mut manager, thread_id, |state| {
        assert!(mount_for_connection(true, state, "thread", connection_id).is_none());
    });
    listen(&mut manager, "turn-2", turn_started());
    listen(&mut manager, "turn-2", spine_call());
    let (started, _) = listen(
        &mut manager,
        "turn-2",
        tree(3, &["root", "before cold resume", "after cold resume"]),
    );
    let rebuilt = started.expect("rebuilt card");
    assert_eq!(rebuilt.thread_id, "thread");
    assert_eq!(rebuilt.turn_id, "turn-2");
    assert_eq!(rebuilt.item.id, "spine-ui-turn-2");
    let content = &rebuilt.item.result.structured_content;
    let summaries: std::collections::BTreeSet<&str> = content
        .snapshot
        .nodes
        .iter()
        .filter_map(|node| node.summary.as_deref())
        .collect();
    assert_eq!(
        summaries,
        std::collections::BTreeSet::from(["root", "before cold resume", "after cold resume"])
    );
    assert!(content.agent_subtrees.is_empty());
    let (_, ended) = listen(&mut manager, "turn-2", EventMsg::TurnComplete);
    let ended = ended.expect("completed rebuilt card");
    assert_eq!(ended.notification.turn_id, "turn-2");
    assert_eq!(ended.notification.item.id, "spine-ui-turn-2");
}

#[test]
fn a_switched_off_card_does_nothing() {
    let mut manager = RouteManager::new();
    let thread_id = ThreadId(1);
    let instance = manager.ensure_thread(thread_id);
    assert!(manager.listener_started(false, thread_id, 5).is_none());
    assert_eq!(listener_generation_of(&manager, thread_id), 0);
    let event = Event {
        id: "turn-1".to_string(),
        msg: EventMsg::SpineTreeUpdate(tree_snapshot(1, "1.1", false)),
    };
    assert!(manager.after_track(false, thread_id, 0, &event).is_empty());
    assert!(
        manager
            .listener_exited(false, thread_id, instance, 0, 0)
            .is_none()
    );
    let output = manager.handle_command(
        false,
        thread_id,
        "thread",
        &Vec::new(),
        Command::EmitSpineUiInvalidation {
            listener_generation: 0,
            turn_id: "turn-1".to_string(),
        },
    );
    assert!(output.started.is_none() && output.commands.is_empty());
    let ended = Event {
        id: "turn-1".to_string(),
        msg: EventMsg::TurnComplete,
    };
    let output =
        manager.after_event(false, thread_id, "thread", &Vec::new(), 0, &ended, None, NOW);
    assert!(output.ended.is_none() && output.commands.is_empty());
    assert!(manager.threads.get(&thread_id).unwrap().terminal_ack.is_none());
    with_thread(&mut manager, thread_id, |state| {
        activate_spine_turn(state, "turn-1", 1);
        let error = "closed".to_string();
        let (failed, ending) =
            listener_failed(false, state, "thread", &Vec::new(), 0, &error, NOW);
        assert!(!failed && ending.is_none());
        let (started, token) =
            before_bespoke(false, state, "thread", &Vec::new(), 0, &event, NOW);
        assert!(started.is_none() && token.is_none());
        assert!(mount_for_connection(false, state, "thread", ConnectionId(1)).is_none());
        assert!(mount_for_connection(true, state, "thread", ConnectionId(1)).is_some());
    });
}

#[test]
fn forwarded_state_reaches_the_parent_card() {
    let mut manager = RouteManager::new();
    let parent_thread_id = ThreadId(1);
    let child_thread_id = ThreadId(2);
    with_thread(&mut manager, child_thread_id, |state| {
        activate_spine_turn(state, "child-turn", 4);
    });
    manager.register_listener(parent_thread_id);
    let (_, sent) = register_test_route(
        &mut manager,
        parent_thread_id,
        "parent-turn",
        child_thread_id,
    );
    let sent = only(sent);
    let connections = vec![ConnectionId(4)];
    let output = manager.handle_command(
        true,
        parent_thread_id,
        "parent",
        &connections,
        sent.command,
    );
    let started = output.started.expect("refreshed parent card");
    assert_eq!(started.thread_id, "parent");
    assert_eq!(started.turn_id, "parent-turn");
    assert_eq!(
        started.item.result.structured_content.agent_subtrees[0].thread_id,
        child_thread_id
    );
    with_thread(&mut manager, parent_thread_id, |state| {
        assert!(state.mounted_connection_ids.contains(&ConnectionId(4)));
    });
}

#[test]
fn only_subscribed_connections_are_told() {
    assert_eq!(
        still_subscribed(
            vec![ConnectionId(3), ConnectionId(1), ConnectionId(2)],
            &vec![ConnectionId(2), ConnectionId(3)],
        ),
        vec![ConnectionId(3), ConnectionId(2)]
    );
}

#[test]
fn the_first_listener_generation_follows_the_largest() {
    let mut state = LiveThread::new();
    state.listener_generation = u64::MAX;
    assert_eq!(state.set_listener(), 0);
}

#[test]
fn a_removed_thread_has_no_routes_and_no_listener() {
    let mut manager = RouteManager::new();
    let parent_thread_id = ThreadId(1);
    let child_thread_id = ThreadId(2);
    manager.register_listener(parent_thread_id);
    register_test_route(
        &mut manager,
        parent_thread_id,
        "parent-turn",
        child_thread_id,
    );
    assert!(manager.routes.contains_key(&child_thread_id));
    assert!(manager.remove_thread_state(parent_thread_id).is_some());
    assert!(!manager.routes.contains_key(&child_thread_id));
    assert!(!manager.listeners.contains(&parent_thread_id));
    assert!(manager.remove_thread_state(parent_thread_id).is_none());
    manager.register_listener(parent_thread_id);
    manager.unregister_listener(parent_thread_id);
    assert!(!manager.listeners.contains(&parent_thread_id));
    register_test_route(
        &mut manager,
        parent_thread_id,
        "parent-turn",
        child_thread_id,
    );
    manager.clear_routes();
    assert_eq!(manager.routes.len(), 0);
}
