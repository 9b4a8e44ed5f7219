use spine_ui::barrier::{ChildEnd, TerminalBarrier};
use spine_ui::events::{EventMsg, ResponseItem};
use spine_ui::history::{ThreadItem, Turn};
use spine_ui::keyed::KeySet;
use spine_ui::lineage::{
    RetainedCommand, RetainedManager, RetainedRoute, RetainedSent, RouteTerminal,
    TIMED_OUT_ROUTE_RETENTION_MS,
};
use spine_ui::protocol::{
    AgentStatus, SpineSpawnProgressEvent, SpineSpawnTaskProgress, SpineTreeNodeKind,
    SpineTreeNodeSnapshot, SpineTreeNodeStatus, SpineTreeUpdateEvent, ThreadId,
};
use spine_ui::render::RenderAgentStatus;
use spine_ui::retained::{RetainedThread, TurnCard};
use spine_ui::state::SpineUiState;
use spine_ui::turns::{LatestTurn, TurnReport, TurnStatus};

const NOW: i64 = 1_700_000_000_000;

fn spine_snapshot(sequence: u64, active_node_id: &str) -> SpineTreeUpdateEvent {
    SpineTreeUpdateEvent {
        snapshot_seq: sequence,
        active_node_id: active_node_id.to_string(),
        settled_spawn_call_ids: Vec::new(),
        nodes: vec![
            SpineTreeNodeSnapshot {
                node_id: "1".to_string(),
                parent_id: None,
                kind: SpineTreeNodeKind::RootEpoch,
                status: SpineTreeNodeStatus::Opened,
                summary: None,
                memory_summary: None,
                spawn_outcome: None,
                start: 0,
                end: None,
                context_pressure: None,
            },
            SpineTreeNodeSnapshot {
                node_id: "1.1".to_string(),
                parent_id: Some("1".to_string()),
                kind: SpineTreeNodeKind::Task,
                status: SpineTreeNodeStatus::Live,
                summary: Some("Work".to_string()),
                memory_summary: None,
                spawn_outcome: None,
                start: 1,
                end: None,
                context_pressure: None,
            },
        ],
    }
}

fn card(sequence: u64, active_node_id: &str) -> SpineUiState {
    let mut state = SpineUiState::default();
    state.record_snapshot(spine_snapshot(sequence, active_node_id));
    state
}

fn function_call(name: &str, namespace: Option<&str>) -> EventMsg {
    EventMsg::RawResponseItem(ResponseItem::FunctionCall {
        name: name.to_string(),
        namespace: namespace.map(str::to_string),
    })
}

fn agent_task(ordinal: u32, summary: &str, thread_id: ThreadId) -> SpineSpawnTaskProgress {
    SpineSpawnTaskProgress {
        ordinal,
        summary: summary.to_string(),
        thread_id,
        agent_path: Some(format!("/root/agent_{ordinal}")),
        status: AgentStatus::Running,
    }
}

fn progress(call_id: &str, tasks: Vec<SpineSpawnTaskProgress>) -> SpineSpawnProgressEvent {
    SpineSpawnProgressEvent {
        call_id: call_id.to_string(),
        tasks,
    }
}

fn latest(turn_id: &str, status: TurnStatus, has_active_turn: bool) -> TurnReport {
    TurnReport {
        latest: Some(LatestTurn {
            id: turn_id.to_string(),
            status,
        }),
        has_active_turn,
    }
}

/// What the turn history reports after an event.
fn report_after(state: &RetainedThread, turn_id: &str, event: &EventMsg) -> TurnReport {
    match event {
        EventMsg::TurnStarted { .. } => latest(turn_id, TurnStatus::InProgress, true),
        EventMsg::TurnComplete => latest(turn_id, TurnStatus::Completed, false),
        EventMsg::TurnAborted { .. } => latest(turn_id, TurnStatus::Interrupted, false),
        _ => TurnReport {
            latest: state.turns.latest.as_ref().map(|turn| LatestTurn {
                id: turn.id.clone(),
                status: turn.status,
            }),
            has_active_turn: state.turns.has_active_turn,
        },
    }
}

fn track(state: &mut RetainedThread, turn_id: &str, event: &EventMsg) {
    let report = report_after(state, turn_id, event);
    state.track_current_turn_event(turn_id, event, report);
}

fn start(state: &mut RetainedThread, turn_id: &str) {
    track(state, turn_id, &EventMsg::TurnStarted { started_at: None });
}

fn complete(state: &mut RetainedThread, turn_id: &str) {
    track(state, turn_id, &EventMsg::TurnComplete);
}

/// Works on the state of a thread that the manager knows.
fn with_thread<R>(
    manager: &mut RetainedManager,
    thread_id: ThreadId,
    work: impl FnOnce(&mut RetainedThread) -> R,
) -> R {
    manager.ensure_thread(thread_id);
    let mut entry = manager.threads.remove(&thread_id).expect("known thread");
    let result = work(&mut entry.thread);
    manager.threads.insert(thread_id, entry);
    result
}

fn carries_nothing(manager: &mut RetainedManager, thread_id: ThreadId) -> bool {
    with_thread(manager, thread_id, |state| {
        state.spine_ui_carry_agent_generations().len() == 0
    })
}

/// A barrier whose time is over at once.
fn wait_no_longer(
    manager: &mut RetainedManager,
    parent: ThreadId,
    turn_id: &str,
    now: u64,
) -> (Vec<ChildEnd>, Vec<(ThreadId, u64)>) {
    let mut barrier = TerminalBarrier::new(manager, parent, turn_id);
    assert!(barrier.advance(manager, true, now));
    (barrier.states, barrier.timed_out)
}

fn threads_of(timed_out: &[(ThreadId, u64)]) -> Vec<ThreadId> {
    timed_out.iter().map(|(thread_id, _)| *thread_id).collect()
}

fn snapshot_seq(state: &Option<SpineUiState>) -> Option<u64> {
    state
        .as_ref()
        .and_then(SpineUiState::latest_snapshot)
        .map(|snapshot| snapshot.snapshot_seq)
}

fn card_of<'a>(cards: &'a [TurnCard], turn_id: &str) -> Option<&'a SpineUiState> {
    cards
        .iter()
        .find(|card| card.turn_id == turn_id)
        .map(|card| &card.state)
}

fn register_test_spine_ui_route(
    manager: &mut RetainedManager,
    parent_thread_id: ThreadId,
    parent_turn_id: &str,
    child_thread_id: ThreadId,
) {
    let spawn = progress(
        &format!("spawn-{parent_turn_id}"),
        vec![agent_task(0, "Agent", child_thread_id)],
    );
    with_thread(manager, parent_thread_id, |state| {
        start(state, parent_turn_id);
        track(state, parent_turn_id, &function_call("spawn", Some("spine")));
        state.record_spine_ui_snapshot(spine_snapshot(1, "1.1"), NOW);
        state.record_spine_ui_spawn_progress(spawn.clone(), NOW);
    });
    manager.register_spine_ui_spawn_progress(parent_thread_id, parent_turn_id, &spawn);
}

fn completed_timed_out_parent_state(child_thread_id: ThreadId, generation: u64) -> RetainedThread {
    let mut state = RetainedThread::new();
    start(&mut state, "turn-1");
    track(&mut state, "turn-1", &function_call("spawn", Some("spine")));
    state.record_spine_ui_snapshot(spine_snapshot(1, "1.1"), NOW);
    state.record_spine_ui_spawn_progress(
        progress("spawn-child", vec![agent_task(0, "Child", child_thread_id)]),
        NOW,
    );
    assert!(state.record_spine_ui_agent_state(child_thread_id, generation, card(2, "1.1")));
    assert!(state.mark_spine_ui_agent_sync_timeout(child_thread_id, generation));
    complete(&mut state, "turn-1");
    state.take_turn_summary();
    state
}

#[test]
fn note_thread_settings_reports_only_effective_changes() {
    let mut state = RetainedThread::new();
    let settings = |model: &str| {
        format!("{{\"cwd\":\"/tmp\",\"model\":\"{model}\",\"model_provider\":\"mock_provider\"}}")
    };
    let initial = settings("mock-model");
    let updated = settings("mock-model-2");

    let results = vec![
        state.note_thread_settings(initial.clone()),
        state.note_thread_settings(initial),
        state.note_thread_settings(updated.clone()),
        state.note_thread_settings(updated),
    ];

    assert_eq!(results, vec![true, false, true, false]);
}

#[test]
fn active_turn_requires_a_real_matching_turn_lifecycle() {
    let mut state = RetainedThread::new();
    assert!(!state.has_active_turn("turn-1"));

    start(&mut state, "turn-1");
    assert!(state.has_active_turn("turn-1"));
    assert!(!state.has_active_turn("turn-2"));

    complete(&mut state, "turn-1");
    assert!(!state.has_active_turn("turn-1"));
}

#[test]
fn spine_ui_requires_an_explicit_spine_call_in_the_active_turn() {
    let mut state = RetainedThread::new();
    start(&mut state, "turn-1");

    assert!(state.live_spine_ui("turn-1").is_none());
    track(&mut state, "turn-1", &function_call("shell", None));
    assert!(state.live_spine_ui("turn-1").is_none());
    track(&mut state, "turn-1", &function_call("trim", Some("spine")));
    assert!(state.live_spine_ui("turn-1").is_none());

    track(&mut state, "turn-1", &function_call("open", Some("spine")));
    assert!(state.live_spine_ui("turn-1").is_some());
    assert!(state.live_spine_ui("turn-2").is_none());
    state
        .turn_summary
        .spine_ui
        .record_snapshot(spine_snapshot(1, "1.1"));
    let turn = state.active_turn_snapshot(Turn {
        id: "turn-1".to_string(),
        status: TurnStatus::InProgress,
        items: Vec::new(),
    });
    assert!(turn.items.iter().any(|item| matches!(
        item,
        ThreadItem::Card(card) if card.id == "spine-ui-turn-1"
    )));

    complete(&mut state, "turn-1");
    assert!(state.live_spine_ui("turn-1").is_none());
    assert!(state.turn_summary.active_spine_ui("turn-1").is_some());

    state.reset_spine_ui_after_rollback();
    assert!(state.turn_summary.active_spine_ui("turn-1").is_none());
    assert!(state.carry.latest_snapshot().is_none());
}

#[test]
fn spine_ui_revision_remains_monotonic_across_rollback() {
    let mut state = RetainedThread::new();
    start(&mut state, "turn-1");
    track(&mut state, "turn-1", &function_call("open", Some("spine")));
    state.record_spine_ui_snapshot(spine_snapshot(1, "1.1"), NOW);
    state.record_spine_ui_snapshot(spine_snapshot(2, "1.1"), NOW);
    let previous_revision = state
        .turn_summary
        .spine_ui
        .structured_content()
        .expect("first turn UI")
        .ui_revision;

    state.reset_spine_ui_after_rollback();
    start(&mut state, "turn-2");
    track(&mut state, "turn-2", &function_call("open", Some("spine")));
    state.record_spine_ui_snapshot(spine_snapshot(1, "1.1"), NOW);

    let next_revision = state
        .turn_summary
        .spine_ui
        .structured_content()
        .expect("second turn UI")
        .ui_revision;
    assert!(next_revision > previous_revision);
}

#[test]
fn spine_ui_concurrent_agent_states_queue_to_the_parent_listener() {
    let mut manager = RetainedManager::new();
    let parent_thread_id = ThreadId(1);
    let child_a = ThreadId(2);
    let child_b = ThreadId(3);
    manager.register_listener(parent_thread_id);
    let spawn = progress(
        "spawn-1",
        vec![
            agent_task(0, "Agent A", child_a),
            agent_task(1, "Agent B", child_b),
        ],
    );
    with_thread(&mut manager, parent_thread_id, |state| {
        start(state, "turn-1");
        track(state, "turn-1", &function_call("spawn", Some("spine")));
        state.record_spine_ui_snapshot(spine_snapshot(1, "1.1"), NOW);
        state.record_spine_ui_spawn_progress(spawn.clone(), NOW);
    });
    let mut queued: Vec<RetainedSent> =
        manager.register_spine_ui_spawn_progress(parent_thread_id, "turn-1", &spawn);
    assert!(queued.is_empty());

    for (child_id, sequence) in [(child_a, 4), (child_b, 7)] {
        with_thread(&mut manager, child_id, |state| {
            start(state, "child-turn");
            track(state, "child-turn", &function_call("open", Some("spine")));
            state.record_spine_ui_snapshot(spine_snapshot(sequence, "1.1"), NOW);
        });
        queued.extend(manager.queue_spine_ui_agent_state(child_id));
    }

    let mut children = Vec::new();
    for sent in queued {
        assert_eq!(sent.to, parent_thread_id);
        let RetainedCommand::ForwardSpineUiAgentState {
            child_thread_id,
            parent_turn_id,
            generation,
            state,
            terminal,
        } = sent.command
        else {
            panic!("expected forwarded Spine UI state");
        };
        assert_eq!(parent_turn_id, "turn-1");
        assert!(generation > 0);
        assert!(!terminal);
        assert!(
            state
                .as_ref()
                .and_then(SpineUiState::latest_snapshot)
                .is_some()
        );
        children.push(child_thread_id);
    }
    children.sort();
    assert_eq!(children, vec![child_a, child_b]);

    manager.clear_spine_ui_parent_routes(parent_thread_id, "turn-1");
    assert!(manager.queue_spine_ui_agent_state(child_a).is_none());
}

#[test]
fn spine_ui_parent_refresh_reads_the_child_final_state() {
    let mut manager = RetainedManager::new();
    let parent_thread_id = ThreadId(1);
    let child_thread_id = ThreadId(2);
    let spawn = progress("spawn-1", vec![agent_task(0, "Agent", child_thread_id)]);
    with_thread(&mut manager, parent_thread_id, |state| {
        start(state, "turn-1");
        track(state, "turn-1", &function_call("spawn", Some("spine")));
        state
            .turn_summary
            .spine_ui
            .record_snapshot(spine_snapshot(1, "1.1"));
        state.turn_summary.spine_ui.record_spawn_progress(spawn.clone());
    });
    manager.register_spine_ui_spawn_progress(parent_thread_id, "turn-1", &spawn);

    let mut barrier = TerminalBarrier::new(&manager, parent_thread_id, "turn-1");
    assert!(!barrier.advance(&mut manager, false, 0));
    with_thread(&mut manager, child_thread_id, |state| {
        start(state, "child-turn");
        track(state, "child-turn", &function_call("open", Some("spine")));
        state
            .turn_summary
            .spine_ui
            .record_snapshot(spine_snapshot(9, "1.1"));
        complete(state, "child-turn");
        state.take_turn_summary();
    });
    manager.acknowledge_spine_ui_agent_terminal(child_thread_id, 0, "child-turn", 1);

    assert!(barrier.advance(&mut manager, false, 1));
    assert!(barrier.timed_out.is_empty());
    assert_eq!(barrier.states.len(), 1);
    assert_eq!(barrier.states[0].child, child_thread_id);
    assert_eq!(snapshot_seq(&barrier.states[0].state), Some(9));
}

#[test]
fn spine_ui_terminal_barrier_is_bottom_up_for_nested_agents() {
    let mut manager = RetainedManager::new();
    let root_thread_id = ThreadId(1);
    let child_thread_id = ThreadId(2);
    let grandchild_thread_id = ThreadId(3);
    let root_progress = progress("root-spawn", vec![agent_task(0, "Child", child_thread_id)]);
    let child_progress = progress(
        "child-spawn",
        vec![agent_task(0, "Grandchild", grandchild_thread_id)],
    );
    with_thread(&mut manager, root_thread_id, |state| {
        start(state, "root-turn");
        track(state, "root-turn", &function_call("spawn", Some("spine")));
        state.record_spine_ui_snapshot(spine_snapshot(1, "1.1"), NOW);
        state.record_spine_ui_spawn_progress(root_progress.clone(), NOW);
    });
    with_thread(&mut manager, child_thread_id, |state| {
        start(state, "child-turn");
        track(state, "child-turn", &function_call("spawn", Some("spine")));
        state.record_spine_ui_snapshot(spine_snapshot(2, "1.1"), NOW);
        state.record_spine_ui_spawn_progress(child_progress.clone(), NOW);
    });
    with_thread(&mut manager, grandchild_thread_id, |state| {
        start(state, "grandchild-turn");
        track(state, "grandchild-turn", &function_call("open", Some("spine")));
        state.record_spine_ui_snapshot(spine_snapshot(9, "1.1"), NOW);
    });
    manager.register_spine_ui_spawn_progress(root_thread_id, "root-turn", &root_progress);
    manager.register_spine_ui_spawn_progress(child_thread_id, "child-turn", &child_progress);

    let mut root_barrier = TerminalBarrier::new(&manager, root_thread_id, "root-turn");
    let mut child_barrier = TerminalBarrier::new(&manager, child_thread_id, "child-turn");
    assert!(!root_barrier.advance(&mut manager, false, 0));
    assert!(!child_barrier.advance(&mut manager, false, 0));

    with_thread(&mut manager, grandchild_thread_id, |state| {
        complete(state, "grandchild-turn");
        state.take_turn_summary();
    });
    manager.acknowledge_spine_ui_agent_terminal(grandchild_thread_id, 0, "grandchild-turn", 1);
    assert!(child_barrier.advance(&mut manager, false, 1));
    assert!(child_barrier.timed_out.is_empty());
    assert!(!root_barrier.advance(&mut manager, false, 1));
    with_thread(&mut manager, child_thread_id, |state| {
        for end in child_barrier.states {
            state.record_spine_ui_agent_state(
                end.child,
                end.generation,
                end.state.expect("grandchild terminal state"),
            );
        }
        complete(state, "child-turn");
        state.take_turn_summary();
    });
    manager.acknowledge_spine_ui_agent_terminal(child_thread_id, 0, "child-turn", 2);

    assert!(root_barrier.advance(&mut manager, false, 2));
    assert!(root_barrier.timed_out.is_empty());
    let child_ui = root_barrier.states[0]
        .state
        .as_ref()
        .expect("child terminal state")
        .structured_content()
        .expect("child structured content");
    assert_eq!(child_ui.agent_subtrees[0].thread_id, grandchild_thread_id);
}

#[test]
fn spine_ui_terminal_barrier_timeout_returns_latest_state() {
    let mut manager = RetainedManager::new();
    let parent_thread_id = ThreadId(1);
    let child_thread_id = ThreadId(2);
    let spawn = progress("spawn-1", vec![agent_task(0, "Agent", child_thread_id)]);
    with_thread(&mut manager, parent_thread_id, |state| {
        start(state, "turn-1");
        track(state, "turn-1", &function_call("spawn", Some("spine")));
        state.record_spine_ui_snapshot(spine_snapshot(1, "1.1"), NOW);
        state.record_spine_ui_spawn_progress(spawn.clone(), NOW);
    });
    with_thread(&mut manager, child_thread_id, |state| {
        start(state, "child-turn");
        track(state, "child-turn", &function_call("open", Some("spine")));
        state.record_spine_ui_snapshot(spine_snapshot(5, "1.1"), NOW);
    });
    manager.register_spine_ui_spawn_progress(parent_thread_id, "turn-1", &spawn);

    manager.register_listener(parent_thread_id);
    let mut now: u64 = 1_000;
    let (states, timed_out) = wait_no_longer(&mut manager, parent_thread_id, "turn-1", now);

    let generation = states[0].generation;
    assert_eq!(timed_out, vec![(child_thread_id, generation)]);
    assert!(manager.has_timed_out_spine_ui_children(parent_thread_id, now));
    assert_eq!(snapshot_seq(&states[0].state), Some(5));

    with_thread(&mut manager, parent_thread_id, |state| {
        assert!(state.mark_spine_ui_agent_sync_timeout(child_thread_id, generation));
        complete(state, "turn-1");
        state.take_turn_summary();
    });
    manager.clear_spine_ui_parent_routes(parent_thread_id, "turn-1");
    assert!(manager.spine_ui_route_is_current(
        child_thread_id,
        parent_thread_id,
        "turn-1",
        generation
    ));

    now += TIMED_OUT_ROUTE_RETENTION_MS - 1_000;

    with_thread(&mut manager, child_thread_id, |state| {
        complete(state, "child-turn");
        state.take_turn_summary();
    });
    let late = manager.acknowledge_spine_ui_agent_terminal(child_thread_id, 0, "child-turn", now);
    now += 2_000;
    assert!(manager.has_timed_out_spine_ui_children(parent_thread_id, now));
    let late = late.expect("late terminal forward");
    assert_eq!(late.to, parent_thread_id);
    let RetainedCommand::ForwardSpineUiAgentState {
        child_thread_id: forwarded_child,
        parent_turn_id,
        generation: forwarded_generation,
        state: terminal_state,
        terminal,
    } = late.command
    else {
        panic!("expected late terminal forward");
    };
    assert_eq!(forwarded_child, child_thread_id);
    assert_eq!(parent_turn_id, "turn-1");
    assert_eq!(forwarded_generation, generation);
    assert!(terminal);
    let refresh = with_thread(&mut manager, parent_thread_id, |state| {
        state.record_completed_spine_ui_agent_terminal(
            "turn-1",
            child_thread_id,
            generation,
            terminal_state.as_ref(),
        )
    });
    let completed = card_of(&refresh.completed, "turn-1").expect("updated completed card");
    assert_eq!(
        completed
            .structured_content()
            .expect("completed content")
            .spawn_calls[0]
            .tasks[0]
            .status,
        RenderAgentStatus::Running
    );
    manager.complete_spine_ui_late_terminal(
        child_thread_id,
        parent_thread_id,
        "turn-1",
        generation,
    );
    manager.clear_spine_ui_parent_routes(parent_thread_id, "turn-1");
    assert!(!manager.spine_ui_route_is_current(
        child_thread_id,
        parent_thread_id,
        "turn-1",
        generation
    ));
    assert!(!manager.has_timed_out_spine_ui_children(parent_thread_id, now));
}

#[test]
fn expired_timed_out_route_does_not_block_parent_cleanup() {
    let mut manager = RetainedManager::new();
    let parent_thread_id = ThreadId(1);
    let child_thread_id = ThreadId(2);
    manager.routes.insert(
        child_thread_id,
        RetainedRoute {
            parent_thread_id,
            parent_turn_id: "turn-1".to_string(),
            baseline_node_ids: KeySet::new(),
            generation: 1,
            timed_out_at: Some(500),
            terminal: RouteTerminal::TimedOut,
        },
    );

    assert!(manager.has_timed_out_spine_ui_children(parent_thread_id, 500));
    let later = 500 + TIMED_OUT_ROUTE_RETENTION_MS + 1_000;
    assert!(!manager.has_timed_out_spine_ui_children(parent_thread_id, later));
    assert!(!manager.spine_ui_route_is_current(child_thread_id, parent_thread_id, "turn-1", 1));
}

#[test]
fn spine_ui_late_terminal_updates_completed_card_after_new_turn_starts() {
    let child_thread_id = ThreadId(1);
    let generation = 7;
    let mut state = completed_timed_out_parent_state(child_thread_id, generation);

    start(&mut state, "turn-2");

    let mut final_child_ui = card(3, "1.1");
    final_child_ui.set_revision(2);
    let refresh = state.record_completed_spine_ui_agent_terminal(
        "turn-1",
        child_thread_id,
        generation,
        Some(&final_child_ui),
    );
    let completed = card_of(&refresh.completed, "turn-1")
        .expect("late terminal should still update turn-1");

    assert!(!completed.has_agent_sync_timeouts());
}

#[test]
fn spine_ui_late_terminal_without_state_removes_older_generation() {
    let child_thread_id = ThreadId(1);
    let mut state = completed_timed_out_parent_state(child_thread_id, 7);
    assert!(state.carry.mark_agent_sync_timeout(child_thread_id, 8));
    assert!(state.last_completed.mark_agent_sync_timeout(child_thread_id, 8));

    let refresh =
        state.record_completed_spine_ui_agent_terminal("turn-1", child_thread_id, 8, None);
    let completed = card_of(&refresh.completed, "turn-1")
        .expect("late terminal should clear the stale subtree");

    assert_eq!(completed.tracked_agent_generations().len(), 0);
    assert_eq!(state.carry.tracked_agent_generations().len(), 0);
}

#[test]
fn spine_ui_late_terminal_updates_historical_card_after_new_spine_turn_completes() {
    let child_thread_id = ThreadId(1);
    let generation = 7;
    let mut state = completed_timed_out_parent_state(child_thread_id, generation);

    start(&mut state, "turn-2");
    track(&mut state, "turn-2", &function_call("next", Some("spine")));
    state.record_spine_ui_snapshot(spine_snapshot(2, "1.1"), NOW);
    complete(&mut state, "turn-2");
    state.take_turn_summary();

    let mut final_child_ui = card(3, "1.1");
    final_child_ui.set_revision(2);
    let refresh = state.record_completed_spine_ui_agent_terminal(
        "turn-1",
        child_thread_id,
        generation,
        Some(&final_child_ui),
    );
    let historical = card_of(&refresh.completed, "turn-1")
        .expect("late terminal should update the retained turn-1 card");
    assert!(!historical.has_agent_sync_timeouts());
    assert!(
        card_of(&refresh.completed, "turn-2").is_some(),
        "the newer carried card should be refreshed too"
    );
    assert!(
        card_of(&state.restored, "turn-1").is_none(),
        "resolved runtime history should not accumulate"
    );
}

#[test]
fn spine_ui_terminal_barrier_observes_ack_before_route_registration() {
    let mut manager = RetainedManager::new();
    let parent_thread_id = ThreadId(1);
    let child_thread_id = ThreadId(2);
    with_thread(&mut manager, child_thread_id, |state| {
        start(state, "child-turn");
        track(state, "child-turn", &function_call("open", Some("spine")));
        state.record_spine_ui_snapshot(spine_snapshot(7, "1.1"), NOW);
        complete(state, "child-turn");
        state.take_turn_summary();
    });
    manager.acknowledge_spine_ui_agent_terminal(child_thread_id, 0, "child-turn", 0);
    // The parent's own tree is recorded after the child's, so none of its nodes count as new.
    let spawn = progress(
        "spawn-parent-turn",
        vec![agent_task(0, "Agent", child_thread_id)],
    );
    with_thread(&mut manager, parent_thread_id, |state| {
        start(state, "parent-turn");
        track(state, "parent-turn", &function_call("spawn", Some("spine")));
        state.record_spine_ui_snapshot(spine_snapshot(1, "1.1"), NOW);
        state.record_spine_ui_spawn_progress(spawn.clone(), NOW);
    });
    manager.register_spine_ui_spawn_progress(parent_thread_id, "parent-turn", &spawn);

    let (states, timed_out) = wait_no_longer(&mut manager, parent_thread_id, "parent-turn", 0);

    assert!(timed_out.is_empty());
    assert_eq!(snapshot_seq(&states[0].state), Some(7));

    manager.note_spine_ui_agent_turn_started(child_thread_id, 0);
    let (_, timed_out) = wait_no_longer(&mut manager, parent_thread_id, "parent-turn", 0);
    assert_eq!(threads_of(&timed_out), vec![child_thread_id]);
}

#[test]
fn spine_ui_terminal_barrier_does_not_treat_received_as_acknowledged() {
    let mut manager = RetainedManager::new();
    let parent_thread_id = ThreadId(1);
    let child_thread_id = ThreadId(2);
    with_thread(&mut manager, child_thread_id, |state| {
        start(state, "child-turn");
        track(state, "child-turn", &function_call("open", Some("spine")));
        state.record_spine_ui_snapshot(spine_snapshot(3, "1.1"), NOW);
        complete(state, "child-turn");
    });
    register_test_spine_ui_route(&mut manager, parent_thread_id, "parent-turn", child_thread_id);

    let (_, timed_out) = wait_no_longer(&mut manager, parent_thread_id, "parent-turn", 0);

    assert_eq!(threads_of(&timed_out), vec![child_thread_id]);
}

#[test]
fn spine_ui_terminal_barrier_tracks_child_before_listener_registration() {
    let mut manager = RetainedManager::new();
    let parent_thread_id = ThreadId(1);
    let child_thread_id = ThreadId(2);
    register_test_spine_ui_route(&mut manager, parent_thread_id, "parent-turn", child_thread_id);

    let (states, timed_out) = wait_no_longer(&mut manager, parent_thread_id, "parent-turn", 0);

    assert_eq!(threads_of(&timed_out), vec![child_thread_id]);
    assert_eq!(states.len(), 1);
    assert!(states[0].state.is_none());
}

#[test]
fn spine_ui_terminal_barrier_rejects_a_stale_listener_ack() {
    let mut manager = RetainedManager::new();
    let parent_thread_id = ThreadId(1);
    let child_thread_id = ThreadId(2);
    with_thread(&mut manager, child_thread_id, |state| {
        state.listener_generation = 2;
        start(state, "child-turn");
        track(state, "child-turn", &function_call("open", Some("spine")));
        state.record_spine_ui_snapshot(spine_snapshot(4, "1.1"), NOW);
    });
    manager.note_spine_ui_listener_generation(child_thread_id, 2);
    register_test_spine_ui_route(&mut manager, parent_thread_id, "parent-turn", child_thread_id);
    with_thread(&mut manager, child_thread_id, |state| {
        complete(state, "child-turn");
        state.take_turn_summary();
    });

    manager.acknowledge_spine_ui_agent_terminal(child_thread_id, 1, "child-turn", 0);
    let (_, timed_out) = wait_no_longer(&mut manager, parent_thread_id, "parent-turn", 0);
    assert_eq!(threads_of(&timed_out), vec![child_thread_id]);

    manager.acknowledge_spine_ui_agent_terminal(child_thread_id, 2, "child-turn", 0);
    let (_, timed_out) = wait_no_longer(&mut manager, parent_thread_id, "parent-turn", 0);
    assert!(timed_out.is_empty());
}

#[test]
fn spine_ui_route_does_not_reuse_ack_from_a_superseded_listener() {
    let mut manager = RetainedManager::new();
    let parent_thread_id = ThreadId(1);
    let child_thread_id = ThreadId(2);
    with_thread(&mut manager, child_thread_id, |state| {
        state.listener_generation = 1;
        start(state, "child-turn");
        track(state, "child-turn", &function_call("open", Some("spine")));
        state.record_spine_ui_snapshot(spine_snapshot(4, "1.1"), NOW);
        complete(state, "child-turn");
        state.take_turn_summary();
    });
    manager.note_spine_ui_listener_generation(child_thread_id, 1);
    manager.acknowledge_spine_ui_agent_terminal(child_thread_id, 1, "child-turn", 0);

    with_thread(&mut manager, child_thread_id, |state| {
        state.listener_generation = 2;
    });
    manager.note_spine_ui_listener_generation(child_thread_id, 2);
    register_test_spine_ui_route(&mut manager, parent_thread_id, "parent-turn", child_thread_id);

    let (_, timed_out) = wait_no_longer(&mut manager, parent_thread_id, "parent-turn", 0);
    assert_eq!(threads_of(&timed_out), vec![child_thread_id]);
}

#[test]
fn spine_ui_child_rollback_invalidates_parent_carry_after_terminal() {
    let mut manager = RetainedManager::new();
    let parent_thread_id = ThreadId(1);
    let child_thread_id = ThreadId(2);
    let spawn = progress("spawn-1", vec![agent_task(0, "Agent", child_thread_id)]);
    with_thread(&mut manager, parent_thread_id, |state| {
        start(state, "turn-1");
        track(state, "turn-1", &function_call("spawn", Some("spine")));
        state
            .turn_summary
            .spine_ui
            .record_snapshot(spine_snapshot(1, "1.1"));
        state.turn_summary.spine_ui.record_spawn_progress(spawn.clone());
    });
    with_thread(&mut manager, child_thread_id, |state| {
        start(state, "child-turn");
        track(state, "child-turn", &function_call("open", Some("spine")));
        state
            .turn_summary
            .spine_ui
            .record_snapshot(spine_snapshot(3, "1.1"));
    });
    manager.register_spine_ui_spawn_progress(parent_thread_id, "turn-1", &spawn);
    let (mut agent_states, _) = wait_no_longer(&mut manager, parent_thread_id, "turn-1", 0);
    let end = agent_states.pop().expect("child route state");
    let generation = end.generation;
    let child_ui = end.state.expect("latest child UI");
    with_thread(&mut manager, parent_thread_id, |state| {
        assert!(state.record_spine_ui_agent_state(child_thread_id, generation, child_ui));
        complete(state, "turn-1");
        state.take_turn_summary();
    });
    manager.clear_spine_ui_parent_routes(parent_thread_id, "turn-1");

    manager.clear_all_spine_ui_routes_for_thread(child_thread_id);

    assert!(carries_nothing(&mut manager, parent_thread_id));
    with_thread(&mut manager, parent_thread_id, |state| {
        start(state, "turn-2");
        track(state, "turn-2", &function_call("open", Some("spine")));
        state.record_spine_ui_snapshot(spine_snapshot(2, "1.1"), NOW);
        let structured = state
            .turn_summary
            .spine_ui
            .structured_content()
            .expect("carried Spine UI");
        assert!(structured.agent_subtrees.is_empty());
    });
}

#[test]
fn spine_ui_child_rollback_invalidates_nested_idle_ancestor_carries() {
    let mut manager = RetainedManager::new();
    let root_thread_id = ThreadId(1);
    let parent_thread_id = ThreadId(2);
    let child_thread_id = ThreadId(3);
    let parent_progress = progress("spawn-child", vec![agent_task(0, "Child", child_thread_id)]);
    let root_progress = progress("spawn-parent", vec![agent_task(0, "Parent", parent_thread_id)]);

    with_thread(&mut manager, child_thread_id, |state| {
        start(state, "child-turn");
        track(state, "child-turn", &function_call("open", Some("spine")));
        state.record_spine_ui_snapshot(spine_snapshot(7, "1.1"), NOW);
    });
    with_thread(&mut manager, parent_thread_id, |state| {
        start(state, "parent-turn");
        track(state, "parent-turn", &function_call("spawn", Some("spine")));
        state.record_spine_ui_snapshot(spine_snapshot(2, "1.1"), NOW);
        state.record_spine_ui_spawn_progress(parent_progress.clone(), NOW);
    });
    manager.register_spine_ui_spawn_progress(parent_thread_id, "parent-turn", &parent_progress);
    let (mut child_states, _) = wait_no_longer(&mut manager, parent_thread_id, "parent-turn", 0);
    let child_end = child_states.pop().expect("child state");
    with_thread(&mut manager, parent_thread_id, |state| {
        state.record_spine_ui_agent_state(
            child_thread_id,
            child_end.generation,
            child_end.state.expect("child UI"),
        );
        complete(state, "parent-turn");
        state.take_turn_summary();
    });
    manager.clear_spine_ui_parent_routes(parent_thread_id, "parent-turn");

    with_thread(&mut manager, root_thread_id, |state| {
        start(state, "root-turn");
        track(state, "root-turn", &function_call("spawn", Some("spine")));
        state.record_spine_ui_snapshot(spine_snapshot(1, "1.1"), NOW);
        state.record_spine_ui_spawn_progress(root_progress.clone(), NOW);
    });
    manager.register_spine_ui_spawn_progress(root_thread_id, "root-turn", &root_progress);
    let (mut parent_states, _) = wait_no_longer(&mut manager, root_thread_id, "root-turn", 0);
    let parent_end = parent_states.pop().expect("parent state");
    with_thread(&mut manager, root_thread_id, |state| {
        state.record_spine_ui_agent_state(
            parent_thread_id,
            parent_end.generation,
            parent_end.state.expect("parent UI"),
        );
        complete(state, "root-turn");
        state.take_turn_summary();
    });
    manager.clear_spine_ui_parent_routes(root_thread_id, "root-turn");

    manager.clear_all_spine_ui_routes_for_thread(child_thread_id);

    assert!(carries_nothing(&mut manager, parent_thread_id));
    assert!(carries_nothing(&mut manager, root_thread_id));
}

#[test]
fn spine_ui_cold_restored_lineage_invalidates_completed_ancestor_cards() {
    let mut manager = RetainedManager::new();
    let root_thread_id = ThreadId(1);
    let parent_thread_id = ThreadId(2);
    let child_thread_id = ThreadId(3);

    let child_ui = card(3, "1.1");
    let mut parent_ui = card(2, "1.1");
    parent_ui.record_spawn_progress(progress(
        "spawn-child",
        vec![agent_task(0, "Child", child_thread_id)],
    ));
    assert!(parent_ui.record_agent_state(child_thread_id, 7, child_ui));

    let mut root_ui = card(1, "1.1");
    root_ui.record_spawn_progress(progress(
        "spawn-parent",
        vec![agent_task(0, "Parent", parent_thread_id)],
    ));
    assert!(root_ui.record_agent_state(parent_thread_id, 9, parent_ui.clone()));

    manager.restore_spine_ui_completed_state(
        parent_thread_id,
        "parent-turn".to_string(),
        parent_ui,
    );
    manager.restore_spine_ui_completed_state(root_thread_id, "root-turn".to_string(), root_ui);

    let updates = manager
        .clear_all_spine_ui_routes_for_thread(child_thread_id)
        .completed;

    assert_eq!(updates.len(), 2);
    assert!(updates.iter().any(|update| {
        update.thread_id == parent_thread_id && update.turn_id == "parent-turn"
    }));
    assert!(
        updates
            .iter()
            .any(|update| update.thread_id == root_thread_id && update.turn_id == "root-turn")
    );
    assert!(carries_nothing(&mut manager, parent_thread_id));
    assert!(carries_nothing(&mut manager, root_thread_id));
}

#[test]
fn spine_ui_timeout_only_cold_restore_can_be_invalidated() {
    let mut manager = RetainedManager::new();
    let parent_thread_id = ThreadId(1);
    let child_thread_id = ThreadId(2);
    let mut parent_ui = card(1, "1.1");
    parent_ui.record_spawn_progress(progress(
        "spawn-child",
        vec![agent_task(0, "Child", child_thread_id)],
    ));
    assert!(parent_ui.mark_agent_sync_timeout(child_thread_id, 7));

    manager.restore_spine_ui_completed_state(
        parent_thread_id,
        "parent-turn".to_string(),
        parent_ui,
    );
    let updates = manager
        .clear_all_spine_ui_routes_for_thread(child_thread_id)
        .completed;

    let [update] = updates.as_slice() else {
        panic!("expected one timeout-only parent update");
    };
    assert_eq!(update.thread_id, parent_thread_id);
    assert_eq!(update.turn_id, "parent-turn");
    assert!(
        !update
            .state
            .tracks_agent_or_timeout_generation(child_thread_id, 7)
    );
}

#[test]
fn spine_ui_late_terminal_refreshes_completed_ancestor_cards() {
    let mut manager = RetainedManager::new();
    let root_thread_id = ThreadId(1);
    let parent_thread_id = ThreadId(2);
    let child_thread_id = ThreadId(3);

    let mut initial_child_ui = card(3, "1.1");
    initial_child_ui.set_revision(1);
    let mut parent_ui = card(2, "1.1");
    let mut child_task = agent_task(0, "Child", child_thread_id);
    child_task.status = AgentStatus::Completed(None);
    parent_ui.record_spawn_progress(progress("spawn-child", vec![child_task]));
    assert!(parent_ui.record_agent_state(child_thread_id, 7, initial_child_ui));
    assert!(parent_ui.mark_agent_sync_timeout(child_thread_id, 7));

    let mut root_ui = card(1, "1.1");
    root_ui.record_spawn_progress(progress(
        "spawn-parent",
        vec![agent_task(0, "Parent", parent_thread_id)],
    ));
    assert!(root_ui.record_agent_state(parent_thread_id, 9, parent_ui.clone()));
    manager.restore_spine_ui_completed_state(
        parent_thread_id,
        "parent-turn".to_string(),
        parent_ui,
    );
    manager.restore_spine_ui_completed_state(root_thread_id, "root-turn".to_string(), root_ui);

    let mut final_child_ui = card(4, "1.2");
    final_child_ui.set_revision(2);
    let refresh = with_thread(&mut manager, parent_thread_id, |state| {
        state.record_completed_spine_ui_agent_terminal(
            "parent-turn",
            child_thread_id,
            7,
            Some(&final_child_ui),
        )
    });
    let completed_parent = card_of(&refresh.completed, "parent-turn")
        .expect("late child terminal should refresh the parent card");

    let updates = manager
        .propagate_spine_ui_completed_agent_state(parent_thread_id, completed_parent)
        .completed;

    assert_eq!(updates.len(), 1);
    assert_eq!(updates[0].thread_id, root_thread_id);
    assert_eq!(updates[0].turn_id, "root-turn");
    assert!(updates[0].state.revision() > 0);
    let shown_parent = &updates[0].state.agent_subtrees.items()[0].state;
    assert_eq!(
        shown_parent.agent_subtrees.items()[0]
            .state
            .latest_snapshot()
            .map(|snapshot| snapshot.snapshot_seq),
        Some(4)
    );
    assert_eq!(
        shown_parent.spawn_calls[0].tasks[0].progress.status,
        AgentStatus::Completed(None)
    );
    assert!(!shown_parent.has_agent_sync_timeouts());
    let structured = updates[0]
        .state
        .structured_content()
        .expect("updated root structured content");
    assert_eq!(
        structured.agent_subtrees[0].content.spawn_calls[0].tasks[0].status,
        RenderAgentStatus::Completed
    );
}

#[test]
fn spine_ui_stale_completed_refresh_does_not_replace_a_newer_generation() {
    let child_thread_id = ThreadId(1);
    let mut parent = RetainedThread::new();
    start(&mut parent, "turn-1");
    track(&mut parent, "turn-1", &function_call("spawn", Some("spine")));
    parent.record_spine_ui_snapshot(spine_snapshot(1, "1.1"), NOW);
    parent.record_spine_ui_spawn_progress(
        progress("spawn-child", vec![agent_task(0, "Child", child_thread_id)]),
        NOW,
    );
    assert!(parent.record_spine_ui_agent_state(child_thread_id, 2, card(9, "1.2")));

    let revision = parent.turn_summary.spine_ui.revision();
    let refresh = parent.refresh_spine_ui_agent_state(child_thread_id, 1, &card(4, "1.1"));

    assert!(refresh.active.is_none());
    assert!(refresh.completed.is_empty());
    assert!(refresh.forward.is_none());
    assert_eq!(parent.turn_summary.spine_ui.revision(), revision);
    assert_eq!(
        parent.turn_summary.spine_ui.agent_subtrees.items()[0]
            .state
            .latest_snapshot()
            .map(|snapshot| snapshot.snapshot_seq),
        Some(9)
    );
}

#[test]
fn spine_ui_cold_restore_invalidates_every_carried_completed_card() {
    let mut manager = RetainedManager::new();
    let parent_thread_id = ThreadId(1);
    let child_thread_id = ThreadId(2);
    let mut first_parent_ui = card(1, "1.1");
    first_parent_ui.record_spawn_progress(progress(
        "spawn-child",
        vec![agent_task(0, "Child", child_thread_id)],
    ));
    assert!(first_parent_ui.record_agent_state(child_thread_id, 7, card(3, "1.1")));
    let mut second_parent_ui = first_parent_ui.clone();
    second_parent_ui.record_snapshot(spine_snapshot(2, "1.1"));

    manager.restore_spine_ui_completed_state(
        parent_thread_id,
        "parent-turn-2".to_string(),
        second_parent_ui,
    );
    manager.restore_spine_ui_completed_state(
        parent_thread_id,
        "parent-turn-1".to_string(),
        first_parent_ui,
    );

    let updates = manager
        .clear_all_spine_ui_routes_for_thread(child_thread_id)
        .completed;

    assert_eq!(updates.len(), 2);
    assert!(updates.iter().all(|update| {
        update.thread_id == parent_thread_id
            && !update
                .state
                .agent_generations()
                .contains_key(&child_thread_id)
    }));
    let mut turns: Vec<&str> = updates.iter().map(|update| update.turn_id.as_str()).collect();
    turns.sort();
    assert_eq!(turns, vec!["parent-turn-1", "parent-turn-2"]);
}

#[test]
fn spine_ui_cold_restore_does_not_replace_an_active_card() {
    let mut manager = RetainedManager::new();
    let parent_thread_id = ThreadId(1);
    let child_thread_id = ThreadId(2);
    with_thread(&mut manager, parent_thread_id, |state| {
        start(state, "active-turn");
        track(state, "active-turn", &function_call("open", Some("spine")));
        state.record_spine_ui_snapshot(spine_snapshot(99, "1.1"), NOW);
    });

    let mut restored_ui = card(2, "1.1");
    restored_ui.record_spawn_progress(progress(
        "spawn-child",
        vec![agent_task(0, "Child", child_thread_id)],
    ));
    assert!(restored_ui.record_agent_state(child_thread_id, 7, card(3, "1.1")));
    manager.restore_spine_ui_completed_state(
        parent_thread_id,
        "historical-turn".to_string(),
        restored_ui,
    );

    let updates = manager
        .clear_all_spine_ui_routes_for_thread(child_thread_id)
        .completed;

    assert_eq!(updates.len(), 1);
    assert_eq!(updates[0].turn_id, "historical-turn");
    assert!(
        !updates[0]
            .state
            .agent_generations()
            .contains_key(&child_thread_id)
    );
    let active = with_thread(&mut manager, parent_thread_id, |state| {
        state.active_spine_ui_snapshot()
    })
    .expect("active Spine UI card");
    assert_eq!(active.0, "active-turn");
    assert_eq!(
        active
            .1
            .latest_snapshot()
            .map(|snapshot| snapshot.snapshot_seq),
        Some(99)
    );
}

#[test]
fn spine_ui_cold_restore_does_not_replace_newer_in_memory_lineage() {
    let mut manager = RetainedManager::new();
    let parent_thread_id = ThreadId(1);
    let child_thread_id = ThreadId(2);
    let mut current_parent_ui = card(2, "1.1");
    current_parent_ui.record_spawn_progress(progress(
        "spawn-current-child",
        vec![agent_task(0, "Current child", child_thread_id)],
    ));
    assert!(current_parent_ui.record_agent_state(child_thread_id, 2, card(3, "1.1")));
    manager.restore_spine_ui_completed_state(
        parent_thread_id,
        "current-turn".to_string(),
        current_parent_ui,
    );

    let mut stale_parent_ui = card(1, "1.1");
    stale_parent_ui.record_spawn_progress(progress(
        "spawn-stale-child",
        vec![agent_task(0, "Stale child", child_thread_id)],
    ));
    assert!(stale_parent_ui.record_agent_state(child_thread_id, 1, card(3, "1.1")));
    manager.restore_spine_ui_completed_state(
        parent_thread_id,
        "stale-turn".to_string(),
        stale_parent_ui,
    );

    let updates = manager
        .clear_all_spine_ui_routes_for_thread(child_thread_id)
        .completed;

    assert_eq!(updates.len(), 1);
    assert_eq!(updates[0].turn_id, "current-turn");
    assert!(carries_nothing(&mut manager, parent_thread_id));
}

#[test]
fn spine_ui_stale_generation_invalidation_keeps_replacement_agent() {
    let child_thread_id = ThreadId(1);
    let mut parent = RetainedThread::new();
    start(&mut parent, "turn-1");
    track(&mut parent, "turn-1", &function_call("spawn", Some("spine")));
    parent.record_spine_ui_snapshot(spine_snapshot(1, "1.1"), NOW);
    parent.record_spine_ui_spawn_progress(
        progress("spawn-1", vec![agent_task(0, "Agent", child_thread_id)]),
        NOW,
    );
    assert!(parent.record_spine_ui_agent_state(child_thread_id, 2, card(2, "1.1")));

    assert!(!parent.invalidate_spine_ui_agent_state(child_thread_id, 1));
    assert_eq!(
        parent
            .turn_summary
            .spine_ui
            .agent_generations()
            .get(&child_thread_id),
        Some(&2)
    );
}

#[test]
fn spine_ui_invalidated_generation_cannot_be_reinserted() {
    let child_thread_id = ThreadId(1);
    let mut parent = RetainedThread::new();
    start(&mut parent, "turn-1");
    track(&mut parent, "turn-1", &function_call("spawn", Some("spine")));
    parent.record_spine_ui_snapshot(spine_snapshot(1, "1.1"), NOW);
    parent.record_spine_ui_spawn_progress(
        progress("spawn-1", vec![agent_task(0, "Agent", child_thread_id)]),
        NOW,
    );
    let child = card(2, "1.1");

    assert!(parent.record_spine_ui_agent_state(child_thread_id, 1, child.clone()));
    assert!(parent.invalidate_spine_ui_agent_state(child_thread_id, 1));
    assert!(!parent.record_spine_ui_agent_state(child_thread_id, 1, child.clone()));
    assert!(parent.record_spine_ui_agent_state(child_thread_id, 2, child));
}

#[test]
fn spine_ui_rollback_invalidates_queued_route_generation() {
    let mut manager = RetainedManager::new();
    let parent_thread_id = ThreadId(1);
    let child_thread_id = ThreadId(2);
    manager.register_listener(parent_thread_id);
    let spawn = progress("spawn-1", vec![agent_task(0, "Agent", child_thread_id)]);
    with_thread(&mut manager, parent_thread_id, |state| {
        start(state, "turn-1");
        track(state, "turn-1", &function_call("spawn", Some("spine")));
        state
            .turn_summary
            .spine_ui
            .record_snapshot(spine_snapshot(1, "1.1"));
        state.turn_summary.spine_ui.record_spawn_progress(spawn.clone());
    });
    with_thread(&mut manager, child_thread_id, |state| {
        start(state, "child-turn");
        track(state, "child-turn", &function_call("open", Some("spine")));
        state
            .turn_summary
            .spine_ui
            .record_snapshot(spine_snapshot(3, "1.1"));
    });
    let mut sent = manager.register_spine_ui_spawn_progress(parent_thread_id, "turn-1", &spawn);
    let RetainedCommand::ForwardSpineUiAgentState {
        generation: first_generation,
        state: Some(child_ui),
        ..
    } = sent.remove(0).command
    else {
        panic!("expected initial forward");
    };
    with_thread(&mut manager, parent_thread_id, |state| {
        assert!(state.record_spine_ui_agent_state(child_thread_id, first_generation, child_ui));
    });

    let mut barrier = TerminalBarrier::new(&manager, parent_thread_id, "turn-1");
    assert!(!barrier.advance(&mut manager, false, 0));

    let rolled_back = manager.clear_all_spine_ui_routes_for_thread(child_thread_id);
    assert!(barrier.advance(&mut manager, false, 0));
    assert!(barrier.timed_out.is_empty());
    assert_eq!(barrier.states.len(), 1);
    assert_eq!(barrier.states[0].child, child_thread_id);
    assert_eq!(barrier.states[0].generation, first_generation);
    assert!(barrier.states[0].state.is_none());
    assert_eq!(rolled_back.sent.len(), 1);
    assert!(matches!(
        rolled_back.sent[0].command,
        RetainedCommand::EmitSpineUiInvalidation { .. }
    ));
    with_thread(&mut manager, parent_thread_id, |state| {
        assert_eq!(state.turn_summary.spine_ui.agent_generations().len(), 0);
    });
    assert!(!manager.spine_ui_route_is_current(
        child_thread_id,
        parent_thread_id,
        "turn-1",
        first_generation
    ));

    let mut sent = manager.register_spine_ui_spawn_progress(parent_thread_id, "turn-1", &spawn);
    let RetainedCommand::ForwardSpineUiAgentState {
        generation: second_generation,
        ..
    } = sent.remove(0).command
    else {
        panic!("expected replacement forward");
    };
    assert!(second_generation > first_generation);
}

#[test]
fn late_terminal_prunes_every_restored_card_without_remaining_timeouts() {
    let child_thread_id = ThreadId(1);
    let generation = 7;
    let mut state = completed_timed_out_parent_state(child_thread_id, generation);
    let timed_out_card = state.last_completed.clone();
    for turn_id in ["turn-1", "turn-2"] {
        state.restored.push(TurnCard {
            turn_id: turn_id.to_string(),
            state: timed_out_card.clone(),
        });
    }
    state.last_completed_turn_id = Some("turn-3".to_string());
    let child_state = card(3, "1.1");

    let refresh = state.record_completed_spine_ui_agent_terminal(
        "turn-1",
        child_thread_id,
        generation,
        Some(&child_state),
    );

    assert_eq!(refresh.completed.len(), 3);
    assert!(state.restored.is_empty());
}

#[test]
fn refreshed_cards_share_one_new_revision() {
    let child_thread_id = ThreadId(1);
    let mut state = completed_timed_out_parent_state(child_thread_id, 7);
    let before = state.next_revision;
    let mut newer = card(5, "1.1");
    newer.set_revision(9);
    let refresh = state.refresh_spine_ui_agent_state(child_thread_id, 7, &newer);
    assert_eq!(state.next_revision, before + 1);
    assert_eq!(refresh.completed.len(), 1);
    assert_eq!(refresh.completed[0].state.revision(), before + 1);
    assert_eq!(state.carry.revision(), before + 1);
    assert!(state.last_completed.has_agent_sync_timeouts());
    let unrelated = state.refresh_spine_ui_agent_state(child_thread_id, 8, &newer);
    assert!(unrelated.completed.is_empty());
    assert_eq!(state.next_revision, before + 1);
}

#[test]
fn completed_card_without_a_turn_takes_no_late_state() {
    let child_thread_id = ThreadId(1);
    let mut state = completed_timed_out_parent_state(child_thread_id, 7);
    let refresh =
        state.record_completed_spine_ui_agent_terminal("other-turn", child_thread_id, 7, None);
    assert!(refresh.completed.is_empty());
    assert!(state.last_completed.has_agent_sync_timeouts());
}

#[test]
fn removed_thread_leaves_no_trace() {
    let mut manager = RetainedManager::new();
    let parent = ThreadId(1);
    let child = ThreadId(2);
    manager.register_listener(parent);
    register_test_spine_ui_route(&mut manager, parent, "turn-1", child);
    assert!(manager.routes.contains_key(&child));
    assert!(manager.remove_thread_state(parent).is_some());
    assert!(!manager.routes.contains_key(&child));
    assert!(!manager.listeners.contains(&parent));
    assert!(manager.remove_thread_state(parent).is_none());
    register_test_spine_ui_route(&mut manager, parent, "turn-1", child);
    manager.register_listener(parent);
    manager.clear_all_listeners();
    assert_eq!(manager.routes.len(), 0);
    assert!(!manager.listeners.contains(&parent));
    with_thread(&mut manager, parent, |state| {
        assert!(!state.has_active_turn("turn-1"));
        assert!(state.turn_summary.active_spine_ui("turn-1").is_some());
    });
}
