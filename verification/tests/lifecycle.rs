use spine_ui::attach::GoalNotification;
use spine_ui::barrier::TerminalBarrier;
use spine_ui::card::McpToolCallStatus;
use spine_ui::commands::{CommandAction, ThreadListenerCommand};
use spine_ui::events::{Event, EventMsg, ResponseItem};
use spine_ui::lifecycle::emit_spine_ui_invalidation;
use spine_ui::lineage::{
    RetainedCommand, RetainedManager, RouteTerminal, SpineUiCompletedUpdate,
};
use spine_ui::protocol::{
    AgentStatus, SpineSpawnProgressEvent, SpineSpawnTaskProgress, SpineTreeNodeKind,
    SpineTreeNodeSnapshot, SpineTreeNodeStatus, SpineTreeUpdateEvent, ThreadId,
};
use spine_ui::recovery::{
    completed_update_item, completed_update_notification, completed_update_storage, AncestorWalk,
    CardStorage, WalkStep,
};
use spine_ui::render::RenderAgentStatus;
use spine_ui::retained::{RetainedThread, TurnCard};
use spine_ui::state::SpineUiState;
use spine_ui::steps::EventStep;
use spine_ui::turns::{LatestTurn, TurnReport, TurnStatus};

const NOW: i64 = 1_700_000_000_000;

fn snapshot(sequence: u64) -> SpineTreeUpdateEvent {
    let node = |node_id: &str, parent_id: Option<&str>, start: u64, end: Option<u64>| {
        SpineTreeNodeSnapshot {
            node_id: node_id.to_string(),
            parent_id: parent_id.map(str::to_string),
            kind: if parent_id.is_none() {
                SpineTreeNodeKind::RootEpoch
            } else {
                SpineTreeNodeKind::Task
            },
            status: if parent_id.is_none() {
                SpineTreeNodeStatus::Opened
            } else {
                SpineTreeNodeStatus::Closed
            },
            summary: parent_id.map(|_| "Work".to_string()),
            memory_summary: None,
            spawn_outcome: None,
            start,
            end,
            context_pressure: None,
        }
    };
    SpineTreeUpdateEvent {
        snapshot_seq: sequence,
        active_node_id: "1.1".to_string(),
        settled_spawn_call_ids: Vec::new(),
        nodes: vec![node("1", None, 0, None), node("1.1", Some("1"), 1, Some(2))],
    }
}

fn spine_ui_state(sequence: u64) -> SpineUiState {
    let mut state = SpineUiState::default();
    state.record_snapshot(snapshot(sequence));
    state
}

fn progress(
    call_id: String,
    child_thread_id: ThreadId,
    status: AgentStatus,
) -> SpineSpawnProgressEvent {
    SpineSpawnProgressEvent {
        call_id,
        tasks: vec![SpineSpawnTaskProgress {
            ordinal: 0,
            summary: "Child".to_string(),
            thread_id: child_thread_id,
            agent_path: Some("/root/agent_0".to_string()),
            status,
        }],
    }
}

fn spine_ui_state_with_agent(
    sequence: u64,
    child_thread_id: ThreadId,
    generation: u64,
    child_state: SpineUiState,
) -> SpineUiState {
    let mut state = spine_ui_state(sequence);
    state.record_spawn_progress(progress(
        format!("spawn-{}", child_thread_id.0),
        child_thread_id,
        AgentStatus::Completed(None),
    ));
    assert!(state.record_agent_state(child_thread_id, generation, child_state));
    state
}

fn spine_function_call(name: &str) -> EventMsg {
    EventMsg::RawResponseItem(ResponseItem::FunctionCall {
        name: name.to_string(),
        namespace: Some("spine".to_string()),
    })
}

fn event(turn_id: &str, msg: EventMsg) -> Event {
    Event {
        id: turn_id.to_string(),
        msg,
    }
}

fn report(turn_id: &str, status: TurnStatus) -> TurnReport {
    TurnReport {
        latest: Some(LatestTurn {
            id: turn_id.to_string(),
            status,
        }),
        has_active_turn: status == TurnStatus::InProgress,
    }
}

fn running(turn_id: &str) -> TurnReport {
    report(turn_id, TurnStatus::InProgress)
}

fn completed(turn_id: &str) -> TurnReport {
    report(turn_id, TurnStatus::Completed)
}

/// Works on the state of a thread that the manager knows.
fn with_thread<R>(
    manager: &mut RetainedManager,
    thread_id: ThreadId,
    work: impl FnOnce(&mut RetainedThread) -> R,
) -> R {
    manager.ensure_thread(thread_id);
    let mut entry = manager.threads.remove(&thread_id).expect("known thread");
    let result = work(&mut entry.thread);
    manager.threads.insert(thread_id, entry);
    result
}

/// Starts a turn with a card.
fn open_turn(manager: &mut RetainedManager, thread_id: ThreadId, turn_id: &str, tool: &str) {
    let started = event(turn_id, EventMsg::TurnStarted { started_at: None });
    manager.event_begun(thread_id, 0, &started);
    let (passes, sent) = manager.event_followed(thread_id, &started, running(turn_id), true);
    assert!(passes);
    assert!(sent.is_empty());
    let call = event(turn_id, spine_function_call(tool));
    manager.event_followed(thread_id, &call, running(turn_id), true);
}

/// A parent whose child did not end within its turn, and the generation of the child's route.
fn timed_out_child(
    manager: &mut RetainedManager,
    parent_thread_id: ThreadId,
    child_thread_id: ThreadId,
) -> u64 {
    manager.register_listener(parent_thread_id);
    let spawn = progress(
        "spawn-child".to_string(),
        child_thread_id,
        AgentStatus::Running,
    );
    open_turn(manager, parent_thread_id, "turn-1", "spawn");
    with_thread(manager, parent_thread_id, |state| {
        state.record_spine_ui_snapshot(snapshot(1), NOW);
        state.record_spine_ui_spawn_progress(spawn.clone(), NOW);
    });
    open_turn(manager, child_thread_id, "child-turn", "open");
    with_thread(manager, child_thread_id, |state| {
        state.record_spine_ui_snapshot(snapshot(2), NOW);
    });
    let spawned = event("turn-1", EventMsg::SpineSpawnProgress(spawn));
    let (_, sent) = manager.event_followed(parent_thread_id, &spawned, running("turn-1"), true);
    assert_eq!(sent.len(), 1);

    let mut barrier = TerminalBarrier::new(manager, parent_thread_id, "turn-1");
    assert!(barrier.advance(manager, true, 0));
    assert_eq!(barrier.states.len(), 1);
    assert_eq!(barrier.states[0].child, child_thread_id);
    let generation = barrier.states[0].generation;
    assert_eq!(barrier.timed_out, vec![(child_thread_id, generation)]);
    manager.children_settled(
        parent_thread_id,
        "turn-1",
        &barrier.states,
        &barrier.timed_out,
    );
    let ended = event("turn-1", EventMsg::TurnComplete);
    manager.event_followed(parent_thread_id, &ended, completed("turn-1"), true);
    with_thread(manager, parent_thread_id, |state| {
        let summary = state.take_turn_summary();
        assert!(summary.spine_ui.has_agent_sync_timeouts());
    });
    manager.event_done(parent_thread_id, 0, &ended, 0);
    generation
}

#[test]
fn late_terminal_listener_refreshes_and_persists_the_timed_out_card() {
    let mut manager = RetainedManager::new();
    let parent_thread_id = ThreadId(1);
    let child_thread_id = ThreadId(2);
    let generation = timed_out_child(&mut manager, parent_thread_id, child_thread_id);
    let next = event("turn-2", EventMsg::TurnStarted { started_at: None });
    manager.event_followed(parent_thread_id, &next, running("turn-2"), true);

    let child_done = event("child-turn", EventMsg::TurnComplete);
    manager.event_followed(child_thread_id, &child_done, completed("child-turn"), true);
    with_thread(&mut manager, child_thread_id, |state| {
        state.take_turn_summary();
    });
    let sent = manager.event_done(child_thread_id, 0, &child_done, 1);
    let late = sent
        .into_iter()
        .find(|sent| {
            matches!(
                sent.command,
                RetainedCommand::ForwardSpineUiAgentState { terminal: true, .. }
            )
        })
        .expect("late terminal command");
    assert_eq!(late.to, parent_thread_id);
    let RetainedCommand::ForwardSpineUiAgentState {
        child_thread_id: forwarded_child_id,
        parent_turn_id,
        generation: forwarded_generation,
        state,
        terminal,
    } = late.command
    else {
        panic!("expected late terminal forward");
    };
    assert_eq!(forwarded_child_id, child_thread_id);
    assert_eq!(forwarded_generation, generation);

    let action = manager.handle_thread_listener_command(
        parent_thread_id,
        "parent",
        ThreadListenerCommand::Card(RetainedCommand::ForwardSpineUiAgentState {
            child_thread_id: forwarded_child_id,
            parent_turn_id,
            generation: forwarded_generation,
            state,
            terminal,
        }),
    );
    let CommandAction::Cards(output) = action else {
        panic!("expected cards");
    };
    assert_eq!(output.completed.len(), 1);
    let update = &output.completed[0];
    assert_eq!(update.thread_id, parent_thread_id);
    assert_eq!(update.turn_id, "turn-1");
    assert!(!update.state.has_agent_sync_timeouts());
    let item = completed_update_item(update).expect("completed card item");
    assert_eq!(item.id, "spine-ui-turn-1");
    assert_eq!(item.status, McpToolCallStatus::Completed);
    let notification =
        completed_update_notification(update, "parent", NOW).expect("completed card notification");
    assert_eq!(notification.thread_id, "parent");
    assert_eq!(notification.turn_id, "turn-1");
    assert_eq!(notification.item, item);
    assert_eq!(notification.completed_at_ms, NOW);
    assert_eq!(
        item.result.structured_content.spawn_calls[0].tasks[0].status,
        RenderAgentStatus::Running
    );
    assert!(!manager.routes.contains_key(&child_thread_id));
}

#[test]
fn completed_update_only_direct_appends_after_manager_removal() {
    assert_eq!(
        completed_update_storage(true, None),
        CardStorage::ThroughThread
    );
    assert_eq!(
        completed_update_storage(true, Some(true)),
        CardStorage::ThroughThread
    );
    assert_eq!(
        completed_update_storage(false, Some(true)),
        CardStorage::ToStoredHistory
    );
    assert_eq!(
        completed_update_storage(false, Some(false)),
        CardStorage::NoLocalHistory
    );
    assert_eq!(
        completed_update_storage(false, None),
        CardStorage::Unreadable
    );
    let update = SpineUiCompletedUpdate {
        thread_id: ThreadId(1),
        turn_id: "turn-1".to_string(),
        state: spine_ui_state(8),
    };
    let item = completed_update_item(&update).expect("completed card item");
    assert_eq!(item.id, "spine-ui-turn-1");
    assert_eq!(update.state.latest_snapshot().unwrap().snapshot_seq, 8);
    let empty = SpineUiCompletedUpdate {
        thread_id: ThreadId(1),
        turn_id: "turn-1".to_string(),
        state: SpineUiState::default(),
    };
    assert!(completed_update_item(&empty).is_none());
    assert!(completed_update_notification(&empty, "thread", 5).is_none());
    let mut dated = SpineUiCompletedUpdate {
        thread_id: ThreadId(1),
        turn_id: "turn-1".to_string(),
        state: spine_ui_state(8),
    };
    let at = |update: &SpineUiCompletedUpdate| {
        completed_update_notification(update, "thread", 5)
            .expect("completed card notification")
            .completed_at_ms
    };
    assert_eq!(at(&dated), 5);
    dated.state.completed_at_ms = Some(3);
    assert_eq!(at(&dated), 3);
}

#[test]
fn cold_rollback_updates_unloaded_parent_and_ancestor_rollouts() {
    let root_thread_id = ThreadId(1);
    let parent_thread_id = ThreadId(2);
    let child_thread_id = ThreadId(3);
    let mut child_ui = spine_ui_state(3);
    child_ui.set_revision(3);
    let parent_ui = spine_ui_state_with_agent(2, child_thread_id, 7, child_ui);
    let root_ui = spine_ui_state_with_agent(1, parent_thread_id, 9, parent_ui.clone());

    let mut manager = RetainedManager::new();
    let mut walk = AncestorWalk::new(child_thread_id, Some(parent_thread_id));
    assert_eq!(walk.next_step(), WalkStep::Read(parent_thread_id));
    walk.climb(
        &mut manager,
        vec![TurnCard {
            turn_id: "parent-turn".to_string(),
            state: parent_ui,
        }],
        Some(root_thread_id),
    );
    assert_eq!(walk.next_step(), WalkStep::Read(root_thread_id));
    walk.climb(
        &mut manager,
        vec![TurnCard {
            turn_id: "root-turn".to_string(),
            state: root_ui,
        }],
        None,
    );
    assert_eq!(walk.next_step(), WalkStep::Done);

    let updates = manager.rolled_back(child_thread_id).completed;
    assert_eq!(updates.len(), 2);
    for (thread_id, turn_id, agent) in [
        (parent_thread_id, "parent-turn", child_thread_id),
        (root_thread_id, "root-turn", parent_thread_id),
    ] {
        let update = updates
            .iter()
            .find(|update| update.thread_id == thread_id)
            .expect("changed card");
        assert_eq!(update.turn_id, turn_id);
        assert!(!update.state.agent_generations().contains_key(&agent));
        let item = completed_update_item(update).expect("completed card item");
        assert_eq!(item.id, format!("spine-ui-{turn_id}"));
    }
}

#[test]
fn a_rollback_leaves_nothing_behind() {
    let parent = ThreadId(2);
    let child = ThreadId(3);
    let mut child_ui = spine_ui_state(3);
    child_ui.set_revision(3);
    let parent_ui = spine_ui_state_with_agent(2, child, 7, child_ui.clone());
    let mut manager = RetainedManager::new();
    manager.restore_spine_ui_completed_state(parent, "parent-turn".to_string(), parent_ui);
    assert!(manager.lineages.contains_key(&child));

    assert_eq!(manager.rolled_back(child).completed.len(), 1);
    assert!(!manager.lineages.contains_key(&child));
    assert!(!manager.routes.contains_key(&child));
    let shows_child = with_thread(&mut manager, parent, |state| {
        state
            .last_completed
            .agent_generations()
            .contains_key(&child)
    });
    assert!(!shows_child);

    assert!(manager.rolled_back(child).completed.is_empty());
    child_ui.set_revision(9);
    assert!(manager
        .propagate_spine_ui_completed_agent_state(child, &child_ui)
        .completed
        .is_empty());
}

#[test]
fn a_report_has_nothing_left_to_say() {
    let parent = ThreadId(2);
    let child = ThreadId(3);
    let mut child_ui = spine_ui_state(3);
    child_ui.set_revision(3);
    let parent_ui = spine_ui_state_with_agent(2, child, 7, child_ui.clone());
    let mut manager = RetainedManager::new();
    manager.restore_spine_ui_completed_state(parent, "parent-turn".to_string(), parent_ui);

    assert!(manager
        .propagate_spine_ui_completed_agent_state(child, &child_ui)
        .completed
        .is_empty());
    child_ui.set_revision(4);
    let updates = manager
        .propagate_spine_ui_completed_agent_state(child, &child_ui)
        .completed;
    assert_eq!(updates.len(), 1);
    assert_eq!(updates[0].thread_id, parent);
    assert_eq!(updates[0].state.agent_subtrees.items()[0].state.revision(), 4);
    assert!(manager
        .propagate_spine_ui_completed_agent_state(child, &child_ui)
        .completed
        .is_empty());
}

#[test]
fn an_ancestor_walk_stops_at_a_cycle() {
    let mut manager = RetainedManager::new();
    let mut walk = AncestorWalk::new(ThreadId(1), Some(ThreadId(2)));
    assert_eq!(walk.next_step(), WalkStep::Read(ThreadId(2)));
    walk.climb(&mut manager, Vec::new(), Some(ThreadId(3)));
    assert_eq!(walk.child, ThreadId(2));
    assert_eq!(walk.next_step(), WalkStep::Read(ThreadId(3)));
    walk.climb(&mut manager, Vec::new(), Some(ThreadId(2)));
    assert_eq!(walk.next_step(), WalkStep::Cyclic(ThreadId(2)));
}

#[test]
fn a_child_state_reaches_the_running_card() {
    let mut manager = RetainedManager::new();
    let parent = ThreadId(1);
    let child = ThreadId(2);
    manager.register_listener(parent);
    let spawn = progress("spawn-child".to_string(), child, AgentStatus::Running);
    open_turn(&mut manager, parent, "turn-1", "spawn");
    with_thread(&mut manager, parent, |state| {
        state.record_spine_ui_snapshot(snapshot(1), NOW);
        state.record_spine_ui_spawn_progress(spawn.clone(), NOW);
    });
    open_turn(&mut manager, child, "child-turn", "open");
    with_thread(&mut manager, child, |state| {
        state.record_spine_ui_snapshot(snapshot(2), NOW);
    });
    let spawned = event("turn-1", EventMsg::SpineSpawnProgress(spawn));
    let (_, mut sent) = manager.event_followed(parent, &spawned, running("turn-1"), true);
    let RetainedCommand::ForwardSpineUiAgentState {
        parent_turn_id,
        generation,
        state,
        terminal,
        ..
    } = sent.remove(0).command
    else {
        panic!("expected a forward");
    };
    assert!(!terminal);
    let stale = manager.forward_agent_state(
        parent,
        "parent",
        child,
        &parent_turn_id,
        generation + 1,
        state.clone(),
        false,
    );
    assert!(stale.started.is_none());
    let output = manager.forward_agent_state(
        parent,
        "parent",
        child,
        &parent_turn_id,
        generation,
        state.clone(),
        false,
    );
    let started = output.started.expect("refreshed card");
    assert_eq!(started.turn_id, "turn-1");
    assert_eq!(
        started.item.result.structured_content.agent_subtrees[0].thread_id,
        child
    );
    let repeated = manager.forward_agent_state(
        parent,
        "parent",
        child,
        &parent_turn_id,
        generation,
        state,
        false,
    );
    assert!(repeated.started.is_none());
    assert!(repeated.sent.is_empty());
}

#[test]
fn spawn_progress_makes_no_route_while_the_card_is_off() {
    let mut manager = RetainedManager::new();
    let parent = ThreadId(1);
    let child = ThreadId(2);
    open_turn(&mut manager, parent, "turn-1", "spawn");
    let spawned = event(
        "turn-1",
        EventMsg::SpineSpawnProgress(progress(
            "spawn-child".to_string(),
            child,
            AgentStatus::Running,
        )),
    );
    let (_, sent) = manager.event_followed(parent, &spawned, running("turn-1"), false);
    assert!(sent.is_empty());
    assert!(!manager.routes.contains_key(&child));
}

#[test]
fn raw_items_pass_only_where_they_are_asked_for() {
    let mut manager = RetainedManager::new();
    let thread_id = ThreadId(1);
    let call = event("turn-1", spine_function_call("open"));
    let (passes, _) = manager.event_followed(thread_id, &call, running("turn-1"), true);
    assert!(!passes);
    with_thread(&mut manager, thread_id, |state| {
        state.set_experimental_raw_events(true);
    });
    let (passes, _) = manager.event_followed(thread_id, &call, running("turn-1"), true);
    assert!(passes);
}

#[test]
fn a_listener_is_removed_by_its_own_generation() {
    let mut manager = RetainedManager::new();
    let thread_id = ThreadId(1);
    let first = manager
        .install_listener(thread_id, false, "{}".to_string())
        .expect("first listener");
    assert_eq!(first, 1);
    assert!(
        manager
            .install_listener(thread_id, true, "other".to_string())
            .is_none()
    );
    let second = manager
        .install_listener(thread_id, false, "{}".to_string())
        .expect("second listener");
    assert_eq!(second, 2);
    manager.listener_done(thread_id, first);
    assert!(manager.listeners.contains(&thread_id));
    manager.listener_done(thread_id, second);
    assert!(!manager.listeners.contains(&thread_id));
    with_thread(&mut manager, thread_id, |state| {
        assert_eq!(state.listener_generation, 2);
        assert!(!state.note_thread_settings("{}".to_string()));
    });
}

fn steps_of(event: &Event, enabled: bool, passes: bool) -> Vec<EventStep> {
    let mut steps = vec![EventStep::Begin];
    while steps.last() != Some(&EventStep::Done) {
        let step = *steps.last().expect("a step");
        steps.push(step.after(event, enabled, passes));
    }
    steps
}

#[test]
fn an_event_is_handled_in_order() {
    let ended = event("turn-1", EventMsg::TurnComplete);
    assert_eq!(
        steps_of(&ended, true, true),
        vec![
            EventStep::Begin,
            EventStep::AwaitChildren,
            EventStep::Follow,
            EventStep::Translate,
            EventStep::Finish,
            EventStep::Done,
        ]
    );
    assert_eq!(
        steps_of(&ended, false, true),
        vec![
            EventStep::Begin,
            EventStep::Follow,
            EventStep::Translate,
            EventStep::Finish,
            EventStep::Done,
        ]
    );
    let rolled_back = event("turn-1", EventMsg::ThreadRolledBack);
    assert_eq!(
        steps_of(&rolled_back, true, true),
        vec![
            EventStep::Begin,
            EventStep::Follow,
            EventStep::RollBack,
            EventStep::Translate,
            EventStep::Finish,
            EventStep::Done,
        ]
    );
    let raw = event("turn-1", spine_function_call("open"));
    assert_eq!(
        steps_of(&raw, true, false),
        vec![EventStep::Begin, EventStep::Follow, EventStep::Done]
    );
}

#[test]
fn a_command_says_what_is_left_to_do() {
    let mut manager = RetainedManager::new();
    let thread_id = ThreadId(1);
    let mut handle = |command: ThreadListenerCommand| {
        manager.handle_thread_listener_command(thread_id, "thread", command)
    };
    assert!(matches!(
        handle(ThreadListenerCommand::SendThreadResumeResponse),
        CommandAction::AnswerResume
    ));
    assert!(matches!(
        handle(ThreadListenerCommand::EmitThreadGoalSnapshot),
        CommandAction::ReadGoal
    ));
    let CommandAction::TellGoal(updated) = handle(ThreadListenerCommand::EmitThreadGoalUpdated {
        turn_id: Some("turn-1".to_string()),
        goal: "{}".to_string(),
    }) else {
        panic!("expected a goal");
    };
    assert_eq!(
        updated,
        GoalNotification::Updated {
            thread_id: "thread".to_string(),
            turn_id: Some("turn-1".to_string()),
            goal: "{}".to_string(),
        }
    );
    let CommandAction::TellGoal(cleared) = handle(ThreadListenerCommand::EmitThreadGoalCleared)
    else {
        panic!("expected a cleared goal");
    };
    assert_eq!(
        cleared,
        GoalNotification::Cleared {
            cleared_thread_id: "thread".to_string(),
        }
    );
    let CommandAction::TellResolved {
        thread_id: told,
        request_id,
    } = handle(ThreadListenerCommand::ResolveServerRequest {
        request_id: "7".to_string(),
    })
    else {
        panic!("expected a resolved request");
    };
    assert_eq!((told.as_str(), request_id.as_str()), ("thread", "7"));
    let CommandAction::Cards(output) = handle(ThreadListenerCommand::Card(
        RetainedCommand::EmitSpineUiInvalidation {
            turn_id: "turn-1".to_string(),
            card: spine_ui_state(3),
        },
    )) else {
        panic!("expected cards");
    };
    assert_eq!(
        output.started.expect("announced card").item.id,
        "spine-ui-turn-1"
    );
    let CommandAction::Cards(output) = handle(ThreadListenerCommand::Card(
        RetainedCommand::ForwardSpineUiAgentState {
            child_thread_id: ThreadId(2),
            parent_turn_id: "turn-1".to_string(),
            generation: 1,
            state: Some(spine_ui_state(3)),
            terminal: true,
        },
    )) else {
        panic!("expected cards");
    };
    assert!(output.started.is_none() && output.completed.is_empty() && output.sent.is_empty());
}

#[test]
fn a_settled_child_without_a_card_is_taken_off() {
    let mut manager = RetainedManager::new();
    let parent = ThreadId(1);
    let child = ThreadId(2);
    open_turn(&mut manager, parent, "turn-1", "spawn");
    with_thread(&mut manager, parent, |state| {
        state.record_spine_ui_snapshot(snapshot(1), NOW);
        state.record_spine_ui_spawn_progress(
            progress("spawn-child".to_string(), child, AgentStatus::Running),
            NOW,
        );
        assert!(state.record_spine_ui_agent_state(child, 1, spine_ui_state(2)));
    });
    let ends = vec![spine_ui::barrier::ChildEnd {
        child,
        generation: 1,
        state: None,
    }];
    manager.children_settled(parent, "another-turn", &ends, &Vec::new());
    with_thread(&mut manager, parent, |state| {
        assert_eq!(state.turn_summary.spine_ui.agent_subtrees.items().len(), 1);
    });
    manager.children_settled(parent, "turn-1", &ends, &Vec::new());
    with_thread(&mut manager, parent, |state| {
        assert!(state.turn_summary.spine_ui.agent_subtrees.items().is_empty());
    });
}

#[test]
fn an_invalidated_card_is_announced_again() {
    let started = emit_spine_ui_invalidation("thread", "turn-1", &spine_ui_state(4))
        .expect("refreshed card");
    assert_eq!(started.item.id, "spine-ui-turn-1");
    assert_eq!(started.item.status, McpToolCallStatus::InProgress);
    assert!(emit_spine_ui_invalidation("thread", "turn-1", &SpineUiState::default()).is_none());
}

#[test]
fn a_timeout_spares_a_settled_route() {
    let mut manager = RetainedManager::new();
    let parent = ThreadId(1);
    let child = ThreadId(2);
    let generation = timed_out_child(&mut manager, parent, child);
    assert!(matches!(
        manager.routes.get(&child).expect("late route").terminal,
        RouteTerminal::TimedOut
    ));
    let done = event("child-turn", EventMsg::TurnComplete);
    manager.event_followed(child, &done, completed("child-turn"), true);
    with_thread(&mut manager, child, |state| {
        state.take_turn_summary();
    });
    manager.event_done(child, 0, &done, 1);
    assert!(matches!(
        manager.routes.get(&child).expect("late route").terminal,
        RouteTerminal::Settled(_)
    ));
    manager.mark_spine_ui_route_timed_out(child, parent, "turn-1", generation, 2);
    assert!(matches!(
        manager.routes.get(&child).expect("late route").terminal,
        RouteTerminal::Settled(_)
    ));
}
