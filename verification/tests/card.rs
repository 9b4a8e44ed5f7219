use spine_ui::card::{
    snapshot_core_item, snapshot_terminal_notification, snapshot_upsert_notification,
    McpToolCallStatus, SpineUiTerminalOutcome,
};
use spine_ui::events::{
    is_tree_affecting_item, CodeModeSpineCarrier, ResponseItem, ToolOutputBody,
    CODE_MODE_SPINE_CARRIER_MARKER,
};
use spine_ui::keyed::KeySet;
use spine_ui::mcp::{
    read_resource, server_status, tool_call_response, RESOURCE_URI, SERVER_NAME, TOOL_NAME,
};
use spine_ui::protocol::{
    AgentStatus, SpineSpawnOutcome, SpineSpawnProgressEvent, SpineSpawnTaskProgress,
    SpineTreeNodeKind, SpineTreeNodeSnapshot, SpineTreeNodeStatus, SpineTreeUpdateEvent, ThreadId,
    TurnAbortReason,
};
use spine_ui::render::RenderAgentStatus;
use spine_ui::resource::RESOURCE_HTML;
use spine_ui::state::SpineUiState;

fn snapshot(sequence: u64, active_node_id: &str) -> SpineTreeUpdateEvent {
    SpineTreeUpdateEvent {
        snapshot_seq: sequence,
        active_node_id: active_node_id.to_string(),
        settled_spawn_call_ids: Vec::new(),
        nodes: vec![
            node(
                "1",
                None,
                SpineTreeNodeKind::RootEpoch,
                SpineTreeNodeStatus::Opened,
                None,
            ),
            node(
                "1.1",
                Some("1"),
                SpineTreeNodeKind::Task,
                if active_node_id == "1.1" {
                    SpineTreeNodeStatus::Live
                } else {
                    SpineTreeNodeStatus::Closed
                },
                Some("Render the Spine tree"),
            ),
            node(
                "1.2",
                Some("1"),
                SpineTreeNodeKind::Task,
                if active_node_id == "1.2" {
                    SpineTreeNodeStatus::Live
                } else {
                    SpineTreeNodeStatus::Opened
                },
                Some("Verify the result"),
            ),
        ],
    }
}

fn node(
    node_id: &str,
    parent_id: Option<&str>,
    kind: SpineTreeNodeKind,
    status: SpineTreeNodeStatus,
    summary: Option<&str>,
) -> SpineTreeNodeSnapshot {
    SpineTreeNodeSnapshot {
        node_id: node_id.to_string(),
        parent_id: parent_id.map(str::to_string),
        kind,
        status,
        summary: summary.map(str::to_string),
        memory_summary: Some("not sent to the renderer".to_string()),
        spawn_outcome: None,
        start: 0,
        end: Some(10),
        context_pressure: None,
    }
}

/// A thread of its own for every call name.
fn thread_of(call_id: &str) -> ThreadId {
    let mut n: u128 = 1000;
    for byte in call_id.bytes() {
        n = n * 31 + u128::from(byte);
    }
    ThreadId(n)
}

fn spawn_progress(call_id: &str, status: AgentStatus) -> SpineSpawnProgressEvent {
    spawn_progress_for_thread(call_id, thread_of(call_id), status)
}

fn spawn_progress_for_thread(
    call_id: &str,
    thread_id: ThreadId,
    status: AgentStatus,
) -> SpineSpawnProgressEvent {
    SpineSpawnProgressEvent {
        call_id: call_id.to_string(),
        tasks: vec![SpineSpawnTaskProgress {
            ordinal: 0,
            summary: format!("Run {call_id}"),
            thread_id,
            agent_path: Some(format!("/root/{call_id}")),
            status,
        }],
    }
}

fn function_call(name: &str, namespace: Option<&str>) -> ResponseItem {
    ResponseItem::FunctionCall {
        name: name.to_string(),
        namespace: namespace.map(str::to_string),
    }
}

/// The carrier that a tool output text holds.
fn parse_carrier(text: &str) -> Option<CodeModeSpineCarrier> {
    let value: serde_json::Value = serde_json::from_str(text).ok()?;
    let schema = value.get("schema")?.as_str()?.to_string();
    let mut names = Vec::new();
    for call in value.get("nested_spine_calls")?.as_array()? {
        names.push(call.get("name")?.as_str()?.to_string());
    }
    Some(CodeModeSpineCarrier {
        schema,
        nested_spine_calls: names,
    })
}

fn tool_output(output_name: Option<&str>, text: &str) -> ResponseItem {
    ResponseItem::CustomToolCallOutput {
        output_name: output_name.map(str::to_string),
        body: ToolOutputBody::Text {
            text: text.to_string(),
            carrier: parse_carrier(text),
        },
    }
}

fn code_mode_carrier(output_name: Option<&str>, schema: &str, nested_tool: &str) -> ResponseItem {
    let text = format!(
        "{{\"schema\":\"{schema}\",\"nested_spine_calls\":[{{\"name\":\"{nested_tool}\"}}]}}"
    );
    tool_output(output_name, &text)
}

#[test]
fn only_tree_affecting_spine_calls_activate_the_ui() {
    for tool in ["open", "next", "close", "spawn"] {
        assert!(is_tree_affecting_item(&function_call(tool, Some("spine"))));
        assert!(is_tree_affecting_item(&function_call(
            &format!("spine.{tool}"),
            None
        )));
    }
    assert!(!is_tree_affecting_item(&function_call("trim", Some("spine"))));
    assert!(!is_tree_affecting_item(&function_call("open", Some("other"))));
    assert!(!is_tree_affecting_item(&function_call("shell", None)));
}

#[test]
fn code_mode_spine_carriers_activate_only_for_tree_controls() {
    for tool in ["open", "next", "close", "spawn"] {
        assert!(is_tree_affecting_item(&code_mode_carrier(
            Some(CODE_MODE_SPINE_CARRIER_MARKER),
            CODE_MODE_SPINE_CARRIER_MARKER,
            tool,
        )));
    }
    assert!(!is_tree_affecting_item(&code_mode_carrier(
        Some(CODE_MODE_SPINE_CARRIER_MARKER),
        CODE_MODE_SPINE_CARRIER_MARKER,
        "trim",
    )));
    assert!(!is_tree_affecting_item(&code_mode_carrier(
        None,
        CODE_MODE_SPINE_CARRIER_MARKER,
        "close",
    )));
    assert!(!is_tree_affecting_item(&code_mode_carrier(
        Some(CODE_MODE_SPINE_CARRIER_MARKER),
        "spine.code_mode.output.v0",
        "close",
    )));

    let malformed = tool_output(Some(CODE_MODE_SPINE_CARRIER_MARKER), "not json");
    assert!(!is_tree_affecting_item(&malformed));

    let non_text = ResponseItem::CustomToolCallOutput {
        output_name: Some(CODE_MODE_SPINE_CARRIER_MARKER.to_string()),
        body: ToolOutputBody::ContentItems,
    };
    assert!(!is_tree_affecting_item(&non_text));
    assert!(!is_tree_affecting_item(&ResponseItem::Other));
}

#[test]
fn resource_is_scoped_and_self_contained() {
    let response = read_resource(SERVER_NAME, RESOURCE_URI).expect("Spine UI resource");
    assert_eq!(response.len(), 1);
    assert!(read_resource("other", RESOURCE_URI).is_none());
    assert!(read_resource(SERVER_NAME, "ui://spine/other.html").is_none());
    assert!(RESOURCE_HTML.contains("default-src 'none'"));
    assert!(RESOURCE_HTML.contains("ResizeObserver"));
    assert!(RESOURCE_HTML.contains("function validTreePayload(value)"));
    assert!(!RESOURCE_HTML.contains("<script src="));
    assert!(!RESOURCE_HTML.contains("<link rel=\"stylesheet\""));
    assert!(!RESOURCE_HTML.contains("https://"));

    let status = server_status(true);
    let tool = status
        .tools
        .iter()
        .find(|tool| tool.name == "spine_tree")
        .expect("Spine Tree tool");
    assert_eq!(tool.title, "Spine Tree");
    assert_eq!(status.name, SERVER_NAME);
    assert_eq!(status.resources[0].uri, RESOURCE_URI);
    assert_eq!(tool.resource_uri, RESOURCE_URI);
}

#[test]
fn resource_keeps_settled_agents_at_their_result_node_order() {
    assert!(RESOURCE_HTML.contains("const agentsByResultNodeId = new Map()"));
    assert!(RESOURCE_HTML.contains("if (linkedAgent) return renderAgent(linkedAgent"));
    assert!(RESOURCE_HTML.contains(
        "if (task.resultNodeId && context.agentsByResultNodeId.has(task.resultNodeId)) return"
    ));
    assert!(!RESOURCE_HTML.contains("suppressedNodeIds"));
}

#[test]
fn resource_applies_terminal_outcome_to_the_top_level_tree() {
    assert!(RESOURCE_HTML.contains(
        "const terminalState = [\"completed\", \"aborted\", \"failed\"].includes(payload.terminalOutcome)"
    ));
    assert!(RESOURCE_HTML.contains("const context = buildContext(payload, terminalState)"));
    assert!(!RESOURCE_HTML.contains("const context = buildContext(payload);"));
}

#[test]
fn resource_renders_ambiguous_aborted_results_as_interrupted() {
    assert!(RESOURCE_HTML.contains("if (outcome === \"aborted\") return \"interrupted\";"));
    assert!(!RESOURCE_HTML.contains("if (outcome === \"aborted\") return \"shutdown\";"));
}

#[test]
fn render_payload_contains_only_fields_used_by_the_card() {
    let mut state = SpineUiState::default();
    state.record_snapshot(snapshot(5, "1.1"));
    state.record_spawn_progress(spawn_progress("child", AgentStatus::Running));

    let response = tool_call_response("thread-1", Some(&state));
    let content = response.structured_content.expect("structured content");

    assert!(!response.is_error);
    assert_eq!(content.schema_version, 1);
    assert_eq!(content.snapshot.active_node_id, "1.1");
    let printed = format!("{content:?}");
    assert!(!printed.contains("snapshot_seq"));
    assert!(!printed.contains("memory_summary"));
    assert!(!printed.contains("not sent to the renderer"));
    assert!(!printed.contains("end:"));
    assert!(!printed.contains("context_pressure"));
    assert!(!printed.contains("agent_path"));
    assert!(!printed.contains("/root/child"));
    assert!(!printed.contains("generation"));
    assert!(!printed.contains("timeout"));
    assert!(!printed.contains("suppressed"));
}

#[test]
fn spawn_calls_keep_creation_order_and_original_parent() {
    let mut state = SpineUiState::default();
    state.record_snapshot(snapshot(1, "1.1"));
    state.record_spawn_progress(spawn_progress("first", AgentStatus::Running));
    state.record_snapshot(snapshot(2, "1.2"));
    state.record_spawn_progress(spawn_progress("second", AgentStatus::Running));
    state.record_spawn_progress(spawn_progress("first", AgentStatus::Completed(None)));

    let content = state.structured_content().expect("structured content");
    assert_eq!(content.spawn_calls[0].call_id, "first");
    assert_eq!(content.spawn_calls[0].parent_node_id.as_deref(), Some("1.1"));
    assert_eq!(
        content.spawn_calls[0].tasks[0].status,
        RenderAgentStatus::Completed
    );
    assert_eq!(content.spawn_calls[1].call_id, "second");
    assert_eq!(content.spawn_calls[1].parent_node_id.as_deref(), Some("1.2"));
}

#[test]
fn settled_spawn_call_on_root_epoch_is_rendered_as_a_top_level_agent() {
    let mut state = SpineUiState::default();
    state.record_snapshot(snapshot(1, "1"));
    state.record_spawn_progress(spawn_progress("root_child", AgentStatus::Running));

    let mut committed = snapshot(2, "1");
    committed.settled_spawn_call_ids = vec!["root_child".to_string()];
    let mut result_node = node(
        "1.3",
        Some("1"),
        SpineTreeNodeKind::Task,
        SpineTreeNodeStatus::Closed,
        Some("Run root_child"),
    );
    result_node.spawn_outcome = Some(SpineSpawnOutcome::Completed);
    committed.nodes.push(result_node);
    state.record_snapshot(committed);

    let content = state.structured_content().expect("structured content");
    assert!(content.spawn_calls[0].parent_node_id.is_none());
    assert_eq!(
        content.spawn_calls[0].tasks[0].result_node_id.as_deref(),
        Some("1.3")
    );
}

#[test]
fn changed_snapshot_at_the_same_boundary_advances_the_ui_revision() {
    let mut state = SpineUiState::default();
    state.record_snapshot(snapshot(7, "1.1"));
    let first_revision = state.revision;

    state.record_snapshot(snapshot(7, "1.2"));
    assert!(state.revision > first_revision);
    let second_revision = state.revision;
    state.record_snapshot(snapshot(7, "1.2"));
    assert_eq!(state.revision, second_revision);
}

#[test]
fn unchanged_spawn_progress_does_not_advance_the_ui_revision() {
    let child_thread_id = ThreadId(1);
    let mut state = SpineUiState::default();
    state.record_snapshot(snapshot(1, "1.1"));
    let running = spawn_progress_for_thread("child", child_thread_id, AgentStatus::Running);

    assert!(state.record_spawn_progress(running.clone()));
    let running_revision = state.revision;
    assert!(!state.record_spawn_progress(running.clone()));
    assert_eq!(state.revision, running_revision);

    assert!(state.record_spawn_progress(spawn_progress_for_thread(
        "child",
        child_thread_id,
        AgentStatus::Completed(None),
    )));
    let terminal_revision = state.revision;
    assert!(!state.record_spawn_progress(running));
    assert_eq!(state.revision, terminal_revision);
}

#[test]
fn specific_terminal_status_is_not_overwritten_by_the_interrupted_fallback() {
    let child_thread_id = ThreadId(1);
    let mut state = SpineUiState::default();
    state.record_snapshot(snapshot(1, "1.1"));

    assert!(state.record_spawn_progress(spawn_progress_for_thread(
        "child",
        child_thread_id,
        AgentStatus::Shutdown,
    )));
    assert!(!state.record_spawn_progress(spawn_progress_for_thread(
        "child",
        child_thread_id,
        AgentStatus::Interrupted,
    )));

    let content = state.structured_content().expect("structured content");
    assert_eq!(
        content.spawn_calls[0].tasks[0].status,
        RenderAgentStatus::Shutdown
    );
}

#[test]
fn aborted_result_uses_interrupted_fallback_without_overwriting_shutdown() {
    let mut state = SpineUiState::default();
    state.record_snapshot(snapshot(1, "1.1"));
    state.record_spawn_progress(spawn_progress("ambiguous_abort", AgentStatus::Running));
    state.record_spawn_progress(spawn_progress("true_shutdown", AgentStatus::Shutdown));

    let mut committed = snapshot(2, "1.1");
    committed.settled_spawn_call_ids =
        vec!["ambiguous_abort".to_string(), "true_shutdown".to_string()];
    for (node_id, summary) in [
        ("1.1.1", "Run ambiguous_abort"),
        ("1.1.2", "Run true_shutdown"),
    ] {
        let mut result_node = node(
            node_id,
            Some("1.1"),
            SpineTreeNodeKind::Task,
            SpineTreeNodeStatus::Closed,
            Some(summary),
        );
        result_node.spawn_outcome = Some(SpineSpawnOutcome::Aborted);
        committed.nodes.push(result_node);
    }
    assert!(state.record_snapshot(committed));

    let content = state.structured_content().expect("structured content");
    assert_eq!(
        content.spawn_calls[0].tasks[0].status,
        RenderAgentStatus::Interrupted
    );
    assert_eq!(
        content.spawn_calls[1].tasks[0].status,
        RenderAgentStatus::Shutdown
    );
}

#[test]
fn terminalizing_incomplete_agents_is_recursive_and_preserves_existing_terminals() {
    let child_thread_id = ThreadId(1);
    let completed_thread_id = ThreadId(2);
    let mut state = SpineUiState::default();
    state.record_snapshot(snapshot(1, "1.1"));
    state.record_spawn_progress(spawn_progress_for_thread(
        "child",
        child_thread_id,
        AgentStatus::Running,
    ));
    state.record_spawn_progress(spawn_progress_for_thread(
        "completed",
        completed_thread_id,
        AgentStatus::Completed(None),
    ));

    let mut child_state = SpineUiState::default();
    child_state.record_snapshot(snapshot(1, "1.1"));
    child_state.record_spawn_progress(spawn_progress("grandchild", AgentStatus::PendingInit));
    assert!(state.record_agent_state(child_thread_id, 1, child_state));

    assert!(state.terminalize_incomplete_agents(&AgentStatus::Interrupted));
    let content = state.structured_content().expect("terminal content");
    assert_eq!(
        content.spawn_calls[0].tasks[0].status,
        RenderAgentStatus::Interrupted
    );
    assert_eq!(
        content.spawn_calls[1].tasks[0].status,
        RenderAgentStatus::Completed
    );
    assert_eq!(
        content.agent_subtrees[0].content.spawn_calls[0].tasks[0].status,
        RenderAgentStatus::Interrupted
    );
    assert!(!state.terminalize_incomplete_agents(&AgentStatus::Interrupted));
}

#[test]
fn replacement_generation_cannot_be_removed_by_an_older_terminal() {
    let child_thread_id = ThreadId(1);
    let mut state = SpineUiState::default();
    state.record_snapshot(snapshot(1, "1.1"));
    state.record_spawn_progress(spawn_progress_for_thread(
        "child",
        child_thread_id,
        AgentStatus::Running,
    ));

    let mut first = SpineUiState::default();
    first.record_snapshot(snapshot(8, "1.2"));
    assert!(state.record_agent_state(child_thread_id, 1, first));
    let mut replacement = SpineUiState::default();
    replacement.record_snapshot(snapshot(1, "1.1"));
    assert!(state.record_agent_state(child_thread_id, 2, replacement));
    assert!(!state.remove_agent_state(child_thread_id, 1));
    assert!(state.remove_agent_state(child_thread_id, 2));
}

#[test]
fn render_payload_omits_agent_terminal_messages() {
    let mut state = SpineUiState::default();
    state.record_snapshot(snapshot(1, "1.1"));
    state.record_spawn_progress(spawn_progress(
        "failed",
        AgentStatus::Errored("sensitive diagnostic".to_string()),
    ));
    state.record_spawn_progress(spawn_progress(
        "completed",
        AgentStatus::Completed(Some("sensitive final answer".to_string())),
    ));

    let content = state.structured_content().expect("structured content");
    assert_eq!(
        content.spawn_calls[0].tasks[0].status,
        RenderAgentStatus::Error
    );
    assert_eq!(
        content.spawn_calls[1].tasks[0].status,
        RenderAgentStatus::Completed
    );
    let printed = format!("{content:?}");
    assert!(!printed.contains("sensitive diagnostic"));
    assert!(!printed.contains("sensitive final answer"));
}

#[test]
fn settled_spawn_call_links_its_result_node_without_duplicate_payload_metadata() {
    let mut state = SpineUiState::default();
    state.record_snapshot(snapshot(1, "1.1"));
    state.record_spawn_progress(spawn_progress("settled", AgentStatus::Running));

    let mut committed = snapshot(2, "1.1");
    committed.settled_spawn_call_ids = vec!["settled".to_string()];
    let mut result_node = node(
        "1.1.1",
        Some("1.1"),
        SpineTreeNodeKind::Task,
        SpineTreeNodeStatus::Closed,
        Some("Run settled"),
    );
    result_node.spawn_outcome = Some(SpineSpawnOutcome::Completed);
    committed.nodes.push(result_node);
    state.record_snapshot(committed);

    let content = state.structured_content().expect("structured content");
    assert_eq!(
        content.spawn_calls[0].tasks[0].result_node_id.as_deref(),
        Some("1.1.1")
    );
    assert_eq!(content.snapshot.nodes[3].node_id, "1.1.1");
    assert!(!format!("{content:?}").contains("suppressed"));
}

#[test]
fn agent_subtree_is_nested_under_its_matching_agent() {
    let child_thread_id = ThreadId(1);
    let mut state = SpineUiState::default();
    state.record_snapshot(snapshot(1, "1.1"));
    state.record_spawn_progress(spawn_progress_for_thread(
        "child",
        child_thread_id,
        AgentStatus::Running,
    ));
    let mut child_state = SpineUiState::default();
    child_state.record_snapshot(snapshot(4, "1.2"));
    state.record_agent_state(child_thread_id, 1, child_state);

    let content = state.structured_content().expect("structured content");
    assert_eq!(content.agent_subtrees[0].thread_id, child_thread_id);
    assert_eq!(
        content.agent_subtrees[0].content.snapshot.active_node_id,
        "1.2"
    );
}

#[test]
fn agent_with_a_parent_outside_the_current_snapshot_is_rendered_at_the_root() {
    let child_thread_id = ThreadId(1);
    let mut state = SpineUiState::default();
    state.record_snapshot(snapshot(1, "1.1"));
    state.record_spawn_progress(spawn_progress_for_thread(
        "child",
        child_thread_id,
        AgentStatus::Running,
    ));

    let mut child_state = SpineUiState::default();
    child_state.record_snapshot(snapshot(1, "1.2"));
    state.record_agent_state(child_thread_id, 1, child_state);

    let snapshot_without_parent = SpineTreeUpdateEvent {
        snapshot_seq: 2,
        active_node_id: "2.1".to_string(),
        settled_spawn_call_ids: Vec::new(),
        nodes: vec![node(
            "2.1",
            None,
            SpineTreeNodeKind::Task,
            SpineTreeNodeStatus::Live,
            Some("Current turn"),
        )],
    };
    state.record_snapshot(snapshot_without_parent);

    let content = state.structured_content().expect("structured content");
    assert_eq!(content.spawn_calls[0].call_id, "child");
    assert!(content.spawn_calls[0].parent_node_id.is_none());
    assert_eq!(content.agent_subtrees[0].thread_id, child_thread_id);
}

#[test]
fn parent_filter_removes_inherited_nodes_and_reanchors_nested_agents() {
    let grandchild_thread_id = ThreadId(1);
    let mut child_state = SpineUiState::default();
    child_state.record_snapshot(snapshot(4, "1.2"));
    child_state.record_spawn_progress(spawn_progress_for_thread(
        "nested",
        grandchild_thread_id,
        AgentStatus::Running,
    ));
    let mut baseline_node_ids: KeySet<String> = KeySet::new();
    for node in &child_state.latest_snapshot().expect("child snapshot").nodes {
        baseline_node_ids.insert(node.node_id.clone());
    }

    let filtered = child_state.filtered_for_parent(&baseline_node_ids);
    let content = filtered.structured_content().expect("filtered content");

    assert!(content.snapshot.nodes.is_empty());
    assert!(content.spawn_calls[0].parent_node_id.is_none());
    assert_eq!(
        content.spawn_calls[0].tasks[0].thread_id,
        grandchild_thread_id
    );
}

#[test]
fn reserved_live_carrier_upserts_one_stable_id_per_turn() {
    let mut state = SpineUiState::default();
    state.record_snapshot(snapshot(7, "1.1"));
    let first_upsert =
        snapshot_upsert_notification("thread-1", "turn-1", &state).expect("first upsert");
    state.record_snapshot(snapshot(8, "1.2"));
    let refreshed_upsert =
        snapshot_upsert_notification("thread-1", "turn-1", &state).expect("refreshed upsert");
    state.mark_completed();
    let completed = snapshot_terminal_notification(
        "thread-1",
        "turn-1",
        &state,
        &SpineUiTerminalOutcome::Completed,
    )
    .expect("completed notification");
    let completed_refresh = snapshot_terminal_notification(
        "thread-1",
        "turn-1",
        &state,
        &SpineUiTerminalOutcome::Completed,
    )
    .expect("completed refresh notification");
    let other_turn = snapshot_terminal_notification(
        "thread-1",
        "turn-2",
        &state,
        &SpineUiTerminalOutcome::Completed,
    )
    .expect("second completed notification");

    assert_eq!(first_upsert.item.id, completed.item.id);
    assert_eq!(first_upsert.started_at_ms, refreshed_upsert.started_at_ms);
    assert_eq!(completed.completed_at_ms, completed_refresh.completed_at_ms);
    assert_eq!(first_upsert.item.status, McpToolCallStatus::InProgress);
    assert_eq!(completed.item.status, McpToolCallStatus::Completed);
    assert_eq!(
        completed.item.result.structured_content.terminal_outcome.as_deref(),
        Some("completed")
    );
    let meta = |item: &spine_ui::card::CardItem| {
        (
            item.result.resource_uri.clone(),
            item.result.widget_session_id.clone(),
        )
    };
    assert_eq!(meta(&first_upsert.item), meta(&completed.item));
    assert_ne!(meta(&first_upsert.item), meta(&other_turn.item));
}

#[test]
fn terminal_carrier_reports_abort_and_listener_failure_as_failed() {
    let mut state = SpineUiState::default();
    state.record_snapshot(snapshot(9, "1.2"));
    state.mark_completed();

    for (outcome, expected_reason) in [
        (
            SpineUiTerminalOutcome::Aborted(TurnAbortReason::Interrupted),
            "interrupted",
        ),
        (
            SpineUiTerminalOutcome::Aborted(TurnAbortReason::Replaced),
            "replaced",
        ),
        (
            SpineUiTerminalOutcome::Aborted(TurnAbortReason::ReviewEnded),
            "review_ended",
        ),
        (
            SpineUiTerminalOutcome::Aborted(TurnAbortReason::BudgetLimited),
            "budget_limited",
        ),
        (
            SpineUiTerminalOutcome::ListenerFailed("event stream closed".to_string()),
            "listener_error",
        ),
    ] {
        let notification = snapshot_terminal_notification("thread-1", "turn-1", &state, &outcome)
            .expect("failed terminal notification");
        assert_eq!(notification.item.status, McpToolCallStatus::Failed);
        assert_eq!(
            notification
                .item
                .result
                .structured_content
                .terminal_reason
                .as_deref(),
            Some(expected_reason)
        );
        assert!(!notification.item.result.text.is_empty());
    }
}

#[test]
fn item_of_a_card_is_exact() {
    let mut state = SpineUiState::default();
    assert!(snapshot_core_item("turn-1", &state, McpToolCallStatus::InProgress, None).is_none());
    assert!(snapshot_upsert_notification("thread-1", "turn-1", &state).is_none());
    state.record_snapshot_at(snapshot(42, "1.1"), 1_700_000_000_000);

    let item = snapshot_core_item("turn-1", &state, McpToolCallStatus::InProgress, None)
        .expect("card item");
    assert_eq!(item.id, "spine-ui-turn-1");
    assert_eq!(item.server, "__codex_internal_spine_tree_ui__");
    assert_eq!(item.tool, TOOL_NAME);
    assert_eq!(item.result.text, "Spine snapshot 42");
    assert!(!item.result.is_error);
    assert_eq!(item.result.widget_session_id, "spine-ui-turn-1");

    let upsert = snapshot_upsert_notification("thread-1", "turn-1", &state).expect("upsert");
    assert_eq!(upsert.started_at_ms, 1_700_000_000_000);

    let failed = snapshot_core_item(
        "turn-1",
        &state,
        McpToolCallStatus::Failed,
        Some(&SpineUiTerminalOutcome::ListenerFailed("closed".to_string())),
    )
    .expect("failed item");
    assert_eq!(
        failed.result.text,
        "Spine listener stopped unexpectedly: closed"
    );
    assert!(failed.result.is_error);
    let aborted = snapshot_core_item(
        "turn-1",
        &state,
        McpToolCallStatus::Failed,
        Some(&SpineUiTerminalOutcome::Aborted(TurnAbortReason::Replaced)),
    )
    .expect("aborted item");
    assert_eq!(aborted.result.text, "Spine turn aborted: replaced");
    assert!(
        snapshot_terminal_notification(
            "thread-1",
            "turn-1",
            &state,
            &SpineUiTerminalOutcome::Completed
        )
        .is_none()
    );
}

#[test]
fn times_of_a_card_come_from_a_running_clock() {
    let mut state = SpineUiState::default();
    let before = spine_ui::clock::now_unix_timestamp_ms();
    state.record_snapshot(snapshot(1, "1.1"));
    let after = spine_ui::clock::now_unix_timestamp_ms();
    let started = state.started_at_ms().expect("start time");
    assert!(before <= started && started <= after);
    assert!(before > 1_600_000_000_000);
    state.mark_completed();
    assert!(state.completed_at_ms().expect("completion time") >= started);
}

#[test]
fn errored_result_carries_its_summary_or_a_default() {
    for (summary, expected) in [(Some("it broke"), "it broke"), (None, "Agent failed")] {
        let mut state = SpineUiState::default();
        state.record_snapshot(snapshot(1, "1.1"));
        state.record_spawn_progress(spawn_progress("child", AgentStatus::Running));
        let mut committed = snapshot(2, "1.1");
        committed.settled_spawn_call_ids = vec!["child".to_string()];
        let mut result_node = node(
            "1.1.1",
            Some("1.1"),
            SpineTreeNodeKind::Task,
            SpineTreeNodeStatus::Closed,
            Some("Run child"),
        );
        result_node.spawn_outcome = Some(SpineSpawnOutcome::Errored);
        result_node.memory_summary = summary.map(str::to_string);
        committed.nodes.push(result_node);
        assert!(state.record_snapshot(committed));
        assert_eq!(
            state.spawn_calls[0].tasks[0].progress.status,
            AgentStatus::Errored(expected.to_string())
        );
    }
}

#[test]
fn one_result_node_belongs_to_one_task() {
    let mut state = SpineUiState::default();
    state.record_snapshot(snapshot(1, "1.1"));
    let twin = |ordinal: u32, thread: u128| SpineSpawnTaskProgress {
        ordinal,
        summary: "Same work".to_string(),
        thread_id: ThreadId(thread),
        agent_path: None,
        status: AgentStatus::Running,
    };
    state.record_spawn_progress(SpineSpawnProgressEvent {
        call_id: "twins".to_string(),
        tasks: vec![twin(0, 1), twin(1, 2)],
    });
    let mut committed = snapshot(2, "1.1");
    committed.settled_spawn_call_ids = vec!["twins".to_string()];
    let mut result_node = node(
        "1.1.1",
        Some("1.1"),
        SpineTreeNodeKind::Task,
        SpineTreeNodeStatus::Closed,
        Some("Same work"),
    );
    result_node.spawn_outcome = Some(SpineSpawnOutcome::Completed);
    committed.nodes.push(result_node);
    assert!(state.record_snapshot(committed));
    assert_eq!(
        state.spawn_calls[0].tasks[0].result_node_id.as_deref(),
        Some("1.1.1")
    );
    assert_eq!(state.spawn_calls[0].tasks[1].result_node_id, None);
}

#[test]
fn the_payload_leaves_out_what_the_card_does_not_show() {
    let card = |sequence: u64, memory: Option<&str>, path: Option<&str>, generation: u64| {
        let mut state = SpineUiState::default();
        let mut update = snapshot(sequence, "1.1");
        for node in &mut update.nodes {
            node.memory_summary = memory.map(str::to_string);
            node.end = memory.map(|_| sequence);
            node.context_pressure = memory.map(|_| sequence);
        }
        state.record_snapshot_at(update, sequence as i64);
        state.record_spawn_progress_at(
            SpineSpawnProgressEvent {
                call_id: "call".to_string(),
                tasks: vec![SpineSpawnTaskProgress {
                    ordinal: 0,
                    summary: "Work".to_string(),
                    thread_id: ThreadId(1),
                    agent_path: path.map(str::to_string),
                    status: AgentStatus::Completed(memory.map(str::to_string)),
                }],
            },
            sequence as i64,
        );
        let mut child = SpineUiState::default();
        child.record_snapshot_at(snapshot(sequence, "1.1"), sequence as i64);
        assert!(state.record_agent_state(ThreadId(1), generation, child));
        state.settled_spawn_call_ids.insert(format!("call-{sequence}"));
        state.completed_at_ms = memory.map(|_| 7);
        state
    };
    let plain = card(1, None, None, 1);
    let other = card(9, Some("secret"), Some("/root/agent_0"), 4);
    assert!(plain.structured_content().is_some());
    assert_eq!(plain.structured_content(), other.structured_content());
}

#[test]
fn a_thread_has_one_subtree_at_most() {
    let mut state = SpineUiState::default();
    assert!(state.agent_subtrees.items().is_empty());
    let progress = |status: AgentStatus| SpineSpawnProgressEvent {
        call_id: "call".to_string(),
        tasks: vec![SpineSpawnTaskProgress {
            ordinal: 0,
            summary: "Work".to_string(),
            thread_id: ThreadId(1),
            agent_path: None,
            status,
        }],
    };
    state.record_spawn_progress(progress(AgentStatus::Running));
    for (generation, revision) in [(1, 1), (1, 2), (2, 1)] {
        let mut child = SpineUiState::default();
        child.set_revision(revision);
        assert!(state.record_agent_state(ThreadId(1), generation, child));
        assert_eq!(state.agent_subtrees.items().len(), 1);
    }
    state.record_spawn_progress(progress(AgentStatus::Completed(None)));
    assert_eq!(state.agent_subtrees.items().len(), 1);
    assert_eq!(state.agent_subtrees.items()[0].generation, 2);
}

#[test]
fn progress_keeps_a_result_node_with_its_ordinal() {
    let mut state = SpineUiState::default();
    let task = |ordinal: u32, thread: u128| SpineSpawnTaskProgress {
        ordinal,
        summary: "Work".to_string(),
        thread_id: ThreadId(thread),
        agent_path: None,
        status: AgentStatus::Running,
    };
    state.record_spawn_progress(SpineSpawnProgressEvent {
        call_id: "call".to_string(),
        tasks: vec![task(0, 1), task(1, 2)],
    });
    state.spawn_calls[0].tasks[0].result_node_id = Some("1.1.1".to_string());
    assert!(state.record_spawn_progress(SpineSpawnProgressEvent {
        call_id: "call".to_string(),
        tasks: vec![task(1, 2), task(0, 1)],
    }));
    assert_eq!(state.spawn_calls[0].tasks[0].result_node_id, None);
    assert_eq!(
        state.spawn_calls[0].tasks[1].result_node_id.as_deref(),
        Some("1.1.1")
    );
}

#[test]
fn stale_snapshots_and_settled_calls_are_ignored() {
    let mut state = SpineUiState::default();
    assert!(state.record_snapshot(snapshot(5, "1.1")));
    let revision = state.revision();
    assert!(!state.record_snapshot(snapshot(4, "1.2")));
    assert_eq!(state.revision(), revision);
    state.record_spawn_progress(spawn_progress("child", AgentStatus::Running));
    let mut committed = snapshot(6, "1.1");
    committed.settled_spawn_call_ids = vec!["child".to_string()];
    assert!(state.record_snapshot(committed));
    assert!(!state.record_spawn_progress(spawn_progress("child", AgentStatus::Completed(None))));
}

#[test]
fn carried_card_keeps_its_agents_and_drops_its_tree() {
    let mut state = SpineUiState::default();
    state.record_snapshot(snapshot(1, "1.1"));
    state.record_spawn_progress(spawn_progress("child", AgentStatus::Running));
    let mut child = SpineUiState::default();
    child.record_snapshot(snapshot(3, "1.2"));
    assert!(state.record_agent_state(thread_of("child"), 4, child));
    let carried = state.carry_forward();
    assert!(carried.latest_snapshot().is_none());
    assert!(carried.started_at_ms().is_none());
    assert_eq!(carried.revision(), state.revision());
    assert!(carried.tracks_agent_generation(thread_of("child"), 4));
    assert!(!carried.tracks_agent_generation(thread_of("child"), 3));
}

#[test]
fn invalidated_generations_stay_off_the_card() {
    let child = ThreadId(9);
    let mut state = SpineUiState::default();
    state.record_snapshot(snapshot(1, "1.1"));
    state.record_spawn_progress(spawn_progress_for_thread("child", child, AgentStatus::Running));
    let mut subtree = SpineUiState::default();
    subtree.record_snapshot(snapshot(1, "1.1"));
    assert!(!state.remove_agent_state(child, 5));
    assert!(!state.record_agent_state(child, 5, subtree.clone()));
    assert!(!state.mark_agent_sync_timeout(child, 4));
    assert!(state.record_agent_state(child, 6, subtree.clone()));
    assert!(!state.record_agent_state(ThreadId(10), 7, subtree));
}
