use spine_ui::mcp::{
    enabled_from_env_value, ensure_latest_config_has_no_collision, ensure_reserved_name_available,
    is_internal_tool, read_resource, replaced_server_status, server_status, try_call_tool,
    try_read_resource, ConfigLookup, RequestError, ToolArguments, ENABLE_ENV, RESOURCE_URI,
    SERVER_NAME, TOOL_NAME,
};
use spine_ui::names::add_server_name;
use spine_ui::protocol::{
    SpineTreeNodeKind, SpineTreeNodeSnapshot, SpineTreeNodeStatus, SpineTreeUpdateEvent, ThreadId,
};
use spine_ui::state::SpineUiState;

const INTERNAL_SERVER: &str = "__codex_internal_spine_tree_ui__";
const INTERNAL_TOOL: &str = "spine_tree";
const INTERNAL_RESOURCE_URI: &str = "ui://spine/tree.html";
const RESERVED: &str = "the configured MCP server name '__codex_internal_spine_tree_ui__' is \
                        reserved while CODEX_SPINE_APP_UI is enabled";

fn free() -> ConfigLookup {
    ConfigLookup::Loaded(None)
}

fn thread() -> Result<ThreadId, String> {
    Ok(ThreadId(1))
}

fn message(error: RequestError) -> String {
    match error {
        RequestError::InvalidRequest(text) => text,
        RequestError::Internal(text) => text,
    }
}

fn names(list: &[&str]) -> Vec<String> {
    list.iter().map(|name| name.to_string()).collect()
}

#[test]
fn enable_env_parser_is_strict() {
    for enabled in ["1", "true", "TRUE", " on "] {
        assert!(enabled_from_env_value(Some(enabled)), "{enabled}");
    }
    for disabled in ["", "0", "false", "off", "yes", "enabled"] {
        assert!(!enabled_from_env_value(Some(disabled)), "{disabled}");
    }
    assert!(!enabled_from_env_value(None));
}

#[test]
fn only_the_words_switch_the_card_on() {
    assert!(enabled_from_env_value(Some("\t oN\r\n")));
    assert!(enabled_from_env_value(Some("\u{a0}1\u{3000}")));
    assert!(!enabled_from_env_value(Some("1 1")));
    assert!(!enabled_from_env_value(Some("o n")));
    assert!(!enabled_from_env_value(Some("11")));
    assert!(!enabled_from_env_value(Some("\u{ff4f}n")));
}

#[test]
fn internal_spine_ui_mcp_surface_is_available_only_when_enabled() {
    assert_eq!(SERVER_NAME, INTERNAL_SERVER);
    assert_eq!(TOOL_NAME, INTERNAL_TOOL);
    assert_eq!(RESOURCE_URI, INTERNAL_RESOURCE_URI);
    assert_eq!(ENABLE_ENV, "CODEX_SPINE_APP_UI");

    let mut listed = Vec::new();
    add_server_name(true, &mut listed);
    assert_eq!(listed, names(&[INTERNAL_SERVER]));
    let (at, status) = replaced_server_status(true, &listed, true).expect("internal server");
    assert_eq!(at, 0);
    assert_eq!(status.name, INTERNAL_SERVER);
    assert_eq!(status.tools.len(), 1);
    assert_eq!(status.tools[0].name, INTERNAL_TOOL);
    assert!(
        status
            .resources
            .iter()
            .any(|resource| resource.uri == INTERNAL_RESOURCE_URI)
    );

    let contents = try_read_resource(true, INTERNAL_SERVER, INTERNAL_RESOURCE_URI, &free())
        .expect("resource answer")
        .expect("internal resource");
    assert_eq!(contents[0].mime_type, "text/html;profile=mcp-app");
    assert!(contents[0].text.contains("<!doctype html>"));

    let reply = try_call_tool(
        true,
        INTERNAL_SERVER,
        INTERNAL_TOOL,
        ToolArguments::EmptyObject,
        "thread",
        &thread(),
        &free(),
        None,
    )
    .expect("tool answer")
    .expect("internal tool");
    assert!(reply.is_error);
    assert_eq!(reply.structured_content, None);
    assert_eq!(reply.text, "No Spine Tree is active for this thread.");
    assert_eq!(reply.widget_session_id, None);

    let refused = try_call_tool(
        true,
        INTERNAL_SERVER,
        INTERNAL_TOOL,
        ToolArguments::Other,
        "thread",
        &thread(),
        &free(),
        None,
    )
    .expect_err("arguments are refused");
    assert!(message(refused).contains("empty object"));
}

#[test]
fn disabled_internal_spine_ui_mcp_surface_falls_through_to_normal_mcp() {
    let mut listed = names(&["zeta", "alpha"]);
    add_server_name(false, &mut listed);
    assert_eq!(listed, names(&["zeta", "alpha"]));
    assert_eq!(
        replaced_server_status(false, &names(&[INTERNAL_SERVER]), true),
        None
    );
    let taken = ConfigLookup::Loaded(Some(true));
    assert_eq!(
        try_read_resource(false, INTERNAL_SERVER, INTERNAL_RESOURCE_URI, &taken),
        Ok(None)
    );
    assert_eq!(
        try_call_tool(
            false,
            INTERNAL_SERVER,
            INTERNAL_TOOL,
            ToolArguments::Other,
            "thread",
            &thread(),
            &taken,
            None,
        ),
        Ok(None)
    );
    assert_eq!(ensure_reserved_name_available(false, Some(true)), Ok(()));
}

#[test]
fn enabled_internal_spine_ui_mcp_rejects_a_configured_name_collision() {
    let taken = ConfigLookup::Loaded(Some(true));
    let reserved = RequestError::InvalidRequest(RESERVED.to_string());
    assert_eq!(
        ensure_reserved_name_available(true, Some(true)),
        Err(RequestError::InvalidRequest(RESERVED.to_string()))
    );
    assert_eq!(
        try_read_resource(true, INTERNAL_SERVER, INTERNAL_RESOURCE_URI, &taken),
        Err(RequestError::InvalidRequest(RESERVED.to_string()))
    );
    assert_eq!(
        try_call_tool(
            true,
            INTERNAL_SERVER,
            INTERNAL_TOOL,
            ToolArguments::EmptyObject,
            "thread",
            &thread(),
            &taken,
            None,
        ),
        Err(reserved)
    );
    assert_eq!(ensure_reserved_name_available(true, Some(false)), Ok(()));
    assert_eq!(ensure_reserved_name_available(true, None), Ok(()));
}

#[test]
fn enabled_internal_spine_ui_mcp_rejects_a_project_local_name_collision() {
    // Without a thread the project's configuration is not read.
    assert!(matches!(
        try_read_resource(true, INTERNAL_SERVER, INTERNAL_RESOURCE_URI, &free()),
        Ok(Some(_))
    ));
    let local = ConfigLookup::Loaded(Some(true));
    let refused = ensure_latest_config_has_no_collision(true, &local)
        .expect_err("reserved name");
    assert!(message(refused).contains("reserved"));
    let refused =
        try_read_resource(true, INTERNAL_SERVER, INTERNAL_RESOURCE_URI, &local)
            .expect_err("reserved name");
    assert!(message(refused).contains("reserved"));
    let refused = try_call_tool(
        true,
        INTERNAL_SERVER,
        INTERNAL_TOOL,
        ToolArguments::EmptyObject,
        "thread",
        &thread(),
        &local,
        None,
    )
    .expect_err("reserved name");
    assert!(message(refused).contains("reserved"));
}

#[test]
fn a_configuration_that_cannot_be_read_says_why() {
    assert_eq!(
        ensure_latest_config_has_no_collision(
            true,
            &ConfigLookup::InvalidThreadId("too short".to_string())
        ),
        Err(RequestError::InvalidRequest(
            "invalid thread id: too short".to_string()
        ))
    );
    assert_eq!(
        ensure_latest_config_has_no_collision(true, &ConfigLookup::ThreadNotFound("abc".to_string())),
        Err(RequestError::InvalidRequest(
            "thread not found: abc".to_string()
        ))
    );
    assert_eq!(
        ensure_latest_config_has_no_collision(
            true,
            &ConfigLookup::ReloadFailed("bad file".to_string())
        ),
        Err(RequestError::Internal(
            "failed to reload config: bad file".to_string()
        ))
    );
}

#[test]
fn a_tool_call_is_checked_in_order() {
    let call = |arguments: ToolArguments, thread_id: Result<ThreadId, String>| {
        try_call_tool(
            true,
            SERVER_NAME,
            TOOL_NAME,
            arguments,
            "abc",
            &thread_id,
            &ConfigLookup::ThreadNotFound("a-b-c".to_string()),
            None,
        )
        .map(|_| ())
    };
    let bad = || Err("too short".to_string());
    assert_eq!(
        call(ToolArguments::Other, bad()),
        Err(RequestError::InvalidRequest(
            "__codex_internal_spine_tree_ui__/spine_tree accepts only an empty object".to_string()
        ))
    );
    assert_eq!(
        call(ToolArguments::Absent, bad()),
        Err(RequestError::InvalidRequest(
            "invalid thread id: too short".to_string()
        ))
    );
    assert_eq!(
        call(ToolArguments::Absent, Ok(ThreadId(1))),
        Err(RequestError::InvalidRequest(
            "thread not found: a-b-c".to_string()
        ))
    );
}

#[test]
fn a_tool_call_shows_the_card() {
    let mut state = SpineUiState::default();
    state.record_snapshot(SpineTreeUpdateEvent {
        snapshot_seq: 3,
        active_node_id: "1".to_string(),
        settled_spawn_call_ids: Vec::new(),
        nodes: vec![SpineTreeNodeSnapshot {
            node_id: "1".to_string(),
            parent_id: None,
            kind: SpineTreeNodeKind::RootEpoch,
            status: SpineTreeNodeStatus::Live,
            summary: None,
            memory_summary: None,
            spawn_outcome: None,
            start: 0,
            end: None,
            context_pressure: None,
        }],
    });
    let reply = try_call_tool(
        true,
        SERVER_NAME,
        TOOL_NAME,
        ToolArguments::Absent,
        "abc",
        &thread(),
        &free(),
        Some(&state),
    )
    .expect("tool answer")
    .expect("internal tool");
    assert!(!reply.is_error);
    assert_eq!(reply.text, "Spine Tree");
    assert_eq!(reply.widget_session_id, Some("spine-ui-tool-abc".to_string()));
    assert_eq!(reply.structured_content, state.structured_content());
    assert!(reply.structured_content.is_some());
}

#[test]
fn other_servers_tools_and_resources_are_left_alone() {
    assert!(is_internal_tool(SERVER_NAME, TOOL_NAME));
    assert!(!is_internal_tool(SERVER_NAME, "other"));
    assert!(!is_internal_tool("other", TOOL_NAME));
    assert_eq!(read_resource("other", RESOURCE_URI), None);
    assert_eq!(read_resource(SERVER_NAME, "ui://other"), None);
    assert_eq!(
        try_call_tool(
            true,
            SERVER_NAME,
            "other",
            ToolArguments::Other,
            "abc",
            &thread(),
            &free(),
            None
        ),
        Ok(None)
    );
}

#[test]
fn the_component_reaches_out_to_no_domain() {
    let contents = read_resource(SERVER_NAME, RESOURCE_URI).expect("component");
    assert_eq!(contents.len(), 1);
    assert!(contents[0].prefers_border);
    assert!(contents[0].connect_domains.is_empty());
    assert!(contents[0].resource_domains.is_empty());
    assert_eq!(contents[0].widget_height_hint, 1);
    assert_eq!(contents[0].widget_min_frame_height, 1);
    assert!(!contents[0].text.contains("http://"));
    assert!(!contents[0].text.contains("https://"));
}

#[test]
fn the_internal_tool_is_read_only() {
    let status = server_status(false);
    assert!(status.resources.is_empty());
    assert_eq!(status.title, "Spine UI");
    assert_eq!(status.version, "1");
    assert_eq!(status.tools.len(), 1);
    assert!(status.tools[0].read_only_hint);
    assert!(!status.tools[0].destructive_hint);
    assert!(!status.tools[0].open_world_hint);
    assert_eq!(status.tools[0].resource_uri, RESOURCE_URI);
    assert_eq!(server_status(true).resources.len(), 1);
}

#[test]
fn server_names_are_sorted_and_unique() {
    let mut listed = names(&["zeta", "alpha", "zeta", "", "alp", INTERNAL_SERVER]);
    add_server_name(true, &mut listed);
    assert_eq!(
        listed,
        names(&["", INTERNAL_SERVER, "alp", "alpha", "zeta"])
    );
}

#[test]
fn the_first_server_of_the_name_is_replaced() {
    let listed = names(&["a", SERVER_NAME, SERVER_NAME]);
    let (at, status) = replaced_server_status(true, &listed, false).expect("internal server");
    assert_eq!(at, 1);
    assert_eq!(status, server_status(false));
    assert_eq!(replaced_server_status(true, &names(&["a"]), false), None);
}
