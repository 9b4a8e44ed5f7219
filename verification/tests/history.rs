use spine_ui::history::{
    has_live_in_progress_turn, merge_turn_history_with_active_turn,
    populate_thread_turns_from_history, set_thread_status_and_interrupt_stale_turns, Thread,
    ThreadItem, ThreadStatus, Turn,
};
use spine_ui::mcp::{SERVER_NAME, TOOL_NAME};
use spine_ui::turns::TurnStatus;

fn other(id: &str) -> ThreadItem {
    ThreadItem::Other {
        id: id.to_string(),
        body: "{}".to_string(),
    }
}

fn call(id: &str, server: &str, tool: &str) -> ThreadItem {
    ThreadItem::McpToolCall {
        call_id: id.to_string(),
        server: server.to_string(),
        tool: tool.to_string(),
        call: "{}".to_string(),
    }
}

fn turn(id: &str, status: TurnStatus, items: Vec<ThreadItem>) -> Turn {
    Turn {
        id: id.to_string(),
        status,
        items,
    }
}

fn ids(turns: &[Turn]) -> Vec<&str> {
    turns.iter().map(|turn| turn.id.as_str()).collect()
}

fn item_ids(turn: &Turn) -> Vec<&str> {
    turn.items.iter().map(ThreadItem::item_id).collect()
}

#[test]
fn the_active_turn_replaces_its_stored_form_at_the_end() {
    let mut turns = vec![
        turn("a", TurnStatus::Completed, vec![other("a1")]),
        turn("b", TurnStatus::InProgress, vec![other("b1")]),
        turn("c", TurnStatus::Completed, Vec::new()),
    ];
    merge_turn_history_with_active_turn(
        &mut turns,
        turn("b", TurnStatus::InProgress, vec![other("b1"), other("b2")]),
        true,
    );
    assert_eq!(ids(&turns), vec!["a", "c", "b"]);
    assert_eq!(item_ids(&turns[2]), vec!["b1", "b2"]);
}

#[test]
fn internal_calls_are_hidden_while_the_card_is_off() {
    let history = || {
        vec![turn(
            "a",
            TurnStatus::Completed,
            vec![
                call("card", SERVER_NAME, TOOL_NAME),
                call("tool", SERVER_NAME, "other"),
                other("text"),
            ],
        )]
    };
    let active = || {
        turn(
            "b",
            TurnStatus::InProgress,
            vec![call("card-b", SERVER_NAME, TOOL_NAME)],
        )
    };
    let mut turns = history();
    merge_turn_history_with_active_turn(&mut turns, active(), true);
    assert_eq!(item_ids(&turns[0]), vec!["card", "tool", "text"]);
    assert_eq!(item_ids(&turns[1]), vec!["card-b"]);
    let mut turns = history();
    merge_turn_history_with_active_turn(&mut turns, active(), false);
    assert_eq!(item_ids(&turns[0]), vec!["tool", "text"]);
    assert!(turns[1].items.is_empty());
}

#[test]
fn a_thread_takes_its_stored_turns() {
    let mut thread = Thread {
        id: "t".to_string(),
        session_id: String::new(),
        status: ThreadStatus::Idle,
        turns: vec![turn("old", TurnStatus::Completed, Vec::new())],
    };
    let stored = || vec![turn("a", TurnStatus::Completed, Vec::new())];
    populate_thread_turns_from_history(&mut thread, stored(), None, true);
    assert_eq!(ids(&thread.turns), vec!["a"]);
    populate_thread_turns_from_history(
        &mut thread,
        stored(),
        Some(turn("b", TurnStatus::InProgress, Vec::new())),
        true,
    );
    assert_eq!(ids(&thread.turns), vec!["a", "b"]);
    assert_eq!(thread.status, ThreadStatus::Idle);
}

#[test]
fn a_thread_that_is_not_active_has_no_turn_in_progress() {
    let thread = || Thread {
        id: "t".to_string(),
        session_id: String::new(),
        status: ThreadStatus::NotLoaded,
        turns: vec![
            turn("a", TurnStatus::Completed, vec![other("a1")]),
            turn("b", TurnStatus::InProgress, vec![other("b1")]),
            turn("c", TurnStatus::Failed, Vec::new()),
        ],
    };
    let mut idle = thread();
    set_thread_status_and_interrupt_stale_turns(&mut idle, ThreadStatus::Idle);
    let statuses: Vec<TurnStatus> = idle.turns.iter().map(|turn| turn.status).collect();
    assert_eq!(
        statuses,
        vec![
            TurnStatus::Completed,
            TurnStatus::Interrupted,
            TurnStatus::Failed
        ]
    );
    assert_eq!(item_ids(&idle.turns[1]), vec!["b1"]);
    assert_eq!(idle.status, ThreadStatus::Idle);
    let mut active = thread();
    let status = || ThreadStatus::Active {
        active_flags: vec!["flag".to_string()],
    };
    set_thread_status_and_interrupt_stale_turns(&mut active, status());
    assert_eq!(active.turns[1].status, TurnStatus::InProgress);
    assert_eq!(active.status, status());
}

#[test]
fn a_running_agent_or_turn_is_live() {
    let in_progress = turn("a", TurnStatus::InProgress, Vec::new());
    let done = turn("a", TurnStatus::Completed, Vec::new());
    assert!(has_live_in_progress_turn(true, None));
    assert!(has_live_in_progress_turn(false, Some(&in_progress)));
    assert!(!has_live_in_progress_turn(false, Some(&done)));
    assert!(!has_live_in_progress_turn(false, None));
}
