use spine_ui::attach::{
    answer_resume, ensure_conversation_listener, goal_snapshot_notification,
    log_listener_attach_result, resolution_error, resume_follow_ups, resume_history_check,
    resume_redaction, subscribe_resumed, EnsureConversationListenerResult, GoalFollowUp, GoalLookup,
    GoalNotification, LogLevel, LogLine, RequestResolution, ResumeAnswer, ResumeFollowUps,
    ResumeRedaction, StoredHistory,
};
use spine_ui::history::{Thread, ThreadStatus, Turn};
use spine_ui::keyed::KeySet;
use spine_ui::mcp::RequestError;
use spine_ui::protocol::{ConnectionId, ThreadId};
use spine_ui::retained::RetainedThread;
use spine_ui::subscriptions::{ConnectionCapabilities, Subscriptions};
use spine_ui::turns::TurnStatus;

const THREAD: ThreadId = ThreadId(1);
const CONNECTION: ConnectionId = ConnectionId(7);

fn live_connection() -> Subscriptions {
    let mut subscriptions = Subscriptions::new();
    subscriptions.connection_initialized(CONNECTION, ConnectionCapabilities::default());
    subscriptions.ensure_thread(THREAD);
    subscriptions
}

fn attach(
    subscriptions: &mut Subscriptions,
    thread: &mut RetainedThread,
    unloading: bool,
    found: bool,
    watchers_open: bool,
) -> Result<EnsureConversationListenerResult, RequestError> {
    let mut pending: KeySet<ThreadId> = KeySet::new();
    if unloading {
        pending.insert(THREAD);
    }
    ensure_conversation_listener(
        subscriptions,
        thread,
        &pending,
        found,
        watchers_open,
        THREAD,
        "thread-1",
        CONNECTION,
        true,
    )
}

#[test]
fn a_live_connection_attaches() {
    let mut subscriptions = live_connection();
    let mut thread = RetainedThread::new();
    assert_eq!(
        attach(&mut subscriptions, &mut thread, false, true, true),
        Ok(EnsureConversationListenerResult::Attached)
    );
    assert_eq!(
        subscriptions.subscribed_connection_ids(THREAD),
        vec![CONNECTION]
    );
    assert!(thread.experimental_raw_events);
}

#[test]
fn a_missing_or_closing_thread_refuses() {
    let mut subscriptions = live_connection();
    let mut thread = RetainedThread::new();
    assert_eq!(
        attach(&mut subscriptions, &mut thread, true, false, true),
        Err(RequestError::InvalidRequest(
            "thread not found: thread-1".to_string()
        ))
    );
    let closing = "thread thread-1 is closing; retry after the thread is closed".to_string();
    assert_eq!(
        attach(&mut subscriptions, &mut thread, true, true, true),
        Err(RequestError::InvalidRequest(closing.clone()))
    );
    assert!(!thread.experimental_raw_events);
    assert_eq!(
        attach(&mut subscriptions, &mut thread, false, true, false),
        Err(RequestError::InvalidRequest(closing))
    );
    assert!(!subscriptions.has_subscribers(THREAD));
}

#[test]
fn a_closed_connection_is_skipped() {
    let mut subscriptions = Subscriptions::new();
    let mut thread = RetainedThread::new();
    assert_eq!(
        attach(&mut subscriptions, &mut thread, false, true, true),
        Ok(EnsureConversationListenerResult::ConnectionClosed)
    );
    assert!(!subscriptions.has_subscribers(THREAD));
    assert!(!thread.experimental_raw_events);
}

#[test]
fn the_log_says_what_became_of_an_attachment() {
    let log = |result: Result<EnsureConversationListenerResult, RequestError>| {
        log_listener_attach_result(result, "thread-1", CONNECTION, "subthread")
    };
    assert_eq!(log(Ok(EnsureConversationListenerResult::Attached)), None);
    assert_eq!(
        log(Ok(EnsureConversationListenerResult::ConnectionClosed)),
        Some(LogLine {
            level: LogLevel::Debug,
            message: "skipping auto-attach for closed connection".to_string(),
            connection_id: Some(CONNECTION),
        })
    );
    assert_eq!(
        log(Err(RequestError::Internal("no luck".to_string()))),
        Some(LogLine {
            level: LogLevel::Warn,
            message: "failed to attach listener for subthread thread-1: no luck".to_string(),
            connection_id: None,
        })
    );
}

#[test]
fn a_resume_needs_the_permit_and_a_history() {
    assert_eq!(resume_history_check(true, &StoredHistory::Present), Ok(()));
    assert_eq!(
        resume_history_check(false, &StoredHistory::Present),
        Err(RequestError::Internal(
            "failed to acquire thread list state permit for running thread resume".to_string()
        ))
    );
    assert_eq!(
        resume_history_check(true, &StoredHistory::Missing),
        Err(RequestError::Internal(
            "running thread resume did not include persisted history".to_string()
        ))
    );
    assert_eq!(
        resume_history_check(true, &StoredHistory::Failed("bad disk".to_string())),
        Err(RequestError::Internal(
            "failed to refresh running thread history for resume: bad disk".to_string()
        ))
    );
}

#[test]
fn a_resuming_connection_subscribes() {
    let mut subscriptions = live_connection();
    let mut pending: KeySet<ThreadId> = KeySet::new();
    assert_eq!(
        subscribe_resumed(
            &mut subscriptions,
            &pending,
            THREAD,
            "thread-1",
            ConnectionId(99)
        ),
        Ok(false)
    );
    assert_eq!(
        subscribe_resumed(&mut subscriptions, &pending, THREAD, "thread-1", CONNECTION),
        Ok(true)
    );
    assert!(subscriptions.has_subscribers(THREAD));
    pending.insert(THREAD);
    assert_eq!(
        subscribe_resumed(&mut subscriptions, &pending, THREAD, "thread-1", CONNECTION),
        Err(RequestError::InvalidRequest(
            "thread thread-1 is closing; retry thread/resume after the thread is closed"
                .to_string()
        ))
    );
}

fn turn(id: &str, status: TurnStatus) -> Turn {
    Turn {
        id: id.to_string(),
        status,
        items: Vec::new(),
    }
}

fn resume(
    subscriptions: &mut Subscriptions,
    closing: bool,
    stored: StoredHistory,
    page: Result<bool, RequestError>,
    redact: bool,
    include_turns: bool,
    status: ThreadStatus,
) -> Result<Option<ResumeAnswer>, RequestError> {
    let mut pending: KeySet<ThreadId> = KeySet::new();
    if closing {
        pending.insert(THREAD);
    }
    answer_resume(
        subscriptions,
        &pending,
        THREAD,
        "thread-1",
        CONNECTION,
        true,
        &stored,
        page,
        redact,
        Thread {
            id: "thread-1".to_string(),
            session_id: String::new(),
            status: ThreadStatus::NotLoaded,
            turns: Vec::new(),
        },
        include_turns,
        vec![
            turn("a", TurnStatus::Completed),
            turn("b", TurnStatus::InProgress),
        ],
        Some(turn("c", TurnStatus::InProgress)),
        status,
        "session".to_string(),
        true,
    )
}

#[test]
fn a_running_thread_is_resumed() {
    let mut subscriptions = live_connection();
    let ResumeAnswer { thread, redaction } = resume(
        &mut subscriptions,
        false,
        StoredHistory::Present,
        Ok(false),
        false,
        true,
        ThreadStatus::Idle,
    )
    .expect("answer")
    .expect("live connection");
    assert!(subscriptions.has_subscribers(THREAD));
    assert_eq!(redaction, resume_redaction(false, false));
    assert_eq!(thread.session_id, "session");
    assert_eq!(thread.status, ThreadStatus::Idle);
    let shown: Vec<(&str, TurnStatus)> = thread
        .turns
        .iter()
        .map(|turn| (turn.id.as_str(), turn.status))
        .collect();
    assert_eq!(
        shown,
        vec![
            ("a", TurnStatus::Completed),
            ("b", TurnStatus::Interrupted),
            ("c", TurnStatus::Interrupted),
        ]
    );
    let ResumeAnswer { thread, redaction } = resume(
        &mut subscriptions,
        false,
        StoredHistory::Present,
        Ok(false),
        false,
        false,
        ThreadStatus::Idle,
    )
    .expect("answer")
    .expect("live connection");
    assert!(thread.turns.is_empty());
    assert!(!redaction.turns && !redaction.page && !redaction.usage);
}

#[test]
fn a_resumed_thread_is_redacted_where_asked() {
    for (redact, has_page, expected) in [
        (false, false, (false, false, false)),
        (false, true, (false, false, false)),
        (true, false, (true, false, false)),
        (true, true, (true, true, false)),
    ] {
        let answer = resume(
            &mut live_connection(),
            false,
            StoredHistory::Present,
            Ok(has_page),
            redact,
            true,
            ThreadStatus::Idle,
        )
        .expect("answer")
        .expect("live connection");
        let ResumeRedaction { turns, page, usage } = answer.redaction;
        assert_eq!((turns, page, usage), expected);
        assert_eq!(answer.redaction, resume_redaction(redact, has_page));
    }
}

#[test]
fn a_resume_is_refused_in_order() {
    let mut subscriptions = live_connection();
    let page_error = || Err(RequestError::InvalidRequest("bad cursor".to_string()));
    let refused = resume(
        &mut subscriptions,
        true,
        StoredHistory::Missing,
        page_error(),
        true,
        true,
        ThreadStatus::Idle,
    );
    assert_eq!(
        refused,
        Err(RequestError::Internal(
            "running thread resume did not include persisted history".to_string()
        ))
    );
    let refused = resume(
        &mut subscriptions,
        true,
        StoredHistory::Present,
        page_error(),
        true,
        true,
        ThreadStatus::Idle,
    );
    assert_eq!(
        refused,
        Err(RequestError::InvalidRequest("bad cursor".to_string()))
    );
    let refused = resume(
        &mut subscriptions,
        true,
        StoredHistory::Present,
        Ok(false),
        false,
        true,
        ThreadStatus::Idle,
    );
    assert_eq!(
        refused,
        Err(RequestError::InvalidRequest(
            "thread thread-1 is closing; retry thread/resume after the thread is closed"
                .to_string()
        ))
    );
    assert!(!subscriptions.has_subscribers(THREAD));
    let skipped = resume(
        &mut Subscriptions::new(),
        false,
        StoredHistory::Present,
        Ok(false),
        false,
        true,
        ThreadStatus::Idle,
    );
    assert_eq!(skipped, Ok(None));
}

#[test]
fn a_resume_is_followed_up() {
    assert_eq!(
        resume_follow_ups(true, false, true),
        ResumeFollowUps {
            token_usage: true,
            goal: GoalFollowUp::Nothing,
            idle_lifecycle: false,
        }
    );
    assert_eq!(
        resume_follow_ups(false, true, true),
        ResumeFollowUps {
            token_usage: false,
            goal: GoalFollowUp::Snapshot,
            idle_lifecycle: true,
        }
    );
    assert_eq!(
        resume_follow_ups(false, true, false).goal,
        GoalFollowUp::StoreMissing
    );
}

#[test]
fn clients_learn_about_the_goal() {
    assert_eq!(
        goal_snapshot_notification("thread-1", GoalLookup::Found("{}".to_string())),
        Ok(GoalNotification::Updated {
            thread_id: "thread-1".to_string(),
            turn_id: None,
            goal: "{}".to_string(),
        })
    );
    assert_eq!(
        goal_snapshot_notification("thread-1", GoalLookup::Absent),
        Ok(GoalNotification::Cleared {
            cleared_thread_id: "thread-1".to_string(),
        })
    );
    assert_eq!(
        goal_snapshot_notification("thread-1", GoalLookup::Failed("locked".to_string())),
        Err("failed to read thread goal for resume snapshot: locked".to_string())
    );
}

#[test]
fn a_failed_resolution_is_logged() {
    assert_eq!(
        resolution_error(&RequestResolution::NoListener),
        Some("failed to remove pending client request: thread listener is not running".to_string())
    );
    assert_eq!(
        resolution_error(&RequestResolution::ListenerClosed),
        Some(
            "failed to remove pending client request: thread listener command channel is closed"
                .to_string()
        )
    );
    assert_eq!(
        resolution_error(&RequestResolution::Dropped("gone".to_string())),
        Some("failed to remove pending client request: gone".to_string())
    );
    assert_eq!(resolution_error(&RequestResolution::Done), None);
}
