//! How connections attach to a thread's listener and resume a running thread.
use crate::history::{
    populate_thread_turns_from_history, resumed_turns, set_thread_status_and_interrupt_stale_turns,
    turn_view, Thread, ThreadStatus, Turn,
};
use crate::keyed::{views, KeySet};
use crate::mcp::{check_view, RequestError, RequestErrorView};
use crate::protocol::{ConnectionId, ThreadId};
use crate::retained::{RetainedThread, RetainedView};
use crate::subscriptions::{try_ensure_connection_subscribed, Subscriptions};
use crate::text::{join, text_view};
use vstd::prelude::*;

verus! {

#[derive(Clone, Copy, PartialEq, Eq, Structural, Debug)]
pub enum EnsureConversationListenerResult {
    Attached,
    ConnectionClosed,
}

pub open spec fn not_found_message(thread: Seq<char>) -> Seq<char> {
    "thread not found: "@ + thread
}

pub open spec fn closing_message(thread: Seq<char>) -> Seq<char> {
    "thread "@ + thread + " is closing; retry after the thread is closed"@
}

pub open spec fn resume_closing_message(thread: Seq<char>) -> Seq<char> {
    "thread "@ + thread + " is closing; retry thread/resume after the thread is closed"@
}

/// The view of an attachment.
pub open spec fn attach_view(
    r: Result<EnsureConversationListenerResult, RequestError>,
) -> Result<EnsureConversationListenerResult, RequestErrorView> {
    match r {
        Ok(x) => Ok(x),
        Err(e) => Err(e@),
    }
}

/// Attaches a connection to a thread's listener. `found` says whether the thread is loaded, and
/// `watchers_open` whether what its listener watches is still there. A connection whose listener
/// cannot run is not subscribed in the end.
pub fn ensure_conversation_listener(
    subscriptions: &mut Subscriptions,
    thread: &mut RetainedThread,
    pending_unloads: &KeySet<ThreadId>,
    found: bool,
    watchers_open: bool,
    thread_id: ThreadId,
    thread_name: &str,
    connection_id: ConnectionId,
    raw_events_enabled: bool,
) -> (r: Result<EnsureConversationListenerResult, RequestError>)
    ensures
        ({
            let before = old(subscriptions)@;
            let with = before.with(connection_id, thread_id);
            let marked = if raw_events_enabled {
                RetainedView { experimental_raw_events: true, ..old(thread)@ }
            } else {
                old(thread)@
            };
            if !found {
                &&& attach_view(r) == Err::<EnsureConversationListenerResult, RequestErrorView>(
                    RequestErrorView::InvalidRequest(not_found_message(thread_name@)),
                )
                &&& final(subscriptions)@ == before
                &&& final(thread)@ == old(thread)@
            } else if pending_unloads@.contains(thread_id) {
                &&& attach_view(r) == Err::<EnsureConversationListenerResult, RequestErrorView>(
                    RequestErrorView::InvalidRequest(closing_message(thread_name@)),
                )
                &&& final(subscriptions)@ == before
                &&& final(thread)@ == old(thread)@
            } else if !before.live.contains_key(connection_id) {
                &&& attach_view(r) == Ok::<EnsureConversationListenerResult, RequestErrorView>(
                    EnsureConversationListenerResult::ConnectionClosed,
                )
                &&& final(subscriptions)@ == before
                &&& final(thread)@ == old(thread)@
            } else if !watchers_open {
                &&& attach_view(r) == Err::<EnsureConversationListenerResult, RequestErrorView>(
                    RequestErrorView::InvalidRequest(closing_message(thread_name@)),
                )
                &&& final(subscriptions)@ == with.without(connection_id, thread_id)
                &&& final(thread)@ == marked
            } else {
                &&& attach_view(r) == Ok::<EnsureConversationListenerResult, RequestErrorView>(
                    EnsureConversationListenerResult::Attached,
                )
                &&& final(subscriptions)@ == with
                &&& final(thread)@ == marked
            }
        }),
        old(subscriptions)@.consistent() ==> final(subscriptions)@.consistent(),
{
    if !found {
        return Err(RequestError::InvalidRequest(join("thread not found: ", thread_name)));
    }
    if pending_unloads.contains(&thread_id) {
        return Err(RequestError::InvalidRequest(closing_text(thread_name)));
    }
    if !try_ensure_connection_subscribed(
        subscriptions,
        thread,
        thread_id,
        connection_id,
        raw_events_enabled,
    ) {
        return Ok(EnsureConversationListenerResult::ConnectionClosed);
    }
    if !watchers_open {
        proof {
            let with = subscriptions@;
            assert(with.by_connection[connection_id].contains(thread_id));
            assert(with.lists(connection_id, thread_id));
        }
        let _ = subscriptions.unsubscribe_connection_from_thread(thread_id, connection_id);
        return Err(RequestError::InvalidRequest(closing_text(thread_name)));
    }
    Ok(EnsureConversationListenerResult::Attached)
}

fn closing_text(thread_name: &str) -> (r: String)
    ensures
        r@ == closing_message(thread_name@),
{
    let start = join("thread ", thread_name);
    join(start.as_str(), " is closing; retry after the thread is closed")
}

#[derive(Clone, Copy, PartialEq, Eq, Structural, Debug)]
pub enum LogLevel {
    Debug,
    Warn,
}

/// A line for the log, with the connection it is about.
#[derive(Debug, PartialEq, Eq)]
pub struct LogLine {
    pub level: LogLevel,
    pub message: String,
    pub connection_id: Option<ConnectionId>,
}

pub struct LogLineView {
    pub level: LogLevel,
    pub message: Seq<char>,
    pub connection_id: Option<ConnectionId>,
}

impl View for LogLine {
    type V = LogLineView;

    open spec fn view(&self) -> LogLineView {
        LogLineView {
            level: self.level,
            message: self.message@,
            connection_id: self.connection_id,
        }
    }
}

pub open spec fn log_view(o: Option<LogLine>) -> Option<LogLineView> {
    match o {
        Some(l) => Some(l@),
        None => None,
    }
}

/// The line that the outcome of an attachment leaves in the log.
pub open spec fn attach_log(
    result: Result<EnsureConversationListenerResult, RequestErrorView>,
    thread: Seq<char>,
    connection_id: ConnectionId,
    kind: Seq<char>,
) -> Option<LogLineView> {
    match result {
        Ok(EnsureConversationListenerResult::Attached) => None,
        Ok(EnsureConversationListenerResult::ConnectionClosed) => Some(
            LogLineView {
                level: LogLevel::Debug,
                message: "skipping auto-attach for closed connection"@,
                connection_id: Some(connection_id),
            },
        ),
        Err(error) => Some(
            LogLineView {
                level: LogLevel::Warn,
                message: "failed to attach listener for "@ + kind + " "@ + thread + ": "@ + (
                match error {
                    RequestErrorView::InvalidRequest(m) => m,
                    RequestErrorView::Internal(m) => m,
                }),
                connection_id: None,
            },
        ),
    }
}

/// The line that the outcome of an attachment leaves in the log; none where it went well.
pub fn log_listener_attach_result(
    result: Result<EnsureConversationListenerResult, RequestError>,
    thread_name: &str,
    connection_id: ConnectionId,
    thread_kind: &str,
) -> (r: Option<LogLine>)
    ensures
        log_view(r) == attach_log(attach_view(result), thread_name@, connection_id, thread_kind@),
{
    match result {
        Ok(EnsureConversationListenerResult::Attached) => None,
        Ok(EnsureConversationListenerResult::ConnectionClosed) => Some(
            LogLine {
                level: LogLevel::Debug,
                message: "skipping auto-attach for closed connection".to_owned(),
                connection_id: Some(connection_id),
            },
        ),
        Err(error) => {
            let reason = match error {
                RequestError::InvalidRequest(m) => m,
                RequestError::Internal(m) => m,
            };
            let start = join("failed to attach listener for ", thread_kind);
            let start = join(start.as_str(), " ");
            let start = join(start.as_str(), thread_name);
            let start = join(start.as_str(), ": ");
            let message = join(start.as_str(), reason.as_str());
            Some(LogLine { level: LogLevel::Warn, message, connection_id: None })
        },
    }
}

/// What reading a running thread's stored history gave.
#[derive(Debug, PartialEq, Eq)]
pub enum StoredHistory {
    Failed(String),
    Missing,
    Present,
}

/// Whether a running thread can be resumed, and why not.
pub open spec fn resume_check(permit: bool, stored: StoredHistory) -> Result<(), RequestErrorView> {
    if !permit {
        Err(
            RequestErrorView::Internal(
                "failed to acquire thread list state permit for running thread resume"@,
            ),
        )
    } else {
        match stored {
            StoredHistory::Failed(error) => Err(
                RequestErrorView::Internal(
                    "failed to refresh running thread history for resume: "@ + error@,
                ),
            ),
            StoredHistory::Missing => Err(
                RequestErrorView::Internal(
                    "running thread resume did not include persisted history"@,
                ),
            ),
            StoredHistory::Present => Ok(()),
        }
    }
}

/// Whether a running thread can be resumed, and why not. Without the permit to read the list of
/// threads nothing is read.
pub fn resume_history_check(permit: bool, stored: &StoredHistory) -> (r: Result<(), RequestError>)
    ensures
        check_view(r) == resume_check(permit, *stored),
{
    if !permit {
        return Err(
            RequestError::Internal(
                "failed to acquire thread list state permit for running thread resume".to_owned(),
            ),
        );
    }
    match stored {
        StoredHistory::Failed(error) => Err(
            RequestError::Internal(
                join("failed to refresh running thread history for resume: ", error.as_str()),
            ),
        ),
        StoredHistory::Missing => Err(
            RequestError::Internal(
                "running thread resume did not include persisted history".to_owned(),
            ),
        ),
        StoredHistory::Present => Ok(()),
    }
}

/// Subscribes the connection that resumes a running thread. Says whether the connection is live.
pub fn subscribe_resumed(
    subscriptions: &mut Subscriptions,
    pending_unloads: &KeySet<ThreadId>,
    thread_id: ThreadId,
    thread_name: &str,
    connection_id: ConnectionId,
) -> (r: Result<bool, RequestError>)
    ensures
        ({
            let before = old(subscriptions)@;
            let live = before.live.contains_key(connection_id);
            if pending_unloads@.contains(thread_id) {
                &&& r is Err
                &&& r->Err_0@ == RequestErrorView::InvalidRequest(
                    resume_closing_message(thread_name@),
                )
                &&& final(subscriptions)@ == before
            } else {
                &&& r == Ok::<bool, RequestError>(live)
                &&& final(subscriptions)@ == (if live {
                    before.with(connection_id, thread_id)
                } else {
                    before
                })
            }
        }),
        old(subscriptions)@.consistent() ==> final(subscriptions)@.consistent(),
{
    if pending_unloads.contains(&thread_id) {
        let start = join("thread ", thread_name);
        return Err(
            RequestError::InvalidRequest(
                join(
                    start.as_str(),
                    " is closing; retry thread/resume after the thread is closed",
                ),
            ),
        );
    }
    Ok(subscriptions.try_add_connection_to_thread(thread_id, connection_id))
}

/// Which payloads are redacted before a resumed thread is sent.
#[derive(Clone, Copy, PartialEq, Eq, Structural, Debug)]
pub struct ResumeRedaction {
    /// Those of the thread's turns.
    pub turns: bool,
    /// Those of the first page of turns.
    pub page: bool,
    /// Those of the turns that the token usage is replayed from.
    pub usage: bool,
}

/// Which payloads are redacted: where the request asks for it, those of everything that is sent. The
/// token usage is replayed from the turns as they are.
pub open spec fn redaction_of(redact: bool, has_page: bool) -> ResumeRedaction {
    ResumeRedaction { turns: redact, page: redact && has_page, usage: false }
}

/// Which payloads are redacted before a resumed thread is sent. `has_page` says whether a first page
/// of turns goes with it.
pub fn resume_redaction(redact: bool, has_page: bool) -> (r: ResumeRedaction)
    ensures
        r == redaction_of(redact, has_page),
{
    ResumeRedaction { turns: redact, page: redact && has_page, usage: false }
}

/// The thread that answers a resume request, and what is redacted of it before its client sees it.
#[derive(Debug, PartialEq, Eq)]
pub struct ResumeAnswer {
    pub thread: Thread,
    pub redaction: ResumeRedaction,
}

/// Why a resume request is refused, by its answer.
pub open spec fn answer_error(
    r: Result<Option<ResumeAnswer>, RequestError>,
) -> Option<RequestErrorView> {
    match r {
        Ok(_) => None,
        Err(e) => Some(e@),
    }
}

/// What composing the first page of turns gave, whether or not there is one.
pub open spec fn page_check(page: Result<bool, RequestError>) -> Result<(), RequestErrorView> {
    match page {
        Ok(_) => Ok(()),
        Err(e) => Err(e@),
    }
}

/// Why a resume request is refused, in the order of the checks. `page` is what composing the first
/// page of turns gave.
pub open spec fn resume_refusal(
    permit: bool,
    stored: StoredHistory,
    page: Result<(), RequestErrorView>,
    closing: bool,
    thread_name: Seq<char>,
) -> Option<RequestErrorView> {
    match resume_check(permit, stored) {
        Err(e) => Some(e),
        Ok(()) => match page {
            Err(e) => Some(e),
            Ok(()) => if closing {
                Some(RequestErrorView::InvalidRequest(resume_closing_message(thread_name)))
            } else {
                None
            },
        },
    }
}

/// Answers a request to resume a running thread: a refusal, the thread with what is to be redacted of
/// it, or nothing where the connection is closed by now. An answered connection is subscribed. `page`
/// says whether a first page of turns was composed, `thread` is the summary to start from and
/// `status` the status that the thread turned out to have.
pub fn answer_resume(
    subscriptions: &mut Subscriptions,
    pending_unloads: &KeySet<ThreadId>,
    thread_id: ThreadId,
    thread_name: &str,
    connection_id: ConnectionId,
    permit: bool,
    stored: &StoredHistory,
    page: Result<bool, RequestError>,
    redact: bool,
    thread: Thread,
    include_turns: bool,
    history_turns: Vec<Turn>,
    active_turn: Option<Turn>,
    status: ThreadStatus,
    session_id: String,
    enabled: bool,
) -> (r: Result<Option<ResumeAnswer>, RequestError>)
    ensures
        ({
            let before = old(subscriptions)@;
            let refusal = resume_refusal(
                permit,
                *stored,
                page_check(page),
                pending_unloads@.contains(thread_id),
                thread_name@,
            );
            let live = before.live.contains_key(connection_id);
            &&& answer_error(r) == refusal
            &&& final(subscriptions)@ == (if refusal is None && live {
                before.with(connection_id, thread_id)
            } else {
                before
            })
            &&& r matches Ok(answer) ==> {
                &&& (answer is Some) == live
                &&& answer matches Some(answered) ==> {
                    let shown = answered.thread;
                    &&& answered.redaction == redaction_of(redact, page->Ok_0)
                    &&& shown.id == thread.id
                    &&& shown.session_id == session_id
                    &&& shown.status == status
                    &&& views(shown.turns@) == resumed_turns(
                        views(thread.turns@),
                        include_turns,
                        views(history_turns@),
                        turn_view(active_turn),
                        enabled,
                        status,
                    )
                }
            }
        }),
        old(subscriptions)@.consistent() ==> final(subscriptions)@.consistent(),
{
    match resume_history_check(permit, stored) {
        Err(e) => {
            return Err(e);
        },
        Ok(()) => {},
    }
    let has_page = match page {
        Err(e) => {
            return Err(e);
        },
        Ok(has_page) => has_page,
    };
    let live = match subscribe_resumed(
        subscriptions,
        pending_unloads,
        thread_id,
        thread_name,
        connection_id,
    ) {
        Err(e) => {
            return Err(e);
        },
        Ok(live) => live,
    };
    if !live {
        return Ok(None);
    }
    let mut thread = thread;
    if include_turns {
        populate_thread_turns_from_history(&mut thread, history_turns, active_turn, enabled);
    }
    set_thread_status_and_interrupt_stale_turns(&mut thread, status);
    thread.session_id = session_id;
    Ok(Some(ResumeAnswer { thread, redaction: resume_redaction(redact, has_page) }))
}

/// What follows a resumed thread's response.
#[derive(Clone, Copy, PartialEq, Eq, Structural, Debug)]
pub struct ResumeFollowUps {
    /// Replay the token usage. A resume without turns does not pay for it.
    pub token_usage: bool,
    pub goal: GoalFollowUp,
    /// Let extensions react to the idle thread, once the open requests were replayed.
    pub idle_lifecycle: bool,
}

#[derive(Clone, Copy, PartialEq, Eq, Structural, Debug)]
pub enum GoalFollowUp {
    Nothing,
    Snapshot,
    /// The goal is asked for and its store is not there.
    StoreMissing,
}

pub fn resume_follow_ups(include_turns: bool, emit_goal_update: bool, has_goal_store: bool) -> (r:
    ResumeFollowUps)
    ensures
        r == (ResumeFollowUps {
            token_usage: include_turns,
            goal: if !emit_goal_update {
                GoalFollowUp::Nothing
            } else if has_goal_store {
                GoalFollowUp::Snapshot
            } else {
                GoalFollowUp::StoreMissing
            },
            idle_lifecycle: emit_goal_update,
        }),
{
    let goal = if !emit_goal_update {
        GoalFollowUp::Nothing
    } else if has_goal_store {
        GoalFollowUp::Snapshot
    } else {
        GoalFollowUp::StoreMissing
    };
    ResumeFollowUps { token_usage: include_turns, goal, idle_lifecycle: emit_goal_update }
}

/// What reading a thread's goal gave. A goal is kept in its serialised form.
#[derive(Debug, PartialEq, Eq)]
pub enum GoalLookup {
    Found(String),
    Absent,
    Failed(String),
}

/// What clients are told about a thread's goal.
#[derive(Debug, PartialEq, Eq)]
pub enum GoalNotification {
    Updated { thread_id: String, turn_id: Option<String>, goal: String },
    Cleared { cleared_thread_id: String },
}

pub enum GoalNotificationView {
    Updated { thread_id: Seq<char>, turn_id: Option<Seq<char>>, goal: Seq<char> },
    Cleared { cleared_thread_id: Seq<char> },
}

impl View for GoalNotification {
    type V = GoalNotificationView;

    open spec fn view(&self) -> GoalNotificationView {
        match self {
            GoalNotification::Updated {
                thread_id,
                turn_id,
                goal,
            } => GoalNotificationView::Updated {
                thread_id: thread_id@,
                turn_id: text_view(*turn_id),
                goal: goal@,
            },
            GoalNotification::Cleared {
                cleared_thread_id,
            } => GoalNotificationView::Cleared { cleared_thread_id: cleared_thread_id@ },
        }
    }
}

/// What clients are told about the goal that was read, or the warning where it could not be read.
pub fn goal_snapshot_notification(thread_name: &str, lookup: GoalLookup) -> (r: Result<
    GoalNotification,
    String,
>)
    ensures
        match lookup {
            GoalLookup::Found(goal) => r is Ok && r->Ok_0@ == (GoalNotificationView::Updated {
                thread_id: thread_name@,
                turn_id: None,
                goal: goal@,
            }),
            GoalLookup::Absent => r is Ok && r->Ok_0@ == (GoalNotificationView::Cleared {
                cleared_thread_id: thread_name@,
            }),
            GoalLookup::Failed(error) => r is Err && r->Err_0@
                == "failed to read thread goal for resume snapshot: "@ + error@,
        },
{
    match lookup {
        GoalLookup::Found(goal) => Ok(
            GoalNotification::Updated { thread_id: thread_name.to_owned(), turn_id: None, goal },
        ),
        GoalLookup::Absent => Ok(
            GoalNotification::Cleared { cleared_thread_id: thread_name.to_owned() },
        ),
        GoalLookup::Failed(error) => Err(
            join("failed to read thread goal for resume snapshot: ", error.as_str()),
        ),
    }
}

/// How far the resolution of a pending client request came.
#[derive(Debug, PartialEq, Eq)]
pub enum RequestResolution {
    NoListener,
    ListenerClosed,
    /// The listener dropped the request, with the error of waiting for it.
    Dropped(String),
    Done,
}

/// The error that a failed resolution leaves in the log.
pub fn resolution_error(resolution: &RequestResolution) -> (r: Option<String>)
    ensures
        text_view(r) == (match *resolution {
            RequestResolution::NoListener => Some(
                "failed to remove pending client request: thread listener is not running"@,
            ),
            RequestResolution::ListenerClosed => Some(
                "failed to remove pending client request: thread listener command channel is closed"@,
            ),
            RequestResolution::Dropped(error) => Some(
                "failed to remove pending client request: "@ + error@,
            ),
            RequestResolution::Done => None,
        }),
{
    match resolution {
        RequestResolution::NoListener => Some(
            "failed to remove pending client request: thread listener is not running".to_owned(),
        ),
        RequestResolution::ListenerClosed => Some(
            "failed to remove pending client request: thread listener command channel is closed".to_owned(),
        ),
        RequestResolution::Dropped(error) => Some(
            join("failed to remove pending client request: ", error.as_str()),
        ),
        RequestResolution::Done => None,
    }
}

} // verus!
