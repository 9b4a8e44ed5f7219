//! The tool-call items that carry a card to a client.
use crate::mcp::{RESOURCE_URI, SERVER_NAME, TOOL_NAME};
use crate::protocol::TurnAbortReason;
use crate::render::{ContentView, SpineUiContent};
use crate::state::{SpineUiState, StateView};
use crate::text::{decimal, decimal_text, join, text_view};
use vstd::prelude::*;

verus! {

/// Prefix of the item that carries a turn's card.
pub const ITEM_ID_PREFIX: &'static str = "spine-ui-";

#[derive(Clone, Copy, PartialEq, Eq, Structural, Debug)]
pub enum McpToolCallStatus {
    InProgress,
    Completed,
    Failed,
}

/// How a turn with a card ended.
#[derive(Debug, PartialEq, Eq)]
pub enum SpineUiTerminalOutcome {
    Completed,
    Aborted(TurnAbortReason),
    /// The listener stopped, with its error.
    ListenerFailed(String),
}

pub enum OutcomeView {
    Completed,
    Aborted(TurnAbortReason),
    ListenerFailed(Seq<char>),
}

impl View for SpineUiTerminalOutcome {
    type V = OutcomeView;

    open spec fn view(&self) -> OutcomeView {
        match self {
            SpineUiTerminalOutcome::Completed => OutcomeView::Completed,
            SpineUiTerminalOutcome::Aborted(reason) => OutcomeView::Aborted(*reason),
            SpineUiTerminalOutcome::ListenerFailed(message) => OutcomeView::ListenerFailed(message@),
        }
    }
}

/// The name of an abort reason in the payload.
pub open spec fn abort_reason_name(reason: TurnAbortReason) -> Seq<char> {
    match reason {
        TurnAbortReason::Interrupted => "interrupted"@,
        TurnAbortReason::Replaced => "replaced"@,
        TurnAbortReason::ReviewEnded => "review_ended"@,
        TurnAbortReason::BudgetLimited => "budget_limited"@,
    }
}

impl OutcomeView {
    pub open spec fn status(self) -> McpToolCallStatus {
        match self {
            OutcomeView::Completed => McpToolCallStatus::Completed,
            _ => McpToolCallStatus::Failed,
        }
    }

    pub open spec fn outcome(self) -> Seq<char> {
        match self {
            OutcomeView::Completed => "completed"@,
            OutcomeView::Aborted(_) => "aborted"@,
            OutcomeView::ListenerFailed(_) => "failed"@,
        }
    }

    pub open spec fn reason(self) -> Option<Seq<char>> {
        match self {
            OutcomeView::Completed => None,
            OutcomeView::Aborted(reason) => Some(abort_reason_name(reason)),
            OutcomeView::ListenerFailed(_) => Some("listener_error"@),
        }
    }

    pub open spec fn error_message(self) -> Option<Seq<char>> {
        match self {
            OutcomeView::Completed => None,
            OutcomeView::Aborted(reason) => Some(
                "Spine turn aborted: "@ + abort_reason_name(reason),
            ),
            OutcomeView::ListenerFailed(message) => Some(
                "Spine listener stopped unexpectedly: "@ + message,
            ),
        }
    }
}

impl SpineUiTerminalOutcome {
    pub fn abort_reason(reason: &TurnAbortReason) -> (r: &'static str)
        ensures
            r@ == abort_reason_name(*reason),
    {
        match reason {
            TurnAbortReason::Interrupted => "interrupted",
            TurnAbortReason::Replaced => "replaced",
            TurnAbortReason::ReviewEnded => "review_ended",
            TurnAbortReason::BudgetLimited => "budget_limited",
        }
    }

    pub fn status(&self) -> (r: McpToolCallStatus)
        ensures
            r == self@.status(),
    {
        match self {
            SpineUiTerminalOutcome::Completed => McpToolCallStatus::Completed,
            SpineUiTerminalOutcome::Aborted(_) => McpToolCallStatus::Failed,
            SpineUiTerminalOutcome::ListenerFailed(_) => McpToolCallStatus::Failed,
        }
    }

    pub fn outcome(&self) -> (r: &'static str)
        ensures
            r@ == self@.outcome(),
    {
        match self {
            SpineUiTerminalOutcome::Completed => "completed",
            SpineUiTerminalOutcome::Aborted(_) => "aborted",
            SpineUiTerminalOutcome::ListenerFailed(_) => "failed",
        }
    }

    pub fn reason(&self) -> (r: Option<String>)
        ensures
            text_view(r) == self@.reason(),
    {
        match self {
            SpineUiTerminalOutcome::Completed => None,
            SpineUiTerminalOutcome::Aborted(reason) => Some(Self::abort_reason(reason).to_owned()),
            SpineUiTerminalOutcome::ListenerFailed(_) => Some("listener_error".to_owned()),
        }
    }

    pub fn error_message(&self) -> (r: Option<String>)
        ensures
            text_view(r) == self@.error_message(),
    {
        match self {
            SpineUiTerminalOutcome::Completed => None,
            SpineUiTerminalOutcome::Aborted(reason) => Some(
                join("Spine turn aborted: ", Self::abort_reason(reason)),
            ),
            SpineUiTerminalOutcome::ListenerFailed(message) => Some(
                join("Spine listener stopped unexpectedly: ", message.as_str()),
            ),
        }
    }
}

/// The result part of a card item.
#[derive(Debug, PartialEq, Eq)]
pub struct CardResult {
    pub text: String,
    pub structured_content: SpineUiContent,
    pub is_error: bool,
    /// The component that renders the content.
    pub resource_uri: String,
    /// The widget session, stable over the turn, that keeps one turn's card apart from another's.
    pub widget_session_id: String,
}

pub struct CardResultView {
    pub text: Seq<char>,
    pub structured_content: ContentView,
    pub is_error: bool,
    pub resource_uri: Seq<char>,
    pub widget_session_id: Seq<char>,
}

impl View for CardResult {
    type V = CardResultView;

    open spec fn view(&self) -> CardResultView {
        CardResultView {
            text: self.text@,
            structured_content: self.structured_content@,
            is_error: self.is_error,
            resource_uri: self.resource_uri@,
            widget_session_id: self.widget_session_id@,
        }
    }
}

/// The item that carries a turn's card. It has no arguments, error or duration.
#[derive(Debug, PartialEq, Eq)]
pub struct CardItem {
    pub id: String,
    pub server: String,
    pub tool: String,
    pub status: McpToolCallStatus,
    pub connector_id: String,
    pub mcp_app_resource_uri: String,
    pub app_name: String,
    pub action_name: String,
    pub result: CardResult,
}

pub struct CardItemView {
    pub id: Seq<char>,
    pub server: Seq<char>,
    pub tool: Seq<char>,
    pub status: McpToolCallStatus,
    pub connector_id: Seq<char>,
    pub mcp_app_resource_uri: Seq<char>,
    pub app_name: Seq<char>,
    pub action_name: Seq<char>,
    pub result: CardResultView,
}

impl View for CardItem {
    type V = CardItemView;

    open spec fn view(&self) -> CardItemView {
        CardItemView {
            id: self.id@,
            server: self.server@,
            tool: self.tool@,
            status: self.status,
            connector_id: self.connector_id@,
            mcp_app_resource_uri: self.mcp_app_resource_uri@,
            app_name: self.app_name@,
            action_name: self.action_name@,
            result: self.result@,
        }
    }
}

/// The card payload with the end of its turn written in.
pub open spec fn with_outcome(content: ContentView, outcome: Option<OutcomeView>) -> ContentView {
    match outcome {
        Some(o) => ContentView {
            terminal_outcome: Some(o.outcome()),
            terminal_reason: o.reason(),
            ..content
        },
        None => content,
    }
}

/// The line of text beside the card.
pub open spec fn card_text(snapshot_seq: u64, outcome: Option<OutcomeView>) -> Seq<char> {
    match outcome {
        Some(o) => match o.error_message() {
            Some(m) => m,
            None => "Spine snapshot "@ + decimal(snapshot_seq as nat),
        },
        None => "Spine snapshot "@ + decimal(snapshot_seq as nat),
    }
}

/// The item of a turn's card; none before the first snapshot.
pub open spec fn item_of(
    turn_id: Seq<char>,
    state: StateView,
    status: McpToolCallStatus,
    outcome: Option<OutcomeView>,
) -> Option<CardItemView> {
    match (state.rendered(), state.snapshot) {
        (Some(content), Some(snapshot)) => Some(
            CardItemView {
                id: ITEM_ID_PREFIX@ + turn_id,
                server: SERVER_NAME@,
                tool: TOOL_NAME@,
                status,
                connector_id: SERVER_NAME@,
                mcp_app_resource_uri: RESOURCE_URI@,
                app_name: "Spine UI"@,
                action_name: TOOL_NAME@,
                result: CardResultView {
                    text: card_text(snapshot.snapshot_seq, outcome),
                    structured_content: with_outcome(content, outcome),
                    is_error: match outcome {
                        Some(o) => o.status() == McpToolCallStatus::Failed,
                        None => false,
                    },
                    resource_uri: RESOURCE_URI@,
                    widget_session_id: ITEM_ID_PREFIX@ + turn_id,
                },
            },
        ),
        _ => None,
    }
}

pub open spec fn item_view(o: Option<CardItem>) -> Option<CardItemView> {
    match o {
        Some(i) => Some(i@),
        None => None,
    }
}

pub open spec fn outcome_view(o: Option<&SpineUiTerminalOutcome>) -> Option<OutcomeView> {
    match o {
        Some(x) => Some(x@),
        None => None,
    }
}

/// The item of a turn's card; none before the first snapshot.
pub fn snapshot_core_item(
    turn_id: &str,
    state: &SpineUiState,
    status: McpToolCallStatus,
    terminal_outcome: Option<&SpineUiTerminalOutcome>,
) -> (r: Option<CardItem>)
    ensures
        item_view(r) == item_of(turn_id@, state@, status, outcome_view(terminal_outcome)),
{
    let mut content = match state.structured_content() {
        Some(content) => content,
        None => return None,
    };
    let ghost plain = content@;
    let snapshot_seq: u64 = match &state.snapshot {
        Some(s) => s.snapshot_seq,
        None => return None,
    };
    let mut text = join("Spine snapshot ", decimal_text(snapshot_seq).as_str());
    let mut is_error = false;
    match terminal_outcome {
        Some(outcome) => {
            content.terminal_outcome = Some(outcome.outcome().to_owned());
            content.terminal_reason = outcome.reason();
            proof {
                assert(content@.agent_subtrees =~= plain.agent_subtrees);
            }
            match outcome.error_message() {
                Some(m) => {
                    text = m;
                },
                None => {},
            }
            is_error = match outcome.status() {
                McpToolCallStatus::Failed => true,
                _ => false,
            };
        },
        None => {},
    }
    Some(
        CardItem {
            id: join(ITEM_ID_PREFIX, turn_id),
            server: SERVER_NAME.to_owned(),
            tool: TOOL_NAME.to_owned(),
            status,
            connector_id: SERVER_NAME.to_owned(),
            mcp_app_resource_uri: RESOURCE_URI.to_owned(),
            app_name: "Spine UI".to_owned(),
            action_name: TOOL_NAME.to_owned(),
            result: CardResult {
                text,
                structured_content: content,
                is_error,
                resource_uri: RESOURCE_URI.to_owned(),
                widget_session_id: join(ITEM_ID_PREFIX, turn_id),
            },
        },
    )
}

/// A card that is mounted or refreshed. Repeats under one identity replace each other.
#[derive(Debug, PartialEq, Eq)]
pub struct ItemStartedNotification {
    pub item: CardItem,
    pub thread_id: String,
    pub turn_id: String,
    pub started_at_ms: i64,
}

pub struct StartedView {
    pub item: CardItemView,
    pub thread_id: Seq<char>,
    pub turn_id: Seq<char>,
    pub started_at_ms: i64,
}

impl View for ItemStartedNotification {
    type V = StartedView;

    open spec fn view(&self) -> StartedView {
        StartedView {
            item: self.item@,
            thread_id: self.thread_id@,
            turn_id: self.turn_id@,
            started_at_ms: self.started_at_ms,
        }
    }
}

/// A card whose turn ended.
#[derive(Debug, PartialEq, Eq)]
pub struct ItemCompletedNotification {
    pub item: CardItem,
    pub thread_id: String,
    pub turn_id: String,
    pub completed_at_ms: i64,
}

pub struct CompletedView {
    pub item: CardItemView,
    pub thread_id: Seq<char>,
    pub turn_id: Seq<char>,
    pub completed_at_ms: i64,
}

impl View for ItemCompletedNotification {
    type V = CompletedView;

    open spec fn view(&self) -> CompletedView {
        CompletedView {
            item: self.item@,
            thread_id: self.thread_id@,
            turn_id: self.turn_id@,
            completed_at_ms: self.completed_at_ms,
        }
    }
}

pub open spec fn started_view(o: Option<ItemStartedNotification>) -> Option<StartedView> {
    match o {
        Some(n) => Some(n@),
        None => None,
    }
}

pub open spec fn completed_view(o: Option<ItemCompletedNotification>) -> Option<CompletedView> {
    match o {
        Some(n) => Some(n@),
        None => None,
    }
}

/// The notification that mounts or refreshes a live card: owed once the card has a snapshot and a
/// start time.
pub open spec fn upsert_of(
    thread_id: Seq<char>,
    turn_id: Seq<char>,
    state: StateView,
) -> Option<StartedView> {
    match (item_of(turn_id, state, McpToolCallStatus::InProgress, None), state.started_at_ms) {
        (Some(item), Some(started_at_ms)) => Some(
            StartedView { item, thread_id, turn_id, started_at_ms },
        ),
        _ => None,
    }
}

/// The notification that ends a card: owed once the card has a snapshot and a completion time.
pub open spec fn terminal_of(
    thread_id: Seq<char>,
    turn_id: Seq<char>,
    state: StateView,
    outcome: OutcomeView,
) -> Option<CompletedView> {
    match (item_of(turn_id, state, outcome.status(), Some(outcome)), state.completed_at_ms) {
        (Some(item), Some(completed_at_ms)) => Some(
            CompletedView { item, thread_id, turn_id, completed_at_ms },
        ),
        _ => None,
    }
}

/// The notification that mounts or refreshes a live card.
pub fn snapshot_upsert_notification(
    thread_id: &str,
    turn_id: &str,
    state: &SpineUiState,
) -> (r: Option<ItemStartedNotification>)
    ensures
        started_view(r) == upsert_of(thread_id@, turn_id@, state@),
{
    match snapshot_core_item(turn_id, state, McpToolCallStatus::InProgress, None) {
        Some(item) => match state.started_at_ms {
            Some(started_at_ms) => Some(
                ItemStartedNotification {
                    item,
                    thread_id: thread_id.to_owned(),
                    turn_id: turn_id.to_owned(),
                    started_at_ms,
                },
            ),
            None => None,
        },
        None => None,
    }
}

/// The notification that ends a card.
pub fn snapshot_terminal_notification(
    thread_id: &str,
    turn_id: &str,
    state: &SpineUiState,
    outcome: &SpineUiTerminalOutcome,
) -> (r: Option<ItemCompletedNotification>)
    ensures
        completed_view(r) == terminal_of(thread_id@, turn_id@, state@, outcome@),
{
    match snapshot_core_item(turn_id, state, outcome.status(), Some(outcome)) {
        Some(item) => match state.completed_at_ms {
            Some(completed_at_ms) => Some(
                ItemCompletedNotification {
                    item,
                    thread_id: thread_id.to_owned(),
                    turn_id: turn_id.to_owned(),
                    completed_at_ms,
                },
            ),
            None => None,
        },
        None => None,
    }
}

} // verus!
