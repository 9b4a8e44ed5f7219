//! What the commands to a thread's listener do.
use crate::attach::{GoalNotification, GoalNotificationView};
use crate::card::{started_view, upsert_of};
use crate::lifecycle::{emit_spine_ui_invalidation, is_forwarded, RetainedOutput};
use crate::lineage::{RetainedCommand, RetainedCommandView, RetainedManager, RetainedManagerView};
use crate::protocol::ThreadId;
use crate::text::text_view;
use vstd::prelude::*;

verus! {

/// Work for a thread's listener. A goal and a request's identity are kept in their serialised form.
pub enum ThreadListenerCommand {
    /// Answer a request to resume the running thread.
    SendThreadResumeResponse,
    EmitThreadGoalUpdated { turn_id: Option<String>, goal: String },
    EmitThreadGoalCleared,
    EmitThreadGoalSnapshot,
    ResolveServerRequest { request_id: String },
    Card(RetainedCommand),
}

/// What is left to do outside.
pub enum CommandAction {
    /// Compose and send the answer to a resume request.
    AnswerResume,
    /// Tell every client about the goal.
    TellGoal(GoalNotification),
    /// Read the goal and tell every client what was read.
    ReadGoal,
    /// Tell the thread's connections that a request is resolved, and then who waits for it.
    TellResolved { thread_id: String, request_id: String },
    /// Announce, store and send on.
    Cards(RetainedOutput),
}

/// What a command is about.
pub open spec fn is_handled(
    before: RetainedManagerView,
    after: RetainedManagerView,
    r: CommandAction,
    thread_id: ThreadId,
    thread_name: Seq<char>,
    command: ThreadListenerCommand,
) -> bool {
    match command {
        ThreadListenerCommand::SendThreadResumeResponse => r is AnswerResume && after == before,
        ThreadListenerCommand::EmitThreadGoalUpdated { turn_id, goal } => {
            &&& r matches CommandAction::TellGoal(told)
            &&& told@ == (GoalNotificationView::Updated {
                thread_id: thread_name,
                turn_id: text_view(turn_id),
                goal: goal@,
            })
            &&& after == before
        },
        ThreadListenerCommand::EmitThreadGoalCleared => {
            &&& r matches CommandAction::TellGoal(told)
            &&& told@ == (GoalNotificationView::Cleared { cleared_thread_id: thread_name })
            &&& after == before
        },
        ThreadListenerCommand::EmitThreadGoalSnapshot => r is ReadGoal && after == before,
        ThreadListenerCommand::ResolveServerRequest { request_id } => {
            &&& r matches CommandAction::TellResolved { thread_id: told, request_id: resolved }
            &&& told@ == thread_name
            &&& resolved@ == request_id@
            &&& after == before
        },
        ThreadListenerCommand::Card(command) => {
            &&& r matches CommandAction::Cards(output)
            &&& match command@ {
                RetainedCommandView::ForwardSpineUiAgentState {
                    child_thread_id,
                    parent_turn_id,
                    generation,
                    state,
                    terminal,
                } => is_forwarded(
                    before,
                    after,
                    output,
                    thread_id,
                    thread_name,
                    child_thread_id,
                    parent_turn_id,
                    generation,
                    state,
                    terminal,
                ),
                RetainedCommandView::EmitSpineUiInvalidation { turn_id, card } => {
                    &&& started_view(output.started) == upsert_of(thread_name, turn_id, card)
                    &&& output.completed@.len() == 0
                    &&& output.sent@.len() == 0
                    &&& after == before
                },
            }
        },
    }
}

impl RetainedManager {
    /// Handles a command to a thread's listener, and says what is left to do.
    pub fn handle_thread_listener_command(
        &mut self,
        thread_id: ThreadId,
        thread_name: &str,
        command: ThreadListenerCommand,
    ) -> (r: CommandAction)
        ensures
            is_handled(old(self)@, final(self)@, r, thread_id, thread_name@, command),
    {
        match command {
            ThreadListenerCommand::SendThreadResumeResponse => CommandAction::AnswerResume,
            ThreadListenerCommand::EmitThreadGoalUpdated {
                turn_id,
                goal,
            } => CommandAction::TellGoal(
                GoalNotification::Updated { thread_id: thread_name.to_owned(), turn_id, goal },
            ),
            ThreadListenerCommand::EmitThreadGoalCleared => CommandAction::TellGoal(
                GoalNotification::Cleared { cleared_thread_id: thread_name.to_owned() },
            ),
            ThreadListenerCommand::EmitThreadGoalSnapshot => CommandAction::ReadGoal,
            ThreadListenerCommand::ResolveServerRequest {
                request_id,
            } => CommandAction::TellResolved { thread_id: thread_name.to_owned(), request_id },
            ThreadListenerCommand::Card(command) => match command {
                RetainedCommand::ForwardSpineUiAgentState {
                    child_thread_id,
                    parent_turn_id,
                    generation,
                    state,
                    terminal,
                } => CommandAction::Cards(
                    self.forward_agent_state(
                        thread_id,
                        thread_name,
                        child_thread_id,
                        parent_turn_id.as_str(),
                        generation,
                        state,
                        terminal,
                    ),
                ),
                RetainedCommand::EmitSpineUiInvalidation { turn_id, card } => {
                    let started = emit_spine_ui_invalidation(thread_name, turn_id.as_str(), &card);
                    CommandAction::Cards(
                        RetainedOutput { started, completed: Vec::new(), sent: Vec::new() },
                    )
                },
            },
        }
    }
}

} // verus!
