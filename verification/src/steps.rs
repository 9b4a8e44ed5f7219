//! The order in which a listener handles an event.
use crate::events::{Event, EventMsg};
use crate::lifecycle::ends_turn;
use vstd::prelude::*;

verus! {

/// What a listener does next with an event.
#[derive(Clone, Copy, PartialEq, Eq, Structural, Debug)]
pub enum EventStep {
    /// Note that the event has begun.
    Begin,
    /// Wait until the children of the turn have ended or the time for it is over, and enter what
    /// came of it in the turn's card.
    AwaitChildren,
    /// Follow the event, given what the turn history reports after it.
    Follow,
    /// Take the stored cards of the ancestors back, drop the thread's cards and store what changed
    /// on the cards of the ancestors.
    RollBack,
    /// Tell the clients.
    Translate,
    /// Tell the parent, and end what ends with the event.
    Finish,
    Done,
}

/// The step after another. `passes` says whether the event goes on to the clients.
pub open spec fn next_step(
    step: EventStep,
    event: EventMsg,
    enabled: bool,
    passes: bool,
) -> EventStep {
    match step {
        EventStep::Begin => if enabled && ends_turn(event) {
            EventStep::AwaitChildren
        } else {
            EventStep::Follow
        },
        EventStep::AwaitChildren => EventStep::Follow,
        EventStep::Follow => if enabled && event is ThreadRolledBack {
            EventStep::RollBack
        } else if passes {
            EventStep::Translate
        } else {
            EventStep::Done
        },
        EventStep::RollBack => if passes {
            EventStep::Translate
        } else {
            EventStep::Done
        },
        EventStep::Translate => EventStep::Finish,
        EventStep::Finish => EventStep::Done,
        EventStep::Done => EventStep::Done,
    }
}

/// The step some steps after the first.
pub open spec fn nth_step(n: nat, event: EventMsg, enabled: bool, passes: bool) -> EventStep
    decreases n,
{
    if n == 0 {
        EventStep::Begin
    } else {
        next_step(nth_step((n - 1) as nat, event, enabled, passes), event, enabled, passes)
    }
}

impl EventStep {
    /// The next step. Children are awaited and a rollback is carried upwards only while the card is
    /// on.
    pub fn after(self, event: &Event, enabled: bool, passes: bool) -> (r: EventStep)
        ensures
            r == next_step(self, event.msg, enabled, passes),
    {
        match self {
            EventStep::Begin => {
                let ends = match &event.msg {
                    EventMsg::TurnComplete => true,
                    EventMsg::TurnAborted { .. } => true,
                    _ => false,
                };
                if enabled && ends {
                    EventStep::AwaitChildren
                } else {
                    EventStep::Follow
                }
            },
            EventStep::AwaitChildren => EventStep::Follow,
            EventStep::Follow => {
                let rolled_back = match &event.msg {
                    EventMsg::ThreadRolledBack => true,
                    _ => false,
                };
                if enabled && rolled_back {
                    EventStep::RollBack
                } else if passes {
                    EventStep::Translate
                } else {
                    EventStep::Done
                }
            },
            EventStep::RollBack => if passes {
                EventStep::Translate
            } else {
                EventStep::Done
            },
            EventStep::Translate => EventStep::Finish,
            EventStep::Finish => EventStep::Done,
            EventStep::Done => EventStep::Done,
        }
    }
}

/// Every event is handled to its end, in a handful of steps.
pub proof fn lemma_every_event_is_handled(event: EventMsg, enabled: bool, passes: bool)
    ensures
        nth_step(6, event, enabled, passes) == EventStep::Done,
{
    reveal_with_fuel(nth_step, 7);
}

/// Every event is followed, and what happens to a turn's children at its end is on the card before
/// the end is followed.
pub proof fn lemma_children_come_before_the_end(event: EventMsg, enabled: bool, passes: bool)
    ensures
        enabled && ends_turn(event) ==> nth_step(1, event, enabled, passes)
            == EventStep::AwaitChildren && nth_step(2, event, enabled, passes) == EventStep::Follow,
        !(enabled && ends_turn(event)) ==> nth_step(1, event, enabled, passes) == EventStep::Follow,
{
    reveal_with_fuel(nth_step, 3);
}

/// The clients see an event exactly where it passes, and nobody upwards hears of one that does not.
pub proof fn lemma_clients_see_what_passes(event: EventMsg, enabled: bool, passes: bool, n: nat)
    ensures
        !passes ==> nth_step(n, event, enabled, passes) != EventStep::Translate && nth_step(
            n,
            event,
            enabled,
            passes,
        ) != EventStep::Finish,
        passes ==> exists|k: nat|
            k <= 4 && #[trigger] nth_step(k, event, enabled, passes) == EventStep::Translate,
    decreases n,
{
    if n > 0 {
        lemma_clients_see_what_passes(event, enabled, passes, (n - 1) as nat);
    }
    reveal_with_fuel(nth_step, 5);
    if passes {
        let k: nat = if enabled && (ends_turn(event) || event is ThreadRolledBack) {
            3
        } else {
            2
        };
        assert(nth_step(k, event, enabled, passes) == EventStep::Translate);
    }
}

} // verus!
