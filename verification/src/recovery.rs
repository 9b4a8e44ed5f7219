//! How stored cards of ancestors come back before a rollback, and how changed ones are stored.
use crate::card::{
    completed_view, item_of, item_view, snapshot_core_item, CardItem, CompletedView,
    ItemCompletedNotification, McpToolCallStatus, OutcomeView, SpineUiTerminalOutcome,
};
use crate::keyed::{views, KeySet};
use crate::lineage::{RetainedManager, RetainedManagerView, SpineUiCompletedUpdate, UpdateView};
use crate::protocol::ThreadId;
use crate::retained::{CardView, TurnCard};
use vstd::prelude::*;

verus! {

/// A walk from a thread up to its ancestors.
pub struct AncestorWalk {
    /// The thread whose stored mentions are looked for.
    pub child: ThreadId,
    pub parent: Option<ThreadId>,
    pub visited: KeySet<ThreadId>,
}

pub struct WalkView {
    pub child: ThreadId,
    pub parent: Option<ThreadId>,
    pub visited: Set<ThreadId>,
}

impl View for AncestorWalk {
    type V = WalkView;

    open spec fn view(&self) -> WalkView {
        WalkView { child: self.child, parent: self.parent, visited: self.visited@ }
    }
}

/// What a walk does next.
#[derive(Clone, Copy, PartialEq, Eq, Structural, Debug)]
pub enum WalkStep {
    /// Read the stored history of this thread.
    Read(ThreadId),
    /// The ancestors form a cycle through this thread.
    Cyclic(ThreadId),
    Done,
}

impl WalkView {
    pub open spec fn next_step(self) -> WalkStep {
        match self.parent {
            Some(parent) => if self.visited.contains(parent) {
                WalkStep::Cyclic(parent)
            } else {
                WalkStep::Read(parent)
            },
            None => WalkStep::Done,
        }
    }

    /// The walk once its next thread is about to be read.
    pub open spec fn after_step(self) -> WalkView {
        match self.parent {
            Some(parent) => WalkView { visited: self.visited.insert(parent), ..self },
            None => self,
        }
    }

    /// The walk one thread further up.
    pub open spec fn climbed(self, grandparent: Option<ThreadId>) -> WalkView {
        match self.parent {
            Some(parent) => WalkView { child: parent, parent: grandparent, ..self },
            None => self,
        }
    }
}

impl RetainedManagerView {
    /// The manager once some stored cards of a parent are back.
    pub open spec fn with_all_restored(
        self,
        parent: ThreadId,
        cards: Seq<CardView>,
    ) -> RetainedManagerView
        decreases cards.len(),
    {
        if cards.len() == 0 {
            self
        } else {
            self.with_all_restored(parent, cards.drop_last()).with_restored(
                parent,
                cards.last().turn_id,
                cards.last().state,
            )
        }
    }
}

impl AncestorWalk {
    pub fn new(child: ThreadId, parent: Option<ThreadId>) -> (r: Self)
        ensures
            r@ == (WalkView { child, parent, visited: Set::empty() }),
    {
        AncestorWalk { child, parent, visited: KeySet::new() }
    }

    /// What comes next.
    pub fn next_step(&mut self) -> (r: WalkStep)
        ensures
            r == old(self)@.next_step(),
            final(self)@ == old(self)@.after_step(),
    {
        match self.parent {
            Some(parent) => {
                if self.visited.insert(parent) {
                    WalkStep::Read(parent)
                } else {
                    assert(self@.visited =~= old(self)@.visited);
                    WalkStep::Cyclic(parent)
                }
            },
            None => WalkStep::Done,
        }
    }

    /// Takes the stored cards that mention the child back into the manager and goes one thread up.
    pub fn climb(
        &mut self,
        manager: &mut RetainedManager,
        cards: Vec<TurnCard>,
        grandparent: Option<ThreadId>,
    )
        ensures
            final(self)@ == old(self)@.climbed(grandparent),
            final(manager)@ == (match old(self)@.parent {
                Some(parent) => old(manager)@.with_all_restored(parent, views(cards@)),
                None => old(manager)@,
            }),
    {
        match self.parent {
            Some(parent) => {
                let ghost start = manager@;
                let ghost all = views(cards@);
                let mut i: usize = 0;
                assert(all.take(0) =~= Seq::empty());
                while i < cards.len()
                    invariant
                        i <= cards.len(),
                        all == views(cards@),
                        manager@ == start.with_all_restored(parent, all.take(i as int)),
                    decreases cards.len() - i,
                {
                    proof {
                        assert(all.take(i + 1).drop_last() =~= all.take(i as int));
                        assert(all[i as int] == cards@[i as int]@);
                    }
                    manager.restore_spine_ui_completed_state(
                        parent,
                        cards[i].turn_id.clone(),
                        cards[i].state.copy_state(),
                    );
                    i += 1;
                }
                assert(all.take(i as int) =~= all);
                self.child = parent;
                self.parent = grandparent;
            },
            None => {},
        }
    }
}

/// A walk reads no thread twice: every thread that it reads is new to it, and known from then on.
pub proof fn lemma_walk_reads_each_thread_once(walk: WalkView, thread_id: ThreadId)
    requires
        walk.next_step() == WalkStep::Read(thread_id),
    ensures
        !walk.visited.contains(thread_id),
        walk.after_step().visited.contains(thread_id),
        forall|grandparent: Option<ThreadId>| #[trigger]
            walk.after_step().climbed(grandparent).next_step() != WalkStep::Read(thread_id),
{
}

/// How a changed completed card is stored.
#[derive(Clone, Copy, PartialEq, Eq, Structural, Debug)]
pub enum CardStorage {
    /// Append it through the thread, which is loaded.
    ThroughThread,
    /// Append it to the stored history of the thread, which is not loaded.
    ToStoredHistory,
    /// The thread is not loaded and could not be read.
    Unreadable,
    /// The thread is not loaded and has no local history.
    NoLocalHistory,
}

/// The item that a changed completed card is stored and announced as; none before its first tree.
pub fn completed_update_item(update: &SpineUiCompletedUpdate) -> (r: Option<CardItem>)
    ensures
        item_view(r) == item_of(
            update@.turn_id,
            update@.state,
            McpToolCallStatus::Completed,
            Some(OutcomeView::Completed),
        ),
{
    let outcome = SpineUiTerminalOutcome::Completed;
    snapshot_core_item(
        update.turn_id.as_str(),
        &update.state,
        McpToolCallStatus::Completed,
        Some(&outcome),
    )
}

/// The completed card with the time of its completion: its own, else the time of the announcement.
pub open spec fn completed_update_of(
    update: UpdateView,
    thread_name: Seq<char>,
    now: i64,
) -> Option<CompletedView> {
    match item_of(
        update.turn_id,
        update.state,
        McpToolCallStatus::Completed,
        Some(OutcomeView::Completed),
    ) {
        Some(item) => Some(
            CompletedView {
                item,
                thread_id: thread_name,
                turn_id: update.turn_id,
                completed_at_ms: match update.state.completed_at_ms {
                    Some(completed_at_ms) => completed_at_ms,
                    None => now,
                },
            },
        ),
        None => None,
    }
}

/// The notification that announces a changed completed card: owed wherever the card is stored.
pub fn completed_update_notification(
    update: &SpineUiCompletedUpdate,
    thread_name: &str,
    now: i64,
) -> (r: Option<ItemCompletedNotification>)
    ensures
        completed_view(r) == completed_update_of(update@, thread_name@, now),
{
    match completed_update_item(update) {
        Some(item) => {
            let completed_at_ms = match update.state.completed_at_ms {
                Some(completed_at_ms) => completed_at_ms,
                None => now,
            };
            Some(
                ItemCompletedNotification {
                    item,
                    thread_id: thread_name.to_owned(),
                    turn_id: update.turn_id.clone(),
                    completed_at_ms,
                },
            )
        },
        None => None,
    }
}

/// How a changed completed card is stored. `stored_history` is what reading a thread that is not
/// loaded gave: nothing, or whether it has a local history.
pub fn completed_update_storage(loaded: bool, stored_history: Option<bool>) -> (r: CardStorage)
    ensures
        r == (if loaded {
            CardStorage::ThroughThread
        } else {
            match stored_history {
                Some(true) => CardStorage::ToStoredHistory,
                Some(false) => CardStorage::NoLocalHistory,
                None => CardStorage::Unreadable,
            }
        }),
{
    if loaded {
        return CardStorage::ThroughThread;
    }
    match stored_history {
        Some(local) => if local {
            CardStorage::ToStoredHistory
        } else {
            CardStorage::NoLocalHistory
        },
        None => CardStorage::Unreadable,
    }
}

} // verus!
