//! The wait for the final states of a turn's children.
//!
//! When a parent's turn ends, its card waits for every child that the turn spawned. The children are
//! taken in order; once the time is over, a child without a final state is reported as late and its
//! latest card is used.
use crate::keyed::{lemma_take_contains, views, KeySet};
use crate::lineage::{
    projected_option, RetainedManager, RetainedManagerView, RouteTerminal, RouteTerminalView,
};
use crate::live::state_view;
use crate::protocol::ThreadId;
use crate::state::{SpineUiState, StateView};
use crate::text::same_text;
use vstd::prelude::*;

verus! {

/// A child that a turn waits for.
pub struct WaitedChild {
    pub child: ThreadId,
    pub generation: u64,
    pub baseline_node_ids: KeySet<String>,
}

pub struct WaitedView {
    pub child: ThreadId,
    pub generation: u64,
    pub baseline: Set<Seq<char>>,
}

impl View for WaitedChild {
    type V = WaitedView;

    open spec fn view(&self) -> WaitedView {
        WaitedView {
            child: self.child,
            generation: self.generation,
            baseline: self.baseline_node_ids@,
        }
    }
}

/// The card of a child at the end of the wait for it.
pub struct ChildEnd {
    pub child: ThreadId,
    pub generation: u64,
    pub state: Option<SpineUiState>,
}

pub struct EndView {
    pub child: ThreadId,
    pub generation: u64,
    pub state: Option<StateView>,
}

impl View for ChildEnd {
    type V = EndView;

    open spec fn view(&self) -> EndView {
        EndView {
            child: self.child,
            generation: self.generation,
            state: state_view(self.state),
        }
    }
}

/// The wait of a turn for its children.
pub struct TerminalBarrier {
    pub parent: ThreadId,
    pub turn_id: String,
    /// The children that are still waited for.
    pub waiting: Vec<WaitedChild>,
    pub states: Vec<ChildEnd>,
    /// The children whose final states did not come in time.
    pub timed_out: Vec<(ThreadId, u64)>,
}

pub struct BarrierView {
    pub parent: ThreadId,
    pub turn_id: Seq<char>,
    pub waiting: Seq<WaitedView>,
    pub states: Seq<EndView>,
    pub timed_out: Seq<(ThreadId, u64)>,
}

impl View for TerminalBarrier {
    type V = BarrierView;

    open spec fn view(&self) -> BarrierView {
        BarrierView {
            parent: self.parent,
            turn_id: self.turn_id@,
            waiting: views(self.waiting@),
            states: views(self.states@),
            timed_out: self.timed_out@,
        }
    }
}

impl RetainedManagerView {
    /// Whether a turn waits for a child: the child is known and its route leads to the turn.
    pub open spec fn waits_for(self, parent: ThreadId, turn_id: Seq<char>, child: ThreadId) -> bool {
        self.leads_to(child, parent, turn_id) && self.threads.contains_key(child)
    }

    /// A child with the route that it has.
    pub open spec fn waited(self, child: ThreadId) -> WaitedView {
        WaitedView {
            child,
            generation: self.routes[child].generation,
            baseline: self.routes[child].baseline,
        }
    }
}

impl BarrierView {
    /// Where the first child's route stands.
    pub open spec fn first_terminal(self, manager: RetainedManagerView) -> RouteTerminalView {
        manager.route_terminal(
            self.waiting[0].child,
            self.parent,
            self.turn_id,
            self.waiting[0].generation,
        )
    }

    /// Whether the first child is still waited for.
    pub open spec fn blocked(self, manager: RetainedManagerView, time_over: bool) -> bool {
        self.waiting.len() > 0 && self.first_terminal(manager) is Pending && !time_over
    }

    /// The barrier once the first child is done with.
    pub open spec fn past_first(self, manager: RetainedManagerView) -> BarrierView {
        let first = self.waiting[0];
        let terminal = self.first_terminal(manager);
        let late = terminal is Pending || terminal is TimedOut;
        BarrierView {
            waiting: self.waiting.drop_first(),
            states: self.states.push(
                EndView {
                    child: first.child,
                    generation: first.generation,
                    state: match terminal {
                        RouteTerminalView::Settled(state) => state,
                        RouteTerminalView::Invalidated => None,
                        _ => projected_option(manager.forwarded(first.child), first.baseline),
                    },
                },
            ),
            timed_out: if late {
                self.timed_out.push((first.child, first.generation))
            } else {
                self.timed_out
            },
            ..self
        }
    }

    /// The manager once the first child is done with. A child that was still waited for is late.
    pub open spec fn manager_past_first(
        self,
        manager: RetainedManagerView,
        now: u64,
    ) -> RetainedManagerView {
        manager.timed_out(
            self.waiting[0].child,
            self.parent,
            self.turn_id,
            self.waiting[0].generation,
            now,
        )
    }

    /// The barrier and the manager once every child up to the first blocked one is done with.
    pub open spec fn advanced(
        self,
        manager: RetainedManagerView,
        time_over: bool,
        now: u64,
    ) -> (BarrierView, RetainedManagerView)
        decreases self.waiting.len(),
    {
        if self.waiting.len() == 0 || self.blocked(manager, time_over) {
            (self, manager)
        } else {
            self.past_first(manager).advanced(
                self.manager_past_first(manager, now),
                time_over,
                now,
            )
        }
    }
}

/// Once the time is over, no child is waited for any more.
pub proof fn lemma_time_over_ends_the_wait(
    barrier: BarrierView,
    manager: RetainedManagerView,
    now: u64,
)
    ensures
        barrier.advanced(manager, true, now).0.waiting.len() == 0,
        barrier.advanced(manager, true, now).0.states.len() == barrier.states.len()
            + barrier.waiting.len(),
    decreases barrier.waiting.len(),
{
    if barrier.waiting.len() > 0 {
        lemma_time_over_ends_the_wait(
            barrier.past_first(manager),
            barrier.manager_past_first(manager, now),
            now,
        );
    }
}

impl TerminalBarrier {
    /// Starts the wait of a turn for its children.
    pub fn new(manager: &RetainedManager, parent: ThreadId, turn_id: &str) -> (r: Self)
        ensures
            r@.parent == parent,
            r@.turn_id == turn_id@,
            r@.states == Seq::<EndView>::empty(),
            r@.timed_out == Seq::<(ThreadId, u64)>::empty(),
            forall|k: int|
                0 <= k < r@.waiting.len() ==> (#[trigger] r@.waiting[k]) == manager@.waited(
                    r@.waiting[k].child,
                ) && manager@.waits_for(parent, turn_id@, r@.waiting[k].child),
            forall|i: int, j: int|
                0 <= i < j < r@.waiting.len() ==> (#[trigger] r@.waiting[i]).child != (
                #[trigger] r@.waiting[j]).child,
            forall|c: ThreadId| #[trigger]
                manager@.waits_for(parent, turn_id@, c) ==> r@.waiting.contains(
                    manager@.waited(c),
                ),
    {
        let children = manager.routes.keys();
        let mut waiting: Vec<WaitedChild> = Vec::new();
        let mut i: usize = 0;
        proof {
            assert(views(children@) =~= children@);
            assert(children@.take(0) =~= Seq::empty());
        }
        while i < children.len()
            invariant
                i <= children.len(),
                children@.no_duplicates(),
                forall|c: ThreadId| #[trigger]
                    children@.contains(c) == manager@.routes.contains_key(c),
                forall|k: int|
                    0 <= k < waiting@.len() ==> (#[trigger] waiting@[k])@ == manager@.waited(
                        waiting@[k].child,
                    ) && manager@.waits_for(parent, turn_id@, waiting@[k].child)
                        && children@.take(i as int).contains(waiting@[k].child),
                forall|a: int, b: int|
                    0 <= a < b < waiting@.len() ==> (#[trigger] waiting@[a]).child != (
                    #[trigger] waiting@[b]).child,
                forall|c: ThreadId| #[trigger]
                    children@.take(i as int).contains(c) && manager@.waits_for(parent, turn_id@, c)
                        ==> views(waiting@).contains(manager@.waited(c)),
            decreases children.len() - i,
        {
            let child = children[i];
            let ghost before = waiting@;
            proof {
                lemma_take_contains(children@, i as int);
                assert(children@.contains(child));
            }
            if manager.threads.contains_key(&child) {
                match manager.routes.get(&child) {
                    Some(route) => {
                        if route.parent_thread_id == parent && same_text(
                            route.parent_turn_id.as_str(),
                            turn_id,
                        ) {
                            waiting.push(
                                WaitedChild {
                                    child,
                                    generation: route.generation,
                                    baseline_node_ids: route.baseline_node_ids.copy_set(),
                                },
                            );
                        }
                    },
                    None => {},
                }
            }
            proof {
                assert forall|c: ThreadId| #[trigger]
                    children@.take(i + 1).contains(c) && manager@.waits_for(
                        parent,
                        turn_id@,
                        c,
                    ) implies views(waiting@).contains(manager@.waited(c)) by {
                    if children@.take(i as int).contains(c) {
                        assert(views(before).contains(manager@.waited(c)));
                        let k = choose|k: int|
                            0 <= k < views(before).len() && views(before)[k] == manager@.waited(c);
                        assert(views(waiting@)[k] == manager@.waited(c));
                    } else {
                        assert(c == child);
                        assert(views(waiting@)[before.len() as int] == manager@.waited(c));
                    }
                }
            }
            i += 1;
        }
        assert(children@.take(i as int) =~= children@);
        let r = TerminalBarrier {
            parent,
            turn_id: turn_id.to_owned(),
            waiting,
            states: Vec::new(),
            timed_out: Vec::new(),
        };
        proof {
            assert(r@.states =~= Seq::empty());
            assert forall|c: ThreadId| #[trigger]
                manager@.waits_for(parent, turn_id@, c) implies r@.waiting.contains(
                manager@.waited(c),
            ) by {
                assert(children@.contains(c));
                assert(children@.take(i as int).contains(c));
            }
        }
        r
    }

    /// Goes on with the wait. Says whether it is over.
    pub fn advance(
        &mut self,
        manager: &mut RetainedManager,
        time_over: bool,
        now: u64,
    ) -> (finished: bool)
        ensures
            (final(self)@, final(manager)@) == old(self)@.advanced(old(manager)@, time_over, now),
            finished == (final(self)@.waiting.len() == 0),
    {
        let ghost goal = self@.advanced(manager@, time_over, now);
        while self.waiting.len() > 0
            invariant
                self@.advanced(manager@, time_over, now) == goal,
                goal == old(self)@.advanced(old(manager)@, time_over, now),
            decreases self.waiting@.len(),
        {
            let ghost before = self@;
            let ghost known = manager@;
            assert(before.waiting[0] == self.waiting@[0]@);
            let child = self.waiting[0].child;
            let generation = self.waiting[0].generation;
            let terminal = manager.spine_ui_route_terminal(
                child,
                self.parent,
                self.turn_id.as_str(),
                generation,
            );
            let mut late = false;
            let mut state: Option<SpineUiState> = None;
            match terminal {
                RouteTerminal::Pending => {
                    if !time_over {
                        return false;
                    }
                    late = true;
                    let _ = manager.mark_spine_ui_route_timed_out(
                        child,
                        self.parent,
                        self.turn_id.as_str(),
                        generation,
                        now,
                    );
                },
                RouteTerminal::TimedOut => {
                    late = true;
                },
                RouteTerminal::Settled(end) => {
                    state = end;
                },
                RouteTerminal::Invalidated => {},
            }
            assert(manager@ == before.manager_past_first(known, now));
            let first = self.waiting.remove(0);
            assert(views(self.waiting@) =~= before.waiting.drop_first());
            if late {
                self.timed_out.push((child, generation));
                state =
                match manager.spine_ui_state_for_thread(child) {
                    Some(s) => Some(s.filtered_for_parent(&first.baseline_node_ids)),
                    None => None,
                };
            }
            let end = ChildEnd { child, generation, state };
            let ghost ev = end@;
            self.states.push(end);
            assert(views(self.states@) =~= before.states.push(ev));
            assert(self@ == before.past_first(known));
        }
        true
    }
}

} // verus!
