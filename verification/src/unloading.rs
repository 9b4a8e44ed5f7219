//! When an idle thread without subscribers is unloaded.
//!
//! Instants are milliseconds of a clock that never goes back. An instant past the end of the clock's
//! range is the end of the range.
use crate::keyed::KeySet;
use crate::lineage::RetainedManager;
use crate::protocol::ThreadId;
use vstd::prelude::*;

verus! {

/// How long a thread stays idle and without subscribers before it is unloaded.
pub const THREAD_UNLOADING_DELAY_MS: u64 = 1_800_000;

/// How long an unload waits before it is tried again.
pub const THREAD_UNLOADING_RETRY_DELAY_MS: u64 = 1_000;

/// How long a turn's end waits for the final states of its children.
pub const SPINE_UI_TERMINAL_BARRIER_TIMEOUT_MS: u64 = 10_000;

/// An instant a while after another.
pub open spec fn later(instant: u64, delay: u64) -> u64 {
    if instant + delay <= u64::MAX {
        (instant + delay) as u64
    } else {
        u64::MAX
    }
}

/// The later of two instants.
pub open spec fn latest(a: u64, b: u64) -> u64 {
    if a >= b {
        a
    } else {
        b
    }
}

/// A condition and since when it holds.
#[derive(Clone, Copy, PartialEq, Eq, Structural, Debug)]
pub struct Since {
    pub holds: bool,
    pub since: u64,
}

/// What is known about a thread's subscribers and its activity.
#[derive(Clone, Copy, PartialEq, Eq, Structural, Debug)]
pub struct UnloadingState {
    pub delay: u64,
    pub has_subscribers: Since,
    pub is_active: Since,
    pub retry_not_before: Option<u64>,
}

/// What to wait for next.
#[derive(Clone, Copy, PartialEq, Eq, Structural, Debug)]
pub enum UnloadingWait {
    /// The time has come.
    Due,
    /// The time comes at an instant, unless something changes before.
    Until(u64),
    /// Only a change can make the time come.
    Change,
}

/// A condition after it was looked at.
pub open spec fn seen(known: Since, holds: bool, now: u64) -> Since {
    if known.holds == holds {
        known
    } else {
        Since { holds, since: now }
    }
}

impl UnloadingState {
    /// When the thread is to be unloaded: a delay after it became idle and lost its last subscriber,
    /// and not before a retry is allowed.
    pub open spec fn target(self) -> Option<u64> {
        if self.has_subscribers.holds || self.is_active.holds {
            None
        } else {
            let idle = later(
                latest(self.has_subscribers.since, self.is_active.since),
                self.delay,
            );
            match self.retry_not_before {
                Some(retry) => Some(latest(idle, retry)),
                None => Some(idle),
            }
        }
    }

    /// The state after the subscribers and the activity were looked at. A change allows a retry.
    pub open spec fn synced(self, subscribed: bool, active: bool, now: u64) -> UnloadingState {
        UnloadingState {
            has_subscribers: seen(self.has_subscribers, subscribed, now),
            is_active: seen(self.is_active, active, now),
            retry_not_before: if self.has_subscribers.holds == subscribed && self.is_active.holds
                == active {
                self.retry_not_before
            } else {
                None
            },
            ..self
        }
    }

    /// Whether the time to unload has come.
    pub open spec fn due(self, now: u64) -> bool {
        match self.target() {
            Some(target) => target <= now,
            None => false,
        }
    }

    /// The state after the thread turned out to be busy.
    pub open spec fn observed_active(self, now: u64) -> UnloadingState {
        UnloadingState {
            retry_not_before: None,
            is_active: if self.is_active.holds {
                self.is_active
            } else {
                Since { holds: false, since: now }
            },
            ..self
        }
    }

    pub fn new(delay: u64, subscribed: bool, active: bool, now: u64) -> (r: Self)
        ensures
            r == (UnloadingState {
                delay,
                has_subscribers: Since { holds: subscribed, since: now },
                is_active: Since { holds: active, since: now },
                retry_not_before: None,
            }),
    {
        UnloadingState {
            delay,
            has_subscribers: Since { holds: subscribed, since: now },
            is_active: Since { holds: active, since: now },
            retry_not_before: None,
        }
    }

    /// When the thread is to be unloaded.
    pub fn unloading_target(&self) -> (r: Option<u64>)
        ensures
            r == self.target(),
    {
        if self.has_subscribers.holds || self.is_active.holds {
            return None;
        }
        let idle_since = if self.has_subscribers.since >= self.is_active.since {
            self.has_subscribers.since
        } else {
            self.is_active.since
        };
        let target = idle_since.saturating_add(self.delay);
        match self.retry_not_before {
            Some(retry) => if target >= retry {
                Some(target)
            } else {
                Some(retry)
            },
            None => Some(target),
        }
    }

    /// Looks at the subscribers and the activity.
    pub fn sync_receiver_values(&mut self, subscribed: bool, active: bool, now: u64)
        ensures
            *final(self) == old(self).synced(subscribed, active, now),
    {
        if self.has_subscribers.holds != subscribed {
            self.has_subscribers = Since { holds: subscribed, since: now };
            self.retry_not_before = None;
        }
        if self.is_active.holds != active {
            self.is_active = Since { holds: active, since: now };
            self.retry_not_before = None;
        }
    }

    /// Looks at the subscribers and the activity. Says whether the time to unload has come.
    pub fn should_unload_now(&mut self, subscribed: bool, active: bool, now: u64) -> (r: bool)
        ensures
            *final(self) == old(self).synced(subscribed, active, now),
            r == final(self).due(now),
    {
        self.sync_receiver_values(subscribed, active, now);
        match self.unloading_target() {
            Some(target) => target <= now,
            None => false,
        }
    }

    /// Notes that the thread is busy after all. An idle thread's delay starts anew.
    pub fn note_thread_activity_observed(&mut self, now: u64)
        ensures
            *final(self) == old(self).observed_active(now),
    {
        self.retry_not_before = None;
        if !self.is_active.holds {
            self.is_active = Since { holds: false, since: now };
        }
    }

    /// Puts the unload off for a short while. The idle delay goes on.
    pub fn retry_unload_soon(&mut self, now: u64)
        ensures
            *final(self) == (UnloadingState {
                retry_not_before: Some(later(now, THREAD_UNLOADING_RETRY_DELAY_MS)),
                ..*old(self)
            }),
    {
        self.retry_not_before = Some(now.saturating_add(THREAD_UNLOADING_RETRY_DELAY_MS));
    }

    /// Looks at the subscribers and the activity, and says what to wait for.
    pub fn wait_for_unloading_trigger(
        &mut self,
        subscribed: bool,
        active: bool,
        now: u64,
    ) -> (r: UnloadingWait)
        ensures
            *final(self) == old(self).synced(subscribed, active, now),
            match r {
                UnloadingWait::Due => final(self).due(now),
                UnloadingWait::Until(at) => final(self).target() == Some(at) && now < at,
                UnloadingWait::Change => final(self).target() is None,
            },
    {
        self.sync_receiver_values(subscribed, active, now);
        match self.unloading_target() {
            Some(target) => if target <= now {
                UnloadingWait::Due
            } else {
                UnloadingWait::Until(target)
            },
            None => UnloadingWait::Change,
        }
    }
}

/// Whether a due unload goes on to ask for the permit to change the list of threads. A thread whose
/// children may still end late, or whose agent runs, is busy.
pub fn unload_wants_permit(
    state: &mut UnloadingState,
    manager: &mut RetainedManager,
    thread_id: ThreadId,
    subscribed: bool,
    active: bool,
    agent_running: bool,
    now: u64,
) -> (r: bool)
    ensures
        ({
            let synced = old(state).synced(subscribed, active, now);
            let pruned = old(manager)@.without_expired(thread_id, now);
            if !synced.due(now) {
                !r && *final(state) == synced && final(manager)@ == old(manager)@
            } else if pruned.awaits_late(thread_id) || agent_running {
                !r && *final(state) == synced.observed_active(now) && final(manager)@ == pruned
            } else {
                r && *final(state) == synced && final(manager)@ == pruned
            }
        }),
{
    if !state.should_unload_now(subscribed, active, now) {
        return false;
    }
    if manager.has_timed_out_spine_ui_children(thread_id, now) {
        state.note_thread_activity_observed(now);
        return false;
    }
    if agent_running {
        state.note_thread_activity_observed(now);
        return false;
    }
    true
}

/// Whether an unload starts, given whether the permit was granted. A thread that is not being
/// unloaded already then is.
pub fn unload_starts(
    state: &mut UnloadingState,
    pending_unloads: &mut KeySet<ThreadId>,
    thread_id: ThreadId,
    permit: bool,
    subscribed: bool,
    active: bool,
    now: u64,
) -> (r: bool)
    ensures
        ({
            let synced = old(state).synced(subscribed, active, now);
            let unloading = old(pending_unloads)@.contains(thread_id);
            if !permit {
                &&& !r
                &&& *final(state) == (UnloadingState {
                    retry_not_before: Some(later(now, THREAD_UNLOADING_RETRY_DELAY_MS)),
                    ..*old(state)
                })
                &&& final(pending_unloads)@ == old(pending_unloads)@
            } else if unloading {
                !r && *final(state) == *old(state) && final(pending_unloads)@ == old(
                    pending_unloads,
                )@
            } else if !synced.due(now) {
                !r && *final(state) == synced && final(pending_unloads)@ == old(pending_unloads)@
            } else {
                r && *final(state) == synced && final(pending_unloads)@ == old(
                    pending_unloads,
                )@.insert(thread_id)
            }
        }),
{
    if !permit {
        state.retry_unload_soon(now);
        return false;
    }
    if pending_unloads.contains(&thread_id) {
        return false;
    }
    if !state.should_unload_now(subscribed, active, now) {
        return false;
    }
    let _ = pending_unloads.insert(thread_id);
    true
}

/// How the shutdown of a thread went.
#[derive(Clone, Copy, PartialEq, Eq, Structural, Debug)]
pub enum ThreadShutdownResult {
    Complete,
    SubmitFailed,
    TimedOut,
}

/// What is left to do after an unload.
#[derive(Clone, Copy, PartialEq, Eq, Structural, Debug)]
pub enum UnloadFinish {
    /// The thread is gone: stop watching it and tell the clients.
    Closed,
    /// The thread was gone before: only stop watching it.
    AlreadyRemoved,
    /// The thread stays loaded.
    StillLoaded,
}

/// Ends an unload, whatever came of it. `was_loaded` says whether the thread was still there to be
/// removed after its shutdown.
pub fn finish_unload(
    pending_unloads: &mut KeySet<ThreadId>,
    thread_id: ThreadId,
    result: ThreadShutdownResult,
    was_loaded: bool,
) -> (r: UnloadFinish)
    ensures
        final(pending_unloads)@ == old(pending_unloads)@.remove(thread_id),
        r == (match result {
            ThreadShutdownResult::Complete => if was_loaded {
                UnloadFinish::Closed
            } else {
                UnloadFinish::AlreadyRemoved
            },
            _ => UnloadFinish::StillLoaded,
        }),
{
    let _ = pending_unloads.remove(&thread_id);
    match result {
        ThreadShutdownResult::Complete => if was_loaded {
            UnloadFinish::Closed
        } else {
            UnloadFinish::AlreadyRemoved
        },
        ThreadShutdownResult::SubmitFailed => UnloadFinish::StillLoaded,
        ThreadShutdownResult::TimedOut => UnloadFinish::StillLoaded,
    }
}

/// A refused permit puts the unload off without starting the idle delay anew: the thread is due
/// again, on account of the same idle time, once the retry delay has passed.
pub proof fn lemma_refused_permit_keeps_the_idle_delay(state: UnloadingState, now: u64)
    requires
        state.due(now),
        now + THREAD_UNLOADING_RETRY_DELAY_MS <= u64::MAX,
    ensures
        ({
            let put_off = UnloadingState {
                retry_not_before: Some(later(now, THREAD_UNLOADING_RETRY_DELAY_MS)),
                ..state
            };
            &&& !put_off.due(now)
            &&& put_off.target() == Some((now + THREAD_UNLOADING_RETRY_DELAY_MS) as u64)
            &&& put_off.is_active == state.is_active
            &&& put_off.has_subscribers == state.has_subscribers
        }),
{
}

/// A thread with a subscriber or a running turn is never due.
pub proof fn lemma_busy_thread_is_never_due(state: UnloadingState, now: u64)
    requires
        state.has_subscribers.holds || state.is_active.holds,
    ensures
        !state.due(now),
{
}

} // verus!
