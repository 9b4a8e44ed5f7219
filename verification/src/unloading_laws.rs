//! When an idle thread is unloaded, seen over time.
use crate::unloading::{later, UnloadingState};
use vstd::prelude::*;

verus! {

/// A thread that is due has been without subscribers for the whole delay and idle for the whole
/// delay, and no retry is awaited.
pub proof fn lemma_due_thread_was_idle_for_the_delay(state: UnloadingState, now: u64)
    requires
        state.due(now),
    ensures
        !state.has_subscribers.holds,
        !state.is_active.holds,
        state.has_subscribers.since + state.delay <= now || now == u64::MAX,
        state.is_active.since + state.delay <= now || now == u64::MAX,
        state.has_subscribers.since + state.delay <= u64::MAX ==> state.has_subscribers.since
            + state.delay <= now,
        state.is_active.since + state.delay <= u64::MAX ==> state.is_active.since + state.delay
            <= now,
        state.retry_not_before matches Some(retry) ==> retry <= now,
{
}

/// A thread is due as soon as it has been without subscribers and idle for the whole delay, where no
/// retry is awaited.
pub proof fn lemma_idle_thread_is_due_after_the_delay(state: UnloadingState, now: u64)
    requires
        !state.has_subscribers.holds,
        !state.is_active.holds,
        state.has_subscribers.since + state.delay <= now,
        state.is_active.since + state.delay <= now,
        state.retry_not_before is Some ==> state.retry_not_before->0 <= now,
    ensures
        state.due(now),
{
}

/// What is waited for is the first instant at which the thread is due. Only a thread with a
/// subscriber or a running turn has none.
pub proof fn lemma_wait_ends_when_due(state: UnloadingState, now: u64)
    ensures
        state.target() is None == (state.has_subscribers.holds || state.is_active.holds),
        state.target() matches Some(at) ==> (state.due(now) == (at <= now)),
        state.target() is None ==> !state.due(now),
{
}

/// A look at a thread takes over what it sees. A condition that did not change holds since when it
/// did before; one that did holds since now, and lets a retry be forgotten. The delay stays.
pub proof fn lemma_looks_are_remembered(
    state: UnloadingState,
    subscribed: bool,
    active: bool,
    now: u64,
)
    ensures
        ({
            let after = state.synced(subscribed, active, now);
            let changed = state.has_subscribers.holds != subscribed || state.is_active.holds
                != active;
            &&& after.delay == state.delay
            &&& after.has_subscribers.holds == subscribed
            &&& after.is_active.holds == active
            &&& state.has_subscribers.holds == subscribed ==> after.has_subscribers.since
                == state.has_subscribers.since
            &&& state.has_subscribers.holds != subscribed ==> after.has_subscribers.since == now
            &&& state.is_active.holds == active ==> after.is_active.since == state.is_active.since
            &&& state.is_active.holds != active ==> after.is_active.since == now
            &&& changed ==> after.retry_not_before is None
            &&& !changed ==> after == state
        }),
{
}

/// A thread whose last subscriber left, or whose last turn ended, at a look is due only a whole delay
/// after that look.
pub proof fn lemma_delay_starts_when_the_last_subscriber_leaves(
    state: UnloadingState,
    active: bool,
    later_active: bool,
    left_at: u64,
    now: u64,
)
    requires
        left_at + state.delay <= u64::MAX,
    ensures
        state.has_subscribers.holds && state.synced(false, active, left_at).due(now) ==> left_at
            + state.delay <= now,
        state.is_active.holds && state.synced(active, false, left_at).due(now) ==> left_at
            + state.delay <= now,
        now + state.delay <= u64::MAX && state.synced(true, active, left_at).synced(
            false,
            later_active,
            now,
        ).due(now) ==> state.delay == 0,
{
    let there = state.synced(true, active, left_at);
    let gone = there.synced(false, later_active, now);
    assert(gone.has_subscribers.since == now);
}

/// A thread that turns out to be busy is due, where it looked idle, only a whole delay later; where
/// it looked active, it stays so.
pub proof fn lemma_busy_thread_starts_its_delay_anew(state: UnloadingState, now: u64, at: u64)
    requires
        now + state.delay <= u64::MAX,
    ensures
        ({
            let after = state.observed_active(now);
            &&& after.delay == state.delay
            &&& after.has_subscribers == state.has_subscribers
            &&& after.is_active.holds == state.is_active.holds
            &&& state.is_active.holds ==> after.is_active.since == state.is_active.since
            &&& after.retry_not_before is None
            &&& after.due(at) ==> now + state.delay <= at
        }),
{
}

} // verus!
