use spine_ui::keyed::KeySet;
use spine_ui::lineage::{RetainedManager, RetainedRoute, RouteTerminal};
use spine_ui::protocol::ThreadId;
use spine_ui::unloading::{
    finish_unload, unload_starts, unload_wants_permit, Since, ThreadShutdownResult, UnloadFinish,
    UnloadingState, UnloadingWait, SPINE_UI_TERMINAL_BARRIER_TIMEOUT_MS,
    THREAD_UNLOADING_DELAY_MS, THREAD_UNLOADING_RETRY_DELAY_MS,
};

const THREAD: ThreadId = ThreadId(7);

#[test]
fn unloading_permit_contention_retries_without_resetting_the_idle_delay() {
    let now: u64 = 5_000;
    let mut state = UnloadingState {
        delay: 0,
        has_subscribers: Since {
            holds: false,
            since: now,
        },
        is_active: Since {
            holds: false,
            since: now,
        },
        retry_not_before: None,
    };

    assert!(state.should_unload_now(false, false, now));
    state.retry_unload_soon(now);
    assert!(!state.should_unload_now(false, false, now));
    let retry_target = state.unloading_target().expect("retry target");
    assert!(retry_target > now);
    assert!(retry_target <= now + THREAD_UNLOADING_RETRY_DELAY_MS);
    assert!(state.should_unload_now(false, false, retry_target));
    assert_eq!(state.is_active.since, now);
}

#[test]
fn delays_are_half_an_hour_a_second_and_ten_seconds() {
    assert_eq!(THREAD_UNLOADING_DELAY_MS, 30 * 60 * 1_000);
    assert_eq!(THREAD_UNLOADING_RETRY_DELAY_MS, 1_000);
    assert_eq!(SPINE_UI_TERMINAL_BARRIER_TIMEOUT_MS, 10_000);
}

#[test]
fn the_delay_starts_with_the_last_change() {
    let mut state = UnloadingState::new(100, true, true, 0);
    assert_eq!(
        state.wait_for_unloading_trigger(true, true, 500),
        UnloadingWait::Change
    );
    assert_eq!(
        state.wait_for_unloading_trigger(false, true, 600),
        UnloadingWait::Change
    );
    assert_eq!(
        state.wait_for_unloading_trigger(false, false, 700),
        UnloadingWait::Until(800)
    );
    assert_eq!(
        state.wait_for_unloading_trigger(false, false, 800),
        UnloadingWait::Due
    );
}

#[test]
fn a_change_allows_a_retry_at_once() {
    let mut state = UnloadingState::new(0, false, false, 0);
    state.retry_unload_soon(0);
    assert_eq!(state.retry_not_before, Some(1_000));
    state.sync_receiver_values(true, false, 10);
    assert_eq!(state.retry_not_before, None);
    assert_eq!(state.unloading_target(), None);
    state.sync_receiver_values(false, false, 20);
    assert_eq!(state.unloading_target(), Some(20));
}

#[test]
fn instants_do_not_overflow() {
    let mut state = UnloadingState::new(u64::MAX, false, false, 5);
    assert_eq!(state.unloading_target(), Some(u64::MAX));
    state.retry_unload_soon(u64::MAX);
    assert_eq!(state.retry_not_before, Some(u64::MAX));
}

#[test]
fn a_thread_that_runs_or_awaits_a_child_is_busy() {
    let mut manager = RetainedManager::new();
    let mut state = UnloadingState::new(10, false, false, 0);
    assert!(!unload_wants_permit(
        &mut state,
        &mut manager,
        THREAD,
        false,
        false,
        false,
        9
    ));
    assert_eq!(state.is_active.since, 0);
    assert!(!unload_wants_permit(
        &mut state,
        &mut manager,
        THREAD,
        false,
        false,
        true,
        10
    ));
    assert_eq!(state.is_active.since, 10);
    assert!(unload_wants_permit(
        &mut state,
        &mut manager,
        THREAD,
        false,
        false,
        false,
        20
    ));

    manager.routes.insert(
        ThreadId(8),
        RetainedRoute {
            parent_thread_id: THREAD,
            parent_turn_id: "turn-1".to_string(),
            baseline_node_ids: KeySet::new(),
            generation: 1,
            timed_out_at: Some(20),
            terminal: RouteTerminal::TimedOut,
        },
    );
    assert!(!unload_wants_permit(
        &mut state,
        &mut manager,
        THREAD,
        false,
        false,
        false,
        20
    ));
    assert_eq!(state.is_active.since, 20);
}

#[test]
fn an_unload_starts_once() {
    let mut pending: KeySet<ThreadId> = KeySet::new();
    let mut state = UnloadingState::new(0, false, false, 0);
    assert!(!unload_starts(
        &mut state,
        &mut pending,
        THREAD,
        false,
        false,
        false,
        5
    ));
    assert_eq!(state.retry_not_before, Some(1_005));
    assert!(!unload_starts(
        &mut state,
        &mut pending,
        THREAD,
        true,
        false,
        false,
        5
    ));
    assert!(!pending.contains(&THREAD));
    assert!(unload_starts(
        &mut state,
        &mut pending,
        THREAD,
        true,
        false,
        false,
        1_005
    ));
    assert!(pending.contains(&THREAD));
    assert!(!unload_starts(
        &mut state,
        &mut pending,
        THREAD,
        true,
        false,
        false,
        1_005
    ));
}

#[test]
fn every_unload_ends() {
    for (result, was_loaded, finish) in [
        (ThreadShutdownResult::Complete, true, UnloadFinish::Closed),
        (
            ThreadShutdownResult::Complete,
            false,
            UnloadFinish::AlreadyRemoved,
        ),
        (
            ThreadShutdownResult::SubmitFailed,
            true,
            UnloadFinish::StillLoaded,
        ),
        (
            ThreadShutdownResult::TimedOut,
            true,
            UnloadFinish::StillLoaded,
        ),
    ] {
        let mut pending: KeySet<ThreadId> = KeySet::new();
        pending.insert(THREAD);
        pending.insert(ThreadId(9));
        assert_eq!(
            finish_unload(&mut pending, THREAD, result, was_loaded),
            finish
        );
        assert!(!pending.contains(&THREAD));
        assert!(pending.contains(&ThreadId(9)));
    }
}
