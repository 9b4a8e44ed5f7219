use spine_ui::protocol::{ConnectionId, ThreadId};
use spine_ui::retained::RetainedThread;
use spine_ui::subscriptions::{
    try_ensure_connection_subscribed, ConnectionCapabilities, Subscriptions,
};

const A: ThreadId = ThreadId(1);
const B: ThreadId = ThreadId(2);
const FIRST: ConnectionId = ConnectionId(10);
const SECOND: ConnectionId = ConnectionId(20);

fn two_connections() -> Subscriptions {
    let mut subscriptions = Subscriptions::new();
    subscriptions.connection_initialized(FIRST, ConnectionCapabilities::default());
    subscriptions.connection_initialized(
        SECOND,
        ConnectionCapabilities {
            request_attestation: true,
        },
    );
    subscriptions
}

fn sorted(mut connections: Vec<ConnectionId>) -> Vec<ConnectionId> {
    connections.sort();
    connections
}

#[test]
fn only_live_connections_subscribe() {
    let mut subscriptions = two_connections();
    assert!(!subscriptions.try_add_connection_to_thread(A, ConnectionId(99)));
    assert!(!subscriptions.has_subscribers(A));
    assert!(subscriptions.try_add_connection_to_thread(A, FIRST));
    assert!(subscriptions.try_add_connection_to_thread(A, FIRST));
    assert!(subscriptions.try_add_connection_to_thread(A, SECOND));
    assert_eq!(
        sorted(subscriptions.subscribed_connection_ids(A)),
        vec![FIRST, SECOND]
    );
    assert!(subscriptions.subscribed_connection_ids(B).is_empty());
}

#[test]
fn a_connection_unsubscribes_once() {
    let mut subscriptions = two_connections();
    subscriptions.try_add_connection_to_thread(A, FIRST);
    assert!(!subscriptions.unsubscribe_connection_from_thread(A, SECOND));
    assert!(!subscriptions.unsubscribe_connection_from_thread(B, FIRST));
    assert!(subscriptions.unsubscribe_connection_from_thread(A, FIRST));
    assert!(!subscriptions.unsubscribe_connection_from_thread(A, FIRST));
    assert!(!subscriptions.has_subscribers(A));
    assert!(!subscriptions.threads_by_connection.contains_key(&FIRST));
}

#[test]
fn a_gone_connection_leaves_its_threads() {
    let mut subscriptions = two_connections();
    subscriptions.try_add_connection_to_thread(A, FIRST);
    subscriptions.try_add_connection_to_thread(A, SECOND);
    subscriptions.try_add_connection_to_thread(B, FIRST);
    assert_eq!(subscriptions.remove_connection(FIRST), vec![B]);
    assert_eq!(subscriptions.subscribed_connection_ids(A), vec![SECOND]);
    assert!(!subscriptions.has_subscribers(B));
    assert!(!subscriptions.try_add_connection_to_thread(B, FIRST));
    assert!(subscriptions.remove_connection(FIRST).is_empty());
}

#[test]
fn a_gone_thread_leaves_its_connections() {
    let mut subscriptions = two_connections();
    subscriptions.try_add_connection_to_thread(A, FIRST);
    subscriptions.try_add_connection_to_thread(B, FIRST);
    subscriptions.try_add_connection_to_thread(A, SECOND);
    subscriptions.remove_thread(A);
    assert!(!subscriptions.has_subscribers(A));
    assert!(!subscriptions.threads_by_connection.contains_key(&SECOND));
    assert_eq!(subscriptions.remove_connection(FIRST), vec![B]);
}

#[test]
fn a_capable_connection_is_found() {
    let mut subscriptions = two_connections();
    subscriptions.try_add_connection_to_thread(A, FIRST);
    assert_eq!(
        subscriptions.first_attestation_capable_connection_for_thread(A),
        None
    );
    subscriptions.try_add_connection_to_thread(A, SECOND);
    assert_eq!(
        subscriptions.first_attestation_capable_connection_for_thread(A),
        Some(SECOND)
    );
    subscriptions.connection_initialized(
        FIRST,
        ConnectionCapabilities {
            request_attestation: true,
        },
    );
    assert_eq!(
        subscriptions.first_attestation_capable_connection_for_thread(A),
        Some(FIRST)
    );
    assert_eq!(
        subscriptions.first_attestation_capable_connection_for_thread(B),
        None
    );
}

#[test]
fn a_subscription_can_ask_for_raw_events() {
    let mut subscriptions = two_connections();
    let mut thread = RetainedThread::new();
    assert!(!try_ensure_connection_subscribed(
        &mut subscriptions,
        &mut thread,
        A,
        ConnectionId(99),
        true
    ));
    assert!(!thread.experimental_raw_events);
    assert!(try_ensure_connection_subscribed(
        &mut subscriptions,
        &mut thread,
        A,
        FIRST,
        true
    ));
    assert!(thread.experimental_raw_events);
    assert!(try_ensure_connection_subscribed(
        &mut subscriptions,
        &mut thread,
        A,
        SECOND,
        false
    ));
    assert!(thread.experimental_raw_events);
}
