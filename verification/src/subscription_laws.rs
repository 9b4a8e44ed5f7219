//! Who follows what after each change of the subscriptions, seen from outside.
use crate::protocol::{ConnectionId, ThreadId};
use crate::subscriptions::SubscriptionsView;
use vstd::prelude::*;

verus! {

/// Whether a connection is among those of a thread.
pub open spec fn hears_of(s: SubscriptionsView, c: ConnectionId, t: ThreadId) -> bool {
    s.by_thread.contains_key(t) && s.by_thread[t].contains(c)
}

/// Whether a thread is among those of a connection.
pub open spec fn has_thread(s: SubscriptionsView, c: ConnectionId, t: ThreadId) -> bool {
    s.by_connection.contains_key(c) && s.by_connection[c].contains(t)
}

/// Who follows a thread and what a connection follows are read off both sides, and both sides agree.
pub proof fn lemma_both_sides_agree(s: SubscriptionsView, c: ConnectionId, t: ThreadId)
    ensures
        s.follows(c, t) == hears_of(s, c, t),
        s.lists(c, t) == has_thread(s, c, t),
        s.connections(t).contains(c) == hears_of(s, c, t),
        s.threads(c).contains(t) == has_thread(s, c, t),
        s.consistent() ==> hears_of(s, c, t) == has_thread(s, c, t),
        s.consistent() && hears_of(s, c, t) ==> s.live.contains_key(c),
{
    if s.consistent() {
        assert(s.follows(c, t) == s.lists(c, t));
    }
}

/// A subscription adds exactly one pair, on both sides; the thread is known from then on.
pub proof fn lemma_subscription_adds_one_pair(
    s: SubscriptionsView,
    c: ConnectionId,
    t: ThreadId,
    d: ConnectionId,
    u: ThreadId,
)
    ensures
        ({
            let after = s.with(c, t);
            &&& hears_of(after, d, u) == (hears_of(s, d, u) || (d == c && u == t))
            &&& has_thread(after, d, u) == (has_thread(s, d, u) || (d == c && u == t))
            &&& after.by_thread.contains_key(u) == (s.by_thread.contains_key(u) || u == t)
            &&& after.live == s.live
        }),
{
}

/// The end of a subscription takes exactly one pair away, on both sides; the thread stays known.
pub proof fn lemma_unsubscription_takes_one_pair(
    s: SubscriptionsView,
    c: ConnectionId,
    t: ThreadId,
    d: ConnectionId,
    u: ThreadId,
)
    ensures
        ({
            let after = s.without(c, t);
            &&& hears_of(after, d, u) == (hears_of(s, d, u) && !(d == c && u == t))
            &&& has_thread(after, d, u) == (has_thread(s, d, u) && !(d == c && u == t))
            &&& after.by_thread.contains_key(u) == (s.by_thread.contains_key(u) || u == t)
            &&& after.live == s.live
        }),
{
    let rest = s.threads(c).remove(t);
    if d == c && !rest.contains(u) && u != t {
        assert(!s.threads(c).contains(u));
    }
}

/// A subscription that ends leaves what was there before it began.
pub proof fn lemma_unsubscription_undoes_a_subscription(
    s: SubscriptionsView,
    c: ConnectionId,
    t: ThreadId,
    d: ConnectionId,
    u: ThreadId,
)
    requires
        !hears_of(s, c, t),
        !has_thread(s, c, t),
    ensures
        hears_of(s.with(c, t).without(c, t), d, u) == hears_of(s, d, u),
        has_thread(s.with(c, t).without(c, t), d, u) == has_thread(s, d, u),
{
    lemma_subscription_adds_one_pair(s, c, t, d, u);
    lemma_unsubscription_takes_one_pair(s.with(c, t), c, t, d, u);
}

/// A connection that closes follows nothing and is no longer live; the others follow what they did.
pub proof fn lemma_closed_connection_follows_nothing(
    s: SubscriptionsView,
    c: ConnectionId,
    d: ConnectionId,
    u: ThreadId,
)
    requires
        s.consistent(),
    ensures
        ({
            let after = s.without_connection(c);
            &&& hears_of(after, d, u) == (hears_of(s, d, u) && d != c)
            &&& has_thread(after, d, u) == (has_thread(s, d, u) && d != c)
            &&& after.by_thread.contains_key(u) == s.by_thread.contains_key(u)
            &&& after.live.contains_key(d) == (s.live.contains_key(d) && d != c)
            &&& after.live.contains_key(d) ==> after.live[d] == s.live[d]
        }),
{
    lemma_both_sides_agree(s, c, u);
}

/// A thread that goes is followed by nobody and unknown; the other threads are followed as before.
pub proof fn lemma_gone_thread_is_followed_by_nobody(
    s: SubscriptionsView,
    t: ThreadId,
    d: ConnectionId,
    u: ThreadId,
)
    ensures
        ({
            let after = s.without_thread(t);
            &&& hears_of(after, d, u) == (hears_of(s, d, u) && u != t)
            &&& has_thread(after, d, u) == (has_thread(s, d, u) && u != t)
            &&& after.by_thread.contains_key(u) == (s.by_thread.contains_key(u) && u != t)
            &&& after.live == s.live
        }),
{
    if has_thread(s, d, u) && u != t {
        assert(s.by_connection[d].remove(t).contains(u));
    }
}

/// A connection can attest for a thread that it follows while it is live and can attest at all.
pub proof fn lemma_only_followers_attest(s: SubscriptionsView, c: ConnectionId, t: ThreadId)
    ensures
        s.can_attest(c, t) == (hears_of(s, c, t) && s.live.contains_key(c)
            && s.live[c].request_attestation),
{
}

} // verus!
