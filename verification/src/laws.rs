//! What holds of the arbiter and of a session across several operations.

use vstd::prelude::*;
use crate::protocol::{ErrorKind, EventView, PortConfig, RequestView};
use crate::registry::{
    CommandView, Delivery, Registry, after_close, after_disconnect, after_join, after_open,
    after_opened, after_request, commanded, fan_out, joined, lemma_without, listeners, open_reply,
    opened_reply, releases, valid, without,
};
use crate::session::{SessionState, SessionView, after_delivery, after_failures, terminates};

verus! {

/// Two sessions that open one closed device with the same configuration
/// share it: the first open needs the hardware, the second is settled
/// without it, and both sessions are subscribed to the one entry, which
/// holds the configuration.
pub proof fn law_shared_open(r: Registry, device: Seq<char>, config: PortConfig, a: u64, b: u64)
    requires
        valid(r),
        !r.dom().contains(device),
    ensures
        ({
            let r1 = after_opened(after_open(r, device, config, a), device, config, a, true);
            let r2 = after_open(r1, device, config, b);
            &&& open_reply(r, device, config).is_none()
            &&& opened_reply(after_open(r, device, config, a), device, true) == (
            EventView::Opened { device })
            &&& open_reply(r1, device, config) == Some(EventView::Opened { device })
            &&& r2.dom() == r.dom().insert(device)
            &&& r2[device].config == config
            &&& listeners(r2, device) == joined(seq![a], b)
            &&& listeners(r2, device).contains(a)
            &&& listeners(r2, device).contains(b)
            &&& valid(r2)
        }),
{
    let r1 = after_opened(after_open(r, device, config, a), device, config, a, true);
    let r2 = after_open(r1, device, config, b);
    assert(seq![a][0] == a);
    assert(r2.dom() =~= r.dom().insert(device));
    let subs = joined(seq![a], b);
    if a == b {
        assert(seq![a].contains(b));
    } else {
        assert(subs[0] == a);
        assert(subs[1] == b);
    }
    assert(subs.contains(a));
    assert(subs.contains(b));
}

/// Opening an open device with another configuration is refused with
/// `AlreadyOpen`, and the registry stays as it is.
pub proof fn law_conflicting_open(r: Registry, device: Seq<char>, config: PortConfig, session: u64)
    requires
        r.dom().contains(device),
        r[device].config != config,
    ensures
        open_reply(r, device, config) == Some(
            EventView::Error { kind: ErrorKind::AlreadyOpen, detail: device },
        ),
        after_open(r, device, config, session) == r,
{
}

/// A device is gone from the registry once its last subscriber has closed
/// it, and the close releases the handle; with another subscriber left
/// the device stays open under its configuration.
pub proof fn law_close(r: Registry, device: Seq<char>, session: u64)
    requires
        valid(r),
        r.dom().contains(device),
    ensures
        releases(r, device, session) <==> r[device].subscribers == seq![session],
        releases(r, device, session) <==> !after_close(r, device, session).dom().contains(device),
        !listeners(after_close(r, device, session), device).contains(session),
        forall|t: u64|
            t != session ==> (#[trigger] listeners(after_close(r, device, session), device).contains(
                t,
            ) <==> listeners(r, device).contains(t)),
        valid(after_close(r, device, session)),
{
    let subs = r[device].subscribers;
    let rest = without(subs, session);
    lemma_without(subs, session);
    if rest.len() == 0 {
        assert(subs.len() == 1) by {
            assert(subs.contains(subs[0]));
            assert(!rest.contains(subs[0]));
            assert(subs[0] == session);
            if subs.len() > 1 {
                assert(subs.contains(subs[1]));
                assert(!rest.contains(subs[1]));
                assert(subs[1] == session);
            }
        }
        assert(subs =~= seq![session]);
    }
    if subs == seq![session] {
        assert(subs.drop_last() =~= Seq::<u64>::empty());
        assert(without(subs.drop_last(), session).len() == 0);
        assert(rest.len() == 0);
    }
    let r2 = after_close(r, device, session);
    assert forall|d: Seq<char>| #[trigger] r2.dom().contains(d) implies r2[d].subscribers.len() > 0
        && r2[d].subscribers.no_duplicates() by {
        if d != device {
            assert(r.dom().contains(d));
        }
    }
}

/// A write to a device that is not open (never opened, or closed by its
/// last subscriber) is answered with `NotOpen`: no hardware operation is
/// asked for, and the registry stays as it is.
pub proof fn law_write_needs_open(r: Registry, device: Seq<char>, bytes: Seq<u8>, session: u64)
    requires
        valid(r),
    ensures
        !r.dom().contains(device) ==> commanded(
            r,
            RequestView::Write { device, bytes },
            session,
        ) == (CommandView::Send {
            event: EventView::Error { kind: ErrorKind::NotOpen, detail: device },
        }),
        r.dom().contains(device) ==> commanded(r, RequestView::Write { device, bytes }, session)
            == (CommandView::WriteDevice { device, bytes }),
        after_request(r, RequestView::Write { device, bytes }, session) == r,
        r.dom().contains(device) && r[device].subscribers == seq![session] ==> commanded(
            after_close(r, device, session),
            RequestView::Write { device, bytes },
            session,
        ) == (CommandView::Send {
            event: EventView::Error { kind: ErrorKind::NotOpen, detail: device },
        }),
{
    if r.dom().contains(device) {
        law_close(r, device, session);
    }
}

/// What a device produces reaches each of its subscribers once, in the
/// order of their subscription, and no other session.
pub proof fn law_delivery(r: Registry, device: Seq<char>, event: EventView, deliveries: Seq<Delivery>)
    requires
        valid(r),
        fan_out(deliveries, listeners(r, device), event),
    ensures
        forall|s: u64|
            !listeners(r, device).contains(s) ==> forall|i: int|
                0 <= i < deliveries.len() ==> (#[trigger] deliveries[i]).session != s,
        forall|s: u64| #[trigger]
            listeners(r, device).contains(s) ==> exists|i: int|
                0 <= i < deliveries.len() && (#[trigger] deliveries[i]).session == s
                    && deliveries[i].event@ == event,
        forall|i: int, j: int|
            0 <= i < j < deliveries.len() ==> (#[trigger] deliveries[i]).session != (
            #[trigger] deliveries[j]).session,
{
    let subs = listeners(r, device);
    assert forall|s: u64| #[trigger] subs.contains(s) implies exists|i: int|
        0 <= i < deliveries.len() && (#[trigger] deliveries[i]).session == s && deliveries[i].event@
            == event by {
        let k = choose|k: int| 0 <= k < subs.len() && subs[k] == s;
        assert(deliveries[k].session == s);
    }
    assert forall|i: int, j: int| 0 <= i < j < deliveries.len() implies (
    #[trigger] deliveries[i]).session != (#[trigger] deliveries[j]).session by {
        assert(subs[i] != subs[j]);
    }
}

/// What a list of deliveries hands out, as plain values and in its order.
pub open spec fn log_of(deliveries: Seq<Delivery>) -> Seq<(u64, EventView)> {
    Seq::new(deliveries.len(), |i: int| (deliveries[i].session, deliveries[i].event@))
}

/// One event handed to each of `subscribers`, in their order.
pub open spec fn round(subscribers: Seq<u64>, event: EventView) -> Seq<(u64, EventView)> {
    Seq::new(subscribers.len(), |i: int| (subscribers[i], event))
}

/// What is handed out when `events` occur one after another while
/// `subscribers` stay as they are.
pub open spec fn broadcast(subscribers: Seq<u64>, events: Seq<EventView>) -> Seq<(u64, EventView)>
    decreases events.len(),
{
    if events.len() == 0 {
        Seq::empty()
    } else {
        broadcast(subscribers, events.drop_last()) + round(subscribers, events.last())
    }
}

/// The events that `session` receives out of `log`, in their order.
pub open spec fn inbox(log: Seq<(u64, EventView)>, session: u64) -> Seq<EventView>
    decreases log.len(),
{
    if log.len() == 0 {
        Seq::empty()
    } else if log.last().0 == session {
        inbox(log.drop_last(), session).push(log.last().1)
    } else {
        inbox(log.drop_last(), session)
    }
}

proof fn lemma_inbox_concat(a: Seq<(u64, EventView)>, b: Seq<(u64, EventView)>, session: u64)
    ensures
        inbox(a + b, session) == inbox(a, session) + inbox(b, session),
    decreases b.len(),
{
    if b.len() == 0 {
        assert(a + b =~= a);
        assert(inbox(a, session) + inbox(b, session) =~= inbox(a, session));
    } else {
        let front = b.drop_last();
        assert((a + b).drop_last() =~= a + front);
        assert((a + b).last() == b.last());
        lemma_inbox_concat(a, front, session);
        if b.last().0 == session {
            assert((inbox(a, session) + inbox(front, session)).push(b.last().1) =~= inbox(
                a,
                session,
            ) + inbox(front, session).push(b.last().1));
        }
    }
}

proof fn lemma_inbox_round(subscribers: Seq<u64>, event: EventView, session: u64)
    requires
        subscribers.no_duplicates(),
    ensures
        inbox(round(subscribers, event), session) == if subscribers.contains(session) {
            seq![event]
        } else {
            Seq::empty()
        },
    decreases subscribers.len(),
{
    if subscribers.len() > 0 {
        let front = subscribers.drop_last();
        let n = front.len() as int;
        assert(round(subscribers, event).drop_last() =~= round(front, event));
        assert(round(subscribers, event).last() == (subscribers.last(), event));
        lemma_inbox_round(front, event, session);
        if subscribers.last() == session {
            assert(subscribers[n] == session);
            assert(!front.contains(session)) by {
                if front.contains(session) {
                    let k = choose|k: int| 0 <= k < front.len() && front[k] == session;
                    assert(subscribers[k] == subscribers[n]);
                }
            }
            assert(Seq::<EventView>::empty().push(event) =~= seq![event]);
        } else {
            if subscribers.contains(session) {
                let k = choose|k: int| 0 <= k < subscribers.len() && subscribers[k] == session;
                assert(front[k] == session);
            }
            if front.contains(session) {
                let k = choose|k: int| 0 <= k < front.len() && front[k] == session;
                assert(subscribers[k] == session);
            }
        }
    } else {
        assert(round(subscribers, event) =~= Seq::<(u64, EventView)>::empty());
    }
}

/// The deliveries of one event are one round over the subscribers.
pub proof fn law_delivery_round(deliveries: Seq<Delivery>, subscribers: Seq<u64>, event: EventView)
    requires
        fan_out(deliveries, subscribers, event),
    ensures
        log_of(deliveries) == round(subscribers, event),
{
    assert(log_of(deliveries) =~= round(subscribers, event));
}

/// What a device produces piece by piece reaches every subscriber in the
/// order in which it was produced, and nobody else receives anything.
pub proof fn law_ordered_delivery(subscribers: Seq<u64>, events: Seq<EventView>, session: u64)
    requires
        subscribers.no_duplicates(),
    ensures
        inbox(broadcast(subscribers, events), session) == if subscribers.contains(session) {
            events
        } else {
            Seq::empty()
        },
    decreases events.len(),
{
    if events.len() > 0 {
        let front = events.drop_last();
        law_ordered_delivery(subscribers, front, session);
        lemma_inbox_concat(
            broadcast(subscribers, front),
            round(subscribers, events.last()),
            session,
        );
        lemma_inbox_round(subscribers, events.last(), session);
        if subscribers.contains(session) {
            assert(front + seq![events.last()] =~= events);
        } else {
            assert(Seq::<EventView>::empty() + Seq::<EventView>::empty() =~= Seq::<
                EventView,
            >::empty());
        }
    }
}

/// A session that subscribes to an open device between two runs of data
/// receives the later run, in order, and nothing of the earlier one; a
/// session that was subscribed before receives both runs, in order.
pub proof fn law_late_subscriber(
    r: Registry,
    device: Seq<char>,
    session: u64,
    other: u64,
    earlier: Seq<EventView>,
    later: Seq<EventView>,
)
    requires
        valid(r),
        r.dom().contains(device),
        !listeners(r, device).contains(session),
        listeners(r, device).contains(other),
    ensures
        ({
            let before = listeners(r, device);
            let after = listeners(after_join(r, device, session), device);
            let log = broadcast(before, earlier) + broadcast(after, later);
            &&& after == before.push(session)
            &&& inbox(log, session) == later
            &&& inbox(log, other) == earlier + later
        }),
{
    let before = listeners(r, device);
    let after = listeners(after_join(r, device, session), device);
    assert(after == before.push(session));
    assert(after.no_duplicates()) by {
        assert forall|i: int, j: int| 0 <= i < j < after.len() implies after[i] != after[j] by {
            if j == before.len() {
                assert(before.contains(before[i]));
            } else {
                assert(before[i] != before[j]);
            }
        }
    }
    assert(after.contains(session)) by {
        assert(after[before.len() as int] == session);
    }
    assert(after.contains(other)) by {
        let k = choose|k: int| 0 <= k < before.len() && before[k] == other;
        assert(after[k] == other);
    }
    lemma_inbox_concat(broadcast(before, earlier), broadcast(after, later), session);
    lemma_inbox_concat(broadcast(before, earlier), broadcast(after, later), other);
    law_ordered_delivery(before, earlier, session);
    law_ordered_delivery(after, later, session);
    law_ordered_delivery(before, earlier, other);
    law_ordered_delivery(after, later, other);
    assert(Seq::<EventView>::empty() + later =~= later);
}

/// A session that is disconnected is subscribed to no device any more,
/// and no delivery names it. Every other subscription stays as it was: a
/// device without the session keeps its entry, and a device with other
/// subscribers keeps them and its configuration.
pub proof fn law_disconnect(r: Registry, session: u64)
    requires
        valid(r),
    ensures
        valid(after_disconnect(r, session)),
        forall|d: Seq<char>| !(#[trigger] listeners(after_disconnect(r, session), d)).contains(session),
        forall|d: Seq<char>, t: u64|
            t != session ==> (#[trigger] listeners(after_disconnect(r, session), d).contains(t)
                <==> listeners(r, d).contains(t)),
        forall|d: Seq<char>| #[trigger]
            after_disconnect(r, session).dom().contains(d) ==> r.dom().contains(d)
                && after_disconnect(r, session)[d].config == r[d].config,
        forall|d: Seq<char>|
            r.dom().contains(d) && !r[d].subscribers.contains(session) ==> (
            #[trigger] after_disconnect(r, session).dom().contains(d)) && after_disconnect(
                r,
                session,
            )[d] == r[d],
        forall|d: Seq<char>, deliveries: Seq<Delivery>, event: EventView, i: int|
            #![trigger fan_out(deliveries, listeners(after_disconnect(r, session), d), event), deliveries[i]]
            fan_out(deliveries, listeners(after_disconnect(r, session), d), event) && 0 <= i
                < deliveries.len() ==> deliveries[i].session != session,
{
    let r2 = after_disconnect(r, session);
    assert forall|d: Seq<char>| #[trigger] r2.dom().contains(d) implies r2[d].subscribers.len() > 0
        && r2[d].subscribers.no_duplicates() && r.dom().contains(d) && r2[d].config
        == r[d].config by {
        lemma_disconnect_at(r, session, d);
    }
    assert forall|d: Seq<char>| !(#[trigger] listeners(r2, d)).contains(session) by {
        lemma_disconnect_at(r, session, d);
    }
    assert forall|d: Seq<char>, t: u64| t != session implies (#[trigger] listeners(r2, d).contains(
        t,
    ) <==> listeners(r, d).contains(t)) by {
        lemma_disconnect_at(r, session, d);
    }
    assert forall|d: Seq<char>|
        r.dom().contains(d) && !r[d].subscribers.contains(session) implies (
    #[trigger] r2.dom().contains(d)) && r2[d] == r[d] by {
        lemma_disconnect_at(r, session, d);
    }
    assert forall|d: Seq<char>, deliveries: Seq<Delivery>, event: EventView, i: int|
        #![trigger fan_out(deliveries, listeners(r2, d), event), deliveries[i]]
        fan_out(deliveries, listeners(r2, d), event) && 0 <= i < deliveries.len() implies 
        deliveries[i].session != session by {
        lemma_disconnect_at(r, session, d);
        assert(listeners(r2, d).contains(listeners(r2, d)[i]));
    }
}

proof fn lemma_disconnect_at(r: Registry, session: u64, d: Seq<char>)
    requires
        valid(r),
    ensures
        !listeners(after_disconnect(r, session), d).contains(session),
        forall|t: u64|
            t != session ==> (#[trigger] listeners(after_disconnect(r, session), d).contains(t)
                <==> listeners(r, d).contains(t)),
        after_disconnect(r, session).dom().contains(d) ==> r.dom().contains(d) && after_disconnect(
            r,
            session,
        )[d].subscribers.len() > 0 && after_disconnect(r, session)[d].subscribers.no_duplicates()
            && after_disconnect(r, session)[d].config == r[d].config,
        r.dom().contains(d) && !r[d].subscribers.contains(session) ==> after_disconnect(
            r,
            session,
        ).dom().contains(d) && after_disconnect(r, session)[d] == r[d],
{
    let r2 = after_disconnect(r, session);
    if r.dom().contains(d) {
        let subs = r[d].subscribers;
        lemma_without(subs, session);
        let rest = without(subs, session);
        assert(subs.len() > 0);
        if rest.len() == 0 {
            assert(!r2.dom().contains(d));
            assert forall|t: u64| t != session implies !subs.contains(t) by {
                if subs.contains(t) {
                    assert(rest.contains(t));
                }
            }
            assert(listeners(r2, d) =~= Seq::<u64>::empty());
        } else {
            assert(r2.dom().contains(d));
            assert(listeners(r2, d) == rest);
        }
    } else {
        assert(!r2.dom().contains(d));
        assert(listeners(r2, d) =~= Seq::<u64>::empty());
    }
}

/// An active session with a clean count stays active through fewer failed
/// deliveries in a row than its threshold, and is closing at the
/// threshold: the failure that reaches the threshold is the one that
/// terminates it, and none before. Its identifier and threshold do not
/// change.
pub proof fn law_failure_threshold(v: SessionView, n: nat)
    requires
        v.state == SessionState::Active,
        v.failures == 0,
        v.threshold > 0,
        n <= v.threshold,
    ensures
        after_failures(v, n).failures == n,
        after_failures(v, n).id == v.id,
        after_failures(v, n).threshold == v.threshold,
        n < v.threshold ==> after_failures(v, n).state == SessionState::Active,
        n < v.threshold ==> (terminates(after_failures(v, n), false) <==> n + 1 == v.threshold),
        n == v.threshold ==> after_failures(v, n).state == SessionState::Closing,
    decreases n,
{
    if n > 0 {
        law_failure_threshold(v, (n - 1) as nat);
    }
}

/// A delivery that succeeds clears the count of an active session, so
/// only failures in a row reach the threshold; a session that is not
/// active does not change with any delivery.
pub proof fn law_delivery_resets(v: SessionView, delivered: bool)
    ensures
        v.state == SessionState::Active ==> after_delivery(v, true).failures == 0 && after_delivery(
            v,
            true,
        ).state == SessionState::Active,
        v.state != SessionState::Active ==> after_delivery(v, delivered) == v,
{
}

} // verus!
