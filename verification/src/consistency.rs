//! The registries of the coordinator agree with each other, and nothing
//! the coordinator does makes them disagree: no port is open twice, no two
//! subscriptions share an id, every write lock has a registered holder,
//! and every interest is in an open port.

use vstd::prelude::*;
use crate::codec::read_response_of;
use crate::errors::ErrorView;
use crate::laws::{lemma_drop_subscriber, lemma_ports_after_close};
use crate::manager::ManagerView;
use crate::messages::{RequestView, ResponseView};
use crate::port_manager::{ports_after_close, ports_after_open, DriverErrorView, PortOutcomeView};
use crate::sub_manager::{
    after_broadcast,
    after_disconnect,
    after_flush,
    after_send,
    after_take,
    broadcast_failures,
    has_subscription,
    ports_with_interest,
    subscription_index,
    with_interest,
    with_subscription,
    without_interest,
    SubscriptionView,
};
use crate::writelock_manager::{locked_by, locks_without_owner};

verus! {

/// A coordinator that has done nothing yet is consistent.
pub proof fn lemma_empty_is_consistent(m: ManagerView)
    requires
        m.ports == Seq::<Seq<char>>::empty(),
        m.locks == Map::<Seq<char>, Seq<char>>::empty(),
        m.subs == Seq::<SubscriptionView>::empty(),
    ensures
        m.consistent(),
{
}

/// Whether `after` holds the subscriptions of `before`, each with its id
/// and an interest set that has not grown.
pub open spec fn same_subscribers(before: Seq<SubscriptionView>, after: Seq<SubscriptionView>) -> bool {
    &&& after.len() == before.len()
    &&& forall|i: int|
        0 <= i < before.len() ==> (#[trigger] after[i]).sub_id == before[i].sub_id
            && after[i].ports.subset_of(before[i].ports)
}

/// Whether `after` holds no lock that `before` does not hold.
pub open spec fn no_new_lock(
    before: Map<Seq<char>, Seq<char>>,
    after: Map<Seq<char>, Seq<char>>,
) -> bool {
    forall|port: Seq<char>|
        #![trigger after.contains_key(port)]
        after.contains_key(port) ==> before.contains_key(port) && after[port] == before[port]
}

/// A state stays consistent when the open ports stay, no lock is added and
/// the subscriptions stay with interests that do not grow.
pub proof fn lemma_shrinking_keeps_consistent(m: ManagerView, after: ManagerView)
    requires
        m.consistent(),
        after.ports == m.ports,
        no_new_lock(m.locks, after.locks),
        same_subscribers(m.subs, after.subs),
    ensures
        after.consistent(),
{
    assert forall|port: Seq<char>| after.locks.contains_key(port) implies has_subscription(
        after.subs,
        #[trigger] after.locks[port],
    ) by {
        let k = subscription_index(m.subs, m.locks[port]);
        assert(after.subs[k].sub_id == m.locks[port]);
    }
    assert forall|i: int, j: int| 0 <= i < j < after.subs.len() implies (
    #[trigger] after.subs[i]).sub_id != (#[trigger] after.subs[j]).sub_id by {
        assert(m.subs[i].sub_id != m.subs[j].sub_id);
    }
    assert forall|i: int, port: Seq<char>|
        0 <= i < after.subs.len() && (#[trigger] after.subs[i]).ports.contains(
            port,
        ) implies #[trigger] after.ports.contains(port) by {
        assert(m.subs[i].ports.contains(port));
    }
}

/// Dropping a subscriber keeps the registries consistent.
pub proof fn lemma_drop_keeps_consistent(m: ManagerView, sub_id: Seq<char>)
    requires
        m.consistent(),
    ensures
        m.drop_subscriber(sub_id).consistent(),
{
    let after = m.drop_subscriber(sub_id);
    lemma_drop_subscriber(m, sub_id);
    if has_subscription(m.subs, sub_id) {
        let k = subscription_index(m.subs, sub_id);
        assert forall|port: Seq<char>| after.locks.contains_key(port) implies has_subscription(
            after.subs,
            #[trigger] after.locks[port],
        ) by {
            let holder = m.locks[port];
            let j = subscription_index(m.subs, holder);
            let j1 = if j < k { j } else { j - 1 };
            assert(after.subs[j1] == m.subs[j]);
        }
        assert forall|i: int, port: Seq<char>|
            0 <= i < after.subs.len() && (#[trigger] after.subs[i]).ports.contains(
                port,
            ) implies #[trigger] after.ports.contains(port) by {
            let i0 = if i < k { i } else { i + 1 };
            assert(after.subs[i] == m.subs[i0]);
        }
    } else {
        assert(after.locks =~= m.locks) by {
            assert forall|port: Seq<char>| m.locks.contains_key(port) implies m.locks[port]
                != sub_id by {
                assert(has_subscription(m.subs, m.locks[port]));
            }
        }
    }
}

/// Resolving failures keeps the registries consistent.
pub proof fn lemma_cleanup_keeps_consistent(m: ManagerView, failures: Seq<ErrorView>)
    requires
        m.consistent(),
    ensures
        m.cleanup(failures).consistent(),
    decreases failures.len(),
{
    if failures.len() > 0 {
        lemma_cleanup_keeps_consistent(m, failures.drop_last());
        match failures.last() {
            ErrorView::SubscriberSendError { subscription_id } => {
                lemma_drop_keeps_consistent(m.cleanup(failures.drop_last()), subscription_id);
            },
            _ => {},
        }
    }
}

/// Sending keeps the registries consistent, to one subscription or to
/// many, delivered or not.
pub proof fn lemma_sending_keeps_consistent(
    m: ManagerView,
    sub_id: Seq<char>,
    port: Option<Seq<char>>,
    msg: ResponseView,
)
    requires
        m.consistent(),
    ensures
        m.unicast(sub_id, msg).consistent(),
        m.broadcast(port, msg).consistent(),
{
    let sent = ManagerView { subs: after_send(m.subs, sub_id, msg), ..m };
    lemma_shrinking_keeps_consistent(m, sent);
    lemma_drop_keeps_consistent(sent, sub_id);
    let told = ManagerView { subs: after_broadcast(m.subs, port, msg), ..m };
    lemma_shrinking_keeps_consistent(m, told);
    lemma_cleanup_keeps_consistent(told, broadcast_failures(m.subs, port));
}

/// A handler's outcome keeps the registries consistent if the state it
/// reached is consistent.
proof fn lemma_settle_keeps_consistent(
    m: ManagerView,
    sub_id: Seq<char>,
    outcome: Result<ManagerView, ErrorView>,
)
    requires
        m.consistent(),
        outcome is Ok ==> outcome->Ok_0.consistent(),
    ensures
        m.settle(sub_id, outcome).consistent(),
{
    if outcome is Err {
        lemma_sending_keeps_consistent(m, sub_id, None, outcome->Err_0.response());
    }
}

/// Opening a port for a subscription keeps the registries consistent,
/// whatever the driver answered.
pub proof fn lemma_open_keeps_consistent(
    m: ManagerView,
    sub_id: Seq<char>,
    port: Seq<char>,
    device: Result<(), DriverErrorView>,
)
    requires
        m.consistent(),
    ensures
        m.open_outcome(sub_id, port, device) is Ok ==> m.open_outcome(
            sub_id,
            port,
            device,
        )->Ok_0.consistent(),
        m.after_open(sub_id, port, device).consistent(),
{
    if m.open_outcome(sub_id, port, device) is Ok {
        let ports = ports_after_open(m.ports, port, device);
        let opened = ManagerView { ports, subs: with_interest(m.subs, sub_id, port), ..m };
        assert(ports.contains(port)) by {
            if !m.ports.contains(port) {
                assert(ports[ports.len() - 1] == port);
            }
        }
        assert forall|other: Seq<char>| m.ports.contains(other) implies ports.contains(other) by {
            if !m.ports.contains(port) {
                let k = choose|k: int| 0 <= k < m.ports.len() && m.ports[k] == other;
                assert(ports[k] == other);
            }
        }
        assert(opened.consistent()) by {
            assert forall|held: Seq<char>| opened.locks.contains_key(held) implies has_subscription(
                opened.subs,
                #[trigger] opened.locks[held],
            ) by {
                let k = subscription_index(m.subs, m.locks[held]);
                assert(opened.subs[k].sub_id == m.locks[held]);
            }
            assert forall|i: int, j: int| 0 <= i < j < opened.subs.len() implies (
            #[trigger] opened.subs[i]).sub_id != (#[trigger] opened.subs[j]).sub_id by {
                assert(m.subs[i].sub_id != m.subs[j].sub_id);
            }
            assert forall|i: int, wanted: Seq<char>|
                0 <= i < opened.subs.len() && (#[trigger] opened.subs[i]).ports.contains(
                    wanted,
                ) implies #[trigger] opened.ports.contains(wanted) by {
                if wanted != port {
                    assert(m.subs[i].ports.contains(wanted));
                }
            }
        }
        lemma_sending_keeps_consistent(opened, sub_id, None, ResponseView::Opened { port });
    }
    lemma_settle_keeps_consistent(m, sub_id, m.open_outcome(sub_id, port, device));
}

/// Closing the ports that nobody wants keeps the registries consistent.
proof fn lemma_close_unwatched_keeps_consistent(
    m: ManagerView,
    sub_id: Seq<char>,
    ports: Seq<Seq<char>>,
    watched: Set<Seq<char>>,
)
    requires
        m.consistent(),
        forall|i: int, port: Seq<char>|
            0 <= i < m.subs.len() && (#[trigger] m.subs[i]).ports.contains(port)
                ==> #[trigger] watched.contains(port),
    ensures
        m.close_unwatched(sub_id, ports, watched).consistent(),
        forall|i: int, port: Seq<char>|
            0 <= i < m.close_unwatched(sub_id, ports, watched).subs.len() && (#[trigger] m.close_unwatched(
                sub_id,
                ports,
                watched,
            ).subs[i]).ports.contains(port) ==> #[trigger] watched.contains(port),
    decreases ports.len(),
{
    if ports.len() > 0 {
        lemma_close_unwatched_keeps_consistent(m, sub_id, ports.drop_last(), watched);
        let earlier = m.close_unwatched(sub_id, ports.drop_last(), watched);
        let port = ports.last();
        if !watched.contains(port) {
            let closed = earlier.closed(port);
            lemma_ports_after_close(earlier.ports, port);
            assert(closed.consistent()) by {
                assert(closed.ports.no_duplicates()) by {
                    lemma_close_keeps_distinct(earlier.ports, port);
                }
                assert forall|i: int, wanted: Seq<char>|
                    0 <= i < closed.subs.len() && (#[trigger] closed.subs[i]).ports.contains(
                        wanted,
                    ) implies #[trigger] closed.ports.contains(wanted) by {
                    assert(watched.contains(wanted));
                    assert(earlier.ports.contains(wanted));
                }
            }
            let msg = ResponseView::Closed { port };
            lemma_sending_keeps_consistent(closed, sub_id, None, msg);
            let sent = ManagerView { subs: after_send(closed.subs, sub_id, msg), ..closed };
            let after = closed.unicast(sub_id, msg);
            assert forall|i: int, wanted: Seq<char>|
                0 <= i < after.subs.len() && (#[trigger] after.subs[i]).ports.contains(
                    wanted,
                ) implies #[trigger] watched.contains(wanted) by {
                if after.subs == sent.subs {
                    assert(closed.subs[i].ports.contains(wanted));
                } else {
                    let k = subscription_index(sent.subs, sub_id);
                    let i0 = if i < k { i } else { i + 1 };
                    assert(after.subs[i] == sent.subs[i0]);
                    assert(closed.subs[i0].ports.contains(wanted));
                }
            }
        }
    }
}

/// Closing a port leaves no port open twice.
pub proof fn lemma_close_keeps_distinct(ports: Seq<Seq<char>>, port: Seq<char>)
    requires
        ports.no_duplicates(),
    ensures
        ports_after_close(ports, port).no_duplicates(),
    decreases ports.len(),
{
    reveal(Seq::filter);
    if ports.len() > 0 {
        lemma_close_keeps_distinct(ports.drop_last(), port);
        let earlier = ports_after_close(ports.drop_last(), port);
        let all = ports_after_close(ports, port);
        if ports.last() != port {
            assert(all == earlier.push(ports.last()));
            assert forall|i: int, j: int|
                0 <= i < all.len() && 0 <= j < all.len() && i != j implies all[i] != all[j] by {
                if i == all.len() - 1 || j == all.len() - 1 {
                    let other = if i == all.len() - 1 { j } else { i };
                    assert(earlier.contains(earlier[other]));
                    lemma_ports_after_close(ports.drop_last(), port);
                    assert(ports.drop_last().contains(earlier[other]));
                    let k = choose|k: int|
                        0 <= k < ports.drop_last().len() && ports.drop_last()[k] == earlier[other];
                    assert(ports[k] == earlier[other]);
                    assert(ports[ports.len() - 1] == ports.last());
                }
            }
        }
    }
}

/// Handling a request keeps the registries consistent.
pub proof fn lemma_request_keeps_consistent(
    m: ManagerView,
    sub_id: Seq<char>,
    request: RequestView,
)
    requires
        m.consistent(),
    ensures
        m.after_request(sub_id, request).state.consistent(),
{
    let step = m.request_step(sub_id, request);
    if step is Err {
        lemma_sending_keeps_consistent(m, sub_id, None, step->Err_0.response());
    } else {
        match request {
            RequestView::Open { port } => {
                lemma_open_keeps_consistent(m, sub_id, port, Ok(()));
            },
            RequestView::WriteLock { port } => {
                let locked = ManagerView { locks: m.locks.insert(port, sub_id), ..m };
                assert(locked.consistent());
                lemma_sending_keeps_consistent(
                    locked,
                    sub_id,
                    None,
                    ResponseView::WriteLocked { port },
                );
            },
            RequestView::ReleaseWriteLock { port } => {
                match port {
                    None => {
                        let released = ManagerView {
                            locks: locks_without_owner(m.locks, sub_id),
                            ..m
                        };
                        lemma_shrinking_keeps_consistent(m, released);
                        lemma_sending_keeps_consistent(
                            released,
                            sub_id,
                            None,
                            ResponseView::WriteLockReleased { port: None },
                        );
                    },
                    Some(name) => {
                        let released = ManagerView { locks: m.locks.remove(name), ..m };
                        lemma_shrinking_keeps_consistent(m, released);
                        lemma_sending_keeps_consistent(
                            released,
                            sub_id,
                            None,
                            ResponseView::WriteLockReleased { port: Some(name) },
                        );
                    },
                }
            },
            RequestView::Write { .. } => {},
            RequestView::Close { port } => {
                match port {
                    Some(name) => {
                        let closed = ManagerView {
                            subs: without_interest(m.subs, sub_id, name),
                            locks: if locked_by(m.locks, name, sub_id) {
                                m.locks.remove(name)
                            } else {
                                m.locks
                            },
                            ..m
                        };
                        lemma_shrinking_keeps_consistent(m, closed);
                        lemma_sending_keeps_consistent(
                            closed,
                            sub_id,
                            None,
                            ResponseView::Closed { port: name },
                        );
                    },
                    None => {
                        let cleared = m.released_all(sub_id);
                        lemma_shrinking_keeps_consistent(m, cleared);
                        lemma_close_unwatched_keeps_consistent(
                            cleared,
                            sub_id,
                            cleared.ports,
                            ports_with_interest(cleared.subs),
                        );
                    },
                }
            },
            RequestView::List => {},
        }
    }
}

/// Telling a subscription what the driver answered keeps the registries
/// consistent.
pub proof fn lemma_answer_keeps_consistent(
    m: ManagerView,
    sub_id: Seq<char>,
    port: Seq<char>,
    written: Result<(), DriverErrorView>,
    listed: Result<Seq<Seq<char>>, DriverErrorView>,
)
    requires
        m.consistent(),
    ensures
        m.after_write(sub_id, port, written).consistent(),
        m.after_list(sub_id, listed).consistent(),
{
    lemma_sending_keeps_consistent(
        m,
        sub_id,
        None,
        (ErrorView::OpenPortNotFound { port }).response(),
    );
    lemma_sending_keeps_consistent(m, sub_id, None, ResponseView::Wrote { port });
    if written is Err {
        lemma_sending_keeps_consistent(m, sub_id, None, written->Err_0.as_error().response());
    }
    match listed {
        Ok(ports) => {
            lemma_sending_keeps_consistent(m, sub_id, None, ResponseView::List { ports });
        },
        Err(e) => {
            lemma_sending_keeps_consistent(m, sub_id, None, e.as_error().response());
        },
    }
}

/// Dealing with what a sweep read keeps the registries consistent.
pub proof fn lemma_sweep_keeps_consistent(
    m: ManagerView,
    outcomes: Seq<PortOutcomeView>,
)
    requires
        m.consistent(),
    ensures
        m.after_outcomes(outcomes).consistent(),
    decreases outcomes.len(),
{
    if outcomes.len() > 0 {
        lemma_sweep_keeps_consistent(m, outcomes.drop_last());
        match outcomes.last().result {
            Ok(data) => {
                lemma_sending_keeps_consistent(
                    m.after_outcomes(outcomes.drop_last()),
                    outcomes.last().port,
                    Some(outcomes.last().port),
                    read_response_of(outcomes.last().port, data),
                );
            },
            Err(_) => {},
        }
    }
}

/// Tearing down bad ports keeps the registries consistent.
pub proof fn lemma_quarantine_keeps_consistent(m: ManagerView, bad: Seq<Seq<char>>)
    requires
        m.consistent(),
    ensures
        m.quarantine_all(bad).consistent(),
    decreases bad.len(),
{
    if bad.len() > 0 {
        lemma_quarantine_keeps_consistent(m, bad.drop_last());
        let earlier = m.quarantine_all(bad.drop_last());
        let port = bad.last();
        let failure = (ErrorView::PortReadError { port }).response();
        let first = earlier.broadcast(Some(port), failure);
        lemma_sending_keeps_consistent(earlier, port, Some(port), failure);
        let told = first.broadcast(Some(port), ResponseView::Closed { port });
        lemma_sending_keeps_consistent(first, port, Some(port), ResponseView::Closed { port });
        let after = earlier.quarantine(port);
        lemma_ports_after_close(told.ports, port);
        lemma_close_keeps_distinct(told.ports, port);
        assert forall|held: Seq<char>| after.locks.contains_key(held) implies has_subscription(
            after.subs,
            #[trigger] after.locks[held],
        ) by {
            let k = subscription_index(told.subs, told.locks[held]);
            assert(after.subs[k].sub_id == told.locks[held]);
        }
        assert forall|i: int, j: int| 0 <= i < j < after.subs.len() implies (
        #[trigger] after.subs[i]).sub_id != (#[trigger] after.subs[j]).sub_id by {
            assert(told.subs[i].sub_id != told.subs[j].sub_id);
        }
        assert forall|i: int, wanted: Seq<char>|
            0 <= i < after.subs.len() && (#[trigger] after.subs[i]).ports.contains(
                wanted,
            ) implies #[trigger] after.ports.contains(wanted) by {
            assert(told.subs[i].ports.contains(wanted));
            assert(told.ports.contains(wanted));
        }
    }
}

/// Registering subscriptions keeps the registries consistent.
pub proof fn lemma_registration_keeps_consistent(m: ManagerView, ids: Seq<Seq<char>>)
    requires
        m.consistent(),
    ensures
        m.registered(ids).consistent(),
    decreases ids.len(),
{
    if ids.len() > 0 {
        lemma_registration_keeps_consistent(m, ids.drop_last());
        let earlier = m.registered(ids.drop_last());
        let after = m.registered(ids);
        if !has_subscription(earlier.subs, ids.last()) {
            assert forall|held: Seq<char>| after.locks.contains_key(held) implies has_subscription(
                after.subs,
                #[trigger] after.locks[held],
            ) by {
                let k = subscription_index(earlier.subs, earlier.locks[held]);
                assert(after.subs[k].sub_id == earlier.locks[held]);
            }
            assert forall|i: int, j: int| 0 <= i < j < after.subs.len() implies (
            #[trigger] after.subs[i]).sub_id != (#[trigger] after.subs[j]).sub_id by {
                assert(after.subs[i] == earlier.subs[i]);
                if j < earlier.subs.len() {
                    assert(after.subs[j] == earlier.subs[j]);
                }
            }
            assert forall|i: int, wanted: Seq<char>|
                0 <= i < after.subs.len() && (#[trigger] after.subs[i]).ports.contains(
                    wanted,
                ) implies #[trigger] after.ports.contains(wanted) by {
                if i < earlier.subs.len() {
                    assert(after.subs[i] == earlier.subs[i]);
                }
            }
        }
    }
}

/// What the transport does keeps the registries consistent: a client
/// registers, takes a response, or goes away.
pub proof fn lemma_transport_keeps_consistent(m: ManagerView, sub_id: Seq<char>)
    requires
        m.consistent(),
    ensures
        (ManagerView { subs: with_subscription(m.subs, sub_id), ..m }).consistent(),
        (ManagerView { subs: after_take(m.subs, sub_id), ..m }).consistent(),
        (ManagerView { subs: after_flush(m.subs), ..m }).consistent(),
        (ManagerView { subs: after_disconnect(m.subs, sub_id), ..m }).consistent(),
        forall|msg: ResponseView| (#[trigger] m.undelivered(sub_id, msg)).consistent(),
{
    lemma_shrinking_keeps_consistent(m, ManagerView { subs: after_flush(m.subs), ..m });
    assert forall|msg: ResponseView| (#[trigger] m.undelivered(sub_id, msg)).consistent() by {
        let gone = ManagerView { subs: after_disconnect(m.subs, sub_id), ..m };
        lemma_shrinking_keeps_consistent(m, gone);
        lemma_sending_keeps_consistent(gone, sub_id, None, msg);
    }
    reveal_with_fuel(ManagerView::registered, 2);
    assert(seq![sub_id].drop_last() =~= Seq::<Seq<char>>::empty());
    lemma_registration_keeps_consistent(m, seq![sub_id]);
    assert(m.registered(seq![sub_id]) == (ManagerView {
        subs: with_subscription(m.subs, sub_id),
        ..m
    }));
    lemma_shrinking_keeps_consistent(m, ManagerView { subs: after_take(m.subs, sub_id), ..m });
    lemma_shrinking_keeps_consistent(m, ManagerView { subs: after_disconnect(m.subs, sub_id), ..m });
}

/// One cycle of service keeps the registries consistent: the sweep, the
/// registrations and the teardown of bad ports.
pub proof fn lemma_service_keeps_consistent(
    m: ManagerView,
    outcomes: Seq<PortOutcomeView>,
    ids: Seq<Seq<char>>,
    bad: Seq<Seq<char>>,
)
    requires
        m.consistent(),
    ensures
        m.after_outcomes(outcomes).registered(ids).quarantine_all(bad).consistent(),
{
    lemma_sweep_keeps_consistent(m, outcomes);
    lemma_registration_keeps_consistent(m.after_outcomes(outcomes), ids);
    lemma_quarantine_keeps_consistent(m.after_outcomes(outcomes).registered(ids), bad);
}

} // verus!
