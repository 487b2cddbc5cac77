//! What holds of the coordinator whatever the requests: a port has one
//! writer, opening and closing twice is harmless, a client that goes away
//! leaves nothing behind, and a bad port is torn down for all.

use vstd::prelude::*;
use crate::errors::ErrorView;
use crate::manager::{DriverCallView, ManagerView, Step};
use crate::messages::ResponseView;
use crate::names::other_than;
use crate::port_manager::{ports_after_close, ports_after_open, DriverErrorView};
use crate::sub_manager::{
    after_broadcast,
    after_send,
    broadcast_failures,
    distinct_ids,
    has_subscription,
    send_failure,
    subscription_index,
    with_interest,
    without_interest,
    without_port_anywhere,
    SubscriptionView,
};
use crate::writelock_manager::{locked_by, locked_by_other, locks_without_owner};

verus! {

/// Whether `sub_id` holds no write lock.
pub open spec fn holds_no_lock(locks: Map<Seq<char>, Seq<char>>, sub_id: Seq<char>) -> bool {
    forall|port: Seq<char>| locks.contains_key(port) ==> #[trigger] locks[port] != sub_id
}

/// Whether no subscription is interested in `port`.
pub open spec fn nobody_wants(subs: Seq<SubscriptionView>, port: Seq<char>) -> bool {
    forall|i: int| 0 <= i < subs.len() ==> !(#[trigger] subs[i]).ports.contains(port)
}

/// Whether the subscription `sub_id`, if it is registered, is interested
/// in no port.
pub open spec fn wants_nothing(subs: Seq<SubscriptionView>, sub_id: Seq<char>) -> bool {
    forall|i: int|
        0 <= i < subs.len() && (#[trigger] subs[i]).sub_id == sub_id ==> subs[i].ports
            == Set::<Seq<char>>::empty()
}

/// Whether every subscription interested in `port` can be reached.
pub open spec fn watchers_connected(subs: Seq<SubscriptionView>, port: Seq<char>) -> bool {
    forall|i: int|
        0 <= i < subs.len() && (#[trigger] subs[i]).ports.contains(port) ==> subs[i].connected
}

/// A port has one writer. While `holder` holds the write lock on `port`,
/// another subscription can neither take the lock nor write the port:
/// both requests fail, with `AlreadyWriteLocked` if the other is
/// registered. A write by the holder goes to the driver if the holder is
/// registered and the port open, and once the driver has written, the
/// holder is told `Wrote`.
pub proof fn lemma_single_writer(
    m: ManagerView,
    port: Seq<char>,
    holder: Seq<char>,
    other: Seq<char>,
    data: Seq<u8>,
)
    requires
        locked_by(m.locks, port, holder),
        holder != other,
    ensures
        locked_by_other(m.locks, port, other),
        m.write_lock_outcome(other, port) is Err,
        m.write_step(other, port, Ok(data)) is Err,
        has_subscription(m.subs, other) ==> m.write_lock_outcome(other, port) == Err::<
            ManagerView,
            ErrorView,
        >(ErrorView::AlreadyWriteLocked { port }) && m.write_step(other, port, Ok(data)) == Err::<
            Step,
            ErrorView,
        >(ErrorView::AlreadyWriteLocked { port }),
        has_subscription(m.subs, holder) && m.ports.contains(port) ==> m.write_step(
            holder,
            port,
            Ok(data),
        ) == Ok::<Step, ErrorView>(
            Step { state: m, call: Some(DriverCallView::Write { port, data }) },
        ) && m.after_write(holder, port, Ok(())) == m.unicast(holder, ResponseView::Wrote { port }),
{
}

/// A lock stays with its holder. A request of another subscription to take
/// or to release the write lock on `port` leaves the locks and the open
/// ports as they were.
pub proof fn lemma_lock_of_another_untouched(
    m: ManagerView,
    port: Seq<char>,
    holder: Seq<char>,
    other: Seq<char>,
)
    requires
        m.wf(),
        locked_by(m.locks, port, holder),
        holder != other,
    ensures
        m.release_outcome(other, Some(port)) is Err,
        has_subscription(m.subs, other) ==> m.release_outcome(other, Some(port)) == Err::<
            ManagerView,
            ErrorView,
        >(ErrorView::AlreadyWriteLocked { port }),
        locked_by(m.settle(other, m.release_outcome(other, Some(port))).locks, port, holder),
        locked_by(m.settle(other, m.write_lock_outcome(other, port)).locks, port, holder),
        m.settle(other, m.release_outcome(other, Some(port))).ports == m.ports,
        m.settle(other, m.write_lock_outcome(other, port)).ports == m.ports,
{
    lemma_unicast_frame(m, other, m.release_outcome(other, Some(port))->Err_0.response());
    lemma_unicast_frame(m, other, m.write_lock_outcome(other, port)->Err_0.response());
}

/// What a unicast can change: the open ports never; a lock only by
/// releasing it, and only if the receiver held it.
pub proof fn lemma_unicast_frame(m: ManagerView, sub_id: Seq<char>, msg: ResponseView)
    ensures
        m.unicast(sub_id, msg).ports == m.ports,
        forall|port: Seq<char>|
            #![trigger m.unicast(sub_id, msg).locks.contains_key(port)]
            m.locks.contains_key(port) && m.locks[port] != sub_id ==> m.unicast(
                sub_id,
                msg,
            ).locks.contains_key(port) && m.unicast(sub_id, msg).locks[port] == m.locks[port],
        forall|port: Seq<char>|
            #![trigger m.unicast(sub_id, msg).locks.contains_key(port)]
            m.unicast(sub_id, msg).locks.contains_key(port) ==> m.locks.contains_key(port)
                && m.unicast(sub_id, msg).locks[port] == m.locks[port],
        holds_no_lock(m.locks, sub_id) ==> m.unicast(sub_id, msg).locks == m.locks,
{
    if holds_no_lock(m.locks, sub_id) {
        assert(locks_without_owner(m.locks, sub_id) =~= m.locks);
    }
}

/// Opening twice is harmless. For a registered subscription an `Open`
/// request for a port that is open already needs no driver call, succeeds,
/// and leaves the open ports as they were: no port is ever open twice.
/// After a successful `Open` the port is open, so an interest is only ever
/// registered in an open port.
pub proof fn lemma_open_is_idempotent(
    m: ManagerView,
    sub_id: Seq<char>,
    port: Seq<char>,
    device: Result<(), DriverErrorView>,
)
    requires
        m.wf(),
        has_subscription(m.subs, sub_id),
    ensures
        m.ports.contains(port) ==> !m.open_needs_driver(sub_id, port) && m.open_step(sub_id, port)
            is Ok && m.open_step(sub_id, port)->Ok_0.call is None && m.open_step(
            sub_id,
            port,
        )->Ok_0.state.ports == m.ports,
        m.ports.contains(port) ==> m.open_outcome(sub_id, port, device) is Ok && m.open_outcome(
            sub_id,
            port,
            device,
        )->Ok_0.ports == m.ports,
        m.open_outcome(sub_id, port, device) is Ok ==> m.open_outcome(
            sub_id,
            port,
            device,
        )->Ok_0.ports.contains(port) && m.open_outcome(sub_id, port, device)->Ok_0.ports.no_duplicates(),
        ports_after_open(ports_after_open(m.ports, port, Ok(())), port, device) == ports_after_open(
            m.ports,
            port,
            Ok(()),
        ),
{
    let opened = ManagerView {
        ports: ports_after_open(m.ports, port, device),
        subs: with_interest(m.subs, sub_id, port),
        ..m
    };
    lemma_unicast_frame(opened, sub_id, ResponseView::Opened { port });
    let once = ports_after_open(m.ports, port, Ok(()));
    if m.ports.contains(port) {
        assert(once == m.ports);
    } else {
        assert(once[once.len() - 1] == port);
        assert(once.contains(port));
    }
    if !m.ports.contains(port) && device is Ok {
        let after = ports_after_open(m.ports, port, device);
        assert(after[after.len() - 1] == port);
        assert(after.contains(port));
    }
}

/// Closing twice is harmless. Giving up an interest that is not there
/// changes no interest set, and giving it up twice is the same as once.
pub proof fn lemma_close_is_idempotent(subs: Seq<SubscriptionView>, sub_id: Seq<char>, port: Seq<char>)
    ensures
        without_interest(without_interest(subs, sub_id, port), sub_id, port) == without_interest(
            subs,
            sub_id,
            port,
        ),
        (forall|i: int|
            0 <= i < subs.len() && (#[trigger] subs[i]).sub_id == sub_id ==> !subs[i].ports.contains(
                port,
            )) ==> without_interest(subs, sub_id, port) == subs,
{
    let once = without_interest(subs, sub_id, port);
    let twice = without_interest(once, sub_id, port);
    assert forall|i: int| 0 <= i < subs.len() implies twice[i] == once[i] by {
        if subs[i].sub_id == sub_id {
            assert(once[i].ports.remove(port) =~= once[i].ports);
        }
    }
    assert(twice =~= once);
    if forall|i: int|
        0 <= i < subs.len() && (#[trigger] subs[i]).sub_id == sub_id ==> !subs[i].ports.contains(port) {
        assert forall|i: int| 0 <= i < subs.len() implies once[i] == subs[i] by {
            if subs[i].sub_id == sub_id {
                assert(subs[i].ports.remove(port) =~= subs[i].ports);
            }
        }
        assert(once =~= subs);
    }
}

/// Dropping a subscriber leaves nothing of it: no subscription under its
/// id and no write lock in its name. The other subscriptions keep
/// distinct ids.
pub proof fn lemma_drop_subscriber(m: ManagerView, sub_id: Seq<char>)
    requires
        distinct_ids(m.subs),
    ensures
        !has_subscription(m.drop_subscriber(sub_id).subs, sub_id),
        holds_no_lock(m.drop_subscriber(sub_id).locks, sub_id),
        distinct_ids(m.drop_subscriber(sub_id).subs),
        m.drop_subscriber(sub_id).ports == m.ports,
        forall|other: Seq<char>|
            !has_subscription(m.subs, other) ==> !has_subscription(
                #[trigger] m.drop_subscriber(sub_id).subs,
                other,
            ),
        forall|other: Seq<char>|
            holds_no_lock(m.locks, other) ==> holds_no_lock(
                #[trigger] m.drop_subscriber(sub_id).locks,
                other,
            ),
{
    let after = m.drop_subscriber(sub_id).subs;
    if has_subscription(m.subs, sub_id) {
        let k = subscription_index(m.subs, sub_id);
        assert(after == m.subs.remove(k));
        assert forall|i: int| 0 <= i < after.len() implies (#[trigger] after[i]).sub_id
            != sub_id by {
            if i < k {
                assert(after[i] == m.subs[i]);
            } else {
                assert(after[i] == m.subs[i + 1]);
            }
        }
        assert forall|i: int, j: int| 0 <= i < j < after.len() implies (#[trigger] after[i]).sub_id != (
        #[trigger] after[j]).sub_id by {
            let i0 = if i < k { i } else { i + 1 };
            let j0 = if j < k { j } else { j + 1 };
            assert(after[i] == m.subs[i0]);
            assert(after[j] == m.subs[j0]);
        }
        assert forall|other: Seq<char>| !has_subscription(m.subs, other) implies !has_subscription(
            after,
            other,
        ) by {
            if has_subscription(after, other) {
                let i = subscription_index(after, other);
                let i0 = if i < k { i } else { i + 1 };
                assert(after[i] == m.subs[i0]);
                assert(m.subs[i0].sub_id == other);
            }
        }
    }
}

/// Resolving failures never brings a subscriber or a lock back: what was
/// gone before is gone after, and ids stay distinct.
pub proof fn lemma_cleanup_keeps_gone(m: ManagerView, failures: Seq<ErrorView>, sub_id: Seq<char>)
    requires
        distinct_ids(m.subs),
    ensures
        distinct_ids(m.cleanup(failures).subs),
        m.cleanup(failures).ports == m.ports,
        !has_subscription(m.subs, sub_id) ==> !has_subscription(m.cleanup(failures).subs, sub_id),
        holds_no_lock(m.locks, sub_id) ==> holds_no_lock(m.cleanup(failures).locks, sub_id),
    decreases failures.len(),
{
    if failures.len() > 0 {
        lemma_cleanup_keeps_gone(m, failures.drop_last(), sub_id);
        let earlier = m.cleanup(failures.drop_last());
        match failures.last() {
            ErrorView::SubscriberSendError { subscription_id } => {
                lemma_drop_subscriber(earlier, subscription_id);
            },
            _ => {},
        }
    }
}

/// Resolving the failure of a send to `sub_id` leaves nothing of it.
pub proof fn lemma_cleanup_drops(m: ManagerView, failures: Seq<ErrorView>, sub_id: Seq<char>)
    requires
        distinct_ids(m.subs),
        failures.contains(ErrorView::SubscriberSendError { subscription_id: sub_id }),
    ensures
        !has_subscription(m.cleanup(failures).subs, sub_id),
        holds_no_lock(m.cleanup(failures).locks, sub_id),
    decreases failures.len(),
{
    let wanted = ErrorView::SubscriberSendError { subscription_id: sub_id };
    let earlier = m.cleanup(failures.drop_last());
    lemma_cleanup_keeps_gone(m, failures.drop_last(), sub_id);
    if failures.last() == wanted {
        lemma_drop_subscriber(earlier, sub_id);
    } else {
        let k = choose|k: int| 0 <= k < failures.len() && failures[k] == wanted;
        assert(failures.drop_last()[k] == wanted);
        lemma_cleanup_drops(m, failures.drop_last(), sub_id);
        match failures.last() {
            ErrorView::SubscriberSendError { subscription_id } => {
                lemma_drop_subscriber(earlier, subscription_id);
            },
            _ => {},
        }
    }
}

/// A broadcast fails for every subscription it goes to that cannot be
/// reached.
pub proof fn lemma_unreachable_fails(subs: Seq<SubscriptionView>, port: Option<Seq<char>>, k: int)
    requires
        0 <= k < subs.len(),
        subs[k].wants(port),
        !subs[k].connected,
    ensures
        broadcast_failures(subs, port).contains(
            ErrorView::SubscriberSendError { subscription_id: subs[k].sub_id },
        ),
    decreases subs.len(),
{
    let wanted = ErrorView::SubscriberSendError { subscription_id: subs[k].sub_id };
    let all = broadcast_failures(subs, port);
    if k == subs.len() - 1 {
        assert(all[all.len() - 1] == wanted);
    } else {
        lemma_unreachable_fails(subs.drop_last(), port, k);
        let earlier = broadcast_failures(subs.drop_last(), port);
        let i = choose|i: int| 0 <= i < earlier.len() && earlier[i] == wanted;
        assert(all[i] == wanted);
    }
}

/// A broadcast fails for nobody where every subscription it goes to can
/// be reached.
pub proof fn lemma_reachable_succeed(subs: Seq<SubscriptionView>, port: Option<Seq<char>>)
    requires
        forall|i: int| 0 <= i < subs.len() && (#[trigger] subs[i]).wants(port) ==> subs[i].connected,
    ensures
        broadcast_failures(subs, port) == Seq::<ErrorView>::empty(),
    decreases subs.len(),
{
    if subs.len() > 0 {
        assert forall|i: int|
            0 <= i < subs.drop_last().len() && (#[trigger] subs.drop_last()[i]).wants(
                port,
            ) implies subs.drop_last()[i].connected by {
            assert(subs.drop_last()[i] == subs[i]);
        }
        lemma_reachable_succeed(subs.drop_last(), port);
        assert(subs.last() == subs[subs.len() - 1]);
    }
}

/// A client that goes away leaves nothing behind. Once the client of
/// `sub_id` is gone, the first response sent to it, alone or in a
/// broadcast that goes to it, ends the subscription: afterwards no
/// subscription is registered under the id and no write lock is held in
/// its name.
pub proof fn lemma_failed_delivery_ends_subscription(
    m: ManagerView,
    sub_id: Seq<char>,
    port: Option<Seq<char>>,
    msg: ResponseView,
)
    requires
        m.wf(),
        has_subscription(m.subs, sub_id),
        !m.subs[subscription_index(m.subs, sub_id)].connected,
    ensures
        !has_subscription(m.unicast(sub_id, msg).subs, sub_id),
        holds_no_lock(m.unicast(sub_id, msg).locks, sub_id),
        m.subs[subscription_index(m.subs, sub_id)].wants(port) ==> !has_subscription(
            m.broadcast(port, msg).subs,
            sub_id,
        ) && holds_no_lock(m.broadcast(port, msg).locks, sub_id),
{
    let k = subscription_index(m.subs, sub_id);
    let sent = ManagerView { subs: after_send(m.subs, sub_id, msg), ..m };
    assert(distinct_ids(sent.subs));
    lemma_drop_subscriber(sent, sub_id);
    if m.subs[k].wants(port) {
        let told = ManagerView { subs: after_broadcast(m.subs, port, msg), ..m };
        assert(distinct_ids(told.subs));
        lemma_unreachable_fails(m.subs, port, k);
        lemma_cleanup_drops(told, broadcast_failures(m.subs, port), sub_id);
    }
}

/// A response that could not be delivered ends the subscription: once the
/// transport has reported the failure, no subscription is registered under
/// the id and no write lock is held in its name.
pub proof fn lemma_undelivered_ends_subscription(m: ManagerView, sub_id: Seq<char>, msg: ResponseView)
    requires
        m.consistent(),
    ensures
        !has_subscription(m.undelivered(sub_id, msg).subs, sub_id),
        holds_no_lock(m.undelivered(sub_id, msg).locks, sub_id),
{
    let gone = ManagerView { subs: crate::sub_manager::after_disconnect(m.subs, sub_id), ..m };
    assert(distinct_ids(gone.subs));
    if has_subscription(m.subs, sub_id) {
        let k = subscription_index(m.subs, sub_id);
        assert(gone.subs[k].sub_id == sub_id);
        let j = subscription_index(gone.subs, sub_id);
        assert(gone.subs[j].sub_id == gone.subs[k].sub_id);
        assert(j == k);
        lemma_failed_delivery_ends_subscription(gone, sub_id, None, msg);
    } else {
        assert(!has_subscription(gone.subs, sub_id)) by {
            if has_subscription(gone.subs, sub_id) {
                let j = subscription_index(gone.subs, sub_id);
                assert(m.subs[j].sub_id == sub_id);
            }
        }
        let sent = ManagerView { subs: after_send(gone.subs, sub_id, msg), ..gone };
        assert(sent.subs =~= gone.subs);
        assert forall|port: Seq<char>| m.locks.contains_key(port) implies #[trigger] m.locks[port]
            != sub_id by {
            assert(has_subscription(m.subs, m.locks[port]));
        }
    }
}

/// What closing the unwatched ports keeps: a subscription that holds no
/// lock and wants nothing is still so afterwards.
proof fn lemma_close_unwatched_keeps(
    m: ManagerView,
    sub_id: Seq<char>,
    ports: Seq<Seq<char>>,
    watched: Set<Seq<char>>,
)
    requires
        distinct_ids(m.subs),
        holds_no_lock(m.locks, sub_id),
        wants_nothing(m.subs, sub_id),
    ensures
        distinct_ids(m.close_unwatched(sub_id, ports, watched).subs),
        holds_no_lock(m.close_unwatched(sub_id, ports, watched).locks, sub_id),
        wants_nothing(m.close_unwatched(sub_id, ports, watched).subs, sub_id),
    decreases ports.len(),
{
    if ports.len() > 0 {
        lemma_close_unwatched_keeps(m, sub_id, ports.drop_last(), watched);
        let earlier = m.close_unwatched(sub_id, ports.drop_last(), watched);
        if !watched.contains(ports.last()) {
            let closed = earlier.closed(ports.last());
            let msg = ResponseView::Closed { port: ports.last() };
            let sent = ManagerView { subs: after_send(closed.subs, sub_id, msg), ..closed };
            assert(distinct_ids(sent.subs));
            assert(wants_nothing(sent.subs, sub_id));
            lemma_drop_subscriber(sent, sub_id);
            match send_failure(closed.subs, sub_id) {
                Some(failure) => {
                    match failure {
                        ErrorView::SubscriberSendError { subscription_id } => {
                            assert(subscription_id == sub_id);
                            assert(wants_nothing(sent.drop_subscriber(sub_id).subs, sub_id));
                        },
                        _ => {},
                    }
                },
                None => {},
            }
        }
    }
}

/// A full close leaves nothing behind. After a `Close` request without a
/// port, `sub_id` holds no write lock and is interested in no port.
pub proof fn lemma_full_close_releases_everything(m: ManagerView, sub_id: Seq<char>)
    requires
        m.wf(),
    ensures
        holds_no_lock(m.after_close_all(sub_id).locks, sub_id),
        wants_nothing(m.after_close_all(sub_id).subs, sub_id),
{
    let cleared = m.released_all(sub_id);
    assert(distinct_ids(cleared.subs));
    lemma_close_unwatched_keeps(
        cleared,
        sub_id,
        cleared.ports,
        crate::sub_manager::ports_with_interest(cleared.subs),
    );
}

/// The ports that are left after one is closed: all the others, and not
/// that one.
pub proof fn lemma_ports_after_close(ports: Seq<Seq<char>>, port: Seq<char>)
    ensures
        !ports_after_close(ports, port).contains(port),
        forall|other: Seq<char>|
            other != port ==> (#[trigger] ports_after_close(ports, port).contains(other)
                <==> ports.contains(other)),
{
    let keep = other_than(port);
    let left = ports_after_close(ports, port);
    broadcast use vstd::seq_lib::group_filter_ensures;

    if left.contains(port) {
        let k = choose|k: int| 0 <= k < left.len() && left[k] == port;
        ports.lemma_filter_pred(keep, k);
    }
    assert forall|other: Seq<char>| other != port implies (left.contains(other) <==> ports.contains(
        other,
    )) by {
        if left.contains(other) {
            ports.lemma_filter_contains_rev(keep, other);
        }
        if ports.contains(other) {
            let k = choose|k: int| 0 <= k < ports.len() && ports[k] == other;
            assert(keep(ports[k]));
            ports.lemma_filter_contains(keep, k);
        }
    }
}

/// A bad port is torn down for all. After the quarantine of `port` the
/// port is not open, no lock is held on it and nobody is interested in
/// it. Where every subscription interested in the port can be reached,
/// each of them is sent exactly the read error and then `Closed`, and the
/// others are sent nothing.
pub proof fn lemma_quarantine(m: ManagerView, port: Seq<char>)
    requires
        m.wf(),
    ensures
        !m.quarantine(port).ports.contains(port),
        !m.quarantine(port).locks.contains_key(port),
        nobody_wants(m.quarantine(port).subs, port),
        watchers_connected(m.subs, port) ==> m.quarantine(port).subs == m.subs.map_values(
            |s: SubscriptionView|
                if s.ports.contains(port) {
                    s.sent((ErrorView::PortReadError { port }).response()).sent(
                        ResponseView::Closed { port },
                    ).without_port(port)
                } else {
                    s
                },
        ),
{
    let failure = (ErrorView::PortReadError { port }).response();
    let closed = ResponseView::Closed { port };
    let first = m.broadcast(Some(port), failure);
    let told = first.broadcast(Some(port), closed);
    lemma_ports_after_close(told.ports, port);
    if watchers_connected(m.subs, port) {
        lemma_reachable_succeed(m.subs, Some(port));
        assert(first.subs == after_broadcast(m.subs, Some(port), failure));
        assert forall|i: int|
            0 <= i < first.subs.len() && (#[trigger] first.subs[i]).wants(
                Some(port),
            ) implies first.subs[i].connected by {
            assert(m.subs[i].ports.contains(port));
        }
        lemma_reachable_succeed(first.subs, Some(port));
        assert(told.subs == after_broadcast(first.subs, Some(port), closed));
        let expected = m.subs.map_values(
            |s: SubscriptionView|
                if s.ports.contains(port) {
                    s.sent(failure).sent(closed).without_port(port)
                } else {
                    s
                },
        );
        assert forall|i: int| 0 <= i < m.subs.len() implies without_port_anywhere(told.subs, port)[i]
            == expected[i] by {
            if !m.subs[i].ports.contains(port) {
                assert(m.subs[i].ports.remove(port) =~= m.subs[i].ports);
            }
        }
        assert(m.quarantine(port).subs =~= expected);
    }
}

} // verus!
