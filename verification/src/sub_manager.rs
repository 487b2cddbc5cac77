//! The subscription registry: the connected clients, the ports each is
//! interested in, and the responses on their way to each.
//!
//! A subscription's route is a queue of responses that the transport takes
//! from, and a mark that says whether the client is still there. A send to
//! a client that is gone fails; ending such a subscription is left to the
//! caller.

use vstd::prelude::*;
use crate::errors::{ErrorView, WebsocketSerialServerError};
use crate::messages::{ResponseView, SerialResponse, SubscriptionRequest};
use crate::names::{contains_name, insert_name, remove_name};

verus! {

/// One subscription.
struct Subscription {
    /// The id of the session.
    sub_id: String,
    /// The ports it is subscribed to.
    ports: Vec<String>,
    /// The responses sent to it that the transport has not taken yet,
    /// oldest first.
    outbox: Vec<SerialResponse>,
    /// Whether the route still leads to a client.
    connected: bool,
}

/// The mathematical value of a subscription.
pub struct SubscriptionView {
    /// The id of the session.
    pub sub_id: Seq<char>,
    /// The ports it is interested in.
    pub ports: Set<Seq<char>>,
    /// The responses queued for it, oldest first.
    pub queued: Seq<ResponseView>,
    /// Whether its route accepts responses.
    pub connected: bool,
}

impl SubscriptionView {
    /// A new subscription: connected, interested in nothing, nothing queued.
    pub open spec fn fresh(sub_id: Seq<char>) -> SubscriptionView {
        SubscriptionView { sub_id, ports: Set::empty(), queued: Seq::empty(), connected: true }
    }

    /// The subscription, also interested in `port`.
    pub open spec fn with_port(self, port: Seq<char>) -> SubscriptionView {
        SubscriptionView { ports: self.ports.insert(port), ..self }
    }

    /// The subscription, no longer interested in `port`.
    pub open spec fn without_port(self, port: Seq<char>) -> SubscriptionView {
        SubscriptionView { ports: self.ports.remove(port), ..self }
    }

    /// The subscription, interested in nothing.
    pub open spec fn without_ports(self) -> SubscriptionView {
        SubscriptionView { ports: Set::empty(), ..self }
    }

    /// The subscription after `msg` was sent to it: queued if the route is
    /// connected, lost otherwise.
    pub open spec fn sent(self, msg: ResponseView) -> SubscriptionView {
        if self.connected {
            SubscriptionView { queued: self.queued.push(msg), ..self }
        } else {
            self
        }
    }

    /// The subscription after the transport took the oldest queued response.
    pub open spec fn taken(self) -> SubscriptionView {
        if self.queued.len() > 0 {
            SubscriptionView { queued: self.queued.drop_first(), ..self }
        } else {
            self
        }
    }

    /// The subscription after its client went away.
    pub open spec fn disconnected(self) -> SubscriptionView {
        SubscriptionView { connected: false, ..self }
    }

    /// Whether a broadcast for `port` (for everyone, if `None`) goes to the
    /// subscription.
    pub open spec fn wants(self, port: Option<Seq<char>>) -> bool {
        match port {
            Some(name) => self.ports.contains(name),
            None => true,
        }
    }
}

/// Whether a subscription with the id `sub_id` is registered.
pub open spec fn has_subscription(subs: Seq<SubscriptionView>, sub_id: Seq<char>) -> bool {
    exists|i: int| 0 <= i < subs.len() && #[trigger] subs[i].sub_id == sub_id
}

/// The place of the subscription `sub_id` in the registry, where it is
/// registered.
pub open spec fn subscription_index(subs: Seq<SubscriptionView>, sub_id: Seq<char>) -> int {
    choose|i: int| 0 <= i < subs.len() && #[trigger] subs[i].sub_id == sub_id
}

/// No two subscriptions share an id.
pub open spec fn distinct_ids(subs: Seq<SubscriptionView>) -> bool {
    forall|i: int, j: int|
        0 <= i < j < subs.len() ==> (#[trigger] subs[i]).sub_id != (#[trigger] subs[j]).sub_id
}

/// The registry after `sub_id` registered interest in `port`.
pub open spec fn with_interest(
    subs: Seq<SubscriptionView>,
    sub_id: Seq<char>,
    port: Seq<char>,
) -> Seq<SubscriptionView> {
    subs.map_values(
        |s: SubscriptionView|
            if s.sub_id == sub_id {
                s.with_port(port)
            } else {
                s
            },
    )
}

/// The registry after `sub_id` gave up its interest in `port`.
pub open spec fn without_interest(
    subs: Seq<SubscriptionView>,
    sub_id: Seq<char>,
    port: Seq<char>,
) -> Seq<SubscriptionView> {
    subs.map_values(
        |s: SubscriptionView|
            if s.sub_id == sub_id {
                s.without_port(port)
            } else {
                s
            },
    )
}

/// The registry after `port` was taken out of every interest set.
pub open spec fn without_port_anywhere(subs: Seq<SubscriptionView>, port: Seq<char>) -> Seq<
    SubscriptionView,
> {
    subs.map_values(|s: SubscriptionView| s.without_port(port))
}

/// The registry after the interest set of `sub_id`, or of everyone if
/// `None`, was emptied.
pub open spec fn with_cleared_interest(
    subs: Seq<SubscriptionView>,
    sub_id: Option<Seq<char>>,
) -> Seq<SubscriptionView> {
    subs.map_values(
        |s: SubscriptionView|
            if sub_id is None || sub_id == Some(s.sub_id) {
                s.without_ports()
            } else {
                s
            },
    )
}

/// The registry after `sub_id` registered: unchanged if it was registered
/// already.
pub open spec fn with_subscription(subs: Seq<SubscriptionView>, sub_id: Seq<char>) -> Seq<
    SubscriptionView,
> {
    if has_subscription(subs, sub_id) {
        subs
    } else {
        subs.push(SubscriptionView::fresh(sub_id))
    }
}

/// The registry after the subscription `sub_id` ended.
pub open spec fn without_subscription(subs: Seq<SubscriptionView>, sub_id: Seq<char>) -> Seq<
    SubscriptionView,
> {
    if has_subscription(subs, sub_id) {
        subs.remove(subscription_index(subs, sub_id))
    } else {
        subs
    }
}

/// Why a send to `sub_id` fails, if it does.
pub open spec fn send_failure(subs: Seq<SubscriptionView>, sub_id: Seq<char>) -> Option<ErrorView> {
    if !has_subscription(subs, sub_id) {
        Some(ErrorView::SubscriptionNotFound { subscription_id: sub_id })
    } else if !subs[subscription_index(subs, sub_id)].connected {
        Some(ErrorView::SubscriberSendError { subscription_id: sub_id })
    } else {
        None
    }
}

/// The registry after `msg` was sent to `sub_id`.
pub open spec fn after_send(
    subs: Seq<SubscriptionView>,
    sub_id: Seq<char>,
    msg: ResponseView,
) -> Seq<SubscriptionView> {
    subs.map_values(
        |s: SubscriptionView|
            if s.sub_id == sub_id {
                s.sent(msg)
            } else {
                s
            },
    )
}

/// The registry after `msg` was broadcast for `port`, or to everyone if
/// `None`.
pub open spec fn after_broadcast(
    subs: Seq<SubscriptionView>,
    port: Option<Seq<char>>,
    msg: ResponseView,
) -> Seq<SubscriptionView> {
    subs.map_values(
        |s: SubscriptionView|
            if s.wants(port) {
                s.sent(msg)
            } else {
                s
            },
    )
}

/// The failures of a broadcast for `port`, or to everyone if `None`: one
/// for each subscription it goes to whose client is gone, in the order of
/// the registry.
pub open spec fn broadcast_failures(subs: Seq<SubscriptionView>, port: Option<Seq<char>>) -> Seq<
    ErrorView,
>
    decreases subs.len(),
{
    if subs.len() == 0 {
        Seq::empty()
    } else {
        let earlier = broadcast_failures(subs.drop_last(), port);
        if subs.last().wants(port) && !subs.last().connected {
            earlier.push(ErrorView::SubscriberSendError { subscription_id: subs.last().sub_id })
        } else {
            earlier
        }
    }
}

/// The registry after the transport took the oldest response queued for
/// `sub_id`.
pub open spec fn after_take(subs: Seq<SubscriptionView>, sub_id: Seq<char>) -> Seq<
    SubscriptionView,
> {
    subs.map_values(
        |s: SubscriptionView|
            if s.sub_id == sub_id {
                s.taken()
            } else {
                s
            },
    )
}

/// A response on its way to a subscription.
#[derive(Clone, Debug, PartialEq)]
pub struct Delivery {
    /// The subscription the response is for.
    pub sub_id: String,
    /// The response.
    pub response: SerialResponse,
}

/// The mathematical value of a [`Delivery`].
pub struct DeliveryView {
    pub sub_id: Seq<char>,
    pub response: ResponseView,
}

impl View for Delivery {
    type V = DeliveryView;

    open spec fn view(&self) -> DeliveryView {
        DeliveryView { sub_id: self.sub_id@, response: self.response@ }
    }
}

impl DeepView for Delivery {
    type V = DeliveryView;

    open spec fn deep_view(&self) -> DeliveryView {
        self@
    }
}

/// The responses queued for one subscription, each with the id of the
/// subscription, oldest first.
pub open spec fn queued_for(s: SubscriptionView) -> Seq<DeliveryView> {
    s.queued.map_values(|msg: ResponseView| DeliveryView { sub_id: s.sub_id, response: msg })
}

/// All the queued responses: those of the first subscription, then those
/// of the second, and so on.
pub open spec fn outgoing(subs: Seq<SubscriptionView>) -> Seq<DeliveryView>
    decreases subs.len(),
{
    if subs.len() == 0 {
        Seq::empty()
    } else {
        outgoing(subs.drop_last()) + queued_for(subs.last())
    }
}

/// The registry after the transport took all the queued responses.
pub open spec fn after_flush(subs: Seq<SubscriptionView>) -> Seq<SubscriptionView> {
    subs.map_values(|s: SubscriptionView| SubscriptionView { queued: Seq::empty(), ..s })
}

/// The registry after the client of `sub_id` went away.
pub open spec fn after_disconnect(subs: Seq<SubscriptionView>, sub_id: Seq<char>) -> Seq<
    SubscriptionView,
> {
    subs.map_values(
        |s: SubscriptionView|
            if s.sub_id == sub_id {
                s.disconnected()
            } else {
                s
            },
    )
}

/// The ports that at least one subscription is interested in.
pub open spec fn ports_with_interest(subs: Seq<SubscriptionView>) -> Set<Seq<char>> {
    Set::new(|port: Seq<char>| exists|i: int| 0 <= i < subs.len() && (#[trigger] subs[i]).ports.contains(port))
}

/// The ids of the subscriptions, in the order of the registry.
pub open spec fn ids_of(subs: Seq<SubscriptionView>) -> Seq<Seq<char>> {
    subs.map_values(|s: SubscriptionView| s.sub_id)
}

impl View for Subscription {
    type V = SubscriptionView;

    closed spec fn view(&self) -> SubscriptionView {
        SubscriptionView {
            sub_id: self.sub_id@,
            ports: self.ports.deep_view().to_set(),
            queued: self.outbox.deep_view(),
            connected: self.connected,
        }
    }
}

impl Subscription {
    /// Send a message to the subscriber.
    fn send_message(&mut self, msg: SerialResponse) -> (outcome: Result<
        (),
        WebsocketSerialServerError,
    >)
        ensures
            final(self)@ == old(self)@.sent(msg@),
            outcome is Ok <==> old(self)@.connected,
            outcome is Err ==> outcome->Err_0@ == (ErrorView::SubscriberSendError {
                subscription_id: old(self)@.sub_id,
            }),
    {
        if self.connected {
            self.outbox.push(msg);
            assert(self.outbox.deep_view() =~= old(self).outbox.deep_view().push(msg@));
            Ok(())
        } else {
            Err(WebsocketSerialServerError::SubscriberSendError { subscription_id: self.sub_id.clone() })
        }
    }

    /// Register interest in a port.
    fn add_port(&mut self, port_name: &String)
        ensures
            final(self)@ == old(self)@.with_port(port_name@),
    {
        insert_name(&mut self.ports, port_name);
    }

    /// Remove interest in a port.
    fn remove_port(&mut self, port_name: &String)
        ensures
            final(self)@ == old(self)@.without_port(port_name@),
    {
        remove_name(&mut self.ports, port_name);
    }

    /// Remove interest in all ports.
    fn remove_all_ports(&mut self)
        ensures
            final(self)@ == old(self)@.without_ports(),
    {
        self.ports.clear();
        assert(self.ports.deep_view().to_set() =~= Set::<Seq<char>>::empty());
    }
}

/// The subscription manager maintains a registry of subscriptions and
/// their ports, and provides methods for sending messages to subscribers.
pub struct SubscriptionManager {
    /// The subscriptions, in the order in which they registered.
    subscriptions: Vec<Subscription>,
}

impl View for SubscriptionManager {
    type V = Seq<SubscriptionView>;

    closed spec fn view(&self) -> Seq<SubscriptionView> {
        self.subscriptions@.map_values(|s: Subscription| s@)
    }
}

impl SubscriptionManager {
    /// No two subscriptions share an id.
    pub open spec fn wf(&self) -> bool {
        distinct_ids(self@)
    }

    /// Create a new SubscriptionManager instance.
    pub fn new() -> (manager: SubscriptionManager)
        ensures
            manager.wf(),
            manager@ == Seq::<SubscriptionView>::empty(),
    {
        let manager = SubscriptionManager { subscriptions: Vec::new() };
        assert(manager@ =~= Seq::<SubscriptionView>::empty());
        manager
    }

    /// The place of the subscription `sub_id`, if it is registered.
    fn find(&self, sub_id: &String) -> (place: Option<usize>)
        requires
            self.wf(),
        ensures
            match place {
                Some(i) => i < self@.len() && self@[i as int].sub_id == sub_id@ && has_subscription(
                    self@,
                    sub_id@,
                ) && subscription_index(self@, sub_id@) == i,
                None => !has_subscription(self@, sub_id@),
            },
            self@.len() == self.subscriptions.len(),
    {
        let mut i: usize = 0;
        while i < self.subscriptions.len()
            invariant
                self.wf(),
                i <= self.subscriptions.len(),
                self@.len() == self.subscriptions.len(),
                forall|k: int| 0 <= k < i ==> (#[trigger] self@[k]).sub_id != sub_id@,
            decreases self.subscriptions.len() - i,
        {
            if self.subscriptions[i].sub_id == *sub_id {
                proof {
                    assert(self@[i as int].sub_id == sub_id@);
                    let j = subscription_index(self@, sub_id@);
                    assert(self@[j].sub_id == self@[i as int].sub_id);
                    assert(j == i);
                }
                return Some(i);
            }
            i += 1;
        }
        None
    }

    /// Add a port to a subscription.
    pub fn add_port(&mut self, sub_id: &String, port_name: &String) -> (outcome: Result<
        (),
        WebsocketSerialServerError,
    >)
        requires
            old(self).wf(),
        ensures
            final(self).wf(),
            outcome is Ok <==> has_subscription(old(self)@, sub_id@),
            outcome is Ok ==> final(self)@ == with_interest(old(self)@, sub_id@, port_name@),
            outcome is Err ==> final(self)@ == old(self)@ && outcome->Err_0@
                == (ErrorView::SubscriptionNotFound { subscription_id: sub_id@ }),
    {
        match self.find(sub_id) {
            Some(i) => {
                self.subscriptions[i].add_port(port_name);
                assert(self@ =~= with_interest(old(self)@, sub_id@, port_name@));
                Ok(())
            },
            None => Err(
                WebsocketSerialServerError::SubscriptionNotFound { subscription_id: sub_id.clone() },
            ),
        }
    }

    /// Remove a single port from a given subscription.
    pub fn remove_port(&mut self, sub_id: &String, port_name: &String) -> (outcome: Result<
        (),
        WebsocketSerialServerError,
    >)
        requires
            old(self).wf(),
        ensures
            final(self).wf(),
            outcome is Ok <==> has_subscription(old(self)@, sub_id@),
            outcome is Ok ==> final(self)@ == without_interest(old(self)@, sub_id@, port_name@),
            outcome is Err ==> final(self)@ == old(self)@ && outcome->Err_0@
                == (ErrorView::SubscriptionNotFound { subscription_id: sub_id@ }),
    {
        match self.find(sub_id) {
            Some(i) => {
                self.subscriptions[i].remove_port(port_name);
                assert(self@ =~= without_interest(old(self)@, sub_id@, port_name@));
                Ok(())
            },
            None => Err(
                WebsocketSerialServerError::SubscriptionNotFound { subscription_id: sub_id.clone() },
            ),
        }
    }

    /// Remove a port from all subscriptions.
    pub fn remove_port_from_all(&mut self, port_name: &String)
        requires
            old(self).wf(),
        ensures
            final(self).wf(),
            final(self)@ == without_port_anywhere(old(self)@, port_name@),
    {
        let ghost before = self.subscriptions@;
        let mut i: usize = 0;
        while i < self.subscriptions.len()
            invariant
                i <= self.subscriptions.len(),
                self.subscriptions.len() == before.len(),
                forall|k: int|
                    0 <= k < i ==> (#[trigger] self.subscriptions[k])@ == before[k]@.without_port(
                        port_name@,
                    ),
                forall|k: int| i <= k < before.len() ==> #[trigger] self.subscriptions[k] == before[k],
            decreases self.subscriptions.len() - i,
        {
            self.subscriptions[i].remove_port(port_name);
            i += 1;
        }
        assert(self@ =~= without_port_anywhere(old(self)@, port_name@));
    }

    /// Remove all ports from a single subscription or all subscriptions.
    pub fn clear_ports(&mut self, sub_id: Option<&String>)
        requires
            old(self).wf(),
        ensures
            final(self).wf(),
            final(self)@ == with_cleared_interest(
                old(self)@,
                match sub_id {
                    Some(id) => Some(id@),
                    None => None,
                },
            ),
    {
        match sub_id {
            Some(sid) => {
                match self.find(sid) {
                    Some(i) => {
                        self.subscriptions[i].remove_all_ports();
                    },
                    None => {},
                }
                assert(self@ =~= with_cleared_interest(old(self)@, Some(sid@)));
            },
            None => {
                let ghost before = self.subscriptions@;
                let mut i: usize = 0;
                while i < self.subscriptions.len()
                    invariant
                        i <= self.subscriptions.len(),
                        self.subscriptions.len() == before.len(),
                        forall|k: int|
                            0 <= k < i ==> (#[trigger] self.subscriptions[k])@
                                == before[k]@.without_ports(),
                        forall|k: int|
                            i <= k < before.len() ==> #[trigger] self.subscriptions[k] == before[k],
                    decreases self.subscriptions.len() - i,
                {
                    self.subscriptions[i].remove_all_ports();
                    i += 1;
                }
                assert(self@ =~= with_cleared_interest(old(self)@, None));
            },
        }
    }

    /// Add a subscription. A second registration under one id changes
    /// nothing.
    pub fn add_subscription(&mut self, sub: SubscriptionRequest)
        requires
            old(self).wf(),
        ensures
            final(self).wf(),
            final(self)@ == with_subscription(old(self)@, sub.sub_id@),
    {
        match self.find(&sub.sub_id) {
            Some(_) => {},
            None => {
                let subscription = Subscription {
                    sub_id: sub.sub_id,
                    ports: Vec::new(),
                    outbox: Vec::new(),
                    connected: true,
                };
                assert(subscription@ =~= SubscriptionView::fresh(sub.sub_id@)) by {
                    assert(subscription.ports.deep_view().to_set() =~= Set::<Seq<char>>::empty());
                    assert(subscription.outbox.deep_view() =~= Seq::<ResponseView>::empty());
                }
                self.subscriptions.push(subscription);
                assert(self@ =~= old(self)@.push(SubscriptionView::fresh(sub.sub_id@)));
            },
        }
    }

    /// Check if subscription exists, otherwise return error.
    pub fn check_subscription_exists(&self, sub_id: &String) -> (outcome: Result<
        (),
        WebsocketSerialServerError,
    >)
        requires
            self.wf(),
        ensures
            outcome is Ok <==> has_subscription(self@, sub_id@),
            outcome is Err ==> outcome->Err_0@ == (ErrorView::SubscriptionNotFound {
                subscription_id: sub_id@,
            }),
    {
        match self.find(sub_id) {
            Some(_) => Ok(()),
            None => Err(
                WebsocketSerialServerError::SubscriptionNotFound { subscription_id: sub_id.clone() },
            ),
        }
    }

    /// End a subscription.
    pub fn end_subscription(&mut self, sub_id: &String)
        requires
            old(self).wf(),
        ensures
            final(self).wf(),
            final(self)@ == without_subscription(old(self)@, sub_id@),
    {
        match self.find(sub_id) {
            Some(i) => {
                self.subscriptions.remove(i);
                assert(self@ =~= old(self)@.remove(i as int));
            },
            None => {},
        }
    }

    /// Send a message to the given subscription.
    pub fn send_message(&mut self, sub_id: &String, msg: SerialResponse) -> (outcome: Result<
        (),
        WebsocketSerialServerError,
    >)
        requires
            old(self).wf(),
        ensures
            final(self).wf(),
            final(self)@ == after_send(old(self)@, sub_id@, msg@),
            match outcome {
                Ok(_) => send_failure(old(self)@, sub_id@) is None,
                Err(e) => send_failure(old(self)@, sub_id@) == Some(e@),
            },
    {
        match self.find(sub_id) {
            None => {
                assert(self@ =~= after_send(old(self)@, sub_id@, msg@));
                Err(
                    WebsocketSerialServerError::SubscriptionNotFound {
                        subscription_id: sub_id.clone(),
                    },
                )
            },
            Some(i) => {
                let outcome = self.subscriptions[i].send_message(msg);
                assert(self@ =~= after_send(old(self)@, sub_id@, msg@));
                outcome
            },
        }
    }

    /// Send `msg` to every subscription interested in `port`, or to every
    /// subscription if `None`, and return the failures.
    fn broadcast_to(&mut self, port: Option<&String>, msg: SerialResponse) -> (failures: Vec<
        WebsocketSerialServerError,
    >)
        requires
            old(self).wf(),
        ensures
            final(self).wf(),
            final(self)@ == after_broadcast(
                old(self)@,
                match port {
                    Some(name) => Some(name@),
                    None => None,
                },
                msg@,
            ),
            failures.deep_view() == broadcast_failures(
                old(self)@,
                match port {
                    Some(name) => Some(name@),
                    None => None,
                },
            ),
    {
        let ghost target: Option<Seq<char>> = match port {
            Some(name) => Some(name@),
            None => None,
        };
        let ghost before = self.subscriptions@;
        let ghost views = self@;
        let mut failures: Vec<WebsocketSerialServerError> = Vec::new();
        let mut i: usize = 0;
        assert(views.take(0) =~= Seq::<SubscriptionView>::empty());
        while i < self.subscriptions.len()
            invariant
                i <= self.subscriptions.len(),
                self.subscriptions.len() == before.len(),
                views == before.map_values(|s: Subscription| s@),
                target == match port {
                    Some(name) => Some(name@),
                    None => None,
                },
                forall|k: int|
                    0 <= k < i ==> (#[trigger] self.subscriptions[k])@ == if before[k]@.wants(target) {
                        before[k]@.sent(msg@)
                    } else {
                        before[k]@
                    },
                forall|k: int| i <= k < before.len() ==> #[trigger] self.subscriptions[k] == before[k],
                failures.deep_view() == broadcast_failures(views.take(i as int), target),
            decreases self.subscriptions.len() - i,
        {
            let interested = match port {
                Some(name) => contains_name(&self.subscriptions[i].ports, name),
                None => true,
            };
            proof {
                assert(views.take(i + 1).drop_last() =~= views.take(i as int));
                assert(views.take(i + 1).last() == before[i as int]@);
                assert(self.subscriptions[i as int] == before[i as int]);
                assert(interested == before[i as int]@.wants(target));
            }
            if interested {
                let ghost earlier = failures.deep_view();
                match self.subscriptions[i].send_message(msg.duplicate()) {
                    Err(e) => {
                        failures.push(e);
                        assert(failures.deep_view() =~= earlier.push(e@));
                    },
                    Ok(_) => {},
                }
            }
            i += 1;
        }
        proof {
            assert(views.take(i as int) =~= views);
            assert(self@ =~= after_broadcast(views, target, msg@));
        }
        failures
    }

    /// Broadcast a message to all subscribers, returning the failures if
    /// some sends fail.
    pub fn broadcast_message(&mut self, msg: SerialResponse) -> (failures: Vec<
        WebsocketSerialServerError,
    >)
        requires
            old(self).wf(),
        ensures
            final(self).wf(),
            final(self)@ == after_broadcast(old(self)@, None, msg@),
            failures.deep_view() == broadcast_failures(old(self)@, None),
    {
        self.broadcast_to(None, msg)
    }

    /// Broadcast message to all subscribers registered for a given port.
    pub fn broadcast_message_for_port(&mut self, port_name: &String, msg: SerialResponse) -> (failures:
        Vec<WebsocketSerialServerError>)
        requires
            old(self).wf(),
        ensures
            final(self).wf(),
            final(self)@ == after_broadcast(old(self)@, Some(port_name@), msg@),
            failures.deep_view() == broadcast_failures(old(self)@, Some(port_name@)),
    {
        self.broadcast_to(Some(port_name), msg)
    }

    /// Get the ports that currently have subscriptions, each once.
    pub fn subscribed_ports(&self) -> (ports: Vec<String>)
        requires
            self.wf(),
        ensures
            ports.deep_view().to_set() == ports_with_interest(self@),
            ports.deep_view().no_duplicates(),
    {
        let mut ports: Vec<String> = Vec::new();
        let mut i: usize = 0;
        while i < self.subscriptions.len()
            invariant
                i <= self.subscriptions.len(),
                self@.len() == self.subscriptions.len(),
                ports.deep_view().no_duplicates(),
                ports.deep_view().to_set() == ports_with_interest(self@.take(i as int)),
            decreases self.subscriptions.len() - i,
        {
            let mut j: usize = 0;
            let ghost outer = ports.deep_view().to_set();
            while j < self.subscriptions[i].ports.len()
                invariant
                    i < self.subscriptions.len(),
                    j <= self.subscriptions[i as int].ports.len(),
                    ports.deep_view().no_duplicates(),
                    ports.deep_view().to_set() == outer.union(
                        self.subscriptions[i as int].ports.deep_view().take(j as int).to_set(),
                    ),
                decreases self.subscriptions[i as int].ports.len() - j,
            {
                let ghost names = self.subscriptions[i as int].ports.deep_view();
                proof {
                    assert(names.take(j + 1) =~= names.take(j as int).push(names[j as int]));
                    names.take(j as int).lemma_push_to_set_commute(names[j as int]);
                }
                insert_name(&mut ports, &self.subscriptions[i].ports[j]);
                j += 1;
            }
            proof {
                let names = self.subscriptions[i as int].ports.deep_view();
                assert(names.take(j as int) =~= names);
                let before = self@.take(i as int);
                let after = self@.take(i + 1);
                assert(after[i as int] == self@[i as int]);
                assert forall|port: Seq<char>|
                    ports_with_interest(after).contains(port) <==> outer.union(
                        names.to_set(),
                    ).contains(port) by {
                    if ports_with_interest(after).contains(port) {
                        let k = choose|k: int|
                            0 <= k < after.len() && (#[trigger] after[k]).ports.contains(port);
                        if k < i {
                            assert(before[k].ports.contains(port));
                        }
                    }
                    if outer.contains(port) {
                        let k = choose|k: int|
                            0 <= k < before.len() && (#[trigger] before[k]).ports.contains(port);
                        assert(after[k].ports.contains(port));
                    }
                    if names.to_set().contains(port) {
                        assert(after[i as int].ports.contains(port));
                    }
                }
                assert(ports_with_interest(after) =~= outer.union(names.to_set()));
            }
            i += 1;
        }
        assert(self@.take(i as int) =~= self@);
        ports
    }

    /// The ids of the subscriptions, in the order in which they registered.
    pub fn subscription_ids(&self) -> (ids: Vec<String>)
        requires
            self.wf(),
        ensures
            ids.deep_view() == ids_of(self@),
    {
        let mut ids: Vec<String> = Vec::new();
        let mut i: usize = 0;
        while i < self.subscriptions.len()
            invariant
                i <= self.subscriptions.len(),
                self@.len() == self.subscriptions.len(),
                ids.len() == i,
                forall|k: int| 0 <= k < i ==> #[trigger] ids[k]@ == self.subscriptions[k].sub_id@,
            decreases self.subscriptions.len() - i,
        {
            ids.push(self.subscriptions[i].sub_id.clone());
            i += 1;
        }
        assert(ids.deep_view() =~= ids_of(self@));
        ids
    }

    /// Take the oldest response queued for the subscription, for the
    /// transport to deliver.
    pub fn take_message(&mut self, sub_id: &String) -> (msg: Option<SerialResponse>)
        requires
            old(self).wf(),
        ensures
            final(self).wf(),
            final(self)@ == after_take(old(self)@, sub_id@),
            match msg {
                Some(response) => has_subscription(old(self)@, sub_id@) && old(self)@[subscription_index(
                    old(self)@,
                    sub_id@,
                )].queued.len() > 0 && response@ == old(self)@[subscription_index(
                    old(self)@,
                    sub_id@,
                )].queued[0],
                None => !has_subscription(old(self)@, sub_id@) || old(self)@[subscription_index(
                    old(self)@,
                    sub_id@,
                )].queued.len() == 0,
            },
    {
        match self.find(sub_id) {
            None => {
                assert(self@ =~= after_take(old(self)@, sub_id@));
                None
            },
            Some(i) => {
                if self.subscriptions[i].outbox.len() > 0 {
                    let response = self.subscriptions[i].outbox.remove(0);
                    proof {
                        assert(self.subscriptions[i as int].outbox.deep_view() =~= old(
                            self,
                        ).subscriptions[i as int].outbox.deep_view().drop_first());
                        assert(self@ =~= after_take(old(self)@, sub_id@));
                    }
                    Some(response)
                } else {
                    assert(self@ =~= after_take(old(self)@, sub_id@));
                    None
                }
            },
        }
    }

    /// Take all the queued responses, for the transport to deliver.
    pub fn take_all_messages(&mut self) -> (deliveries: Vec<Delivery>)
        requires
            old(self).wf(),
        ensures
            final(self).wf(),
            final(self)@ == after_flush(old(self)@),
            deliveries.deep_view() == outgoing(old(self)@),
    {
        let ghost before = self.subscriptions@;
        let ghost views = self@;
        let mut deliveries: Vec<Delivery> = Vec::new();
        let mut i: usize = 0;
        proof {
            assert(views.take(0) =~= Seq::<SubscriptionView>::empty());
            assert(deliveries.deep_view() =~= Seq::<DeliveryView>::empty());
        }
        while i < self.subscriptions.len()
            invariant
                i <= self.subscriptions.len(),
                self.subscriptions.len() == before.len(),
                views == before.map_values(|s: Subscription| s@),
                forall|k: int|
                    0 <= k < i ==> (#[trigger] self.subscriptions[k])@ == (SubscriptionView {
                        queued: Seq::empty(),
                        ..before[k]@
                    }),
                forall|k: int| i <= k < before.len() ==> #[trigger] self.subscriptions[k] == before[k],
                deliveries.deep_view() == outgoing(views.take(i as int)),
            decreases self.subscriptions.len() - i,
        {
            let ghost earlier = deliveries.deep_view();
            let ghost queue = queued_for(before[i as int]@);
            let mut j: usize = 0;
            proof {
                assert(self.subscriptions[i as int] == before[i as int]);
                assert(earlier + queue.take(0) =~= earlier);
            }
            while j < self.subscriptions[i].outbox.len()
                invariant
                    i < self.subscriptions.len(),
                    self.subscriptions[i as int] == before[i as int],
                    queue == queued_for(before[i as int]@),
                    j <= self.subscriptions[i as int].outbox.len(),
                    deliveries.deep_view() == earlier + queue.take(j as int),
                decreases self.subscriptions[i as int].outbox.len() - j,
            {
                let delivery = Delivery {
                    sub_id: self.subscriptions[i].sub_id.clone(),
                    response: self.subscriptions[i].outbox[j].duplicate(),
                };
                let ghost sofar = deliveries.deep_view();
                deliveries.push(delivery);
                proof {
                    assert(deliveries.deep_view() =~= sofar.push(delivery@));
                    assert(queue[j as int] == delivery@);
                    assert(earlier + queue.take(j + 1) =~= (earlier + queue.take(j as int)).push(
                        queue[j as int],
                    ));
                }
                j += 1;
            }
            proof {
                assert(queue.take(j as int) =~= queue);
                assert(views.take(i + 1).drop_last() =~= views.take(i as int));
                assert(views.take(i + 1).last() == before[i as int]@);
            }
            self.subscriptions[i].outbox.clear();
            proof {
                assert(self.subscriptions[i as int].outbox.deep_view() =~= Seq::<
                    ResponseView,
                >::empty());
            }
            i += 1;
        }
        proof {
            assert(views.take(i as int) =~= views);
            assert(self@ =~= after_flush(views));
        }
        deliveries
    }

    /// Record that the client of the subscription went away: from now on
    /// every send to it fails.
    pub fn disconnect(&mut self, sub_id: &String)
        requires
            old(self).wf(),
        ensures
            final(self).wf(),
            final(self)@ == after_disconnect(old(self)@, sub_id@),
    {
        match self.find(sub_id) {
            None => {},
            Some(i) => {
                self.subscriptions[i].connected = false;
            },
        }
        assert(self@ =~= after_disconnect(old(self)@, sub_id@));
    }
}

} // verus!
