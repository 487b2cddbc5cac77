//! The coordinator: the single owner of the port registry, the write-lock
//! registry and the subscription registry.
//!
//! It supports one writer and many readers per port. Clients lock a port
//! for writing, and subscribe to the data read from any number of ports.
//!
//! The coordinator decides; it drives no device. Where a request needs the
//! serial driver, handling it returns the [`DriverCall`] to make, and the
//! driver's answer is handed to the matching `complete_` method.

use vstd::prelude::*;
use crate::codec::{
    data_fits,
    decode_data,
    decoding_fits,
    encoding_fits,
    payload_bytes,
    read_response,
    read_response_of,
    text_fits,
};
use crate::consistency::{
    lemma_answer_keeps_consistent,
    lemma_cleanup_keeps_consistent,
    lemma_open_keeps_consistent,
    lemma_quarantine_keeps_consistent,
    lemma_registration_keeps_consistent,
    lemma_request_keeps_consistent,
    lemma_sending_keeps_consistent,
    lemma_service_keeps_consistent,
    lemma_sweep_keeps_consistent,
    lemma_transport_keeps_consistent,
};
use crate::errors::{to_serial_response_error, ErrorView, WebsocketSerialServerError};
use crate::messages::{RequestView, ResponseView, SerialRequest, SerialResponse, SubscriptionRequest};
use crate::names::{contains_name, insert_name};
use crate::port_manager::{
    ports_after_close,
    ports_after_open,
    sweep_outcomes,
    DriverError,
    DriverErrorView,
    PortManager,
    answer_view,
    listing_view,
    PortOutcomeView,
    PortRead,
    PortReadView,
};
use crate::sub_manager::{
    after_broadcast,
    after_disconnect,
    after_flush,
    after_send,
    after_take,
    broadcast_failures,
    distinct_ids,
    has_subscription,
    outgoing,
    ports_with_interest,
    send_failure,
    subscription_index,
    with_cleared_interest,
    with_interest,
    with_subscription,
    without_interest,
    without_port_anywhere,
    without_subscription,
    Delivery,
    SubscriptionManager,
    SubscriptionView,
};
use crate::writelock_manager::{locked_by, locked_by_other, locks_without_owner, WriteLockManager};

verus! {

/// The most registrations taken from the queue in one cycle.
pub const MAX_REGISTRATIONS_PER_CYCLE: usize = 50;

/// A call that the serial driver must make for the coordinator.
#[derive(Clone, Debug, PartialEq)]
#[allow(inconsistent_fields)]
pub enum DriverCall {
    /// Open the device `port` with the fixed settings.
    Open { port: String },
    /// Write all of `data` to the open device `port`, and flush it.
    Write { port: String, data: Vec<u8> },
    /// List the serial ports of the host.
    List {  },
}

/// The mathematical value of a [`DriverCall`].
#[allow(inconsistent_fields)]
pub enum DriverCallView {
    Open { port: Seq<char> },
    Write { port: Seq<char>, data: Seq<u8> },
    List,
}

impl View for DriverCall {
    type V = DriverCallView;

    open spec fn view(&self) -> DriverCallView {
        match *self {
            DriverCall::Open { port } => DriverCallView::Open { port: port@ },
            DriverCall::Write { port, data } => DriverCallView::Write { port: port@, data: data@ },
            DriverCall::List {  } => DriverCallView::List,
        }
    }
}

impl DeepView for DriverCall {
    type V = DriverCallView;

    open spec fn deep_view(&self) -> DriverCallView {
        self@
    }
}

/// What a look at the queue of commands found.
#[derive(Clone, Debug, PartialEq)]
#[allow(inconsistent_fields)]
pub enum Polled {
    /// No command is waiting.
    Empty,
    /// Every sender of commands is gone: no command will come any more.
    Disconnected,
    /// A command, with the id of the subscription it comes from.
    Command { sub_id: String, request: SerialRequest },
}

/// The mathematical value of a [`Polled`].
#[allow(inconsistent_fields)]
pub enum PolledView {
    Empty,
    Disconnected,
    Command { sub_id: Seq<char>, request: RequestView },
}

impl View for Polled {
    type V = PolledView;

    open spec fn view(&self) -> PolledView {
        match *self {
            Polled::Empty => PolledView::Empty,
            Polled::Disconnected => PolledView::Disconnected,
            Polled::Command { sub_id, request } => PolledView::Command {
                sub_id: sub_id@,
                request: request@,
            },
        }
    }
}

/// Whether the service loop goes on after the look at the queue.
#[derive(Clone, Debug, PartialEq)]
#[allow(inconsistent_fields)]
pub enum Progress {
    /// The loop ends.
    Stop,
    /// The loop goes on, once the driver call, if any, is made and answered.
    Continue { call: Option<DriverCall> },
}

/// The mathematical value of a [`Progress`].
#[allow(inconsistent_fields)]
pub enum ProgressView {
    Stop,
    Continue { call: Option<DriverCallView> },
}

impl View for Progress {
    type V = ProgressView;

    open spec fn view(&self) -> ProgressView {
        match *self {
            Progress::Stop => ProgressView::Stop,
            Progress::Continue { call } => ProgressView::Continue { call: call.deep_view() },
        }
    }
}

/// The state of the coordinator: the open ports in the order in which they
/// were opened, the owner of each write lock, and the subscriptions in the
/// order in which they registered.
pub struct ManagerView {
    pub ports: Seq<Seq<char>>,
    pub locks: Map<Seq<char>, Seq<char>>,
    pub subs: Seq<SubscriptionView>,
}

/// A state together with the driver call that must be made before the
/// request is done, if there is one.
pub struct Step {
    pub state: ManagerView,
    pub call: Option<DriverCallView>,
}

impl ManagerView {
    /// No port is open twice and no two subscriptions share an id.
    pub open spec fn wf(self) -> bool {
        self.ports.no_duplicates() && distinct_ids(self.subs)
    }

    /// Every write lock is held by a registered subscription.
    pub open spec fn holders_registered(self) -> bool {
        forall|port: Seq<char>|
            self.locks.contains_key(port) ==> has_subscription(self.subs, #[trigger] self.locks[port])
    }

    /// Every port that a subscription is interested in is open.
    pub open spec fn interests_open(self) -> bool {
        forall|i: int, port: Seq<char>|
            0 <= i < self.subs.len() && (#[trigger] self.subs[i]).ports.contains(port)
                ==> #[trigger] self.ports.contains(port)
    }

    /// The registries agree: no port is open twice, no two subscriptions
    /// share an id, every lock has a registered holder and every interest
    /// is in an open port.
    pub open spec fn consistent(self) -> bool {
        self.wf() && self.holders_registered() && self.interests_open()
    }

    /// The state after the subscription `sub_id` was ended and every write
    /// lock it held released.
    pub open spec fn drop_subscriber(self, sub_id: Seq<char>) -> ManagerView {
        ManagerView {
            subs: without_subscription(self.subs, sub_id),
            locks: locks_without_owner(self.locks, sub_id),
            ..self
        }
    }

    /// The state after one failure of a send was resolved: a subscriber
    /// that could not be reached is dropped; other failures change nothing.
    pub open spec fn resolve(self, failure: ErrorView) -> ManagerView {
        match failure {
            ErrorView::SubscriberSendError { subscription_id } => self.drop_subscriber(
                subscription_id,
            ),
            _ => self,
        }
    }

    /// The state after the failures were resolved, one after the other.
    pub open spec fn cleanup(self, failures: Seq<ErrorView>) -> ManagerView
        decreases failures.len(),
    {
        if failures.len() == 0 {
            self
        } else {
            self.cleanup(failures.drop_last()).resolve(failures.last())
        }
    }

    /// The state after `msg` was sent to `sub_id` and a failure to deliver
    /// it resolved.
    pub open spec fn unicast(self, sub_id: Seq<char>, msg: ResponseView) -> ManagerView {
        let sent = ManagerView { subs: after_send(self.subs, sub_id, msg), ..self };
        match send_failure(self.subs, sub_id) {
            Some(failure) => sent.resolve(failure),
            None => sent,
        }
    }

    /// The state after the transport failed to deliver `msg` to `sub_id`:
    /// the client is known to be gone, and the response is sent again.
    pub open spec fn undelivered(self, sub_id: Seq<char>, msg: ResponseView) -> ManagerView {
        ManagerView { subs: after_disconnect(self.subs, sub_id), ..self }.unicast(sub_id, msg)
    }

    /// The state after `msg` was broadcast to the subscriptions interested
    /// in `port`, or to all if `None`, and the failures resolved.
    pub open spec fn broadcast(self, port: Option<Seq<char>>, msg: ResponseView) -> ManagerView {
        ManagerView { subs: after_broadcast(self.subs, port, msg), ..self }.cleanup(
            broadcast_failures(self.subs, port),
        )
    }

    /// The state after the port was closed and its write lock cleared.
    pub open spec fn closed(self, port: Seq<char>) -> ManagerView {
        ManagerView {
            ports: ports_after_close(self.ports, port),
            locks: self.locks.remove(port),
            ..self
        }
    }

    /// The state after a handler ended: the state it reached, or, where it
    /// failed, the old state with the failure reported to `sub_id`.
    pub open spec fn settle(self, sub_id: Seq<char>, outcome: Result<ManagerView, ErrorView>) -> ManagerView {
        match outcome {
            Ok(next) => next,
            Err(failure) => self.unicast(sub_id, failure.response()),
        }
    }

    /// Whether an `Open` request of `sub_id` for `port` needs the driver:
    /// the subscription exists and the port is not open yet.
    pub open spec fn open_needs_driver(self, sub_id: Seq<char>, port: Seq<char>) -> bool {
        has_subscription(self.subs, sub_id) && !self.ports.contains(port)
    }

    /// What opening `port` for `sub_id` comes to, once the driver answered
    /// `device` (the answer counts only where the port was not open): the
    /// port is open, the subscription is interested in it and is told
    /// `Opened`; or the request fails.
    pub open spec fn open_outcome(
        self,
        sub_id: Seq<char>,
        port: Seq<char>,
        device: Result<(), DriverErrorView>,
    ) -> Result<ManagerView, ErrorView> {
        if !has_subscription(self.subs, sub_id) {
            Err(ErrorView::SubscriptionNotFound { subscription_id: sub_id })
        } else if !self.ports.contains(port) && device is Err {
            Err(device->Err_0.as_error())
        } else {
            Ok(
                ManagerView {
                    ports: ports_after_open(self.ports, port, device),
                    subs: with_interest(self.subs, sub_id, port),
                    ..self
                }.unicast(sub_id, ResponseView::Opened { port }),
            )
        }
    }

    /// The first step of an `Open` request: the driver call, where one is
    /// needed; else the whole of it.
    pub open spec fn open_step(self, sub_id: Seq<char>, port: Seq<char>) -> Result<Step, ErrorView> {
        if self.open_needs_driver(sub_id, port) {
            Ok(Step { state: self, call: Some(DriverCallView::Open { port }) })
        } else {
            finished(self.open_outcome(sub_id, port, Ok(())))
        }
    }

    /// The state after the driver answered the call of an `Open` request.
    pub open spec fn after_open(
        self,
        sub_id: Seq<char>,
        port: Seq<char>,
        device: Result<(), DriverErrorView>,
    ) -> ManagerView {
        self.settle(sub_id, self.open_outcome(sub_id, port, device))
    }

    /// What a `WriteLock` request comes to: the lock is `sub_id`'s and it
    /// is told `WriteLocked`, unless another subscription holds the lock.
    pub open spec fn write_lock_outcome(self, sub_id: Seq<char>, port: Seq<char>) -> Result<
        ManagerView,
        ErrorView,
    > {
        if !has_subscription(self.subs, sub_id) {
            Err(ErrorView::SubscriptionNotFound { subscription_id: sub_id })
        } else if locked_by_other(self.locks, port, sub_id) {
            Err(ErrorView::AlreadyWriteLocked { port })
        } else {
            Ok(
                ManagerView { locks: self.locks.insert(port, sub_id), ..self }.unicast(
                    sub_id,
                    ResponseView::WriteLocked { port },
                ),
            )
        }
    }

    /// What a `ReleaseWriteLock` request comes to: without a port, every
    /// lock of `sub_id` is released; with one, the lock on that port,
    /// unless another subscription holds it.
    pub open spec fn release_outcome(self, sub_id: Seq<char>, port: Option<Seq<char>>) -> Result<
        ManagerView,
        ErrorView,
    > {
        if !has_subscription(self.subs, sub_id) {
            Err(ErrorView::SubscriptionNotFound { subscription_id: sub_id })
        } else {
            match port {
                None => Ok(
                    ManagerView { locks: locks_without_owner(self.locks, sub_id), ..self }.unicast(
                        sub_id,
                        ResponseView::WriteLockReleased { port: None },
                    ),
                ),
                Some(name) => if locked_by_other(self.locks, name, sub_id) {
                    Err(ErrorView::AlreadyWriteLocked { port: name })
                } else {
                    Ok(
                        ManagerView { locks: self.locks.remove(name), ..self }.unicast(
                            sub_id,
                            ResponseView::WriteLockReleased { port: Some(name) },
                        ),
                    )
                },
            }
        }
    }

    /// The first step of a `Write` request whose payload decoded to
    /// `payload`: the driver call, if the subscription exists, owns the
    /// write lock, the payload is sound and the port is open.
    pub open spec fn write_step(
        self,
        sub_id: Seq<char>,
        port: Seq<char>,
        payload: Result<Seq<u8>, ErrorView>,
    ) -> Result<Step, ErrorView> {
        if !has_subscription(self.subs, sub_id) {
            Err(ErrorView::SubscriptionNotFound { subscription_id: sub_id })
        } else if !locked_by(self.locks, port, sub_id) {
            Err(ErrorView::AlreadyWriteLocked { port })
        } else {
            match payload {
                Err(failure) => Err(failure),
                Ok(data) => if !self.ports.contains(port) {
                    Err(ErrorView::OpenPortNotFound { port })
                } else {
                    Ok(Step { state: self, call: Some(DriverCallView::Write { port, data }) })
                },
            }
        }
    }

    /// The state after the driver answered the call of a `Write` request:
    /// `sub_id` is told `Wrote`, or why not.
    pub open spec fn after_write(
        self,
        sub_id: Seq<char>,
        port: Seq<char>,
        device: Result<(), DriverErrorView>,
    ) -> ManagerView {
        if !self.ports.contains(port) {
            self.unicast(sub_id, (ErrorView::OpenPortNotFound { port }).response())
        } else {
            match device {
                Ok(_) => self.unicast(sub_id, ResponseView::Wrote { port }),
                Err(e) => self.unicast(sub_id, e.as_error().response()),
            }
        }
    }

    /// What a `Close` request for one port comes to: `sub_id` is no longer
    /// interested in the port, gives up its write lock on it, and is told
    /// `Closed`. The port itself stays open.
    pub open spec fn close_one_outcome(self, sub_id: Seq<char>, port: Seq<char>) -> Result<
        ManagerView,
        ErrorView,
    > {
        if !has_subscription(self.subs, sub_id) {
            Err(ErrorView::SubscriptionNotFound { subscription_id: sub_id })
        } else {
            Ok(
                ManagerView {
                    subs: without_interest(self.subs, sub_id, port),
                    locks: if locked_by(self.locks, port, sub_id) {
                        self.locks.remove(port)
                    } else {
                        self.locks
                    },
                    ..self
                }.unicast(sub_id, ResponseView::Closed { port }),
            )
        }
    }

    /// The state after each of `ports` that is not in `watched` was
    /// closed, its lock cleared and `sub_id` told `Closed`, one port after
    /// the other.
    pub open spec fn close_unwatched(
        self,
        sub_id: Seq<char>,
        ports: Seq<Seq<char>>,
        watched: Set<Seq<char>>,
    ) -> ManagerView
        decreases ports.len(),
    {
        if ports.len() == 0 {
            self
        } else {
            let earlier = self.close_unwatched(sub_id, ports.drop_last(), watched);
            if watched.contains(ports.last()) {
                earlier
            } else {
                earlier.closed(ports.last()).unicast(
                    sub_id,
                    ResponseView::Closed { port: ports.last() },
                )
            }
        }
    }

    /// The state after `sub_id` gave up all its interests and locks.
    pub open spec fn released_all(self, sub_id: Seq<char>) -> ManagerView {
        ManagerView {
            subs: with_cleared_interest(self.subs, Some(sub_id)),
            locks: locks_without_owner(self.locks, sub_id),
            ..self
        }
    }

    /// The state after a `Close` request without a port: `sub_id` gives up
    /// all its interests and locks, and every open port that nobody is
    /// interested in any more is closed.
    pub open spec fn after_close_all(self, sub_id: Seq<char>) -> ManagerView {
        let cleared = self.released_all(sub_id);
        cleared.close_unwatched(sub_id, cleared.ports, ports_with_interest(cleared.subs))
    }

    /// The first step of a `List` request: the driver call, if the
    /// subscription exists.
    pub open spec fn list_step(self, sub_id: Seq<char>) -> Result<Step, ErrorView> {
        if !has_subscription(self.subs, sub_id) {
            Err(ErrorView::SubscriptionNotFound { subscription_id: sub_id })
        } else {
            Ok(Step { state: self, call: Some(DriverCallView::List) })
        }
    }

    /// The state after the driver answered the call of a `List` request:
    /// `sub_id` is told the ports, or why not.
    pub open spec fn after_list(
        self,
        sub_id: Seq<char>,
        device: Result<Seq<Seq<char>>, DriverErrorView>,
    ) -> ManagerView {
        match device {
            Ok(ports) => self.unicast(sub_id, ResponseView::List { ports }),
            Err(e) => self.unicast(sub_id, e.as_error().response()),
        }
    }

    /// What a request of `sub_id` comes to before its failure, if any, is
    /// reported.
    pub open spec fn request_step(self, sub_id: Seq<char>, request: RequestView) -> Result<
        Step,
        ErrorView,
    > {
        match request {
            RequestView::Open { port } => self.open_step(sub_id, port),
            RequestView::WriteLock { port } => finished(self.write_lock_outcome(sub_id, port)),
            RequestView::ReleaseWriteLock { port } => finished(self.release_outcome(sub_id, port)),
            RequestView::Write { port, data, base64 } => self.write_step(
                sub_id,
                port,
                payload_bytes(data, base64 == Some(true)),
            ),
            RequestView::Close { port } => match port {
                Some(name) => finished(self.close_one_outcome(sub_id, name)),
                None => Ok(Step { state: self.after_close_all(sub_id), call: None }),
            },
            RequestView::List => self.list_step(sub_id),
        }
    }

    /// The state after a request of `sub_id` was handled, and the driver
    /// call it waits for, if any. A failure is reported to `sub_id` and
    /// changes nothing else.
    pub open spec fn after_request(self, sub_id: Seq<char>, request: RequestView) -> Step {
        match self.request_step(sub_id, request) {
            Ok(step) => step,
            Err(failure) => Step { state: self.unicast(sub_id, failure.response()), call: None },
        }
    }

    /// The state after the look at the queue of commands: a command is
    /// handled, anything else changes nothing.
    pub open spec fn after_polled(self, polled: PolledView) -> ManagerView {
        match polled {
            PolledView::Command { sub_id, request } => self.after_request(sub_id, request).state,
            _ => self,
        }
    }

    /// Whether the loop goes on after the look at the queue: it ends only
    /// when no command can come any more.
    pub open spec fn progress(self, polled: PolledView) -> ProgressView {
        match polled {
            PolledView::Empty => ProgressView::Continue { call: None },
            PolledView::Disconnected => ProgressView::Stop,
            PolledView::Command { sub_id, request } => ProgressView::Continue {
                call: self.after_request(sub_id, request).call,
            },
        }
    }

    /// The state after the outcomes of a sweep were dealt with: data is
    /// broadcast to the subscriptions interested in its port.
    pub open spec fn after_outcomes(self, outcomes: Seq<PortOutcomeView>) -> ManagerView
        decreases outcomes.len(),
    {
        if outcomes.len() == 0 {
            self
        } else {
            let earlier = self.after_outcomes(outcomes.drop_last());
            match outcomes.last().result {
                Ok(data) => earlier.broadcast(
                    Some(outcomes.last().port),
                    read_response_of(outcomes.last().port, data),
                ),
                Err(_) => earlier,
            }
        }
    }

    /// The state after a bad port was torn down: the subscriptions
    /// interested in it are told of the read error and that the port is
    /// closed; then the port is closed, its lock cleared and the port
    /// taken out of every interest set.
    pub open spec fn quarantine(self, port: Seq<char>) -> ManagerView {
        let told = self.broadcast(
            Some(port),
            (ErrorView::PortReadError { port }).response(),
        ).broadcast(Some(port), ResponseView::Closed { port });
        ManagerView {
            ports: ports_after_close(told.ports, port),
            locks: told.locks.remove(port),
            subs: without_port_anywhere(told.subs, port),
        }
    }

    /// The state after the bad ports were torn down, one after the other.
    pub open spec fn quarantine_all(self, bad: Seq<Seq<char>>) -> ManagerView
        decreases bad.len(),
    {
        if bad.len() == 0 {
            self
        } else {
            self.quarantine_all(bad.drop_last()).quarantine(bad.last())
        }
    }

    /// The state after the subscriptions `ids` registered, one after the
    /// other.
    pub open spec fn registered(self, ids: Seq<Seq<char>>) -> ManagerView
        decreases ids.len(),
    {
        if ids.len() == 0 {
            self
        } else {
            let earlier = self.registered(ids.drop_last());
            ManagerView { subs: with_subscription(earlier.subs, ids.last()), ..earlier }
        }
    }
}

/// A handler's outcome as a step that waits for no driver call.
pub open spec fn finished(outcome: Result<ManagerView, ErrorView>) -> Result<Step, ErrorView> {
    match outcome {
        Ok(state) => Ok(Step { state, call: None }),
        Err(failure) => Err(failure),
    }
}

/// The ports that a sweep found bad, each once, in the order in which they
/// were found.
pub open spec fn bad_ports(outcomes: Seq<PortOutcomeView>) -> Seq<Seq<char>>
    decreases outcomes.len(),
{
    if outcomes.len() == 0 {
        Seq::empty()
    } else {
        let earlier = bad_ports(outcomes.drop_last());
        if outcomes.last().result is Err && !earlier.contains(outcomes.last().port) {
            earlier.push(outcomes.last().port)
        } else {
            earlier
        }
    }
}

/// How many of `queued` pending registrations one cycle takes.
pub open spec fn registration_batch(queued: nat) -> int {
    if queued <= MAX_REGISTRATIONS_PER_CYCLE {
        queued as int
    } else {
        MAX_REGISTRATIONS_PER_CYCLE as int
    }
}

/// Whether the payload of the request, where it is flagged as base64, is
/// short enough for the decoder.
pub fn request_is_sound(request: &SerialRequest) -> (sound: bool)
    ensures
        sound == request_fits(request@),
{
    match request {
        SerialRequest::Write { data, base64, .. } => match base64 {
            Some(true) => text_fits(data),
            _ => true,
        },
        _ => true,
    }
}

/// Whether the data of every read attempt is short enough to be base64
/// encoded.
pub fn reads_are_sound(attempts: &Vec<PortRead>) -> (sound: bool)
    ensures
        sound == reads_fit(attempts.deep_view()),
{
    let mut i: usize = 0;
    while i < attempts.len()
        invariant
            i <= attempts.len(),
            forall|k: int|
                0 <= k < i && (#[trigger] attempts.deep_view()[k]).attempt is Ok ==> encoding_fits(
                    attempts.deep_view()[k].attempt->Ok_0.len(),
                ),
        decreases attempts.len() - i,
    {
        assert(attempts.deep_view()[i as int] == attempts[i as int]@);
        match &attempts[i].attempt {
            Ok(data) => {
                if !data_fits(data) {
                    return false;
                }
            },
            Err(_) => {},
        }
        i += 1;
    }
    true
}

/// Whether the data of every read attempt is short enough to be base64
/// encoded.
pub open spec fn reads_fit(attempts: Seq<PortReadView>) -> bool {
    forall|i: int|
        0 <= i < attempts.len() && (#[trigger] attempts[i]).attempt is Ok ==> encoding_fits(
            attempts[i].attempt->Ok_0.len(),
        )
}

/// Whether the data of every outcome is short enough to be base64 encoded.
pub open spec fn outcomes_fit(outcomes: Seq<PortOutcomeView>) -> bool {
    forall|i: int|
        0 <= i < outcomes.len() && (#[trigger] outcomes[i]).result is Ok ==> encoding_fits(
            outcomes[i].result->Ok_0.len(),
        )
}

/// Whether the payload of the request, where it is flagged as base64, is
/// short enough for the decoder.
pub open spec fn request_fits(request: RequestView) -> bool {
    match request {
        RequestView::Write { data, base64, .. } => base64 == Some(true) ==> decoding_fits(data),
        _ => true,
    }
}

/// The ids under which the requests ask to register.
pub open spec fn requested_ids(pending: Seq<SubscriptionRequest>) -> Seq<Seq<char>> {
    pending.map_values(|request: SubscriptionRequest| request.sub_id@)
}

/// The outcomes of a sweep carry no more data than the read attempts did.
proof fn lemma_sweep_fits(ports: Seq<Seq<char>>, attempts: Seq<PortReadView>)
    requires
        reads_fit(attempts),
    ensures
        outcomes_fit(sweep_outcomes(ports, attempts)),
    decreases attempts.len(),
{
    if attempts.len() > 0 {
        assert(reads_fit(attempts.drop_last())) by {
            assert forall|i: int|
                0 <= i < attempts.drop_last().len() && (#[trigger] attempts.drop_last()[i]).attempt is Ok implies encoding_fits(
                attempts.drop_last()[i].attempt->Ok_0.len(),
            ) by {
                assert(attempts.drop_last()[i] == attempts[i]);
            }
        }
        lemma_sweep_fits(ports, attempts.drop_last());
        let earlier = sweep_outcomes(ports, attempts.drop_last());
        let all = sweep_outcomes(ports, attempts);
        assert(attempts.last() == attempts[attempts.len() - 1]);
        assert forall|i: int|
            0 <= i < all.len() && (#[trigger] all[i]).result is Ok implies encoding_fits(
            all[i].result->Ok_0.len(),
        ) by {
            if i < earlier.len() {
                assert(all[i] == earlier[i]);
            }
        }
    }
}

/// Serial port management supporting one writer and multiple readers.
pub struct Manager {
    /// Manage write lock status.
    writelock_manager: WriteLockManager,
    /// Manage ports.
    port_manager: PortManager,
    /// Manage subscriptions.
    sub_manager: SubscriptionManager,
}

impl View for Manager {
    type V = ManagerView;

    closed spec fn view(&self) -> ManagerView {
        ManagerView {
            ports: self.port_manager@,
            locks: self.writelock_manager@,
            subs: self.sub_manager@,
        }
    }
}

impl Manager {
    /// The three registries are well formed.
    pub closed spec fn wf(&self) -> bool {
        &&& self.writelock_manager.wf()
        &&& self.port_manager.wf()
        &&& self.sub_manager.wf()
    }

    /// In a well-formed coordinator no port is open twice and no two
    /// subscriptions share an id.
    pub proof fn lemma_wf_view(&self)
        requires
            self.wf(),
        ensures
            self@.wf(),
    {
    }

    /// Constructor: nothing open, nothing locked, nobody subscribed.
    pub fn new() -> (manager: Manager)
        ensures
            manager.wf(),
            manager@.ports == Seq::<Seq<char>>::empty(),
            manager@.locks == Map::<Seq<char>, Seq<char>>::empty(),
            manager@.subs == Seq::<SubscriptionView>::empty(),
            manager@.consistent(),
    {
        Manager {
            writelock_manager: WriteLockManager::new(),
            port_manager: PortManager::new(),
            sub_manager: SubscriptionManager::new(),
        }
    }

    /// Cleanup any bad subs where a message send failed.
    pub fn cleanup_bad_subs(&mut self, bad_subs: Vec<WebsocketSerialServerError>)
        requires
            old(self).wf(),
        ensures
            final(self).wf(),
            old(self)@.consistent() ==> final(self)@.consistent(),
            final(self)@ == old(self)@.cleanup(bad_subs.deep_view()),
    {
        proof {
            if self@.consistent() {
                lemma_cleanup_keeps_consistent(self@, bad_subs.deep_view());
            }
        }
        let ghost failures = bad_subs.deep_view();
        let mut i: usize = 0;
        assert(failures.take(0) =~= Seq::<ErrorView>::empty());
        while i < bad_subs.len()
            invariant
                i <= bad_subs.len(),
                failures == bad_subs.deep_view(),
                self.wf(),
                self@ == old(self)@.cleanup(failures.take(i as int)),
            decreases bad_subs.len() - i,
        {
            proof {
                assert(failures.take(i + 1).drop_last() =~= failures.take(i as int));
                assert(failures.take(i + 1).last() == bad_subs[i as int]@);
            }
            match &bad_subs[i] {
                WebsocketSerialServerError::SubscriberSendError { subscription_id } => {
                    // Remove the subscription
                    self.sub_manager.end_subscription(subscription_id);
                    // Remove all write locks held by the dead subscription
                    self.writelock_manager.unlock_all_ports_for_sub(subscription_id);
                },
                _ => {},
            }
            i += 1;
        }
        assert(failures.take(i as int) =~= failures);
    }

    /// Send a message to a subscriber; if it cannot be reached, end its
    /// subscription.
    pub fn send_message(&mut self, sub_id: &String, msg: SerialResponse)
        requires
            old(self).wf(),
        ensures
            final(self).wf(),
            old(self)@.consistent() ==> final(self)@.consistent(),
            final(self)@ == old(self)@.unicast(sub_id@, msg@),
    {
        proof {
            if self@.consistent() {
                lemma_sending_keeps_consistent(self@, sub_id@, None, msg@);
            }
        }
        if let Err(e) = self.sub_manager.send_message(sub_id, msg) {
            let ghost sent = self@;
            let mut bad_subs = Vec::new();
            bad_subs.push(e);
            proof {
                let failures = bad_subs.deep_view();
                assert(failures =~= seq![e@]);
                assert(failures.drop_last() =~= Seq::<ErrorView>::empty());
                reveal_with_fuel(ManagerView::cleanup, 2);
                assert(sent.cleanup(failures) == sent.resolve(e@));
            }
            self.cleanup_bad_subs(bad_subs);
        }
    }

    /// Broadcast a message to all subscribers and then cleanup any subs
    /// that errored.
    pub fn broadcast_message(&mut self, msg: SerialResponse)
        requires
            old(self).wf(),
        ensures
            final(self).wf(),
            old(self)@.consistent() ==> final(self)@.consistent(),
            final(self)@ == old(self)@.broadcast(None, msg@),
    {
        proof {
            if self@.consistent() {
                lemma_sending_keeps_consistent(self@, Seq::empty(), None, msg@);
            }
        }
        let bad_subs = self.sub_manager.broadcast_message(msg);
        self.cleanup_bad_subs(bad_subs);
    }

    /// Broadcast a message to all subscribers interested in the given port
    /// and then cleanup any subs that errored.
    pub fn broadcast_message_for_port(&mut self, port_name: &String, msg: SerialResponse)
        requires
            old(self).wf(),
        ensures
            final(self).wf(),
            old(self)@.consistent() ==> final(self)@.consistent(),
            final(self)@ == old(self)@.broadcast(Some(port_name@), msg@),
    {
        proof {
            if self@.consistent() {
                lemma_sending_keeps_consistent(self@, port_name@, Some(port_name@), msg@);
            }
        }
        let bad_subs = self.sub_manager.broadcast_message_for_port(port_name, msg);
        self.cleanup_bad_subs(bad_subs);
    }

    /// Check if a subscription exists for a given sub_id.
    pub fn check_sub_id(&self, sub_id: &String) -> (outcome: Result<(), WebsocketSerialServerError>)
        requires
            self.wf(),
        ensures
            outcome is Ok <==> has_subscription(self@.subs, sub_id@),
            outcome is Err ==> outcome->Err_0@ == (ErrorView::SubscriptionNotFound {
                subscription_id: sub_id@,
            }),
    {
        self.sub_manager.check_subscription_exists(sub_id)
    }

    /// The port registry.
    pub fn port_manager(&self) -> (ports: &PortManager)
        requires
            self.wf(),
        ensures
            ports.wf(),
            ports@ == self@.ports,
    {
        &self.port_manager
    }

    /// The write-lock registry.
    pub fn writelock_manager(&self) -> (locks: &WriteLockManager)
        requires
            self.wf(),
        ensures
            locks.wf(),
            locks@ == self@.locks,
    {
        &self.writelock_manager
    }

    /// The subscription registry.
    pub fn sub_manager(&self) -> (subs: &SubscriptionManager)
        requires
            self.wf(),
        ensures
            subs.wf(),
            subs@ == self@.subs,
    {
        &self.sub_manager
    }

    /// Register a subscription. A second registration under one id changes
    /// nothing.
    pub fn add_subscription(&mut self, sub: SubscriptionRequest)
        requires
            old(self).wf(),
        ensures
            final(self).wf(),
            old(self)@.consistent() ==> final(self)@.consistent(),
            final(self)@ == (ManagerView {
                subs: with_subscription(old(self)@.subs, sub.sub_id@),
                ..old(self)@
            }),
    {
        proof {
            if self@.consistent() {
                lemma_transport_keeps_consistent(self@, sub.sub_id@);
            }
        }
        self.sub_manager.add_subscription(sub);
    }

    /// Take the oldest response queued for the subscription, for the
    /// transport to deliver.
    pub fn take_message(&mut self, sub_id: &String) -> (msg: Option<SerialResponse>)
        requires
            old(self).wf(),
        ensures
            final(self).wf(),
            old(self)@.consistent() ==> final(self)@.consistent(),
            final(self)@ == (ManagerView {
                subs: after_take(old(self)@.subs, sub_id@),
                ..old(self)@
            }),
            match msg {
                Some(response) => has_subscription(old(self)@.subs, sub_id@) && old(
                    self,
                )@.subs[subscription_index(old(self)@.subs, sub_id@)].queued.len() > 0 && response@
                    == old(self)@.subs[subscription_index(old(self)@.subs, sub_id@)].queued[0],
                None => !has_subscription(old(self)@.subs, sub_id@) || old(
                    self,
                )@.subs[subscription_index(old(self)@.subs, sub_id@)].queued.len() == 0,
            },
    {
        proof {
            if self@.consistent() {
                lemma_transport_keeps_consistent(self@, sub_id@);
            }
        }
        self.sub_manager.take_message(sub_id)
    }

    /// Take all the queued responses, for the transport to deliver.
    pub fn take_outgoing(&mut self) -> (deliveries: Vec<Delivery>)
        requires
            old(self).wf(),
        ensures
            final(self).wf(),
            old(self)@.consistent() ==> final(self)@.consistent(),
            final(self)@ == (ManagerView { subs: after_flush(old(self)@.subs), ..old(self)@ }),
            deliveries.deep_view() == outgoing(old(self)@.subs),
    {
        proof {
            if self@.consistent() {
                lemma_transport_keeps_consistent(self@, Seq::empty());
            }
        }
        self.sub_manager.take_all_messages()
    }

    /// The transport could not deliver a response: the client is gone.
    /// The response is sent once more, fails, and the subscription ends.
    pub fn delivery_failed(&mut self, delivery: Delivery)
        requires
            old(self).wf(),
        ensures
            final(self).wf(),
            old(self)@.consistent() ==> final(self)@.consistent(),
            final(self)@ == old(self)@.undelivered(delivery@.sub_id, delivery@.response),
    {
        proof {
            if self@.consistent() {
                lemma_transport_keeps_consistent(self@, delivery@.sub_id);
            }
        }
        self.sub_manager.disconnect(&delivery.sub_id);
        self.send_message(&delivery.sub_id, delivery.response);
    }

    /// Record that the client of the subscription went away. The
    /// subscription is ended when the next response for it cannot be sent.
    pub fn disconnect(&mut self, sub_id: &String)
        requires
            old(self).wf(),
        ensures
            final(self).wf(),
            old(self)@.consistent() ==> final(self)@.consistent(),
            final(self)@ == (ManagerView {
                subs: after_disconnect(old(self)@.subs, sub_id@),
                ..old(self)@
            }),
    {
        proof {
            if self@.consistent() {
                lemma_transport_keeps_consistent(self@, sub_id@);
            }
        }
        self.sub_manager.disconnect(sub_id);
    }

    /// Handles and dispatches a request of the subscription `sub_id`.
    /// Returns the driver call that the request waits for, if any; its
    /// answer goes to `complete_open`, `complete_write` or `complete_list`.
    /// A failure is reported to `sub_id`.
    pub fn handle_serial_request(&mut self, sub_id: &String, msg: SerialRequest) -> (call: Option<
        DriverCall,
    >)
        requires
            old(self).wf(),
            request_fits(msg@),
        ensures
            final(self).wf(),
            old(self)@.consistent() ==> final(self)@.consistent(),
            final(self)@ == old(self)@.after_request(sub_id@, msg@).state,
            call.deep_view() == old(self)@.after_request(sub_id@, msg@).call,
    {
        proof {
            if self@.consistent() {
                lemma_request_keeps_consistent(self@, sub_id@, msg@);
            }
        }
        let response = match msg {
            SerialRequest::Open { port } => self.handle_open_port(sub_id, port),
            SerialRequest::WriteLock { port } => match self.handle_write_lock(sub_id, port) {
                Ok(_) => Ok(None),
                Err(e) => Err(e),
            },
            SerialRequest::ReleaseWriteLock { port } => match self.handle_release_write_lock(
                sub_id,
                port,
            ) {
                Ok(_) => Ok(None),
                Err(e) => Err(e),
            },
            SerialRequest::Write { port, data, base64 } => {
                let flagged = match base64 {
                    Some(flag) => flag,
                    None => false,
                };
                self.handle_write_port(sub_id, port, data, flagged)
            },
            SerialRequest::Close { port } => match self.handle_close_port(sub_id, port) {
                Ok(_) => Ok(None),
                Err(e) => Err(e),
            },
            SerialRequest::List {  } => self.handle_list_ports(sub_id),
        };
        match response {
            Ok(call) => call,
            Err(e) => {
                self.send_message(sub_id, to_serial_response_error(e));
                None
            },
        }
    }

    /// The first step of a cycle: deal with what the look at the queue of
    /// commands found. At most one command is handled per cycle.
    pub fn handle_polled(&mut self, polled: Polled) -> (progress: Progress)
        requires
            old(self).wf(),
            polled@ matches PolledView::Command { request, .. } ==> request_fits(request),
        ensures
            final(self).wf(),
            old(self)@.consistent() ==> final(self)@.consistent(),
            final(self)@ == old(self)@.after_polled(polled@),
            progress@ == old(self)@.progress(polled@),
    {
        proof {
            if self@.consistent() {
                match polled@ {
                    PolledView::Command { sub_id, request } => {
                        lemma_request_keeps_consistent(self@, sub_id, request);
                    },
                    _ => {},
                }
            }
        }
        match polled {
            Polled::Empty => Progress::Continue { call: None },
            Polled::Disconnected => Progress::Stop,
            Polled::Command { sub_id, request } => {
                let call = self.handle_serial_request(&sub_id, request);
                Progress::Continue { call }
            },
        }
    }

    /// The part of a write request that follows the decoding of its
    /// payload: the driver call to make, if `sub_id` may write the port.
    pub fn write_decoded(
        &self,
        sub_id: &String,
        port_name: String,
        payload: Result<Vec<u8>, WebsocketSerialServerError>,
    ) -> (outcome: Result<Option<DriverCall>, WebsocketSerialServerError>)
        requires
            self.wf(),
        ensures
            match outcome {
                Ok(call) => self@.write_step(
                    sub_id@,
                    port_name@,
                    match payload {
                        Ok(data) => Ok(data@),
                        Err(e) => Err(e@),
                    },
                ) == Ok::<Step, ErrorView>(Step { state: self@, call: call.deep_view() }),
                Err(e) => self@.write_step(
                    sub_id@,
                    port_name@,
                    match payload {
                        Ok(data) => Ok(data@),
                        Err(e) => Err(e@),
                    },
                ) == Err::<Step, ErrorView>(e@),
            },
    {
        if let Err(e) = self.check_sub_id(sub_id) {
            return Err(e);
        }
        if let Err(e) = self.check_owns_writelock(&port_name, sub_id) {
            return Err(e);
        }
        match payload {
            Err(e) => Err(e),
            Ok(data) => match self.port_manager.check_port_open(&port_name) {
                Err(e) => Err(e),
                Ok(_) => Ok(Some(DriverCall::Write { port: port_name, data })),
            },
        }
    }

    /// Handle write port requests.
    pub fn handle_write_port(
        &self,
        sub_id: &String,
        port_name: String,
        data: String,
        base_64: bool,
    ) -> (outcome: Result<Option<DriverCall>, WebsocketSerialServerError>)
        requires
            self.wf(),
            base_64 ==> decoding_fits(data@),
        ensures
            match outcome {
                Ok(call) => self@.write_step(sub_id@, port_name@, payload_bytes(data@, base_64))
                    == Ok::<Step, ErrorView>(Step { state: self@, call: call.deep_view() }),
                Err(e) => self@.write_step(sub_id@, port_name@, payload_bytes(data@, base_64))
                    == Err::<Step, ErrorView>(e@),
            },
    {
        let payload = decode_data(&data, base_64);
        self.write_decoded(sub_id, port_name, payload)
    }

    /// The driver answered the call of a write request: tell `sub_id` that
    /// the data was written, or why it was not.
    pub fn complete_write(&mut self, sub_id: &String, port_name: String, device: Result<
        (),
        DriverError,
    >)
        requires
            old(self).wf(),
        ensures
            final(self).wf(),
            old(self)@.consistent() ==> final(self)@.consistent(),
            final(self)@ == old(self)@.after_write(sub_id@, port_name@, answer_view(device)),
    {
        proof {
            if self@.consistent() {
                lemma_answer_keeps_consistent(
                    self@,
                    sub_id@,
                    port_name@,
                    answer_view(device),
                    Ok(Seq::empty()),
                );
            }
        }
        match self.port_manager.write_port(&port_name, device) {
            Ok(_) => self.send_message(sub_id, SerialResponse::Wrote { port: port_name }),
            Err(e) => self.send_message(sub_id, to_serial_response_error(e)),
        }
    }

    /// Handle write lock requests.
    pub fn handle_write_lock(&mut self, sub_id: &String, port_name: String) -> (outcome: Result<
        (),
        WebsocketSerialServerError,
    >)
        requires
            old(self).wf(),
        ensures
            final(self).wf(),
            old(self)@.consistent() ==> final(self)@.consistent(),
            match outcome {
                Ok(_) => old(self)@.write_lock_outcome(sub_id@, port_name@) == Ok::<
                    ManagerView,
                    ErrorView,
                >(final(self)@),
                Err(e) => old(self)@.write_lock_outcome(sub_id@, port_name@) == Err::<
                    ManagerView,
                    ErrorView,
                >(e@) && final(self)@ == old(self)@,
            },
    {
        proof {
            if self@.consistent() {
                lemma_request_keeps_consistent(
                    self@,
                    sub_id@,
                    RequestView::WriteLock { port: port_name@ },
                );
            }
        }
        if let Err(e) = self.check_sub_id(sub_id) {
            return Err(e);
        }
        match self.writelock_manager.try_lock_port(&port_name, sub_id) {
            Err(e) => Err(e),
            Ok(_) => {
                self.send_message(sub_id, SerialResponse::WriteLocked { port: port_name });
                Ok(())
            },
        }
    }

    /// Handle release write lock requests.
    pub fn handle_release_write_lock(&mut self, sub_id: &String, port_name: Option<String>) -> (outcome:
        Result<(), WebsocketSerialServerError>)
        requires
            old(self).wf(),
        ensures
            final(self).wf(),
            old(self)@.consistent() ==> final(self)@.consistent(),
            match outcome {
                Ok(_) => old(self)@.release_outcome(sub_id@, port_name.deep_view()) == Ok::<
                    ManagerView,
                    ErrorView,
                >(final(self)@),
                Err(e) => old(self)@.release_outcome(sub_id@, port_name.deep_view()) == Err::<
                    ManagerView,
                    ErrorView,
                >(e@) && final(self)@ == old(self)@,
            },
    {
        proof {
            if self@.consistent() {
                lemma_request_keeps_consistent(
                    self@,
                    sub_id@,
                    RequestView::ReleaseWriteLock { port: port_name.deep_view() },
                );
            }
        }
        if let Err(e) = self.check_sub_id(sub_id) {
            return Err(e);
        }
        match port_name {
            None => {
                self.writelock_manager.unlock_all_ports_for_sub(sub_id);
                self.send_message(sub_id, SerialResponse::WriteLockReleased { port: None });
                Ok(())
            },
            Some(port_name) => match self.writelock_manager.unlock_port(&port_name, sub_id) {
                Err(e) => Err(e),
                Ok(_) => {
                    self.send_message(
                        sub_id,
                        SerialResponse::WriteLockReleased { port: Some(port_name) },
                    );
                    Ok(())
                },
            },
        }
    }

    /// What follows the opening of the device: record the port as open,
    /// register the interest of `sub_id` and tell it.
    fn finish_open(&mut self, sub_id: &String, port_name: String, device: Result<(), DriverError>) -> (outcome:
        Result<(), WebsocketSerialServerError>)
        requires
            old(self).wf(),
        ensures
            final(self).wf(),
            old(self)@.consistent() ==> final(self)@.consistent(),
            match outcome {
                Ok(_) => old(self)@.open_outcome(sub_id@, port_name@, answer_view(device)) == Ok::<
                    ManagerView,
                    ErrorView,
                >(final(self)@),
                Err(e) => old(self)@.open_outcome(sub_id@, port_name@, answer_view(device)) == Err::<
                    ManagerView,
                    ErrorView,
                >(e@) && final(self)@ == old(self)@,
            },
    {
        proof {
            if self@.consistent() {
                lemma_open_keeps_consistent(self@, sub_id@, port_name@, answer_view(device));
            }
        }
        if let Err(e) = self.check_sub_id(sub_id) {
            return Err(e);
        }
        if let Err(e) = self.port_manager.open_port(&port_name, device) {
            return Err(e);
        }
        match self.sub_manager.add_port(sub_id, &port_name) {
            Err(e) => Err(e),
            Ok(_) => {
                self.send_message(sub_id, SerialResponse::Opened { port: port_name });
                Ok(())
            },
        }
    }

    /// Handle open port requests.
    pub fn handle_open_port(&mut self, sub_id: &String, port_name: String) -> (outcome: Result<
        Option<DriverCall>,
        WebsocketSerialServerError,
    >)
        requires
            old(self).wf(),
        ensures
            final(self).wf(),
            old(self)@.consistent() ==> final(self)@.consistent(),
            match outcome {
                Ok(call) => old(self)@.open_step(sub_id@, port_name@) == Ok::<Step, ErrorView>(
                    Step { state: final(self)@, call: call.deep_view() },
                ),
                Err(e) => old(self)@.open_step(sub_id@, port_name@) == Err::<Step, ErrorView>(e@)
                    && final(self)@ == old(self)@,
            },
    {
        proof {
            if self@.consistent() {
                lemma_request_keeps_consistent(
                    self@,
                    sub_id@,
                    RequestView::Open { port: port_name@ },
                );
            }
        }
        if let Err(e) = self.check_sub_id(sub_id) {
            return Err(e);
        }
        if self.port_manager.is_port_open(&port_name) {
            match self.finish_open(sub_id, port_name, Ok(())) {
                Ok(_) => Ok(None),
                Err(e) => Err(e),
            }
        } else {
            Ok(Some(DriverCall::Open { port: port_name }))
        }
    }

    /// The driver answered the call of an open request: record the port as
    /// open and tell `sub_id`, or tell it why the port is not open.
    pub fn complete_open(&mut self, sub_id: &String, port_name: String, device: Result<
        (),
        DriverError,
    >)
        requires
            old(self).wf(),
        ensures
            final(self).wf(),
            old(self)@.consistent() ==> final(self)@.consistent(),
            final(self)@ == old(self)@.after_open(sub_id@, port_name@, answer_view(device)),
    {
        proof {
            if self@.consistent() {
                lemma_open_keeps_consistent(self@, sub_id@, port_name@, answer_view(device));
            }
        }
        if let Err(e) = self.finish_open(sub_id, port_name, device) {
            self.send_message(sub_id, to_serial_response_error(e));
        }
    }

    /// Handle list ports request.
    pub fn handle_list_ports(&self, sub_id: &String) -> (outcome: Result<
        Option<DriverCall>,
        WebsocketSerialServerError,
    >)
        requires
            self.wf(),
        ensures
            match outcome {
                Ok(call) => self@.list_step(sub_id@) == Ok::<Step, ErrorView>(
                    Step { state: self@, call: call.deep_view() },
                ),
                Err(e) => self@.list_step(sub_id@) == Err::<Step, ErrorView>(e@),
            },
    {
        if let Err(e) = self.check_sub_id(sub_id) {
            return Err(e);
        }
        Ok(Some(DriverCall::List {  }))
    }

    /// The driver answered the call of a list request: tell `sub_id` the
    /// ports, or why they could not be listed.
    pub fn complete_list(&mut self, sub_id: &String, device: Result<Vec<String>, DriverError>)
        requires
            old(self).wf(),
        ensures
            final(self).wf(),
            old(self)@.consistent() ==> final(self)@.consistent(),
            final(self)@ == old(self)@.after_list(sub_id@, listing_view(device)),
    {
        proof {
            if self@.consistent() {
                lemma_answer_keeps_consistent(
                    self@,
                    sub_id@,
                    Seq::empty(),
                    Ok(()),
                    listing_view(device),
                );
            }
        }
        match self.port_manager.list_ports(device) {
            Ok(response) => self.send_message(sub_id, SerialResponse::List { ports: response }),
            Err(error) => self.send_message(sub_id, to_serial_response_error(error)),
        }
    }

    /// Handle close port requests.
    pub fn handle_close_port(&mut self, sub_id: &String, port_name: Option<String>) -> (outcome: Result<
        (),
        WebsocketSerialServerError,
    >)
        requires
            old(self).wf(),
        ensures
            final(self).wf(),
            old(self)@.consistent() ==> final(self)@.consistent(),
            match port_name {
                Some(name) => match outcome {
                    Ok(_) => old(self)@.close_one_outcome(sub_id@, name@) == Ok::<
                        ManagerView,
                        ErrorView,
                    >(final(self)@),
                    Err(e) => old(self)@.close_one_outcome(sub_id@, name@) == Err::<
                        ManagerView,
                        ErrorView,
                    >(e@) && final(self)@ == old(self)@,
                },
                None => outcome is Ok && final(self)@ == old(self)@.after_close_all(sub_id@),
            },
    {
        proof {
            if self@.consistent() {
                lemma_request_keeps_consistent(
                    self@,
                    sub_id@,
                    RequestView::Close { port: port_name.deep_view() },
                );
            }
        }
        match port_name {
            Some(port_name) => self.handle_close_port_for_sub(sub_id, port_name),
            None => self.handle_close_all_ports_for_sub(sub_id),
        }
    }

    /// Handle closing a single port for a sub.
    pub fn handle_close_port_for_sub(&mut self, sub_id: &String, port_name: String) -> (outcome: Result<
        (),
        WebsocketSerialServerError,
    >)
        requires
            old(self).wf(),
        ensures
            final(self).wf(),
            old(self)@.consistent() ==> final(self)@.consistent(),
            match outcome {
                Ok(_) => old(self)@.close_one_outcome(sub_id@, port_name@) == Ok::<
                    ManagerView,
                    ErrorView,
                >(final(self)@),
                Err(e) => old(self)@.close_one_outcome(sub_id@, port_name@) == Err::<
                    ManagerView,
                    ErrorView,
                >(e@) && final(self)@ == old(self)@,
            },
    {
        proof {
            if self@.consistent() {
                lemma_request_keeps_consistent(
                    self@,
                    sub_id@,
                    RequestView::Close { port: Some(port_name@) },
                );
            }
        }
        if let Err(e) = self.sub_manager.remove_port(sub_id, &port_name) {
            return Err(e);
        }
        self.writelock_manager.unlock_port_if_locked_by(&port_name, sub_id);
        self.send_message(sub_id, SerialResponse::Closed { port: port_name });
        Ok(())
    }

    /// Handle closing all ports for sub.
    pub fn handle_close_all_ports_for_sub(&mut self, sub_id: &String) -> (outcome: Result<
        (),
        WebsocketSerialServerError,
    >)
        requires
            old(self).wf(),
        ensures
            final(self).wf(),
            old(self)@.consistent() ==> final(self)@.consistent(),
            outcome is Ok,
            final(self)@ == old(self)@.after_close_all(sub_id@),
    {
        proof {
            if self@.consistent() {
                lemma_request_keeps_consistent(self@, sub_id@, RequestView::Close { port: None });
            }
        }
        self.sub_manager.clear_ports(Some(sub_id));
        self.writelock_manager.unlock_all_ports_for_sub(sub_id);

        // Close ports with no subscribers
        let open_ports = self.port_manager.open_ports();
        let subscribed_ports = self.sub_manager.subscribed_ports();
        let ghost cleared = self@;
        let ghost candidates = open_ports.deep_view();
        let ghost watched = subscribed_ports.deep_view().to_set();
        let mut i: usize = 0;
        assert(candidates.take(0) =~= Seq::<Seq<char>>::empty());
        while i < open_ports.len()
            invariant
                i <= open_ports.len(),
                candidates == open_ports.deep_view(),
                watched == subscribed_ports.deep_view().to_set(),
                self.wf(),
                self@ == cleared.close_unwatched(sub_id@, candidates.take(i as int), watched),
            decreases open_ports.len() - i,
        {
            proof {
                assert(candidates.take(i + 1).drop_last() =~= candidates.take(i as int));
                assert(candidates.take(i + 1).last() == open_ports[i as int]@);
            }
            if !contains_name(&subscribed_ports, &open_ports[i]) {
                // close it
                self.port_manager.close_port(&open_ports[i]);
                // remove the write lock
                self.writelock_manager.clear_lock(&open_ports[i]);
                // Let them know its closed
                let close_resp = SerialResponse::Closed { port: open_ports[i].clone() };
                self.send_message(sub_id, close_resp);
            }
            i += 1;
        }
        assert(candidates.take(i as int) =~= candidates);
        Ok(())
    }

    /// Deal with what a sweep over the open ports read: broadcast the data
    /// of each port to the subscriptions interested in it, and return the
    /// ports that are bad.
    pub fn handle_port_reads(&mut self, attempts: &Vec<PortRead>) -> (bad: Vec<String>)
        requires
            old(self).wf(),
            reads_fit(attempts.deep_view()),
        ensures
            final(self).wf(),
            old(self)@.consistent() ==> final(self)@.consistent(),
            final(self)@ == old(self)@.after_outcomes(
                sweep_outcomes(old(self)@.ports, attempts.deep_view()),
            ),
            bad.deep_view() == bad_ports(sweep_outcomes(old(self)@.ports, attempts.deep_view())),
            bad.deep_view().no_duplicates(),
    {
        proof {
            if self@.consistent() {
                lemma_sweep_keeps_consistent(
                    self@,
                    sweep_outcomes(self@.ports, attempts.deep_view()),
                );
            }
        }
        let results = self.port_manager.read_all_ports(attempts);
        let ghost outcomes = results.deep_view();
        proof {
            lemma_sweep_fits(self@.ports, attempts.deep_view());
        }
        let mut bad: Vec<String> = Vec::new();
        let mut i: usize = 0;
        assert(outcomes.take(0) =~= Seq::<PortOutcomeView>::empty());
        assert(bad.deep_view() =~= Seq::<Seq<char>>::empty());
        while i < results.len()
            invariant
                i <= results.len(),
                outcomes == results.deep_view(),
                outcomes_fit(outcomes),
                self.wf(),
                self@ == old(self)@.after_outcomes(outcomes.take(i as int)),
                bad.deep_view() == bad_ports(outcomes.take(i as int)),
                bad.deep_view().no_duplicates(),
            decreases results.len() - i,
        {
            proof {
                assert(outcomes.take(i + 1).drop_last() =~= outcomes.take(i as int));
                assert(outcomes.take(i + 1).last() == results[i as int]@);
                assert(outcomes[i as int] == results[i as int]@);
            }
            match &results[i].result {
                Ok(data) => {
                    let response = read_response(&results[i].port, data);
                    self.broadcast_message_for_port(&results[i].port, response);
                },
                Err(_) => {
                    insert_name(&mut bad, &results[i].port);
                },
            }
            i += 1;
        }
        assert(outcomes.take(i as int) =~= outcomes);
        bad
    }

    /// Cleanup any bad ports.
    pub fn cleanup_bad_ports(&mut self, bad_ports: &Vec<String>)
        requires
            old(self).wf(),
        ensures
            final(self).wf(),
            old(self)@.consistent() ==> final(self)@.consistent(),
            final(self)@ == old(self)@.quarantine_all(bad_ports.deep_view()),
    {
        proof {
            if self@.consistent() {
                lemma_quarantine_keeps_consistent(self@, bad_ports.deep_view());
            }
        }
        let ghost bad = bad_ports.deep_view();
        let mut i: usize = 0;
        assert(bad.take(0) =~= Seq::<Seq<char>>::empty());
        while i < bad_ports.len()
            invariant
                i <= bad_ports.len(),
                bad == bad_ports.deep_view(),
                self.wf(),
                self@ == old(self)@.quarantine_all(bad.take(i as int)),
            decreases bad_ports.len() - i,
        {
            proof {
                assert(bad.take(i + 1).drop_last() =~= bad.take(i as int));
                assert(bad.take(i + 1).last() == bad_ports[i as int]@);
            }
            let port_name = &bad_ports[i];
            // Tell everyone port is sick
            let err_resp = to_serial_response_error(
                WebsocketSerialServerError::PortReadError { port: port_name.clone() },
            );
            self.broadcast_message_for_port(port_name, err_resp);
            // Tell everyone the sick ports were closed
            let close_resp = SerialResponse::Closed { port: port_name.clone() };
            self.broadcast_message_for_port(port_name, close_resp);
            // Close bad ports
            self.port_manager.close_port(port_name);
            // Remove write locks on bad ports
            self.writelock_manager.clear_lock(port_name);
            // Remove bad ports from subscriptions
            self.sub_manager.remove_port_from_all(port_name);
            i += 1;
        }
        assert(bad.take(i as int) =~= bad);
    }

    /// Close out ports we've had bad read / write issues with.
    pub fn close_bad_ports(&mut self, ports: Vec<String>)
        requires
            old(self).wf(),
        ensures
            final(self).wf(),
            old(self)@.consistent() ==> final(self)@.consistent(),
            final(self)@ == old(self)@.quarantine_all(ports.deep_view()),
    {
        proof {
            if self@.consistent() {
                lemma_quarantine_keeps_consistent(self@, ports.deep_view());
            }
        }
        self.cleanup_bad_ports(&ports);
    }

    /// Register the subscriptions at the head of the queue, at most
    /// `MAX_REGISTRATIONS_PER_CYCLE` of them, and take them off the queue.
    pub fn register_pending(&mut self, pending: &mut Vec<SubscriptionRequest>)
        requires
            old(self).wf(),
        ensures
            final(self).wf(),
            old(self)@.consistent() ==> final(self)@.consistent(),
            final(pending)@ == old(pending)@.skip(registration_batch(old(pending)@.len())),
            final(self)@ == old(self)@.registered(
                requested_ids(old(pending)@.take(registration_batch(old(pending)@.len()))),
            ),
    {
        proof {
            if self@.consistent() {
                lemma_registration_keeps_consistent(
                    self@,
                    requested_ids(pending@.take(registration_batch(pending@.len()))),
                );
            }
        }
        let ghost queue = pending@;
        let ghost ids = requested_ids(queue);
        let mut recv_count: usize = 0;
        proof {
            assert(queue.skip(0) =~= queue);
            assert(requested_ids(queue.take(0)) =~= Seq::<Seq<char>>::empty());
        }
        while recv_count < MAX_REGISTRATIONS_PER_CYCLE && pending.len() > 0
            invariant
                recv_count <= MAX_REGISTRATIONS_PER_CYCLE,
                recv_count <= queue.len(),
                queue == old(pending)@,
                pending@ == queue.skip(recv_count as int),
                self.wf(),
                self@ == old(self)@.registered(requested_ids(queue.take(recv_count as int))),
            decreases pending.len(),
        {
            let sub_request = pending.remove(0);
            proof {
                let earlier = requested_ids(queue.take(recv_count as int));
                let now = requested_ids(queue.take(recv_count + 1));
                assert(sub_request == queue[recv_count as int]);
                assert(now.drop_last() =~= earlier);
                assert(now.last() == sub_request.sub_id@);
                assert(pending@ =~= queue.skip(recv_count + 1));
            }
            self.sub_manager.add_subscription(sub_request);
            recv_count += 1;
        }
    }

    /// One cycle of service after the pending command: deal with what the
    /// sweep read, register the new subscriptions, then tear down the
    /// ports that the sweep found bad.
    pub fn service(&mut self, attempts: &Vec<PortRead>, pending: &mut Vec<SubscriptionRequest>)
        requires
            old(self).wf(),
            reads_fit(attempts.deep_view()),
        ensures
            final(self).wf(),
            old(self)@.consistent() ==> final(self)@.consistent(),
            final(pending)@ == old(pending)@.skip(registration_batch(old(pending)@.len())),
            final(self)@ == old(self)@.after_outcomes(
                sweep_outcomes(old(self)@.ports, attempts.deep_view()),
            ).registered(
                requested_ids(old(pending)@.take(registration_batch(old(pending)@.len()))),
            ).quarantine_all(
                bad_ports(sweep_outcomes(old(self)@.ports, attempts.deep_view())),
            ),
    {
        proof {
            if self@.consistent() {
                lemma_service_keeps_consistent(
                    self@,
                    sweep_outcomes(self@.ports, attempts.deep_view()),
                    requested_ids(pending@.take(registration_batch(pending@.len()))),
                    bad_ports(sweep_outcomes(self@.ports, attempts.deep_view())),
                );
            }
        }
        // Check for new data on each port
        let bad = self.handle_port_reads(attempts);
        // Take in the new subscriptions
        self.register_pending(pending);
        // Cleanup bad serial ports that failed to read
        self.cleanup_bad_ports(&bad);
    }

    /// Check if port_name has a write lock for sub_id. Errors if the port
    /// is not write locked by sub_id.
    pub fn check_owns_writelock(&self, port_name: &String, sub_id: &String) -> (outcome: Result<
        (),
        WebsocketSerialServerError,
    >)
        requires
            self.wf(),
        ensures
            outcome is Ok <==> locked_by(self@.locks, port_name@, sub_id@),
            outcome is Err ==> outcome->Err_0@ == (ErrorView::AlreadyWriteLocked {
                port: port_name@,
            }),
    {
        self.writelock_manager.check_owns_write_lock(port_name, sub_id)
    }
}

} // verus!
