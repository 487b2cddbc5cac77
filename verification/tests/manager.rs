use serial_support::errors::{to_serial_response_error, WebsocketSerialServerError};
use serial_support::manager::{
    reads_are_sound, request_is_sound, DriverCall, Manager, Polled, Progress,
    MAX_REGISTRATIONS_PER_CYCLE,
};
use serial_support::messages::{SerialRequest, SerialResponse, SubscriptionRequest};
use serial_support::port_manager::{DriverError, PortRead};
use serial_support::sub_manager::Delivery;

const PORT: &str = "/dev/ttyUSB0";

fn name(text: &str) -> String {
    text.to_string()
}

fn manager_with(ids: &[&str]) -> Manager {
    let mut manager = Manager::new();
    for id in ids {
        manager.add_subscription(SubscriptionRequest { sub_id: id.to_string() });
    }
    manager
}

/// Hand a request to the coordinator and answer its driver call, if any,
/// as a driver for which everything works would.
fn request(manager: &mut Manager, sub_id: &str, msg: SerialRequest) -> Option<DriverCall> {
    let sub_id = sub_id.to_string();
    let call = manager.handle_serial_request(&sub_id, msg);
    match call.clone() {
        Some(DriverCall::Open { port }) => manager.complete_open(&sub_id, port, Ok(())),
        Some(DriverCall::Write { port, .. }) => manager.complete_write(&sub_id, port, Ok(())),
        Some(DriverCall::List {}) => {
            manager.complete_list(&sub_id, Ok(vec![name("/dev/ttyUSB0"), name("/dev/ttyUSB1")]))
        }
        None => {}
    }
    call
}

fn open(port: &str) -> SerialRequest {
    SerialRequest::Open { port: port.to_string() }
}

fn write_lock(port: &str) -> SerialRequest {
    SerialRequest::WriteLock { port: port.to_string() }
}

fn write(port: &str, data: &str) -> SerialRequest {
    SerialRequest::Write { port: port.to_string(), data: data.to_string(), base64: None }
}

fn close(port: Option<&str>) -> SerialRequest {
    SerialRequest::Close { port: port.map(|p| p.to_string()) }
}

fn release(port: Option<&str>) -> SerialRequest {
    SerialRequest::ReleaseWriteLock { port: port.map(|p| p.to_string()) }
}

fn drain(manager: &mut Manager, sub_id: &str) -> Vec<SerialResponse> {
    let mut all = Vec::new();
    while let Some(response) = manager.take_message(&sub_id.to_string()) {
        all.push(response);
    }
    all
}

fn error_of(err: WebsocketSerialServerError) -> SerialResponse {
    to_serial_response_error(err)
}

fn already_locked(port: &str) -> SerialResponse {
    error_of(WebsocketSerialServerError::AlreadyWriteLocked { port: port.to_string() })
}

fn broken() -> DriverError {
    DriverError { timed_out: false, description: name("NoDevice"), display: name("No such device") }
}

fn data_read(port: &str, bytes: &[u8]) -> PortRead {
    PortRead { port: port.to_string(), attempt: Ok(bytes.to_vec()) }
}

#[test]
fn lock_passes_from_one_subscription_to_the_next() {
    let mut manager = manager_with(&["S1", "S2"]);
    assert_eq!(request(&mut manager, "S1", open(PORT)), Some(DriverCall::Open { port: name(PORT) }));
    assert_eq!(request(&mut manager, "S1", write_lock(PORT)), None);
    assert_eq!(
        request(&mut manager, "S1", write(PORT, "hello")),
        Some(DriverCall::Write { port: name(PORT), data: b"hello".to_vec() })
    );
    assert_eq!(request(&mut manager, "S1", release(Some(PORT))), None);
    // the port is open already: no second handle is asked for
    assert_eq!(request(&mut manager, "S2", open(PORT)), None);
    assert_eq!(request(&mut manager, "S2", write_lock(PORT)), None);

    assert_eq!(
        drain(&mut manager, "S1"),
        vec![
            SerialResponse::Opened { port: name(PORT) },
            SerialResponse::WriteLocked { port: name(PORT) },
            SerialResponse::Wrote { port: name(PORT) },
            SerialResponse::WriteLockReleased { port: Some(name(PORT)) },
        ]
    );
    assert_eq!(
        drain(&mut manager, "S2"),
        vec![
            SerialResponse::Opened { port: name(PORT) },
            SerialResponse::WriteLocked { port: name(PORT) },
        ]
    );
    assert!(manager.writelock_manager().is_port_write_locked_by(&name(PORT), &name("S2")));
    assert_eq!(manager.port_manager().open_ports(), vec![name(PORT)]);
}

#[test]
fn port_closes_when_the_last_interest_is_gone() {
    let mut manager = manager_with(&["S1", "S2"]);
    request(&mut manager, "S1", open(PORT));
    request(&mut manager, "S2", open(PORT));
    drain(&mut manager, "S1");
    drain(&mut manager, "S2");

    // S1 closes its interest, not the other's
    assert_eq!(request(&mut manager, "S1", close(Some(PORT))), None);
    assert_eq!(drain(&mut manager, "S1"), vec![SerialResponse::Closed { port: name(PORT) }]);
    assert!(manager.port_manager().is_port_open(&name(PORT)));

    // S2 still receives what is read, S1 does not
    let mut pending = Vec::new();
    manager.service(&vec![data_read(PORT, b"tick")], &mut pending);
    assert_eq!(
        drain(&mut manager, "S2"),
        vec![SerialResponse::Read { port: name(PORT), data: name("tick"), base64: Some(false) }]
    );
    assert_eq!(drain(&mut manager, "S1"), vec![]);

    // only when S2 closes too does the port close
    assert_eq!(request(&mut manager, "S2", close(None)), None);
    assert_eq!(drain(&mut manager, "S2"), vec![SerialResponse::Closed { port: name(PORT) }]);
    assert!(!manager.port_manager().is_port_open(&name(PORT)));
    assert_eq!(manager.port_manager().open_ports(), Vec::<String>::new());
}

#[test]
fn closing_one_interest_keeps_the_port_open() {
    let mut manager = manager_with(&["S1"]);
    request(&mut manager, "S1", open(PORT));
    request(&mut manager, "S1", write_lock(PORT));
    request(&mut manager, "S1", close(Some(PORT)));
    assert!(manager.port_manager().is_port_open(&name(PORT)));
    assert!(!manager.writelock_manager().is_port_write_locked(&name(PORT)));
    assert_eq!(manager.sub_manager().subscribed_ports(), Vec::<String>::new());
    // closing an interest that is gone only answers again
    drain(&mut manager, "S1");
    request(&mut manager, "S1", close(Some(PORT)));
    assert_eq!(drain(&mut manager, "S1"), vec![SerialResponse::Closed { port: name(PORT) }]);
    assert!(manager.port_manager().is_port_open(&name(PORT)));
}

#[test]
fn only_the_holder_of_the_lock_may_write() {
    let mut manager = manager_with(&["A", "B"]);
    request(&mut manager, "A", open(PORT));
    request(&mut manager, "B", open(PORT));
    request(&mut manager, "A", write_lock(PORT));
    drain(&mut manager, "A");
    drain(&mut manager, "B");

    assert_eq!(request(&mut manager, "B", write_lock(PORT)), None);
    assert_eq!(request(&mut manager, "B", write(PORT, "x")), None);
    assert_eq!(request(&mut manager, "B", release(Some(PORT))), None);
    assert_eq!(
        drain(&mut manager, "B"),
        vec![already_locked(PORT), already_locked(PORT), already_locked(PORT)]
    );
    assert!(manager.writelock_manager().is_port_write_locked_by(&name(PORT), &name("A")));

    assert_eq!(
        request(&mut manager, "A", write(PORT, "x")),
        Some(DriverCall::Write { port: name(PORT), data: b"x".to_vec() })
    );
    assert_eq!(drain(&mut manager, "A"), vec![SerialResponse::Wrote { port: name(PORT) }]);
}

#[test]
fn write_without_the_lock_is_refused() {
    let mut manager = manager_with(&["A"]);
    request(&mut manager, "A", open(PORT));
    drain(&mut manager, "A");
    assert_eq!(request(&mut manager, "A", write(PORT, "x")), None);
    assert_eq!(drain(&mut manager, "A"), vec![already_locked(PORT)]);
}

#[test]
fn write_to_a_port_that_is_not_open_is_refused() {
    let mut manager = manager_with(&["A"]);
    request(&mut manager, "A", write_lock(PORT));
    drain(&mut manager, "A");
    assert_eq!(request(&mut manager, "A", write(PORT, "x")), None);
    assert_eq!(
        drain(&mut manager, "A"),
        vec![error_of(WebsocketSerialServerError::OpenPortNotFound { port: name(PORT) })]
    );
}

#[test]
fn base64_payload_is_decoded_before_it_is_written() {
    let mut manager = manager_with(&["A"]);
    request(&mut manager, "A", open(PORT));
    request(&mut manager, "A", write_lock(PORT));
    drain(&mut manager, "A");
    let flagged = SerialRequest::Write {
        port: name(PORT),
        data: name("SGVsbG8gV29ybGQ="),
        base64: Some(true),
    };
    assert_eq!(
        request(&mut manager, "A", flagged),
        Some(DriverCall::Write { port: name(PORT), data: b"Hello World".to_vec() })
    );
    let unflagged = SerialRequest::Write {
        port: name(PORT),
        data: name("SGVsbG8gV29ybGQ="),
        base64: Some(false),
    };
    assert_eq!(
        request(&mut manager, "A", unflagged),
        Some(DriverCall::Write { port: name(PORT), data: b"SGVsbG8gV29ybGQ=".to_vec() })
    );
    let garbled = SerialRequest::Write { port: name(PORT), data: name("***"), base64: Some(true) };
    assert_eq!(request(&mut manager, "A", garbled), None);
    assert_eq!(
        drain(&mut manager, "A"),
        vec![
            SerialResponse::Wrote { port: name(PORT) },
            SerialResponse::Wrote { port: name(PORT) },
            SerialResponse::Error {
                description: name("Invalid base64 data"),
                display: name("Invalid base64 data"),
            },
        ]
    );
}

#[test]
fn driver_failures_are_reported_to_the_requester() {
    let mut manager = manager_with(&["A"]);
    let a = name("A");
    let failed = SerialResponse::Error {
        description: name("NoDevice"),
        display: name("No such device"),
    };

    let call = manager.handle_serial_request(&a, open(PORT));
    assert_eq!(call, Some(DriverCall::Open { port: name(PORT) }));
    manager.complete_open(&a, name(PORT), Err(broken()));
    assert!(!manager.port_manager().is_port_open(&name(PORT)));
    assert_eq!(manager.sub_manager().subscribed_ports(), Vec::<String>::new());
    assert_eq!(drain(&mut manager, "A"), vec![failed.clone()]);

    request(&mut manager, "A", open(PORT));
    request(&mut manager, "A", write_lock(PORT));
    drain(&mut manager, "A");
    let call = manager.handle_serial_request(&a, write(PORT, "x"));
    assert_eq!(call, Some(DriverCall::Write { port: name(PORT), data: b"x".to_vec() }));
    manager.complete_write(&a, name(PORT), Err(broken()));
    assert_eq!(drain(&mut manager, "A"), vec![failed.clone()]);

    let call = manager.handle_serial_request(&a, SerialRequest::List {});
    assert_eq!(call, Some(DriverCall::List {}));
    manager.complete_list(&a, Err(broken()));
    assert_eq!(drain(&mut manager, "A"), vec![failed]);
}

#[test]
fn list_answers_with_the_ports_of_the_host() {
    let mut manager = manager_with(&["A"]);
    assert_eq!(request(&mut manager, "A", SerialRequest::List {}), Some(DriverCall::List {}));
    assert_eq!(
        drain(&mut manager, "A"),
        vec![SerialResponse::List { ports: vec![name("/dev/ttyUSB0"), name("/dev/ttyUSB1")] }]
    );
}

#[test]
fn requests_of_an_unknown_subscription_change_nothing() {
    let mut manager = manager_with(&["A"]);
    request(&mut manager, "A", open(PORT));
    request(&mut manager, "A", write_lock(PORT));
    drain(&mut manager, "A");
    for msg in vec![
        open("/dev/other"),
        write_lock("/dev/other"),
        write(PORT, "x"),
        release(None),
        release(Some(PORT)),
        close(Some(PORT)),
        SerialRequest::List {},
    ] {
        assert_eq!(manager.handle_serial_request(&name("ghost"), msg), None);
    }
    assert_eq!(manager.port_manager().open_ports(), vec![name(PORT)]);
    assert_eq!(manager.sub_manager().subscribed_ports(), vec![name(PORT)]);
    assert_eq!(manager.sub_manager().subscription_ids(), vec![name("A")]);
    assert!(manager.writelock_manager().is_port_write_locked_by(&name(PORT), &name("A")));
    assert_eq!(drain(&mut manager, "A"), vec![]);
    assert_eq!(drain(&mut manager, "ghost"), vec![]);
}

#[test]
fn release_without_a_port_releases_every_lock_of_the_subscription() {
    let mut manager = manager_with(&["A", "B"]);
    request(&mut manager, "A", write_lock("ttyA"));
    request(&mut manager, "A", write_lock("ttyB"));
    request(&mut manager, "B", write_lock("ttyC"));
    drain(&mut manager, "A");
    assert_eq!(request(&mut manager, "A", release(None)), None);
    assert_eq!(drain(&mut manager, "A"), vec![SerialResponse::WriteLockReleased { port: None }]);
    assert!(!manager.writelock_manager().is_port_write_locked(&name("ttyA")));
    assert!(!manager.writelock_manager().is_port_write_locked(&name("ttyB")));
    assert!(manager.writelock_manager().is_port_write_locked_by(&name("ttyC"), &name("B")));
    // releasing a lock that is not held succeeds
    assert_eq!(request(&mut manager, "A", release(Some("ttyA"))), None);
    assert_eq!(
        drain(&mut manager, "A"),
        vec![SerialResponse::WriteLockReleased { port: Some(name("ttyA")) }]
    );
}

#[test]
fn full_close_leaves_nothing_of_the_subscription() {
    let mut manager = manager_with(&["S1", "S2"]);
    request(&mut manager, "S1", open("ttyA"));
    request(&mut manager, "S1", open("ttyB"));
    request(&mut manager, "S2", open("ttyB"));
    request(&mut manager, "S1", write_lock("ttyA"));
    request(&mut manager, "S1", write_lock("ttyB"));
    request(&mut manager, "S1", write_lock("never-opened"));
    drain(&mut manager, "S1");
    drain(&mut manager, "S2");

    assert_eq!(request(&mut manager, "S1", close(None)), None);
    // the first port has no subscriber left and is closed; the second is still wanted
    assert_eq!(drain(&mut manager, "S1"), vec![SerialResponse::Closed { port: name("ttyA") }]);
    assert_eq!(manager.port_manager().open_ports(), vec![name("ttyB")]);
    assert_eq!(manager.sub_manager().subscribed_ports(), vec![name("ttyB")]);
    for port in ["ttyA", "ttyB", "never-opened"] {
        assert!(!manager.writelock_manager().is_port_write_locked(&name(port)));
    }
    assert_eq!(drain(&mut manager, "S2"), vec![]);
}

#[test]
fn failed_delivery_ends_the_subscription_and_releases_its_locks() {
    let mut manager = manager_with(&["S1", "S2"]);
    request(&mut manager, "S1", open(PORT));
    request(&mut manager, "S2", open(PORT));
    request(&mut manager, "S1", write_lock(PORT));
    request(&mut manager, "S1", write_lock("other"));
    drain(&mut manager, "S1");
    drain(&mut manager, "S2");

    // the client of S1 vanishes; the next read cannot be delivered to it
    manager.disconnect(&name("S1"));
    let mut pending = Vec::new();
    manager.service(&vec![data_read(PORT, b"data")], &mut pending);

    assert_eq!(manager.sub_manager().subscription_ids(), vec![name("S2")]);
    assert!(!manager.writelock_manager().is_port_write_locked(&name(PORT)));
    assert!(!manager.writelock_manager().is_port_write_locked(&name("other")));
    assert_eq!(
        drain(&mut manager, "S2"),
        vec![SerialResponse::Read { port: name(PORT), data: name("data"), base64: Some(false) }]
    );
    // the lock is free for the others
    assert_eq!(request(&mut manager, "S2", write_lock(PORT)), None);
    assert_eq!(drain(&mut manager, "S2"), vec![SerialResponse::WriteLocked { port: name(PORT) }]);
}

#[test]
fn failed_unicast_ends_the_subscription() {
    let mut manager = manager_with(&["S1"]);
    request(&mut manager, "S1", write_lock(PORT));
    manager.disconnect(&name("S1"));
    manager.send_message(&name("S1"), SerialResponse::Okay { msg: name("hello?") });
    assert_eq!(manager.sub_manager().subscription_ids(), Vec::<String>::new());
    assert!(!manager.writelock_manager().is_port_write_locked(&name(PORT)));
}

#[test]
fn bad_port_is_torn_down_for_all_its_subscribers() {
    let mut manager = manager_with(&["S1", "S2", "S3"]);
    request(&mut manager, "S1", open(PORT));
    request(&mut manager, "S2", open(PORT));
    request(&mut manager, "S3", open("/dev/ttyUSB1"));
    request(&mut manager, "S1", write_lock(PORT));
    for id in ["S1", "S2", "S3"] {
        drain(&mut manager, id);
    }

    let mut pending = Vec::new();
    let attempts = vec![
        PortRead { port: name(PORT), attempt: Err(broken()) },
        data_read("/dev/ttyUSB1", b"fine"),
    ];
    manager.service(&attempts, &mut pending);

    let told = vec![
        SerialResponse::Error {
            description: name("Error reading serial port"),
            display: name("Read from port '/dev/ttyUSB0' failed"),
        },
        SerialResponse::Closed { port: name(PORT) },
    ];
    assert_eq!(drain(&mut manager, "S1"), told);
    assert_eq!(drain(&mut manager, "S2"), told);
    assert_eq!(
        drain(&mut manager, "S3"),
        vec![SerialResponse::Read {
            port: name("/dev/ttyUSB1"),
            data: name("fine"),
            base64: Some(false),
        }]
    );
    assert_eq!(manager.port_manager().open_ports(), vec![name("/dev/ttyUSB1")]);
    assert!(!manager.writelock_manager().is_port_write_locked(&name(PORT)));
    assert_eq!(manager.sub_manager().subscribed_ports(), vec![name("/dev/ttyUSB1")]);
    assert_eq!(
        manager.sub_manager().subscription_ids(),
        vec![name("S1"), name("S2"), name("S3")]
    );
}

#[test]
fn end_of_file_makes_a_port_bad_and_a_timeout_does_not() {
    let mut manager = manager_with(&["S1"]);
    request(&mut manager, "S1", open("eof"));
    request(&mut manager, "S1", open("quiet"));
    drain(&mut manager, "S1");

    let timeout = DriverError {
        timed_out: true,
        description: name("TimedOut"),
        display: name("Operation timed out"),
    };
    let attempts = vec![
        PortRead { port: name("eof"), attempt: Ok(vec![]) },
        PortRead { port: name("quiet"), attempt: Err(timeout) },
    ];
    assert_eq!(manager.handle_port_reads(&attempts), vec![name("eof")]);
    // nothing is torn down before the bad ports are cleaned up
    assert_eq!(manager.port_manager().open_ports(), vec![name("eof"), name("quiet")]);
    assert_eq!(drain(&mut manager, "S1"), vec![]);

    manager.cleanup_bad_ports(&vec![name("eof")]);
    assert_eq!(manager.port_manager().open_ports(), vec![name("quiet")]);
    assert_eq!(
        drain(&mut manager, "S1"),
        vec![
            error_of(WebsocketSerialServerError::PortReadError { port: name("eof") }),
            SerialResponse::Closed { port: name("eof") },
        ]
    );
}

#[test]
fn close_bad_ports_tears_down_each_port() {
    let mut manager = manager_with(&["S1"]);
    request(&mut manager, "S1", open("a"));
    request(&mut manager, "S1", open("b"));
    request(&mut manager, "S1", open("c"));
    request(&mut manager, "S1", write_lock("a"));
    drain(&mut manager, "S1");
    manager.close_bad_ports(vec![name("a"), name("c")]);
    assert_eq!(manager.port_manager().open_ports(), vec![name("b")]);
    assert_eq!(manager.sub_manager().subscribed_ports(), vec![name("b")]);
    assert!(!manager.writelock_manager().is_port_write_locked(&name("a")));
    assert_eq!(drain(&mut manager, "S1").len(), 4);
}

#[test]
fn binary_data_is_broadcast_as_base64() {
    let mut manager = manager_with(&["S1"]);
    request(&mut manager, "S1", open(PORT));
    drain(&mut manager, "S1");
    assert_eq!(manager.handle_port_reads(&vec![data_read(PORT, &[0xff, 0xfe])]), Vec::<String>::new());
    assert_eq!(
        drain(&mut manager, "S1"),
        vec![SerialResponse::Read { port: name(PORT), data: name("//4="), base64: Some(true) }]
    );
}

#[test]
fn at_most_fifty_registrations_are_taken_per_cycle() {
    assert_eq!(MAX_REGISTRATIONS_PER_CYCLE, 50);
    let mut manager = Manager::new();
    let mut pending: Vec<SubscriptionRequest> = (0..60)
        .map(|i| SubscriptionRequest { sub_id: format!("sub-{}", i) })
        .collect();
    manager.service(&vec![], &mut pending);
    assert_eq!(manager.sub_manager().subscription_ids().len(), 50);
    assert_eq!(pending.len(), 10);
    assert_eq!(pending[0].sub_id, "sub-50");
    manager.register_pending(&mut pending);
    assert_eq!(manager.sub_manager().subscription_ids().len(), 60);
    assert_eq!(pending.len(), 0);
    assert_eq!(manager.sub_manager().subscription_ids()[59], "sub-59");
}

#[test]
fn registration_in_the_cycle_of_a_bad_port_comes_before_its_teardown() {
    let mut manager = manager_with(&["S1"]);
    request(&mut manager, "S1", open(PORT));
    drain(&mut manager, "S1");
    let mut pending = vec![SubscriptionRequest { sub_id: name("late") }];
    manager.service(&vec![PortRead { port: name(PORT), attempt: Ok(vec![]) }], &mut pending);
    assert_eq!(manager.sub_manager().subscription_ids(), vec![name("S1"), name("late")]);
    assert_eq!(drain(&mut manager, "late"), vec![]);
    assert_eq!(drain(&mut manager, "S1").len(), 2);
    assert!(!manager.port_manager().is_port_open(&name(PORT)));
}

#[test]
fn resolving_failures_ends_only_unreachable_subscribers() {
    let mut manager = manager_with(&["A", "B"]);
    request(&mut manager, "A", write_lock("p"));
    request(&mut manager, "B", write_lock("q"));
    manager.cleanup_bad_subs(vec![
        WebsocketSerialServerError::SubscriptionNotFound { subscription_id: name("B") },
        WebsocketSerialServerError::SubscriberSendError { subscription_id: name("A") },
    ]);
    assert_eq!(manager.sub_manager().subscription_ids(), vec![name("B")]);
    assert!(!manager.writelock_manager().is_port_write_locked(&name("p")));
    assert!(manager.writelock_manager().is_port_write_locked_by(&name("q"), &name("B")));
    assert_eq!(manager.check_sub_id(&name("B")), Ok(()));
    assert_eq!(
        manager.check_sub_id(&name("A")),
        Err(WebsocketSerialServerError::SubscriptionNotFound { subscription_id: name("A") })
    );
    assert_eq!(manager.check_owns_writelock(&name("q"), &name("B")), Ok(()));
}

#[test]
fn broadcast_reaches_everyone() {
    let mut manager = manager_with(&["A", "B"]);
    manager.broadcast_message(SerialResponse::Okay { msg: name("hi") });
    assert_eq!(drain(&mut manager, "A"), vec![SerialResponse::Okay { msg: name("hi") }]);
    assert_eq!(drain(&mut manager, "B"), vec![SerialResponse::Okay { msg: name("hi") }]);
    manager.broadcast_message_for_port(&name("nobody's"), SerialResponse::Okay { msg: name("x") });
    assert_eq!(drain(&mut manager, "A"), vec![]);
}

#[test]
fn ordinary_requests_and_reads_are_sound() {
    assert!(request_is_sound(&open(PORT)));
    assert!(request_is_sound(&write(PORT, "hello")));
    assert!(request_is_sound(&SerialRequest::Write {
        port: name(PORT),
        data: name("aGVsbG8="),
        base64: Some(true),
    }));
    assert!(reads_are_sound(&vec![]));
    assert!(reads_are_sound(&vec![
        data_read(PORT, &[0u8; 4096]),
        PortRead { port: name(PORT), attempt: Err(broken()) },
    ]));
}

#[test]
fn the_loop_stops_only_when_no_command_can_come() {
    let mut manager = manager_with(&["A"]);
    assert_eq!(manager.handle_polled(Polled::Empty), Progress::Continue { call: None });
    assert_eq!(
        manager.handle_polled(Polled::Command { sub_id: name("A"), request: open(PORT) }),
        Progress::Continue { call: Some(DriverCall::Open { port: name(PORT) }) }
    );
    assert_eq!(
        manager.handle_polled(Polled::Command { sub_id: name("A"), request: write_lock(PORT) }),
        Progress::Continue { call: None }
    );
    assert_eq!(manager.handle_polled(Polled::Disconnected), Progress::Stop);
    assert!(manager.writelock_manager().is_port_write_locked_by(&name(PORT), &name("A")));
    // the open is not done before the driver has answered
    assert!(!manager.port_manager().is_port_open(&name(PORT)));
}

#[test]
fn outgoing_responses_are_taken_subscription_by_subscription() {
    let mut manager = manager_with(&["S1", "S2"]);
    request(&mut manager, "S2", write_lock("ttyB"));
    request(&mut manager, "S1", open(PORT));
    request(&mut manager, "S1", write_lock(PORT));
    assert_eq!(
        manager.take_outgoing(),
        vec![
            Delivery { sub_id: name("S1"), response: SerialResponse::Opened { port: name(PORT) } },
            Delivery {
                sub_id: name("S1"),
                response: SerialResponse::WriteLocked { port: name(PORT) },
            },
            Delivery {
                sub_id: name("S2"),
                response: SerialResponse::WriteLocked { port: name("ttyB") },
            },
        ]
    );
    assert_eq!(manager.take_outgoing(), vec![]);
    assert_eq!(drain(&mut manager, "S1"), vec![]);
}

#[test]
fn undelivered_response_ends_the_subscription() {
    let mut manager = manager_with(&["S1", "S2"]);
    request(&mut manager, "S1", open(PORT));
    request(&mut manager, "S1", write_lock(PORT));
    request(&mut manager, "S2", open(PORT));
    let outgoing = manager.take_outgoing();
    assert_eq!(outgoing.len(), 3);
    // the transport cannot reach S1
    manager.delivery_failed(outgoing[0].clone());
    assert_eq!(manager.sub_manager().subscription_ids(), vec![name("S2")]);
    assert!(!manager.writelock_manager().is_port_write_locked(&name(PORT)));
    // a second report of the same failure changes nothing
    manager.delivery_failed(outgoing[1].clone());
    assert_eq!(manager.sub_manager().subscription_ids(), vec![name("S2")]);
    assert_eq!(manager.sub_manager().subscribed_ports(), vec![name(PORT)]);
    assert_eq!(manager.take_outgoing(), vec![]);
}
