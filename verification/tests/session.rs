use serial_support::errors::WebsocketSerialServerError;
use serial_support::manager::Manager;
use serial_support::messages::{SerialRequest, SerialResponse, SubscriptionRequest};
use serial_support::session::{
    send_serial_response_error, Frame, SessionAction, SessionHandler, MAX_SEND_ERROR_COUNT,
    SUBPROTOCOL,
};

fn name(text: &str) -> String {
    text.to_string()
}

/// What the transport makes of a text frame: the request, or the failure
/// to read one.
fn decode(text: &str) -> Frame {
    let value: Result<serde_json::Value, serde_json::Error> = serde_json::from_str(text);
    let decoded = match value {
        Err(e) => Err(WebsocketSerialServerError::Other {
            description: name("JSON error"),
            display: e.to_string(),
        }),
        Ok(value) => match value.get("Open").and_then(|v| v.get("port")).and_then(|p| p.as_str()) {
            Some(port) => Ok(SerialRequest::Open { port: port.to_string() }),
            None => Err(WebsocketSerialServerError::UnknownRequest),
        },
    };
    Frame::Message { decoded }
}

#[test]
fn malformed_json_yields_one_error_to_the_client_only() {
    let mut manager = Manager::new();
    manager.add_subscription(SubscriptionRequest { sub_id: name("S1") });
    manager.add_subscription(SubscriptionRequest { sub_id: name("S2") });
    let handler = SessionHandler::new(name("S1"));

    let frame = decode("{\"Open\":}");
    let expected_display = match &frame {
        Frame::Message { decoded: Err(e) } => e.display(),
        other => panic!("the frame should not decode, got {:?}", other),
    };
    let action = handler.handle_frame(frame);
    assert_eq!(
        action,
        SessionAction::Respond {
            response: SerialResponse::Error {
                description: name("JSON error"),
                display: expected_display,
            },
        }
    );
    // nothing reached the coordinator: its state is as it was
    assert_eq!(manager.port_manager().open_ports(), Vec::<String>::new());
    assert_eq!(manager.sub_manager().subscribed_ports(), Vec::<String>::new());
    assert_eq!(manager.sub_manager().subscription_ids(), vec![name("S1"), name("S2")]);
    assert_eq!(manager.take_message(&name("S1")), None);
    assert_eq!(manager.take_message(&name("S2")), None);
}

#[test]
fn well_formed_request_is_forwarded() {
    let handler = SessionHandler::new(name("S1"));
    assert_eq!(
        handler.handle_frame(decode("{\"Open\":{\"port\":\"/dev/ttyUSB0\"}}")),
        SessionAction::Forward { request: SerialRequest::Open { port: name("/dev/ttyUSB0") } }
    );
}

#[test]
fn json_that_is_no_request_is_answered_with_an_error() {
    let handler = SessionHandler::new(name("S1"));
    assert_eq!(
        handler.handle_frame(decode("{\"Frobnicate\":{}}")),
        SessionAction::Respond {
            response: SerialResponse::Error {
                description: name("Unknown request"),
                display: name("Unknown request,"),
            },
        }
    );
}

#[test]
fn close_frame_hangs_up_with_a_full_close() {
    let handler = SessionHandler::new(name("S1"));
    assert_eq!(
        handler.handle_frame(Frame::Close),
        SessionAction::HangUp { request: SerialRequest::Close { port: None } }
    );
}

#[test]
fn ping_is_answered_in_place() {
    let handler = SessionHandler::new(name("S1"));
    assert_eq!(
        handler.handle_frame(Frame::Ping { payload: vec![1, 2, 3] }),
        SessionAction::Pong { payload: vec![1, 2, 3] }
    );
}

#[test]
fn session_registers_under_its_id() {
    let handler = SessionHandler::new(name("thread-abc-7"));
    assert_eq!(handler.sub_id(), "thread-abc-7");
    assert_eq!(handler.registration(), SubscriptionRequest { sub_id: name("thread-abc-7") });
}

#[test]
fn only_the_sub_protocol_is_accepted() {
    assert_eq!(SUBPROTOCOL, "websocket-serial-json");
    assert!(SessionHandler::accepts(&vec![name("chat"), name("websocket-serial-json")]));
    assert!(!SessionHandler::accepts(&vec![name("chat")]));
    assert!(!SessionHandler::accepts(&vec![]));
}

#[test]
fn session_ends_after_more_than_five_failed_sends() {
    assert_eq!(MAX_SEND_ERROR_COUNT, 5);
    let mut handler = SessionHandler::new(name("S1"));
    assert!(handler.record_send(true));
    for _ in 0..5 {
        assert!(handler.record_send(false));
    }
    // successes in between do not reset the count
    assert!(handler.record_send(true));
    assert!(!handler.record_send(false));
    assert!(!handler.record_send(true));
    assert!(!handler.record_send(false));
}

#[test]
fn failure_to_forward_is_reported_as_an_error() {
    let gone = WebsocketSerialServerError::Other {
        description: name("sending on a closed channel"),
        display: name("sending on a closed channel"),
    };
    assert_eq!(
        send_serial_response_error(gone),
        SerialResponse::Error {
            description: name("sending on a closed channel"),
            display: name("sending on a closed channel"),
        }
    );
}
