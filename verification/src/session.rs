//! The decisions of a session handler: what to do with each frame a client
//! sends, and when to give a client up.
//!
//! The handler of a connection reads frames, decodes them and hands them
//! here; it carries out the action it is told and relays the responses
//! that the coordinator queued for its subscription.

use vstd::prelude::*;
use crate::errors::{to_serial_response_error, ErrorView, WebsocketSerialServerError};
use crate::messages::{
    RequestView,
    ResponseView,
    SerialRequest,
    SerialResponse,
    SubscriptionRequest,
};
use crate::names::contains_name;

verus! {

/// Max number of failures we allow when trying to send data to a client
/// before giving it up.
pub const MAX_SEND_ERROR_COUNT: u32 = 5;

/// The sub-protocol a connection must offer.
pub const SUBPROTOCOL: &'static str = "websocket-serial-json";

/// A frame received from a client, as far as the handler looks at it.
#[derive(Debug, PartialEq)]
#[allow(inconsistent_fields)]
pub enum Frame {
    /// The client closes the connection.
    Close,
    /// A ping, with its payload.
    Ping { payload: Vec<u8> },
    /// Any other frame: the request its payload decodes to, or the failure
    /// to decode it.
    Message { decoded: Result<SerialRequest, WebsocketSerialServerError> },
}

/// What the handler must do with a frame.
#[derive(Clone, Debug, PartialEq)]
#[allow(inconsistent_fields)]
pub enum SessionAction {
    /// Answer the close, send `request` to the coordinator so that it
    /// releases what the session held, and end the session.
    HangUp { request: SerialRequest },
    /// Answer with a pong that carries `payload`.
    Pong { payload: Vec<u8> },
    /// Send `request` to the coordinator, under the id of the session.
    Forward { request: SerialRequest },
    /// Send `response` to the client. The coordinator hears nothing.
    Respond { response: SerialResponse },
}

/// The mathematical value of a [`Frame`].
#[allow(inconsistent_fields)]
pub enum FrameView {
    Close,
    Ping { payload: Seq<u8> },
    Message { decoded: Result<RequestView, ErrorView> },
}

/// The mathematical value of a [`SessionAction`].
#[allow(inconsistent_fields)]
pub enum SessionActionView {
    HangUp { request: RequestView },
    Pong { payload: Seq<u8> },
    Forward { request: RequestView },
    Respond { response: ResponseView },
}

impl View for Frame {
    type V = FrameView;

    open spec fn view(&self) -> FrameView {
        match *self {
            Frame::Close => FrameView::Close,
            Frame::Ping { payload } => FrameView::Ping { payload: payload@ },
            Frame::Message { decoded } => FrameView::Message {
                decoded: match decoded {
                    Ok(request) => Ok(request@),
                    Err(e) => Err(e@),
                },
            },
        }
    }
}

impl View for SessionAction {
    type V = SessionActionView;

    open spec fn view(&self) -> SessionActionView {
        match *self {
            SessionAction::HangUp { request } => SessionActionView::HangUp { request: request@ },
            SessionAction::Pong { payload } => SessionActionView::Pong { payload: payload@ },
            SessionAction::Forward { request } => SessionActionView::Forward { request: request@ },
            SessionAction::Respond { response } => SessionActionView::Respond {
                response: response@,
            },
        }
    }
}

impl FrameView {
    /// What the handler must do with the frame: a close ends the session
    /// with a request to close everything; a ping is answered; a request
    /// is forwarded; a frame that does not decode is answered with the
    /// error, and goes no further.
    pub open spec fn action(self) -> SessionActionView {
        match self {
            FrameView::Close => SessionActionView::HangUp {
                request: RequestView::Close { port: None },
            },
            FrameView::Ping { payload } => SessionActionView::Pong { payload },
            FrameView::Message { decoded } => match decoded {
                Ok(request) => SessionActionView::Forward { request },
                Err(failure) => SessionActionView::Respond { response: failure.response() },
            },
        }
    }
}

/// How many failed sends are counted after one more send, `delivered` or
/// not. Past the limit the count stays.
pub open spec fn counted_failures(count: u32, delivered: bool) -> u32 {
    if delivered || count > MAX_SEND_ERROR_COUNT {
        count
    } else {
        (count + 1) as u32
    }
}

/// The state of the handler of one connection.
pub struct SessionHandler {
    /// The id of the subscription of the session.
    sub_id: String,
    /// How many sends to the client failed.
    send_error_count: u32,
}

impl SessionHandler {
    /// The id of the subscription of the session.
    pub closed spec fn spec_sub_id(&self) -> Seq<char> {
        self.sub_id@
    }

    /// How many sends to the client failed.
    pub closed spec fn failures(&self) -> u32 {
        self.send_error_count
    }

    /// The handler of a new session.
    pub fn new(sub_id: String) -> (handler: SessionHandler)
        ensures
            handler.spec_sub_id() == sub_id@,
            handler.failures() == 0,
    {
        SessionHandler { sub_id, send_error_count: 0 }
    }

    /// Whether a connection that offers `protocols` is accepted: it must
    /// offer the sub-protocol of this server.
    pub fn accepts(protocols: &Vec<String>) -> (accepted: bool)
        ensures
            accepted == protocols.deep_view().contains(SUBPROTOCOL@),
    {
        let wanted = SUBPROTOCOL.to_owned();
        contains_name(protocols, &wanted)
    }

    /// The id of the subscription of the session.
    pub fn sub_id(&self) -> (sub_id: &String)
        ensures
            sub_id@ == self.spec_sub_id(),
    {
        &self.sub_id
    }

    /// The request that registers the session with the coordinator.
    pub fn registration(&self) -> (request: SubscriptionRequest)
        ensures
            request.sub_id@ == self.spec_sub_id(),
    {
        SubscriptionRequest { sub_id: self.sub_id.clone() }
    }

    /// What to do with a frame received from the client.
    pub fn handle_frame(&self, frame: Frame) -> (action: SessionAction)
        ensures
            action@ == frame@.action(),
    {
        match frame {
            Frame::Close => SessionAction::HangUp { request: SerialRequest::Close { port: None } },
            Frame::Ping { payload } => SessionAction::Pong { payload },
            Frame::Message { decoded } => match decoded {
                Ok(request) => SessionAction::Forward { request },
                Err(err) => SessionAction::Respond { response: send_serial_response_error(err) },
            },
        }
    }

    /// Record whether a response was delivered to the client, and say
    /// whether the session goes on: it ends once more than
    /// `MAX_SEND_ERROR_COUNT` sends have failed.
    pub fn record_send(&mut self, delivered: bool) -> (go_on: bool)
        ensures
            final(self).spec_sub_id() == old(self).spec_sub_id(),
            final(self).failures() == counted_failures(old(self).failures(), delivered),
            go_on == (final(self).failures() <= MAX_SEND_ERROR_COUNT),
    {
        if !delivered && self.send_error_count <= MAX_SEND_ERROR_COUNT {
            self.send_error_count += 1;
        }
        self.send_error_count <= MAX_SEND_ERROR_COUNT
    }
}

/// The response that tells a client of the failure `error`: what is sent
/// back where a frame cannot be decoded or a request cannot be forwarded.
pub fn send_serial_response_error(error: WebsocketSerialServerError) -> (response: SerialResponse)
    ensures
        response@ == error@.response(),
{
    to_serial_response_error(error)
}

} // verus!
