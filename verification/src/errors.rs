//! The ways in which a request, a port or a delivery can fail, and the
//! text a client is given for each.

use vstd::prelude::*;
use vstd::string::StringExecFns;
use crate::messages::{ResponseView, SerialResponse};

verus! {

/// The kinds of failure the server knows.
#[derive(Clone, Debug, PartialEq)]
#[allow(inconsistent_fields)]
pub enum WebsocketSerialServerError {
    /// The request was not understood.
    UnknownRequest,
    /// The port is not open.
    OpenPortNotFound { port: String },
    /// No subscription is registered under the id.
    SubscriptionNotFound { subscription_id: String },
    /// The write lock on the port is not the caller's to use or take.
    AlreadyWriteLocked { port: String },
    /// A write was tried without the write lock.
    NeedWriteLock { port: String },
    /// Reading the port failed.
    PortReadError { port: String },
    /// The port reported end of file.
    PortEofError { port: String },
    /// Writing the port failed.
    PortWriteError { port: String },
    /// A response could not be handed to the subscriber.
    SubscriberSendError { subscription_id: String },
    /// Any other failure (transport, decoding, driver), with its texts.
    Other { description: String, display: String },
}

/// The mathematical value of a [`WebsocketSerialServerError`].
#[allow(inconsistent_fields)]
pub enum ErrorView {
    UnknownRequest,
    OpenPortNotFound { port: Seq<char> },
    SubscriptionNotFound { subscription_id: Seq<char> },
    AlreadyWriteLocked { port: Seq<char> },
    NeedWriteLock { port: Seq<char> },
    PortReadError { port: Seq<char> },
    PortEofError { port: Seq<char> },
    PortWriteError { port: Seq<char> },
    SubscriberSendError { subscription_id: Seq<char> },
    Other { description: Seq<char>, display: Seq<char> },
}

impl View for WebsocketSerialServerError {
    type V = ErrorView;

    open spec fn view(&self) -> ErrorView {
        match *self {
            WebsocketSerialServerError::UnknownRequest => ErrorView::UnknownRequest,
            WebsocketSerialServerError::OpenPortNotFound { port } => ErrorView::OpenPortNotFound {
                port: port@,
            },
            WebsocketSerialServerError::SubscriptionNotFound {
                subscription_id,
            } => ErrorView::SubscriptionNotFound { subscription_id: subscription_id@ },
            WebsocketSerialServerError::AlreadyWriteLocked {
                port,
            } => ErrorView::AlreadyWriteLocked { port: port@ },
            WebsocketSerialServerError::NeedWriteLock { port } => ErrorView::NeedWriteLock {
                port: port@,
            },
            WebsocketSerialServerError::PortReadError { port } => ErrorView::PortReadError {
                port: port@,
            },
            WebsocketSerialServerError::PortEofError { port } => ErrorView::PortEofError {
                port: port@,
            },
            WebsocketSerialServerError::PortWriteError { port } => ErrorView::PortWriteError {
                port: port@,
            },
            WebsocketSerialServerError::SubscriberSendError {
                subscription_id,
            } => ErrorView::SubscriberSendError { subscription_id: subscription_id@ },
            WebsocketSerialServerError::Other { description, display } => ErrorView::Other {
                description: description@,
                display: display@,
            },
        }
    }
}

impl DeepView for WebsocketSerialServerError {
    type V = ErrorView;

    open spec fn deep_view(&self) -> ErrorView {
        self@
    }
}

impl ErrorView {
    /// The short, fixed text that names the kind of failure.
    pub open spec fn description(self) -> Seq<char> {
        match self {
            ErrorView::UnknownRequest => "Unknown request"@,
            ErrorView::OpenPortNotFound { .. } => "Open serial port not found"@,
            ErrorView::SubscriptionNotFound { .. } => "Subscription not found"@,
            ErrorView::AlreadyWriteLocked { .. } => "Port already write locked by another client"@,
            ErrorView::NeedWriteLock { .. } => "Need write lock"@,
            ErrorView::PortReadError { .. } => "Error reading serial port"@,
            ErrorView::PortEofError { .. } => "Encountered EOF reading serial port"@,
            ErrorView::PortWriteError { .. } => "Error writing serial port"@,
            ErrorView::SubscriberSendError { .. } => "Error sending message to subscriber"@,
            ErrorView::Other { description, .. } => description,
        }
    }

    /// The text shown to a client, which names the port or subscription.
    pub open spec fn display(self) -> Seq<char> {
        match self {
            ErrorView::UnknownRequest => "Unknown request,"@,
            ErrorView::OpenPortNotFound { port } => "Serial port '"@ + port
                + "' not found, try opening it first"@,
            ErrorView::SubscriptionNotFound { subscription_id } => "Subscription for id '"@
                + subscription_id + "' not found"@,
            ErrorView::AlreadyWriteLocked { port } => "Open serial port '"@ + port
                + "' is already write locked by another client"@,
            ErrorView::NeedWriteLock { port } => "Write to open port '"@ + port
                + "' failed, you need to write lock first"@,
            ErrorView::PortReadError { port } => "Read from port '"@ + port + "' failed"@,
            ErrorView::PortEofError { port } => "Encountered EOF reading serial port "@ + port,
            ErrorView::PortWriteError { port } => "Writing to port '"@ + port + "' failed"@,
            ErrorView::SubscriberSendError { subscription_id } => "Send to subscriber '"@
                + subscription_id + "' failed"@,
            ErrorView::Other { display, .. } => display,
        }
    }

    /// The error response that tells a client of this failure.
    pub open spec fn response(self) -> ResponseView {
        ResponseView::Error { description: self.description(), display: self.display() }
    }
}

/// The text `prefix`, then `name`, then `suffix`.
fn framed(prefix: &str, name: &String, suffix: &str) -> (text: String)
    ensures
        text@ == prefix@ + name@ + suffix@,
{
    let start = prefix.to_owned();
    let middle = start.concat(name.as_str());
    middle.concat(suffix)
}

impl WebsocketSerialServerError {
    /// The short, fixed text that names the kind of failure.
    pub fn description(&self) -> (text: String)
        ensures
            text@ == self@.description(),
    {
        match self {
            WebsocketSerialServerError::UnknownRequest => "Unknown request".to_owned(),
            WebsocketSerialServerError::OpenPortNotFound {
                ..
            } => "Open serial port not found".to_owned(),
            WebsocketSerialServerError::SubscriptionNotFound {
                ..
            } => "Subscription not found".to_owned(),
            WebsocketSerialServerError::AlreadyWriteLocked {
                ..
            } => "Port already write locked by another client".to_owned(),
            WebsocketSerialServerError::NeedWriteLock { .. } => "Need write lock".to_owned(),
            WebsocketSerialServerError::PortReadError {
                ..
            } => "Error reading serial port".to_owned(),
            WebsocketSerialServerError::PortEofError {
                ..
            } => "Encountered EOF reading serial port".to_owned(),
            WebsocketSerialServerError::PortWriteError {
                ..
            } => "Error writing serial port".to_owned(),
            WebsocketSerialServerError::SubscriberSendError {
                ..
            } => "Error sending message to subscriber".to_owned(),
            WebsocketSerialServerError::Other { description, .. } => description.clone(),
        }
    }

    /// The text shown to a client, which names the port or subscription.
    pub fn display(&self) -> (text: String)
        ensures
            text@ == self@.display(),
    {
        match self {
            WebsocketSerialServerError::UnknownRequest => "Unknown request,".to_owned(),
            WebsocketSerialServerError::OpenPortNotFound { port } => framed(
                "Serial port '",
                port,
                "' not found, try opening it first",
            ),
            WebsocketSerialServerError::SubscriptionNotFound { subscription_id } => framed(
                "Subscription for id '",
                subscription_id,
                "' not found",
            ),
            WebsocketSerialServerError::AlreadyWriteLocked { port } => framed(
                "Open serial port '",
                port,
                "' is already write locked by another client",
            ),
            WebsocketSerialServerError::NeedWriteLock { port } => framed(
                "Write to open port '",
                port,
                "' failed, you need to write lock first",
            ),
            WebsocketSerialServerError::PortReadError { port } => framed(
                "Read from port '",
                port,
                "' failed",
            ),
            WebsocketSerialServerError::PortEofError { port } => {
                let start = "Encountered EOF reading serial port ".to_owned();
                start.concat(port.as_str())
            },
            WebsocketSerialServerError::PortWriteError { port } => framed(
                "Writing to port '",
                port,
                "' failed",
            ),
            WebsocketSerialServerError::SubscriberSendError { subscription_id } => framed(
                "Send to subscriber '",
                subscription_id,
                "' failed",
            ),
            WebsocketSerialServerError::Other { display, .. } => display.clone(),
        }
    }
}

/// The error response that tells a client of the failure `err`.
pub fn to_serial_response_error(err: WebsocketSerialServerError) -> (response: SerialResponse)
    ensures
        response@ == err@.response(),
{
    SerialResponse::Error { description: err.description(), display: err.display() }
}

} // verus!
