//! The requests a client can make and the responses the server gives.
//!
//! On the wire each message is a JSON object with a single key that names
//! the variant; here they are plain values.

use vstd::prelude::*;

verus! {

/// A request to register a new subscription under the given id.
#[derive(Clone, Debug, PartialEq)]
pub struct SubscriptionRequest {
    pub sub_id: String,
}

/// A request made by a client.
#[derive(Clone, Debug, PartialEq)]
#[allow(inconsistent_fields)]
pub enum SerialRequest {
    /// Open a port for reading. Opening a port that is open already is fine.
    Open { port: String },
    /// Take control of a port for writing.
    WriteLock { port: String },
    /// Release control of a port for writing; without a port, release every
    /// write lock the client holds.
    ReleaseWriteLock { port: Option<String> },
    /// Write data to a port; only the holder of the write lock may.
    /// `base64` is set when `data` is base64 encoded.
    Write { port: String, data: String, base64: Option<bool> },
    /// Stop receiving what is read from a port; without a port, from all.
    Close { port: Option<String> },
    /// List the serial ports of the host.
    List {  },
}

/// A response sent to a client.
#[derive(Clone, Debug, PartialEq)]
#[allow(inconsistent_fields)]
pub enum SerialResponse {
    /// A request failed, or a port went bad.
    Error { description: String, display: String },
    /// Data read from a port. If the bytes were not valid UTF-8 the data is
    /// base64 encoded and `base64` is `Some(true)`.
    Read { port: String, data: String, base64: Option<bool> },
    /// The port was closed.
    Closed { port: String },
    /// The port was opened.
    Opened { port: String },
    /// Command successful.
    Okay { msg: String },
    /// The data was written to the port.
    Wrote { port: String },
    /// The port is now write locked by the client.
    WriteLocked { port: String },
    /// The write lock on the port, or all the client's write locks, were
    /// released.
    WriteLockReleased { port: Option<String> },
    /// The serial ports of the host.
    List { ports: Vec<String> },
}

/// The mathematical value of a [`SerialRequest`].
#[allow(inconsistent_fields)]
pub enum RequestView {
    Open { port: Seq<char> },
    WriteLock { port: Seq<char> },
    ReleaseWriteLock { port: Option<Seq<char>> },
    Write { port: Seq<char>, data: Seq<char>, base64: Option<bool> },
    Close { port: Option<Seq<char>> },
    List,
}

/// The mathematical value of a [`SerialResponse`].
#[allow(inconsistent_fields)]
pub enum ResponseView {
    Error { description: Seq<char>, display: Seq<char> },
    Read { port: Seq<char>, data: Seq<char>, base64: Option<bool> },
    Closed { port: Seq<char> },
    Opened { port: Seq<char> },
    Okay { msg: Seq<char> },
    Wrote { port: Seq<char> },
    WriteLocked { port: Seq<char> },
    WriteLockReleased { port: Option<Seq<char>> },
    List { ports: Seq<Seq<char>> },
}

impl View for SerialRequest {
    type V = RequestView;

    open spec fn view(&self) -> RequestView {
        match *self {
            SerialRequest::Open { port } => RequestView::Open { port: port@ },
            SerialRequest::WriteLock { port } => RequestView::WriteLock { port: port@ },
            SerialRequest::ReleaseWriteLock { port } => RequestView::ReleaseWriteLock {
                port: port.deep_view(),
            },
            SerialRequest::Write { port, data, base64 } => RequestView::Write {
                port: port@,
                data: data@,
                base64,
            },
            SerialRequest::Close { port } => RequestView::Close { port: port.deep_view() },
            SerialRequest::List {  } => RequestView::List,
        }
    }
}

impl View for SerialResponse {
    type V = ResponseView;

    open spec fn view(&self) -> ResponseView {
        match *self {
            SerialResponse::Error { description, display } => ResponseView::Error {
                description: description@,
                display: display@,
            },
            SerialResponse::Read { port, data, base64 } => ResponseView::Read {
                port: port@,
                data: data@,
                base64,
            },
            SerialResponse::Closed { port } => ResponseView::Closed { port: port@ },
            SerialResponse::Opened { port } => ResponseView::Opened { port: port@ },
            SerialResponse::Okay { msg } => ResponseView::Okay { msg: msg@ },
            SerialResponse::Wrote { port } => ResponseView::Wrote { port: port@ },
            SerialResponse::WriteLocked { port } => ResponseView::WriteLocked { port: port@ },
            SerialResponse::WriteLockReleased { port } => ResponseView::WriteLockReleased {
                port: port.deep_view(),
            },
            SerialResponse::List { ports } => ResponseView::List { ports: ports.deep_view() },
        }
    }
}

impl DeepView for SerialRequest {
    type V = RequestView;

    open spec fn deep_view(&self) -> RequestView {
        self@
    }
}

impl DeepView for SerialResponse {
    type V = ResponseView;

    open spec fn deep_view(&self) -> ResponseView {
        self@
    }
}

impl SerialResponse {
    /// A copy of the response, known to have the same value.
    pub fn duplicate(&self) -> (copy: SerialResponse)
        ensures
            copy@ == self@,
    {
        match self {
            SerialResponse::Error { description, display } => SerialResponse::Error {
                description: description.clone(),
                display: display.clone(),
            },
            SerialResponse::Read { port, data, base64 } => SerialResponse::Read {
                port: port.clone(),
                data: data.clone(),
                base64: *base64,
            },
            SerialResponse::Closed { port } => SerialResponse::Closed { port: port.clone() },
            SerialResponse::Opened { port } => SerialResponse::Opened { port: port.clone() },
            SerialResponse::Okay { msg } => SerialResponse::Okay { msg: msg.clone() },
            SerialResponse::Wrote { port } => SerialResponse::Wrote { port: port.clone() },
            SerialResponse::WriteLocked { port } => SerialResponse::WriteLocked {
                port: port.clone(),
            },
            SerialResponse::WriteLockReleased { port } => SerialResponse::WriteLockReleased {
                port: match port {
                    Some(name) => Some(name.clone()),
                    None => None,
                },
            },
            SerialResponse::List { ports } => {
                let copied = ports.clone();
                assert(copied.deep_view() =~= ports.deep_view());
                SerialResponse::List { ports: copied }
            },
        }
    }
}

} // verus!
