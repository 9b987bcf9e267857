//! What the loop that serves one connection reports to the server, and what the server
//! tells it to do next.

use crate::message::ReceiveMessage;
use vstd::prelude::*;

verus! {

/// What reading from a connection, or writing to it, came to.
#[derive(Clone, Copy, PartialEq, Eq, Debug, Structural)]
pub enum ClientEvent {
    /// A frame arrived that is a request.
    Request(ReceiveMessage),
    /// A frame arrived that is no request: text that does not decode, or no text at all.
    Malformed,
    /// Nothing can be read or written right now.
    WouldBlock,
    /// The connection was closed in the regular way.
    ConnectionClosed,
    /// The connection was used after it had been closed.
    AlreadyClosed,
    /// The socket failed, other than by having nothing to read or no room to write.
    IoError,
    /// The transport failed in another way, such as on a frame that breaks its rules.
    OtherError,
}

/// What the loop that serves a connection does next.
#[derive(Clone, Copy, PartialEq, Eq, Debug, Structural)]
pub enum ClientAction {
    Continue,
    Stop,
}

impl ClientEvent {
    /// Whether the event is the end of the connection: it was closed, or its socket
    /// failed. Nothing else is: what a client sends wrongly is passed over, and so is a
    /// socket that is not ready.
    pub open spec fn ends_connection(self) -> bool {
        self == ClientEvent::ConnectionClosed || self == ClientEvent::AlreadyClosed || self
            == ClientEvent::IoError
    }

    /// What the loop that serves a connection does after the event: it stops at the end
    /// of the connection, and goes on otherwise.
    pub open spec fn action(self) -> ClientAction {
        if self.ends_connection() {
            ClientAction::Stop
        } else {
            ClientAction::Continue
        }
    }
}

} // verus!
