//! What the coordinator and the readers make of a socket's errors.

use vstd::prelude::*;
use crate::messages::ClientMessages;

verus! {

/// `tungstenite::Error`, the error of a websocket, declared so that it can
/// stand in signatures. Verus sees nothing inside a value of it.
#[verifier::external_type_specification]
#[verifier::external_body]
pub struct ExSocketError(tokio_tungstenite::tungstenite::Error);

/// The errors of a socket, as far as this library tells them apart.
#[derive(Clone, Copy, Debug, PartialEq, Eq, Structural)]
pub enum SocketFault {
    /// The connection was closed in the regular way.
    ConnectionClosed,
    /// The connection was used after it had been closed.
    AlreadyClosed,
    /// Anything else.
    Other,
}

/// What came of sending one message to one connection.
#[derive(Clone, Copy, Debug, PartialEq, Eq, Structural)]
pub enum SendOutcome {
    Delivered,
    /// The connection is closed.
    Closed,
    /// The send failed for another reason.
    Failed,
}

/// What a connection's reader got from its socket.
#[derive(Copy, Clone, Debug, PartialEq, Eq, Structural)]
pub enum InboundFrame {
    /// A frame that decoded to a client message.
    Message(ClientMessages),
    /// A frame that did not decode.
    Malformed,
    /// The socket reported that it is already closed.
    Closed,
    /// The socket reported another error.
    Failed,
}

/// Which fault an error of a websocket is: what telling the variants of
/// `tungstenite::Error` apart gives for it. An error is one variant and stays
/// that variant, so the same error is always the same fault. Nothing is said
/// here of which fault a given error is: Verus sees nothing inside an error.
pub uninterp spec fn fault_kind(error: tokio_tungstenite::tungstenite::Error) -> SocketFault;

/// Tells the variants of `tungstenite::Error` apart: `ConnectionClosed` and
/// `AlreadyClosed` are passed on under their names, every other variant
/// becomes `Other`. This is taken on trust: Verus reads neither the error nor
/// this body. The contract claims only that the result is the fault that
/// `fault_kind` names for this error.
#[verifier::external_body]
fn fault_of(error: &tokio_tungstenite::tungstenite::Error) -> (r: SocketFault)
    ensures
        r == fault_kind(*error),
{
    match error {
        tokio_tungstenite::tungstenite::Error::ConnectionClosed => SocketFault::ConnectionClosed,
        tokio_tungstenite::tungstenite::Error::AlreadyClosed => SocketFault::AlreadyClosed,
        _ => SocketFault::Other,
    }
}

impl SendOutcome {
    /// A send that failed on a closed connection, one way or the other,
    /// found the connection closed; any other fault is just a failed send.
    pub open spec fn of_fault(fault: SocketFault) -> SendOutcome {
        match fault {
            SocketFault::ConnectionClosed => SendOutcome::Closed,
            SocketFault::AlreadyClosed => SendOutcome::Closed,
            SocketFault::Other => SendOutcome::Failed,
        }
    }

    /// What came of a send that ended in `fault`.
    pub fn from_fault(fault: SocketFault) -> (r: Self)
        ensures
            r == Self::of_fault(fault),
    {
        match fault {
            SocketFault::ConnectionClosed => SendOutcome::Closed,
            SocketFault::AlreadyClosed => SendOutcome::Closed,
            SocketFault::Other => SendOutcome::Failed,
        }
    }

    /// What came of a send that returned `result`: a send that returned no
    /// error was delivered, and one that returned an error ended in the fault
    /// that this error is.
    pub open spec fn of_send(
        result: Result<(), tokio_tungstenite::tungstenite::Error>,
    ) -> SendOutcome {
        match result {
            Ok(_) => SendOutcome::Delivered,
            Err(error) => Self::of_fault(fault_kind(error)),
        }
    }

    /// What came of a send, from what the socket returned.
    pub fn from_send(result: &Result<(), tokio_tungstenite::tungstenite::Error>) -> (r: Self)
        ensures
            r == Self::of_send(*result),
            result is Ok <==> r is Delivered,
    {
        match result {
            Ok(_) => SendOutcome::Delivered,
            Err(error) => Self::from_fault(fault_of(error)),
        }
    }
}

impl InboundFrame {
    /// A reader that is told its connection was used after it had been
    /// closed has read its last frame; after any other fault it reads on.
    pub open spec fn of_fault(fault: SocketFault) -> InboundFrame {
        match fault {
            SocketFault::AlreadyClosed => InboundFrame::Closed,
            _ => InboundFrame::Failed,
        }
    }

    /// What a reader got when its socket reported `fault`.
    pub fn from_fault(fault: SocketFault) -> (r: Self)
        ensures
            r == Self::of_fault(fault),
    {
        match fault {
            SocketFault::AlreadyClosed => InboundFrame::Closed,
            _ => InboundFrame::Failed,
        }
    }

    /// What a reader got, from the error that the socket returned in place
    /// of a frame: what it gets for the fault that this error is.
    pub fn from_error(error: &tokio_tungstenite::tungstenite::Error) -> (r: Self)
        ensures
            r == Self::of_fault(fault_kind(*error)),
    {
        Self::from_fault(fault_of(error))
    }

    /// What a reader got, from what decoding a frame gave.
    pub fn from_decoded(decoded: Option<ClientMessages>) -> (r: Self)
        ensures
            r == (match decoded {
                Some(message) => InboundFrame::Message(message),
                None => InboundFrame::Malformed,
            }),
    {
        match decoded {
            Some(message) => InboundFrame::Message(message),
            None => InboundFrame::Malformed,
        }
    }
}

} // verus!
