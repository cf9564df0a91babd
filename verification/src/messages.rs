//! The messages that travel between the server and its clients.

use vstd::prelude::*;
use crate::player::PlayerConnectionId;
use crate::vector2::Vector2;

verus! {

/// What one tick did to one player, as it is told to every client.
#[derive(Clone, Copy, Debug, PartialEq, Eq, Structural)]
pub enum PlayerBroadcastAction {
    /// The player moved onto this cell.
    Step(Vector2),
    /// Nothing to tell.
    NoAction,
}

/// A message from the server to a client.
#[derive(Debug, PartialEq, Eq)]
pub enum ServerMessages {
    BroadCastAction(PlayerConnectionId, PlayerBroadcastAction),
    MapDisplay(String),
    PlayerConnected(PlayerConnectionId, Vector2),
    PlayerDisconnected(PlayerConnectionId),
    BadMessageFormatting,
    ConnectionError(String),
}

impl Clone for ServerMessages {
    /// A copy that equals the message.
    fn clone(&self) -> (r: Self)
        ensures
            r == *self,
    {
        match self {
            ServerMessages::BroadCastAction(id, action) => ServerMessages::BroadCastAction(
                *id,
                *action,
            ),
            ServerMessages::MapDisplay(text) => ServerMessages::MapDisplay(text.clone()),
            ServerMessages::PlayerConnected(id, position) => ServerMessages::PlayerConnected(
                *id,
                *position,
            ),
            ServerMessages::PlayerDisconnected(id) => ServerMessages::PlayerDisconnected(*id),
            ServerMessages::BadMessageFormatting => ServerMessages::BadMessageFormatting,
            ServerMessages::ConnectionError(text) => ServerMessages::ConnectionError(text.clone()),
        }
    }
}

impl ServerMessages {
    /// The notice for a client that could not be admitted.
    pub fn connetion_error() -> (r: Self)
        ensures
            r matches ServerMessages::ConnectionError(text) && text@
                == "The server is up but couldn't connect right now."@,
    {
        ServerMessages::ConnectionError(
            String::from_str("The server is up but couldn't connect right now."),
        )
    }
}

/// A message from a client to the server.
#[derive(Clone, Copy, Debug, PartialEq, Eq, Structural)]
pub enum ClientMessages {
    MoveTo(Vector2),
}

} // verus!
