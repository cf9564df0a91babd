//! A player: where it stands, what it intends, and the walk it is on.

use vstd::prelude::*;
use crate::game_map::{lemma_blocked_cast_stops, GameMap, WalkResult};
use crate::messages::{ClientMessages, PlayerBroadcastAction};
use crate::socket::InboundFrame;
use crate::vector2::{line, line_len, lemma_line_ends, Vector2, Vector2Range};

verus! {

/// The identity of a connection, unique in the process.
pub type PlayerConnectionId = usize;

/// What a player intends to do.
#[derive(Copy, Clone, Debug, PartialEq, Eq, Structural)]
pub enum PlayerActions {
    MoveTo(Vector2),
    Idle,
    Disconnect,
}

/// An intent together with the connection it came from.
#[derive(Copy, Clone, Debug, PartialEq, Eq, Structural)]
pub struct PlayerAction {
    pub id: PlayerConnectionId,
    pub action: PlayerActions,
}

impl PlayerAction {
    /// The intent of connection `id` to leave.
    pub fn disconnect(id: PlayerConnectionId) -> (r: Self)
        ensures
            r == (PlayerAction { id, action: PlayerActions::Disconnect }),
    {
        Self { id, action: PlayerActions::Disconnect }
    }

    /// The intent of connection `id` to move to `position`.
    pub fn move_to(id: PlayerConnectionId, position: Vector2) -> (r: Self)
        ensures
            r == (PlayerAction { id, action: PlayerActions::MoveTo(position) }),
    {
        Self { id, action: PlayerActions::MoveTo(position) }
    }

    /// The intent that a reader forwards for what it got from its socket, if
    /// any.
    pub open spec fn forwarded(id: PlayerConnectionId, frame: InboundFrame) -> Option<
        PlayerAction,
    > {
        match frame {
            InboundFrame::Message(ClientMessages::MoveTo(position)) => Some(
                PlayerAction { id, action: PlayerActions::MoveTo(position) },
            ),
            InboundFrame::Closed => Some(PlayerAction { id, action: PlayerActions::Disconnect }),
            InboundFrame::Malformed => None,
            InboundFrame::Failed => None,
        }
    }

    /// Decides what the reader of connection `id` forwards to the
    /// coordinator: a move for a decoded message, a disconnect once the
    /// socket is closed, and nothing for a malformed frame or another error.
    pub fn from_frame(id: PlayerConnectionId, frame: InboundFrame) -> (r: Option<Self>)
        ensures
            r == Self::forwarded(id, frame),
    {
        match frame {
            InboundFrame::Message(ClientMessages::MoveTo(position)) => Some(
                Self::move_to(id, position),
            ),
            InboundFrame::Closed => Some(Self::disconnect(id)),
            InboundFrame::Malformed => None,
            InboundFrame::Failed => None,
        }
    }
}

/// Where a walk from `from` towards `target` can get to on `map`: the target
/// itself, or the last cell in front of what blocks the way.
pub open spec fn reachable(map: &GameMap, from: Vector2, target: Vector2) -> Vector2 {
    match map.cast_spec(from, target) {
        WalkResult::Finished(position) => position,
        WalkResult::Unfinished { hit, safe } => safe,
    }
}

/// A player as the contracts see it.
pub struct PlayerView {
    pub position: Vector2,
    pub action: PlayerActions,
    /// The cells the player has yet to step on, next one first.
    pub path: Seq<Vector2>,
}

impl PlayerView {
    /// The player after it has been told to move to `target` on `map`: it
    /// plans the walk from where it stands to where it can get to, and the
    /// cell it stands on is not walked again. A player that is disconnecting
    /// stays as it is.
    pub open spec fn moving_to(self, target: Vector2, map: &GameMap) -> PlayerView {
        if self.action is Disconnect {
            self
        } else {
            PlayerView {
                position: self.position,
                action: PlayerActions::MoveTo(target),
                path: line(self.position, reachable(map, self.position, target)).skip(1),
            }
        }
    }

    /// The player after it has been told to idle or to disconnect: it drops
    /// the walk it was on. A player that is disconnecting stays as it is.
    pub open spec fn resting(self, action: PlayerActions) -> PlayerView {
        if self.action is Disconnect {
            self
        } else {
            PlayerView { position: self.position, action, path: Seq::empty() }
        }
    }

    /// The player after it has taken up `action` on `map`.
    pub open spec fn intending(self, action: PlayerActions, map: &GameMap) -> PlayerView {
        match action {
            PlayerActions::MoveTo(target) => self.moving_to(target, map),
            _ => self.resting(action),
        }
    }

    /// What one tick tells the clients about this player; `None` where the
    /// player is to be removed.
    pub open spec fn emitted(self) -> Option<PlayerBroadcastAction> {
        match self.action {
            PlayerActions::MoveTo(_) => if self.path.len() > 0 {
                Some(PlayerBroadcastAction::Step(self.path[0]))
            } else {
                Some(PlayerBroadcastAction::NoAction)
            },
            PlayerActions::Idle => Some(PlayerBroadcastAction::NoAction),
            PlayerActions::Disconnect => None,
        }
    }

    /// The player after one tick.
    pub open spec fn advanced(self) -> PlayerView {
        match self.action {
            PlayerActions::MoveTo(_) => if self.path.len() > 0 {
                PlayerView { position: self.path[0], action: self.action, path: self.path.skip(1) }
            } else {
                PlayerView {
                    position: self.position,
                    action: PlayerActions::Idle,
                    path: Seq::empty(),
                }
            },
            _ => self,
        }
    }

    /// The player after `n` ticks.
    pub open spec fn advanced_by(self, n: nat) -> PlayerView
        decreases n,
    {
        if n == 0 {
            self
        } else {
            self.advanced().advanced_by((n - 1) as nat)
        }
    }

    /// The cell the player comes to rest on if it is left alone.
    pub open spec fn destination(self) -> Vector2 {
        if self.action is MoveTo && self.path.len() > 0 {
            self.path.last()
        } else {
            self.position
        }
    }
}

/// A player: the cell it stands on, its intent, and the walk it is on while
/// it moves.
#[derive(Clone, Copy, Debug)]
pub struct Player {
    pub position: Vector2,
    pub current_action: PlayerActions,
    pub current_path: Option<Vector2Range>,
}

impl View for Player {
    type V = PlayerView;

    open spec fn view(&self) -> PlayerView {
        PlayerView {
            position: self.position,
            action: self.current_action,
            path: match self.current_path {
                Some(path) => path@,
                None => Seq::empty(),
            },
        }
    }
}

impl Player {
    /// An idle player on `position`.
    pub fn new(position: Vector2) -> (r: Self)
        ensures
            r@ == (PlayerView { position, action: PlayerActions::Idle, path: Seq::empty() }),
            r.current_path is None,
    {
        Self { position, current_action: PlayerActions::Idle, current_path: None }
    }

    /// Takes up a new intent. A move is planned from where the player stands
    /// now, whatever walk it was on; it needs the map. Disconnecting is
    /// final: a player that is disconnecting takes up nothing else.
    pub fn update_action(&mut self, action: PlayerActions, map: Option<&GameMap>)
        requires
            action is MoveTo ==> map is Some,
        ensures
            final(self)@ == (match action {
                PlayerActions::MoveTo(target) => old(self)@.moving_to(target, map->0),
                _ => old(self)@.resting(action),
            }),
            !(old(self).current_action is Disconnect) ==> (action matches PlayerActions::MoveTo(
                target,
            ) ==> final(self)@.destination() == reachable(map->0, old(self).position, target)),
            !(old(self).current_action is Disconnect) && !(action is MoveTo)
                ==> final(self).current_path is None,
    {
        if let PlayerActions::Disconnect = self.current_action {
            return ;
        }
        self.current_action = action;
        match action {
            PlayerActions::MoveTo(target_position) => {
                match map {
                    Some(map) => {
                        let target = match map.cast(&self.position, &target_position) {
                            WalkResult::Finished(position) => position,
                            WalkResult::Unfinished { hit, safe } => safe,
                        };
                        let mut path = Vector2Range::new(&self.position, &target);
                        proof {
                            lemma_line_ends(self.position, target);
                        }
                        let _ = path.next();
                        self.current_path = Some(path);
                    },
                    None => {},
                }
            },
            _ => {
                self.current_path = None;
            },
        }
    }

    /// One tick: steps onto the next cell of the walk, or settles into idling
    /// once the walk is over. Returns what to tell the clients, and `None`
    /// where the player is to be removed.
    pub fn next(&mut self) -> (r: Option<PlayerBroadcastAction>)
        ensures
            r == old(self)@.emitted(),
            final(self)@ == old(self)@.advanced(),
    {
        match self.current_action {
            PlayerActions::MoveTo(_) => match self.current_path {
                None => {
                    self.update_action(PlayerActions::Idle, None);
                    Some(PlayerBroadcastAction::NoAction)
                },
                Some(mut path) => match path.next() {
                    Some(step) => {
                        self.position = step;
                        self.current_path = Some(path);
                        Some(PlayerBroadcastAction::Step(step))
                    },
                    None => {
                        self.update_action(PlayerActions::Idle, None);
                        Some(PlayerBroadcastAction::NoAction)
                    },
                },
            },
            PlayerActions::Idle => Some(PlayerBroadcastAction::NoAction),
            PlayerActions::Disconnect => None,
        }
    }
}

/// A player that is disconnecting stays so whatever it is told, and every
/// tick finds it to be removed.
pub proof fn lemma_disconnect_is_final(
    player: PlayerView,
    action: PlayerActions,
    map: &GameMap,
    n: nat,
)
    requires
        player.action is Disconnect,
    ensures
        player.intending(action, map) == player,
        player.advanced_by(n) == player,
        player.emitted() is None,
    decreases n,
{
    if n > 0 {
        lemma_disconnect_is_final(player.advanced(), action, map, (n - 1) as nat);
    }
}

/// An idle player stays where it is and has nothing to tell, however many
/// ticks pass.
pub proof fn lemma_idle_player_rests(player: PlayerView, n: nat)
    requires
        player.action is Idle,
    ensures
        player.advanced_by(n) == player,
        player.advanced_by(n).emitted() == Some(PlayerBroadcastAction::NoAction),
    decreases n,
{
    if n > 0 {
        lemma_idle_player_rests(player.advanced(), (n - 1) as nat);
    }
}

/// A move towards a cell behind a wall, from an open cell, ends on the last
/// open cell in front of the wall and not on the cell that was asked for.
pub proof fn lemma_blocked_move_stops_short(map: &GameMap, player: PlayerView, target: Vector2)
    requires
        !(player.action is Disconnect),
        !map.blocked(player.position),
        exists|k: int|
            0 <= k < line_len(player.position, target) && map.blocked(
                #[trigger] line(player.position, target)[k],
            ),
    ensures
        map.cast_spec(player.position, target) matches WalkResult::Unfinished { hit, safe }
            && player.intending(PlayerActions::MoveTo(target), map).destination() == safe
            && safe != target && !map.blocked(safe),
{
    lemma_blocked_cast_stops(map, player.position, target);
    lemma_line_ends(player.position, reachable(map, player.position, target));
}

/// The error of attaching a reader to a connection that has one.
#[derive(Debug, Clone, Copy, PartialEq, Eq)]
pub struct AlreadyReadingMessages;

/// The coordinator's record of one connection: its identity, its player, and
/// whether a reader is attached to its socket.
#[derive(Debug, Clone, Copy)]
pub struct PlayerConnection {
    pub id: PlayerConnectionId,
    pub player: Player,
    /// A reader is attached to the socket.
    pub reading: bool,
}

/// A connection as the contracts see it.
pub struct ConnectionView {
    pub id: PlayerConnectionId,
    pub player: PlayerView,
    pub reading: bool,
}

impl View for PlayerConnection {
    type V = ConnectionView;

    open spec fn view(&self) -> ConnectionView {
        ConnectionView { id: self.id, player: self.player@, reading: self.reading }
    }
}

impl PlayerConnection {
    /// The record of a connection that was just accepted: an idle player on
    /// the origin, and no reader yet.
    pub fn new(id: PlayerConnectionId) -> (r: Self)
        ensures
            r@ == (ConnectionView {
                id,
                player: PlayerView {
                    position: Vector2(0, 0),
                    action: PlayerActions::Idle,
                    path: Seq::empty(),
                },
                reading: false,
            }),
    {
        Self { id, player: Player::new(Vector2(0, 0)), reading: false }
    }

    /// Marks the connection as read by a reader. A connection takes one
    /// reader: a second attempt is refused and changes nothing.
    pub fn read_messages(&mut self) -> (r: Result<(), AlreadyReadingMessages>)
        ensures
            old(self)@.reading ==> r is Err && *final(self) == *old(self),
            !old(self)@.reading ==> r is Ok && final(self)@ == (ConnectionView {
                reading: true,
                ..old(self)@
            }),
    {
        if self.reading {
            Err(AlreadyReadingMessages)
        } else {
            self.reading = true;
            Ok(())
        }
    }

    /// Whether a reader is attached.
    pub fn is_reading(&self) -> (r: bool)
        ensures
            r == self@.reading,
    {
        self.reading
    }
}

} // verus!
