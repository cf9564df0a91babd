//! The coordinator of one map: the registry of its connections, what is
//! queued to be told to them, and the tick that moves every player on.
//!
//! The coordinator owns no socket. Its caller drains the admission and intent
//! queues and hands their contents to `step`, makes the sends that
//! `broadcast_messages` hands out and reports what came of each, and ends the
//! tick with the sends that `disconnect_dead_connections` hands out.

use std::collections::VecDeque;
use vstd::prelude::*;
use crate::game_map::GameMap;
use crate::messages::{PlayerBroadcastAction, ServerMessages};
use crate::player::{
    AlreadyReadingMessages, ConnectionView, PlayerAction, PlayerConnection, PlayerConnectionId,
    PlayerView,
};
use crate::socket::SendOutcome;
use crate::vector2::Vector2;

verus! {

/// The identity of a map.
pub type GameMapId = usize;

/// How many connections may wait for admission between two ticks.
pub const CONNECTION_QUEUE_SIZE: usize = 32;

/// How many intents may wait to be applied between two ticks.
pub const ACTION_QUEUE_SIZE: usize = 32;

/// One message to be sent to one connection.
#[derive(Debug, PartialEq, Eq)]
pub struct Delivery {
    pub recipient: PlayerConnectionId,
    pub message: ServerMessages,
}

/// What the mutating part of a tick leaves to its caller.
#[derive(Debug, PartialEq, Eq)]
pub struct Tick {
    /// The ids of the connections that were not admitted.
    pub refused: Vec<PlayerConnectionId>,
    /// The sends to make, in this order.
    pub sends: Vec<Delivery>,
}

/// `message` for each of `ids`, in their order.
pub open spec fn to_each(message: ServerMessages, ids: Seq<PlayerConnectionId>) -> Seq<Delivery> {
    Seq::new(ids.len(), |i: int| Delivery { recipient: ids[i], message })
}

/// Each of `messages` for each of `ids`: the messages in their order, and
/// each message to the ids in theirs.
pub open spec fn deliveries(
    messages: Seq<ServerMessages>,
    ids: Seq<PlayerConnectionId>,
) -> Seq<Delivery>
    decreases messages.len(),
{
    if messages.len() == 0 {
        Seq::empty()
    } else {
        deliveries(messages.drop_last(), ids) + to_each(messages.last(), ids)
    }
}

/// Whether a connection with this id is among `players`.
pub open spec fn has_id(players: Seq<ConnectionView>, id: PlayerConnectionId) -> bool {
    exists|i: int| 0 <= i < players.len() && (#[trigger] players[i]).id == id
}

/// Where the connection with this id stands among `players`.
pub open spec fn slot_of(players: Seq<ConnectionView>, id: PlayerConnectionId) -> int {
    choose|i: int| 0 <= i < players.len() && (#[trigger] players[i]).id == id
}

/// No two of `players` share an id.
pub open spec fn distinct_ids(players: Seq<ConnectionView>) -> bool {
    forall|i: int, j: int|
        0 <= i < j < players.len() ==> (#[trigger] players[i]).id != (#[trigger] players[j]).id
}

/// The ids of `players`, in their order.
pub open spec fn ids_of(players: Seq<ConnectionView>) -> Seq<PlayerConnectionId> {
    Seq::new(players.len(), |i: int| players[i].id)
}

/// The views of a sequence of connections.
pub open spec fn views_of(players: Seq<PlayerConnection>) -> Seq<ConnectionView> {
    Seq::new(players.len(), |i: int| players[i]@)
}

/// The steps that one tick makes known, in the order of `players`: one
/// message for each player that steps onto a cell.
pub open spec fn broadcasts(players: Seq<ConnectionView>) -> Seq<ServerMessages>
    decreases players.len(),
{
    if players.len() == 0 {
        Seq::empty()
    } else {
        let rest = broadcasts(players.drop_last());
        let connection = players.last();
        match connection.player.emitted() {
            Some(PlayerBroadcastAction::Step(position)) => rest.push(
                ServerMessages::BroadCastAction(
                    connection.id,
                    PlayerBroadcastAction::Step(position),
                ),
            ),
            _ => rest,
        }
    }
}

/// The ids of the players that one tick finds disconnecting, in the order of
/// `players`.
pub open spec fn leavers(players: Seq<ConnectionView>) -> Seq<PlayerConnectionId>
    decreases players.len(),
{
    if players.len() == 0 {
        Seq::empty()
    } else {
        let rest = leavers(players.drop_last());
        if players.last().player.emitted() is None {
            rest.push(players.last().id)
        } else {
            rest
        }
    }
}

/// Every player of `players` after one tick.
pub open spec fn all_advanced(players: Seq<ConnectionView>) -> Seq<ConnectionView> {
    Seq::new(
        players.len(),
        |i: int| ConnectionView { player: players[i].player.advanced(), ..players[i] },
    )
}

/// `players` without the connection that has this id.
pub open spec fn without(players: Seq<ConnectionView>, id: PlayerConnectionId) -> Seq<
    ConnectionView,
> {
    if has_id(players, id) {
        players.remove(slot_of(players, id))
    } else {
        players
    }
}

/// `players` without the connections whose ids are in `dead`.
pub open spec fn purged(players: Seq<ConnectionView>, dead: Seq<PlayerConnectionId>) -> Seq<
    ConnectionView,
>
    decreases dead.len(),
{
    if dead.len() == 0 {
        players
    } else {
        without(purged(players, dead.drop_last()), dead.last())
    }
}

/// One notice of disconnection for each id in `dead`, in their order.
pub open spec fn notices(dead: Seq<PlayerConnectionId>) -> Seq<ServerMessages> {
    Seq::new(dead.len(), |i: int| ServerMessages::PlayerDisconnected(dead[i]))
}

/// The ids of the connections that already have a reader, in their order.
pub open spec fn refused_ids(connections: Seq<ConnectionView>) -> Seq<PlayerConnectionId>
    decreases connections.len(),
{
    if connections.len() == 0 {
        Seq::empty()
    } else {
        let rest = refused_ids(connections.drop_last());
        if connections.last().reading {
            rest.push(connections.last().id)
        } else {
            rest
        }
    }
}

/// Where a new player is placed on `map`: on its spawn cell, or on the
/// origin where it has none.
pub open spec fn spawn_or_origin(map: &GameMap) -> Vector2 {
    match map.spawn_point() {
        Some(position) => position,
        None => Vector2(0, 0),
    }
}

/// The coordinator as the contracts see it.
pub struct ServerView {
    /// The registry, in the order in which the connections were admitted.
    pub players: Seq<ConnectionView>,
    /// The messages waiting to be sent to every connection, oldest first.
    pub messages: Seq<ServerMessages>,
    /// The ids waiting to be removed from the registry, oldest first.
    pub dead: Seq<PlayerConnectionId>,
}

impl ServerView {
    /// After one connection has been admitted: its player stands on `spawn`,
    /// its reader is attached, every connection is to be told of it, and it
    /// is in the registry, in the place of an older connection with its id
    /// if there was one.
    pub open spec fn connected(self, connection: ConnectionView, spawn: Vector2) -> ServerView {
        let entry = ConnectionView {
            id: connection.id,
            player: PlayerView { position: spawn, ..connection.player },
            reading: true,
        };
        ServerView {
            players: if has_id(self.players, connection.id) {
                self.players.update(slot_of(self.players, connection.id), entry)
            } else {
                self.players.push(entry)
            },
            messages: self.messages.push(ServerMessages::PlayerConnected(connection.id, spawn)),
            dead: self.dead,
        }
    }

    /// After one connection has asked for admission. One that has a reader
    /// already is refused.
    pub open spec fn admitted(self, connection: ConnectionView, spawn: Vector2) -> ServerView {
        if connection.reading {
            self
        } else {
            self.connected(connection, spawn)
        }
    }

    /// After each of `connections` has asked for admission, in their order.
    pub open spec fn admitted_all(
        self,
        connections: Seq<ConnectionView>,
        spawn: Vector2,
    ) -> ServerView
        decreases connections.len(),
    {
        if connections.len() == 0 {
            self
        } else {
            self.admitted_all(connections.drop_last(), spawn).admitted(connections.last(), spawn)
        }
    }

    /// After one intent has been applied: the player of the connection it
    /// names takes it up. An intent for an id that is not registered is
    /// dropped.
    pub open spec fn acted(self, action: PlayerAction, map: &GameMap) -> ServerView {
        if has_id(self.players, action.id) {
            let slot = slot_of(self.players, action.id);
            let entry = ConnectionView {
                player: self.players[slot].player.intending(action.action, map),
                ..self.players[slot]
            };
            ServerView { players: self.players.update(slot, entry), ..self }
        } else {
            self
        }
    }

    /// After each of `actions` has been applied, in their order.
    pub open spec fn acted_all(self, actions: Seq<PlayerAction>, map: &GameMap) -> ServerView
        decreases actions.len(),
    {
        if actions.len() == 0 {
            self
        } else {
            self.acted_all(actions.drop_last(), map).acted(actions.last(), map)
        }
    }

    /// After every player has moved on by one tick: the steps taken are
    /// queued to be sent, and the players that are disconnecting are queued to
    /// be removed.
    pub open spec fn advanced(self) -> ServerView {
        ServerView {
            players: all_advanced(self.players),
            messages: self.messages + broadcasts(self.players),
            dead: self.dead + leavers(self.players),
        }
    }

    /// After the mutating part of a tick, in which `connections` ask for
    /// admission and `actions` are applied: all admissions first, then all
    /// intents, then the move of every player.
    pub open spec fn moved(
        self,
        connections: Seq<ConnectionView>,
        actions: Seq<PlayerAction>,
        map: &GameMap,
    ) -> ServerView {
        self.admitted_all(connections, spawn_or_origin(map)).acted_all(actions, map).advanced()
    }

    /// The sends that are due: each queued message, oldest first, to every
    /// registered connection, in the order of the registry.
    pub open spec fn sends(self) -> Seq<Delivery> {
        deliveries(self.messages, ids_of(self.players))
    }

    /// After the outcome of one send has been reported: a closed connection
    /// is queued to be removed, and nothing else changes.
    pub open spec fn reported(self, id: PlayerConnectionId, outcome: SendOutcome) -> ServerView {
        if outcome is Closed {
            ServerView { dead: self.dead.push(id), ..self }
        } else {
            self
        }
    }

    /// After the connections queued to be removed have been removed.
    pub open spec fn reconciled(self) -> ServerView {
        ServerView {
            players: purged(self.players, self.dead),
            messages: self.messages,
            dead: Seq::empty(),
        }
    }
}

/// In a registry without repeated ids, the connection with id `id` stands at
/// `slot` and nowhere else.
proof fn lemma_slot(players: Seq<ConnectionView>, id: PlayerConnectionId, slot: int)
    requires
        distinct_ids(players),
        0 <= slot < players.len(),
        players[slot].id == id,
    ensures
        has_id(players, id),
        slot_of(players, id) == slot,
{
}

/// Taking a connection out leaves a registry without repeated ids.
pub proof fn lemma_remove_distinct(players: Seq<ConnectionView>, slot: int)
    requires
        distinct_ids(players),
        0 <= slot < players.len(),
    ensures
        distinct_ids(players.remove(slot)),
{
    let rest = players.remove(slot);
    assert forall|i: int, j: int| 0 <= i < j < rest.len() implies (#[trigger] rest[i]).id != (
    #[trigger] rest[j]).id by {
        let a = if i < slot {
            i
        } else {
            i + 1
        };
        let b = if j < slot {
            j
        } else {
            j + 1
        };
        assert(rest[i] == players[a]);
        assert(rest[j] == players[b]);
    }
}

/// The coordinator of one map.
pub struct GameMapServer {
    id: GameMapId,
    map: GameMap,
    players: Vec<PlayerConnection>,
    messages: VecDeque<ServerMessages>,
    dead_connections: VecDeque<PlayerConnectionId>,
}

impl View for GameMapServer {
    type V = ServerView;

    closed spec fn view(&self) -> ServerView {
        ServerView {
            players: views_of(self.players@),
            messages: self.messages@,
            dead: self.dead_connections@,
        }
    }
}

impl GameMapServer {
    /// The registry holds no id twice. Every coordinator that `new` made
    /// and that only the functions below have touched is well formed.
    pub open spec fn wf(&self) -> bool {
        distinct_ids(self@.players)
    }

    /// The id of the map.
    pub closed spec fn map_id(&self) -> GameMapId {
        self.id
    }

    /// The map.
    pub closed spec fn game_map(&self) -> GameMap {
        self.map
    }

    /// A coordinator with no connection and nothing queued.
    pub fn new(id: GameMapId, map: GameMap) -> (r: Self)
        ensures
            r.map_id() == id,
            r.game_map() == map,
            r@ == (ServerView {
                players: Seq::empty(),
                messages: Seq::empty(),
                dead: Seq::empty(),
            }),
            r.wf(),
    {
        let r = Self {
            id,
            map,
            players: Vec::new(),
            messages: VecDeque::new(),
            dead_connections: VecDeque::new(),
        };
        assert(views_of(r.players@) =~= Seq::empty());
        r
    }

    /// The id of the map.
    pub fn id(&self) -> (r: GameMapId)
        ensures
            r == self.map_id(),
    {
        self.id
    }

    /// The map.
    pub fn map(&self) -> (r: &GameMap)
        ensures
            *r == self.game_map(),
    {
        &self.map
    }

    /// Where a new player is placed.
    pub fn spawn_position(&self) -> (r: Vector2)
        ensures
            r == spawn_or_origin(&self.game_map()),
    {
        match self.map.spawn_position() {
            Some(position) => position,
            None => Vector2(0, 0),
        }
    }

    /// Where the connection with this id stands in the registry.
    fn find(&self, id: PlayerConnectionId) -> (r: Option<usize>)
        requires
            self.wf(),
        ensures
            match r {
                Some(slot) => slot < self@.players.len() && self@.players[slot as int].id == id
                    && has_id(self@.players, id) && slot_of(self@.players, id) == slot,
                None => !has_id(self@.players, id),
            },
    {
        let mut slot: usize = 0;
        while slot < self.players.len()
            invariant
                0 <= slot <= self.players.len(),
                distinct_ids(views_of(self.players@)),
                forall|i: int| 0 <= i < slot ==> (#[trigger] views_of(self.players@)[i]).id != id,
            decreases self.players.len() - slot,
        {
            if self.players[slot].id == id {
                proof {
                    lemma_slot(views_of(self.players@), id, slot as int);
                }
                return Some(slot);
            }
            slot += 1;
        }
        None
    }

    /// The player of the connection with this id, if it is registered.
    pub fn player(&self, id: PlayerConnectionId) -> (r: Option<PlayerConnection>)
        requires
            self.wf(),
        ensures
            match r {
                Some(connection) => has_id(self@.players, id) && connection@
                    == self@.players[slot_of(self@.players, id)],
                None => !has_id(self@.players, id),
            },
    {
        match self.find(id) {
            Some(slot) => Some(self.players[slot]),
            None => None,
        }
    }

    /// Admits one connection: places its player on the spawn cell, attaches
    /// its reader, queues the notice of its arrival and registers it. A
    /// connection that has a reader already is refused, and nothing changes.
    pub fn connect(&mut self, connection: PlayerConnection) -> (r: Result<
        (),
        AlreadyReadingMessages,
    >)
        requires
            old(self).wf(),
        ensures
            final(self).map_id() == old(self).map_id(),
            final(self).game_map() == old(self).game_map(),
            r is Err <==> connection@.reading,
            final(self)@ == old(self)@.admitted(
                connection@,
                spawn_or_origin(&old(self).game_map()),
            ),
            final(self).wf(),
    {
        let mut connection = connection;
        let spawn = self.spawn_position();
        match connection.read_messages() {
            Err(error) => Err(error),
            Ok(()) => {
                connection.player.position = spawn;
                let ghost before = views_of(self.players@);
                self.messages.push_back(ServerMessages::PlayerConnected(connection.id, spawn));
                match self.find(connection.id) {
                    Some(slot) => {
                        self.players.set(slot, connection);
                        assert(views_of(self.players@) =~= before.update(
                            slot as int,
                            connection@,
                        ));
                    },
                    None => {
                        self.players.push(connection);
                        assert(views_of(self.players@) =~= before.push(connection@));
                    },
                }
                Ok(())
            },
        }
    }

    /// Applies one intent to the player of the connection it names. An
    /// intent for an id that is not registered is dropped.
    pub fn apply_action(&mut self, action: PlayerAction)
        requires
            old(self).wf(),
        ensures
            final(self).map_id() == old(self).map_id(),
            final(self).game_map() == old(self).game_map(),
            final(self)@ == old(self)@.acted(action, &old(self).game_map()),
            final(self).wf(),
    {
        match self.find(action.id) {
            Some(slot) => {
                let ghost before = views_of(self.players@);
                let mut connection = self.players[slot];
                connection.player.update_action(action.action, Some(&self.map));
                self.players.set(slot, connection);
                assert(views_of(self.players@) =~= before.update(slot as int, connection@));
            },
            None => {},
        }
    }

    /// Moves every player on by one tick, in the order of the registry. Each
    /// step taken is queued to be sent; each player that is disconnecting is
    /// queued to be removed.
    pub fn execute_player_actions(&mut self)
        requires
            old(self).wf(),
        ensures
            final(self).map_id() == old(self).map_id(),
            final(self).game_map() == old(self).game_map(),
            final(self)@ == old(self)@.advanced(),
            final(self).wf(),
    {
        let ghost before = views_of(self.players@);
        let ghost queued = self.messages@;
        let ghost marked = self.dead_connections@;
        let count = self.players.len();
        let mut slot: usize = 0;
        while slot < count
            invariant
                0 <= slot <= count,
                count == before.len(),
                self.players@.len() == count,
                self.id == old(self).id,
                self.map == old(self).map,
                distinct_ids(before),
                forall|i: int|
                    0 <= i < slot ==> #[trigger] views_of(self.players@)[i] == all_advanced(
                        before,
                    )[i],
                forall|i: int|
                    slot <= i < count ==> #[trigger] views_of(self.players@)[i] == before[i],
                self.messages@ == queued + broadcasts(before.take(slot as int)),
                self.dead_connections@ == marked + leavers(before.take(slot as int)),
            decreases count - slot,
        {
            let ghost registry = views_of(self.players@);
            let mut connection = self.players[slot];
            assert(connection@ == registry[slot as int]);
            let told = connection.player.next();
            proof {
                assert(before.take(slot + 1).drop_last() =~= before.take(slot as int));
                assert(before.take(slot + 1).last() == before[slot as int]);
            }
            match told {
                Some(PlayerBroadcastAction::NoAction) => {},
                Some(action) => {
                    self.messages.push_back(ServerMessages::BroadCastAction(connection.id, action));
                    assert(self.messages@ =~= queued + broadcasts(before.take(slot + 1)));
                },
                None => {
                    self.dead_connections.push_back(connection.id);
                    assert(self.dead_connections@ =~= marked + leavers(before.take(slot + 1)));
                },
            }
            self.players.set(slot, connection);
            assert(views_of(self.players@) =~= registry.update(slot as int, connection@));
            slot += 1;
        }
        proof {
            assert(before.take(count as int) =~= before);
            assert(views_of(self.players@) =~= all_advanced(before));
            assert forall|i: int, j: int| 0 <= i < j < count implies (#[trigger] all_advanced(
                before,
            )[i]).id != (#[trigger] all_advanced(before)[j]).id by {
                assert(all_advanced(before)[i].id == before[i].id);
                assert(all_advanced(before)[j].id == before[j].id);
            }
        }
    }

    /// The mutating part of a tick, and the sends that follow from it. In
    /// this order: admits each of `connections`, applies each of `actions`,
    /// moves every player on by one tick, and empties the queue of messages
    /// into the sends that are due. Returns those sends, and the ids of the
    /// connections that were refused because they had a reader already.
    ///
    /// What comes of each send is to be reported with `record_send`, and
    /// `disconnect_dead_connections` ends the tick.
    pub fn step(&mut self, connections: Vec<PlayerConnection>, actions: Vec<PlayerAction>) -> (r:
        Tick)
        requires
            old(self).wf(),
        ensures
            final(self).wf(),
            final(self).map_id() == old(self).map_id(),
            final(self).game_map() == old(self).game_map(),
            final(self)@ == (ServerView {
                messages: Seq::empty(),
                ..old(self)@.moved(views_of(connections@), actions@, &old(self).game_map())
            }),
            r.sends@ == old(self)@.moved(
                views_of(connections@),
                actions@,
                &old(self).game_map(),
            ).sends(),
            r.refused@ == refused_ids(views_of(connections@)),
    {
        let ghost spawn = spawn_or_origin(&self.game_map());
        let ghost arriving = views_of(connections@);
        let mut refused: Vec<PlayerConnectionId> = Vec::new();
        let mut i: usize = 0;
        while i < connections.len()
            invariant
                0 <= i <= connections.len(),
                arriving == views_of(connections@),
                self.wf(),
                self.map_id() == old(self).map_id(),
                self.game_map() == old(self).game_map(),
                spawn == spawn_or_origin(&old(self).game_map()),
                self@ == old(self)@.admitted_all(arriving.take(i as int), spawn),
                refused@ == refused_ids(arriving.take(i as int)),
            decreases connections.len() - i,
        {
            let connection = connections[i];
            proof {
                assert(arriving.take(i + 1).drop_last() =~= arriving.take(i as int));
                assert(arriving.take(i + 1).last() == connection@);
            }
            match self.connect(connection) {
                Ok(()) => {},
                Err(_) => {
                    refused.push(connection.id);
                },
            }
            i += 1;
        }
        assert(arriving.take(connections.len() as int) =~= arriving);
        let ghost admitted = self@;
        let mut j: usize = 0;
        while j < actions.len()
            invariant
                0 <= j <= actions.len(),
                self.wf(),
                self.map_id() == old(self).map_id(),
                self.game_map() == old(self).game_map(),
                self@ == admitted.acted_all(actions@.take(j as int), &old(self).game_map()),
            decreases actions.len() - j,
        {
            proof {
                assert(actions@.take(j + 1).drop_last() =~= actions@.take(j as int));
                assert(actions@.take(j + 1).last() == actions@[j as int]);
            }
            self.apply_action(actions[j]);
            j += 1;
        }
        assert(actions@.take(actions.len() as int) =~= actions@);
        self.execute_player_actions();
        let sends = self.broadcast_messages();
        Tick { refused, sends }
    }

    /// Each of `messages` for each registered connection.
    fn fan_out(&self, messages: &Vec<ServerMessages>) -> (r: Vec<Delivery>)
        ensures
            r@ == deliveries(messages@, ids_of(self@.players)),
    {
        let ghost ids = ids_of(self@.players);
        let mut out: Vec<Delivery> = Vec::new();
        let mut k: usize = 0;
        while k < messages.len()
            invariant
                0 <= k <= messages.len(),
                ids == ids_of(self@.players),
                out@ == deliveries(messages@.take(k as int), ids),
            decreases messages.len() - k,
        {
            let ghost sent = out@;
            let mut slot: usize = 0;
            while slot < self.players.len()
                invariant
                    0 <= k < messages.len(),
                    0 <= slot <= self.players.len(),
                    ids == ids_of(self@.players),
                    out@ == sent + to_each(messages@[k as int], ids).take(slot as int),
                decreases self.players.len() - slot,
            {
                let recipient = self.players[slot].id;
                out.push(Delivery { recipient, message: messages[k].clone() });
                assert(out@ =~= sent + to_each(messages@[k as int], ids).take(slot + 1));
                slot += 1;
            }
            proof {
                assert(to_each(messages@[k as int], ids).take(slot as int) =~= to_each(
                    messages@[k as int],
                    ids,
                ));
                assert(messages@.take(k + 1).drop_last() =~= messages@.take(k as int));
                assert(messages@.take(k + 1).last() == messages@[k as int]);
            }
            k += 1;
        }
        assert(messages@.take(k as int) =~= messages@);
        out
    }

    /// Empties the queue of messages and hands out the sends that are due:
    /// each queued message, oldest first, to every registered connection, in
    /// the order of the registry. What comes of each send is to be reported
    /// with `record_send`.
    pub fn broadcast_messages(&mut self) -> (r: Vec<Delivery>)
        requires
            old(self).wf(),
        ensures
            final(self).wf(),
            final(self).map_id() == old(self).map_id(),
            final(self).game_map() == old(self).game_map(),
            r@ == old(self)@.sends(),
            final(self)@ == (ServerView { messages: Seq::empty(), ..old(self)@ }),
    {
        let ghost queued = self.messages@;
        let mut out: Vec<ServerMessages> = Vec::new();
        loop
            invariant
                self.id == old(self).id,
                self.map == old(self).map,
                self.players == old(self).players,
                self.dead_connections == old(self).dead_connections,
                self.wf(),
                queued == old(self).messages@,
                out@.len() <= queued.len(),
                out@ == queued.take(out@.len() as int),
                self.messages@ == queued.skip(out@.len() as int),
            decreases self.messages@.len(),
        {
            match self.messages.pop_front() {
                Some(message) => {
                    let ghost sent = out@.len() as int;
                    out.push(message);
                    assert(out@ =~= queued.take(sent + 1));
                    assert(self.messages@ =~= queued.skip(sent + 1));
                },
                None => {
                    assert(out@ =~= queued);
                    assert(self.messages@ =~= Seq::empty());
                    return self.fan_out(&out);
                },
            }
        }
    }

    /// The ids of the registered connections, in the order of the registry:
    /// the order in which a message is sent to them.
    pub fn recipients(&self) -> (r: Vec<PlayerConnectionId>)
        ensures
            r@ == ids_of(self@.players),
    {
        let mut ids: Vec<PlayerConnectionId> = Vec::new();
        let mut slot: usize = 0;
        while slot < self.players.len()
            invariant
                0 <= slot <= self.players.len(),
                ids@ == ids_of(views_of(self.players@)).take(slot as int),
            decreases self.players.len() - slot,
        {
            ids.push(self.players[slot].id);
            assert(ids@ =~= ids_of(views_of(self.players@)).take(slot + 1));
            slot += 1;
        }
        assert(ids@ =~= ids_of(views_of(self.players@)));
        ids
    }

    /// Takes note of what came of sending a message to the connection with
    /// this id. A connection found closed is queued to be removed. A send
    /// that failed for another reason changes nothing, and the connection
    /// stays; it is an anomaly for the caller to report, and the result says
    /// so.
    pub fn record_send(&mut self, id: PlayerConnectionId, outcome: SendOutcome) -> (anomaly: bool)
        requires
            old(self).wf(),
        ensures
            final(self).wf(),
            final(self).map_id() == old(self).map_id(),
            final(self).game_map() == old(self).game_map(),
            final(self)@ == old(self)@.reported(id, outcome),
            anomaly == (outcome is Failed),
    {
        match outcome {
            SendOutcome::Closed => {
                self.dead_connections.push_back(id);
                false
            },
            SendOutcome::Failed => true,
            SendOutcome::Delivered => false,
        }
    }

    /// Removes from the registry every connection that is queued to be
    /// removed, and hands out the sends that tell of it: one notice of
    /// disconnection for each queued id, oldest first, to every connection
    /// that remains. What comes of these sends is of no concern.
    pub fn disconnect_dead_connections(&mut self) -> (r: Vec<Delivery>)
        requires
            old(self).wf(),
        ensures
            final(self).wf(),
            final(self).map_id() == old(self).map_id(),
            final(self).game_map() == old(self).game_map(),
            r@ == deliveries(
                notices(old(self)@.dead),
                ids_of(old(self)@.reconciled().players),
            ),
            final(self)@ == old(self)@.reconciled(),
    {
        let ghost before = views_of(self.players@);
        let ghost dead = self.dead_connections@;
        let mut out: Vec<ServerMessages> = Vec::new();
        loop
            invariant
                self.id == old(self).id,
                self.map == old(self).map,
                self.messages == old(self).messages,
                before == old(self)@.players,
                dead == old(self)@.dead,
                out@.len() <= dead.len(),
                out@ == notices(dead.take(out@.len() as int)),
                self.dead_connections@ == dead.skip(out@.len() as int),
                views_of(self.players@) == purged(before, dead.take(out@.len() as int)),
                distinct_ids(views_of(self.players@)),
            decreases self.dead_connections@.len(),
        {
            let ghost done = out@.len() as int;
            let ghost registry = views_of(self.players@);
            match self.dead_connections.pop_front() {
                Some(id) => {
                    assert(id == dead[done]);
                    proof {
                        assert(dead.take(done + 1).drop_last() =~= dead.take(done));
                        assert(dead.take(done + 1).last() == id);
                    }
                    match self.find(id) {
                        Some(slot) => {
                            self.players.remove(slot);
                            proof {
                                lemma_remove_distinct(registry, slot as int);
                                assert(views_of(self.players@) =~= registry.remove(slot as int));
                            }
                        },
                        None => {},
                    }
                    out.push(ServerMessages::PlayerDisconnected(id));
                    assert(out@ =~= notices(dead.take(done + 1)));
                    assert(self.dead_connections@ =~= dead.skip(done + 1));
                },
                None => {
                    assert(dead.take(done) =~= dead);
                    assert(self.dead_connections@ =~= Seq::empty());
                    return self.fan_out(&out);
                },
            }
        }
    }
}

} // verus!
