//! What holds of the coordinator's tick, whatever state it starts from: who
//! is registered and who is told what after admissions, intents, sends and
//! removals.

use vstd::prelude::*;
use crate::game_map::GameMap;
use crate::map_server::{
    deliveries, distinct_ids, has_id, ids_of, lemma_remove_distinct, notices, purged, slot_of,
    spawn_or_origin, to_each, without, Delivery, ServerView,
};
use crate::messages::ServerMessages;
use crate::player::{ConnectionView, PlayerAction, PlayerConnectionId};
use crate::socket::SendOutcome;
use crate::vector2::Vector2;

verus! {

/// Who is left when the connection at `slot` is taken out of a registry
/// without repeated ids: everyone but the one that stood there.
proof fn lemma_remove_members(
    players: Seq<ConnectionView>,
    slot: int,
    other: PlayerConnectionId,
)
    requires
        distinct_ids(players),
        0 <= slot < players.len(),
    ensures
        has_id(players.remove(slot), other) <==> (other != players[slot].id && has_id(
            players,
            other,
        )),
{
    let rest = players.remove(slot);
    if has_id(rest, other) {
        let i = choose|i: int| 0 <= i < rest.len() && (#[trigger] rest[i]).id == other;
        let a = if i < slot {
            i
        } else {
            i + 1
        };
        assert(rest[i] == players[a]);
        assert(players[a].id == other);
        if a < slot {
            assert(players[a].id != players[slot].id);
        } else {
            assert(players[slot].id != players[a].id);
        }
    }
    if other != players[slot].id && has_id(players, other) {
        let a = choose|a: int| 0 <= a < players.len() && (#[trigger] players[a]).id == other;
        let i = if a < slot {
            a
        } else {
            a - 1
        };
        assert(rest[i] == players[a]);
        assert(rest[i].id == other);
    }
}

/// Taking the connection with id `id` out of a registry without repeated ids
/// leaves a registry without repeated ids, that holds `other` exactly if
/// `other` was registered and is not `id`.
pub proof fn lemma_without(
    players: Seq<ConnectionView>,
    id: PlayerConnectionId,
    other: PlayerConnectionId,
)
    requires
        distinct_ids(players),
    ensures
        distinct_ids(without(players, id)),
        has_id(without(players, id), other) <==> (other != id && has_id(players, other)),
{
    if has_id(players, id) {
        let slot = slot_of(players, id);
        lemma_remove_distinct(players, slot);
        lemma_remove_members(players, slot, other);
    }
}

/// Reconciling removes the connections that were queued to be removed, and
/// no others: an id is registered afterwards exactly if it was registered
/// before and was not queued.
pub proof fn lemma_purged(
    players: Seq<ConnectionView>,
    dead: Seq<PlayerConnectionId>,
    id: PlayerConnectionId,
)
    requires
        distinct_ids(players),
    ensures
        distinct_ids(purged(players, dead)),
        has_id(purged(players, dead), id) <==> (has_id(players, id) && !dead.contains(id)),
    decreases dead.len(),
{
    if dead.len() > 0 {
        let earlier = dead.drop_last();
        lemma_purged(players, earlier, id);
        lemma_without(purged(players, earlier), dead.last(), id);
        if dead.contains(id) {
            let k = choose|k: int| 0 <= k < dead.len() && dead[k] == id;
            if k < dead.len() - 1 {
                assert(earlier[k] == id);
            }
        }
        if earlier.contains(id) {
            let k = choose|k: int| 0 <= k < earlier.len() && earlier[k] == id;
            assert(dead[k] == id);
        }
        assert(dead[dead.len() - 1] == dead.last());
    }
}

/// Every message of `messages` is sent to every id of `ids`.
pub proof fn lemma_deliveries_reach(
    messages: Seq<ServerMessages>,
    ids: Seq<PlayerConnectionId>,
    message: ServerMessages,
    id: PlayerConnectionId,
)
    requires
        messages.contains(message),
        ids.contains(id),
    ensures
        deliveries(messages, ids).contains(Delivery { recipient: id, message }),
    decreases messages.len(),
{
    let wanted = Delivery { recipient: id, message };
    let earlier = deliveries(messages.drop_last(), ids);
    let latest = to_each(messages.last(), ids);
    if messages.last() == message {
        let i = choose|i: int| 0 <= i < ids.len() && ids[i] == id;
        assert(latest[i] == wanted);
        assert((earlier + latest)[earlier.len() + i] == wanted);
    } else {
        let k = choose|k: int| 0 <= k < messages.len() && messages[k] == message;
        assert(messages.drop_last()[k] == message);
        lemma_deliveries_reach(messages.drop_last(), ids, message, id);
        let at = choose|at: int| 0 <= at < earlier.len() && earlier[at] == wanted;
        assert((earlier + latest)[at] == wanted);
    }
}

/// A connection that a send found closed is out of the registry once the
/// tick has reconciled, and the sends that `disconnect_dead_connections`
/// hands out tell every connection that remains of its disconnection.
pub proof fn lemma_closed_connection_leaves(
    state: ServerView,
    id: PlayerConnectionId,
    other: PlayerConnectionId,
)
    requires
        distinct_ids(state.players),
    ensures
        ({
            let marked = state.reported(id, SendOutcome::Closed);
            let after = marked.reconciled();
            &&& !has_id(after.players, id)
            &&& has_id(after.players, other) ==> deliveries(
                notices(marked.dead),
                ids_of(after.players),
            ).contains(
                Delivery { recipient: other, message: ServerMessages::PlayerDisconnected(id) },
            )
        }),
{
    let marked = state.reported(id, SendOutcome::Closed);
    let after = marked.reconciled();
    lemma_purged(state.players, marked.dead, id);
    let last = marked.dead.len() - 1;
    assert(marked.dead[last] == id);
    assert(notices(marked.dead)[last] == ServerMessages::PlayerDisconnected(id));
    if has_id(after.players, other) {
        let i = choose|i: int| 0 <= i < after.players.len() && (#[trigger] after.players[i]).id
            == other;
        assert(ids_of(after.players)[i] == other);
        lemma_deliveries_reach(
            notices(marked.dead),
            ids_of(after.players),
            ServerMessages::PlayerDisconnected(id),
            other,
        );
    }
}

/// Admitting a connection registers it and queues the notice of its arrival;
/// whoever was registered stays registered, and whatever was queued stays
/// queued.
pub proof fn lemma_connected_keeps(
    state: ServerView,
    connection: ConnectionView,
    spawn: Vector2,
    id: PlayerConnectionId,
    message: ServerMessages,
)
    ensures
        has_id(state.connected(connection, spawn).players, connection.id),
        state.connected(connection, spawn).messages.contains(
            ServerMessages::PlayerConnected(connection.id, spawn),
        ),
        has_id(state.players, id) ==> has_id(state.connected(connection, spawn).players, id),
        state.messages.contains(message) ==> state.connected(connection, spawn).messages.contains(
            message,
        ),
{
    let after = state.connected(connection, spawn);
    assert(after.messages[state.messages.len() as int] == ServerMessages::PlayerConnected(
        connection.id,
        spawn,
    ));
    if state.messages.contains(message) {
        let k = choose|k: int| 0 <= k < state.messages.len() && state.messages[k] == message;
        assert(after.messages[k] == message);
    }
    if has_id(state.players, connection.id) {
        let slot = slot_of(state.players, connection.id);
        assert(after.players[slot].id == connection.id);
        if has_id(state.players, id) {
            let i = choose|i: int| 0 <= i < state.players.len() && (#[trigger] state.players[i]).id
                == id;
            assert(after.players[i].id == id);
        }
    } else {
        assert(after.players[state.players.len() as int].id == connection.id);
        if has_id(state.players, id) {
            let i = choose|i: int| 0 <= i < state.players.len() && (#[trigger] state.players[i]).id
                == id;
            assert(after.players[i].id == id);
        }
    }
}

/// Admissions never take a connection out of the registry nor a message out
/// of the queue.
pub proof fn lemma_admitted_all_keeps(
    state: ServerView,
    connections: Seq<ConnectionView>,
    spawn: Vector2,
    id: PlayerConnectionId,
    message: ServerMessages,
)
    ensures
        has_id(state.players, id) ==> has_id(
            state.admitted_all(connections, spawn).players,
            id,
        ),
        state.messages.contains(message) ==> state.admitted_all(
            connections,
            spawn,
        ).messages.contains(message),
    decreases connections.len(),
{
    if connections.len() > 0 {
        let earlier = state.admitted_all(connections.drop_last(), spawn);
        lemma_admitted_all_keeps(state, connections.drop_last(), spawn, id, message);
        lemma_connected_keeps(earlier, connections.last(), spawn, id, message);
    }
}

/// Applying intents changes neither who is registered nor what is queued.
pub proof fn lemma_acted_all_keeps(
    state: ServerView,
    actions: Seq<PlayerAction>,
    map: &GameMap,
    id: PlayerConnectionId,
)
    ensures
        has_id(state.players, id) ==> has_id(state.acted_all(actions, map).players, id),
        state.acted_all(actions, map).messages == state.messages,
        state.acted_all(actions, map).dead == state.dead,
    decreases actions.len(),
{
    if actions.len() > 0 {
        let earlier = state.acted_all(actions.drop_last(), map);
        lemma_acted_all_keeps(state, actions.drop_last(), map, id);
        let after = earlier.acted(actions.last(), map);
        if has_id(earlier.players, id) {
            let i = choose|i: int| 0 <= i < earlier.players.len() && (
            #[trigger] earlier.players[i]).id == id;
            if has_id(earlier.players, actions.last().id) {
                let slot = slot_of(earlier.players, actions.last().id);
                assert(after.players[slot].id == earlier.players[slot].id);
            }
            assert(after.players[i].id == id);
        }
    }
}

/// Every connection that is admitted in a tick is registered when the
/// sending starts, and the notice of its arrival is among the messages that
/// are then queued.
pub proof fn lemma_admitted_are_told(
    state: ServerView,
    connections: Seq<ConnectionView>,
    actions: Seq<PlayerAction>,
    map: &GameMap,
    i: int,
)
    requires
        0 <= i < connections.len(),
        !connections[i].reading,
    ensures
        has_id(state.moved(connections, actions, map).players, connections[i].id),
        state.moved(connections, actions, map).messages.contains(
            ServerMessages::PlayerConnected(connections[i].id, spawn_or_origin(map)),
        ),
{
    let spawn = spawn_or_origin(map);
    let id = connections[i].id;
    let notice = ServerMessages::PlayerConnected(id, spawn);
    let upto = connections.take(i + 1);
    let rest = connections.skip(i + 1);
    let admitted = state.admitted_all(connections, spawn);
    lemma_admitted_split(state, upto, rest, spawn);
    assert(upto + rest =~= connections);
    assert(upto.last() == connections[i]);
    lemma_connected_keeps(
        state.admitted_all(upto.drop_last(), spawn),
        connections[i],
        spawn,
        id,
        notice,
    );
    lemma_admitted_all_keeps(state.admitted_all(upto, spawn), rest, spawn, id, notice);
    let acted = admitted.acted_all(actions, map);
    lemma_acted_all_keeps(admitted, actions, map, id);
    let after = acted.advanced();
    let k = choose|k: int| 0 <= k < acted.players.len() && (#[trigger] acted.players[k]).id == id;
    assert(after.players[k].id == id);
    let m = choose|m: int| 0 <= m < acted.messages.len() && acted.messages[m] == notice;
    assert(after.messages[m] == notice);
}

/// Connections that are admitted in the same tick hear of each other: among
/// the sends that `step` hands out is the notice of the arrival of each of
/// them for each of them.
pub proof fn lemma_admitted_hear_of_each_other(
    state: ServerView,
    connections: Seq<ConnectionView>,
    actions: Seq<PlayerAction>,
    map: &GameMap,
    i: int,
    j: int,
)
    requires
        0 <= i < connections.len(),
        0 <= j < connections.len(),
        !connections[i].reading,
        !connections[j].reading,
    ensures
        state.moved(connections, actions, map).sends().contains(
            Delivery {
                recipient: connections[i].id,
                message: ServerMessages::PlayerConnected(
                    connections[j].id,
                    spawn_or_origin(map),
                ),
            },
        ),
{
    let after = state.moved(connections, actions, map);
    lemma_admitted_are_told(state, connections, actions, map, i);
    lemma_admitted_are_told(state, connections, actions, map, j);
    let k = choose|k: int| 0 <= k < after.players.len() && (#[trigger] after.players[k]).id
        == connections[i].id;
    assert(ids_of(after.players)[k] == connections[i].id);
    lemma_deliveries_reach(
        after.messages,
        ids_of(after.players),
        ServerMessages::PlayerConnected(connections[j].id, spawn_or_origin(map)),
        connections[i].id,
    );
}

/// Admitting one batch after another is admitting them as one.
pub proof fn lemma_admitted_split(
    state: ServerView,
    first: Seq<ConnectionView>,
    second: Seq<ConnectionView>,
    spawn: Vector2,
)
    ensures
        state.admitted_all(first + second, spawn) == state.admitted_all(first, spawn).admitted_all(
            second,
            spawn,
        ),
    decreases second.len(),
{
    if second.len() == 0 {
        assert(first + second =~= first);
    } else {
        lemma_admitted_split(state, first, second.drop_last(), spawn);
        assert((first + second).drop_last() =~= first + second.drop_last());
        assert((first + second).last() == second.last());
    }
}

} // verus!
