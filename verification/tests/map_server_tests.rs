use mmo_engine::commons::{extract_project_folder, Commands, GameSettings, Settings};
use mmo_engine::game_map::GameMap;
use mmo_engine::map_server::{
    Delivery, GameMapServer, ACTION_QUEUE_SIZE, CONNECTION_QUEUE_SIZE,
};
use mmo_engine::socket::SendOutcome;
use mmo_engine::messages::{ClientMessages, PlayerBroadcastAction, ServerMessages};
use mmo_engine::player::{PlayerAction, PlayerActions, PlayerConnection};
use mmo_engine::socket::{InboundFrame, SocketFault};
use mmo_engine::two_way_range::{TwoWayRange, TwoWayRangeError};
use mmo_engine::vector2::Vector2;
use tokio_tungstenite::tungstenite::Error;

fn server_on(layout: &str, width: i32) -> GameMapServer {
    GameMapServer::new(1, GameMap::from_layout(layout, width))
}

fn to(recipient: usize, message: ServerMessages) -> Delivery {
    Delivery { recipient, message }
}

fn step_of(action: PlayerAction, position: Vector2) -> ServerMessages {
    ServerMessages::BroadCastAction(action.id, PlayerBroadcastAction::Step(position))
}

/// Makes `sends` against sockets of which those in `closed` are closed,
/// reports what came of each, and returns what arrived.
fn deliver(server: &mut GameMapServer, sends: Vec<Delivery>, closed: &[usize]) -> Vec<Delivery> {
    let mut got = Vec::new();
    for delivery in sends {
        if closed.contains(&delivery.recipient) {
            let outcome = SendOutcome::from_send(&Err(Error::AlreadyClosed));
            server.record_send(delivery.recipient, outcome);
        } else {
            server.record_send(delivery.recipient, SendOutcome::from_send(&Ok(())));
            got.push(delivery);
        }
    }
    got
}

/// Runs a whole tick against sockets of which those in `closed` are closed,
/// and returns what arrived.
fn tick(
    server: &mut GameMapServer,
    connections: Vec<PlayerConnection>,
    actions: Vec<PlayerAction>,
    closed: &[usize],
) -> Vec<Delivery> {
    let sends = server.step(connections, actions).sends;
    let mut got = deliver(server, sends, closed);
    for delivery in server.disconnect_dead_connections() {
        if !closed.contains(&delivery.recipient) {
            got.push(delivery);
        }
    }
    got
}

#[test]
fn new_server_is_empty() {
    let mut server = server_on(".@.", 3);
    assert_eq!(server.id(), 1);
    assert_eq!(server.recipients(), Vec::<usize>::new());
    assert_eq!(server.broadcast_messages(), Vec::<Delivery>::new());
    assert_eq!(server.disconnect_dead_connections(), Vec::<Delivery>::new());
    assert_eq!(server.map().spawn_position(), Some(Vector2(1, 0)));
    let idle = server.step(vec![], vec![]);
    assert!(idle.refused.is_empty());
    assert!(idle.sends.is_empty());
}

#[test]
fn spawn_falls_back_to_the_origin() {
    assert_eq!(server_on("...", 3).spawn_position(), Vector2(0, 0));
    assert_eq!(server_on("..\n.@", 2).spawn_position(), Vector2(1, 1));
}

#[test]
fn connections_of_one_tick_hear_of_each_other() {
    let mut server = server_on("..@..", 5);
    let got = tick(
        &mut server,
        vec![PlayerConnection::new(10), PlayerConnection::new(20)],
        vec![],
        &[],
    );
    assert_eq!(
        got,
        vec![
            to(10, ServerMessages::PlayerConnected(10, Vector2(2, 0))),
            to(20, ServerMessages::PlayerConnected(10, Vector2(2, 0))),
            to(10, ServerMessages::PlayerConnected(20, Vector2(2, 0))),
            to(20, ServerMessages::PlayerConnected(20, Vector2(2, 0))),
        ]
    );
    assert_eq!(server.recipients(), vec![10, 20]);
    assert_eq!(server.player(10).map(|c| c.player.position), Some(Vector2(2, 0)));
    assert_eq!(server.player(20).map(|c| c.is_reading()), Some(true));
}

#[test]
fn closed_connection_is_gone_by_the_next_tick() {
    let mut server = server_on("..@..", 5);
    tick(&mut server, vec![PlayerConnection::new(1), PlayerConnection::new(3)], vec![], &[]);
    let got = tick(&mut server, vec![PlayerConnection::new(2)], vec![], &[3]);
    assert_eq!(
        got,
        vec![
            to(1, ServerMessages::PlayerConnected(2, Vector2(2, 0))),
            to(2, ServerMessages::PlayerConnected(2, Vector2(2, 0))),
            to(1, ServerMessages::PlayerDisconnected(3)),
            to(2, ServerMessages::PlayerDisconnected(3)),
        ]
    );
    assert_eq!(server.recipients(), vec![1, 2]);
    assert!(server.player(3).is_none());
    assert_eq!(tick(&mut server, vec![], vec![], &[]), vec![]);
    assert_eq!(server.recipients(), vec![1, 2]);
}

#[test]
fn closed_socket_does_not_stop_the_other_sends() {
    let mut server = server_on("..@..", 5);
    let got = tick(
        &mut server,
        vec![PlayerConnection::new(1), PlayerConnection::new(2), PlayerConnection::new(3)],
        vec![],
        &[2],
    );
    assert_eq!(
        got,
        vec![
            to(1, ServerMessages::PlayerConnected(1, Vector2(2, 0))),
            to(3, ServerMessages::PlayerConnected(1, Vector2(2, 0))),
            to(1, ServerMessages::PlayerConnected(2, Vector2(2, 0))),
            to(3, ServerMessages::PlayerConnected(2, Vector2(2, 0))),
            to(1, ServerMessages::PlayerConnected(3, Vector2(2, 0))),
            to(3, ServerMessages::PlayerConnected(3, Vector2(2, 0))),
            to(1, ServerMessages::PlayerDisconnected(2)),
            to(3, ServerMessages::PlayerDisconnected(2)),
            to(1, ServerMessages::PlayerDisconnected(2)),
            to(3, ServerMessages::PlayerDisconnected(2)),
            to(1, ServerMessages::PlayerDisconnected(2)),
            to(3, ServerMessages::PlayerDisconnected(2)),
        ]
    );
    assert_eq!(server.recipients(), vec![1, 3]);
}

#[test]
fn failed_send_of_another_kind_keeps_the_connection() {
    let mut server = server_on("..@..", 5);
    tick(&mut server, vec![PlayerConnection::new(1)], vec![], &[]);
    assert!(server.record_send(1, SendOutcome::from_send(&Err(Error::Utf8))));
    assert!(server.record_send(1, SendOutcome::Failed));
    assert!(!server.record_send(1, SendOutcome::Delivered));
    assert_eq!(server.disconnect_dead_connections(), Vec::<Delivery>::new());
    assert_eq!(server.recipients(), vec![1]);
}

#[test]
fn moves_are_told_to_everyone_step_by_step() {
    let mut server = server_on("@..#...", 7);
    tick(&mut server, vec![PlayerConnection::new(5), PlayerConnection::new(6)], vec![], &[]);
    let walk = PlayerAction::move_to(5, Vector2(6, 0));
    assert_eq!(
        tick(&mut server, vec![], vec![walk], &[]),
        vec![to(5, step_of(walk, Vector2(1, 0))), to(6, step_of(walk, Vector2(1, 0)))]
    );
    assert_eq!(
        tick(&mut server, vec![], vec![], &[]),
        vec![to(5, step_of(walk, Vector2(2, 0))), to(6, step_of(walk, Vector2(2, 0)))]
    );
    assert_eq!(tick(&mut server, vec![], vec![], &[]), vec![]);
    assert_eq!(server.player(5).map(|c| c.player.position), Some(Vector2(2, 0)));
    assert_eq!(server.player(5).map(|c| c.player.current_action), Some(PlayerActions::Idle));
    assert_eq!(server.player(6).map(|c| c.player.position), Some(Vector2(0, 0)));
}

#[test]
fn steps_of_one_tick_come_in_the_order_of_the_registry() {
    let mut server = server_on("@....\n.....\n", 5);
    tick(&mut server, vec![PlayerConnection::new(9), PlayerConnection::new(4)], vec![], &[]);
    let first = PlayerAction::move_to(4, Vector2(0, 1));
    let second = PlayerAction::move_to(9, Vector2(1, 0));
    assert_eq!(
        tick(&mut server, vec![], vec![first, second], &[]),
        vec![
            to(9, step_of(second, Vector2(1, 0))),
            to(4, step_of(second, Vector2(1, 0))),
            to(9, step_of(first, Vector2(0, 1))),
            to(4, step_of(first, Vector2(0, 1))),
        ]
    );
}

#[test]
fn intents_apply_in_the_order_given() {
    let mut server = server_on("@....\n.....\n", 5);
    tick(&mut server, vec![PlayerConnection::new(5)], vec![], &[]);
    let away = PlayerAction::move_to(5, Vector2(4, 0));
    let down = PlayerAction::move_to(5, Vector2(0, 1));
    assert_eq!(
        tick(&mut server, vec![], vec![away, down], &[]),
        vec![to(5, step_of(down, Vector2(0, 1)))]
    );
}

#[test]
fn intent_for_an_unknown_connection_is_dropped() {
    let mut server = server_on("@....", 5);
    let got = tick(
        &mut server,
        vec![PlayerConnection::new(5)],
        vec![PlayerAction::move_to(99, Vector2(4, 0))],
        &[],
    );
    assert_eq!(got, vec![to(5, ServerMessages::PlayerConnected(5, Vector2(0, 0)))]);
    assert_eq!(server.recipients(), vec![5]);
    server.apply_action(PlayerAction::disconnect(99));
    server.execute_player_actions();
    assert_eq!(server.broadcast_messages(), Vec::<Delivery>::new());
    assert_eq!(server.disconnect_dead_connections(), Vec::<Delivery>::new());
    assert_eq!(server.recipients(), vec![5]);
}

#[test]
fn admitted_connection_can_act_in_the_same_tick() {
    let mut server = server_on("@....", 5);
    let walk = PlayerAction::move_to(5, Vector2(2, 0));
    assert_eq!(
        tick(&mut server, vec![PlayerConnection::new(5)], vec![walk], &[]),
        vec![
            to(5, ServerMessages::PlayerConnected(5, Vector2(0, 0))),
            to(5, step_of(walk, Vector2(1, 0))),
        ]
    );
}

#[test]
fn disconnect_intent_removes_the_player() {
    let mut server = server_on("@....", 5);
    tick(&mut server, vec![PlayerConnection::new(1), PlayerConnection::new(2)], vec![], &[]);
    let sends = server.step(vec![], vec![PlayerAction::disconnect(1)]).sends;
    assert!(sends.is_empty());
    assert_eq!(server.recipients(), vec![1, 2]);
    assert_eq!(
        server.disconnect_dead_connections(),
        vec![to(2, ServerMessages::PlayerDisconnected(1))]
    );
    assert_eq!(server.recipients(), vec![2]);
    assert!(server.player(1).is_none());
}

#[test]
fn move_after_disconnect_in_one_tick_does_not_revive() {
    let mut server = server_on("@....", 5);
    tick(&mut server, vec![PlayerConnection::new(1), PlayerConnection::new(2)], vec![], &[]);
    let got = tick(
        &mut server,
        vec![],
        vec![PlayerAction::disconnect(1), PlayerAction::move_to(1, Vector2(3, 0))],
        &[],
    );
    assert_eq!(got, vec![to(2, ServerMessages::PlayerDisconnected(1))]);
    assert_eq!(server.recipients(), vec![2]);
}

#[test]
fn queues_have_room_for_thirty_two() {
    assert_eq!(CONNECTION_QUEUE_SIZE, 32);
    assert_eq!(ACTION_QUEUE_SIZE, 32);
}

#[test]
fn connection_with_a_reader_is_refused() {
    let mut server = server_on("@....", 5);
    let mut taken = PlayerConnection::new(8);
    assert!(taken.read_messages().is_ok());
    assert!(server.connect(taken).is_err());
    assert_eq!(server.recipients(), Vec::<usize>::new());
    assert_eq!(server.broadcast_messages(), Vec::<Delivery>::new());
    let outcome = server.step(vec![PlayerConnection::new(7), taken], vec![]);
    assert_eq!(outcome.refused, vec![8]);
    assert_eq!(
        outcome.sends,
        vec![to(7, ServerMessages::PlayerConnected(7, Vector2(0, 0)))]
    );
    assert_eq!(server.recipients(), vec![7]);
}

#[test]
fn readmission_under_an_id_replaces_the_record() {
    let mut server = server_on("@....", 5);
    tick(&mut server, vec![PlayerConnection::new(1), PlayerConnection::new(2)], vec![], &[]);
    tick(&mut server, vec![], vec![PlayerAction::move_to(1, Vector2(3, 0))], &[]);
    assert_eq!(server.player(1).map(|c| c.player.position), Some(Vector2(1, 0)));
    assert!(server.connect(PlayerConnection::new(1)).is_ok());
    assert_eq!(server.recipients(), vec![1, 2]);
    assert_eq!(server.player(1).map(|c| c.player.position), Some(Vector2(0, 0)));
    assert_eq!(server.player(1).map(|c| c.player.current_action), Some(PlayerActions::Idle));
}

#[test]
fn queue_is_empty_after_a_step() {
    let mut server = server_on("@....", 5);
    assert!(server.connect(PlayerConnection::new(1)).is_ok());
    assert_eq!(
        server.broadcast_messages(),
        vec![to(1, ServerMessages::PlayerConnected(1, Vector2(0, 0)))]
    );
    assert_eq!(server.broadcast_messages(), Vec::<Delivery>::new());
    let outcome = server.step(vec![PlayerConnection::new(2)], vec![]);
    assert_eq!(outcome.sends.len(), 2);
    assert_eq!(server.broadcast_messages(), Vec::<Delivery>::new());
}

#[test]
fn id_reported_closed_twice_gives_two_notices() {
    let mut server = server_on("@....", 5);
    tick(&mut server, vec![PlayerConnection::new(1), PlayerConnection::new(2)], vec![], &[]);
    assert!(!server.record_send(2, SendOutcome::Closed));
    assert!(!server.record_send(2, SendOutcome::Closed));
    assert!(!server.record_send(44, SendOutcome::Closed));
    assert_eq!(
        server.disconnect_dead_connections(),
        vec![
            to(1, ServerMessages::PlayerDisconnected(2)),
            to(1, ServerMessages::PlayerDisconnected(2)),
            to(1, ServerMessages::PlayerDisconnected(44)),
        ]
    );
    assert_eq!(server.recipients(), vec![1]);
}

#[test]
fn socket_errors_are_told_apart() {
    assert_eq!(SendOutcome::from_send(&Ok(())), SendOutcome::Delivered);
    assert_eq!(SendOutcome::from_send(&Err(Error::ConnectionClosed)), SendOutcome::Closed);
    assert_eq!(SendOutcome::from_send(&Err(Error::AlreadyClosed)), SendOutcome::Closed);
    assert_eq!(SendOutcome::from_send(&Err(Error::Utf8)), SendOutcome::Failed);
    assert_eq!(SendOutcome::from_send(&Err(Error::AttackAttempt)), SendOutcome::Failed);
    assert_eq!(InboundFrame::from_error(&Error::AlreadyClosed), InboundFrame::Closed);
    assert_eq!(InboundFrame::from_error(&Error::ConnectionClosed), InboundFrame::Failed);
    assert_eq!(InboundFrame::from_error(&Error::Utf8), InboundFrame::Failed);
}

#[test]
fn faults_map_to_outcomes_and_frames() {
    assert_eq!(SendOutcome::from_fault(SocketFault::ConnectionClosed), SendOutcome::Closed);
    assert_eq!(SendOutcome::from_fault(SocketFault::AlreadyClosed), SendOutcome::Closed);
    assert_eq!(SendOutcome::from_fault(SocketFault::Other), SendOutcome::Failed);
    assert_eq!(InboundFrame::from_fault(SocketFault::AlreadyClosed), InboundFrame::Closed);
    assert_eq!(InboundFrame::from_fault(SocketFault::ConnectionClosed), InboundFrame::Failed);
    assert_eq!(InboundFrame::from_fault(SocketFault::Other), InboundFrame::Failed);
    assert_eq!(
        InboundFrame::from_decoded(Some(ClientMessages::MoveTo(Vector2(1, 1)))),
        InboundFrame::Message(ClientMessages::MoveTo(Vector2(1, 1)))
    );
    assert_eq!(InboundFrame::from_decoded(None), InboundFrame::Malformed);
}

#[test]
fn closed_reader_leads_to_removal() {
    let mut server = server_on("@....", 5);
    tick(&mut server, vec![PlayerConnection::new(1), PlayerConnection::new(2)], vec![], &[]);
    let frame = InboundFrame::from_error(&Error::AlreadyClosed);
    let actions: Vec<PlayerAction> = PlayerAction::from_frame(2, frame).into_iter().collect();
    assert_eq!(
        tick(&mut server, vec![], actions, &[]),
        vec![to(1, ServerMessages::PlayerDisconnected(2))]
    );
    assert_eq!(server.recipients(), vec![1]);
}

#[test]
fn connection_error_notice() {
    assert_eq!(
        ServerMessages::connetion_error(),
        ServerMessages::ConnectionError(
            "The server is up but couldn't connect right now.".to_string()
        )
    );
}

#[test]
fn range_counts_upwards() {
    let mut range = TwoWayRange::new(0, 3, 1).unwrap();
    assert_eq!(range.next(), Some(0));
    assert_eq!(range.next(), Some(1));
    assert_eq!(range.next(), Some(2));
    assert_eq!(range.next(), None);
    assert_eq!(range.next(), None);
}

#[test]
fn range_counts_downwards() {
    let mut range = TwoWayRange::new(5, 0, -2).unwrap();
    assert_eq!(range.next(), Some(5));
    assert_eq!(range.next(), Some(3));
    assert_eq!(range.next(), Some(1));
    assert_eq!(range.next(), None);
}

#[test]
fn range_with_equal_ends_is_empty() {
    let mut range = TwoWayRange::new(4, 4, 1).unwrap();
    assert_eq!(range.next(), None);
}

#[test]
fn range_do_step_returns_the_value_before() {
    let mut range = TwoWayRange::new(10, 0, 3).unwrap();
    assert_eq!(range.do_step(), 10);
    assert_eq!(range.do_step(), 13);
    assert_eq!(range.next(), Some(16));
}

#[test]
fn range_refuses_a_zero_step() {
    assert!(matches!(TwoWayRange::new(0, 3, 0), Err(TwoWayRangeError::ZeroStep)));
    assert!(matches!(TwoWayRange::new(3, 3, 0), Err(TwoWayRangeError::ZeroStep)));
    assert!(TwoWayRange::new(0, 3, -1).is_ok());
}

#[test]
fn project_folder_of_each_command() {
    let folder = Some("game".to_string());
    assert_eq!(
        extract_project_folder(&Commands::Server { project_folder: folder.clone() }),
        &folder
    );
    assert_eq!(extract_project_folder(&Commands::CreateDb { project_folder: None }), &None);
    assert_eq!(
        extract_project_folder(&Commands::DbMigrate { project_folder: folder.clone() }),
        &folder
    );
    assert_eq!(
        extract_project_folder(&Commands::CreateDbMigration {
            project_folder: folder.clone(),
            migration_name: "first".to_string(),
        }),
        &folder
    );
    assert_eq!(
        extract_project_folder(&Commands::GenerateScripts { project_folder: None }),
        &None
    );
}

#[test]
fn settings_hold_address_and_port() {
    let settings = Settings { game: GameSettings { address: "127.0.0.1".to_string(), port: 8080 } };
    assert_eq!(settings.game.address, "127.0.0.1");
    assert_eq!(settings.game.port, 8080);
}
