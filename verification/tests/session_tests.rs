use mazeio::cell::CellType;
use mazeio::client::{direction_for_key, roster_to_dict, GameStateSynced, GameView, PlayerDict};
use mazeio::direction::Direction;
use mazeio::hub::{Hub, RecvOutcome};
use mazeio::maze::Maze;
use mazeio::movement::Position;
use mazeio::player::Player;
use mazeio::policy::{WriteDecision, WriteEvent, WritePolicy};
use mazeio::registry::{Registry, RegistryError};
use mazeio::session::{GameService, ServiceError};
use mazeio::wire::frame_roster;

/// A 5x5 board where only (1, 1) and (2, 1) are open: one step right
/// succeeds, the second hits the wall at (3, 1).
fn corridor_maze() -> Maze {
    let mut m = Maze { width: 5, height: 5, cells: vec![CellType::Wall; 25] };
    m.set(1, 1, CellType::Open);
    m.set(2, 1, CellType::Open);
    m
}

fn snapshot_player(id: &str) -> Player {
    Player {
        id: id.to_string(),
        name: id.to_string(),
        pos: Position::new(1, 1),
        alive: true,
    }
}

#[test]
fn registry_registers_at_start_cell() {
    let mut r = Registry::new();
    let p = r.register(7, "Alice".to_string()).unwrap();
    assert_eq!(p.name, "Alice");
    assert_eq!(p.pos, Position::new(1, 1));
    assert!(p.alive);
    let roster = r.get_snapshot_all();
    assert_eq!(roster.len(), 1);
    assert_eq!(roster[0].name, "Alice");
}

#[test]
fn registry_rejects_duplicate_connection() {
    let mut r = Registry::new();
    r.register(7, "Alice".to_string()).unwrap();
    let err = r.register(7, "Bob".to_string());
    assert!(matches!(err, Err(RegistryError::AlreadyRegistered)));
    assert_eq!(r.get_snapshot_all().len(), 1);
}

#[test]
fn registry_mutate_unknown_id_is_none() {
    let mut r = Registry::new();
    let m = corridor_maze();
    assert!(r.mutate(3, &m, Direction::Right).is_none());
}

#[test]
fn registry_mutate_moves_and_blocks() {
    let mut r = Registry::new();
    let m = corridor_maze();
    r.register(1, "Alice".to_string()).unwrap();
    let moved = r.mutate(1, &m, Direction::Right).unwrap();
    assert_eq!(moved.pos, Position::new(2, 1));
    let blocked = r.mutate(1, &m, Direction::Right).unwrap();
    assert_eq!(blocked.pos, Position::new(2, 1));
}

#[test]
fn registry_disconnect_is_idempotent() {
    let mut r = Registry::new();
    r.register(1, "Alice".to_string()).unwrap();
    let dead = r.mark_dead_and_remove(1);
    let p = dead.unwrap();
    assert!(!p.alive);
    assert_eq!(p.name, "Alice");
    assert!(r.mark_dead_and_remove(1).is_none());
    assert_eq!(r.get_snapshot_all().len(), 0);
}

#[test]
fn registry_mutations_on_different_ids_commute() {
    let m = corridor_maze();
    // The same two players, mutated in both orders.
    let mut r1 = Registry::new();
    r1.register(1, "Alice".to_string()).unwrap();
    r1.register(2, "Bob".to_string()).unwrap();
    let mut r2 = Registry::new();
    r2.register(1, "Alice".to_string()).unwrap();
    r2.register(2, "Bob".to_string()).unwrap();

    r1.mutate(1, &m, Direction::Right);
    r1.mutate(2, &m, Direction::Down);
    r2.mutate(2, &m, Direction::Down);
    r2.mutate(1, &m, Direction::Right);

    let a1 = r1.get(1).unwrap();
    let a2 = r2.get(1).unwrap();
    assert_eq!(a1.pos, a2.pos);
    assert_eq!(a1.pos, Position::new(2, 1));
    let b1 = r1.get(2).unwrap();
    let b2 = r2.get(2).unwrap();
    assert_eq!(b1.pos, b2.pos);
    assert_eq!(b1.pos, Position::new(1, 1));
}

#[test]
fn hub_delivers_in_publish_order() {
    let mut hub = Hub::new(8);
    let mut sub = hub.subscribe();
    hub.publish(snapshot_player("a"));
    hub.publish(snapshot_player("b"));
    hub.publish(snapshot_player("c"));
    for expected in ["a", "b", "c"] {
        match hub.recv(&mut sub) {
            RecvOutcome::Msg(p) => assert_eq!(p.id, expected),
            _ => panic!("expected a message"),
        }
    }
    assert!(matches!(hub.recv(&mut sub), RecvOutcome::Empty));
}

#[test]
fn hub_lagging_subscriber_skips_ahead() {
    let mut hub = Hub::new(2);
    let mut sub = hub.subscribe();
    for id in ["0", "1", "2", "3", "4"] {
        hub.publish(snapshot_player(id));
    }
    match hub.recv(&mut sub) {
        RecvOutcome::Lagged(n) => assert_eq!(n, 3),
        _ => panic!("expected a lag notice"),
    }
    match hub.recv(&mut sub) {
        RecvOutcome::Msg(p) => assert_eq!(p.id, "3"),
        _ => panic!("expected a message"),
    }
    match hub.recv(&mut sub) {
        RecvOutcome::Msg(p) => assert_eq!(p.id, "4"),
        _ => panic!("expected a message"),
    }
    assert!(matches!(hub.recv(&mut sub), RecvOutcome::Empty));
}

#[test]
fn write_policy_disconnects_past_threshold() {
    let mut p = WritePolicy::new(2);
    assert_eq!(p.on_event(WriteEvent::Failed), WriteDecision::Continue);
    assert_eq!(p.on_event(WriteEvent::Failed), WriteDecision::Continue);
    assert_eq!(p.on_event(WriteEvent::Failed), WriteDecision::Disconnect);
}

#[test]
fn write_policy_delivery_resets_and_timeout_is_tolerated() {
    let mut p = WritePolicy::new(1);
    assert_eq!(p.on_event(WriteEvent::Failed), WriteDecision::Continue);
    assert_eq!(p.on_event(WriteEvent::TimedOut), WriteDecision::Continue);
    assert_eq!(p.on_event(WriteEvent::Delivered), WriteDecision::Continue);
    assert_eq!(p.on_event(WriteEvent::Failed), WriteDecision::Continue);
    assert_eq!(p.on_event(WriteEvent::Failed), WriteDecision::Disconnect);
}

#[test]
fn join_alice_on_fresh_session() {
    let mut svc = GameService::new(2, 2);
    let resp = svc.connect_player(7, "Alice".to_string()).unwrap();
    assert_eq!(resp.players.len(), 1);
    assert_eq!(resp.players[0].name, "Alice");
    assert_eq!(resp.players[0].pos, Position::new(1, 1));
    assert!(resp.players[0].alive);
    assert_eq!(resp.player_id, resp.players[0].id);
    assert_eq!(resp.maze.width, 5);
    assert_eq!(resp.maze.height, 5);
}

#[test]
fn duplicate_join_is_an_error() {
    let mut svc = GameService::new(2, 2);
    svc.connect_player(7, "Alice".to_string()).unwrap();
    let second = svc.connect_player(7, "Alice".to_string());
    assert!(matches!(second, Err(ServiceError::AlreadyConnected)));
}

#[test]
fn only_real_moves_are_broadcast() {
    let mut svc = GameService::with_maze(corridor_maze());
    let a = svc.connect_player(1, "Alice".to_string()).unwrap();
    svc.connect_player(2, "Bob".to_string()).unwrap();
    let mut sub = svc.subscribe();
    // (2, 1) is open: the move commits and is broadcast.
    let moved = svc.handle_direction(1, Direction::Right).unwrap();
    assert_eq!(moved.pos, Position::new(2, 1));
    match svc.recv_event(&mut sub) {
        RecvOutcome::Msg(p) => {
            assert_eq!(p.id, a.player_id);
            assert_eq!(p.pos, Position::new(2, 1));
        },
        _ => panic!("expected the move event"),
    }
    assert!(matches!(svc.recv_event(&mut sub), RecvOutcome::Empty));
    // (3, 1) is a wall: the attempt is absorbed, nothing is published.
    let blocked = svc.handle_direction(1, Direction::Right).unwrap();
    assert_eq!(blocked.pos, Position::new(2, 1));
    assert!(matches!(svc.recv_event(&mut sub), RecvOutcome::Empty));
}

#[test]
fn disconnect_broadcasts_one_death_and_leaves_roster() {
    let mut svc = GameService::with_maze(corridor_maze());
    let a = svc.connect_player(1, "Alice".to_string()).unwrap();
    svc.connect_player(2, "Bob".to_string()).unwrap();
    let mut sub = svc.subscribe();
    let dead = svc.disconnect(1).unwrap();
    assert!(!dead.alive);
    assert_eq!(dead.id, a.player_id);
    match svc.recv_event(&mut sub) {
        RecvOutcome::Msg(p) => {
            assert_eq!(p.id, a.player_id);
            assert!(!p.alive);
        },
        _ => panic!("expected the death event"),
    }
    assert!(matches!(svc.recv_event(&mut sub), RecvOutcome::Empty));
    // Disconnecting again is a no-op, not an error, and publishes nothing.
    assert!(svc.disconnect(1).is_none());
    assert!(matches!(svc.recv_event(&mut sub), RecvOutcome::Empty));
    // A direction for the removed connection is silently absorbed.
    assert!(svc.handle_direction(1, Direction::Right).is_none());
    // A later join no longer sees the disconnected player.
    let resp = svc.connect_player(3, "Carol".to_string()).unwrap();
    assert_eq!(resp.players.len(), 2);
    let names: Vec<String> = resp.players.iter().map(|p| p.name.clone()).collect();
    assert!(names.contains(&"Bob".to_string()));
    assert!(names.contains(&"Carol".to_string()));
    assert!(!names.contains(&"Alice".to_string()));
}

#[test]
fn frame_roster_frames_lines() {
    let empty: Vec<Vec<u8>> = Vec::new();
    assert_eq!(frame_roster(&empty), b"[]".to_vec());
    let parts = vec![b"{\"a\":1}".to_vec(), b"{\"b\":2}".to_vec()];
    assert_eq!(frame_roster(&parts), b"[{\"a\":1},{\"b\":2}]\n".to_vec());
    let one = vec![b"{}".to_vec()];
    assert_eq!(frame_roster(&one), b"[{}]\n".to_vec());
}

#[test]
fn client_dict_applies_player_events() {
    let alice = snapshot_player("alice-id");
    let bob = snapshot_player("bob-id");
    let roster = vec![alice.clone(), bob.clone()];
    let mut dict = roster_to_dict(&roster);
    assert_eq!(dict.len(), 2);
    // A live update overwrites the stale snapshot.
    let mut moved = alice.clone();
    moved.pos = Position::new(3, 1);
    dict.apply_event(moved);
    assert_eq!(dict.get(&alice.id).unwrap().pos, Position::new(3, 1));
    // A dead snapshot removes the player.
    let mut dead = bob.clone();
    dead.alive = false;
    dict.apply_event(dead);
    assert_eq!(dict.len(), 1);
    assert!(dict.get(&bob.id).is_none());
    assert_eq!(dict.players().len(), 1);
}

#[test]
fn client_keys_map_wasd() {
    assert_eq!(direction_for_key('a'), Some(Direction::Left));
    assert_eq!(direction_for_key('d'), Some(Direction::Right));
    assert_eq!(direction_for_key('w'), Some(Direction::Up));
    assert_eq!(direction_for_key('s'), Some(Direction::Down));
    assert_eq!(direction_for_key('x'), None);
    assert_eq!(direction_for_key('\n'), None);
}

#[test]
fn game_state_synced_copies_shared_players() {
    let alice = snapshot_player("alice-id");
    let mut shared = PlayerDict::new();
    shared.insert(alice.clone());
    let mut synced = GameStateSynced::new(
        "alice-id".to_string(),
        corridor_maze(),
        PlayerDict::new(),
    );
    assert!(synced.player_dict.get(&alice.id).is_none());
    synced.update_players(&shared);
    assert_eq!(synced.player_dict.get(&alice.id).unwrap().name, alice.name);
    assert_eq!(synced.player_id, "alice-id");
}

#[test]
fn game_view_builder_holds_state() {
    let view = GameView::default();
    assert!(!view.has_state());
    let synced = GameStateSynced::new(
        "id".to_string(),
        corridor_maze(),
        PlayerDict::new(),
    );
    let view = view.state(Some(synced));
    assert!(view.has_state());
}
