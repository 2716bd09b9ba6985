use mmo_server::color::{derive_color, PlayerColor};
use mmo_server::intake::{apply_connection_events, apply_inputs, ClientInput, ConnectionEvent};
use mmo_server::motion::{integrate, MoveCommand, Position};
use mmo_server::queue::BoundedQueue;
use mmo_server::world::WorldStore;
use mmo_server::PROTOCOL_ID;

fn cmd(dx: i32, dy: i32) -> MoveCommand {
    MoveCommand::new(dx, dy).unwrap()
}

#[test]
fn color_is_modulo_hash_of_id() {
    assert_eq!(derive_color(100), PlayerColor { red: 100 % 23, green: 100 % 27, blue: 100 % 39 });
    assert_eq!(derive_color(0), PlayerColor { red: 0, green: 0, blue: 0 });
    assert_eq!(derive_color(u64::MAX), PlayerColor { red: u64::MAX % 23, green: u64::MAX % 27, blue: u64::MAX % 39 });
}

#[test]
fn color_derivation_is_deterministic() {
    for id in [1u64, 7, 42, 1_000_003] {
        assert_eq!(derive_color(id), derive_color(id));
    }
    assert_ne!(derive_color(1), derive_color(2));
}

#[test]
fn move_command_rejects_axes_beyond_one_unit() {
    assert!(MoveCommand::new(1000, -1000).is_some());
    assert!(MoveCommand::new(1001, 0).is_none());
    assert!(MoveCommand::new(0, -1001).is_none());
}

#[test]
fn integrate_one_tenth_second_at_full_speed() {
    let p = integrate(Position { x: 0, y: 0 }, cmd(1000, 0), 100);
    assert_eq!(p, Position { x: 20_000_000, y: 0 });
    let q = integrate(Position { x: 5, y: 5 }, cmd(-500, 250), 10);
    assert_eq!(q, Position { x: 5 - 1_000_000, y: 5 + 500_000 });
}

#[test]
fn integrate_zero_direction_or_zero_elapsed_is_noop() {
    let p = Position { x: 123, y: -456 };
    assert_eq!(integrate(p, cmd(0, 0), 1000), p);
    assert_eq!(integrate(p, cmd(1000, 1000), 0), p);
}

#[test]
fn integrate_holds_position_at_the_bounds() {
    let p = integrate(Position { x: i64::MAX - 1, y: i64::MIN + 1 }, cmd(1000, -1000), 1);
    assert_eq!(p, Position { x: i64::MAX, y: i64::MIN });
}

#[test]
fn connect_spawns_at_origin_with_derived_color() {
    let mut w = WorldStore::new();
    assert!(w.connect(9));
    let p = w.player(9).unwrap();
    assert_eq!(p.owner, 9);
    assert_eq!(p.position, Position { x: 0, y: 0 });
    assert_eq!(p.color, derive_color(9));
    assert_eq!(w.len(), 1);
}

#[test]
fn duplicate_connect_does_not_duplicate_player() {
    let mut w = WorldStore::new();
    assert!(w.connect(3));
    assert!(w.apply_command(3, cmd(1000, 0), 50));
    assert!(!w.connect(3));
    assert_eq!(w.len(), 1);
    assert_eq!(w.player(3).unwrap().position, Position { x: 10_000_000, y: 0 });
}

#[test]
fn disconnect_unknown_client_is_noop() {
    let mut w = WorldStore::new();
    w.connect(1);
    assert!(!w.disconnect(2));
    assert_eq!(w.len(), 1);
    assert!(w.disconnect(1));
    assert!(!w.disconnect(1));
    assert_eq!(w.len(), 0);
}

#[test]
fn one_player_per_connected_client_after_event_sequence() {
    let mut w = WorldStore::new();
    let evs = vec![
        ConnectionEvent::Connected { client_id: 1 },
        ConnectionEvent::Connected { client_id: 2 },
        ConnectionEvent::Connected { client_id: 1 },
        ConnectionEvent::Disconnected { client_id: 2 },
        ConnectionEvent::Connected { client_id: 3 },
        ConnectionEvent::Disconnected { client_id: 4 },
        ConnectionEvent::Connected { client_id: 2 },
        ConnectionEvent::Disconnected { client_id: 3 },
    ];
    apply_connection_events(&mut w, &evs);
    assert_eq!(w.len(), 2);
    assert!(w.player(1).is_some());
    assert!(w.player(2).is_some());
    assert!(w.player(3).is_none());
    assert!(w.player(4).is_none());
    let owners: Vec<u64> = w.snapshot().iter().map(|e| e.owner).collect();
    assert_eq!(owners, vec![1, 2]);
}

#[test]
fn commands_accumulate_in_order_and_others_contribute_nothing() {
    let mut w = WorldStore::new();
    w.connect(1);
    w.connect(2);
    let inputs = vec![
        ClientInput { client_id: 1, command: cmd(1000, 0) },
        ClientInput { client_id: 2, command: cmd(0, 1000) },
        ClientInput { client_id: 1, command: cmd(500, -1000) },
        ClientInput { client_id: 7, command: cmd(1000, 1000) },
    ];
    apply_inputs(&mut w, &inputs, 100);
    assert_eq!(w.player(1).unwrap().position, Position { x: 30_000_000, y: -20_000_000 });
    assert_eq!(w.player(2).unwrap().position, Position { x: 0, y: 20_000_000 });
    assert_eq!(w.len(), 2);
}

#[test]
fn command_for_unknown_client_changes_nothing() {
    let mut w = WorldStore::new();
    w.connect(1);
    let before = w.snapshot();
    assert!(!w.apply_command(2, cmd(1000, 1000), 1000));
    assert_eq!(w.snapshot(), before);
}

#[test]
fn command_after_disconnect_does_not_resurrect() {
    let mut w = WorldStore::new();
    w.connect(5);
    w.disconnect(5);
    assert!(!w.apply_command(5, cmd(1000, 0), 100));
    assert!(w.player(5).is_none());
    assert_eq!(w.len(), 0);
}

#[test]
fn color_never_changes_under_movement() {
    let mut w = WorldStore::new();
    w.connect(11);
    w.apply_command(11, cmd(-1000, 1000), 500);
    assert_eq!(w.player(11).unwrap().color, derive_color(11));
}

#[test]
fn bounded_queue_drops_oldest_when_full() {
    let mut q: BoundedQueue<u64> = BoundedQueue::new(2);
    assert_eq!(q.push(1), None);
    assert_eq!(q.push(2), None);
    assert_eq!(q.push(3), Some(1));
    assert_eq!(q.len(), 2);
    assert_eq!(q.drain(), vec![2, 3]);
    assert_eq!(q.len(), 0);
    assert_eq!(q.drain(), Vec::<u64>::new());
}

#[test]
fn protocol_id_is_fixed() {
    assert_eq!(PROTOCOL_ID, 0);
}
