use mmo_server::color::derive_color;
use mmo_server::intake::{ClientInput, ConnectionEvent};
use mmo_server::motion::{MoveCommand, Position};
use mmo_server::replication::diff;
use mmo_server::server::Server;
use mmo_server::world::PlayerEntity;

fn entity(owner: u64, x: i64, y: i64) -> PlayerEntity {
    PlayerEntity { owner, position: Position { x, y }, color: derive_color(owner) }
}

#[test]
fn diff_from_nothing_is_full_snapshot() {
    let current = vec![entity(1, 0, 0), entity(2, 5, 5)];
    let u = diff(&Vec::new(), &current);
    assert_eq!(u.changed, current);
    assert!(u.removed.is_empty());
}

#[test]
fn diff_reports_changes_and_removals_only() {
    let known = vec![entity(1, 0, 0), entity(2, 5, 5), entity(3, 1, 1)];
    let current = vec![entity(1, 0, 0), entity(3, 2, 1), entity(4, 0, 0)];
    let u = diff(&known, &current);
    assert_eq!(u.changed, vec![entity(3, 2, 1), entity(4, 0, 0)]);
    assert_eq!(u.removed, vec![2]);
}

#[test]
fn diff_of_identical_views_is_empty() {
    let s = vec![entity(1, 3, 4)];
    let u = diff(&s, &s);
    assert!(u.changed.is_empty());
    assert!(u.removed.is_empty());
}

#[test]
fn session_with_two_clients() {
    let a: u64 = 10;
    let b: u64 = 20;
    let mut server = Server::new(true);

    // A connects and receives a snapshot holding only its own entity.
    let out = server.tick(&vec![ConnectionEvent::Connected { client_id: a }], &vec![], 0);
    assert_eq!(out.len(), 1);
    assert_eq!(out[0].client_id, a);
    assert_eq!(out[0].update.changed, vec![entity(a, 0, 0)]);
    assert!(out[0].update.removed.is_empty());

    // A moves right for one tick of 0.1 s at 200 units per second: 20 units.
    let right = MoveCommand::new(1000, 0).unwrap();
    let out = server.tick(&vec![], &vec![ClientInput { client_id: a, command: right }], 100);
    assert_eq!(out.len(), 1);
    assert_eq!(out[0].update.changed, vec![entity(a, 20_000_000, 0)]);
    assert_eq!(server.world_store().player(a).unwrap().position, Position { x: 20_000_000, y: 0 });

    // B connects: its first update holds A where it stands and B at the origin.
    let out = server.tick(&vec![ConnectionEvent::Connected { client_id: b }], &vec![], 33);
    assert_eq!(out.len(), 2);
    assert_eq!(out[0].client_id, a);
    assert_eq!(out[0].update.changed, vec![entity(b, 0, 0)]);
    assert_eq!(out[1].client_id, b);
    assert_eq!(out[1].update.changed, vec![entity(a, 20_000_000, 0), entity(b, 0, 0)]);
    assert_eq!(server.world_store().player(a).unwrap().position, Position { x: 20_000_000, y: 0 });

    // A disconnects: B is told of the removal and is itself unchanged.
    let out = server.tick(&vec![ConnectionEvent::Disconnected { client_id: a }], &vec![], 33);
    assert_eq!(out.len(), 1);
    assert_eq!(out[0].client_id, b);
    assert!(out[0].update.changed.is_empty());
    assert_eq!(out[0].update.removed, vec![a]);
    assert_eq!(server.world_store().player(b).unwrap(), entity(b, 0, 0));
    assert!(server.world_store().player(a).is_none());

    // A late command from A is dropped.
    let out = server.tick(&vec![], &vec![ClientInput { client_id: a, command: right }], 33);
    assert_eq!(out.len(), 1);
    assert!(out[0].update.changed.is_empty());
    assert!(server.world_store().player(a).is_none());
}

#[test]
fn non_authoritative_node_ignores_commands() {
    let mut server = Server::new(false);
    assert!(!server.is_authoritative());
    server.tick(&vec![ConnectionEvent::Connected { client_id: 1 }], &vec![], 0);
    let right = MoveCommand::new(1000, 0).unwrap();
    let out = server.tick(&vec![], &vec![ClientInput { client_id: 1, command: right }], 100);
    assert!(out[0].update.changed.is_empty());
    assert_eq!(server.world_store().player(1).unwrap().position, Position { x: 0, y: 0 });
}

#[test]
fn reconnect_within_a_tick_gets_full_snapshot() {
    let mut server = Server::new(true);
    server.tick(&vec![ConnectionEvent::Connected { client_id: 1 }, ConnectionEvent::Connected { client_id: 2 }], &vec![], 0);
    let out = server.tick(
        &vec![ConnectionEvent::Disconnected { client_id: 2 }, ConnectionEvent::Connected { client_id: 2 }],
        &vec![],
        33,
    );
    assert_eq!(out.len(), 2);
    assert_eq!(out[0].client_id, 1);
    assert!(out[0].update.changed.is_empty());
    assert_eq!(out[1].client_id, 2);
    assert_eq!(out[1].update.changed, vec![entity(1, 0, 0), entity(2, 0, 0)]);
}

#[test]
fn movement_over_several_ticks_is_the_sum() {
    let mut server = Server::new(true);
    server.tick(&vec![ConnectionEvent::Connected { client_id: 3 }], &vec![], 0);
    let right = MoveCommand::new(1000, 0).unwrap();
    let up_left = MoveCommand::new(-500, 1000).unwrap();
    server.tick(&vec![], &vec![ClientInput { client_id: 3, command: right }], 33);
    server.tick(&vec![], &vec![ClientInput { client_id: 3, command: up_left }, ClientInput { client_id: 3, command: right }], 34);
    // 1*33*200 + (-0.5)*34*200 + 1*34*200 units, in millionths.
    let x = 1000 * 33 * 200 - 500 * 34 * 200 + 1000 * 34 * 200;
    let y = 1000 * 34 * 200;
    assert_eq!(server.world_store().player(3).unwrap().position, Position { x, y });
}
