use mmo_server::color::derive_color;
use mmo_server::lifecycle::{apply_effect, on_signal, step, ConnectionState, Effect, Signal};
use mmo_server::motion::Position;
use mmo_server::world::WorldStore;

#[test]
fn handshake_spawns_and_loss_removes() {
    assert_eq!(step(ConnectionState::Connecting, Signal::Handshake), (ConnectionState::Connected, Effect::SpawnPlayer));
    assert_eq!(step(ConnectionState::Connected, Signal::Lost), (ConnectionState::Disconnecting, Effect::RemovePlayer));
    assert_eq!(step(ConnectionState::Disconnecting, Signal::TornDown), (ConnectionState::Closed, Effect::Nothing));
}

#[test]
fn failed_handshake_closes_without_player() {
    assert_eq!(step(ConnectionState::Connecting, Signal::Lost), (ConnectionState::Closed, Effect::Nothing));
}

#[test]
fn closed_is_final() {
    for s in [Signal::Handshake, Signal::Lost, Signal::TornDown] {
        assert_eq!(step(ConnectionState::Closed, s), (ConnectionState::Closed, Effect::Nothing));
    }
}

#[test]
fn repeated_signals_do_not_spawn_twice() {
    assert_eq!(step(ConnectionState::Connected, Signal::Handshake), (ConnectionState::Connected, Effect::Nothing));
    assert_eq!(step(ConnectionState::Disconnecting, Signal::Lost), (ConnectionState::Disconnecting, Effect::Nothing));
}

#[test]
fn signals_spawn_and_remove_the_player_once() {
    let mut w = WorldStore::new();
    let s = on_signal(&mut w, 4, ConnectionState::Connecting, Signal::Handshake);
    assert_eq!(s, ConnectionState::Connected);
    let p = w.player(4).unwrap();
    assert_eq!(p.position, Position { x: 0, y: 0 });
    assert_eq!(p.color, derive_color(4));
    let s = on_signal(&mut w, 4, s, Signal::Handshake);
    assert_eq!(s, ConnectionState::Connected);
    assert_eq!(w.len(), 1);
    let s = on_signal(&mut w, 4, s, Signal::Lost);
    assert_eq!(s, ConnectionState::Disconnecting);
    assert!(w.player(4).is_none());
    let s = on_signal(&mut w, 4, s, Signal::TornDown);
    assert_eq!(s, ConnectionState::Closed);
    let s = on_signal(&mut w, 4, s, Signal::Handshake);
    assert_eq!(s, ConnectionState::Closed);
    assert_eq!(w.len(), 0);
}

#[test]
fn effect_nothing_leaves_world_unchanged() {
    let mut w = WorldStore::new();
    apply_effect(&mut w, 1, Effect::SpawnPlayer);
    let before = w.snapshot();
    apply_effect(&mut w, 1, Effect::Nothing);
    apply_effect(&mut w, 2, Effect::RemovePlayer);
    assert_eq!(w.snapshot(), before);
}
