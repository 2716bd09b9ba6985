use vstd::prelude::*;

use crate::world::{connect_spec, disconnect_spec, PlayerEntity, WorldStore};

verus! {

/// The state of one connection.
#[derive(Clone, Copy, Debug, PartialEq, Eq, Structural)]
pub enum ConnectionState {
    Connecting,
    Connected,
    Disconnecting,
    Closed,
}

/// What the transport reports about one connection.
#[derive(Clone, Copy, Debug, PartialEq, Eq, Structural)]
pub enum Signal {
    /// The handshake succeeded.
    Handshake,
    /// The connection was lost: a disconnect, a timeout or a protocol error.
    Lost,
    /// The transport finished tearing the connection down.
    TornDown,
}

/// What a transition asks of the world.
#[derive(Clone, Copy, Debug, PartialEq, Eq, Structural)]
pub enum Effect {
    Nothing,
    SpawnPlayer,
    RemovePlayer,
}

/// The next state and the effect on the world of `signal` in `state`. A
/// handshake spawns the player, losing a connected client removes it, and
/// nothing leaves `Closed`.
pub open spec fn step_spec(state: ConnectionState, signal: Signal) -> (ConnectionState, Effect) {
    match (state, signal) {
        (ConnectionState::Connecting, Signal::Handshake) => (
            ConnectionState::Connected,
            Effect::SpawnPlayer,
        ),
        (ConnectionState::Connecting, Signal::Lost) => (ConnectionState::Closed, Effect::Nothing),
        (ConnectionState::Connected, Signal::Lost) => (
            ConnectionState::Disconnecting,
            Effect::RemovePlayer,
        ),
        (ConnectionState::Disconnecting, Signal::TornDown) => (
            ConnectionState::Closed,
            Effect::Nothing,
        ),
        _ => (state, Effect::Nothing),
    }
}

/// Applies `signal` to a connection in `state`.
pub fn step(state: ConnectionState, signal: Signal) -> (r: (ConnectionState, Effect))
    ensures
        r == step_spec(state, signal),
{
    match (state, signal) {
        (ConnectionState::Connecting, Signal::Handshake) => (
            ConnectionState::Connected,
            Effect::SpawnPlayer,
        ),
        (ConnectionState::Connecting, Signal::Lost) => (ConnectionState::Closed, Effect::Nothing),
        (ConnectionState::Connected, Signal::Lost) => (
            ConnectionState::Disconnecting,
            Effect::RemovePlayer,
        ),
        (ConnectionState::Disconnecting, Signal::TornDown) => (
            ConnectionState::Closed,
            Effect::Nothing,
        ),
        _ => (state, Effect::Nothing),
    }
}

/// The world after `effect` is carried out for `client_id`.
pub open spec fn effect_spec(m: Map<u64, PlayerEntity>, client_id: u64, effect: Effect) -> Map<
    u64,
    PlayerEntity,
> {
    match effect {
        Effect::Nothing => m,
        Effect::SpawnPlayer => connect_spec(m, client_id),
        Effect::RemovePlayer => disconnect_spec(m, client_id),
    }
}

/// Carries out `effect` for `client_id` on the world.
pub fn apply_effect(world: &mut WorldStore, client_id: u64, effect: Effect)
    requires
        old(world).wf(),
    ensures
        final(world).wf(),
        final(world)@ == effect_spec(old(world)@, client_id, effect),
{
    match effect {
        Effect::Nothing => {},
        Effect::SpawnPlayer => {
            world.connect(client_id);
        },
        Effect::RemovePlayer => {
            world.disconnect(client_id);
        },
    }
}

/// Handles `signal` for the connection of `client_id` in `state`: spawns or
/// removes its player as the transition asks, and returns the next state.
pub fn on_signal(world: &mut WorldStore, client_id: u64, state: ConnectionState, signal: Signal) -> (r:
    ConnectionState)
    requires
        old(world).wf(),
    ensures
        final(world).wf(),
        r == step_spec(state, signal).0,
        final(world)@ == effect_spec(old(world)@, client_id, step_spec(state, signal).1),
{
    let (next, effect) = step(state, signal);
    apply_effect(world, client_id, effect);
    next
}

/// The state after the signals `sigs`, and how many spawns and removals
/// they asked for.
pub open spec fn run(state: ConnectionState, sigs: Seq<Signal>) -> (ConnectionState, nat, nat)
    decreases sigs.len(),
{
    if sigs.len() == 0 {
        (state, 0, 0)
    } else {
        let (s, spawns, removals) = run(state, sigs.drop_last());
        let (next, effect) = step_spec(s, sigs.last());
        match effect {
            Effect::SpawnPlayer => (next, spawns + 1, removals),
            Effect::RemovePlayer => (next, spawns, removals + 1),
            Effect::Nothing => (next, spawns, removals),
        }
    }
}

/// Whatever the transport reports, a connection spawns its player at most
/// once and removes it at most once, only after spawning it; a connected
/// client has exactly one player, and a closing or closed one has none.
pub proof fn lemma_player_spawned_and_removed_once(sigs: Seq<Signal>)
    ensures
        ({
            let (s, spawns, removals) = run(ConnectionState::Connecting, sigs);
            &&& spawns <= 1
            &&& removals <= spawns
            &&& s == ConnectionState::Connecting ==> spawns == 0
            &&& s == ConnectionState::Connected ==> spawns == 1 && removals == 0
            &&& (s == ConnectionState::Disconnecting || s == ConnectionState::Closed) ==> removals
                == spawns
        }),
    decreases sigs.len(),
{
    if sigs.len() > 0 {
        lemma_player_spawned_and_removed_once(sigs.drop_last());
    }
}

/// Once closed, a connection stays closed and asks nothing more of the world.
pub proof fn lemma_closed_is_final(sigs: Seq<Signal>)
    ensures
        run(ConnectionState::Closed, sigs) == (ConnectionState::Closed, 0nat, 0nat),
    decreases sigs.len(),
{
    if sigs.len() > 0 {
        lemma_closed_is_final(sigs.drop_last());
    }
}

} // verus!
