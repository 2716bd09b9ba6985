use vstd::prelude::*;

use crate::lifecycle::{apply_effect, Effect};
use crate::motion::{axis_shift, MoveCommand};
use crate::world::{
    connect_spec, disconnect_spec, keyed_by_owner, move_spec, PlayerEntity, WorldStore,
};

verus! {

/// A connection event reported by the transport: a connect is a completed
/// handshake, a disconnect a lost connection.
#[derive(Clone, Copy, Debug, PartialEq, Eq, Structural)]
pub enum ConnectionEvent {
    Connected { client_id: u64 },
    Disconnected { client_id: u64 },
}

/// A movement command together with the client that sent it.
#[derive(Clone, Copy, Debug, PartialEq, Eq, Structural)]
pub struct ClientInput {
    pub client_id: u64,
    pub command: MoveCommand,
}

/// The effect of one connection event on the world.
pub open spec fn connection_step(m: Map<u64, PlayerEntity>, ev: ConnectionEvent) -> Map<
    u64,
    PlayerEntity,
> {
    match ev {
        ConnectionEvent::Connected { client_id } => connect_spec(m, client_id),
        ConnectionEvent::Disconnected { client_id } => disconnect_spec(m, client_id),
    }
}

/// The world after the events `evs`, in order.
pub open spec fn replay_connections(m: Map<u64, PlayerEntity>, evs: Seq<ConnectionEvent>) -> Map<
    u64,
    PlayerEntity,
>
    decreases evs.len(),
{
    if evs.len() == 0 {
        m
    } else {
        connection_step(replay_connections(m, evs.drop_last()), evs.last())
    }
}

/// The clients connected after the events `evs`, starting from `s`.
pub open spec fn connected_after(s: Set<u64>, evs: Seq<ConnectionEvent>) -> Set<u64>
    decreases evs.len(),
{
    if evs.len() == 0 {
        s
    } else {
        match evs.last() {
            ConnectionEvent::Connected { client_id } => connected_after(s, evs.drop_last()).insert(
                client_id,
            ),
            ConnectionEvent::Disconnected { client_id } => connected_after(
                s,
                evs.drop_last(),
            ).remove(client_id),
        }
    }
}

/// The world after the commands `steps`, each with its own elapsed time,
/// applied in order.
pub open spec fn replay_moves(m: Map<u64, PlayerEntity>, steps: Seq<(ClientInput, u32)>) -> Map<
    u64,
    PlayerEntity,
>
    decreases steps.len(),
{
    if steps.len() == 0 {
        m
    } else {
        let (input, elapsed_ms) = steps.last();
        move_spec(
            replay_moves(m, steps.drop_last()),
            input.client_id,
            input.command,
            elapsed_ms,
        )
    }
}

/// The inputs of one tick, each paired with the tick's elapsed time.
pub open spec fn timed(inputs: Seq<ClientInput>, elapsed_ms: u32) -> Seq<(ClientInput, u32)> {
    Seq::new(inputs.len(), |i: int| (inputs[i], elapsed_ms))
}

/// Sum of the x displacements of the commands in `steps` sent by `client_id`.
pub open spec fn shift_x_sum(client_id: u64, steps: Seq<(ClientInput, u32)>) -> int
    decreases steps.len(),
{
    if steps.len() == 0 {
        0
    } else {
        let (input, elapsed_ms) = steps.last();
        shift_x_sum(client_id, steps.drop_last()) + if input.client_id == client_id {
            axis_shift(input.command.dx, elapsed_ms)
        } else {
            0
        }
    }
}

/// Sum of the y displacements of the commands in `steps` sent by `client_id`.
pub open spec fn shift_y_sum(client_id: u64, steps: Seq<(ClientInput, u32)>) -> int
    decreases steps.len(),
{
    if steps.len() == 0 {
        0
    } else {
        let (input, elapsed_ms) = steps.last();
        shift_y_sum(client_id, steps.drop_last()) + if input.client_id == client_id {
            axis_shift(input.command.dy, elapsed_ms)
        } else {
            0
        }
    }
}

/// Applies the connection events of one tick, in order.
pub fn apply_connection_events(world: &mut WorldStore, events: &Vec<ConnectionEvent>)
    requires
        old(world).wf(),
    ensures
        final(world).wf(),
        final(world)@ == replay_connections(old(world)@, events@),
{
    let mut i: usize = 0;
    while i < events.len()
        invariant
            world.wf(),
            i <= events@.len(),
            world@ == replay_connections(old(world)@, events@.subrange(0, i as int)),
        decreases events@.len() - i,
    {
        proof {
            assert(events@.subrange(0, i + 1).drop_last() =~= events@.subrange(0, i as int));
        }
        match events[i] {
            ConnectionEvent::Connected { client_id } => {
                apply_effect(world, client_id, Effect::SpawnPlayer);
            },
            ConnectionEvent::Disconnected { client_id } => {
                apply_effect(world, client_id, Effect::RemovePlayer);
            },
        }
        i += 1;
    }
    assert(events@.subrange(0, events@.len() as int) =~= events@);
}

/// Applies the movement commands of one tick, in order, each for
/// `elapsed_ms`. Commands from clients without a player are dropped.
pub fn apply_inputs(world: &mut WorldStore, inputs: &Vec<ClientInput>, elapsed_ms: u32)
    requires
        old(world).wf(),
        forall|i: int| 0 <= i < inputs@.len() ==> (#[trigger] inputs@[i]).command.wf(),
    ensures
        final(world).wf(),
        final(world)@ == replay_moves(old(world)@, timed(inputs@, elapsed_ms)),
{
    let mut i: usize = 0;
    while i < inputs.len()
        invariant
            world.wf(),
            i <= inputs@.len(),
            forall|i: int| 0 <= i < inputs@.len() ==> (#[trigger] inputs@[i]).command.wf(),
            world@ == replay_moves(old(world)@, timed(inputs@.subrange(0, i as int), elapsed_ms)),
        decreases inputs@.len() - i,
    {
        proof {
            assert(timed(inputs@.subrange(0, i + 1), elapsed_ms).drop_last() =~= timed(
                inputs@.subrange(0, i as int),
                elapsed_ms,
            ));
        }
        let input = inputs[i];
        world.apply_command(input.client_id, input.command, elapsed_ms);
        i += 1;
    }
    assert(inputs@.subrange(0, inputs@.len() as int) =~= inputs@);
}

/// Whatever the connect and disconnect events, the world holds exactly one
/// player per connected client, filed under that client, and none for a
/// disconnected one.
pub proof fn lemma_one_player_per_connected_client(
    m: Map<u64, PlayerEntity>,
    evs: Seq<ConnectionEvent>,
)
    requires
        keyed_by_owner(m),
    ensures
        replay_connections(m, evs).dom() == connected_after(m.dom(), evs),
        keyed_by_owner(replay_connections(m, evs)),
    decreases evs.len(),
{
    if evs.len() > 0 {
        lemma_one_player_per_connected_client(m, evs.drop_last());
        let prev = replay_connections(m, evs.drop_last());
        match evs.last() {
            ConnectionEvent::Connected { client_id } => {
                assert(replay_connections(m, evs).dom() =~= prev.dom().insert(client_id));
            },
            ConnectionEvent::Disconnected { client_id } => {
                assert(replay_connections(m, evs).dom() =~= prev.dom().remove(client_id));
            },
        }
    }
}

/// Starting from an empty world, the players after any connect and
/// disconnect events are exactly those of the connected clients.
pub proof fn lemma_players_of_connected_clients(evs: Seq<ConnectionEvent>)
    ensures
        replay_connections(Map::empty(), evs).dom() == connected_after(Set::empty(), evs),
        keyed_by_owner(replay_connections(Map::empty(), evs)),
{
    assert(Map::<u64, PlayerEntity>::empty().dom() =~= Set::<u64>::empty());
    lemma_one_player_per_connected_client(Map::empty(), evs);
}

/// Commands move players but never spawn or remove one, and never change
/// an entity's owner or color.
pub proof fn lemma_moves_keep_players(m: Map<u64, PlayerEntity>, steps: Seq<(ClientInput, u32)>)
    ensures
        replay_moves(m, steps).dom() == m.dom(),
        forall|id: u64|
            #[trigger] m.contains_key(id) ==> replay_moves(m, steps)[id].owner == m[id].owner
                && replay_moves(m, steps)[id].color == m[id].color,
    decreases steps.len(),
{
    if steps.len() > 0 {
        lemma_moves_keep_players(m, steps.drop_last());
        assert(replay_moves(m, steps).dom() =~= m.dom());
    }
}

/// A command from a client that has no player changes no entity; it is
/// dropped, not refused.
pub proof fn lemma_unknown_client_command_is_noop(
    m: Map<u64, PlayerEntity>,
    client_id: u64,
    cmd: MoveCommand,
    elapsed_ms: u32,
)
    requires
        !m.contains_key(client_id),
    ensures
        move_spec(m, client_id, cmd, elapsed_ms) == m,
{
}

/// After a client disconnects, no later commands bring its player back.
pub proof fn lemma_no_resurrection(
    m: Map<u64, PlayerEntity>,
    client_id: u64,
    steps: Seq<(ClientInput, u32)>,
)
    ensures
        !replay_moves(disconnect_spec(m, client_id), steps).contains_key(client_id),
{
    lemma_moves_keep_players(disconnect_spec(m, client_id), steps);
}

/// Applying a client's commands in order moves its player by the sum of
/// `direction * elapsed * speed` over those commands; commands of other
/// clients contribute nothing. This holds as long as no partial sum leaves
/// the range of `i64`, where the position would be held at the bound.
pub proof fn lemma_position_is_sum_of_shifts(
    m: Map<u64, PlayerEntity>,
    client_id: u64,
    steps: Seq<(ClientInput, u32)>,
)
    requires
        m.contains_key(client_id),
        forall|k: int|
            0 <= k <= steps.len() ==> i64::MIN <= m[client_id].position.x + #[trigger] shift_x_sum(
                client_id,
                steps.subrange(0, k),
            ) <= i64::MAX,
        forall|k: int|
            0 <= k <= steps.len() ==> i64::MIN <= m[client_id].position.y + #[trigger] shift_y_sum(
                client_id,
                steps.subrange(0, k),
            ) <= i64::MAX,
    ensures
        replay_moves(m, steps).contains_key(client_id),
        replay_moves(m, steps)[client_id].position.x == m[client_id].position.x + shift_x_sum(
            client_id,
            steps,
        ),
        replay_moves(m, steps)[client_id].position.y == m[client_id].position.y + shift_y_sum(
            client_id,
            steps,
        ),
    decreases steps.len(),
{
    lemma_moves_keep_players(m, steps);
    assert(steps.subrange(0, steps.len() as int) =~= steps);
    if steps.len() > 0 {
        let prefix = steps.drop_last();
        assert forall|k: int| 0 <= k <= prefix.len() implies #[trigger] prefix.subrange(0, k)
            == steps.subrange(0, k) by {
            assert(prefix.subrange(0, k) =~= steps.subrange(0, k));
        }
        assert forall|k: int| 0 <= k <= prefix.len() implies i64::MIN <= m[client_id].position.x
            + #[trigger] shift_x_sum(client_id, prefix.subrange(0, k)) <= i64::MAX by {
            assert(prefix.subrange(0, k) == steps.subrange(0, k));
        }
        assert forall|k: int| 0 <= k <= prefix.len() implies i64::MIN <= m[client_id].position.y
            + #[trigger] shift_y_sum(client_id, prefix.subrange(0, k)) <= i64::MAX by {
            assert(prefix.subrange(0, k) == steps.subrange(0, k));
        }
        lemma_position_is_sum_of_shifts(m, client_id, prefix);
        lemma_moves_keep_players(m, prefix);
    }
}

/// Commands applied in two runs, such as two ticks, leave the world as the
/// two runs applied as one sequence.
pub proof fn lemma_moves_compose(
    m: Map<u64, PlayerEntity>,
    a: Seq<(ClientInput, u32)>,
    b: Seq<(ClientInput, u32)>,
)
    ensures
        replay_moves(replay_moves(m, a), b) == replay_moves(m, a + b),
    decreases b.len(),
{
    if b.len() == 0 {
        assert(a + b =~= a);
    } else {
        lemma_moves_compose(m, a, b.drop_last());
        assert((a + b).drop_last() =~= a + b.drop_last());
        assert((a + b).last() == b.last());
    }
}

/// The displacement of a client over two runs of commands is the sum of
/// its displacements over each.
pub proof fn lemma_shift_sums_add(
    client_id: u64,
    a: Seq<(ClientInput, u32)>,
    b: Seq<(ClientInput, u32)>,
)
    ensures
        shift_x_sum(client_id, a + b) == shift_x_sum(client_id, a) + shift_x_sum(client_id, b),
        shift_y_sum(client_id, a + b) == shift_y_sum(client_id, a) + shift_y_sum(client_id, b),
    decreases b.len(),
{
    if b.len() == 0 {
        assert(a + b =~= a);
    } else {
        lemma_shift_sums_add(client_id, a, b.drop_last());
        assert((a + b).drop_last() =~= a + b.drop_last());
        assert((a + b).last() == b.last());
    }
}

} // verus!
