use vstd::prelude::*;

use crate::intake::{
    apply_connection_events, apply_inputs, replay_connections, replay_moves, timed,
    ClientInput, ConnectionEvent,
};
use crate::replication::{
    apply_update, changed_of, diff, has_owner, lemma_update_converges, removed_of, ReplicationUpdate,
};
use crate::world::{owns, players_of, unique_owners, PlayerEntity, WorldStore};

verus! {

/// The update addressed to one connected client.
#[derive(Debug)]
pub struct Outgoing {
    pub client_id: u64,
    pub update: ReplicationUpdate,
}

/// `evs` holds a connect of `client_id`.
pub open spec fn connects(evs: Seq<ConnectionEvent>, client_id: u64) -> bool {
    exists|i: int|
        0 <= i < evs.len() && #[trigger] evs[i] == (ConnectionEvent::Connected { client_id })
}

/// What `client_id` saw at the end of the previous tick, whose entities were
/// `last`: all of them if it was connected then and has not connected anew
/// in this tick's events `evs`; nothing otherwise.
pub open spec fn baseline(last: Seq<PlayerEntity>, evs: Seq<ConnectionEvent>, client_id: u64) -> Seq<
    PlayerEntity,
> {
    if owns(last, client_id) && !connects(evs, client_id) {
        last
    } else {
        Seq::empty()
    }
}

/// The world after one tick: connection events first, then, on an
/// authoritative node, the commands of the tick in order.
pub open spec fn world_after_tick(
    m: Map<u64, PlayerEntity>,
    authoritative: bool,
    evs: Seq<ConnectionEvent>,
    inputs: Seq<ClientInput>,
    elapsed_ms: u32,
) -> Map<u64, PlayerEntity> {
    if authoritative {
        replay_moves(replay_connections(m, evs), timed(inputs, elapsed_ms))
    } else {
        replay_connections(m, evs)
    }
}

/// The simulation loop's state: the world, whether this node has authority
/// over movement, and the entities as every client saw them after the last
/// tick.
pub struct Server {
    authoritative: bool,
    world: WorldStore,
    last_sent: Vec<PlayerEntity>,
}

impl Server {
    pub closed spec fn authoritative(&self) -> bool {
        self.authoritative
    }

    pub closed spec fn world(&self) -> WorldStore {
        self.world
    }

    pub closed spec fn last_sent(&self) -> Seq<PlayerEntity> {
        self.last_sent@
    }

    pub closed spec fn wf(&self) -> bool {
        self.world.wf() && unique_owners(self.last_sent@)
    }

    /// A node with an empty world that has sent nothing yet.
    pub fn new(authoritative: bool) -> (r: Server)
        ensures
            r.wf(),
            r.world().wf(),
            r.authoritative() == authoritative,
            r.world()@ == Map::<u64, PlayerEntity>::empty(),
            r.last_sent() == Seq::<PlayerEntity>::empty(),
    {
        Server { authoritative, world: WorldStore::new(), last_sent: Vec::new() }
    }

    /// Whether this node applies movement commands.
    pub fn is_authoritative(&self) -> (r: bool)
        ensures
            r == self.authoritative(),
    {
        self.authoritative
    }

    /// The world store.
    pub fn world_store(&self) -> (r: &WorldStore)
        requires
            self.wf(),
        ensures
            *r == self.world(),
            r.wf(),
    {
        &self.world
    }

    /// Runs one tick: applies the connection events, then, with authority,
    /// the movement commands over `elapsed_ms`, and returns one update per
    /// connected client, in the order their players were spawned: every
    /// client with a player is sent one. A client
    /// that has just connected is sent the full world; a client that applies
    /// its update to what it saw before holds the world as it is now, removed
    /// players included.
    pub fn tick(
        &mut self,
        events: &Vec<ConnectionEvent>,
        inputs: &Vec<ClientInput>,
        elapsed_ms: u32,
    ) -> (r: Vec<Outgoing>)
        requires
            old(self).wf(),
            forall|i: int| 0 <= i < inputs@.len() ==> (#[trigger] inputs@[i]).command.wf(),
        ensures
            final(self).wf(),
            final(self).world().wf(),
            final(self).authoritative() == old(self).authoritative(),
            final(self).world()@ == world_after_tick(
                old(self).world()@,
                old(self).authoritative(),
                events@,
                inputs@,
                elapsed_ms,
            ),
            final(self).last_sent() == final(self).world().entities(),
            r@.len() == final(self).world().entities().len(),
            forall|i: int|
                0 <= i < r@.len() ==> {
                    let owner = final(self).world().entities()[i].owner;
                    let seen = baseline(old(self).last_sent(), events@, owner);
                    &&& (#[trigger] r@[i]).client_id == owner
                    &&& r@[i].update.changed@ == changed_of(seen, final(self).world().entities())
                    &&& r@[i].update.removed@ == removed_of(seen, final(self).world().entities())
                },
            forall|id: u64|
                #[trigger] final(self).world()@.contains_key(id) ==> exists|i: int|
                    0 <= i < r@.len() && r@[i].client_id == id,
            forall|i: int|
                0 <= i < r@.len() ==> apply_update(
                    players_of(
                        baseline(
                            old(self).last_sent(),
                            events@,
                            final(self).world().entities()[i].owner,
                        ),
                    ),
                    (#[trigger] r@[i]).update.changed@,
                    r@[i].update.removed@,
                ) == final(self).world()@,
    {
        apply_connection_events(&mut self.world, events);
        if self.authoritative {
            apply_inputs(&mut self.world, inputs, elapsed_ms);
        }
        let current = self.world.snapshot();
        let empty: Vec<PlayerEntity> = Vec::new();
        let mut out: Vec<Outgoing> = Vec::new();
        let mut i: usize = 0;
        while i < current.len()
            invariant
                i <= current@.len(),
                out@.len() == i,
                forall|k: int|
                    0 <= k < i ==> {
                        let owner = current@[k].owner;
                        let seen = baseline(self.last_sent@, events@, owner);
                        &&& (#[trigger] out@[k]).client_id == owner
                        &&& out@[k].update.changed@ == changed_of(seen, current@)
                        &&& out@[k].update.removed@ == removed_of(seen, current@)
                    },
                empty@ == Seq::<PlayerEntity>::empty(),
            decreases current@.len() - i,
        {
            let owner = current[i].owner;
            let fresh = connects_in(events, owner);
            let seen_before = has_owner(&self.last_sent, owner);
            let update = if seen_before && !fresh {
                diff(&self.last_sent, &current)
            } else {
                diff(&empty, &current)
            };
            out.push(Outgoing { client_id: owner, update });
            i += 1;
        }
        proof {
            assert forall|k: int| 0 <= k < out@.len() implies apply_update(
                players_of(baseline(self.last_sent@, events@, current@[k].owner)),
                (#[trigger] out@[k]).update.changed@,
                out@[k].update.removed@,
            ) == players_of(current@) by {
                lemma_update_converges(
                    baseline(self.last_sent@, events@, current@[k].owner),
                    current@,
                );
            }
        }
        proof {
            assert forall|id: u64| #[trigger] self.world@.contains_key(id) implies exists|i: int|
                0 <= i < out@.len() && out@[i].client_id == id by {
                assert(players_of(current@).contains_key(id));
                let i = choose|i: int| 0 <= i < current@.len() && #[trigger] current@[i].owner == id;
                assert(out@[i].client_id == id);
            }
        }
        self.last_sent = current;
        out
    }
}

fn connects_in(evs: &Vec<ConnectionEvent>, client_id: u64) -> (r: bool)
    ensures
        r == connects(evs@, client_id),
{
    let mut i: usize = 0;
    while i < evs.len()
        invariant
            i <= evs@.len(),
            forall|j: int|
                0 <= j < i ==> #[trigger] evs@[j] != (ConnectionEvent::Connected { client_id }),
        decreases evs@.len() - i,
    {
        if let ConnectionEvent::Connected { client_id: c } = evs[i] {
            if c == client_id {
                return true;
            }
        }
        i += 1;
    }
    false
}

} // verus!
