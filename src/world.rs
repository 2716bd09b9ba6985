use vstd::prelude::*;

use crate::color::{color_of, derive_color, PlayerColor};
use crate::motion::{integrate, moved, origin, MoveCommand, Position};

verus! {

/// The authoritative record of one connected player. `owner` is the only
/// client allowed to move it; `color` is fixed at creation.
#[derive(Clone, Copy, Debug, PartialEq, Eq, Structural)]
pub struct PlayerEntity {
    pub owner: u64,
    pub position: Position,
    pub color: PlayerColor,
}

/// The entity spawned when `client_id` connects: at the origin, with the
/// client's derived color.
pub open spec fn spawned(client_id: u64) -> PlayerEntity {
    PlayerEntity { owner: client_id, position: origin(), color: color_of(client_id) }
}

/// `s` holds an entity owned by `client_id`.
pub open spec fn owns(s: Seq<PlayerEntity>, client_id: u64) -> bool {
    exists|i: int| 0 <= i < s.len() && #[trigger] s[i].owner == client_id
}

/// No two entities of `s` share an owner.
pub open spec fn unique_owners(s: Seq<PlayerEntity>) -> bool {
    forall|i: int, j: int|
        0 <= i < s.len() && 0 <= j < s.len() && i != j ==> #[trigger] s[i].owner != #[trigger] s[j].owner
}

/// The entities of `s`, keyed by owner.
pub open spec fn players_of(s: Seq<PlayerEntity>) -> Map<u64, PlayerEntity> {
    Map::new(
        |id: u64| owns(s, id),
        |id: u64| s[choose|i: int| 0 <= i < s.len() && #[trigger] s[i].owner == id],
    )
}

/// Every entity of the map is filed under its own owner.
pub open spec fn keyed_by_owner(m: Map<u64, PlayerEntity>) -> bool {
    forall|id: u64| #[trigger] m.contains_key(id) ==> m[id].owner == id
}

/// A connect spawns a player for a client that has none; a client that
/// already has one keeps it.
pub open spec fn connect_spec(m: Map<u64, PlayerEntity>, client_id: u64) -> Map<u64, PlayerEntity> {
    if m.contains_key(client_id) {
        m
    } else {
        m.insert(client_id, spawned(client_id))
    }
}

/// A disconnect removes the client's player, if any.
pub open spec fn disconnect_spec(m: Map<u64, PlayerEntity>, client_id: u64) -> Map<u64, PlayerEntity> {
    m.remove(client_id)
}

/// A command moves the player owned by its sender and nothing else; a
/// command from a client without a player changes nothing.
pub open spec fn move_spec(
    m: Map<u64, PlayerEntity>,
    client_id: u64,
    cmd: MoveCommand,
    elapsed_ms: u32,
) -> Map<u64, PlayerEntity> {
    if m.contains_key(client_id) {
        m.insert(
            client_id,
            PlayerEntity { position: moved(m[client_id].position, cmd, elapsed_ms), ..m[client_id] },
        )
    } else {
        m
    }
}

pub(crate) proof fn lemma_entry(s: Seq<PlayerEntity>, i: int)
    requires
        unique_owners(s),
        0 <= i < s.len(),
    ensures
        players_of(s).contains_key(s[i].owner),
        players_of(s)[s[i].owner] == s[i],
{
    let id = s[i].owner;
    assert(owns(s, id));
    let j = choose|j: int| 0 <= j < s.len() && #[trigger] s[j].owner == id;
    assert(j == i);
}

proof fn lemma_push(s: Seq<PlayerEntity>, e: PlayerEntity)
    requires
        unique_owners(s),
        !owns(s, e.owner),
    ensures
        unique_owners(s.push(e)),
        players_of(s.push(e)) == players_of(s).insert(e.owner, e),
{
    let t = s.push(e);
    assert forall|i: int, j: int|
        0 <= i < t.len() && 0 <= j < t.len() && i != j implies #[trigger] t[i].owner
        != #[trigger] t[j].owner by {
        if i < s.len() && j < s.len() {
            assert(s[i].owner != s[j].owner);
        } else if i < s.len() {
            assert(t[i] == s[i]);
        } else {
            assert(t[j] == s[j]);
        }
    }
    assert forall|id: u64| owns(t, id) <==> owns(s, id) || id == e.owner by {
        if owns(s, id) {
            let i = choose|i: int| 0 <= i < s.len() && #[trigger] s[i].owner == id;
            assert(t[i] == s[i]);
        }
        if id == e.owner {
            assert(t[s.len() as int] == e);
        }
        if owns(t, id) && id != e.owner {
            let i = choose|i: int| 0 <= i < t.len() && #[trigger] t[i].owner == id;
            assert(i < s.len());
            assert(s[i] == t[i]);
        }
    }
    assert forall|id: u64| #[trigger] players_of(t).contains_key(id) implies players_of(t)[id]
        == players_of(s).insert(e.owner, e)[id] by {
        if id == e.owner {
            lemma_entry(t, s.len() as int);
        } else {
            let i = choose|i: int| 0 <= i < s.len() && #[trigger] s[i].owner == id;
            lemma_entry(s, i);
            lemma_entry(t, i);
        }
    }
    assert(players_of(t) =~= players_of(s).insert(e.owner, e));
}

proof fn lemma_remove(s: Seq<PlayerEntity>, k: int)
    requires
        unique_owners(s),
        0 <= k < s.len(),
    ensures
        unique_owners(s.remove(k)),
        players_of(s.remove(k)) == players_of(s).remove(s[k].owner),
{
    let t = s.remove(k);
    let gone = s[k].owner;
    assert forall|i: int| 0 <= i < t.len() implies #[trigger] t[i] == s[if i < k { i } else { i + 1 }] by {}
    assert forall|i: int, j: int|
        0 <= i < t.len() && 0 <= j < t.len() && i != j implies #[trigger] t[i].owner
        != #[trigger] t[j].owner by {
        let a = if i < k { i } else { i + 1 };
        let b = if j < k { j } else { j + 1 };
        assert(t[i] == s[a]);
        assert(t[j] == s[b]);
    }
    assert forall|id: u64| owns(t, id) <==> owns(s, id) && id != gone by {
        if owns(t, id) {
            let i = choose|i: int| 0 <= i < t.len() && #[trigger] t[i].owner == id;
            let a = if i < k { i } else { i + 1 };
            assert(t[i] == s[a]);
            assert(a != k);
        }
        if owns(s, id) && id != gone {
            let a = choose|a: int| 0 <= a < s.len() && #[trigger] s[a].owner == id;
            assert(a != k);
            let i = if a < k { a } else { a - 1 };
            assert(t[i] == s[a]);
        }
    }
    assert forall|id: u64| #[trigger] players_of(t).contains_key(id) implies players_of(t)[id]
        == players_of(s).remove(gone)[id] by {
        let i = choose|i: int| 0 <= i < t.len() && #[trigger] t[i].owner == id;
        let a = if i < k { i } else { i + 1 };
        assert(t[i] == s[a]);
        lemma_entry(t, i);
        lemma_entry(s, a);
    }
    assert(players_of(t) =~= players_of(s).remove(gone));
}

proof fn lemma_update(s: Seq<PlayerEntity>, k: int, e: PlayerEntity)
    requires
        unique_owners(s),
        0 <= k < s.len(),
        e.owner == s[k].owner,
    ensures
        unique_owners(s.update(k, e)),
        players_of(s.update(k, e)) == players_of(s).insert(e.owner, e),
{
    let t = s.update(k, e);
    assert forall|i: int, j: int|
        0 <= i < t.len() && 0 <= j < t.len() && i != j implies #[trigger] t[i].owner
        != #[trigger] t[j].owner by {
        assert(t[i].owner == s[i].owner);
        assert(t[j].owner == s[j].owner);
    }
    assert forall|id: u64| owns(t, id) <==> owns(s, id) by {
        if owns(t, id) {
            let i = choose|i: int| 0 <= i < t.len() && #[trigger] t[i].owner == id;
            assert(s[i].owner == t[i].owner);
        }
        if owns(s, id) {
            let i = choose|i: int| 0 <= i < s.len() && #[trigger] s[i].owner == id;
            assert(s[i].owner == t[i].owner);
        }
    }
    assert forall|id: u64| #[trigger] players_of(t).contains_key(id) implies players_of(t)[id]
        == players_of(s).insert(e.owner, e)[id] by {
        let i = choose|i: int| 0 <= i < t.len() && #[trigger] t[i].owner == id;
        lemma_entry(t, i);
        if i != k {
            assert(t[i] == s[i]);
            lemma_entry(s, i);
        }
    }
    assert(players_of(t) =~= players_of(s).insert(e.owner, e));
}

/// The set of player entities, at most one per client.
pub struct WorldStore {
    entities: Vec<PlayerEntity>,
}

impl View for WorldStore {
    type V = Map<u64, PlayerEntity>;

    closed spec fn view(&self) -> Map<u64, PlayerEntity> {
        players_of(self.entities@)
    }
}

impl WorldStore {
    /// The entities in the order they were spawned.
    pub closed spec fn entities(&self) -> Seq<PlayerEntity> {
        self.entities@
    }

    /// No two entities share an owner, and the map view lists them all.
    pub open spec fn wf(&self) -> bool {
        &&& unique_owners(self.entities())
        &&& self@ == players_of(self.entities())
    }

    /// An empty world.
    pub fn new() -> (r: WorldStore)
        ensures
            r.wf(),
            r@ == Map::<u64, PlayerEntity>::empty(),
            r.entities().len() == 0,
    {
        let r = WorldStore { entities: Vec::new() };
        assert(r@ =~= Map::<u64, PlayerEntity>::empty());
        r
    }

    fn find(&self, client_id: u64) -> (r: Option<usize>)
        ensures
            match r {
                Some(i) => i < self.entities@.len() && self.entities@[i as int].owner == client_id,
                None => !owns(self.entities@, client_id),
            },
    {
        let mut i: usize = 0;
        while i < self.entities.len()
            invariant
                i <= self.entities@.len(),
                forall|j: int| 0 <= j < i ==> #[trigger] self.entities@[j].owner != client_id,
            decreases self.entities@.len() - i,
        {
            if self.entities[i].owner == client_id {
                return Some(i);
            }
            i += 1;
        }
        None
    }

    /// The player owned by `client_id`, if any.
    pub fn player(&self, client_id: u64) -> (r: Option<PlayerEntity>)
        requires
            self.wf(),
        ensures
            r == (if self@.contains_key(client_id) {
                Some(self@[client_id])
            } else {
                None
            }),
    {
        match self.find(client_id) {
            Some(i) => {
                proof {
                    lemma_entry(self.entities@, i as int);
                }
                Some(self.entities[i])
            },
            None => None,
        }
    }

    /// The number of players.
    pub fn len(&self) -> (r: usize)
        ensures
            r == self.entities().len(),
    {
        self.entities.len()
    }

    /// A copy of every player, in the order they were spawned.
    pub fn snapshot(&self) -> (r: Vec<PlayerEntity>)
        ensures
            r@ == self.entities(),
    {
        self.entities.clone()
    }

    /// Handles a connect: spawns a player at the origin with the client's
    /// color, unless the client already has one. Returns whether it spawned.
    pub fn connect(&mut self, client_id: u64) -> (r: bool)
        requires
            old(self).wf(),
        ensures
            final(self).wf(),
            final(self)@ == connect_spec(old(self)@, client_id),
            r == !old(self)@.contains_key(client_id),
    {
        match self.find(client_id) {
            Some(_) => false,
            None => {
                let e = PlayerEntity {
                    owner: client_id,
                    position: Position { x: 0, y: 0 },
                    color: derive_color(client_id),
                };
                proof {
                    lemma_push(self.entities@, e);
                }
                self.entities.push(e);
                true
            },
        }
    }

    /// Handles a disconnect: removes the client's player, if any. A
    /// disconnect for an unknown client is a no-op. Returns whether it removed.
    pub fn disconnect(&mut self, client_id: u64) -> (r: bool)
        requires
            old(self).wf(),
        ensures
            final(self).wf(),
            final(self)@ == disconnect_spec(old(self)@, client_id),
            r == old(self)@.contains_key(client_id),
    {
        match self.find(client_id) {
            Some(i) => {
                proof {
                    lemma_remove(self.entities@, i as int);
                }
                self.entities.remove(i);
                true
            },
            None => {
                assert(self@ =~= self@.remove(client_id));
                false
            },
        }
    }

    /// Applies a command from `client_id` to the player it owns; a command
    /// from a client without a player is dropped. Returns whether it applied.
    pub fn apply_command(&mut self, client_id: u64, cmd: MoveCommand, elapsed_ms: u32) -> (r: bool)
        requires
            old(self).wf(),
            cmd.wf(),
        ensures
            final(self).wf(),
            final(self)@ == move_spec(old(self)@, client_id, cmd, elapsed_ms),
            r == old(self)@.contains_key(client_id),
    {
        match self.find(client_id) {
            Some(i) => {
                let old_e = self.entities[i];
                let e = PlayerEntity {
                    position: integrate(old_e.position, cmd, elapsed_ms),
                    ..old_e
                };
                proof {
                    lemma_entry(self.entities@, i as int);
                    lemma_update(self.entities@, i as int, e);
                }
                self.entities.set(i, e);
                true
            },
            None => false,
        }
    }
}

} // verus!
