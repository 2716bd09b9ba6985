use vstd::prelude::*;

use crate::world::{lemma_entry, owns, players_of, unique_owners, PlayerEntity};

verus! {

/// What one client is sent in one tick: the entities that are new or whose
/// replicated state changed since its last update, and the owners of the
/// entities that were removed since then.
#[derive(Debug)]
pub struct ReplicationUpdate {
    pub changed: Vec<PlayerEntity>,
    pub removed: Vec<u64>,
}

/// An entity of the current world is news to a client that last saw `known`
/// where it is not among `known`, as it stands now.
pub open spec fn is_news(known: Seq<PlayerEntity>) -> spec_fn(PlayerEntity) -> bool {
    |e: PlayerEntity| !known.contains(e)
}

/// An entity the client last saw is gone where `current` holds no entity of
/// its owner.
pub open spec fn is_gone(current: Seq<PlayerEntity>) -> spec_fn(PlayerEntity) -> bool {
    |e: PlayerEntity| !owns(current, e.owner)
}

/// The entities to send: those of `current` that the client has not seen as
/// they are now, in the order of `current`.
pub open spec fn changed_of(known: Seq<PlayerEntity>, current: Seq<PlayerEntity>) -> Seq<
    PlayerEntity,
> {
    current.filter(is_news(known))
}

/// The removals to send: the owners of the entities that the client saw and
/// that `current` no longer holds, in the order of `known`.
pub open spec fn removed_of(known: Seq<PlayerEntity>, current: Seq<PlayerEntity>) -> Seq<u64> {
    known.filter(is_gone(current)).map_values(|e: PlayerEntity| e.owner)
}

fn contains_entity(s: &Vec<PlayerEntity>, e: PlayerEntity) -> (r: bool)
    ensures
        r == s@.contains(e),
{
    let mut i: usize = 0;
    while i < s.len()
        invariant
            i <= s@.len(),
            forall|j: int| 0 <= j < i ==> s@[j] != e,
        decreases s@.len() - i,
    {
        if s[i] == e {
            return true;
        }
        i += 1;
    }
    false
}

pub(crate) fn has_owner(s: &Vec<PlayerEntity>, owner: u64) -> (r: bool)
    ensures
        r == owns(s@, owner),
{
    let mut i: usize = 0;
    while i < s.len()
        invariant
            i <= s@.len(),
            forall|j: int| 0 <= j < i ==> #[trigger] s@[j].owner != owner,
        decreases s@.len() - i,
    {
        if s[i].owner == owner {
            return true;
        }
        i += 1;
    }
    false
}

/// Computes the update for a client that last saw `known`, given the
/// current entities.
pub fn diff(known: &Vec<PlayerEntity>, current: &Vec<PlayerEntity>) -> (r: ReplicationUpdate)
    ensures
        r.changed@ == changed_of(known@, current@),
        r.removed@ == removed_of(known@, current@),
{
    let mut changed: Vec<PlayerEntity> = Vec::new();
    let mut i: usize = 0;
    while i < current.len()
        invariant
            i <= current@.len(),
            changed@ == current@.subrange(0, i as int).filter(is_news(known@)),
        decreases current@.len() - i,
    {
        proof {
            reveal(Seq::filter);
            assert(current@.subrange(0, i + 1).drop_last() =~= current@.subrange(0, i as int));
        }
        let e = current[i];
        if !contains_entity(known, e) {
            changed.push(e);
        }
        i += 1;
    }
    assert(current@.subrange(0, current@.len() as int) =~= current@);
    let mut removed: Vec<u64> = Vec::new();
    let mut j: usize = 0;
    while j < known.len()
        invariant
            j <= known@.len(),
            removed@ == known@.subrange(0, j as int).filter(is_gone(current@)).map_values(
                |e: PlayerEntity| e.owner,
            ),
        decreases known@.len() - j,
    {
        let e = known[j];
        proof {
            reveal(Seq::filter);
            let before = known@.subrange(0, j as int).filter(is_gone(current@));
            assert(known@.subrange(0, j + 1).drop_last() =~= known@.subrange(0, j as int));
            assert(before.push(e).map_values(|e: PlayerEntity| e.owner) =~= before.map_values(
                |e: PlayerEntity| e.owner,
            ).push(e.owner));
        }
        if !has_owner(current, e.owner) {
            removed.push(e.owner);
        }
        j += 1;
    }
    assert(known@.subrange(0, known@.len() as int) =~= known@);
    ReplicationUpdate { changed, removed }
}

proof fn lemma_filter_all<A>(s: Seq<A>, pred: spec_fn(A) -> bool)
    requires
        forall|i: int| 0 <= i < s.len() ==> pred(#[trigger] s[i]),
    ensures
        s.filter(pred) == s,
    decreases s.len(),
{
    reveal(Seq::filter);
    if s.len() > 0 {
        lemma_filter_all(s.drop_last(), pred);
        assert(s.drop_last().push(s.last()) =~= s);
    }
}

/// A client that has seen nothing yet is sent the full current snapshot
/// and no removal.
pub proof fn lemma_first_update_is_full_snapshot(current: Seq<PlayerEntity>)
    ensures
        changed_of(Seq::empty(), current) == current,
        removed_of(Seq::empty(), current) == Seq::<u64>::empty(),
{
    reveal(Seq::filter);
    lemma_filter_all(current, is_news(Seq::empty()));
    assert(removed_of(Seq::empty(), current) =~= Seq::<u64>::empty());
}

/// Every entity that the client saw and that is gone now is reported as a
/// removal, and only such entities are.
pub proof fn lemma_removals_are_reported(known: Seq<PlayerEntity>, current: Seq<PlayerEntity>)
    ensures
        forall|i: int|
            0 <= i < known.len() && !owns(current, #[trigger] known[i].owner) ==> removed_of(
                known,
                current,
            ).contains(known[i].owner),
        forall|id: u64| #[trigger] removed_of(known, current).contains(id) ==> !owns(current, id),
{
    broadcast use vstd::seq_lib::group_filter_ensures;

    let gone = known.filter(is_gone(current));
    assert forall|i: int|
        0 <= i < known.len() && !owns(current, #[trigger] known[i].owner) implies removed_of(
        known,
        current,
    ).contains(known[i].owner) by {
        known.lemma_filter_contains(is_gone(current), i);
        let k = choose|k: int| 0 <= k < gone.len() && gone[k] == known[i];
        assert(removed_of(known, current)[k] == known[i].owner);
    }
    assert forall|id: u64| #[trigger] removed_of(known, current).contains(id) implies !owns(
        current,
        id,
    ) by {
        let k = choose|k: int|
            0 <= k < removed_of(known, current).len() && removed_of(known, current)[k] == id;
        assert(is_gone(current)(gone[k]));
    }
}

/// Every entity of the current world that the client has not seen as it is
/// now is sent, and only such entities are.
pub proof fn lemma_changes_are_reported(known: Seq<PlayerEntity>, current: Seq<PlayerEntity>)
    ensures
        forall|i: int|
            0 <= i < current.len() && !known.contains(#[trigger] current[i]) ==> changed_of(
                known,
                current,
            ).contains(current[i]),
        forall|e: PlayerEntity| #[trigger]
            changed_of(known, current).contains(e) ==> current.contains(e) && !known.contains(e),
{
    broadcast use vstd::seq_lib::group_filter_ensures;

    assert forall|i: int|
        0 <= i < current.len() && !known.contains(#[trigger] current[i]) implies changed_of(
        known,
        current,
    ).contains(current[i]) by {
        current.lemma_filter_contains(is_news(known), i);
    }
    assert forall|e: PlayerEntity| #[trigger]
        changed_of(known, current).contains(e) implies current.contains(e) && !known.contains(
        e,
    ) by {
        current.lemma_filter_contains_rev(is_news(known), e);
        let k = choose|k: int|
            0 <= k < changed_of(known, current).len() && changed_of(known, current)[k] == e;
        assert(is_news(known)(changed_of(known, current)[k]));
    }
}

/// A client's view after it stores each entity of `s`, in order, under its owner.
pub open spec fn insert_all(m: Map<u64, PlayerEntity>, s: Seq<PlayerEntity>) -> Map<
    u64,
    PlayerEntity,
>
    decreases s.len(),
{
    if s.len() == 0 {
        m
    } else {
        insert_all(m, s.drop_last()).insert(s.last().owner, s.last())
    }
}

/// A client's view `m` after it applies an update: the removals first, then
/// the changed entities.
pub open spec fn apply_update(m: Map<u64, PlayerEntity>, changed: Seq<PlayerEntity>, removed: Seq<
    u64,
>) -> Map<u64, PlayerEntity> {
    insert_all(m.remove_keys(removed.to_set()), changed)
}

proof fn lemma_insert_all(m: Map<u64, PlayerEntity>, s: Seq<PlayerEntity>, id: u64)
    ensures
        owns(s, id) ==> insert_all(m, s).contains_key(id) && s.contains(insert_all(m, s)[id])
            && insert_all(m, s)[id].owner == id,
        !owns(s, id) ==> insert_all(m, s).contains_key(id) == m.contains_key(id) && insert_all(
            m,
            s,
        )[id] == m[id],
    decreases s.len(),
{
    if s.len() > 0 {
        let rest = s.drop_last();
        lemma_insert_all(m, rest, id);
        if s.last().owner != id {
            if owns(s, id) {
                let i = choose|i: int| 0 <= i < s.len() && #[trigger] s[i].owner == id;
                assert(rest[i] == s[i]);
                assert(owns(rest, id));
                let e = insert_all(m, rest)[id];
                let k = choose|k: int| 0 <= k < rest.len() && rest[k] == e;
                assert(s[k] == e);
            } else {
                assert forall|i: int| 0 <= i < rest.len() implies #[trigger] rest[i].owner != id by {
                    assert(s[i] == rest[i]);
                }
            }
        } else {
            assert(s[s.len() - 1] == s.last());
        }
    }
}

/// A client that applies the update computed from what it last saw ends up
/// with the current world: every entity as it is now, and none that is gone.
pub proof fn lemma_update_converges(known: Seq<PlayerEntity>, current: Seq<PlayerEntity>)
    requires
        unique_owners(known),
        unique_owners(current),
    ensures
        apply_update(
            players_of(known),
            changed_of(known, current),
            removed_of(known, current),
        ) == players_of(current),
{
    let changed = changed_of(known, current);
    let removed = removed_of(known, current);
    let base = players_of(known).remove_keys(removed.to_set());
    let result = apply_update(players_of(known), changed, removed);
    lemma_changes_are_reported(known, current);
    lemma_removals_are_reported(known, current);
    assert forall|id: u64|
        (#[trigger] result.contains_key(id) <==> players_of(current).contains_key(id)) && (
        result.contains_key(id) ==> result[id] == players_of(current)[id]) by {
        lemma_insert_all(base, changed, id);
        if owns(current, id) {
            let i = choose|i: int| 0 <= i < current.len() && #[trigger] current[i].owner == id;
            lemma_entry(current, i);
            if owns(changed, id) {
                let e = result[id];
                assert(current.contains(e));
                let j = choose|j: int| 0 <= j < current.len() && current[j] == e;
                assert(j == i);
            } else {
                if !known.contains(current[i]) {
                    let k = choose|k: int| 0 <= k < changed.len() && changed[k] == current[i];
                    assert(changed[k].owner == id);
                }
                let j = choose|j: int| 0 <= j < known.len() && known[j] == current[i];
                lemma_entry(known, j);
                assert(!removed.contains(id));
                assert(!removed.to_set().contains(id));
            }
        } else {
            if owns(changed, id) {
                let k = choose|k: int| 0 <= k < changed.len() && #[trigger] changed[k].owner == id;
                assert(changed.contains(changed[k]));
                let j = choose|j: int| 0 <= j < current.len() && current[j] == changed[k];
                assert(current[j].owner == id);
            }
            if owns(known, id) {
                let j = choose|j: int| 0 <= j < known.len() && #[trigger] known[j].owner == id;
                assert(removed.contains(known[j].owner));
                assert(removed.to_set().contains(id));
            }
        }
    }
    assert(result =~= players_of(current));
}

} // verus!
