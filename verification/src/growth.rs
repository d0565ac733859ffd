//! How a store grows as workspaces are added, and what stays as it was.
use crate::ids::SpaceId;
use crate::ids::VirtualWorkspaceId;
use crate::order::lemma_listing;
use crate::sequences::lemma_push_contains;
use crate::state::StoreState;
use crate::workspace::WorkspaceState;
use vstd::prelude::*;

verus! {

/// A new workspace is one more of the pool.
pub proof fn lemma_added_pool(store: StoreState, entry: WorkspaceState)
    requires
        !store.entries.contains_key(store.upcoming[0]),
    ensures
        store.added(entry).pool() == store.pool().insert(store.upcoming[0]),
        !store.pool().contains(store.upcoming[0]),
        store.pool().finite() ==> store.added(entry).global_ids().len() == store.global_ids().len()
            + 1,
{
    let id = store.upcoming[0];
    let after = store.added(entry);
    let list = store.list_of(entry.space);
    assert forall|x: VirtualWorkspaceId| after.pool().contains(x) <==> store.pool().insert(
        id,
    ).contains(x) by {
        if after.pool().contains(x) && x != id {
            let key = choose|key: u64|
                after.by_space.contains_key(key) && (#[trigger] after.by_space[key]).contains(x);
            if key == entry.space.id {
                lemma_push_contains(list, id, x);
                assert(store.by_space[key].contains(x));
            } else {
                assert(store.by_space[key].contains(x));
            }
            assert(store.listed(x));
        }
        if store.pool().contains(x) {
            let key = choose|key: u64|
                store.by_space.contains_key(key) && (#[trigger] store.by_space[key]).contains(x);
            if key == entry.space.id {
                lemma_push_contains(list, id, x);
            }
            assert(after.by_space[key].contains(x));
            assert(after.listed(x));
        }
        if x == id {
            lemma_push_contains(list, id, id);
            assert(after.by_space[entry.space.id].contains(id));
            assert(after.listed(x));
        }
    }
    assert(after.pool() =~= store.pool().insert(id));
    if store.pool().finite() {
        lemma_listing(store.pool());
        lemma_listing(after.pool());
    }
}

/// Adding workspaces to one space takes identifiers in order, and leaves the
/// settings and the other spaces alone.
pub proof fn lemma_pushed_from(store: StoreState, space: SpaceId, first: nat, count: nat)
    requires
        store.upcoming.len() >= count,
    ensures
        store.pushed_from(space, first, count).upcoming == store.upcoming.skip(count as int),
        store.pushed_from(space, first, count).settings == store.settings,
        store.pushed_from(space, first, count).active == store.active,
        store.pushed_from(space, first, count).last_global == store.last_global,
        store.pushed_from(space, first, count).counter == store.counter + store.settings.unnamed(
            first,
            count,
        ),
        store.pushed_from(space, first, count).list_of(space) == store.list_of(space)
            + store.upcoming.take(count as int),
        forall|key: u64|
            key != space.id ==> (#[trigger] store.pushed_from(
                space,
                first,
                count,
            ).by_space.contains_key(key) <==> store.by_space.contains_key(key)),
        forall|key: u64|
            key != space.id ==> #[trigger] store.pushed_from(space, first, count).by_space[key]
                == store.by_space[key],
        store.by_space.contains_key(space.id) || count > 0 ==> store.pushed_from(
            space,
            first,
            count,
        ).by_space.contains_key(space.id),
    decreases count,
{
    if count == 0 {
        assert(store.upcoming.skip(0) =~= store.upcoming);
        assert(store.list_of(space) + store.upcoming.take(0) =~= store.list_of(space));
    } else {
        let fewer = (count - 1) as nat;
        lemma_pushed_from(store, space, first, fewer);
        let before = store.pushed_from(space, first, fewer);
        assert(before.upcoming[0] == store.upcoming[fewer as int]);
        assert(before.upcoming.drop_first() =~= store.upcoming.skip(count as int));
        assert(before.list_of(space).push(before.upcoming[0]) =~= store.list_of(space)
            + store.upcoming.take(count as int));
    }
}

/// Naming workspaces changes nothing but their names.
pub proof fn lemma_renamed(store: StoreState, ids: Seq<VirtualWorkspaceId>, count: nat)
    requires
        count <= ids.len(),
    ensures
        store.renamed(ids, count).entries.dom() == store.entries.dom(),
        forall|id: VirtualWorkspaceId| #[trigger]
            store.entries.contains_key(id) ==> store.renamed(ids, count).entries[id]
                == store.entries[id].named(store.renamed(ids, count).entries[id].name),
        store.renamed(ids, count) == (StoreState {
            entries: store.renamed(ids, count).entries,
            ..store
        }),
    decreases count,
{
    if count > 0 {
        lemma_renamed(store, ids, (count - 1) as nat);
        assert(store.renamed(ids, count).entries.dom() =~= store.entries.dom());
    }
}

/// Settling some spaces leaves the settings and the other spaces alone, and
/// takes as many identifiers as workspaces were missing.
pub proof fn lemma_spaces_settled(store: StoreState, keys: Seq<u64>)
    requires
        keys.no_duplicates(),
        forall|key: u64| #[trigger] keys.contains(key) ==> store.by_space.contains_key(key),
        store.upcoming.len() >= store.spaces_shortfall(keys),
    ensures
        store.spaces_settled(keys).upcoming == store.upcoming.skip(
            store.spaces_shortfall(keys) as int,
        ),
        store.spaces_settled(keys).settings == store.settings,
        store.spaces_settled(keys).active == store.active,
        store.spaces_settled(keys).last_global == store.last_global,
        store.spaces_settled(keys).counter == store.counter + store.spaces_unnamed(keys),
        store.spaces_settled(keys).by_space.dom() == store.by_space.dom(),
        forall|key: u64|
            !keys.contains(key) ==> #[trigger] store.spaces_settled(keys).by_space[key]
                == store.by_space[key],
        forall|key: u64| #[trigger]
            keys.contains(key) ==> store.spaces_settled(keys).by_space[key].len()
                >= store.settings.target_count(),
    decreases keys.len(),
{
    if keys.len() == 0 {
        assert(store.upcoming.skip(0) =~= store.upcoming);
    } else {
        let fewer = keys.drop_last();
        let key = keys.last();
        let space = SpaceId { id: key };
        assert(keys =~= fewer.push(key));
        assert forall|k: u64| #[trigger] keys.contains(k) <==> fewer.contains(k) || k == key by {
            lemma_push_contains(fewer, key, k);
        }
        assert forall|k: u64| #[trigger] fewer.contains(k) implies store.by_space.contains_key(
            k,
        ) by {
            assert(keys.contains(k));
        }
        assert(keys.contains(key));
        lemma_spaces_settled(store, fewer);
        let before = store.spaces_settled(fewer);
        let list = before.list_of(space);
        assert(!fewer.contains(key));
        assert(before.by_space.contains_key(key));
        assert(before.by_space[key] == store.by_space[key]);
        lemma_renamed(before, list, list.len());
        let renamed = before.renamed(list, list.len());
        let count = before.space_shortfall(space);
        assert(count == store.space_shortfall(space));
        lemma_pushed_from(renamed, space, list.len(), count);
        let after = before.space_settled(space);
        assert(after.upcoming =~= store.upcoming.skip(store.spaces_shortfall(keys) as int));
        assert(after.by_space.dom() =~= store.by_space.dom()) by {
            assert forall|k: u64| after.by_space.dom().contains(k)
                <==> store.by_space.dom().contains(k) by {
                assert(after.by_space.contains_key(k) <==> store.by_space.contains_key(k)) by {
                    if k != key {
                        assert(renamed.by_space.contains_key(k) == before.by_space.contains_key(k));
                    }
                }
            }
        }
        assert forall|k: u64| !keys.contains(k) implies #[trigger] after.by_space[k]
            == store.by_space[k] by {
            assert(renamed.by_space[k] == before.by_space[k]);
        }
        assert forall|k: u64| #[trigger] keys.contains(k) implies after.by_space[k].len()
            >= store.settings.target_count() by {
            if k != key {
                assert(renamed.by_space[k] == before.by_space[k]);
                assert(after.by_space[k] == renamed.by_space[k]);
            } else {
                assert(after.list_of(space) == list + renamed.upcoming.take(count as int));
            }
        }
    }
}

/// Fewer spaces lack no more workspaces, nor more that have no name.
pub proof fn lemma_shortfall_of_first(store: StoreState, keys: Seq<u64>, n: int)
    requires
        0 <= n <= keys.len(),
    ensures
        store.spaces_shortfall(keys.take(n)) <= store.spaces_shortfall(keys),
        store.spaces_unnamed(keys.take(n)) <= store.spaces_unnamed(keys),
    decreases keys.len() - n,
{
    if n == keys.len() {
        assert(keys.take(n) =~= keys);
    } else {
        lemma_shortfall_of_first(store, keys, n + 1);
        assert(keys.take(n + 1).drop_last() =~= keys.take(n));
    }
}

} // verus!
