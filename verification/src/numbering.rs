//! The numbers of workspaces: places in the global order and in that of a
//! space.
use crate::growth::lemma_added_pool;
use crate::ids::rank_is_slot_then_version;
use crate::ids::SpaceId;
use crate::ids::VirtualWorkspaceId;
use crate::order::ascends;
use crate::order::lemma_listing_unique;
use crate::order::lemma_sorted;
use crate::order::lemma_sorted_unique;
use crate::order::lists;
use crate::order::Ranked;
use crate::relocation::global_order_survives_moves;
use crate::remapping::remapped_is_consistent;
use crate::sequences::lemma_filter;
use crate::sequences::lemma_push_contains;
use crate::soundness::added_is_consistent;
use crate::soundness::initialized_is_consistent;
use crate::soundness::lemma_started_entries;
use crate::soundness::listed_is_owned;
use crate::soundness::pool_is_everything;
use crate::state::least;
use crate::state::numbered_name;
use crate::state::StoreState;
use crate::workspace::WorkspaceState;
use vstd::prelude::*;

verus! {

/// The workspace with a global number has that number, and the number of a
/// workspace leads back to it.
pub proof fn global_number_round_trip(store: StoreState, index: int, id: VirtualWorkspaceId)
    requires
        store.consistent(),
    ensures
        0 <= index < store.global_ids().len() ==> store.global_ids().index_of_first(
            store.global_ids()[index],
        ) == Some(index),
        store.entries.contains_key(id) <==> store.global_ids().index_of_first(id) is Some,
        store.global_ids().index_of_first(id) matches Some(place) ==> 0 <= place
            < store.global_ids().len() && store.global_ids()[place] == id,
{
    let ids = store.global_ids();
    pool_is_everything(store);
    ids.index_of_first_ensures(id);
    if 0 <= index < ids.len() {
        ids.index_of_first_ensures(ids[index]);
        assert(ids.contains(ids[index]));
    }
}

/// The workspace with a number on a space has that number there, and the number
/// of a workspace of the space leads back to it.
pub proof fn local_number_round_trip(
    store: StoreState,
    space: SpaceId,
    index: int,
    id: VirtualWorkspaceId,
)
    requires
        store.consistent(),
    ensures
        0 <= index < store.owned_ids(space).len() ==> store.owned_ids(space).index_of_first(
            store.owned_ids(space)[index],
        ) == Some(index),
        store.owns(space, id) <==> store.owned_ids(space).index_of_first(id) is Some,
        store.owned_ids(space).index_of_first(id) matches Some(place) ==> 0 <= place
            < store.owned_ids(space).len() && store.owned_ids(space)[place] == id,
{
    let ids = store.owned_ids(space);
    listed_is_owned(store, space);
    ids.index_of_first_ensures(id);
    if 0 <= index < ids.len() {
        ids.index_of_first_ensures(ids[index]);
        assert(ids.contains(ids[index]));
    }
}

/// What a space shows has a number, in the pool and on the space.
pub proof fn active_workspace_has_numbers(store: StoreState, space: SpaceId)
    requires
        store.consistent(),
    ensures
        store.active_of(space) matches Some(active) ==> store.global_ids().index_of_first(
            active,
        ) is Some && store.owned_ids(space).index_of_first(active) is Some,
{
    if let Some(active) = store.active_of(space) {
        assert(store.active.contains_key(space.id));
        assert(store.by_space[space.id].contains(active));
        assert(store.owns(space, active));
        global_number_round_trip(store, 0, active);
        local_number_round_trip(store, space, 0, active);
    }
}

/// A workspace keeps its global number when it moves to another space, and when
/// another workspace is created.
pub proof fn global_number_is_for_life(
    store: StoreState,
    moved: VirtualWorkspaceId,
    new_space: SpaceId,
    id: VirtualWorkspaceId,
    entry: WorkspaceState,
)
    requires
        store.consistent(),
    ensures
        store.relocated(moved, new_space).global_ids().index_of_first(id)
            == store.global_ids().index_of_first(id),
        store.entries.contains_key(id) && store.upcoming.len() > 0 ==> store.added(
            entry,
        ).global_ids().index_of_first(id) == store.global_ids().index_of_first(id),
{
    global_order_survives_moves(store, moved, new_space);
    if store.entries.contains_key(id) && store.upcoming.len() > 0 {
        let ids = store.global_ids();
        let after = store.added(entry);
        new_workspace_comes_last(store, entry);
        added_is_consistent(store, entry);
        global_number_round_trip(store, 0, id);
        let place = ids.index_of_first(id)->0;
        global_number_round_trip(after, place, id);
        assert(after.global_ids()[place] == id);
    }
}

/// The order of identifiers is the order of creation: every workspace that is
/// there stands ahead of those to come, and these come in order.
pub proof fn order_is_that_of_creation(store: StoreState)
    requires
        store.consistent(),
    ensures
        ascends(store.upcoming),
        forall|id: VirtualWorkspaceId, i: int|
            store.entries.contains_key(id) && 0 <= i < store.upcoming.len() ==> #[trigger] id.rank()
                < (#[trigger] store.upcoming[i]).rank(),
{
    assert forall|i: int, j: int| 0 <= i < j < store.upcoming.len() implies (
    #[trigger] store.upcoming[i]).rank() < (#[trigger] store.upcoming[j]).rank() by {
        assert(store.upcoming[i].index() < store.upcoming[j].index());
        rank_is_slot_then_version(store.upcoming[i], store.upcoming[j]);
    }
    assert forall|id: VirtualWorkspaceId, i: int|
        store.entries.contains_key(id) && 0 <= i < store.upcoming.len() implies #[trigger] id.rank()
        < (#[trigger] store.upcoming[i]).rank() by {
        assert(id.index() < store.upcoming[i].index());
        rank_is_slot_then_version(id, store.upcoming[i]);
    }
}

/// Workspaces are numbered in the order of their creation: a new one comes last,
/// both in the global order and on its space, so all others keep their numbers.
pub proof fn new_workspace_comes_last(store: StoreState, entry: WorkspaceState)
    requires
        store.consistent(),
        store.upcoming.len() > 0,
    ensures
        store.added(entry).global_ids() == store.global_ids().push(store.upcoming[0]),
        store.added(entry).owned_ids(entry.space) == store.owned_ids(entry.space).push(
            store.upcoming[0],
        ),
{
    let id = store.upcoming[0];
    let after = store.added(entry);
    order_is_that_of_creation(store);
    added_is_consistent(store, entry);
    lemma_added_pool(store, entry);
    pool_is_everything(store);
    pool_is_everything(after);
    let ids = store.global_ids();
    assert(lists(ids.push(id), after.pool())) by {
        assert(ids.push(id).to_set() =~= after.pool()) by {
            assert forall|x: VirtualWorkspaceId| ids.push(id).to_set().contains(x)
                <==> after.pool().contains(x) by {
                lemma_push_contains(ids, id, x);
                assert(ids.contains(x) <==> store.entries.contains_key(x));
            }
        }
        assert(ascends(ids.push(id))) by {
            assert forall|i: int, j: int| 0 <= i < j < ids.push(id).len() implies (
            #[trigger] ids.push(id)[i]).rank() < (#[trigger] ids.push(id)[j]).rank() by {
                if j == ids.len() {
                    assert(ids.contains(ids[i]));
                    assert(ids[i].rank() < store.upcoming[0].rank());
                } else {
                    assert(ids[i].rank() < ids[j].rank());
                }
            }
        }
    }
    lemma_listing_unique(ids.push(id), after.pool());
    let space = entry.space;
    let list = store.list_of(space);
    let local = store.owned_ids(space);
    listed_is_owned(store, space);
    listed_is_owned(after, space);
    lemma_sorted(list);
    assert(local.push(id).to_multiset() =~= list.push(id).to_multiset()) by {
        broadcast use vstd::seq_lib::group_to_multiset_ensures;

    }
    assert(crate::order::in_order(local.push(id))) by {
        assert forall|i: int, j: int| 0 <= i < j < local.push(id).len() implies (
        #[trigger] local.push(id)[i]).rank() <= (#[trigger] local.push(id)[j]).rank() by {
            if j == local.len() {
                assert(local.contains(local[i]));
                assert(local[i].rank() < store.upcoming[0].rank());
            } else {
                assert(local[i].rank() < local[j].rank());
            }
        }
    }
    lemma_sorted_unique(list.push(id), local.push(id));
}

/// Accepts the workspaces that another space has.
pub open spec fn elsewhere(store: StoreState, space: SpaceId) -> spec_fn(
    VirtualWorkspaceId,
) -> bool {
    |id: VirtualWorkspaceId| !store.owns(space, id)
}

/// When one space takes over what another had, the workspaces that are left stay
/// in order, and those to come are the same: the number of a workspace only
/// falls by the number of those ahead of it that are gone.
pub proof fn remap_keeps_the_order(store: StoreState, old_space: SpaceId, new_space: SpaceId)
    requires
        store.consistent(),
    ensures
        store.remapped(old_space, new_space).upcoming == store.upcoming,
        old_space != new_space && store.by_space.contains_key(old_space.id)
            ==> store.remapped(old_space, new_space).global_ids() == store.global_ids().filter(
            elsewhere(store, new_space),
        ) && store.remapped(old_space, new_space).owned_ids(new_space) == store.owned_ids(
            old_space,
        ),
        forall|space: SpaceId|
            space != old_space && space != new_space ==> #[trigger] store.remapped(
                old_space,
                new_space,
            ).owned_ids(space) == store.owned_ids(space),
{
    let after = store.remapped(old_space, new_space);
    remapped_is_consistent(store, old_space, new_space);
    pool_is_everything(store);
    pool_is_everything(after);
    if old_space != new_space && store.by_space.contains_key(old_space.id) {
        let ids = store.global_ids();
        let kept = ids.filter(elsewhere(store, new_space));
        lemma_filter(ids, elsewhere(store, new_space));
        lemma_filter_ascends(ids, elsewhere(store, new_space));
        assert(kept.to_set() =~= after.pool()) by {
            assert forall|id: VirtualWorkspaceId| kept.to_set().contains(id)
                <==> after.pool().contains(id) by {
                assert(kept.contains(id) <==> ids.contains(id) && !store.owns(new_space, id));
                assert(ids.contains(id) <==> store.entries.contains_key(id));
                assert(after.pool().contains(id) <==> after.entries.contains_key(id));
            }
        }
        lemma_listing_unique(kept, after.pool());
        assert forall|space: SpaceId|
            space != old_space && space != new_space implies #[trigger] after.owned_ids(space)
            == store.owned_ids(space) by {
            listed_is_owned(store, space);
            listed_is_owned(after, space);
            assert(after.list_of(space) == store.list_of(space));
        }
    }
}

/// What is left of an ascending sequence ascends.
pub proof fn lemma_filter_ascends(ids: Seq<VirtualWorkspaceId>, wanted: spec_fn(VirtualWorkspaceId) -> bool)
    requires
        ascends(ids),
    ensures
        ascends(ids.filter(wanted)),
    decreases ids.len(),
{
    reveal(Seq::filter);
    if ids.len() > 0 {
        let fewer = ids.drop_last();
        lemma_filter_ascends(fewer, wanted);
        lemma_filter(fewer, wanted);
        let kept = ids.filter(wanted);
        assert forall|i: int, j: int| 0 <= i < j < kept.len() implies (#[trigger] kept[i]).rank() < (
        #[trigger] kept[j]).rank() by {
            if wanted(ids.last()) && j == kept.len() - 1 {
                assert(fewer.filter(wanted).contains(kept[i]));
                assert(fewer.contains(kept[i]));
                let k = choose|k: int| 0 <= k < fewer.len() && fewer[k] == kept[i];
                assert(ids[k].rank() < ids[ids.len() - 1].rank());
            } else {
                assert(fewer.filter(wanted)[i].rank() < fewer.filter(wanted)[j].rank());
            }
        }
    }
}

/// A new space that gets its own workspaces has as many as the settings ask
/// for, all new, under the settings' names or numbered ones, in the order of
/// creation. It shows the default one and remembers none. All other workspaces
/// and spaces stay as they were, and making an entry once more changes nothing.
pub proof fn new_space_shows_its_default(store: StoreState, space: SpaceId)
    requires
        store.consistent(),
        store.can_initialize(space),
        !store.by_space.contains_key(space.id),
        !store.settings.shared || store.entries.dom().is_empty(),
    ensures
        store.initialized(space).owned_ids(space).len() == store.settings.target_count(),
        forall|i: int|
            #![trigger store.initialized(space).owned_ids(space)[i]]
            0 <= i < store.settings.target_count() ==> {
                let id = store.initialized(space).owned_ids(space)[i];
                let name = if i < store.settings.workspace_names.len() {
                    store.settings.workspace_names[i]
                } else {
                    numbered_name((i + 1) as nat)
                };
                &&& !store.entries.contains_key(id)
                &&& store.initialized(space).entries.contains_key(id)
                &&& store.initialized(space).entries[id].name == name
                &&& store.initialized(space).entries[id] == store.settings.fresh(
                    space,
                    i as nat,
                    name,
                )
            },
        store.initialized(space).active_of(space) == Some(
            store.initialized(space).owned_ids(space)[least(
                store.settings.default_workspace,
                (store.settings.target_count() - 1) as nat,
            ) as int],
        ),
        store.initialized(space).previous_of(space) is None,
        forall|id: VirtualWorkspaceId| #[trigger]
            store.entries.contains_key(id) ==> store.initialized(space).entries.contains_key(id)
                && store.initialized(space).entries[id] == store.entries[id],
        forall|other: SpaceId|
            other != space ==> #[trigger] store.initialized(space).list_of(other) == store.list_of(
                other,
            ) && store.initialized(space).active_of(other) == store.active_of(other)
                && store.initialized(space).previous_of(other) == store.previous_of(other),
        store.initialized(space).global_ids() == store.global_ids() + store.initialized(
            space,
        ).owned_ids(space),
        store.initialized(space).initialized(space) == store.initialized(space),
{
    let after = store.initialized(space);
    let count = store.settings.target_count();
    let ids = store.upcoming.take(count as int);
    order_is_that_of_creation(store);
    initialized_is_consistent(store, space);
    listed_is_owned(after, space);
    lemma_started_entries(store, space, count);
    crate::creation::lemma_started(store, space, count);
    assert(crate::order::in_order(ids)) by {
        assert forall|i: int, j: int| 0 <= i < j < ids.len() implies (#[trigger] ids[i]).rank() <= (
        #[trigger] ids[j]).rank() by {
            assert(store.upcoming[i].rank() < store.upcoming[j].rank());
        }
    }
    lemma_sorted_unique(ids, ids);
    assert(after.owned_ids(space) == ids);
    assert forall|i: int| 0 <= i < count implies !store.entries.contains_key(
        #[trigger] after.owned_ids(space)[i],
    ) && after.entries.contains_key(after.owned_ids(space)[i]) && after.entries[after.owned_ids(
        space,
    )[i]] == store.settings.fresh(space, i as nat, store.starting_name(i as nat)) by {
        assert(ids[i] == store.upcoming[i]);
        assert(ids.contains(ids[i]));
        if store.entries.contains_key(ids[i]) {
            assert(ids[i].rank() < store.upcoming[i].rank());
        }
    }
    pool_is_everything(store);
    pool_is_everything(after);
    let all = store.global_ids() + ids;
    assert(all.to_set() =~= after.pool()) by {
        assert forall|id: VirtualWorkspaceId| all.to_set().contains(id) <==> after.pool().contains(
            id,
        ) by {
            assert(after.pool().contains(id) <==> after.entries.contains_key(id));
            assert(store.global_ids().contains(id) <==> store.entries.contains_key(id));
            assert(all.contains(id) <==> store.global_ids().contains(id) || ids.contains(id)) by {
                if store.global_ids().contains(id) {
                    let k = choose|k: int|
                        0 <= k < store.global_ids().len() && store.global_ids()[k] == id;
                    assert(all[k] == id);
                }
                if ids.contains(id) {
                    let k = choose|k: int| 0 <= k < ids.len() && ids[k] == id;
                    assert(all[store.global_ids().len() + k] == id);
                }
            }
        }
    }
    assert(ascends(all)) by {
        assert forall|i: int, j: int| 0 <= i < j < all.len() implies (#[trigger] all[i]).rank() < (
        #[trigger] all[j]).rank() by {
            let n = store.global_ids().len();
            if j < n {
                assert(store.global_ids()[i].rank() < store.global_ids()[j].rank());
            } else if i < n {
                assert(store.global_ids().contains(all[i]));
                assert(all[i].rank() < store.upcoming[j - n].rank());
            } else {
                assert(store.upcoming[i - n].rank() < store.upcoming[j - n].rank());
            }
        }
    }
    lemma_listing_unique(all, after.pool());
}

/// A pool that is filled up grows at its end, in the order in which the settings
/// name workspaces, wherever its home is.
pub proof fn pool_grows_at_its_end(store: StoreState, home: SpaceId, first: nat, count: nat)
    requires
        store.consistent(),
        store.upcoming.len() >= count,
    ensures
        store.pushed_from(home, first, count).global_ids() == store.global_ids()
            + store.upcoming.take(count as int),
    decreases count,
{
    if count == 0 {
        assert(store.global_ids() + store.upcoming.take(0) =~= store.global_ids());
    } else {
        let fewer = (count - 1) as nat;
        pool_grows_at_its_end(store, home, first, fewer);
        crate::soundness::pushed_is_consistent(store, home, first, fewer);
        crate::growth::lemma_pushed_from(store, home, first, fewer);
        let before = store.pushed_from(home, first, fewer);
        let index = (first + count - 1) as nat;
        let entry = before.settings.fresh(home, index, before.default_name(index));
        new_workspace_comes_last(before, entry);
        let added = before.added(entry);
        let after = store.pushed_from(home, first, count);
        assert(after.entries == added.entries && after.by_space == added.by_space
            && after.upcoming == added.upcoming);
        assert(before.upcoming[0] == store.upcoming[fewer as int]);
        assert(after.global_ids() =~= store.global_ids() + store.upcoming.take(count as int));
    }
}

impl StoreState {
    /// How many workspaces the given spaces list.
    pub open spec fn listed_count(self, keys: Seq<u64>) -> nat
        decreases keys.len(),
    {
        if keys.len() == 0 {
            0
        } else {
            self.listed_count(keys.drop_last()) + self.by_space[keys.last()].len()
        }
    }
}

/// The workspaces of the given spaces are as many as these spaces list.
proof fn lemma_listed_count(store: StoreState, keys: Seq<u64>) -> (ids: Set<VirtualWorkspaceId>)
    requires
        store.consistent(),
        keys.no_duplicates(),
        forall|key: u64| #[trigger] keys.contains(key) ==> store.by_space.contains_key(key),
    ensures
        ids.finite(),
        ids.len() == store.listed_count(keys),
        forall|id: VirtualWorkspaceId| #[trigger]
            ids.contains(id) <==> store.entries.contains_key(id) && keys.contains(
                store.entries[id].space.id,
            ),
    decreases keys.len(),
{
    if keys.len() == 0 {
        Set::empty()
    } else {
        let fewer = keys.drop_last();
        let key = keys.last();
        let space = SpaceId { id: key };
        assert(keys =~= fewer.push(key));
        assert forall|k: u64| #[trigger] keys.contains(k) <==> fewer.contains(k) || k == key by {
            lemma_push_contains(fewer, key, k);
        }
        assert forall|k: u64| #[trigger] fewer.contains(k) implies store.by_space.contains_key(
            k,
        ) by {
            assert(keys.contains(k));
        }
        let before = lemma_listed_count(store, fewer);
        assert(keys.contains(key));
        let list = store.by_space[key];
        assert(list.no_duplicates());
        listed_is_owned(store, space);
        list.unique_seq_to_set();
        vstd::seq_lib::seq_to_set_is_finite(list);
        assert(!fewer.contains(key));
        assert forall|id: VirtualWorkspaceId| list.to_set().contains(id) <==> store.owns(
            space,
            id,
        ) by {
            assert(store.list_of(space).contains(id) <==> store.owns(space, id));
        }
        assert(before.disjoint(list.to_set()));
        vstd::set_lib::lemma_set_disjoint_lens(before, list.to_set());
        before.union(list.to_set())
    }
}

/// The pool is divided among the spaces: every workspace is listed under exactly
/// one, and the lists together are as long as the pool.
pub proof fn spaces_divide_the_pool(store: StoreState, id: VirtualWorkspaceId, key: u64)
    requires
        store.consistent(),
    ensures
        store.by_space.contains_key(key) && store.by_space[key].contains(id)
            <==> store.entries.contains_key(id) && store.entries[id].space.id == key,
        store.listed_count(crate::order::listing(store.by_space.dom())) == store.global_ids().len(),
{
    listed_is_owned(store, SpaceId { id: key });
    assert(store.list_of(SpaceId { id: key }).contains(id) <==> store.owns(
        SpaceId { id: key },
        id,
    ));
    let keys = crate::order::listing(store.by_space.dom());
    crate::order::lemma_listing(store.by_space.dom());
    let ids = lemma_listed_count(store, keys);
    pool_is_everything(store);
    assert(ids =~= store.entries.dom()) by {
        assert forall|x: VirtualWorkspaceId| ids.contains(x) <==> store.entries.dom().contains(
            x,
        ) by {
            if store.entries.contains_key(x) {
                assert(keys.contains(store.entries[x].space.id));
            }
        }
    }
}

} // verus!
