//! What a change of settings guarantees.
use crate::growth::lemma_pushed_from;
use crate::growth::lemma_renamed;
use crate::growth::lemma_spaces_settled;
use crate::ids::SpaceId;
use crate::ids::VirtualWorkspaceId;
use crate::layout::LayoutSettings;
use crate::order::lemma_listing;
use crate::order::listing;
use crate::sequences::lemma_push_contains;
use crate::settings::VirtualWorkspaceSettings;
use crate::soundness::listed_is_owned;
use crate::soundness::pool_is_everything;
use crate::soundness::pushed_is_consistent;
use crate::soundness::renamed_is_consistent;
use crate::soundness::settled_is_consistent;
use crate::state::StoreState;
use vstd::prelude::*;

verus! {

/// Naming workspaces by place gives each the settings' name for its place, and
/// leaves all others alone.
pub proof fn lemma_names_given(store: StoreState, ids: Seq<VirtualWorkspaceId>, count: nat)
    requires
        count <= ids.len(),
        ids.no_duplicates(),
        forall|id: VirtualWorkspaceId| #[trigger] ids.contains(id) ==> store.entries.contains_key(id),
    ensures
        forall|i: int|
            0 <= i < count && i < store.settings.workspace_names.len() ==> store.renamed(
                ids,
                count,
            ).entries[#[trigger] ids[i]].name == store.settings.workspace_names[i],
        forall|id: VirtualWorkspaceId| #[trigger]
            store.entries.contains_key(id) && !ids.take(count as int).contains(id)
                ==> store.renamed(ids, count).entries[id] == store.entries[id],
    decreases count,
{
    if count > 0 {
        let fewer = (count - 1) as nat;
        let id = ids[fewer as int];
        lemma_names_given(store, ids, fewer);
        lemma_renamed(store, ids, fewer);
        let before = store.renamed(ids, fewer);
        let after = store.renamed(ids, count);
        assert(ids.contains(id));
        assert(before.entries.dom().contains(id));
        assert(ids.take(count as int) =~= ids.take(fewer as int).push(id));
        assert forall|i: int|
            0 <= i < count && i < store.settings.workspace_names.len() implies after.entries[
            #[trigger] ids[i]
        ].name == store.settings.workspace_names[i] by {
            if i < fewer {
                assert(ids[i] != ids[fewer as int]);
            }
        }
        assert forall|x: VirtualWorkspaceId| #[trigger]
            store.entries.contains_key(x) && !ids.take(count as int).contains(
                x,
            ) implies after.entries[x] == store.entries[x] by {
            lemma_push_contains(ids.take(fewer as int), id, x);
        }
    }
}

/// Workspaces that are added by place get the settings' names for their places.
proof fn lemma_names_pushed(store: StoreState, space: SpaceId, first: nat, count: nat)
    requires
        store.consistent(),
        store.upcoming.len() >= count,
    ensures
        forall|i: int|
            0 <= i < count && first + i < store.settings.workspace_names.len()
                ==> store.pushed_from(space, first, count).entries[#[trigger] store.upcoming[i]].name
                == store.settings.workspace_names[first + i],
    decreases count,
{
    if count > 0 {
        let fewer = (count - 1) as nat;
        lemma_names_pushed(store, space, first, fewer);
        lemma_pushed_from(store, space, first, fewer);
        let before = store.pushed_from(space, first, fewer);
        let after = store.pushed_from(space, first, count);
        assert(before.upcoming[0] == store.upcoming[fewer as int]);
        assert forall|i: int|
            0 <= i < count && first + i
                < store.settings.workspace_names.len() implies after.entries[
            #[trigger] store.upcoming[i]
        ].name == store.settings.workspace_names[first + i] by {
            if i < fewer {
                assert(store.upcoming[i].index() != store.upcoming[fewer as int].index());
            }
        }
    }
}

/// Settling one space of a consistent store gives it the settings' names and
/// count, and leaves the workspaces of the others alone.
proof fn lemma_space_settled(store: StoreState, space: SpaceId)
    requires
        store.consistent(),
        store.by_space.contains_key(space.id),
        store.upcoming.len() >= store.space_shortfall(space),
    ensures
        store.space_settled(space).consistent(),
        store.space_settled(space).names_in_place(space.id),
        forall|id: VirtualWorkspaceId| #[trigger]
            store.entries.contains_key(id) && store.entries[id].space != space
                ==> store.space_settled(space).entries[id] == store.entries[id],
{
    let list = store.list_of(space);
    let count = store.space_shortfall(space);
    listed_is_owned(store, space);
    assert(list.no_duplicates());
    lemma_renamed(store, list, list.len());
    lemma_names_given(store, list, list.len());
    renamed_is_consistent(store, list, list.len());
    let renamed = store.renamed(list, list.len());
    pushed_is_consistent(renamed, space, list.len(), count);
    lemma_pushed_from(renamed, space, list.len(), count);
    lemma_names_pushed(renamed, space, list.len(), count);
    let after = store.space_settled(space);
    let longer = after.by_space[space.id];
    assert(longer == list + renamed.upcoming.take(count as int));
    assert(list.take(list.len() as int) =~= list);
    assert forall|i: int| 0 <= i < longer.len() && i
        < after.settings.workspace_names.len() implies after.entries[#[trigger] longer[i]].name
        == after.settings.workspace_names[i] by {
        if i < list.len() {
            assert(longer[i] == list[i]);
            assert(list.contains(list[i]));
            assert(renamed.entries.dom().contains(list[i]));
            assert(renamed.entries.contains_key(list[i]));
        } else {
            assert(longer[i] == renamed.upcoming[i - list.len()]);
        }
    }
    assert forall|id: VirtualWorkspaceId| #[trigger]
        store.entries.contains_key(id) && store.entries[id].space != space implies after.entries[id]
        == store.entries[id] by {
        assert(!list.contains(id));
        assert(renamed.entries.dom().contains(id));
        assert(renamed.entries.contains_key(id));
    }
}

impl StoreState {
    /// The workspaces that a space lists have the settings' names for their
    /// places.
    pub open spec fn names_in_place(self, key: u64) -> bool {
        forall|i: int|
            0 <= i < self.by_space[key].len() && i < self.settings.workspace_names.len()
                ==> self.entries[#[trigger] self.by_space[key][i]].name
                == self.settings.workspace_names[i]
    }
}

proof fn lemma_names_settled(store: StoreState, keys: Seq<u64>)
    requires
        store.consistent(),
        keys.no_duplicates(),
        forall|key: u64| #[trigger] keys.contains(key) ==> store.by_space.contains_key(key),
        store.upcoming.len() >= store.spaces_shortfall(keys),
    ensures
        store.spaces_settled(keys).consistent(),
        forall|key: u64| #[trigger]
            keys.contains(key) ==> store.spaces_settled(keys).names_in_place(key),
    decreases keys.len(),
{
    if keys.len() > 0 {
        let fewer = keys.drop_last();
        let key = keys.last();
        let space = SpaceId { id: key };
        assert(keys =~= fewer.push(key));
        assert forall|k: u64| #[trigger] keys.contains(k) <==> fewer.contains(k) || k == key by {
            lemma_push_contains(fewer, key, k);
        }
        assert forall|k: u64| #[trigger] fewer.contains(k) implies store.by_space.contains_key(
            k,
        ) by {
            assert(keys.contains(k));
        }
        assert(keys.contains(key));
        lemma_names_settled(store, fewer);
        lemma_spaces_settled(store, fewer);
        lemma_spaces_settled(store, keys);
        let before = store.spaces_settled(fewer);
        let after = store.spaces_settled(keys);
        assert(!fewer.contains(key));
        assert(before.by_space[key] == store.by_space[key]);
        assert(before.by_space.contains_key(key));
        lemma_space_settled(before, space);
        assert forall|k: u64| #[trigger] keys.contains(k) implies after.names_in_place(k) by {
            if k != key {
                assert(fewer.contains(k));
                assert(before.names_in_place(k));
                let list = before.by_space[k];
                let renamed = before.renamed(before.list_of(space), before.list_of(space).len());
                lemma_renamed(before, before.list_of(space), before.list_of(space).len());
                lemma_pushed_from(
                    renamed,
                    space,
                    before.list_of(space).len(),
                    before.space_shortfall(space),
                );
                assert(after.by_space[k] == renamed.by_space[k]);
                assert(after.by_space[k] == list);
                assert(store.by_space.contains_key(k));
                assert(before.by_space.dom().contains(k));
                assert forall|i: int| 0 <= i < after.by_space[k].len() && i
                    < after.settings.workspace_names.len() implies after.entries[
                    #[trigger] after.by_space[k][i]
                ].name == after.settings.workspace_names[i] by {
                    assert(list.contains(list[i]));
                    assert(before.by_space[k].contains(list[i]));
                    assert(before.owns(SpaceId { id: k }, list[i]));
                    assert(before.entries.contains_key(list[i]));
                }
            }
        }
    }
}

/// Where each space has its own workspaces, a change of settings leaves every
/// space with at least as many as the settings ask for, and the settings' names
/// hold: the workspace at a place has the name for that place.
pub proof fn settings_name_every_space(
    store: StoreState,
    config: VirtualWorkspaceSettings,
    layout_settings: LayoutSettings,
    key: u64,
)
    requires
        store.consistent(),
        !config.shared_across_displays,
        store.upcoming.len() >= store.under(config, layout_settings).shortfall(),
        store.by_space.contains_key(key),
    ensures
        ({
            let under = store.under(config, layout_settings);
            let after = under.settled();
            &&& after.by_space.dom() == store.by_space.dom()
            &&& after.by_space[key].len() >= under.settings.target_count()
            &&& after.settings == under.settings
            &&& after.names_in_place(key)
        }),
{
    let under = store.under(config, layout_settings);
    settled_is_consistent(store, config, layout_settings);
    let keys = listing(under.by_space.dom());
    assert(under.by_space.dom() =~= store.by_space.dom());
    lemma_listing(under.by_space.dom());
    lemma_spaces_settled(under, keys);
    lemma_names_settled(under, keys);
    assert(keys.contains(key));
}

/// Where displays share a pool, a change of settings leaves it with at least as
/// many workspaces as the settings ask for, if any space has an entry, and the
/// workspace with a global number has the settings' name for that number.
pub proof fn settings_name_the_pool(
    store: StoreState,
    config: VirtualWorkspaceSettings,
    layout_settings: LayoutSettings,
)
    requires
        store.consistent(),
        config.shared_across_displays,
        !store.by_space.dom().is_empty(),
        store.upcoming.len() >= store.under(config, layout_settings).shortfall(),
    ensures
        ({
            let under = store.under(config, layout_settings);
            let after = under.settled();
            &&& after.global_ids().len() >= under.settings.target_count()
            &&& after.settings == under.settings
            &&& forall|i: int|
                0 <= i < after.global_ids().len() && i < under.settings.workspace_names.len()
                    ==> after.entries[#[trigger] after.global_ids()[i]].name
                    == under.settings.workspace_names[i]
        }),
{
    let under = store.under(config, layout_settings);
    settled_is_consistent(store, config, layout_settings);
    let keys = listing(under.by_space.dom());
    assert(under.by_space.dom() =~= store.by_space.dom());
    lemma_listing(under.by_space.dom());
    assert(keys.len() > 0) by {
        let key = store.by_space.dom().choose();
        assert(store.by_space.dom().contains(key));
        assert(keys.contains(key));
    }
    let home = SpaceId { id: keys[0] };
    let first = under.global_ids().len();
    let count = under.pool_shortfall();
    pushed_is_consistent(under, home, first, count);
    lemma_pushed_from(under, home, first, count);
    let filled = under.pool_filled(home);
    let ids = filled.global_ids();
    pool_is_everything(filled);
    lemma_renamed(filled, ids, ids.len());
    lemma_names_given(filled, ids, ids.len());
    let after = under.settled();
    pool_is_everything(under);
    pool_is_everything(after);
    assert(after.entries.dom() == filled.entries.dom());
    crate::topology::lemma_pool_filled(under, home);
}

} // verus!
