//! The invariant of a workspace store, and that every operation keeps it.
use crate::creation::lemma_started;
use crate::growth::lemma_pushed_from;
use crate::growth::lemma_renamed;
use crate::ids::SpaceId;
use crate::ids::VirtualWorkspaceId;
use crate::order::lemma_listing;
use crate::order::lemma_sorted;
use crate::order::listing;
use crate::order::sorted;
use crate::sequences::lemma_filter_all;
use crate::sequences::lemma_push_contains;
use crate::state::StoreSettings;
use crate::state::StoreState;
use crate::workspace::WorkspaceState;
use vstd::prelude::*;

verus! {

impl StoreState {
    /// No two workspaces have one slot, slots to come are taken in ascending
    /// order, behind all that were taken, and each is one that can be taken.
    pub open spec fn slots_in_order(self) -> bool {
        &&& forall|a: VirtualWorkspaceId| #[trigger]
            self.entries.contains_key(a) ==> 1 <= a.index() <= 0xffff_fffe
        &&& forall|i: int|
            0 <= i < self.upcoming.len() ==> 1 <= (#[trigger] self.upcoming[i]).index()
                <= 0xffff_fffe
        &&& forall|a: VirtualWorkspaceId, b: VirtualWorkspaceId|
            #![trigger self.entries.contains_key(a), self.entries.contains_key(b)]
            self.entries.contains_key(a) && self.entries.contains_key(b) && a.index() == b.index()
                ==> a == b
        &&& forall|i: int, j: int|
            0 <= i < j < self.upcoming.len() ==> (#[trigger] self.upcoming[i]).index() < (
            #[trigger] self.upcoming[j]).index()
        &&& forall|a: VirtualWorkspaceId, i: int|
            self.entries.contains_key(a) && 0 <= i < self.upcoming.len() ==> #[trigger] a.index()
                < (#[trigger] self.upcoming[i]).index()
    }

    /// A space lists only workspaces that it has.
    pub open spec fn lists_owned(self) -> bool {
        forall|key: u64, id: VirtualWorkspaceId|
            self.by_space.contains_key(key) && #[trigger] self.by_space[key].contains(id)
                ==> self.owns(SpaceId { id: key }, id)
    }

    /// No space lists a workspace twice.
    pub open spec fn lists_distinct(self) -> bool {
        forall|key: u64|
            self.by_space.contains_key(key) ==> (#[trigger] self.by_space[key]).no_duplicates()
    }

    /// Every workspace is listed under its space.
    pub open spec fn all_listed(self) -> bool {
        forall|id: VirtualWorkspaceId| #[trigger]
            self.entries.contains_key(id) ==> self.by_space.contains_key(self.entries[id].space.id)
                && self.by_space[self.entries[id].space.id].contains(id)
    }

    /// A space shows and remembers only workspaces that it lists.
    pub open spec fn active_listed(self) -> bool {
        forall|key: u64| #[trigger]
            self.active.contains_key(key) ==> self.by_space.contains_key(key)
                && self.by_space[key].contains(self.active[key].1) && (
            self.active[key].0 matches Some(previous) ==> self.by_space[key].contains(previous))
    }

    /// Lists and spaces of workspaces agree, and slots are in order.
    pub open spec fn well_listed(self) -> bool {
        &&& self.entries.dom().finite()
        &&& self.by_space.dom().finite()
        &&& self.slots_in_order()
        &&& self.lists_owned()
        &&& self.lists_distinct()
        &&& self.all_listed()
    }

    /// Lists, spaces of workspaces and active workspaces agree, and slots are in
    /// order: a workspace that was created later has a later identifier.
    pub open spec fn consistent(self) -> bool {
        self.well_listed() && self.active_listed()
    }
}

impl StoreState {
    /// Every workspace of an earlier store is there, on the same space.
    pub open spec fn keeps(self, before: StoreState) -> bool {
        forall|id: VirtualWorkspaceId| #[trigger]
            before.entries.contains_key(id) ==> self.owns(before.entries[id].space, id)
    }
}

/// In a consistent store the workspaces that a space lists are those that it
/// has, and its order is that of its list, sorted.
pub proof fn listed_is_owned(store: StoreState, space: SpaceId)
    requires
        store.well_listed(),
    ensures
        forall|id: VirtualWorkspaceId| #[trigger]
            store.list_of(space).contains(id) <==> store.owns(space, id),
        store.owned_ids(space) == sorted(store.list_of(space)),
        store.owned_ids(space).len() == store.list_of(space).len(),
        store.owned_ids(space).no_duplicates(),
        crate::order::ascends(store.owned_ids(space)),
        forall|id: VirtualWorkspaceId| #[trigger]
            store.owned_ids(space).contains(id) <==> store.owns(space, id),
{
    let list = store.list_of(space);
    assert forall|id: VirtualWorkspaceId| #[trigger] list.contains(id) <==> store.owns(
        space,
        id,
    ) by {
        if list.contains(id) {
            assert(store.by_space.contains_key(space.id));
            assert(store.by_space[space.id].contains(id));
        }
        if store.owns(space, id) {
            assert(store.entries.contains_key(id));
        }
    }
    lemma_filter_all(list, store.owned_by(space));
    lemma_sorted(list);
    if store.by_space.contains_key(space.id) {
        assert(store.by_space[space.id].no_duplicates());
    }
    assert forall|id: VirtualWorkspaceId| #[trigger]
        store.owned_ids(space).contains(id) <==> store.owns(space, id) by {
        assert(store.owned_ids(space).contains(id) <==> list.contains(id));
    }
}

/// In a consistent store every workspace has a place in the global order.
pub proof fn pool_is_everything(store: StoreState)
    requires
        store.well_listed(),
    ensures
        store.pool() == store.entries.dom(),
        store.global_ids().len() == store.entries.dom().len(),
        store.global_ids().no_duplicates(),
        crate::order::ascends(store.global_ids()),
        forall|id: VirtualWorkspaceId| #[trigger]
            store.global_ids().contains(id) <==> store.entries.contains_key(id),
{
    assert forall|id: VirtualWorkspaceId| store.pool().contains(id)
        <==> store.entries.dom().contains(id) by {
        if store.entries.contains_key(id) {
            let key = store.entries[id].space.id;
            assert(store.by_space[key].contains(id));
            assert(store.listed(id));
        }
    }
    assert(store.pool() =~= store.entries.dom());
    lemma_listing(store.pool());
}

/// A new store is consistent.
pub proof fn empty_is_consistent(settings: StoreSettings)
    ensures
        StoreState::empty(settings).consistent(),
{
    let store = StoreState::empty(settings);
    assert forall|i: int, j: int| 0 <= i < j < store.upcoming.len() implies (
    #[trigger] store.upcoming[i]).index() < (#[trigger] store.upcoming[j]).index() by {
        crate::ids::identifier_of_slot(i + 1, 1);
        crate::ids::identifier_of_slot(j + 1, 1);
    }
    assert forall|i: int| 0 <= i < store.upcoming.len() implies 1 <= (
    #[trigger] store.upcoming[i]).index() <= 0xffff_fffe by {
        crate::ids::identifier_of_slot(i + 1, 1);
    }
}

/// The settings do not matter.
pub proof fn lemma_settings(store: StoreState, settings: StoreSettings)
    requires
        store.consistent(),
    ensures
        (StoreState { settings, ..store }).consistent(),
{
    let after = StoreState { settings, ..store };
}

/// Neither do names, layouts and focus: a store with the same workspaces on the
/// same spaces is as consistent.
pub proof fn lemma_same_places(
    store: StoreState,
    entries: Map<VirtualWorkspaceId, WorkspaceState>,
)
    requires
        store.consistent(),
        entries.dom() =~= store.entries.dom(),
        forall|id: VirtualWorkspaceId| #[trigger]
            store.entries.contains_key(id) ==> entries[id].space == store.entries[id].space,
    ensures
        (StoreState { entries, ..store }).consistent(),
{
    let after = StoreState { entries, ..store };
    assert forall|id: VirtualWorkspaceId| entries.contains_key(id)
        == store.entries.contains_key(id) by {
        assert(entries.dom().contains(id) == store.entries.dom().contains(id));
    }
    assert(after.all_listed()) by {
        assert forall|id: VirtualWorkspaceId| #[trigger]
            after.entries.contains_key(id) implies after.by_space.contains_key(
            after.entries[id].space.id,
        ) && after.by_space[after.entries[id].space.id].contains(id) by {
            assert(store.entries.contains_key(id));
        }
    }
}

/// Adding a workspace to a space keeps the store consistent.
pub proof fn added_is_consistent(store: StoreState, entry: WorkspaceState)
    requires
        store.consistent(),
        store.upcoming.len() > 0,
    ensures
        store.added(entry).consistent(),
        !store.entries.contains_key(store.upcoming[0]),
{
    let id = store.upcoming[0];
    let after = store.added(entry);
    let key = entry.space.id;
    let list = store.list_of(entry.space);
    assert(!store.entries.contains_key(id)) by {
        if store.entries.contains_key(id) {
            assert(id.index() != store.upcoming[0].index());
        }
    }
    assert(after.upcoming =~= store.upcoming.skip(1));
    assert forall|x: VirtualWorkspaceId| #[trigger] after.by_space[key].contains(x)
        <==> list.contains(x) || x == id by {
        lemma_push_contains(list, id, x);
    }
    assert(!list.contains(id)) by {
        if list.contains(id) {
            assert(store.by_space[key].contains(id));
        }
    }
    assert(after.slots_in_order()) by {
        assert forall|a: VirtualWorkspaceId, b: VirtualWorkspaceId|
            #![trigger after.entries.contains_key(a), after.entries.contains_key(b)]
            after.entries.contains_key(a) && after.entries.contains_key(b) && a.index()
                == b.index() implies a == b by {
            if a == id && b != id {
                assert(store.entries.contains_key(b));
                assert(b.index() != store.upcoming[0].index());
            } else if b == id && a != id {
                assert(store.entries.contains_key(a));
                assert(a.index() != store.upcoming[0].index());
            } else if a != id && b != id {
                assert(store.entries.contains_key(a) && store.entries.contains_key(b));
            }
        }
        assert forall|i: int, j: int| 0 <= i < j < after.upcoming.len() implies (
        #[trigger] after.upcoming[i]).index() < (#[trigger] after.upcoming[j]).index() by {
            assert(after.upcoming[i] == store.upcoming[i + 1]);
            assert(after.upcoming[j] == store.upcoming[j + 1]);
        }
        assert forall|a: VirtualWorkspaceId, i: int|
            after.entries.contains_key(a) && 0 <= i < after.upcoming.len() implies #[trigger] a.index()
            < (#[trigger] after.upcoming[i]).index() by {
            assert(after.upcoming[i] == store.upcoming[i + 1]);
            if a == id {
                assert(store.upcoming[0].index() < store.upcoming[i + 1].index());
            } else {
                assert(store.entries.contains_key(a));
                assert(a.index() < store.upcoming[i + 1].index());
            }
        }
    }
    assert(after.lists_owned()) by {
        assert forall|k: u64, x: VirtualWorkspaceId|
            after.by_space.contains_key(k) && #[trigger] after.by_space[k].contains(
                x,
            ) implies after.owns(SpaceId { id: k }, x) by {
            if k == key {
                if x != id {
                    assert(store.by_space[k].contains(x));
                    assert(store.owns(SpaceId { id: k }, x));
                }
            } else {
                assert(store.by_space[k].contains(x));
                assert(store.owns(SpaceId { id: k }, x));
            }
        }
    }
    assert(after.lists_distinct()) by {
        assert forall|k: u64| after.by_space.contains_key(k) implies (
        #[trigger] after.by_space[k]).no_duplicates() by {
            if k == key {
                if store.by_space.contains_key(k) {
                    assert(store.by_space[k].no_duplicates());
                }
            } else {
                assert(store.by_space[k].no_duplicates());
            }
        }
    }
    assert(after.all_listed()) by {
        assert forall|x: VirtualWorkspaceId| #[trigger]
            after.entries.contains_key(x) implies after.by_space.contains_key(
            after.entries[x].space.id,
        ) && after.by_space[after.entries[x].space.id].contains(x) by {
            if x == id {
                assert(after.by_space[key].contains(id));
            } else {
                assert(store.entries.contains_key(x));
                assert(store.by_space[store.entries[x].space.id].contains(x));
                assert(after.by_space[store.entries[x].space.id].contains(x));
            }
        }
    }
    assert(after.active_listed()) by {
        assert forall|k: u64| #[trigger]
            after.active.contains_key(k) implies after.by_space.contains_key(k)
            && after.by_space[k].contains(after.active[k].1) && (
        after.active[k].0 matches Some(previous) ==> after.by_space[k].contains(previous)) by {
            assert(store.active.contains_key(k));
            assert(store.by_space[k].contains(store.active[k].1));
            assert(after.by_space[k].contains(store.active[k].1));
            if let Some(previous) = store.active[k].0 {
                assert(store.by_space[k].contains(previous));
                assert(after.by_space[k].contains(previous));
            }
        }
    }
    assert(after.by_space.dom() =~= store.by_space.dom().insert(key));
    assert(after.entries.dom() =~= store.entries.dom().insert(id));
}

/// Adding several workspaces keeps the store consistent.
pub proof fn pushed_is_consistent(store: StoreState, space: SpaceId, first: nat, count: nat)
    requires
        store.consistent(),
        store.upcoming.len() >= count,
    ensures
        store.pushed_from(space, first, count).consistent(),
        forall|id: VirtualWorkspaceId| #[trigger]
            store.pushed_from(space, first, count).entries.contains_key(id)
                <==> store.entries.contains_key(id) || store.upcoming.take(count as int).contains(
                id,
            ),
        forall|id: VirtualWorkspaceId| #[trigger]
            store.entries.contains_key(id) ==> store.pushed_from(space, first, count).entries[id]
                == store.entries[id],
    decreases count,
{
    if count == 0 {
        assert(store.upcoming.take(0) =~= Seq::empty());
    } else {
        let fewer = (count - 1) as nat;
        pushed_is_consistent(store, space, first, fewer);
        lemma_pushed_from(store, space, first, fewer);
        let before = store.pushed_from(space, first, fewer);
        let index = (first + count - 1) as nat;
        let entry = before.settings.fresh(space, index, before.default_name(index));
        added_is_consistent(before, entry);
        let added = before.added(entry);
        let after = store.pushed_from(space, first, count);
        assert(after == (StoreState { counter: after.counter, ..added }));
        lemma_counter(added, after.counter);
        let id = store.upcoming[fewer as int];
        assert(before.upcoming[0] == id);
        assert(store.upcoming.take(count as int) =~= store.upcoming.take(fewer as int).push(id));
        assert forall|x: VirtualWorkspaceId| #[trigger] after.entries.contains_key(x)
            <==> store.entries.contains_key(x) || store.upcoming.take(count as int).contains(
            x,
        ) by {
            lemma_push_contains(store.upcoming.take(fewer as int), id, x);
        }
        assert forall|x: VirtualWorkspaceId| #[trigger]
            store.entries.contains_key(x) implies after.entries[x] == store.entries[x] by {
            assert(before.entries.contains_key(x));
            assert(x != id);
        }
    }
}

/// The counter does not matter.
proof fn lemma_counter(store: StoreState, counter: nat)
    requires
        store.consistent(),
    ensures
        (StoreState { counter, ..store }).consistent(),
{
    let after = StoreState { counter, ..store };
}

/// Taking identifiers in order keeps slots in order.
pub proof fn lemma_taken_slots(
    store: StoreState,
    entries: Map<VirtualWorkspaceId, WorkspaceState>,
    count: int,
)
    requires
        store.slots_in_order(),
        0 <= count <= store.upcoming.len(),
        forall|id: VirtualWorkspaceId| #[trigger]
            entries.contains_key(id) <==> store.entries.contains_key(id) || store.upcoming.take(
                count,
            ).contains(id),
    ensures
        (StoreState { entries, upcoming: store.upcoming.skip(count), ..store }).slots_in_order(),
{
    let taken = store.upcoming.take(count);
    let after = StoreState { entries, upcoming: store.upcoming.skip(count), ..store };
    assert forall|a: VirtualWorkspaceId, b: VirtualWorkspaceId|
        #![trigger after.entries.contains_key(a), after.entries.contains_key(b)]
        after.entries.contains_key(a) && after.entries.contains_key(b) && a.index()
            == b.index() implies a == b by {
        if store.entries.contains_key(a) && store.entries.contains_key(b) {
        } else if store.entries.contains_key(a) {
            let j = choose|j: int| 0 <= j < taken.len() && taken[j] == b;
            assert(a.index() != store.upcoming[j].index());
        } else if store.entries.contains_key(b) {
            let i = choose|i: int| 0 <= i < taken.len() && taken[i] == a;
            assert(b.index() != store.upcoming[i].index());
        } else {
            let i = choose|i: int| 0 <= i < taken.len() && taken[i] == a;
            let j = choose|j: int| 0 <= j < taken.len() && taken[j] == b;
            if i < j {
                assert(store.upcoming[i].index() != store.upcoming[j].index());
            } else if j < i {
                assert(store.upcoming[j].index() != store.upcoming[i].index());
            }
        }
    }
    assert forall|i: int, j: int| 0 <= i < j < after.upcoming.len() implies (
    #[trigger] after.upcoming[i]).index() < (#[trigger] after.upcoming[j]).index() by {
        assert(after.upcoming[i] == store.upcoming[i + count]);
        assert(after.upcoming[j] == store.upcoming[j + count]);
    }
    assert forall|a: VirtualWorkspaceId, i: int|
        after.entries.contains_key(a) && 0 <= i < after.upcoming.len() implies #[trigger] a.index()
        < (#[trigger] after.upcoming[i]).index() by {
        assert(after.upcoming[i] == store.upcoming[i + count]);
        if store.entries.contains_key(a) {
            assert(a.index() < store.upcoming[i + count].index());
        } else {
            let k = choose|k: int| 0 <= k < taken.len() && taken[k] == a;
            assert(store.upcoming[k].index() < store.upcoming[i + count].index());
        }
    }
}

/// The workspaces of a new space, and that the others stay as they were.
pub proof fn lemma_started_entries(store: StoreState, space: SpaceId, count: nat)
    requires
        store.slots_in_order(),
        store.upcoming.len() >= count,
    ensures
        forall|id: VirtualWorkspaceId| #[trigger]
            store.started(space, count).entries.contains_key(id) <==> store.entries.contains_key(id)
                || store.upcoming.take(count as int).contains(id),
        forall|id: VirtualWorkspaceId| #[trigger]
            store.entries.contains_key(id) ==> store.started(space, count).entries[id]
                == store.entries[id],
        forall|i: int|
            0 <= i < count ==> store.started(space, count).entries[#[trigger] store.upcoming[i]]
                == store.settings.fresh(space, i as nat, store.starting_name(i as nat)),
        store.entries.dom().finite() ==> store.started(space, count).entries.dom().finite(),
    decreases count,
{
    if count == 0 {
        assert(store.upcoming.take(0) =~= Seq::empty());
    } else {
        let fewer = (count - 1) as nat;
        lemma_started_entries(store, space, fewer);
        lemma_started(store, space, fewer);
        let before = store.started(space, fewer);
        let after = store.started(space, count);
        let id = store.upcoming[fewer as int];
        assert(before.upcoming[0] == id);
        assert(store.upcoming.take(count as int) =~= store.upcoming.take(fewer as int).push(id));
        assert forall|x: VirtualWorkspaceId| #[trigger] after.entries.contains_key(x)
            <==> store.entries.contains_key(x) || store.upcoming.take(count as int).contains(
            x,
        ) by {
            lemma_push_contains(store.upcoming.take(fewer as int), id, x);
        }
        assert forall|x: VirtualWorkspaceId| #[trigger]
            store.entries.contains_key(x) implies after.entries[x] == store.entries[x] by {
            assert(x.index() != store.upcoming[fewer as int].index());
        }
        assert forall|i: int| 0 <= i < count implies after.entries[#[trigger] store.upcoming[i]]
            == store.settings.fresh(space, i as nat, store.starting_name(i as nat)) by {
            if i < fewer {
                assert(store.upcoming[i].index() != store.upcoming[fewer as int].index());
            }
        }
        assert(after.entries.dom() =~= before.entries.dom().insert(id));
    }
}

/// Making an entry for a space keeps the store consistent.
pub proof fn initialized_is_consistent(store: StoreState, space: SpaceId)
    requires
        store.consistent(),
        store.can_initialize(space),
    ensures
        store.initialized(space).consistent(),
        forall|id: VirtualWorkspaceId| #[trigger]
            store.entries.contains_key(id) ==> store.initialized(space).entries.contains_key(id)
                && store.initialized(space).entries[id] == store.entries[id],
{
    let after = store.initialized(space);
    let count = store.settings.target_count();
    if store.by_space.contains_key(space.id) {
    } else if store.settings.shared && !store.entries.dom().is_empty() {
        assert(after.by_space.dom() =~= store.by_space.dom().insert(space.id));
        assert(after.lists_distinct()) by {
            assert forall|k: u64| after.by_space.contains_key(k) implies (
            #[trigger] after.by_space[k]).no_duplicates() by {
                if k != space.id {
                    assert(store.by_space[k].no_duplicates());
                }
            }
        }
        assert(after.all_listed()) by {
            assert forall|x: VirtualWorkspaceId| #[trigger]
                after.entries.contains_key(x) implies after.by_space.contains_key(
                after.entries[x].space.id,
            ) && after.by_space[after.entries[x].space.id].contains(x) by {
                assert(store.entries.contains_key(x));
            }
        }
        assert(after.active_listed()) by {
            assert forall|k: u64| #[trigger]
                after.active.contains_key(k) implies after.by_space.contains_key(k)
                && after.by_space[k].contains(after.active[k].1) && (
            after.active[k].0 matches Some(previous) ==> after.by_space[k].contains(previous)) by {
                assert(store.active.contains_key(k));
            }
        }
    } else {
        let ids = store.upcoming.take(count as int);
        lemma_started(store, space, count);
        lemma_started_entries(store, space, count);
        lemma_taken_slots(store, after.entries, count as int);
        assert(ids.no_duplicates()) by {
            assert forall|i: int, j: int| 0 <= i < ids.len() && 0 <= j < ids.len() && i
                != j implies ids[i] != ids[j] by {
                if i < j {
                    assert(store.upcoming[i].index() != store.upcoming[j].index());
                } else {
                    assert(store.upcoming[j].index() != store.upcoming[i].index());
                }
            }
        }
        assert forall|x: VirtualWorkspaceId| #[trigger] ids.contains(x) implies after.owns(
            space,
            x,
        ) by {
            let i = choose|i: int| 0 <= i < ids.len() && ids[i] == x;
            assert(after.entries[store.upcoming[i]].space == space);
        }
        assert(after.lists_owned()) by {
            assert forall|k: u64, x: VirtualWorkspaceId|
                after.by_space.contains_key(k) && #[trigger] after.by_space[k].contains(
                    x,
                ) implies after.owns(SpaceId { id: k }, x) by {
                if k == space.id {
                    assert(ids.contains(x));
                } else {
                    assert(store.by_space[k].contains(x));
                    assert(store.owns(SpaceId { id: k }, x));
                }
            }
        }
        assert(after.by_space.dom() =~= store.by_space.dom().insert(space.id));
        assert(after.lists_distinct()) by {
            assert forall|k: u64| after.by_space.contains_key(k) implies (
            #[trigger] after.by_space[k]).no_duplicates() by {
                if k != space.id {
                    assert(store.by_space[k].no_duplicates());
                }
            }
        }
        assert(after.all_listed()) by {
            assert forall|x: VirtualWorkspaceId| #[trigger]
                after.entries.contains_key(x) implies after.by_space.contains_key(
                after.entries[x].space.id,
            ) && after.by_space[after.entries[x].space.id].contains(x) by {
                if store.entries.contains_key(x) {
                    assert(store.by_space.contains_key(store.entries[x].space.id));
                    assert(store.by_space[store.entries[x].space.id].contains(x));
                } else {
                    assert(ids.contains(x));
                    assert(after.by_space[space.id].contains(x));
                }
            }
        }
        assert(after.active_listed()) by {
            assert forall|k: u64| #[trigger]
                after.active.contains_key(k) implies after.by_space.contains_key(k)
                && after.by_space[k].contains(after.active[k].1) && (
            after.active[k].0 matches Some(previous) ==> after.by_space[k].contains(previous)) by {
                if k != space.id {
                    assert(store.active.contains_key(k));
                } else {
                    let place = crate::state::least(
                        store.settings.default_workspace,
                        (count - 1) as nat,
                    );
                    assert(ids[place as int] == after.active[k].1);
                    assert(ids.contains(ids[place as int]));
                }
            }
        }
    }
}

/// Asking for a new workspace keeps the store consistent.
pub proof fn creation_is_consistent(store: StoreState, space: SpaceId, name: Option<Seq<char>>)
    requires
        store.consistent(),
        store.can_initialize(space),
        store.initialized(space).creation(space) is Ok ==> store.initialized(space).upcoming.len()
            > 0,
    ensures
        store.initialized(space).with_new(space, name).consistent(),
{
    initialized_is_consistent(store, space);
    let ready = store.initialized(space);
    let index = ready.occupied(space);
    if index < ready.settings.max_workspaces {
        let given = match name {
            Some(name) => name,
            None => crate::state::numbered_name(ready.counter),
        };
        let added = ready.added(ready.settings.fresh(space, index, given));
        added_is_consistent(ready, ready.settings.fresh(space, index, given));
        let after = ready.with_new(space, name);
        assert(after == (StoreState { counter: after.counter, ..added }));
        lemma_counter(added, after.counter);
    }
}

/// Naming workspaces keeps the store consistent.
pub proof fn renamed_is_consistent(store: StoreState, ids: Seq<VirtualWorkspaceId>, count: nat)
    requires
        store.consistent(),
        count <= ids.len(),
    ensures
        store.renamed(ids, count).consistent(),
{
    lemma_renamed(store, ids, count);
    let entries = store.renamed(ids, count).entries;
    assert forall|id: VirtualWorkspaceId| #[trigger] store.entries.contains_key(id) implies entries[
        id
    ].space == store.entries[id].space by {}
    lemma_same_places(store, entries);
}

/// Sorting the lists keeps the store consistent.
pub proof fn sorted_is_consistent(store: StoreState)
    requires
        store.consistent(),
    ensures
        store.lists_sorted().consistent(),
{
    let after = store.lists_sorted();
    assert(after.by_space.dom() =~= store.by_space.dom());
    assert forall|k: u64| #[trigger] after.by_space.contains_key(k) implies after.by_space[k]
        == sorted(store.by_space[k]) by {}
    assert forall|k: u64, x: VirtualWorkspaceId| store.by_space.contains_key(k) implies (
    #[trigger] after.by_space[k].contains(x) <==> store.by_space[k].contains(x)) by {
        lemma_sorted(store.by_space[k]);
    }
    assert(after.lists_distinct()) by {
        assert forall|k: u64| after.by_space.contains_key(k) implies (
        #[trigger] after.by_space[k]).no_duplicates() by {
            assert(store.by_space[k].no_duplicates());
            lemma_sorted(store.by_space[k]);
        }
    }
    assert(after.all_listed()) by {
        assert forall|x: VirtualWorkspaceId| #[trigger]
            after.entries.contains_key(x) implies after.by_space.contains_key(
            after.entries[x].space.id,
        ) && after.by_space[after.entries[x].space.id].contains(x) by {
            assert(store.by_space[store.entries[x].space.id].contains(x));
        }
    }
    assert(after.active_listed()) by {
        assert forall|k: u64| #[trigger]
            after.active.contains_key(k) implies after.by_space.contains_key(k)
            && after.by_space[k].contains(after.active[k].1) && (
        after.active[k].0 matches Some(previous) ==> after.by_space[k].contains(previous)) by {
            assert(store.active.contains_key(k));
            assert(store.by_space[k].contains(store.active[k].1));
        }
    }
}

proof fn spaces_settled_is_consistent(store: StoreState, keys: Seq<u64>)
    requires
        store.consistent(),
        keys.no_duplicates(),
        forall|key: u64| #[trigger] keys.contains(key) ==> store.by_space.contains_key(key),
        store.upcoming.len() >= store.spaces_shortfall(keys),
    ensures
        store.spaces_settled(keys).consistent(),
        store.spaces_settled(keys).keeps(store),
    decreases keys.len(),
{
    if keys.len() > 0 {
        let fewer = keys.drop_last();
        let key = keys.last();
        let space = SpaceId { id: key };
        assert(keys =~= fewer.push(key));
        assert forall|k: u64| #[trigger] fewer.contains(k) implies store.by_space.contains_key(
            k,
        ) by {
            lemma_push_contains(fewer, key, k);
            assert(keys.contains(k));
        }
        assert(keys.contains(key));
        spaces_settled_is_consistent(store, fewer);
        crate::growth::lemma_spaces_settled(store, fewer);
        let before = store.spaces_settled(fewer);
        assert(!fewer.contains(key));
        assert(before.by_space[key] == store.by_space[key]);
        let list = before.list_of(space);
        renamed_is_consistent(before, list, list.len());
        lemma_renamed(before, list, list.len());
        pushed_is_consistent(
            before.renamed(list, list.len()),
            space,
            list.len(),
            before.space_shortfall(space),
        );
        let after = store.spaces_settled(keys);
        assert forall|id: VirtualWorkspaceId| #[trigger]
            store.entries.contains_key(id) implies after.owns(store.entries[id].space, id) by {
            assert(before.entries.contains_key(id));
            assert(before.renamed(list, list.len()).entries.dom().contains(id));
            assert(before.renamed(list, list.len()).entries.contains_key(id));
        }
    }
}

/// A change of settings keeps the store consistent.
pub proof fn settled_is_consistent(
    store: StoreState,
    config: crate::settings::VirtualWorkspaceSettings,
    layout_settings: crate::layout::LayoutSettings,
)
    requires
        store.consistent(),
        store.upcoming.len() >= store.under(config, layout_settings).shortfall(),
    ensures
        store.under(config, layout_settings).consistent(),
        store.under(config, layout_settings).settled().consistent(),
        store.under(config, layout_settings).settled().keeps(store),
{
    let under = store.under(config, layout_settings);
    lemma_settings(store, under.settings);
    let plain = StoreState { settings: under.settings, ..store };
    sorted_is_consistent(plain);
    assert(under == plain.lists_sorted());
    let keys = listing(under.by_space.dom());
    lemma_listing(under.by_space.dom());
    if under.settings.shared {
        if keys.len() > 0 {
            let home = SpaceId { id: keys[0] };
            assert(keys.contains(keys[0]));
            assert(!under.by_space.dom().is_empty());
            pushed_is_consistent(
                under,
                home,
                under.global_ids().len(),
                under.pool_shortfall(),
            );
            let filled = under.pool_filled(home);
            renamed_is_consistent(filled, filled.global_ids(), filled.global_ids().len());
            lemma_renamed(filled, filled.global_ids(), filled.global_ids().len());
            let after = under.settled();
            assert forall|id: VirtualWorkspaceId| #[trigger]
                store.entries.contains_key(id) implies after.owns(store.entries[id].space, id) by {
                assert(under.entries.contains_key(id));
                assert(filled.entries.contains_key(id));
                assert(after.entries.dom().contains(id));
            }
        }
    } else {
        spaces_settled_is_consistent(under, keys);
    }
}

/// Showing another workspace keeps the store consistent.
pub proof fn activated_is_consistent(store: StoreState, space: SpaceId, id: VirtualWorkspaceId)
    requires
        store.consistent(),
    ensures
        store.activated(space, id).consistent(),
{
    if store.owns(space, id) {
        let after = store.activated(space, id);
        assert(after.active_listed()) by {
            assert forall|k: u64| #[trigger]
                after.active.contains_key(k) implies after.by_space.contains_key(k)
                && after.by_space[k].contains(after.active[k].1) && (
            after.active[k].0 matches Some(previous) ==> after.by_space[k].contains(previous)) by {
                if k == space.id {
                    assert(store.by_space[store.entries[id].space.id].contains(id));
                    if let Some(left) = store.active_of(space) {
                        assert(store.active.contains_key(k));
                    }
                } else {
                    assert(store.active.contains_key(k));
                }
            }
        }
    }
}

/// A space that shows nothing keeps the store consistent.
proof fn without_active_is_consistent(store: StoreState, space: SpaceId)
    requires
        store.consistent(),
    ensures
        store.without_active(space).consistent(),
{
    let after = store.without_active(space);
    assert(after.active_listed()) by {
        assert forall|k: u64| #[trigger]
            after.active.contains_key(k) implies after.by_space.contains_key(k)
            && after.by_space[k].contains(after.active[k].1) && (
        after.active[k].0 matches Some(previous) ==> after.by_space[k].contains(previous)) by {
            assert(store.active.contains_key(k));
        }
    }
}

/// Showing a listed workspace where none is shown keeps the store consistent.
pub proof fn some_active_is_consistent(store: StoreState, space: SpaceId, id: VirtualWorkspaceId)
    requires
        store.consistent(),
        store.active.contains_key(space.id) || store.list_of(space).contains(id),
    ensures
        store.with_some_active(space, id).consistent(),
{
    if !store.active.contains_key(space.id) {
        let after = store.with_some_active(space, id);
        assert(after.active_listed()) by {
            assert forall|k: u64| #[trigger]
                after.active.contains_key(k) implies after.by_space.contains_key(k)
                && after.by_space[k].contains(after.active[k].1) && (
            after.active[k].0 matches Some(previous) ==> after.by_space[k].contains(previous)) by {
                if k != space.id {
                    assert(store.active.contains_key(k));
                }
            }
        }
    }
}

/// Looking up the default workspace keeps the store consistent. In a
/// consistent store it is one of the space, and it changes nothing where the
/// space shows a workspace.
pub proof fn default_shown_is_consistent(store: StoreState, space: SpaceId)
    requires
        store.consistent(),
    ensures
        store.default_shown(space).consistent(),
        store.default_on(space) matches Ok(id) ==> store.owns(space, id),
        store.active.contains_key(space.id) ==> store.default_shown(space) == store,
{
    listed_is_owned(store, space);
    match store.active_of(space) {
        Some(id) if store.entries.contains_key(id) => {
            assert(store.active.contains_key(space.id));
            assert(store.by_space[space.id].contains(id));
            assert(store.list_of(space).contains(id));
        },
        _ => {
            if store.active.contains_key(space.id) {
                assert(store.by_space[space.id].contains(store.active[space.id].1));
                assert(store.list_of(space).contains(store.active[space.id].1));
            }
            without_active_is_consistent(store, space);
            let ids = store.owned_ids(space);
            if ids.len() > 0 {
                assert(ids.contains(ids[0]));
                activated_is_consistent(store.without_active(space), space, ids[0]);
            }
        },
    }
}

} // verus!
