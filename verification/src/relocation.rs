//! What moving a workspace keeps and changes.
use crate::desktop::not_workspace;
use crate::desktop::Desktop;
use crate::ids::SpaceId;
use crate::ids::VirtualWorkspaceId;
use crate::ids::WindowId;
use crate::order::lemma_sorted;
use crate::sequences::lemma_filter;
use crate::sequences::lemma_filter_none;
use crate::sequences::lemma_filter_same;
use crate::sequences::lemma_push_contains;
use crate::soundness::listed_is_owned;
use crate::soundness::pool_is_everything;
use crate::state::StoreState;
use crate::windows::WindowWorkspaceInfo;
use vstd::prelude::*;

verus! {

/// The store between the move of a workspace and the repair of what spaces
/// show.
pub open spec fn midway(store: StoreState, id: VirtualWorkspaceId, new_space: SpaceId) -> StoreState {
    store.relisted(id, store.entries[id].space, new_space).with_entry(
        id,
        store.entries[id].on_space(new_space),
    )
}

/// The lists midway.
pub proof fn lemma_midway(store: StoreState, id: VirtualWorkspaceId, new_space: SpaceId)
    requires
        store.well_listed(),
        store.entries.contains_key(id),
        store.entries[id].space != new_space,
    ensures
        midway(store, id, new_space).well_listed(),
        midway(store, id, new_space).by_space.dom() == store.by_space.dom().insert(new_space.id),
        forall|key: u64, x: VirtualWorkspaceId|
            store.by_space.contains_key(key) ==> (#[trigger] midway(
                store,
                id,
                new_space,
            ).by_space[key].contains(x) <==> if x == id {
                key == new_space.id
            } else {
                store.by_space[key].contains(x)
            }),
        forall|x: VirtualWorkspaceId|
            !store.by_space.contains_key(new_space.id) ==> (#[trigger] midway(
                store,
                id,
                new_space,
            ).by_space[new_space.id].contains(x) <==> x == id),
        midway(store, id, new_space).list_of(store.entries[id].space).len() == store.list_of(
            store.entries[id].space,
        ).len() - 1,
        midway(store, id, new_space).list_of(new_space).len() == store.list_of(new_space).len() + 1,
        forall|key: u64|
            key != new_space.id && key != store.entries[id].space.id ==> #[trigger] midway(
                store,
                id,
                new_space,
            ).by_space[key] == store.by_space[key],
{
    let old_space = store.entries[id].space;
    let after = midway(store, id, new_space);
    let old_list = store.list_of(old_space);
    let new_list = store.list_of(new_space);
    assert(store.by_space.contains_key(old_space.id));
    assert(old_space.id != new_space.id);
    listed_is_owned(store, old_space);
    listed_is_owned(store, new_space);
    assert(!new_list.contains(id));
    assert(old_list.contains(id));
    lemma_filter(old_list, not_workspace(id));
    lemma_sorted(new_list.push(id));
    assert(old_list.no_duplicates());
    assert(new_list.push(id).no_duplicates()) by {
        if store.by_space.contains_key(new_space.id) {
            assert(store.by_space[new_space.id].no_duplicates());
        }
    }
    assert(after.by_space[old_space.id] == old_list.filter(not_workspace(id)));
    assert(after.by_space[new_space.id] == crate::order::sorted(new_list.push(id)));
    let place = choose|place: int| 0 <= place < old_list.len() && old_list[place] == id;
    crate::sequences::lemma_filter_out(old_list, place, not_workspace(id));
    assert forall|x: VirtualWorkspaceId| #[trigger] after.by_space[new_space.id].contains(x)
        <==> new_list.contains(x) || x == id by {
        lemma_push_contains(new_list, id, x);
    }
    assert(after.by_space.dom() =~= store.by_space.dom().insert(new_space.id));
    assert(after.entries.dom() =~= store.entries.dom());
    assert(after.lists_owned()) by {
        assert forall|k: u64, x: VirtualWorkspaceId|
            after.by_space.contains_key(k) && #[trigger] after.by_space[k].contains(
                x,
            ) implies after.owns(SpaceId { id: k }, x) by {
            if k == old_space.id {
                assert(after.by_space[old_space.id].contains(x));
                assert(old_list.contains(x) && x != id);
                assert(store.owns(old_space, x));
            } else if k == new_space.id {
                assert(after.by_space[new_space.id].contains(x));
                if x != id {
                    assert(new_list.contains(x));
                    assert(store.owns(new_space, x));
                }
            } else {
                assert(store.by_space[k].contains(x));
                assert(store.owns(SpaceId { id: k }, x));
                assert(x != id);
            }
        }
    }
    assert(after.lists_distinct()) by {
        assert forall|k: u64| after.by_space.contains_key(k) implies (
        #[trigger] after.by_space[k]).no_duplicates() by {
            if k != old_space.id && k != new_space.id {
                assert(store.by_space[k].no_duplicates());
            }
        }
    }
    assert(after.all_listed()) by {
        assert forall|x: VirtualWorkspaceId| #[trigger]
            after.entries.contains_key(x) implies after.by_space.contains_key(
            after.entries[x].space.id,
        ) && after.by_space[after.entries[x].space.id].contains(x) by {
            if x == id {
                assert(after.by_space[new_space.id].contains(id));
            } else {
                assert(store.entries.contains_key(x));
                let k = store.entries[x].space.id;
                assert(store.by_space[k].contains(x));
                if k == old_space.id {
                    assert(old_list.filter(not_workspace(id)).contains(x));
                } else if k == new_space.id {
                    assert(new_list.contains(x));
                    assert(after.by_space[new_space.id].contains(x));
                }
            }
        }
    }
    assert(after.slots_in_order()) by {
        assert forall|a: VirtualWorkspaceId, b: VirtualWorkspaceId|
            #![trigger after.entries.contains_key(a), after.entries.contains_key(b)]
            after.entries.contains_key(a) && after.entries.contains_key(b) && a.index()
                == b.index() implies a == b by {
            assert(store.entries.contains_key(a) && store.entries.contains_key(b));
        }
        assert forall|a: VirtualWorkspaceId, i: int|
            after.entries.contains_key(a) && 0 <= i < after.upcoming.len() implies #[trigger] a.index()
            < (#[trigger] after.upcoming[i]).index() by {
            assert(store.entries.contains_key(a));
            assert(a.index() < store.upcoming[i].index());
        }
    }
    assert forall|key: u64, x: VirtualWorkspaceId| store.by_space.contains_key(key) implies (
    #[trigger] after.by_space[key].contains(x) <==> if x == id {
        key == new_space.id
    } else {
        store.by_space[key].contains(x)
    }) by {
        if key == old_space.id {
            assert(old_list.filter(not_workspace(id)).contains(x) <==> old_list.contains(x) && x
                != id);
        } else if key == new_space.id {
            assert(after.by_space[new_space.id].contains(x) <==> new_list.contains(x) || x == id);
        } else {
            if store.by_space[key].contains(id) {
                assert(store.owns(SpaceId { id: key }, id));
            }
        }
    }
}

/// Moving a workspace keeps the store consistent. The workspace is then on the
/// new space, and the old one neither shows nor remembers it.
pub proof fn relocated_is_consistent(store: StoreState, id: VirtualWorkspaceId, new_space: SpaceId)
    requires
        store.consistent(),
    ensures
        store.relocated(id, new_space).consistent(),
        store.entries.contains_key(id) ==> store.relocated(id, new_space).owns(new_space, id),
        store.space_of(id) matches Some(old_space) ==> old_space != new_space
            ==> store.relocated(id, new_space).active_of(old_space) != Some(id)
            && store.relocated(id, new_space).previous_of(old_space) != Some(id)
            && store.relocated(id, new_space).active.contains_key(new_space.id),
{
    if store.entries.contains_key(id) && store.entries[id].space != new_space {
        let old_space = store.entries[id].space;
        let mid = midway(store, id, new_space);
        let after = store.relocated(id, new_space);
        lemma_midway(store, id, new_space);
        listed_is_owned(mid, old_space);
        listed_is_owned(mid, new_space);
        let ids = mid.owned_ids(old_space);
        if ids.len() > 0 {
            assert(ids.contains(ids[0]));
            assert(mid.owns(old_space, ids[0]));
            assert(ids[0] != id);
        }
        assert(mid.list_of(new_space).contains(id));
        assert(after.by_space == mid.by_space);
        assert(after.entries == mid.entries);
        assert(after.upcoming == mid.upcoming);
        assert(after.active_listed()) by {
            assert forall|k: u64| #[trigger]
                after.active.contains_key(k) implies after.by_space.contains_key(k)
                && after.by_space[k].contains(after.active[k].1) && (
            after.active[k].0 matches Some(previous) ==> after.by_space[k].contains(previous)) by {
                if k == old_space.id {
                    if store.active.contains_key(k) {
                        assert(store.by_space[k].contains(store.active[k].1));
                        if store.active[k].1 != id {
                            assert(mid.by_space[k].contains(store.active[k].1));
                        }
                        if let Some(previous) = store.active[k].0 {
                            assert(store.by_space[k].contains(previous));
                            if previous != id {
                                assert(mid.by_space[k].contains(previous));
                            }
                        }
                    }
                    if ids.len() > 0 {
                        assert(mid.list_of(old_space).contains(ids[0]));
                    }
                } else {
                    if store.active.contains_key(k) {
                        assert(store.by_space[k].contains(store.active[k].1));
                        assert(store.active[k].1 != id) by {
                            assert(store.owns(SpaceId { id: k }, store.active[k].1));
                        }
                        assert(mid.by_space[k].contains(store.active[k].1));
                        if let Some(previous) = store.active[k].0 {
                            assert(store.by_space[k].contains(previous));
                            assert(store.owns(SpaceId { id: k }, previous));
                            assert(mid.by_space[k].contains(previous));
                        }
                    } else {
                        assert(k == new_space.id);
                    }
                }
            }
        }
    }
}

/// A workspace keeps its global number when it moves: the global order stays as
/// it was.
pub proof fn global_order_survives_moves(
    store: StoreState,
    id: VirtualWorkspaceId,
    new_space: SpaceId,
)
    requires
        store.consistent(),
    ensures
        store.relocated(id, new_space).global_ids() == store.global_ids(),
        store.relocated(id, new_space).entries.dom() == store.entries.dom(),
{
    relocated_is_consistent(store, id, new_space);
    let after = store.relocated(id, new_space);
    assert(after.entries.dom() =~= store.entries.dom());
    pool_is_everything(store);
    pool_is_everything(after);
}

impl Desktop {
    /// Every window is assigned to a workspace that the space of its
    /// assignment has.
    pub open spec fn placed(self) -> bool {
        forall|window: WindowId| #[trigger]
            self.windows.assignments.values.contains_key(window) ==> self.store.owns(
                self.windows.assignments.values[window].space,
                self.windows.assignments.values[window].workspace_id,
            )
    }

    /// The store is consistent and the windows are placed in it.
    pub open spec fn sound(self) -> bool {
        self.store.consistent() && self.windows.assignments.well_formed() && self.placed()
    }
}

/// Moving a workspace keeps windows placed.
pub proof fn relocated_is_sound(desk: Desktop, id: VirtualWorkspaceId, new_space: SpaceId)
    requires
        desk.sound(),
    ensures
        desk.relocated(id, new_space).sound(),
{
    relocated_is_consistent(desk.store, id, new_space);
    let after = desk.relocated(id, new_space);
    if desk.store.entries.contains_key(id) && desk.store.entries[id].space != new_space {
        assert(after.windows.assignments.values.dom() =~= desk.windows.assignments.values.dom());
        assert(after.placed()) by {
            assert forall|window: WindowId| #[trigger]
                after.windows.assignments.values.contains_key(window) implies after.store.owns(
                after.windows.assignments.values[window].space,
                after.windows.assignments.values[window].workspace_id,
            ) by {
                assert(desk.windows.assignments.values.contains_key(window));
                let info = desk.windows.assignments.values[window];
                assert(desk.store.owns(info.space, info.workspace_id));
            }
        }
    }
}

/// The windows of a workspace move with it: the new space has them all, in the
/// same order, the old one has none of them, and the windows of all other
/// workspaces stay.
pub proof fn windows_follow_their_workspace(
    desk: Desktop,
    id: VirtualWorkspaceId,
    old_space: SpaceId,
    new_space: SpaceId,
)
    requires
        desk.sound(),
        desk.store.owns(old_space, id),
        old_space != new_space,
    ensures
        desk.relocated(id, new_space).windows.windows_in(new_space, id) == desk.windows.windows_in(
            old_space,
            id,
        ),
        desk.relocated(id, new_space).windows.windows_in(old_space, id) == Seq::<WindowId>::empty(),
        forall|space: SpaceId, other: VirtualWorkspaceId|
            other != id ==> #[trigger] desk.relocated(id, new_space).windows.windows_in(
                space,
                other,
            ) == desk.windows.windows_in(space, other),
{
    let after = desk.relocated(id, new_space);
    let order = desk.windows.assignments.order;
    let from = WindowWorkspaceInfo { space: old_space, workspace_id: id };
    let to = WindowWorkspaceInfo { space: new_space, workspace_id: id };
    assert forall|window: WindowId| order.contains(
        window,
    ) implies desk.windows.assignments.values.contains_key(window) by {
        assert(order.to_set().contains(window));
    }
    assert forall|window: WindowId| order.contains(window) implies after.windows.assigned_as(to)(
        window,
    ) == desk.windows.assigned_as(from)(window) by {
        let info = desk.windows.assignments.values[window];
        assert(desk.store.owns(info.space, info.workspace_id));
    }
    lemma_filter_same(order, after.windows.assigned_as(to), desk.windows.assigned_as(from));
    lemma_filter_none(order, after.windows.assigned_as(from));
    assert forall|space: SpaceId, other: VirtualWorkspaceId| other != id implies #[trigger] desk.relocated(
        id,
        new_space,
    ).windows.windows_in(space, other) == desk.windows.windows_in(space, other) by {
        let info = WindowWorkspaceInfo { space, workspace_id: other };
        assert forall|window: WindowId| order.contains(window) implies after.windows.assigned_as(
            info,
        )(window) == desk.windows.assigned_as(info)(window) by {}
        lemma_filter_same(order, after.windows.assigned_as(info), desk.windows.assigned_as(info));
    }
}

} // verus!
