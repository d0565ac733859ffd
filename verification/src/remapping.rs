//! A space takes over what another had, when a space gets another number.
use crate::desktop::desktop;
use crate::desktop::Desktop;
use crate::ids::SpaceId;
use crate::ids::VirtualWorkspaceId;
use crate::ids::WindowId;
use crate::sequences::lemma_filter;
use crate::sequences::lemma_filter_twice;
use crate::sequences::lemma_push_contains;
use crate::soundness::listed_is_owned;
use crate::state::StoreState;
use crate::store::WorkspaceStore;
use crate::windows::among;
use crate::windows::WindowStore;
use crate::windows::WindowWorkspaceInfo;
use vstd::prelude::*;

verus! {

impl WorkspaceStore {
    /// Takes out the workspaces of a list that the space has, and returns
    /// them.
    fn discard_owned(&mut self, ids: &Vec<VirtualWorkspaceId>, space: SpaceId) -> (r: Vec<
        VirtualWorkspaceId,
    >)
        ensures
            final(self)@ == old(self)@.discarded(ids@, space),
            forall|id: VirtualWorkspaceId| #[trigger]
                r@.contains(id) <==> ids@.contains(id) && old(self)@.owns(space, id),
    {
        let ghost before = self@;
        let mut discarded: Vec<VirtualWorkspaceId> = Vec::new();
        let mut i: usize = 0;
        assert(self@.entries =~= before.discarded(ids@.take(0), space).entries);
        while i < ids.len()
            invariant
                i <= ids.len(),
                self@ == before.discarded(ids@.take(i as int), space),
                forall|id: VirtualWorkspaceId| #[trigger]
                    discarded@.contains(id) <==> ids@.take(i as int).contains(id) && before.owns(
                        space,
                        id,
                    ),
            decreases ids.len() - i,
        {
            let id = ids[i];
            proof {
                assert(ids@.take(i + 1) =~= ids@.take(i as int).push(id));
                assert forall|x: VirtualWorkspaceId| #[trigger]
                    ids@.take(i + 1).contains(x) <==> ids@.take(i as int).contains(x) || x
                        == id by {
                    lemma_push_contains(ids@.take(i as int), id, x);
                }
                assert forall|x: VirtualWorkspaceId| #[trigger]
                    discarded@.push(id).contains(x) <==> discarded@.contains(x) || x == id by {
                    lemma_push_contains(discarded@, id, x);
                }
            }
            if self.is_owned(space, id) {
                self.discard(id);
                discarded.push(id);
            }
            assert(self@.entries =~= before.discarded(ids@.take(i + 1), space).entries);
            i += 1;
        }
        assert(ids@.take(ids.len() as int) =~= ids@);
        discarded
    }

    /// Puts the workspaces of a list on a space.
    fn transfer(&mut self, ids: &Vec<VirtualWorkspaceId>, space: SpaceId)
        ensures
            final(self)@ == old(self)@.transferred(ids@, space),
    {
        let ghost before = self@;
        let mut i: usize = 0;
        assert(self@.entries =~= before.transferred(ids@.take(0), space).entries);
        while i < ids.len()
            invariant
                i <= ids.len(),
                self@ == before.transferred(ids@.take(i as int), space),
            decreases ids.len() - i,
        {
            let id = ids[i];
            proof {
                assert(ids@.take(i + 1) =~= ids@.take(i as int).push(id));
                assert forall|x: VirtualWorkspaceId| #[trigger]
                    ids@.take(i + 1).contains(x) <==> ids@.take(i as int).contains(x) || x
                        == id by {
                    lemma_push_contains(ids@.take(i as int), id, x);
                }
            }
            if self.is_live(id) {
                self.set_space(id, space);
            }
            assert(self@.entries =~= before.transferred(ids@.take(i + 1), space).entries);
            i += 1;
        }
        assert(ids@.take(ids.len() as int) =~= ids@);
    }

    pub fn remap_space(
        &mut self,
        window_store: &mut WindowStore,
        old_space: SpaceId,
        new_space: SpaceId,
    )
        ensures
            desktop(*final(self), *final(window_store)) == desktop(
                *old(self),
                *old(window_store),
            ).remapped(old_space, new_space),
    {
        if old_space == new_space || !self.has_list(old_space) {
            return;
        }
        let ghost before = self@;
        // Remove any auto-created state for the target space; the migrated state
        // should be authoritative.
        let target = self.list(new_space);
        let deleted = self.discard_owned(&target, new_space);
        self.drop_list(new_space);
        self.clear_active(new_space);
        proof {
            assert(among(deleted@) =~= before.lost_to_remap(new_space));
        }
        window_store.drop_assignments(&deleted);
        let ids = self.list(old_space);
        assert(ids@ == before.list_of(old_space));
        self.transfer(&ids, new_space);
        self.drop_list(old_space);
        if ids.len() > 0 {
            self.set_list(new_space, ids);
        }
        if let Some((previous, active)) = self.active_pair(old_space) {
            self.clear_active(old_space);
            self.set_active_pair(new_space, previous, active);
        }
        window_store.remap_space(old_space, new_space);
    }
}

/// What one space has after it took over what another had: the workspaces, in
/// the same order, and what was shown. Of the other nothing is left, and the
/// store stays consistent.
pub proof fn remapped_is_consistent(store: StoreState, old_space: SpaceId, new_space: SpaceId)
    requires
        store.consistent(),
    ensures
        store.remapped(old_space, new_space).consistent(),
        old_space != new_space && store.by_space.contains_key(old_space.id) ==> {
            let after = store.remapped(old_space, new_space);
            &&& after.list_of(new_space) == store.list_of(old_space)
            &&& after.owned_ids(new_space) == store.owned_ids(old_space)
            &&& after.active_of(new_space) == store.active_of(old_space)
            &&& after.previous_of(new_space) == store.previous_of(old_space)
            &&& !after.by_space.contains_key(old_space.id)
            &&& !after.active.contains_key(old_space.id)
            &&& forall|id: VirtualWorkspaceId| #[trigger]
                after.entries.contains_key(id) <==> store.entries.contains_key(id)
                    && store.entries[id].space != new_space
            &&& forall|id: VirtualWorkspaceId| #[trigger]
                after.entries.contains_key(id) ==> after.entries[id] == if store.owns(
                    old_space,
                    id,
                ) {
                    store.entries[id].on_space(new_space)
                } else {
                    store.entries[id]
                }
        },
{
    if old_space != new_space && store.by_space.contains_key(old_space.id) {
        let after = store.remapped(old_space, new_space);
        let target = store.list_of(new_space);
        let ids = store.list_of(old_space);
        let cleared = store.discarded(target, new_space);
        listed_is_owned(store, new_space);
        listed_is_owned(store, old_space);
        assert(after.entries.dom() =~= cleared.entries.dom());
        assert forall|id: VirtualWorkspaceId| #[trigger] after.entries.contains_key(id)
            <==> store.entries.contains_key(id) && store.entries[id].space != new_space by {
            assert(cleared.entries.contains_key(id) <==> (store.entries.contains_key(id) && !(
            target.contains(id) && store.owns(new_space, id))));
        }
        assert forall|id: VirtualWorkspaceId| #[trigger]
            after.entries.contains_key(id) implies after.entries[id] == if store.owns(
            old_space,
            id,
        ) {
            store.entries[id].on_space(new_space)
        } else {
            store.entries[id]
        } by {
            assert(cleared.entries.contains_key(id));
            assert(ids.contains(id) <==> store.owns(old_space, id));
        }
        assert(after.entries.dom().subset_of(store.entries.dom()));
        vstd::set_lib::lemma_len_subset(after.entries.dom(), store.entries.dom());
        assert(after.slots_in_order()) by {
            assert(after.upcoming == store.upcoming);
            assert forall|a: VirtualWorkspaceId, b: VirtualWorkspaceId|
                #![trigger after.entries.contains_key(a), after.entries.contains_key(b)]
                after.entries.contains_key(a) && after.entries.contains_key(b) && a.index()
                    == b.index() implies a == b by {
                assert(store.entries.contains_key(a) && store.entries.contains_key(b));
            }
            assert forall|a: VirtualWorkspaceId, i: int|
                after.entries.contains_key(a) && 0 <= i < after.upcoming.len() implies #[trigger] a.index()
                < (#[trigger] after.upcoming[i]).index() by {
                assert(store.entries.contains_key(a));
            }
        }
        assert(after.by_space.dom().subset_of(store.by_space.dom().insert(new_space.id)));
        vstd::set_lib::lemma_len_subset(
            after.by_space.dom(),
            store.by_space.dom().insert(new_space.id),
        );
        assert(ids.no_duplicates());
        assert(after.list_of(new_space) =~= ids);
        assert(after.lists_owned()) by {
            assert forall|k: u64, x: VirtualWorkspaceId|
                after.by_space.contains_key(k) && #[trigger] after.by_space[k].contains(
                    x,
                ) implies after.owns(SpaceId { id: k }, x) by {
                if k == new_space.id {
                    assert(ids.contains(x));
                    assert(store.owns(old_space, x));
                    assert(after.entries.contains_key(x));
                } else {
                    assert(store.by_space[k].contains(x));
                    assert(store.owns(SpaceId { id: k }, x));
                    assert(after.entries.contains_key(x));
                }
            }
        }
        assert(after.lists_distinct()) by {
            assert forall|k: u64| after.by_space.contains_key(k) implies (
            #[trigger] after.by_space[k]).no_duplicates() by {
                if k != new_space.id {
                    assert(store.by_space[k].no_duplicates());
                }
            }
        }
        assert(after.all_listed()) by {
            assert forall|x: VirtualWorkspaceId| #[trigger]
                after.entries.contains_key(x) implies after.by_space.contains_key(
                after.entries[x].space.id,
            ) && after.by_space[after.entries[x].space.id].contains(x) by {
                assert(store.entries.contains_key(x));
                if store.owns(old_space, x) {
                    assert(ids.contains(x));
                } else {
                    let k = store.entries[x].space.id;
                    assert(store.by_space[k].contains(x));
                    assert(k != old_space.id && k != new_space.id);
                }
            }
        }
        assert(after.active_listed()) by {
            assert forall|k: u64| #[trigger]
                after.active.contains_key(k) implies after.by_space.contains_key(k)
                && after.by_space[k].contains(after.active[k].1) && (
            after.active[k].0 matches Some(previous) ==> after.by_space[k].contains(previous)) by {
                if k == new_space.id {
                    assert(store.active.contains_key(old_space.id));
                } else {
                    assert(store.active.contains_key(k));
                }
            }
        }
        listed_is_owned(after, new_space);
    }
}

/// When one space takes over what another had, the windows that the other had
/// come with their workspaces, those on workspaces that are gone lose their
/// assignment, all others keep theirs, and everything stays sound.
pub proof fn remapped_is_sound(desk: Desktop, old_space: SpaceId, new_space: SpaceId)
    requires
        desk.sound(),
    ensures
        desk.remapped(old_space, new_space).sound(),
        old_space != new_space && desk.store.by_space.contains_key(old_space.id) ==> {
            let after = desk.remapped(old_space, new_space);
            &&& forall|id: VirtualWorkspaceId|
                desk.store.owns(old_space, id) ==> #[trigger] after.windows.windows_in(
                    new_space,
                    id,
                ) == desk.windows.windows_in(old_space, id)
            &&& forall|window: WindowId|
                #![trigger after.windows.info_of(window)]
                match desk.windows.info_of(window) {
                    Some(info) => after.windows.info_of(window) == if info.space == new_space {
                        None
                    } else if info.space == old_space {
                        Some(WindowWorkspaceInfo { space: new_space, ..info })
                    } else {
                        Some(info)
                    },
                    None => after.windows.info_of(window) is None,
                }
        },
{
    remapped_is_consistent(desk.store, old_space, new_space);
    if old_space != new_space && desk.store.by_space.contains_key(old_space.id) {
        let after = desk.remapped(old_space, new_space);
        let lost = desk.store.lost_to_remap(new_space);
        let wanted = desk.windows.assigned_outside(lost);
        let order = desk.windows.assignments.order;
        let kept = desk.windows.dropped(lost);
        listed_is_owned(desk.store, new_space);
        listed_is_owned(desk.store, old_space);
        lemma_filter(order, wanted);
        assert forall|window: WindowId| order.contains(window)
            <==> desk.windows.assignments.values.contains_key(window) by {
            assert(order.to_set().contains(window) <==> order.contains(window));
        }
        assert(after.windows.assignments.values.dom() =~= kept.assignments.values.dom());
        assert(kept.assignments.order.to_set() =~= kept.assignments.values.dom()) by {
            assert forall|window: WindowId| kept.assignments.order.to_set().contains(window)
                <==> kept.assignments.values.dom().contains(window) by {
                assert(order.filter(wanted).contains(window) <==> order.contains(window) && wanted(
                    window,
                ));
            }
        }
        assert forall|window: WindowId| #[trigger]
            desk.windows.assignments.values.contains_key(window) implies (wanted(window)
            <==> desk.windows.assignments.values[window].space != new_space) by {
            let info = desk.windows.assignments.values[window];
            assert(desk.store.owns(info.space, info.workspace_id));
            assert(desk.store.list_of(new_space).contains(info.workspace_id) <==> desk.store.owns(
                new_space,
                info.workspace_id,
            ));
        }
        assert(after.placed()) by {
            assert forall|window: WindowId| #[trigger]
                after.windows.assignments.values.contains_key(window) implies after.store.owns(
                after.windows.assignments.values[window].space,
                after.windows.assignments.values[window].workspace_id,
            ) by {
                assert(desk.windows.assignments.values.contains_key(window));
                let info = desk.windows.assignments.values[window];
                assert(desk.store.owns(info.space, info.workspace_id));
                assert(after.store.entries.contains_key(info.workspace_id));
            }
        }
        assert forall|id: VirtualWorkspaceId| desk.store.owns(
            old_space,
            id,
        ) implies #[trigger] after.windows.windows_in(new_space, id) == desk.windows.windows_in(
            old_space,
            id,
        ) by {
            let from = WindowWorkspaceInfo { space: old_space, workspace_id: id };
            let to = WindowWorkspaceInfo { space: new_space, workspace_id: id };
            assert forall|window: WindowId| order.contains(window) implies (
            desk.windows.assigned_as(from)(window) <==> wanted(window)
                && after.windows.assigned_as(to)(window)) by {
                assert(desk.windows.assignments.values.contains_key(window));
            }
            lemma_filter_twice(
                order,
                wanted,
                after.windows.assigned_as(to),
                desk.windows.assigned_as(from),
            );
        }
    }
}

} // verus!
