//! Places of workspaces in the order of a space and of all spaces.
use crate::ids::SpaceId;
use crate::ids::VirtualWorkspaceId;
use crate::layout::LayoutMode;
use crate::order::lemma_listing;
use crate::order::listing;
use crate::order::sort_distinct;
use crate::order::sort_ranked;
use crate::selectors::WorkspaceSelector;
use crate::sequences::lemma_filter_take;
use crate::state::ruled_mode;
use crate::store::WorkspaceStore;
use vstd::prelude::*;

verus! {

/// The place of the first occurrence of an identifier.
pub(crate) fn place_in(ids: &Vec<VirtualWorkspaceId>, id: VirtualWorkspaceId) -> (r: Option<usize>)
    ensures
        match r {
            Some(place) => ids@.index_of_first(id) == Some(place as int) && place < ids.len()
                && ids@[place as int] == id,
            None => ids@.index_of_first(id) is None && !ids@.contains(id),
        },
{
    let mut i: usize = 0;
    proof {
        ids@.index_of_first_ensures(id);
    }
    while i < ids.len()
        invariant
            i <= ids.len(),
            forall|j: int| 0 <= j < i ==> ids@[j] != id,
        decreases ids.len() - i,
    {
        if ids[i] == id {
            proof {
                ids@.index_of_first_ensures(id);
                assert(ids@.contains(id));
            }
            return Some(i);
        }
        i += 1;
    }
    None
}

impl WorkspaceStore {
    /// Workspace index is creation/configuration order, represented by the stable slot-map key.
    /// Serialized vectors are historical implementation detail and may have been reordered by an
    /// older restore. All ordinal behavior must go through this canonical view.
    pub fn ordered_workspace_ids(&self, space: SpaceId) -> (r: Vec<VirtualWorkspaceId>)
        ensures
            r@ == self@.owned_ids(space),
    {
        let list = self.list(space);
        let ghost wanted = self@.owned_by(space);
        let mut ids: Vec<VirtualWorkspaceId> = Vec::new();
        let mut i: usize = 0;
        while i < list.len()
            invariant
                i <= list.len(),
                list@ == self@.list_of(space),
                wanted == self@.owned_by(space),
                ids@ == list@.take(i as int).filter(wanted),
            decreases list.len() - i,
        {
            proof {
                lemma_filter_take(list@, wanted, i as int);
            }
            if self.is_owned(space, list[i]) {
                ids.push(list[i]);
            }
            i += 1;
        }
        assert(list@.take(list.len() as int) =~= list@);
        sort_ranked(&mut ids);
        ids
    }

    /// Global ordinal view used when workspaces are shared across displays.
    ///
    /// Ordering is by slot-map key, i.e. creation order, exactly like the per-space
    /// [`Self::ordered_workspace_ids`]. Keys are stable across serialization and do not
    /// change when a workspace moves to another display, so a workspace keeps its global
    /// number for its whole life, which is the point of a shared namespace.
    pub fn ordered_workspace_ids_global(&self) -> (r: Vec<VirtualWorkspaceId>)
        ensures
            r@ == self@.global_ids(),
            self@.pool().finite(),
            r.len() == self@.pool().len(),
            forall|id: VirtualWorkspaceId| #[trigger] r@.contains(id) <==> self@.pool().contains(id),
    {
        let keys = self.space_keys();
        let mut ids: Vec<VirtualWorkspaceId> = Vec::new();
        let mut k: usize = 0;
        while k < keys.len()
            invariant
                k <= keys.len(),
                keys@.to_set() == self@.by_space.dom(),
                forall|id: VirtualWorkspaceId| #[trigger]
                    ids@.contains(id) <==> self@.entries.contains_key(id) && exists|j: int|
                        0 <= j < k && (#[trigger] self@.by_space[keys@[j]]).contains(id),
            decreases keys.len() - k,
        {
            let list = self.list(SpaceId { id: keys[k] });
            let ghost before = ids@;
            proof {
                assert(keys@.to_set().contains(keys@[k as int]));
                assert(list@ == self@.by_space[keys@[k as int]]);
            }
            let mut i: usize = 0;
            while i < list.len()
                invariant
                    i <= list.len(),
                    forall|id: VirtualWorkspaceId| #[trigger]
                        ids@.contains(id) <==> before.contains(id) || (
                        self@.entries.contains_key(id) && list@.take(i as int).contains(id)),
                decreases list.len() - i,
            {
                let id = list[i];
                proof {
                    assert(list@.take(i + 1) =~= list@.take(i as int).push(id));
                    assert forall|x: VirtualWorkspaceId| #[trigger]
                        list@.take(i + 1).contains(x) <==> list@.take(i as int).contains(x) || x
                            == id by {
                        crate::sequences::lemma_push_contains(list@.take(i as int), id, x);
                    }
                    assert forall|x: VirtualWorkspaceId| #[trigger]
                        ids@.push(id).contains(x) <==> ids@.contains(x) || x == id by {
                        crate::sequences::lemma_push_contains(ids@, id, x);
                    }
                }
                if self.is_live(id) {
                    ids.push(id);
                }
                i += 1;
            }
            proof {
                assert(list@.take(list.len() as int) =~= list@);
                assert forall|id: VirtualWorkspaceId| #[trigger]
                    ids@.contains(id) <==> self@.entries.contains_key(id) && exists|j: int|
                        0 <= j < k + 1 && (#[trigger] self@.by_space[keys@[j]]).contains(id) by {
                    if ids@.contains(id) {
                        if before.contains(id) {
                            let j = choose|j: int|
                                0 <= j < k && (#[trigger] self@.by_space[keys@[j]]).contains(id);
                            assert(self@.by_space[keys@[j]].contains(id));
                        } else {
                            assert(self@.by_space[keys@[k as int]].contains(id));
                        }
                    }
                }
            }
            k += 1;
        }
        let ghost collected = ids@;
        sort_distinct(&mut ids);
        proof {
            assert(collected.to_set() =~= self@.pool()) by {
                assert forall|id: VirtualWorkspaceId| collected.to_set().contains(id)
                    <==> self@.pool().contains(id) by {
                    assert(collected.contains(id) <==> collected.to_set().contains(id));
                    if self@.pool().contains(id) {
                        let key = choose|key: u64|
                            self@.by_space.contains_key(key) && (
                            #[trigger] self@.by_space[key]).contains(id);
                        assert(keys@.to_set().contains(key));
                        let j = choose|j: int| 0 <= j < keys.len() && keys@[j] == key;
                        assert(self@.by_space[keys@[j]].contains(id));
                    }
                    if collected.contains(id) {
                        let j = choose|j: int|
                            0 <= j < keys.len() && (#[trigger] self@.by_space[keys@[j]]).contains(
                                id,
                            );
                        assert(keys@.to_set().contains(keys@[j]));
                        assert(self@.by_space.contains_key(keys@[j]));
                        assert(self@.listed(id));
                    }
                }
            }
            vstd::seq_lib::seq_to_set_is_finite(collected);
            lemma_listing(self@.pool());
        }
        ids
    }

    pub fn global_workspace_order(&self) -> (r: Vec<(VirtualWorkspaceId, SpaceId)>)
        ensures
            r@ == self@.global_order(),
    {
        let ids = self.ordered_workspace_ids_global();
        let mut order: Vec<(VirtualWorkspaceId, SpaceId)> = Vec::new();
        let mut i: usize = 0;
        while i < ids.len()
            invariant
                i <= ids.len(),
                ids@ == self@.global_ids(),
                forall|id: VirtualWorkspaceId| #[trigger]
                    ids@.contains(id) <==> self@.pool().contains(id),
                order@ =~= self@.global_order().take(i as int),
            decreases ids.len() - i,
        {
            proof {
                assert(ids@.contains(ids@[i as int]));
            }
            if let Some(space) = self.workspace_space(ids[i]) {
                order.push((ids[i], space));
            }
            i += 1;
        }
        order
    }

    pub fn workspace_at_global_index(&self, index: usize) -> (r: Option<
        (VirtualWorkspaceId, SpaceId),
    >)
        ensures
            r == if index < self@.global_ids().len() {
                Some(
                    (
                        self@.global_ids()[index as int],
                        self@.entries[self@.global_ids()[index as int]].space,
                    ),
                )
            } else {
                None
            },
    {
        let ids = self.ordered_workspace_ids_global();
        if index < ids.len() {
            proof {
                assert(ids@.contains(ids@[index as int]));
            }
            match self.workspace_space(ids[index]) {
                Some(space) => Some((ids[index], space)),
                None => None,
            }
        } else {
            None
        }
    }

    pub fn global_index_of(&self, workspace_id: VirtualWorkspaceId) -> (r: Option<usize>)
        ensures
            match r {
                Some(index) => self@.global_ids().index_of_first(workspace_id) == Some(
                    index as int,
                ),
                None => self@.global_ids().index_of_first(workspace_id) is None,
            },
    {
        place_in(&self.ordered_workspace_ids_global(), workspace_id)
    }

    pub fn local_index_of(&self, space: SpaceId, workspace_id: VirtualWorkspaceId) -> (r: Option<
        usize,
    >)
        ensures
            match r {
                Some(index) => self@.owned_ids(space).index_of_first(workspace_id) == Some(
                    index as int,
                ),
                None => self@.owned_ids(space).index_of_first(workspace_id) is None,
            },
    {
        place_in(&self.ordered_workspace_ids(space), workspace_id)
    }

    /// Ordinal of the active workspace as a user would type it: global in shared mode,
    /// per display otherwise. Broadcasts, the menu bar and IPC all report this, so it has
    /// to agree with the number `switch_to_workspace` takes.
    pub fn active_workspace_idx(&self, space: SpaceId) -> (r: Option<u64>)
        ensures
            match r {
                Some(index) => self@.active_number(space) == Some(index as int),
                None => self@.active_number(space) is None,
            },
    {
        match self.active_workspace(space) {
            Some(active) => {
                let index = if self.shared_across_displays() {
                    self.global_index_of(active)
                } else {
                    self.local_index_of(space, active)
                };
                match index {
                    Some(index) => Some(index as u64),
                    None => None,
                }
            },
            None => None,
        }
    }

    pub(crate) fn resolve_layout_mode_for_workspace(&self, index: usize, name: &String) -> (r:
        LayoutMode)
        ensures
            r == self@.settings.mode_for(index as nat, name@),
    {
        let rules = self.layout_rules();
        let ghost said = self@.settings.layout_rules;
        let ghost otherwise = self@.settings.layout_mode;
        let mut i: usize = rules.len();
        assert(said.take(said.len() as int) =~= said);
        // The last matching rule decides.
        while i > 0
            invariant
                i <= rules.len(),
                said == crate::settings::rules_said(rules@),
                said == self@.settings.layout_rules,
                otherwise == self@.settings.layout_mode,
                ruled_mode(said, index as nat, name@, otherwise) == ruled_mode(
                    said.take(i as int),
                    index as nat,
                    name@,
                    otherwise,
                ),
            decreases i,
        {
            i -= 1;
            assert(said.take(i + 1).drop_last() =~= said.take(i as int));
            assert(said.take(i + 1).last() == rules@[i as int]@);
            let matches = match &rules[i].workspace {
                WorkspaceSelector::Index(picked) => *picked == index,
                WorkspaceSelector::Name(picked) => *picked == *name,
            };
            if matches {
                return rules[i].layout;
            }
        }
        self.fallback_mode()
    }

    pub fn desired_layout_mode_for_workspace(&self, index: usize, name: &str) -> (r: LayoutMode)
        ensures
            r == self@.settings.mode_for(index as nat, name@),
    {
        self.resolve_layout_mode_for_workspace(index, &name.to_owned())
    }

    pub fn initialized_spaces(&self) -> (r: Vec<SpaceId>)
        ensures
            r@ == listing(self@.by_space.dom()).map_values(|key: u64| SpaceId { id: key }),
            self@.by_space.dom().finite(),
    {
        let keys = self.space_keys();
        let mut spaces: Vec<SpaceId> = Vec::new();
        let mut i: usize = 0;
        while i < keys.len()
            invariant
                i <= keys.len(),
                spaces@ =~= keys@.take(i as int).map_values(|key: u64| SpaceId { id: key }),
            decreases keys.len() - i,
        {
            spaces.push(SpaceId { id: keys[i] });
            i += 1;
        }
        assert(keys@.take(keys.len() as int) =~= keys@);
        spaces
    }
}

} // verus!
