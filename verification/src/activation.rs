//! The workspaces that spaces show, and the steps from one to the next.
use crate::desktop::desktop;
use crate::ids::SpaceId;
use crate::ids::VirtualWorkspaceId;
use crate::ids::WindowId;
use crate::selectors::Direction;
use crate::stepping::first_stop;
use crate::stepping::landing;
use crate::stepping::place_of;
use crate::stepping::stepped;
use crate::stepping::stops;
use crate::store::WorkspaceStore;
use crate::windows::WindowStore;
use crate::workspace::said;
use crate::workspace::WorkspaceError;
use vstd::prelude::*;

verus! {

impl WorkspaceStore {
    pub fn set_active_workspace(&mut self, space: SpaceId, workspace_id: VirtualWorkspaceId) -> (r:
        bool)
        ensures
            r == old(self)@.owns(space, workspace_id),
            final(self)@ == old(self)@.activated(space, workspace_id),
    {
        let active = self.active_workspace(space);
        if !self.is_owned(space, workspace_id) {
            return false;
        }
        self.set_active_pair(space, active, workspace_id);
        if let Some(left) = active {
            if left != workspace_id {
                self.set_last_active_global(Some(left));
            }
        }
        true
    }

    /// The workspace for windows that have no other: the active one, or else
    /// the first, which the space then shows.
    pub(crate) fn get_default_workspace(&mut self, space: SpaceId) -> (r: Result<
        VirtualWorkspaceId,
        WorkspaceError,
    >)
        requires
            old(self)@.can_initialize(space),
        ensures
            said(r) == old(self)@.initialized(space).default_on(space),
            final(self)@ == old(self)@.initialized(space).default_shown(space),
    {
        self.ensure_space_initialized(space);
        let ghost ready = self@;
        if let Some(active) = self.active_workspace(space) {
            if self.is_live(active) {
                return Ok(active);
            }
        }
        self.clear_active(space);
        assert(ready.active_of(space) is None ==> self@.active =~= ready.active);
        let ids = self.ordered_workspace_ids(space);
        if ids.len() == 0 {
            return Err(WorkspaceError::InconsistentState("No workspaces for space".to_owned()));
        }
        let first_id = ids[0];
        proof {
            crate::order::lemma_sorted(self@.list_of(space).filter(self@.owned_by(space)));
            crate::sequences::lemma_filter(self@.list_of(space), self@.owned_by(space));
            assert(ids@.contains(first_id));
        }
        if self.set_active_workspace(space, first_id) {
            Ok(first_id)
        } else {
            Err(
                WorkspaceError::InconsistentState(
                    "Failed to set default workspace as active".to_owned(),
                ),
            )
        }
    }

    /// The windows of a workspace, where the space has it.
    pub fn workspace_windows(
        &self,
        window_store: &WindowStore,
        space: SpaceId,
        workspace_id: VirtualWorkspaceId,
    ) -> (r: Vec<WindowId>)
        ensures
            r@ == self@.windows_shown(window_store@, space, workspace_id),
    {
        if self.is_owned(space, workspace_id) {
            window_store.workspace_windows(space, workspace_id)
        } else {
            Vec::new()
        }
    }

    /// Steps through an explicit workspace order. The per-space order stays on one
    /// display; the global order (shared mode) lets a step cross a display boundary, and
    /// makes `prevent_wrapping` and `skip_empty` apply to the whole namespace rather than
    /// to one display's slice of it.
    pub fn step_workspace_in_order(
        &self,
        window_store: &WindowStore,
        order: &[(VirtualWorkspaceId, SpaceId)],
        current: VirtualWorkspaceId,
        skip_empty: Option<bool>,
        dir: Direction,
    ) -> (r: Option<(VirtualWorkspaceId, SpaceId)>)
        ensures
            r == stepped(desktop(*self, *window_store), order@, current, skip_empty, dir),
    {
        let ghost desk = desktop(*self, *window_store);
        let wraps = !self.prevents_wrapping();
        let mut start: usize = 0;
        while start < order.len() && order[start].0 != current
            invariant
                start <= order.len(),
                forall|j: int| 0 <= j < start ==> (#[trigger] order@[j]).0 != current,
            decreases order.len() - start,
        {
            start += 1;
        }
        proof {
            crate::stepping::lemma_place_of(order@, current, start as int);
        }
        if start == order.len() {
            return None;
        }
        let require_non_empty = match skip_empty {
            Some(skip) => skip,
            None => false,
        };
        let mut index: usize = start;
        let mut k: usize = 0;
        while k < order.len()
            invariant
                k <= order.len(),
                start < order.len(),
                index < order.len(),
                desk == desktop(*self, *window_store),
                wraps == !desk.store.settings.prevent_wrapping,
                require_non_empty == (skip_empty == Some(true)),
                place_of(order@, current) == Some(start as int),
                k > 0 ==> landing(order@.len() as int, start as int, k as int, dir, wraps) == Some(
                    index as int,
                ),
                k == 0 ==> index == start,
                forall|j: int|
                    1 <= j <= k ==> !#[trigger] stops(desk, order@, start as int, j, skip_empty, dir),
            decreases order.len() - k,
        {
            let ghost n = order@.len() as int;
            let next = match dir {
                Direction::Right => if index + 1 < order.len() {
                    Some(index + 1)
                } else if wraps {
                    Some(0)
                } else {
                    None
                },
                Direction::Left => if index > 0 {
                    Some(index - 1)
                } else if wraps {
                    Some(order.len() - 1)
                } else {
                    None
                },
                _ => None,
            };
            assert(landing(n, start as int, k + 1, dir, wraps) == match next {
                Some(i) => Some(i as int),
                None => None,
            });
            match next {
                Some(i) => {
                    index = i;
                },
                None => {
                    proof {
                        crate::stepping::lemma_no_stop(
                            desk,
                            order@,
                            start as int,
                            (k + 1) as int,
                            skip_empty,
                            dir,
                        );
                    }
                    return None;
                },
            }
            let (id, space) = order[index];
            if !require_non_empty || self.workspace_windows(window_store, space, id).len() > 0 {
                proof {
                    crate::stepping::lemma_first_stop(
                        desk,
                        order@,
                        start as int,
                        (k + 1) as int,
                        skip_empty,
                        dir,
                    );
                }
                return Some((id, space));
            }
            k += 1;
        }
        assert forall|j: int|
            !first_stop(desk, order@, start as int, j, skip_empty, dir) by {}
        None
    }

    fn step_workspace(
        &self,
        window_store: &WindowStore,
        space: SpaceId,
        current: VirtualWorkspaceId,
        skip_empty: Option<bool>,
        dir: Direction,
    ) -> (r: Option<VirtualWorkspaceId>)
        ensures
            r == match stepped(
                desktop(*self, *window_store),
                self@.local_order(space),
                current,
                skip_empty,
                dir,
            ) {
                Some(target) => Some(target.0),
                None => None,
            },
    {
        let ids = self.ordered_workspace_ids(space);
        let mut order: Vec<(VirtualWorkspaceId, SpaceId)> = Vec::new();
        let mut i: usize = 0;
        while i < ids.len()
            invariant
                i <= ids.len(),
                ids@ == self@.owned_ids(space),
                order@ =~= self@.local_order(space).take(i as int),
            decreases ids.len() - i,
        {
            order.push((ids[i], space));
            i += 1;
        }
        assert(order@ =~= self@.local_order(space));
        match self.step_workspace_in_order(window_store, &order, current, skip_empty, dir) {
            Some(target) => Some(target.0),
            None => None,
        }
    }

    pub fn step_workspace_global(
        &self,
        window_store: &WindowStore,
        current: VirtualWorkspaceId,
        skip_empty: Option<bool>,
        dir: Direction,
    ) -> (r: Option<(VirtualWorkspaceId, SpaceId)>)
        ensures
            r == stepped(
                desktop(*self, *window_store),
                self@.global_order(),
                current,
                skip_empty,
                dir,
            ),
    {
        let order = self.global_workspace_order();
        self.step_workspace_in_order(window_store, &order, current, skip_empty, dir)
    }

    pub fn next_workspace(
        &self,
        window_store: &WindowStore,
        space: SpaceId,
        current: VirtualWorkspaceId,
        skip_empty: Option<bool>,
    ) -> (r: Option<VirtualWorkspaceId>)
        ensures
            r == match stepped(
                desktop(*self, *window_store),
                self@.local_order(space),
                current,
                skip_empty,
                Direction::Right,
            ) {
                Some(target) => Some(target.0),
                None => None,
            },
    {
        self.step_workspace(window_store, space, current, skip_empty, Direction::Right)
    }

    pub fn prev_workspace(
        &self,
        window_store: &WindowStore,
        space: SpaceId,
        current: VirtualWorkspaceId,
        skip_empty: Option<bool>,
    ) -> (r: Option<VirtualWorkspaceId>)
        ensures
            r == match stepped(
                desktop(*self, *window_store),
                self@.local_order(space),
                current,
                skip_empty,
                Direction::Left,
            ) {
                Some(target) => Some(target.0),
                None => None,
            },
    {
        self.step_workspace(window_store, space, current, skip_empty, Direction::Left)
    }
}

} // verus!
