//! Windows and the workspaces that they belong to.
use crate::desktop::desktop;
use crate::desktop::numbered_window;
use crate::desktop::Desktop;
use crate::ids::SpaceId;
use crate::ids::VirtualWorkspaceId;
use crate::ids::WindowId;
use crate::order::listing;
use crate::ordering::place_in;
use crate::sequences::first_of;
use crate::sequences::lemma_filter_first;
use crate::sequences::lemma_filter_none;
use crate::sequences::lemma_filter_take;
use crate::store::WorkspaceStore;
use crate::windows::WindowStore;
use crate::windows::WindowWorkspaceInfo;
use crate::workspace::said;
use crate::workspace::WorkspaceError;
use vstd::prelude::*;

verus! {

/// The first window with a number.
fn first_numbered(windows: &Vec<WindowId>, idx: u32) -> (r: Option<WindowId>)
    ensures
        r == first_of(windows@.filter(numbered_window(idx))),
{
    let ghost wanted = numbered_window(idx);
    let mut i: usize = 0;
    while i < windows.len()
        invariant
            i <= windows.len(),
            wanted == numbered_window(idx),
            forall|j: int| 0 <= j < i ==> !wanted(#[trigger] windows@[j]),
        decreases windows.len() - i,
    {
        if windows[i].idx == idx {
            proof {
                lemma_filter_first(windows@, wanted, i as int);
            }
            return Some(windows[i]);
        }
        i += 1;
    }
    proof {
        lemma_filter_none(windows@, wanted);
    }
    None
}

impl WorkspaceStore {
    pub fn assign_window_to_workspace(
        &mut self,
        window_store: &mut WindowStore,
        space: SpaceId,
        window_id: WindowId,
        workspace_id: VirtualWorkspaceId,
    ) -> (r: bool)
        ensures
            r == old(self)@.owns(space, workspace_id),
            desktop(*final(self), *final(window_store)) == desktop(
                *old(self),
                *old(window_store),
            ).assigned(space, window_id, workspace_id),
    {
        if !self.is_owned(space, workspace_id) {
            return false;
        }
        let previous_assignment = window_store.workspace_info_for_window(window_id);
        window_store.assign_window_to_workspace(
            window_id,
            WindowWorkspaceInfo { space, workspace_id },
        );
        if let Some(previous) = previous_assignment {
            if previous.workspace_id != workspace_id {
                if let Some(workspace) = self.workspace(previous.workspace_id) {
                    if workspace.space == previous.space {
                        if let Some(focused) = workspace.last_focused() {
                            if focused == window_id {
                                self.set_focus(previous.workspace_id, None);
                            }
                        }
                    }
                }
            }
        }
        true
    }

    /// Moves a window to `space` while retaining the ordinal of its current
    /// virtual workspace. This is used for native-space identity churn, where
    /// WindowServer can briefly report a different space without a user moving
    /// the window to the destination's active workspace.
    pub fn assign_window_to_workspace_preserving_ordinal(
        &mut self,
        window_store: &mut WindowStore,
        space: SpaceId,
        window_id: WindowId,
    ) -> (r: Option<VirtualWorkspaceId>)
        requires
            old(self)@.can_initialize(space),
        ensures
            r == (Desktop {
                store: old(self)@.initialized(space),
                windows: old(window_store)@,
            }).counterpart_reached(space, window_id),
            desktop(*final(self), *final(window_store)) == (Desktop {
                store: old(self)@.initialized(space),
                windows: old(window_store)@,
            }).moved_to_counterpart(space, window_id),
    {
        self.ensure_space_initialized(space);
        let existing = match window_store.workspace_info_for_window(window_id) {
            Some(info) => info,
            None => {
                return None;
            },
        };
        if existing.space == space {
            return Some(existing.workspace_id);
        }
        // Ordinals are per display, so preserving one across spaces would drop the window
        // into an unrelated global workspace that merely shares an index. In shared mode a
        // window that changed display joins that display's active workspace instead.
        let target = if self.shared_across_displays() {
            self.active_workspace(space)
        } else {
            let source_ids = self.ordered_workspace_ids(existing.space);
            let target_ids = self.ordered_workspace_ids(space);
            match place_in(&source_ids, existing.workspace_id) {
                Some(place) => if place < target_ids.len() {
                    Some(target_ids[place])
                } else {
                    None
                },
                None => None,
            }
        };
        match target {
            Some(target_id) => if self.assign_window_to_workspace(
                window_store,
                space,
                window_id,
                target_id,
            ) {
                Some(target_id)
            } else {
                None
            },
            None => None,
        }
    }

    pub fn workspace_for_window(
        &self,
        window_store: &WindowStore,
        space: SpaceId,
        window_id: WindowId,
    ) -> (r: Option<VirtualWorkspaceId>)
        ensures
            r == match window_store@.info_of(window_id) {
                Some(info) if info.space == space => Some(info.workspace_id),
                _ => None,
            },
    {
        window_store.workspace_for_window(space, window_id)
    }

    pub fn workspace_for_window_any(&self, window_store: &WindowStore, window_id: WindowId) -> (r:
        Option<VirtualWorkspaceId>)
        ensures
            r == match window_store@.info_of(window_id) {
                Some(info) => Some(info.workspace_id),
                None => None,
            },
    {
        match window_store.workspace_info_for_window(window_id) {
            Some(info) => Some(info.workspace_id),
            None => None,
        }
    }

    pub fn workspace_info_for_window_any(
        &self,
        window_store: &WindowStore,
        window_id: WindowId,
    ) -> (r: Option<WindowWorkspaceInfo>)
        ensures
            r == window_store@.info_of(window_id),
    {
        window_store.workspace_info_for_window(window_id)
    }

    pub fn workspaces_for_window(&self, window_store: &WindowStore, window_id: WindowId) -> (r: Vec<
        VirtualWorkspaceId,
    >)
        ensures
            r@ == match window_store@.info_of(window_id) {
                Some(info) => seq![info.workspace_id],
                None => Seq::empty(),
            },
    {
        window_store.workspaces_for_window(window_id)
    }

    pub fn remove_window(&mut self, window_store: &mut WindowStore, window_id: WindowId)
        ensures
            final(window_store)@ == old(window_store)@.unassigned(window_id).unruled(window_id),
            *final(self) == *old(self),
    {
        let _ = window_store.remove_window_assignment(window_id);
        window_store.clear_rule_metadata(window_id);
    }

    pub fn remove_windows_for_app(&mut self, window_store: &mut WindowStore, pid: i32)
        ensures
            final(window_store)@ == old(window_store)@.without_app(pid),
            *final(self) == *old(self),
    {
        window_store.remove_app(pid);
    }

    /// Gets all windows in the active virtual workspace for a given native space.
    pub fn windows_in_active_workspace(&self, window_store: &WindowStore, space: SpaceId) -> (r:
        Vec<WindowId>)
        ensures
            r@ == match self@.active_of(space) {
                Some(active) => self@.windows_shown(window_store@, space, active),
                None => Seq::empty(),
            },
    {
        match self.active_workspace(space) {
            Some(active) => self.workspace_windows(window_store, space, active),
            None => Vec::new(),
        }
    }

    pub fn is_window_in_active_workspace(
        &self,
        window_store: &WindowStore,
        space: SpaceId,
        window_id: WindowId,
    ) -> (r: bool)
        ensures
            r == desktop(*self, *window_store).passes_as_shown(space, window_id),
    {
        match self.active_workspace(space) {
            Some(active) => match window_store.workspace_for_window(space, window_id) {
                Some(id) => id == active,
                None => true,
            },
            None => true,
        }
    }

    pub fn windows_in_inactive_workspaces(&self, window_store: &WindowStore, space: SpaceId) -> (r:
        Vec<WindowId>)
        ensures
            r@ == self@.windows_of_all(
                window_store@,
                space,
                listing(self@.entries.dom()).filter(self@.inactive_on(space)),
            ),
    {
        let ids = self.workspace_ids();
        let active = self.active_workspace(space);
        let ghost wanted = self@.inactive_on(space);
        let mut windows: Vec<WindowId> = Vec::new();
        let mut i: usize = 0;
        assert(ids@.take(0).filter(wanted) =~= Seq::empty()) by {
            crate::sequences::lemma_filter(ids@.take(0), wanted);
        }
        while i < ids.len()
            invariant
                i <= ids.len(),
                active == self@.active_of(space),
                wanted == self@.inactive_on(space),
                windows@ == self@.windows_of_all(
                    window_store@,
                    space,
                    ids@.take(i as int).filter(wanted),
                ),
            decreases ids.len() - i,
        {
            let id = ids[i];
            proof {
                lemma_filter_take(ids@, wanted, i as int);
            }
            let shown = match active {
                Some(active) => active == id,
                None => false,
            };
            if !shown && self.is_owned(space, id) {
                let mut members = self.workspace_windows(window_store, space, id);
                proof {
                    let before = ids@.take(i as int).filter(wanted);
                    assert(before.push(id).drop_last() =~= before);
                }
                windows.append(&mut members);
            }
            i += 1;
        }
        assert(ids@.take(ids.len() as int) =~= ids@);
        windows
    }

    pub fn find_window_by_idx(&self, window_store: &WindowStore, space: SpaceId, idx: u32) -> (r:
        Option<WindowId>)
        ensures
            r == first_of(
                window_store@.assignments.order.filter(
                    desktop(*self, *window_store).numbered_on(space, idx),
                ),
            ),
    {
        let pairs = window_store.workspace_assignments();
        let ghost desk = desktop(*self, *window_store);
        let ghost order = desk.windows.assignments.order;
        let ghost wanted = desk.numbered_on(space, idx);
        let mut i: usize = 0;
        while i < pairs.len()
            invariant
                i <= pairs.len(),
                desk == desktop(*self, *window_store),
                pairs@ == desk.windows.assignments.pairs(),
                order == desk.windows.assignments.order,
                wanted == desk.numbered_on(space, idx),
                forall|j: int| 0 <= j < i ==> !wanted(#[trigger] order[j]),
            decreases pairs.len() - i,
        {
            let (window, info) = pairs[i];
            assert(window == order[i as int]);
            if info.space == space && window.idx == idx {
                proof {
                    lemma_filter_first(order, wanted, i as int);
                }
                return Some(window);
            }
            i += 1;
        }
        proof {
            lemma_filter_none(order, wanted);
        }
        None
    }

    pub fn find_window_in_workspace_by_idx(
        &self,
        window_store: &WindowStore,
        space: SpaceId,
        workspace_id: VirtualWorkspaceId,
        idx: u32,
    ) -> (r: Option<WindowId>)
        ensures
            r == first_of(
                self@.windows_shown(window_store@, space, workspace_id).filter(
                    numbered_window(idx),
                ),
            ),
    {
        first_numbered(&self.workspace_windows(window_store, space, workspace_id), idx)
    }

    pub fn auto_assign_window(
        &mut self,
        window_store: &mut WindowStore,
        window_id: WindowId,
        space: SpaceId,
    ) -> (r: Result<VirtualWorkspaceId, WorkspaceError>)
        requires
            old(self)@.can_initialize(space),
        ensures
            said(r) == (Desktop {
                store: old(self)@.initialized(space),
                windows: old(window_store)@,
            }).auto_assignment(space),
            desktop(*final(self), *final(window_store)) == (Desktop {
                store: old(self)@.initialized(space),
                windows: old(window_store)@,
            }).auto_assigned(space, window_id),
    {
        let default_workspace_id = match self.get_default_workspace(space) {
            Ok(id) => id,
            Err(error) => {
                return Err(error);
            },
        };
        if self.assign_window_to_workspace(window_store, space, window_id, default_workspace_id) {
            window_store.clear_rule_floating(window_id);
            Ok(default_workspace_id)
        } else {
            Err(WorkspaceError::AssignmentFailed)
        }
    }
}

} // verus!
