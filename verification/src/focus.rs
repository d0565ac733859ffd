//! The windows that were focused last, and names, in single workspaces.
use crate::ids::SpaceId;
use crate::ids::VirtualWorkspaceId;
use crate::ids::WindowId;
use crate::sequences::lemma_filter_take;
use crate::state::focus_in;
use crate::state::with_focus;
use crate::state::StoreState;
use crate::store::WorkspaceStore;
use crate::workspace::VirtualWorkspace;
use vstd::prelude::*;

verus! {

impl WorkspaceStore {
    pub fn set_last_focused_window(
        &mut self,
        space: SpaceId,
        workspace_id: VirtualWorkspaceId,
        window_id: Option<WindowId>,
    )
        ensures
            final(self)@ == if old(self)@.owns(space, workspace_id) {
                old(self)@.with_entry(
                    workspace_id,
                    old(self)@.entries[workspace_id].focused_last(window_id),
                )
            } else {
                old(self)@
            },
    {
        if self.is_owned(space, workspace_id) {
            self.set_focus(workspace_id, window_id);
        }
    }

    pub fn last_focused_window(&self, space: SpaceId, workspace_id: VirtualWorkspaceId) -> (r:
        Option<WindowId>)
        ensures
            r == if self@.owns(space, workspace_id) {
                self@.entries[workspace_id].last_focused
            } else {
                None
            },
    {
        match self.workspace(workspace_id) {
            Some(workspace) => if workspace.space == space {
                workspace.last_focused()
            } else {
                None
            },
            None => None,
        }
    }

    pub fn workspace_info(&self, space: SpaceId, workspace_id: VirtualWorkspaceId) -> (r: Option<
        &VirtualWorkspace,
    >)
        ensures
            match r {
                Some(workspace) => self@.owns(space, workspace_id) && workspace@
                    == self@.entries[workspace_id],
                None => !self@.owns(space, workspace_id),
            },
    {
        match self.workspace(workspace_id) {
            Some(workspace) => if workspace.space == space {
                Some(workspace)
            } else {
                None
            },
            None => None,
        }
    }

    pub fn rename_workspace(
        &mut self,
        space: SpaceId,
        workspace_id: VirtualWorkspaceId,
        new_name: String,
    ) -> (r: bool)
        ensures
            r == old(self)@.owns(space, workspace_id),
            final(self)@ == if r {
                old(self)@.with_entry(
                    workspace_id,
                    old(self)@.entries[workspace_id].named(new_name@),
                )
            } else {
                old(self)@
            },
    {
        if !self.is_owned(space, workspace_id) {
            return false;
        }
        self.set_name(workspace_id, new_name);
        true
    }

    pub fn transfer_window_identity(&mut self, from: WindowId, to: WindowId)
        ensures
            final(self)@ == old(self)@.identity_passed(from, to),
    {
        if from == to {
            return;
        }
        let ids = self.workspace_ids();
        let ghost before = self@;
        let ghost after = before.identity_passed(from, to);
        let mut i: usize = 0;
        while i < ids.len()
            invariant
                i <= ids.len(),
                from != to,
                after == before.identity_passed(from, to),
                partly_refocused(before, after, self@, ids@, i as int),
            decreases ids.len() - i,
        {
            proof {
                lemma_at(before, after, self@, ids@, i as int);
            }
            if let Some(workspace) = self.workspace(ids[i]) {
                if let Some(focused) = workspace.last_focused() {
                    if focused == from {
                        self.set_focus(ids[i], Some(to));
                    } else if focused == to {
                        self.set_focus(ids[i], None);
                    }
                }
            }
            assert(self@.entries.dom() =~= before.entries.dom());
            i += 1;
        }
        proof {
            lemma_refocused(before, after, self@, ids@);
        }
    }

    pub fn forget_window_identity(&mut self, window: WindowId)
        ensures
            final(self)@ == old(self)@.forgotten(window),
    {
        let ids = self.workspace_ids();
        let ghost before = self@;
        let ghost after = before.forgotten(window);
        let mut i: usize = 0;
        while i < ids.len()
            invariant
                i <= ids.len(),
                after == before.forgotten(window),
                partly_refocused(before, after, self@, ids@, i as int),
            decreases ids.len() - i,
        {
            proof {
                lemma_at(before, after, self@, ids@, i as int);
            }
            if let Some(workspace) = self.workspace(ids[i]) {
                if let Some(focused) = workspace.last_focused() {
                    if focused == window {
                        self.set_focus(ids[i], None);
                    }
                }
            }
            assert(self@.entries.dom() =~= before.entries.dom());
            i += 1;
        }
        proof {
            lemma_refocused(before, after, self@, ids@);
        }
    }

    pub fn retain_window_focus_location(&mut self, window: WindowId, keep: VirtualWorkspaceId)
        ensures
            final(self)@ == old(self)@.remembered_only_in(window, keep),
    {
        let ids = self.workspace_ids();
        let ghost before = self@;
        let ghost after = before.remembered_only_in(window, keep);
        let mut i: usize = 0;
        while i < ids.len()
            invariant
                i <= ids.len(),
                after == before.remembered_only_in(window, keep),
                partly_refocused(before, after, self@, ids@, i as int),
            decreases ids.len() - i,
        {
            proof {
                lemma_at(before, after, self@, ids@, i as int);
            }
            if let Some(workspace) = self.workspace(ids[i]) {
                if let Some(focused) = workspace.last_focused() {
                    if ids[i] != keep && focused == window {
                        self.set_focus(ids[i], None);
                    }
                }
            }
            assert(self@.entries.dom() =~= before.entries.dom());
            i += 1;
        }
        proof {
            lemma_refocused(before, after, self@, ids@);
        }
    }

    pub fn persisted_focus_locations(&self) -> (r: Vec<(SpaceId, VirtualWorkspaceId, WindowId)>)
        ensures
            r@ == self@.focus_locations(),
    {
        let ids = self.workspace_ids();
        let ghost wanted = with_focus(self@.entries);
        let mut locations: Vec<(SpaceId, VirtualWorkspaceId, WindowId)> = Vec::new();
        let mut i: usize = 0;
        assert(ids@.take(0).filter(wanted) =~= Seq::empty()) by {
            crate::sequences::lemma_filter(ids@.take(0), wanted);
        }
        while i < ids.len()
            invariant
                i <= ids.len(),
                ids@.to_set() == self@.entries.dom(),
                wanted == with_focus(self@.entries),
                locations@ =~= focus_in(self@.entries, ids@.take(i as int).filter(wanted)),
            decreases ids.len() - i,
        {
            proof {
                lemma_filter_take(ids@, wanted, i as int);
                assert(ids@.to_set().contains(ids@[i as int]));
            }
            if let Some(workspace) = self.workspace(ids[i]) {
                if let Some(window) = workspace.last_focused() {
                    locations.push((workspace.space, ids[i], window));
                }
            }
            i += 1;
        }
        assert(ids@.take(ids.len() as int) =~= ids@);
        locations
    }
}

/// The first `count` workspaces are as after a change of focus, the others as
/// before.
spec fn partly_refocused(
    before: StoreState,
    after: StoreState,
    now: StoreState,
    ids: Seq<VirtualWorkspaceId>,
    count: int,
) -> bool {
    &&& crate::order::lists(ids, before.entries.dom())
    &&& now == (StoreState { entries: now.entries, ..before })
    &&& now.entries.dom() == before.entries.dom()
    &&& forall|k: int|
        0 <= k < ids.len() ==> now.entries[#[trigger] ids[k]] == if k < count {
            after.entries[ids[k]]
        } else {
            before.entries[ids[k]]
        }
}

proof fn lemma_at(
    before: StoreState,
    after: StoreState,
    now: StoreState,
    ids: Seq<VirtualWorkspaceId>,
    i: int,
)
    requires
        partly_refocused(before, after, now, ids, i),
        0 <= i < ids.len(),
    ensures
        before.entries.contains_key(ids[i]),
        now.entries.contains_key(ids[i]),
        now.entries[ids[i]] == before.entries[ids[i]],
        forall|k: int| 0 <= k < ids.len() && k != i ==> #[trigger] ids[k] != ids[i],
{
    assert(ids.to_set().contains(ids[i]));
    assert forall|k: int| 0 <= k < ids.len() && k != i implies #[trigger] ids[k] != ids[i] by {
        if k < i {
            assert(crate::order::Ranked::rank(ids[k]) < crate::order::Ranked::rank(ids[i]));
        } else {
            assert(crate::order::Ranked::rank(ids[i]) < crate::order::Ranked::rank(ids[k]));
        }
    }
}

proof fn lemma_refocused(
    before: StoreState,
    after: StoreState,
    now: StoreState,
    ids: Seq<VirtualWorkspaceId>,
)
    requires
        partly_refocused(before, after, now, ids, ids.len() as int),
        after == (StoreState { entries: after.entries, ..before }),
        after.entries.dom() =~= before.entries.dom(),
    ensures
        now == after,
{
    assert forall|id: VirtualWorkspaceId| before.entries.contains_key(id) implies #[trigger]
    now.entries[id] == after.entries[id] by {
        assert(ids.to_set().contains(id));
        let k = choose|k: int| 0 <= k < ids.len() && ids[k] == id;
        assert(now.entries[ids[k]] == after.entries[ids[k]]);
    }
    assert(now.entries =~= after.entries);
}

} // verus!
