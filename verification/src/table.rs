//! The workspaces in their slots, and how many slots are left.
use crate::ids::VirtualWorkspaceId;
use crate::slots::slot_entries;
use crate::slots::slot_upcoming;
use crate::slots::WorkspaceSlots;
use crate::workspace::VirtualWorkspace;
use vstd::prelude::*;

verus! {

/// Workspaces by identifier. A slot map does not say how many slots it can
/// still hand out, so that is counted here.
#[derive(Debug)]
pub struct WorkspaceTable {
    slots: WorkspaceSlots,
    left: u64,
}

impl WorkspaceTable {
    #[verifier::type_invariant]
    spec fn counts_slots(self) -> bool {
        slot_upcoming(self.slots).len() == self.left
    }

    /// The workspaces, by identifier.
    pub closed spec fn entries(self) -> Map<VirtualWorkspaceId, VirtualWorkspace> {
        slot_entries(self.slots)
    }

    /// The identifiers of the workspaces to come.
    pub closed spec fn upcoming(self) -> Seq<VirtualWorkspaceId> {
        slot_upcoming(self.slots)
    }

    pub(crate) fn new() -> (r: Self)
        ensures
            r.entries() == Map::<VirtualWorkspaceId, VirtualWorkspace>::empty(),
            r.upcoming() == crate::slots::initial_identifiers(),
    {
        let slots = WorkspaceSlots::new();
        assert(slot_entries(slots) =~= Map::empty());
        WorkspaceTable { slots, left: 0xffff_fffe }
    }

    /// How many workspaces can still be taken in.
    pub(crate) fn left(&self) -> (r: u64)
        ensures
            r == self.upcoming().len(),
    {
        proof {
            use_type_invariant(self);
        }
        self.left
    }

    pub(crate) fn len(&self) -> (r: usize)
        ensures
            crate::slots::has_size(self.entries().dom(), r as nat),
    {
        self.slots.len()
    }

    pub(crate) fn get(&self, id: VirtualWorkspaceId) -> (r: Option<&VirtualWorkspace>)
        ensures
            match r {
                Some(workspace) => self.entries().contains_key(id) && *workspace
                    == self.entries()[id],
                None => !self.entries().contains_key(id),
            },
    {
        self.slots.get(id)
    }

    pub(crate) fn get_mut(&mut self, id: VirtualWorkspaceId) -> (r: Option<&mut VirtualWorkspace>)
        ensures
            match r {
                Some(workspace) => old(self).entries().contains_key(id) && *workspace
                    == old(self).entries()[id] && final(self).entries() == old(
                    self,
                ).entries().insert(id, *final(workspace)) && final(self).upcoming() == old(
                    self,
                ).upcoming(),
                None => !old(self).entries().contains_key(id) && *final(self) == *old(self),
            },
    {
        proof {
            use_type_invariant(&*self);
        }
        self.slots.get_mut(id)
    }

    /// Hands out all that is held, and holds nothing.
    fn drain(&mut self) -> (r: (WorkspaceSlots, u64))
        ensures
            slot_entries(r.0) == old(self).entries(),
            slot_upcoming(r.0) == old(self).upcoming(),
            slot_upcoming(r.0).len() == r.1,
    {
        let mut all = WorkspaceTable::new();
        std::mem::swap(&mut all, self);
        proof {
            use_type_invariant(&all);
        }
        (all.slots, all.left)
    }

    /// Takes a workspace in under the first upcoming identifier.
    pub(crate) fn insert(&mut self, workspace: VirtualWorkspace) -> (r: VirtualWorkspaceId)
        requires
            old(self).upcoming().len() > 0,
        ensures
            r == old(self).upcoming()[0],
            !old(self).entries().contains_key(r),
            final(self).entries() == old(self).entries().insert(r, workspace),
            final(self).upcoming() == old(self).upcoming().drop_first(),
    {
        let (mut slots, left) = self.drain();
        let id = slots.insert(workspace);
        *self = WorkspaceTable { slots, left: left - 1 };
        id
    }

    /// Takes a workspace out and frees its slot: the next workspace takes it.
    pub(crate) fn free(&mut self, id: VirtualWorkspaceId)
        requires
            old(self).entries().contains_key(id),
            old(self).upcoming().len() < 0xffff_ffff,
        ensures
            final(self).entries() == old(self).entries().remove(id),
            final(self).upcoming() == seq![id.renewed()] + old(self).upcoming(),
    {
        let (mut slots, left) = self.drain();
        let _ = slots.remove(id);
        *self = WorkspaceTable { slots, left: left + 1 };
    }

    /// Takes a workspace out. Its slot is never taken again, so that workspaces
    /// are in the order of creation.
    pub(crate) fn retire(&mut self, id: VirtualWorkspaceId)
        ensures
            final(self).entries() == old(self).entries().remove(id),
            final(self).upcoming() == old(self).upcoming(),
    {
        let (mut slots, left) = self.drain();
        let ghost held = slot_entries(slots);
        let _ = slots.detach(id);
        assert(slot_entries(slots) =~= held.remove(id));
        *self = WorkspaceTable { slots, left };
    }

    /// The identifiers of the workspaces, by slot.
    pub(crate) fn keys(&self) -> (r: Vec<VirtualWorkspaceId>)
        ensures
            crate::order::ascends(r@),
            r@.to_set() == self.entries().dom(),
    {
        self.slots.keys()
    }
}

} // verus!
