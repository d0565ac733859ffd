//! The slot map that holds the workspaces.
//!
//! What is trusted here is the behaviour of `slotmap::SlotMap`; everything
//! built on it is proved.
use crate::ids::VirtualWorkspaceId;
use crate::order::ascends;
use crate::workspace::VirtualWorkspace;
use slotmap::DefaultKey;
use slotmap::Key;
use slotmap::KeyData;
use slotmap::SlotMap;
use vstd::prelude::*;

verus! {

/// Workspaces in a `slotmap::SlotMap`, which hands out their identifiers.
#[verifier::external_body]
#[derive(Debug)]
pub struct WorkspaceSlots {
    slots: SlotMap<DefaultKey, VirtualWorkspace>,
}

/// The workspaces that a slot map holds, by identifier.
pub uninterp spec fn slot_entries(slots: WorkspaceSlots) -> Map<
    VirtualWorkspaceId,
    VirtualWorkspace,
>;

/// The identifiers that a slot map will hand out, in that order, if it is only
/// inserted into from now on. It is full where there is none.
pub uninterp spec fn slot_upcoming(slots: WorkspaceSlots) -> Seq<VirtualWorkspaceId>;

/// The identifiers that a new slot map hands out: the slots from 1 up to the
/// one before the last 32-bit number, each in its first version.
pub open spec fn initial_identifiers() -> Seq<VirtualWorkspaceId> {
    Seq::new(0xffff_fffe, |i: int| VirtualWorkspaceId::at(i + 1, 1))
}

/// `set` has `n` members.
pub open spec fn has_size<T>(set: Set<T>, n: nat) -> bool {
    set.finite() && set.len() == n
}

impl WorkspaceSlots {
    /// `SlotMap::default`: a map that holds nothing. It keeps slot 0 to
    /// itself and takes new slots in ascending order.
    #[verifier::external_body]
    pub(crate) fn new() -> (r: Self)
        ensures
            slot_entries(r).dom() == Set::<VirtualWorkspaceId>::empty(),
            slot_upcoming(r) == initial_identifiers(),
    {
        WorkspaceSlots { slots: SlotMap::default() }
    }

    /// `SlotMap::len`: how many workspaces the map holds.
    #[verifier::external_body]
    pub(crate) fn len(&self) -> (r: usize)
        ensures
            has_size(slot_entries(*self).dom(), r as nat),
    {
        self.slots.len()
    }

    /// `SlotMap::get`: the workspace of an identifier, if the map holds it.
    #[verifier::external_body]
    pub(crate) fn get(&self, id: VirtualWorkspaceId) -> (r: Option<&VirtualWorkspace>)
        ensures
            match r {
                Some(workspace) => slot_entries(*self).contains_key(id) && *workspace
                    == slot_entries(*self)[id],
                None => !slot_entries(*self).contains_key(id),
            },
    {
        self.slots.get(DefaultKey::from(KeyData::from_ffi(id.raw)))
    }

    /// `SlotMap::get_mut`: the workspace of an identifier, if the map holds
    /// it. Writing to it changes that workspace alone. The call never panics.
    #[verifier::external_body]
    pub(crate) fn get_mut(&mut self, id: VirtualWorkspaceId) -> (r: Option<&mut VirtualWorkspace>)
        ensures
            match r {
                Some(workspace) => slot_entries(*old(self)).contains_key(id) && *workspace
                    == slot_entries(*old(self))[id] && slot_entries(*final(self)) == slot_entries(
                    *old(self),
                ).insert(id, *final(workspace)) && slot_upcoming(*final(self)) == slot_upcoming(
                    *old(self),
                ),
                None => !slot_entries(*old(self)).contains_key(id) && *final(self) == *old(self),
            },
        no_unwind
    {
        self.slots.get_mut(DefaultKey::from(KeyData::from_ffi(id.raw)))
    }

    /// `SlotMap::insert`: takes the first upcoming identifier, which no
    /// workspace in the map has. It panics where there is none.
    #[verifier::external_body]
    pub(crate) fn insert(&mut self, workspace: VirtualWorkspace) -> (r: VirtualWorkspaceId)
        requires
            slot_upcoming(*old(self)).len() > 0,
        ensures
            r == slot_upcoming(*old(self))[0],
            !slot_entries(*old(self)).contains_key(r),
            slot_entries(*final(self)) == slot_entries(*old(self)).insert(r, workspace),
            slot_upcoming(*final(self)) == slot_upcoming(*old(self)).drop_first(),
    {
        VirtualWorkspaceId { raw: self.slots.insert(workspace).data().as_ffi() }
    }

    /// `SlotMap::remove`: takes a workspace out. Its slot is the first to be
    /// taken again, in the next version.
    #[verifier::external_body]
    pub(crate) fn remove(&mut self, id: VirtualWorkspaceId) -> (r: Option<VirtualWorkspace>)
        ensures
            match r {
                Some(workspace) => slot_entries(*old(self)).contains_key(id) && workspace
                    == slot_entries(*old(self))[id] && slot_entries(*final(self)) == slot_entries(
                    *old(self),
                ).remove(id) && slot_upcoming(*final(self)) == seq![id.renewed()] + slot_upcoming(
                    *old(self),
                ),
                None => !slot_entries(*old(self)).contains_key(id) && *final(self) == *old(self),
            },
    {
        self.slots.remove(DefaultKey::from(KeyData::from_ffi(id.raw)))
    }

    /// `SlotMap::detach`: takes a workspace out. Its slot is not among those to
    /// be taken again.
    #[verifier::external_body]
    pub(crate) fn detach(&mut self, id: VirtualWorkspaceId) -> (r: Option<VirtualWorkspace>)
        ensures
            match r {
                Some(workspace) => slot_entries(*old(self)).contains_key(id) && workspace
                    == slot_entries(*old(self))[id] && slot_entries(*final(self)) == slot_entries(
                    *old(self),
                ).remove(id) && slot_upcoming(*final(self)) == slot_upcoming(*old(self)),
                None => !slot_entries(*old(self)).contains_key(id) && *final(self) == *old(self),
            },
    {
        self.slots.detach(DefaultKey::from(KeyData::from_ffi(id.raw)))
    }

    /// `SlotMap::keys`: the identifiers of the workspaces in the map, by slot.
    #[verifier::external_body]
    pub(crate) fn keys(&self) -> (r: Vec<VirtualWorkspaceId>)
        ensures
            ascends(r@),
            r@.to_set() == slot_entries(*self).dom(),
    {
        self.slots.keys().map(|key| VirtualWorkspaceId { raw: key.data().as_ffi() }).collect()
    }
}

} // verus!
