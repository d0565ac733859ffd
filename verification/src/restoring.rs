//! A store is built again from what was stored of it. Identifiers are stable:
//! every workspace is back under its own.
use crate::ids::identifier_is_its_slot;
use crate::ids::identifier_of_slot;
use crate::ids::renewed_keeps_slot;
use crate::ids::SpaceId;
use crate::ids::VirtualWorkspaceId;
use crate::layout::LayoutMode;
use crate::layout::LayoutSettings;
use crate::order::lemma_listing;
use crate::order::listing;
use crate::sequences::lemma_push_contains;
use crate::slots::initial_identifiers;
use crate::soundness::lemma_taken_slots;
use crate::state::StoreState;
use crate::store::blank_settings;
use crate::store::lists_held;
use crate::store::WorkspaceStore;
use crate::workspace::VirtualWorkspace;
use crate::workspace::WorkspaceState;
use std::collections::HashMap;
use vstd::prelude::*;

verus! {

/// The identifiers name slots that can be taken, in ascending order.
pub open spec fn restorable(ids: Seq<VirtualWorkspaceId>) -> bool {
    &&& forall|i: int| 0 <= i < ids.len() ==> 1 <= (#[trigger] ids[i]).index() <= 0xffff_fffe
    &&& forall|i: int, j: int|
        0 <= i < j < ids.len() ==> (#[trigger] ids[i]).index() < (#[trigger] ids[j]).index()
}

/// The identifiers of stored workspaces.
pub open spec fn stored_ids(workspaces: Seq<(VirtualWorkspaceId, VirtualWorkspace)>) -> Seq<
    VirtualWorkspaceId,
> {
    workspaces.map_values(|stored: (VirtualWorkspaceId, VirtualWorkspace)| stored.0)
}

/// The slot of the last of some identifiers, or 0.
pub open spec fn last_slot(ids: Seq<VirtualWorkspaceId>) -> int {
    if ids.len() == 0 {
        0
    } else {
        ids.last().index()
    }
}

impl StoreState {
    /// The store holds exactly the stored workspaces, each under its
    /// identifier.
    pub open spec fn holds_stored(
        self,
        workspaces: Seq<(VirtualWorkspaceId, VirtualWorkspace)>,
    ) -> bool {
        &&& self.entries.dom() == stored_ids(workspaces).to_set()
        &&& forall|i: int|
            0 <= i < workspaces.len() ==> self.entries[(#[trigger] workspaces[i]).0]
                == workspaces[i].1@
    }
}

/// What a store can hold can be stored and restored: in a consistent store the
/// identifiers of the workspaces, in order, name slots in ascending order.
pub proof fn everything_is_restorable(store: StoreState)
    requires
        store.consistent(),
    ensures
        restorable(listing(store.entries.dom())),
{
    let ids = listing(store.entries.dom());
    lemma_listing(store.entries.dom());
    assert forall|i: int| 0 <= i < ids.len() implies 1 <= (#[trigger] ids[i]).index()
        <= 0xffff_fffe by {
        assert(ids.contains(ids[i]));
        assert(store.entries.contains_key(ids[i]));
    }
    assert forall|i: int, j: int| 0 <= i < j < ids.len() implies (#[trigger] ids[i]).index() < (
    #[trigger] ids[j]).index() by {
        assert(ids.contains(ids[i]) && ids.contains(ids[j]));
        assert(store.entries.contains_key(ids[i]) && store.entries.contains_key(ids[j]));
        assert(crate::order::Ranked::rank(ids[i]) < crate::order::Ranked::rank(ids[j]));
        crate::ids::rank_is_slot_then_version(ids[i], ids[j]);
    }
}

/// Storing the workspaces of a store in order and restoring them gives every one
/// of them back under its identifier, and no other.
pub proof fn restored_is_what_was_stored(
    store: StoreState,
    workspaces: Seq<(VirtualWorkspaceId, VirtualWorkspace)>,
    restored: StoreState,
)
    requires
        store.consistent(),
        stored_ids(workspaces) == listing(store.entries.dom()),
        forall|i: int|
            0 <= i < workspaces.len() ==> (#[trigger] workspaces[i]).1@
                == store.entries[workspaces[i].0],
        restored.holds_stored(workspaces),
    ensures
        restored.entries == store.entries,
{
    let ids = stored_ids(workspaces);
    lemma_listing(store.entries.dom());
    assert forall|id: VirtualWorkspaceId| restored.entries.dom().contains(id)
        <==> store.entries.dom().contains(id) by {
        assert(ids.contains(id) <==> ids.to_set().contains(id));
    }
    assert forall|id: VirtualWorkspaceId| store.entries.contains_key(id) implies #[trigger]
    restored.entries[id] == store.entries[id] by {
        assert(ids.contains(id));
        let i = choose|i: int| 0 <= i < ids.len() && ids[i] == id;
        assert(workspaces[i].0 == id);
    }
    assert(restored.entries =~= store.entries);
}

/// A store that was read back goes on behind the last slot that it holds, in
/// order, so that no identifier is given a second time.
pub proof fn restored_goes_on_behind_the_last(ids: Seq<VirtualWorkspaceId>, later: int)
    requires
        restorable(ids),
        0 <= later < initial_identifiers().skip(last_slot(ids)).len(),
    ensures
        ids.len() == 0 ==> initial_identifiers().skip(last_slot(ids))[later].index() == 1 + later,
        ids.len() > 0 ==> initial_identifiers().skip(last_slot(ids))[later].index()
            == ids[ids.len() - 1].index() + 1 + later,
        initial_identifiers().skip(last_slot(ids))[later].version() == 1,
        forall|i: int|
            0 <= i < ids.len() ==> (#[trigger] ids[i]).index() < initial_identifiers().skip(
                last_slot(ids),
            )[later].index(),
{
    identifier_of_slot(last_slot(ids) + 1 + later, 1);
    assert forall|i: int| 0 <= i < ids.len() implies (#[trigger] ids[i]).index() <= last_slot(
        ids,
    ) by {
        if i < ids.len() - 1 {
            assert(ids[i].index() < ids[ids.len() - 1].index());
        }
    }
}

/// A workspace that only holds a slot: without name, on space 0, laid out
/// as the standard settings say.
fn stand_in() -> (r: VirtualWorkspace)
    ensures
        r@ == WorkspaceState::created(
            Seq::empty(),
            (SpaceId { id: 0 }),
            LayoutMode::Traditional,
            LayoutSettings::standard(),
        ),
{
    VirtualWorkspace::new(
        String::new(),
        SpaceId { id: 0 },
        LayoutMode::default(),
        &LayoutSettings::default(),
    )
}

/// The first `done` workspaces are back, `fillers` hold the slots between them,
/// and `next` is the first slot that was never taken.
spec fn partly_restored(
    store: StoreState,
    workspaces: Seq<(VirtualWorkspaceId, VirtualWorkspace)>,
    done: int,
    fillers: Seq<VirtualWorkspaceId>,
    next: int,
) -> bool {
    &&& 1 <= next <= 0xffff_ffff
    &&& store == (StoreState {
        entries: store.entries,
        upcoming: initial_identifiers().skip(next - 1),
        ..StoreState::empty(blank_settings())
    })
    &&& store.slots_in_order()
    &&& store.entries.dom().finite()
    &&& fillers.no_duplicates()
    &&& forall|id: VirtualWorkspaceId| #[trigger]
        store.entries.contains_key(id) <==> stored_ids(workspaces).take(done).contains(id)
            || fillers.contains(id)
    &&& forall|i: int|
        0 <= i < done ==> store.entries[(#[trigger] workspaces[i]).0] == workspaces[i].1@
            && workspaces[i].0.index() < next && !fillers.contains(workspaces[i].0)
    &&& forall|i: int| 0 <= i < fillers.len() ==> (#[trigger] fillers[i]).index() < next
}

/// Taking the next slot keeps slots in order.
proof fn lemma_minted_slots(store: StoreState, entry: WorkspaceState)
    requires
        store.slots_in_order(),
        store.upcoming.len() > 0,
        store.entries.dom().finite(),
    ensures
        store.minted(entry).slots_in_order(),
        store.minted(entry).entries.dom().finite(),
{
    let after = store.minted(entry);
    let taken = store.upcoming.take(1);
    assert(taken =~= seq![store.upcoming[0]]);
    assert forall|id: VirtualWorkspaceId| #[trigger] after.entries.contains_key(id)
        <==> store.entries.contains_key(id) || taken.contains(id) by {
        assert(taken[0] == store.upcoming[0]);
    }
    lemma_taken_slots(store, after.entries, 1);
    assert(store.upcoming.skip(1) =~= store.upcoming.drop_first());
    assert(after.entries.dom() =~= store.entries.dom().insert(store.upcoming[0]));
}

/// Freeing the last slot that was taken keeps slots in order.
proof fn lemma_freed_slots(store: StoreState, id: VirtualWorkspaceId)
    requires
        store.slots_in_order(),
        store.entries.contains_key(id),
        forall|other: VirtualWorkspaceId| #[trigger]
            store.entries.contains_key(other) ==> other.index() <= id.index(),
    ensures
        (StoreState {
            entries: store.entries.remove(id),
            upcoming: seq![id.renewed()] + store.upcoming,
            ..store
        }).slots_in_order(),
{
    renewed_keeps_slot(id);
    let after = StoreState {
        entries: store.entries.remove(id),
        upcoming: seq![id.renewed()] + store.upcoming,
        ..store
    };
    assert forall|i: int| 0 <= i < after.upcoming.len() implies #[trigger] after.upcoming[i]
        == if i == 0 {
        id.renewed()
    } else {
        store.upcoming[i - 1]
    } by {}
    assert forall|a: VirtualWorkspaceId, b: VirtualWorkspaceId|
        #![trigger after.entries.contains_key(a), after.entries.contains_key(b)]
        after.entries.contains_key(a) && after.entries.contains_key(b) && a.index()
            == b.index() implies a == b by {
        assert(store.entries.contains_key(a) && store.entries.contains_key(b));
    }
    assert forall|i: int, j: int| 0 <= i < j < after.upcoming.len() implies (
    #[trigger] after.upcoming[i]).index() < (#[trigger] after.upcoming[j]).index() by {
        assert(id.index() < store.upcoming[j - 1].index());
    }
    assert forall|a: VirtualWorkspaceId, i: int|
        after.entries.contains_key(a) && 0 <= i < after.upcoming.len() implies #[trigger] a.index()
        < (#[trigger] after.upcoming[i]).index() by {
        assert(store.entries.contains_key(a));
        if i > 0 {
            assert(a.index() < store.upcoming[i - 1].index());
        }
    }
}

/// Taking a workspace out keeps slots in order.
proof fn lemma_discard_slots(store: StoreState, id: VirtualWorkspaceId)
    requires
        store.slots_in_order(),
    ensures
        (StoreState { entries: store.entries.remove(id), ..store }).slots_in_order(),
{
    let after = StoreState { entries: store.entries.remove(id), ..store };
    assert forall|a: VirtualWorkspaceId| #[trigger]
        after.entries.contains_key(a) implies store.entries.contains_key(a) by {}
    assert forall|a: VirtualWorkspaceId, i: int|
        after.entries.contains_key(a) && 0 <= i < after.upcoming.len() implies #[trigger] a.index()
        < (#[trigger] after.upcoming[i]).index() by {
        assert(store.entries.contains_key(a));
    }
}

impl WorkspaceStore {
    /// Fills the slots before `slot`.
    fn fill_up_to(
        &mut self,
        workspaces: Ghost<Seq<(VirtualWorkspaceId, VirtualWorkspace)>>,
        done: Ghost<int>,
        fillers: &mut Vec<VirtualWorkspaceId>,
        next: u64,
        slot: u64,
    )
        requires
            partly_restored(old(self)@, workspaces@, done@, old(fillers)@, next as int),
            0 <= done@ <= workspaces@.len(),
            next <= slot <= 0xffff_fffe,
        ensures
            partly_restored(final(self)@, workspaces@, done@, final(fillers)@, slot as int),
    {
        let mut at: u64 = next;
        while at < slot
            invariant
                partly_restored(self@, workspaces@, done@, fillers@, at as int),
                0 <= done@ <= workspaces@.len(),
                at <= slot <= 0xffff_fffe,
            decreases slot - at,
        {
            let ghost before = self@;
            let ghost filled = fillers@;
            let ghost id = before.upcoming[0];
            proof {
                assert(id == initial_identifiers()[at - 1]);
                identifier_of_slot(at as int, 1);
            }
            let filler = stand_in();
            proof {
                lemma_minted_slots(before, filler@);
            }
            let taken = self.mint(filler);
            fillers.push(taken);
            proof {
                assert(initial_identifiers().skip(at - 1).drop_first()
                    =~= initial_identifiers().skip(at as int));
                assert forall|x: VirtualWorkspaceId| #[trigger] fillers@.contains(x)
                    <==> filled.contains(x) || x == id by {
                    lemma_push_contains(filled, id, x);
                }
                assert(!filled.contains(id)) by {
                    if filled.contains(id) {
                        let i = choose|i: int| 0 <= i < filled.len() && filled[i] == id;
                        assert(filled[i].index() < at);
                    }
                }
                assert forall|i: int| 0 <= i < done@ implies self@.entries[(
                #[trigger] workspaces@[i]).0] == workspaces@[i].1@ && workspaces@[i].0.index() < at
                    + 1 && !fillers@.contains(workspaces@[i].0) by {
                    assert(workspaces@[i].0.index() < at);
                }
            }
            at += 1;
        }
    }

    /// Takes and frees the next slot until its version is `version`.
    fn age_slot(&mut self, slot: u64, version: u64)
        requires
            old(self)@.slots_in_order(),
            old(self)@.entries.dom().finite(),
            1 <= slot <= 0xffff_fffe,
            version % 2 == 1,
            version < 0x1_0000_0000,
            old(self)@.upcoming == initial_identifiers().skip(slot - 1),
        ensures
            final(self)@ == (StoreState {
                upcoming: seq![VirtualWorkspaceId::at(slot as int, version as int)]
                    + initial_identifiers().skip(slot as int),
                ..old(self)@
            }),
            final(self)@.slots_in_order(),
    {
        let ghost start = self@;
        let ghost rest = initial_identifiers().skip(slot as int);
        let mut reached: u64 = 1;
        proof {
            assert(initial_identifiers().skip(slot - 1) =~= seq![
                VirtualWorkspaceId::at(slot as int, 1),
            ] + rest);
        }
        while reached < version
            invariant
                1 <= slot <= 0xffff_fffe,
                version % 2 == 1,
                version < 0x1_0000_0000,
                reached % 2 == 1,
                reached <= version,
                rest == initial_identifiers().skip(slot as int),
                start.entries.dom().finite(),
                self@ == (StoreState {
                    upcoming: seq![VirtualWorkspaceId::at(slot as int, reached as int)] + rest,
                    ..start
                }),
                self@.slots_in_order(),
            decreases version - reached,
        {
            let ghost before = self@;
            let filler = stand_in();
            let ghost id = VirtualWorkspaceId::at(slot as int, reached as int);
            proof {
                lemma_minted_slots(before, filler@);
                assert(before.upcoming[0] == id);
                assert(before.upcoming.drop_first() =~= rest);
                identifier_of_slot(slot as int, reached as int);
            }
            let taken = self.mint(filler);
            proof {
                assert forall|other: VirtualWorkspaceId| #[trigger]
                    self@.entries.contains_key(other) implies other.index() <= taken.index() by {
                    if other != taken {
                        assert(before.entries.contains_key(other));
                        assert(other.index() < before.upcoming[0].index());
                    }
                }
                lemma_freed_slots(self@, taken);
            }
            self.free_slot(taken);
            proof {
                assert(taken.renewed() == VirtualWorkspaceId::at(slot as int, reached + 2));
                assert(self@.entries =~= start.entries);
            }
            reached += 2;
        }
    }

    /// Gives up the slots between the workspaces.
    fn give_up(
        &mut self,
        workspaces: Ghost<Seq<(VirtualWorkspaceId, VirtualWorkspace)>>,
        fillers: &Vec<VirtualWorkspaceId>,
        next: Ghost<int>,
    )
        requires
            partly_restored(
                old(self)@,
                workspaces@,
                workspaces@.len() as int,
                fillers@,
                next@,
            ),
        ensures
            final(self)@ == (StoreState {
                entries: final(self)@.entries,
                upcoming: initial_identifiers().skip(next@ - 1),
                ..StoreState::empty(blank_settings())
            }),
            final(self)@.slots_in_order(),
            final(self)@.entries.dom().finite(),
            final(self)@.holds_stored(workspaces@),
    {
        let ghost ids = stored_ids(workspaces@);
        assert(ids.take(ids.len() as int) =~= ids);
        assert(fillers@.skip(0) =~= fillers@);
        let mut i: usize = 0;
        while i < fillers.len()
            invariant
                i <= fillers.len(),
                ids == stored_ids(workspaces@),
                self@ == (StoreState {
                    entries: self@.entries,
                    upcoming: initial_identifiers().skip(next@ - 1),
                    ..StoreState::empty(blank_settings())
                }),
                self@.slots_in_order(),
                self@.entries.dom().finite(),
                fillers@.no_duplicates(),
                forall|id: VirtualWorkspaceId| #[trigger]
                    self@.entries.contains_key(id) <==> ids.contains(id) || fillers@.skip(
                        i as int,
                    ).contains(id),
                forall|k: int|
                    0 <= k < workspaces@.len() ==> self@.entries[(#[trigger] workspaces@[k]).0]
                        == workspaces@[k].1@ && !fillers@.contains(workspaces@[k].0),
            decreases fillers.len() - i,
        {
            let id = fillers[i];
            let ghost before = self@;
            proof {
                assert(fillers@.skip(i as int)[0] == id);
                assert(fillers@.skip(i as int).contains(id));
                lemma_discard_slots(before, id);
                assert(fillers@.contains(id));
                assert(!ids.contains(id)) by {
                    if ids.contains(id) {
                        let k = choose|k: int| 0 <= k < ids.len() && ids[k] == id;
                        assert(workspaces@[k].0 == id);
                    }
                }
            }
            self.discard(id);
            proof {
                assert forall|x: VirtualWorkspaceId| #[trigger]
                    self@.entries.contains_key(x) <==> ids.contains(x) || fillers@.skip(
                        i + 1,
                    ).contains(x) by {
                    let here = fillers@.skip(i as int);
                    let next = fillers@.skip(i + 1);
                    if next.contains(x) {
                        let k = choose|k: int| 0 <= k < next.len() && next[k] == x;
                        assert(here[k + 1] == x);
                        assert(fillers@[i + 1 + k] != fillers@[i as int]);
                    }
                    if here.contains(x) && x != id {
                        let k = choose|k: int| 0 <= k < here.len() && here[k] == x;
                        assert(k > 0);
                        assert(next[k - 1] == x);
                    }
                }
                assert forall|k: int| 0 <= k < workspaces@.len() implies self@.entries[(
                #[trigger] workspaces@[k]).0] == workspaces@[k].1@ && !fillers@.contains(
                    workspaces@[k].0,
                ) by {
                    assert(workspaces@[k].0 != id);
                }
            }
            i += 1;
        }
        proof {
            assert(fillers@.skip(fillers.len() as int) =~= Seq::empty());
            assert(self@.entries.dom() =~= ids.to_set());
        }
    }

    /// A store with the given workspaces under their identifiers, and with the
    /// given lists, active workspaces and counter. It has no settings yet:
    /// those come with `update_settings`. New workspaces take the slots behind
    /// the last of the given ones. There is no store where the workspaces are
    /// not in the order of slots.
    pub fn restore(
        workspaces: Vec<(VirtualWorkspaceId, VirtualWorkspace)>,
        workspaces_by_space: HashMap<u64, Vec<VirtualWorkspaceId>>,
        active_workspace_per_space: HashMap<u64, (Option<VirtualWorkspaceId>, VirtualWorkspaceId)>,
        workspace_counter: usize,
    ) -> (r: Option<Self>)
        ensures
            match r {
                Some(store) => restorable(stored_ids(workspaces@)) && store@.holds_stored(
                    workspaces@,
                ) && store@ == (StoreState {
                    entries: store@.entries,
                    upcoming: initial_identifiers().skip(last_slot(stored_ids(workspaces@))),
                    by_space: lists_held(workspaces_by_space@),
                    active: active_workspace_per_space@,
                    counter: workspace_counter as nat,
                    last_global: None,
                    settings: blank_settings(),
                }) && store@.slots_in_order() && store@.entries.dom().finite(),
                None => !restorable(stored_ids(workspaces@)),
            },
    {
        let ghost all = workspaces@;
        let ghost ids = stored_ids(all);
        let count: usize = workspaces.len();
        let mut rest = workspaces;
        let mut store = WorkspaceStore::blank();
        let mut fillers: Vec<VirtualWorkspaceId> = Vec::new();
        let mut next: u64 = 1;
        let mut done: usize = 0;
        proof {
            crate::soundness::empty_is_consistent(blank_settings());
            assert(ids.take(0) =~= Seq::empty());
            assert(initial_identifiers().skip(0) =~= initial_identifiers());
            assert(all.skip(0) =~= all);
        }
        while done < count
            invariant
                done <= count,
                count == all.len(),
                all == workspaces@,
                ids == stored_ids(all),
                rest@ == all.skip(done as int),
                partly_restored(store@, all, done as int, fillers@, next as int),
                restorable(ids.take(done as int)),
                done > 0 ==> next == ids[done - 1].index() + 1,
                done == 0 ==> next == 1,
            decreases count - done,
        {
            let ghost before_rest = rest@;
            let (id, workspace) = rest.remove(0);
            proof {
                assert(before_rest[0] == all[done as int]);
                assert(rest@ =~= all.skip(done + 1));
                assert(ids[done as int] == id);
                identifier_is_its_slot(id);
            }
            let slot: u64 = id.slot();
            if slot < next || slot > 0xffff_fffe {
                proof {
                    if restorable(ids) {
                        assert(1 <= ids[done as int].index() <= 0xffff_fffe);
                        if done > 0 {
                            assert(ids[done - 1].index() < ids[done as int].index());
                        }
                    }
                }
                return None;
            }
            store.fill_up_to(Ghost(all), Ghost(done as int), &mut fillers, next, slot);
            store.age_slot(slot, id.slot_version());
            let ghost before = store@;
            proof {
                lemma_minted_slots(before, workspace@);
                assert(before.upcoming[0] == id);
                assert(before.upcoming.drop_first() =~= initial_identifiers().skip(slot as int));
            }
            let _ = store.mint(workspace);
            proof {
                assert(ids.take(done + 1) =~= ids.take(done as int).push(id));
                assert forall|x: VirtualWorkspaceId| #[trigger]
                    ids.take(done + 1).contains(x) <==> ids.take(done as int).contains(x) || x
                        == id by {
                    lemma_push_contains(ids.take(done as int), id, x);
                }
                assert forall|i: int| 0 <= i < done + 1 implies store@.entries[(
                #[trigger] all[i]).0] == all[i].1@ && all[i].0.index() < slot + 1
                    && !fillers@.contains(all[i].0) by {
                    if i == done {
                        if fillers@.contains(id) {
                            let k = choose|k: int| 0 <= k < fillers.len() && fillers@[k] == id;
                            assert(fillers@[k].index() < slot);
                        }
                    }
                }
                assert(restorable(ids.take(done + 1))) by {
                    let first = ids.take(done + 1);
                    assert forall|i: int| 0 <= i < first.len() implies 1 <= (
                    #[trigger] first[i]).index() <= 0xffff_fffe by {
                        if i < done {
                            assert(ids.take(done as int)[i] == first[i]);
                        }
                    }
                    assert forall|i: int, j: int| 0 <= i < j < first.len() implies (
                    #[trigger] first[i]).index() < (#[trigger] first[j]).index() by {
                        if j < done {
                            assert(ids.take(done as int)[i].index() < ids.take(
                                done as int,
                            )[j].index());
                        } else {
                            assert(all[i].0 == ids[i]);
                        }
                    }
                }
            }
            next = slot + 1;
            done += 1;
        }
        assert(ids.take(ids.len() as int) =~= ids);
        store.give_up(Ghost(all), &fillers, Ghost(next as int));
        store.take_topology(workspaces_by_space, active_workspace_per_space, workspace_counter);
        Some(store)
    }
}

} // verus!
