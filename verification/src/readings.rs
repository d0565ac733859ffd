//! What is read off a store, told by what the store holds.
use crate::desktop::display_picked;
use crate::desktop::displays_seen;
use crate::desktop::with_uuid;
use crate::desktop::Desktop;
use crate::desktop::DisplayState;
use crate::ids::SpaceId;
use crate::ids::VirtualWorkspaceId;
use crate::ids::WindowId;
use crate::order::lemma_listing;
use crate::order::lemma_sorted;
use crate::order::listing;
use crate::order::Ranked;
use crate::selectors::DisplaySelection;
use crate::sequences::lemma_filter;
use crate::sequences::lemma_filter_first;
use crate::sequences::lemma_filter_none;
use crate::soundness::listed_is_owned;
use crate::state::with_focus;
use crate::state::StoreState;
use crate::windows::WindowWorkspaceInfo;
use crate::workspace::WorkspaceStats;
use vstd::prelude::*;

verus! {

/// What a space shows, remembers, lists and has.
pub proof fn spaces_are_read(
    store: StoreState,
    space: SpaceId,
    id: VirtualWorkspaceId,
)
    ensures
        store.active_of(space) == Some(id) <==> store.active.contains_key(space.id)
            && store.active[space.id].1 == id,
        store.active_of(space) is None <==> !store.active.contains_key(space.id),
        store.previous_of(space) == Some(id) <==> store.active.contains_key(space.id)
            && store.active[space.id].0 == Some(id),
        store.list_of(space).contains(id) <==> store.by_space.contains_key(space.id)
            && store.by_space[space.id].contains(id),
        store.by_space.contains_key(space.id) ==> store.list_of(space) == store.by_space[space.id],
        store.owns(space, id) <==> store.entries.contains_key(id) && store.entries[id].space
            == space,
        store.space_of(id) is Some <==> store.entries.contains_key(id),
        store.space_of(id) == Some(space) <==> store.owns(space, id),
{
}

/// The workspaces of a space are those that it lists and has, in the order of
/// slots and, within a slot, of versions. Each stands there as often as it is
/// listed.
pub proof fn workspaces_of_a_space(store: StoreState, space: SpaceId)
    ensures
        forall|id: VirtualWorkspaceId| #[trigger]
            store.owned_ids(space).contains(id) <==> store.by_space.contains_key(space.id)
                && store.by_space[space.id].contains(id) && store.entries.contains_key(id)
                && store.entries[id].space == space,
        forall|i: int, j: int|
            #![trigger store.owned_ids(space)[i], store.owned_ids(space)[j]]
            0 <= i < j < store.owned_ids(space).len() ==> {
                let a = store.owned_ids(space)[i];
                let b = store.owned_ids(space)[j];
                a.index() < b.index() || (a.index() == b.index() && a.version() <= b.version())
            },
        store.owned_ids(space).to_multiset() == store.list_of(space).filter(
            |id: VirtualWorkspaceId|
                store.entries.contains_key(id) && store.entries[id].space == space,
        ).to_multiset(),
{
    let wanted = |id: VirtualWorkspaceId|
        store.entries.contains_key(id) && store.entries[id].space == space;
    let list = store.list_of(space);
    crate::sequences::lemma_filter_same(list, store.owned_by(space), wanted);
    lemma_filter(list, wanted);
    lemma_sorted(list.filter(wanted));
    let ids = store.owned_ids(space);
    assert forall|i: int, j: int|
        #![trigger store.owned_ids(space)[i], store.owned_ids(space)[j]]
        0 <= i < j < store.owned_ids(space).len() implies {
        let a = store.owned_ids(space)[i];
        let b = store.owned_ids(space)[j];
        a.index() < b.index() || (a.index() == b.index() && a.version() <= b.version())
    } by {
        assert(ids[i].rank() <= ids[j].rank());
        crate::ids::rank_is_slot_then_version(ids[i], ids[j]);
        crate::ids::rank_is_slot_then_version(ids[j], ids[i]);
    }
}

/// The workspaces of all spaces are those that exist and that some space lists,
/// each once, in the order of slots and, within a slot, of versions.
pub proof fn workspaces_of_all_spaces(store: StoreState)
    requires
        store.entries.dom().finite(),
    ensures
        forall|id: VirtualWorkspaceId| #[trigger]
            store.global_ids().contains(id) <==> store.entries.contains_key(id) && exists|key: u64|
                store.by_space.contains_key(key) && (#[trigger] store.by_space[key]).contains(id),
        forall|i: int, j: int|
            #![trigger store.global_ids()[i], store.global_ids()[j]]
            0 <= i < j < store.global_ids().len() ==> {
                let a = store.global_ids()[i];
                let b = store.global_ids()[j];
                a.index() < b.index() || (a.index() == b.index() && a.version() < b.version())
            },
{
    assert(store.pool().subset_of(store.entries.dom()));
    vstd::set_lib::lemma_len_subset(store.pool(), store.entries.dom());
    lemma_listing(store.pool());
    let ids = store.global_ids();
    assert forall|i: int, j: int|
        #![trigger store.global_ids()[i], store.global_ids()[j]]
        0 <= i < j < store.global_ids().len() implies {
        let a = store.global_ids()[i];
        let b = store.global_ids()[j];
        a.index() < b.index() || (a.index() == b.index() && a.version() < b.version())
    } by {
        assert(ids[i].rank() < ids[j].rank());
        crate::ids::rank_is_slot_then_version(ids[i], ids[j]);
    }
}

/// The number of what a space shows is its place among all workspaces where
/// displays share a pool, and else its place on the space.
pub proof fn active_number_is_a_place(store: StoreState, space: SpaceId)
    requires
        store.consistent(),
    ensures
        ({
            let ids = if store.settings.shared {
                store.global_ids()
            } else {
                store.owned_ids(space)
            };
            match store.active_number(space) {
                Some(place) => 0 <= place < ids.len() && store.active.contains_key(space.id)
                    && ids[place] == store.active[space.id].1,
                None => !store.active.contains_key(space.id),
            }
        }),
{
    crate::numbering::active_workspace_has_numbers(store, space);
    if let Some(active) = store.active_of(space) {
        crate::numbering::global_number_round_trip(store, 0, active);
        crate::numbering::local_number_round_trip(store, space, 0, active);
    }
}

/// The names that are listed are those of the workspaces of the space, in their
/// order, each exactly once.
pub proof fn listed_names(
    store: StoreState,
    space: SpaceId,
    listed: Seq<(VirtualWorkspaceId, String)>,
)
    requires
        store.consistent(),
        store.names_listed(space, listed),
    ensures
        forall|i: int|
            0 <= i < listed.len() ==> store.entries.contains_key((#[trigger] listed[i]).0)
                && store.entries[listed[i].0].space == space && store.entries[listed[i].0].name
                == listed[i].1@,
        forall|i: int, j: int|
            0 <= i < j < listed.len() ==> (#[trigger] listed[i]).0.index() < (
            #[trigger] listed[j]).0.index(),
        forall|id: VirtualWorkspaceId| #[trigger]
            store.entries.contains_key(id) && store.entries[id].space == space ==> exists|i: int|
                0 <= i < listed.len() && (#[trigger] listed[i]).0 == id,
{
    let ids = store.owned_ids(space);
    listed_is_owned(store, space);
    workspaces_of_a_space(store, space);
    assert forall|i: int| 0 <= i < listed.len() implies store.entries.contains_key(
        (#[trigger] listed[i]).0,
    ) && store.entries[listed[i].0].space == space && store.entries[listed[i].0].name
        == listed[i].1@ by {
        assert(ids.contains(ids[i]));
    }
    assert forall|i: int, j: int| 0 <= i < j < listed.len() implies (
    #[trigger] listed[i]).0.index() < (#[trigger] listed[j]).0.index() by {
        assert(listed[i].0 == ids[i] && listed[j].0 == ids[j]);
        assert(ids.contains(ids[i]) && ids.contains(ids[j]));
        assert(store.entries.contains_key(ids[i]) && store.entries.contains_key(ids[j]));
        assert(ids[i] != ids[j]);
    }
    assert forall|id: VirtualWorkspaceId| #[trigger]
        store.entries.contains_key(id) && store.entries[id].space == space implies exists|i: int|
        0 <= i < listed.len() && (#[trigger] listed[i]).0 == id by {
        assert(ids.contains(id));
        let k = choose|k: int| 0 <= k < ids.len() && ids[k] == id;
        assert(listed[k].0 == id);
    }
}

/// The places where windows were focused last are those of the workspaces that
/// remember one, each once, in the order of workspaces.
pub proof fn focus_is_listed(store: StoreState)
    requires
        store.entries.dom().finite(),
    ensures
        forall|space: SpaceId, id: VirtualWorkspaceId, window: WindowId| #[trigger]
            store.focus_locations().contains((space, id, window))
                <==> store.entries.contains_key(id) && store.entries[id].space == space
                && store.entries[id].last_focused == Some(window),
        forall|i: int, j: int|
            0 <= i < j < store.focus_locations().len() ==> (
            #[trigger] store.focus_locations()[i]).1.rank() < (
            #[trigger] store.focus_locations()[j]).1.rank(),
{
    let all = listing(store.entries.dom());
    let wanted = with_focus(store.entries);
    let ids = all.filter(wanted);
    let places = store.focus_locations();
    lemma_listing(store.entries.dom());
    lemma_filter(all, wanted);
    crate::numbering::lemma_filter_ascends(all, wanted);
    assert forall|space: SpaceId, id: VirtualWorkspaceId, window: WindowId| #[trigger]
        places.contains((space, id, window)) <==> store.entries.contains_key(id)
            && store.entries[id].space == space && store.entries[id].last_focused == Some(
            window,
        ) by {
        if places.contains((space, id, window)) {
            let k = choose|k: int| 0 <= k < places.len() && places[k] == (space, id, window);
            assert(ids[k] == id);
            assert(ids.contains(ids[k]));
            assert(all.contains(id) && wanted(id));
        }
        if store.entries.contains_key(id) && store.entries[id].space == space
            && store.entries[id].last_focused == Some(window) {
            assert(all.contains(id) && wanted(id));
            assert(ids.contains(id));
            let k = choose|k: int| 0 <= k < ids.len() && ids[k] == id;
            assert(places[k] == (space, id, window));
        }
    }
    assert forall|i: int, j: int| 0 <= i < j < places.len() implies (
    #[trigger] places[i]).1.rank() < (#[trigger] places[j]).1.rank() by {
        assert(ids[i].rank() < ids[j].rank());
    }
}

// Displays.

/// A display is seen as the space that it shows and its UUID.
pub proof fn displays_are_seen(visible: Seq<(SpaceId, Option<String>)>)
    ensures
        displays_seen(visible).len() == visible.len(),
        forall|i: int|
            #![trigger displays_seen(visible)[i]]
            0 <= i < visible.len() ==> displays_seen(visible)[i].0 == visible[i].0 && (
            match visible[i].1 {
                Some(uuid) => displays_seen(visible)[i].1 == Some(uuid@),
                None => displays_seen(visible)[i].1 is None,
            }),
{
}

/// The first display with a UUID.
pub open spec fn is_first_with_uuid(
    visible: Seq<DisplayState>,
    uuid: Seq<char>,
    space: SpaceId,
) -> bool {
    exists|i: int|
        0 <= i < visible.len() && (#[trigger] visible[i]).0 == space && visible[i].1 == Some(uuid)
            && forall|j: int| 0 <= j < i ==> (#[trigger] visible[j]).1 != Some(uuid)
}

/// A display is named by its place or, the first of several, by its UUID.
/// Directions and cycles name none.
pub proof fn displays_are_named(visible: Seq<DisplayState>, selection: DisplaySelection)
    ensures
        match selection {
            DisplaySelection::Index(index) => display_picked(visible, selection) == (if index
                < visible.len() {
                Some(visible[index as int].0)
            } else {
                None
            }),
            DisplaySelection::Uuid(uuid) => match display_picked(visible, selection) {
                Some(space) => is_first_with_uuid(visible, uuid, space),
                None => forall|i: int|
                    0 <= i < visible.len() ==> (#[trigger] visible[i]).1 != Some(uuid),
            },
            DisplaySelection::Direction(_) => display_picked(visible, selection) is None,
            DisplaySelection::Cycle(_) => display_picked(visible, selection) is None,
        },
{
    if let DisplaySelection::Uuid(uuid) = selection {
        let wanted = with_uuid(uuid);
        if exists|i: int| 0 <= i < visible.len() && wanted(#[trigger] visible[i]) {
            let i = choose|i: int| 0 <= i < visible.len() && wanted(#[trigger] visible[i]);
            let first = crate::admission::lemma_first_such(visible, wanted, i);
            lemma_filter_first(visible, wanted, first);
            assert(visible[first].0 == display_picked(visible, selection)->0);
            assert forall|j: int| 0 <= j < first implies (#[trigger] visible[j]).1 != Some(
                uuid,
            ) by {
                assert(!wanted(visible[j]));
            }
        } else {
            lemma_filter_none(visible, wanted);
            assert forall|i: int| 0 <= i < visible.len() implies (#[trigger] visible[i]).1 != Some(
                uuid,
            ) by {
                assert(!wanted(visible[i]));
            }
        }
    }
}

// Windows.

/// A window does not pass as shown on a space exactly where it is assigned to
/// another workspace of the space than the one that the space shows.
pub proof fn windows_pass_as_shown(desk: Desktop, space: SpaceId, window: WindowId)
    ensures
        !desk.passes_as_shown(space, window) <==> desk.store.active.contains_key(space.id)
            && desk.windows.assignments.values.contains_key(window)
            && desk.windows.assignments.values[window].space == space
            && desk.windows.assignments.values[window].workspace_id != desk.store.active[space.id].1,
{
}

/// Counts are of all workspaces, all assigned windows, all spaces that show a
/// workspace, and of the windows of each workspace on its space.
pub proof fn counts_are_complete(desk: Desktop, stats: WorkspaceStats, id: VirtualWorkspaceId)
    requires
        desk.counted_in(stats),
        desk.windows.assignments.well_formed(),
    ensures
        stats.total_workspaces == desk.store.entries.dom().len(),
        stats.total_windows == desk.windows.assignments.values.dom().len(),
        stats.active_spaces == desk.store.active.dom().len(),
        stats.workspace_window_counts@.contains_key(id.number())
            <==> desk.store.entries.contains_key(id),
        desk.store.entries.contains_key(id) ==> stats.workspace_window_counts@[id.number()]
            == desk.windows.assignments.values.dom().filter(
            |window: WindowId|
                desk.windows.assignments.values[window] == (WindowWorkspaceInfo {
                    space: desk.store.entries[id].space,
                    workspace_id: id,
                }),
        ).len(),
{
    desk.windows.assignments.order.unique_seq_to_set();
    if stats.workspace_window_counts@.contains_key(id.number()) {
        let found = choose|found: VirtualWorkspaceId|
            desk.store.entries.contains_key(found) && #[trigger] found.number() == id.number();
        crate::ids::number_of_slot(found, id);
    }
    if desk.store.entries.contains_key(id) {
        let info = WindowWorkspaceInfo { space: desk.store.entries[id].space, workspace_id: id };
        let windows = desk.windows.windows_in(info.space, id);
        let members = desk.windows.assignments.values.dom().filter(
            |window: WindowId| desk.windows.assignments.values[window] == info,
        );
        lemma_filter(desk.windows.assignments.order, desk.windows.assigned_as(info));
        assert(windows.to_set() =~= members) by {
            assert forall|window: WindowId| windows.to_set().contains(window)
                <==> members.contains(window) by {
                assert(desk.windows.assignments.order.to_set().contains(window)
                    <==> desk.windows.assignments.values.dom().contains(window));
                assert(windows.contains(window) <==> desk.windows.assignments.order.contains(window)
                    && desk.windows.info_of(window) == Some(info));
            }
        }
        windows.unique_seq_to_set();
    }
}

} // verus!
