//! What assigning, moving and removing windows does, and where windows are
//! found.
use crate::desktop::numbered_window;
use crate::desktop::Desktop;
use crate::ids::SpaceId;
use crate::ids::VirtualWorkspaceId;
use crate::ids::WindowId;
use crate::laws::assigned_is_sound;
use crate::laws::window_is_in_its_workspace_alone;
use crate::order::ascends;
use crate::order::lemma_listing;
use crate::order::listing;
use crate::order::Ranked;
use crate::sequences::first_of;
use crate::sequences::lemma_filter;
use crate::sequences::lemma_filter_first;
use crate::sequences::lemma_filter_none;
use crate::soundness::listed_is_owned;
use crate::state::StoreState;
use crate::windows::WindowRecord;
use crate::windows::WindowState;
use crate::windows::WindowWorkspaceInfo;
use crate::workspace::Failure;
use crate::workspace::WorkspaceState;
use vstd::prelude::*;

verus! {

/// What a window is assigned to is what is held for it.
pub proof fn assignments_are_held(windows: WindowState, window: WindowId)
    ensures
        windows.info_of(window) is Some <==> windows.assignments.values.contains_key(window),
        windows.info_of(window) matches Some(info) ==> info == windows.assignments.values[window],
{
}

/// Assigning a window to a workspace that the space has changes the assignment of
/// that window alone, which comes last if it had none and else keeps its place.
/// The workspace that it leaves, and no other, forgets it if it remembers it.
/// Nothing else changes. Where the space does not have the workspace, nothing
/// changes at all.
pub proof fn assigning_changes_one_window(
    desk: Desktop,
    space: SpaceId,
    window: WindowId,
    id: VirtualWorkspaceId,
)
    requires
        desk.sound(),
    ensures
        ({
            let after = desk.assigned(space, window, id);
            let owned = desk.store.entries.contains_key(id) && desk.store.entries[id].space == space;
            let known = desk.windows.assignments.values.contains_key(window);
            &&& !owned ==> after == desk
            &&& owned ==> {
                &&& after.windows.assignments.values == desk.windows.assignments.values.insert(
                    window,
                    WindowWorkspaceInfo { space, workspace_id: id },
                )
                &&& after.windows.assignments.order == (if known {
                    desk.windows.assignments.order
                } else {
                    desk.windows.assignments.order.push(window)
                })
                &&& after.windows.rule_floating == desk.windows.rule_floating
                &&& after.windows.records == desk.windows.records
                &&& after.store.entries.dom() == desk.store.entries.dom()
                &&& forall|x: VirtualWorkspaceId| #[trigger]
                    desk.store.entries.contains_key(x) ==> after.store.entries[x] == (if known
                        && desk.windows.assignments.values[window].workspace_id == x && x != id
                        && desk.store.entries[x].last_focused == Some(window) {
                        WorkspaceState { last_focused: None, ..desk.store.entries[x] }
                    } else {
                        desk.store.entries[x]
                    })
                &&& after.store.by_space == desk.store.by_space
                &&& after.store.active == desk.store.active
                &&& after.store.upcoming == desk.store.upcoming
                &&& after.store.counter == desk.store.counter
                &&& after.store.last_global == desk.store.last_global
                &&& after.store.settings == desk.store.settings
            }
        }),
{
    let after = desk.assigned(space, window, id);
    if desk.windows.assignments.values.contains_key(window) {
        let info = desk.windows.assignments.values[window];
        assert(desk.store.owns(info.space, info.workspace_id));
    }
    assert(after.store.entries.dom() =~= desk.store.entries.dom());
}

/// A window without assignment is moved nowhere, and one on the space stays
/// where it is.
pub proof fn nothing_to_move(desk: Desktop, space: SpaceId, window: WindowId)
    ensures
        !desk.windows.assignments.values.contains_key(window) ==> desk.counterpart_reached(
            space,
            window,
        ) is None && desk.moved_to_counterpart(space, window) == desk,
        desk.windows.assignments.values.contains_key(window)
            && desk.windows.assignments.values[window].space == space ==> desk.counterpart_reached(
            space,
            window,
        ) == Some(desk.windows.assignments.values[window].workspace_id)
            && desk.moved_to_counterpart(space, window) == desk,
{
}

/// Where spaces have their own workspaces, a window moves from the workspace at a
/// place of its space to the one at the same place of the other space, whichever
/// place that is, and stays where it is if the other space has none there.
pub proof fn window_moves_to_the_same_place(
    desk: Desktop,
    space: SpaceId,
    window: WindowId,
    from: SpaceId,
    place: int,
)
    requires
        desk.sound(),
        !desk.store.settings.shared,
        from != space,
        0 <= place < desk.store.owned_ids(from).len(),
        desk.windows.assignments.values.contains_key(window),
        desk.windows.assignments.values[window] == (WindowWorkspaceInfo {
            space: from,
            workspace_id: desk.store.owned_ids(from)[place],
        }),
    ensures
        place < desk.store.owned_ids(space).len() ==> {
            let target = desk.store.owned_ids(space)[place];
            let after = desk.moved_to_counterpart(space, window);
            &&& desk.counterpart_reached(space, window) == Some(target)
            &&& after.windows.assignments.values.contains_key(window)
            &&& after.windows.assignments.values[window] == (WindowWorkspaceInfo {
                space,
                workspace_id: target,
            })
            &&& after == desk.assigned(space, window, target)
            &&& after.sound()
        },
        place >= desk.store.owned_ids(space).len() ==> desk.counterpart_reached(
            space,
            window,
        ) is None && desk.moved_to_counterpart(space, window) == desk,
{
    let ids = desk.store.owned_ids(from);
    listed_is_owned(desk.store, from);
    listed_is_owned(desk.store, space);
    ids.index_of_first_ensures(ids[place]);
    assert(ids.contains(ids[place]));
    if place < desk.store.owned_ids(space).len() {
        let target = desk.store.owned_ids(space)[place];
        assert(desk.store.owned_ids(space).contains(target));
        assigned_is_sound(desk, space, window, target);
    }
}

/// Every assigned window of a sound desktop is in a workspace that has a place on
/// its space.
pub proof fn every_window_has_a_place(desk: Desktop, window: WindowId)
    requires
        desk.sound(),
        desk.windows.assignments.values.contains_key(window),
    ensures
        desk.store.owned_ids(desk.windows.assignments.values[window].space).contains(
            desk.windows.assignments.values[window].workspace_id,
        ),
{
    let info = desk.windows.assignments.values[window];
    listed_is_owned(desk.store, info.space);
    assert(desk.store.owns(info.space, info.workspace_id));
}

/// Where displays share a pool, a window moves to what the other space shows,
/// and stays where it is if that shows nothing.
pub proof fn window_joins_what_is_shown(desk: Desktop, space: SpaceId, window: WindowId)
    requires
        desk.sound(),
        desk.store.settings.shared,
        desk.windows.assignments.values.contains_key(window),
        desk.windows.assignments.values[window].space != space,
    ensures
        !desk.store.active.contains_key(space.id) ==> desk.counterpart_reached(
            space,
            window,
        ) is None && desk.moved_to_counterpart(space, window) == desk,
        desk.store.active.contains_key(space.id) ==> {
            let target = desk.store.active[space.id].1;
            let after = desk.moved_to_counterpart(space, window);
            &&& desk.counterpart_reached(space, window) == Some(target)
            &&& after == desk.assigned(space, window, target)
            &&& after.windows.assignments.values[window] == (WindowWorkspaceInfo {
                space,
                workspace_id: target,
            })
        },
{
    if desk.store.active.contains_key(space.id) {
        let target = desk.store.active[space.id].1;
        assert(desk.store.by_space[space.id].contains(target));
        assert(desk.store.owns(space, target));
        assigned_is_sound(desk, space, window, target);
    }
}

/// The workspace for windows that have no other is what the space shows, if that
/// exists, or else the first that the space has. Where the space shows nothing
/// that exists, it shows that one afterwards, or nothing if there is none.
/// Nothing else changes but, never, what was left last.
pub proof fn default_is_shown_or_first(store: StoreState, space: SpaceId)
    requires
        store.consistent(),
    ensures
        store.active.contains_key(space.id) ==> store.default_on(space) == Ok::<
            VirtualWorkspaceId,
            Failure,
        >(store.active[space.id].1) && store.default_shown(space) == store,
        !store.active.contains_key(space.id) ==> match store.default_on(space) {
            Ok(id) => {
                &&& store.entries.contains_key(id)
                &&& store.entries[id].space == space
                &&& forall|other: VirtualWorkspaceId| #[trigger]
                    store.entries.contains_key(other) && store.entries[other].space == space
                        ==> id.rank() <= other.rank()
                &&& store.default_shown(space) == (StoreState {
                    active: store.active.insert(space.id, (None, id)),
                    ..store
                })
            },
            Err(failure) => {
                &&& failure == Failure::InconsistentState("No workspaces for space"@)
                &&& forall|other: VirtualWorkspaceId| #[trigger]
                    store.entries.contains_key(other) ==> store.entries[other].space != space
                &&& store.default_shown(space) == store
            },
        },
{
    listed_is_owned(store, space);
    let ids = store.owned_ids(space);
    if store.active.contains_key(space.id) {
        assert(store.by_space[space.id].contains(store.active[space.id].1));
        assert(store.owns(space, store.active[space.id].1));
    } else {
        assert(store.without_active(space).active =~= store.active);
        assert(store.without_active(space) =~= store);
        if ids.len() > 0 {
            assert(ids.contains(ids[0]));
            assert(store.owns(space, ids[0]));
            assert forall|other: VirtualWorkspaceId| #[trigger]
                store.entries.contains_key(other) && store.entries[other].space
                    == space implies ids[0].rank() <= other.rank() by {
                assert(ids.contains(other));
                let k = choose|k: int| 0 <= k < ids.len() && ids[k] == other;
                if k > 0 {
                    assert(ids[0].rank() < ids[k].rank());
                }
            }
        } else {
            assert forall|other: VirtualWorkspaceId| #[trigger]
                store.entries.contains_key(other) implies store.entries[other].space != space by {
                if store.owns(space, other) {
                    assert(ids.contains(other));
                }
            }
        }
    }
}

/// A window that is assigned by itself goes to the workspace for windows that
/// have no other and no longer floats. Where there is no such workspace it is
/// assigned nowhere.
pub proof fn auto_assigning(desk: Desktop, space: SpaceId, window: WindowId)
    requires
        desk.sound(),
    ensures
        desk.auto_assignment(space) == desk.store.default_on(space),
        desk.store.default_on(space) matches Ok(id) ==> {
            let shown = Desktop { store: desk.store.default_shown(space), ..desk };
            let assigned = shown.assigned(space, window, id);
            let after = desk.auto_assigned(space, window);
            &&& after.store == assigned.store
            &&& after.windows.assignments == assigned.windows.assignments
            &&& after.windows.assignments.values[window] == (WindowWorkspaceInfo {
                space,
                workspace_id: id,
            })
            &&& after.windows.rule_floating == desk.windows.rule_floating.remove(window)
            &&& after.windows.records == desk.windows.records
        },
        desk.store.default_on(space) is Err ==> desk.auto_assigned(space, window) == (Desktop {
            store: desk.store.default_shown(space),
            ..desk
        }),
{
    default_is_shown_or_first(desk.store, space);
    listed_is_owned(desk.store, space);
    if desk.store.active.contains_key(space.id) {
        assert(desk.store.by_space[space.id].contains(desk.store.active[space.id].1));
        assert(desk.store.owns(space, desk.store.active[space.id].1));
    }
}

/// A removed window loses its assignment and all that the rules said about it,
/// and no other window loses anything.
pub proof fn removal_is_of_one_window(windows: WindowState, window: WindowId)
    ensures
        ({
            let after = windows.unassigned(window).unruled(window);
            &&& forall|other: WindowId| #[trigger]
                after.assignments.values.contains_key(other) <==> other != window
                    && windows.assignments.values.contains_key(other)
            &&& forall|other: WindowId|
                other != window && windows.assignments.values.contains_key(other)
                    ==> #[trigger] after.assignments.values[other]
                    == windows.assignments.values[other]
            &&& forall|other: WindowId| #[trigger]
                after.rule_floating.contains(other) <==> other != window
                    && windows.rule_floating.contains(other)
            &&& after.records.dom() == windows.records.dom()
            &&& forall|other: WindowId| #[trigger]
                windows.records.contains_key(other) ==> after.records[other] == (if other
                    == window {
                    WindowRecord {
                        manageable: windows.records[other].manageable,
                        manage_override: None,
                    }
                } else {
                    windows.records[other]
                })
        }),
{
    let after = windows.unassigned(window).unruled(window);
    assert(after.records.dom() =~= windows.records.dom());
}

/// Removing an app takes the assignments of its windows, and what the rules said
/// about those that had one; other windows keep all they had.
pub proof fn removal_is_of_one_app(windows: WindowState, pid: i32)
    ensures
        ({
            let after = windows.without_app(pid);
            &&& forall|window: WindowId| #[trigger]
                after.assignments.values.contains_key(window) <==> window.pid != pid
                    && windows.assignments.values.contains_key(window)
            &&& forall|window: WindowId|
                window.pid != pid && windows.assignments.values.contains_key(window)
                    ==> #[trigger] after.assignments.values[window]
                    == windows.assignments.values[window]
            &&& forall|window: WindowId| #[trigger]
                after.rule_floating.contains(window) <==> windows.rule_floating.contains(window)
                    && !(window.pid == pid && windows.assignments.values.contains_key(window))
            &&& after.records.dom() == windows.records.dom()
            &&& forall|window: WindowId| #[trigger]
                windows.records.contains_key(window) ==> after.records[window] == (if window.pid
                    == pid && windows.assignments.values.contains_key(window) {
                    WindowRecord {
                        manageable: windows.records[window].manageable,
                        manage_override: None,
                    }
                } else {
                    windows.records[window]
                })
        }),
{
    let after = windows.without_app(pid);
    assert(after.records.dom() =~= windows.records.dom());
}

/// Those that stay assigned stay in their order.
pub proof fn removals_keep_the_order(windows: WindowState, window: WindowId, pid: i32)
    ensures
        windows.unassigned(window).unruled(window).assignments.order
            == windows.assignments.order.filter(|other: WindowId| other != window),
        windows.without_app(pid).assignments.order == windows.assignments.order.filter(
            |other: WindowId| other.pid != pid,
        ),
{
    let first = |other: WindowId| other != window;
    let second = |other: WindowId| other.pid != pid;
    crate::sequences::lemma_filter_same(
        windows.assignments.order,
        crate::roster::other_than(window),
        first,
    );
    crate::sequences::lemma_filter_same(
        windows.assignments.order,
        crate::windows::not_of_app(pid),
        second,
    );
}

/// When windows get another assignment, exactly those with the given one do, in
/// place, and nothing else changes.
pub proof fn moved_assignments(
    windows: WindowState,
    from: WindowWorkspaceInfo,
    to: WindowWorkspaceInfo,
)
    ensures
        windows.moved(from, to).assignments.order == windows.assignments.order,
        windows.moved(from, to).assignments.values.dom() == windows.assignments.values.dom(),
        forall|window: WindowId| #[trigger]
            windows.assignments.values.contains_key(window) ==> windows.moved(
                from,
                to,
            ).assignments.values[window] == (if windows.assignments.values[window] == from {
                to
            } else {
                windows.assignments.values[window]
            }),
        windows.moved(from, to).rule_floating == windows.rule_floating,
        windows.moved(from, to).records == windows.records,
{
    assert(windows.moved(from, to).assignments.values.dom() =~= windows.assignments.values.dom());
}

// Finding windows.

/// A window that is found on a space by its number is assigned there and has the
/// number, and none assigned before it is such a window. None is found only
/// where there is none.
pub proof fn found_by_number(desk: Desktop, space: SpaceId, idx: u32)
    requires
        desk.windows.assignments.well_formed(),
    ensures
        ({
            let order = desk.windows.assignments.order;
            let values = desk.windows.assignments.values;
            match first_of(order.filter(desk.numbered_on(space, idx))) {
                Some(window) => exists|i: int|
                    0 <= i < order.len() && #[trigger] order[i] == window && window.idx == idx
                        && values[window].space == space && forall|j: int|
                        0 <= j < i ==> !((#[trigger] order[j]).idx == idx && values[order[j]].space
                            == space),
                None => forall|window: WindowId| #[trigger]
                    values.contains_key(window) && values[window].space == space ==> window.idx
                        != idx,
            }
        }),
{
    let order = desk.windows.assignments.order;
    let values = desk.windows.assignments.values;
    let wanted = desk.numbered_on(space, idx);
    if exists|i: int| 0 <= i < order.len() && wanted(#[trigger] order[i]) {
        let i = choose|i: int| 0 <= i < order.len() && wanted(#[trigger] order[i]);
        let first = crate::admission::lemma_first_such(order, wanted, i);
        lemma_filter_first(order, wanted, first);
        assert(order[first] == first_of(order.filter(wanted))->0);
        assert forall|j: int| 0 <= j < first implies !((#[trigger] order[j]).idx == idx
            && values[order[j]].space == space) by {
            assert(!wanted(order[j]));
        }
    } else {
        lemma_filter_none(order, wanted);
        assert forall|window: WindowId| #[trigger] values.contains_key(window)
            && values[window].space == space implies window.idx != idx by {
            assert(order.to_set().contains(window));
            let i = choose|i: int| 0 <= i < order.len() && order[i] == window;
            assert(!wanted(order[i]));
        }
    }
}

/// A window that is found in a workspace by its number is in it and has the
/// number. None is found only where there is none.
pub proof fn found_in_workspace_by_number(
    desk: Desktop,
    space: SpaceId,
    id: VirtualWorkspaceId,
    idx: u32,
)
    requires
        desk.windows.assignments.well_formed(),
    ensures
        ({
            let owned = desk.store.entries.contains_key(id) && desk.store.entries[id].space == space;
            let info = WindowWorkspaceInfo { space, workspace_id: id };
            match first_of(
                desk.store.windows_shown(desk.windows, space, id).filter(numbered_window(idx)),
            ) {
                Some(window) => owned && window.idx == idx && desk.windows.info_of(window) == Some(
                    info,
                ),
                None => owned ==> forall|window: WindowId| #[trigger]
                    desk.windows.info_of(window) == Some(info) ==> window.idx != idx,
            }
        }),
{
    let windows = desk.store.windows_shown(desk.windows, space, id);
    let wanted = numbered_window(idx);
    lemma_filter(windows, wanted);
    let found = windows.filter(wanted);
    if found.len() > 0 {
        assert(found.contains(found[0]));
        window_is_in_its_workspace_alone(desk.windows, found[0], space, id);
    } else {
        assert forall|window: WindowId| #[trigger]
            desk.windows.info_of(window) == Some(
                WindowWorkspaceInfo { space, workspace_id: id },
            ) && desk.store.owns(space, id) implies window.idx != idx by {
            window_is_in_its_workspace_alone(desk.windows, window, space, id);
            if window.idx == idx {
                assert(found.contains(window));
            }
        }
    }
}

/// The windows of a workspace on a space are those with that assignment, in the
/// order of assignments, and none where the space does not have the workspace.
pub proof fn windows_of_a_workspace(
    desk: Desktop,
    space: SpaceId,
    id: VirtualWorkspaceId,
    window: WindowId,
)
    requires
        desk.windows.assignments.well_formed(),
    ensures
        desk.store.windows_shown(desk.windows, space, id).contains(window)
            <==> desk.store.entries.contains_key(id) && desk.store.entries[id].space == space
            && desk.windows.info_of(window) == Some(
            WindowWorkspaceInfo { space, workspace_id: id },
        ),
        desk.store.windows_shown(desk.windows, space, id).no_duplicates(),
        forall|i: int, j: int|
            0 <= i < j < desk.store.windows_shown(desk.windows, space, id).len()
                ==> desk.windows.assignments.order.index_of(
                #[trigger] desk.store.windows_shown(desk.windows, space, id)[i],
            ) < desk.windows.assignments.order.index_of(
                #[trigger] desk.store.windows_shown(desk.windows, space, id)[j],
            ),
{
    window_is_in_its_workspace_alone(desk.windows, window, space, id);
    let order = desk.windows.assignments.order;
    let wanted = desk.windows.assigned_as(WindowWorkspaceInfo { space, workspace_id: id });
    lemma_filter_keeps_order(order, wanted);
}

/// A filter keeps the order.
proof fn lemma_filter_keeps_order<T>(s: Seq<T>, wanted: spec_fn(T) -> bool)
    requires
        s.no_duplicates(),
    ensures
        forall|i: int, j: int|
            0 <= i < j < s.filter(wanted).len() ==> s.index_of(#[trigger] s.filter(wanted)[i])
                < s.index_of(#[trigger] s.filter(wanted)[j]),
    decreases s.len(),
{
    reveal(Seq::filter);
    if s.len() > 0 {
        let rest = s.drop_last();
        lemma_filter_keeps_order(rest, wanted);
        lemma_filter(rest, wanted);
        let kept = s.filter(wanted);
        let fewer = rest.filter(wanted);
        assert forall|x: T| #[trigger] rest.contains(x) implies s.index_of(x) == rest.index_of(x)
            && 0 <= rest.index_of(x) < rest.len() by {
            let k = rest.index_of(x);
            assert(s[k] == x);
            assert(s[s.index_of(x)] == x);
        }
        assert forall|i: int, j: int| 0 <= i < j < kept.len() implies s.index_of(
            #[trigger] kept[i],
        ) < s.index_of(#[trigger] kept[j]) by {
            assert(i < fewer.len());
            assert(kept[i] == fewer[i]);
            assert(fewer.contains(fewer[i]));
            assert(rest.contains(fewer[i]));
            if j < fewer.len() {
                assert(kept[j] == fewer[j]);
                assert(fewer.contains(fewer[j]));
                assert(rest.contains(fewer[j]));
            } else {
                assert(kept[j] == s.last());
                assert(s[s.len() - 1] == s.last());
                assert(s[s.index_of(s.last())] == s.last());
            }
        }
    }
}

/// The windows that a space hides are those assigned to a workspace that it has
/// and does not show.
pub proof fn hidden_windows(desk: Desktop, space: SpaceId, window: WindowId)
    requires
        desk.windows.assignments.well_formed(),
        desk.store.entries.dom().finite(),
    ensures
        desk.store.windows_of_all(
            desk.windows,
            space,
            listing(desk.store.entries.dom()).filter(desk.store.inactive_on(space)),
        ).contains(window) <==> (desk.windows.info_of(window) matches Some(info) && info.space
            == space && desk.store.entries.contains_key(info.workspace_id)
            && desk.store.entries[info.workspace_id].space == space && !(
        desk.store.active.contains_key(space.id) && desk.store.active[space.id].1
            == info.workspace_id)),
{
    let all = listing(desk.store.entries.dom());
    let wanted = desk.store.inactive_on(space);
    lemma_listing(desk.store.entries.dom());
    lemma_filter(all, wanted);
    crate::laws::lemma_windows_of_all(desk, space, all.filter(wanted), window);
    if let Some(info) = desk.windows.info_of(window) {
        assert(all.filter(wanted).contains(info.workspace_id) <==> all.contains(info.workspace_id)
            && wanted(info.workspace_id));
    }
}

/// The windows of workspaces in ascending order come workspace by workspace, and
/// those of one workspace in the order of assignments.
proof fn lemma_windows_in_order(desk: Desktop, space: SpaceId, ids: Seq<VirtualWorkspaceId>)
    requires
        desk.windows.assignments.well_formed(),
        ascends(ids),
    ensures
        forall|p: int, q: int|
            0 <= p < q < desk.store.windows_of_all(desk.windows, space, ids).len()
                ==> desk.windows.comes_first(
                #[trigger] desk.store.windows_of_all(desk.windows, space, ids)[p],
                #[trigger] desk.store.windows_of_all(desk.windows, space, ids)[q],
            ),
    decreases ids.len(),
{
    if ids.len() > 0 {
        let fewer = ids.drop_last();
        let id = ids.last();
        assert(ascends(fewer)) by {
            assert forall|i: int, j: int| 0 <= i < j < fewer.len() implies (
            #[trigger] fewer[i]).rank() < (#[trigger] fewer[j]).rank() by {
                assert(ids[i].rank() < ids[j].rank());
            }
        }
        lemma_windows_in_order(desk, space, fewer);
        let ahead = desk.store.windows_of_all(desk.windows, space, fewer);
        let here = desk.windows.windows_in(space, id);
        let all = desk.store.windows_of_all(desk.windows, space, ids);
        let order = desk.windows.assignments.order;
        let wanted = desk.windows.assigned_as(WindowWorkspaceInfo { space, workspace_id: id });
        lemma_filter_keeps_order(order, wanted);
        assert forall|p: int, q: int| 0 <= p < q < all.len() implies desk.windows.comes_first(
            #[trigger] all[p],
            #[trigger] all[q],
        ) by {
            if q < ahead.len() {
                assert(all[p] == ahead[p] && all[q] == ahead[q]);
            } else {
                assert(all[q] == here[q - ahead.len()]);
                assert(here.contains(all[q]));
                window_is_in_its_workspace_alone(desk.windows, all[q], space, id);
                if p < ahead.len() {
                    assert(all[p] == ahead[p]);
                    assert(ahead.contains(all[p]));
                    crate::laws::lemma_windows_of_all(desk, space, fewer, all[p]);
                    let owner = desk.windows.info_of(all[p])->0.workspace_id;
                    let k = choose|k: int| 0 <= k < fewer.len() && fewer[k] == owner;
                    assert(ids[k].rank() < ids[ids.len() - 1].rank());
                } else {
                    assert(all[p] == here[p - ahead.len()]);
                    assert(here.contains(all[p]));
                    window_is_in_its_workspace_alone(desk.windows, all[p], space, id);
                }
            }
        }
    }
}

/// Where a space shows a workspace that does not exist, windows without any other
/// go to its first one. The space shows that then, and remembers nothing of the
/// one that does not exist. Where it has none, it shows nothing.
pub proof fn missing_workspace_is_forgotten(store: StoreState, space: SpaceId)
    requires
        store.active.contains_key(space.id),
        !store.entries.contains_key(store.active[space.id].1),
    ensures
        store.owned_ids(space).len() > 0 ==> store.default_on(space) == Ok::<
            VirtualWorkspaceId,
            Failure,
        >(store.owned_ids(space)[0]) && store.default_shown(space) == (StoreState {
            active: store.active.insert(space.id, (None, store.owned_ids(space)[0])),
            ..store
        }),
        store.owned_ids(space).len() == 0 ==> store.default_on(space) is Err
            && store.default_shown(space) == (StoreState {
            active: store.active.remove(space.id),
            ..store
        }),
{
    if store.owned_ids(space).len() > 0 {
        let list = store.list_of(space);
        let first = store.owned_ids(space)[0];
        lemma_filter(list, store.owned_by(space));
        crate::order::lemma_sorted(list.filter(store.owned_by(space)));
        assert(store.owned_ids(space).contains(first));
        assert(list.filter(store.owned_by(space)).contains(first));
        assert(store.owns(space, first));
        assert(store.default_shown(space).active =~= store.active.insert(space.id, (None, first)));
    }
}

/// A window goes to no workspace of another space, even where the space shows one:
/// asking for that fails, and nothing changes.
pub proof fn no_workspace_of_another_space(desk: Desktop, space: SpaceId, window: WindowId)
    requires
        desk.store.active.contains_key(space.id),
        desk.store.entries.contains_key(desk.store.active[space.id].1),
        desk.store.entries[desk.store.active[space.id].1].space != space,
    ensures
        desk.auto_assignment(space) == Err::<VirtualWorkspaceId, Failure>(
            Failure::AssignmentFailed,
        ),
        desk.auto_assigned(space, window) == desk,
{
}

impl WindowState {
    /// One window is in an earlier workspace than another, or in the same and was
    /// assigned first.
    pub open spec fn comes_first(self, one: WindowId, other: WindowId) -> bool {
        let a = self.assignments.values[one].workspace_id;
        let b = self.assignments.values[other].workspace_id;
        a.rank() < b.rank() || (a == b && self.assignments.order.index_of(one)
            < self.assignments.order.index_of(other))
    }
}

/// The windows that a space hides come workspace by workspace, in the order of
/// creation, and those of one workspace in the order of assignments.
pub proof fn hidden_windows_in_order(desk: Desktop, space: SpaceId, p: int, q: int)
    requires
        desk.windows.assignments.well_formed(),
        desk.store.entries.dom().finite(),
        0 <= p < q < desk.store.windows_of_all(
            desk.windows,
            space,
            listing(desk.store.entries.dom()).filter(desk.store.inactive_on(space)),
        ).len(),
    ensures
        ({
            let hidden = desk.store.windows_of_all(
                desk.windows,
                space,
                listing(desk.store.entries.dom()).filter(desk.store.inactive_on(space)),
            );
            desk.windows.comes_first(hidden[p], hidden[q])
        }),
{
    lemma_listing(desk.store.entries.dom());
    crate::numbering::lemma_filter_ascends(
        listing(desk.store.entries.dom()),
        desk.store.inactive_on(space),
    );
    lemma_windows_in_order(
        desk,
        space,
        listing(desk.store.entries.dom()).filter(desk.store.inactive_on(space)),
    );
}

} // verus!
