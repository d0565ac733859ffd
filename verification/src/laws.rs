//! What holds of windows, focus, active workspaces and app rules, whatever
//! the store holds.
use crate::app_rules::AppRuleResult;
use crate::app_rules::RuleDecision;
use crate::desktop::Desktop;
use crate::ids::SpaceId;
use crate::ids::VirtualWorkspaceId;
use crate::ids::WindowId;
use crate::layout::LayoutSettings;
use crate::sequences::lemma_filter;
use crate::settings::VirtualWorkspaceSettings;
use crate::soundness::activated_is_consistent;
use crate::soundness::creation_is_consistent;
use crate::soundness::default_shown_is_consistent;
use crate::soundness::initialized_is_consistent;
use crate::soundness::lemma_same_places;
use crate::soundness::listed_is_owned;
use crate::soundness::pool_is_everything;
use crate::soundness::settled_is_consistent;
use crate::state::StoreState;
use crate::windows::WindowState;
use crate::windows::WindowWorkspaceInfo;
use vstd::prelude::*;

verus! {

/// A consistent store that keeps all workspaces where they were keeps the
/// windows placed.
pub proof fn lemma_still_placed(desk: Desktop, store: StoreState)
    requires
        desk.sound(),
        store.consistent(),
        store.keeps(desk.store),
    ensures
        (Desktop { store, ..desk }).sound(),
{
    let after = Desktop { store, ..desk };
    assert forall|window: WindowId| #[trigger]
        after.windows.assignments.values.contains_key(window) implies after.store.owns(
        after.windows.assignments.values[window].space,
        after.windows.assignments.values[window].workspace_id,
    ) by {
        assert(desk.windows.assignments.values.contains_key(window));
        let info = desk.windows.assignments.values[window];
        assert(desk.store.entries.contains_key(info.workspace_id));
    }
}

/// Making an entry for a space keeps everything sound.
pub proof fn initialized_is_sound(desk: Desktop, space: SpaceId)
    requires
        desk.sound(),
        desk.store.can_initialize(space),
    ensures
        (Desktop { store: desk.store.initialized(space), ..desk }).sound(),
{
    initialized_is_consistent(desk.store, space);
    lemma_still_placed(desk, desk.store.initialized(space));
}

/// Making an entry for a space that has one changes nothing.
pub proof fn initializing_twice(store: StoreState, space: SpaceId)
    requires
        store.can_initialize(space),
    ensures
        store.initialized(space).initialized(space) == store.initialized(space),
        store.initialized(space).can_initialize(space),
{
    crate::creation::lemma_initialized(store, space);
}

/// A change of settings keeps everything sound.
pub proof fn settled_is_sound(
    desk: Desktop,
    config: VirtualWorkspaceSettings,
    layout_settings: LayoutSettings,
)
    requires
        desk.sound(),
        desk.store.upcoming.len() >= desk.store.under(config, layout_settings).shortfall(),
    ensures
        (Desktop {
            store: desk.store.under(config, layout_settings).settled(),
            ..desk
        }).sound(),
{
    settled_is_consistent(desk.store, config, layout_settings);
    lemma_still_placed(desk, desk.store.under(config, layout_settings).settled());
}

/// Asking for a workspace keeps everything sound.
pub proof fn creation_is_sound(desk: Desktop, space: SpaceId, name: Option<Seq<char>>)
    requires
        desk.sound(),
        desk.store.can_initialize(space),
        desk.store.initialized(space).creation(space) is Ok ==> desk.store.initialized(
            space,
        ).upcoming.len() > 0,
    ensures
        (Desktop { store: desk.store.initialized(space).with_new(space, name), ..desk }).sound(),
{
    let ready = desk.store.initialized(space);
    initialized_is_consistent(desk.store, space);
    creation_is_consistent(desk.store, space, name);
    let after = ready.with_new(space, name);
    assert forall|id: VirtualWorkspaceId| #[trigger] desk.store.entries.contains_key(
        id,
    ) implies after.owns(desk.store.entries[id].space, id) by {
        assert(ready.entries.contains_key(id));
        if ready.creation(space) is Ok {
            assert(id.index() != ready.upcoming[0].index());
        }
    }
    lemma_still_placed(desk, after);
}

/// Showing another workspace keeps everything sound.
pub proof fn activated_is_sound(desk: Desktop, space: SpaceId, id: VirtualWorkspaceId)
    requires
        desk.sound(),
    ensures
        (Desktop { store: desk.store.activated(space, id), ..desk }).sound(),
{
    activated_is_consistent(desk.store, space, id);
    lemma_still_placed(desk, desk.store.activated(space, id));
}

/// A workspace that was asked for is on the space, under the given name, and all
/// others stay as they were. It is refused exactly at the limit, which is never
/// passed.
pub proof fn created_workspace_is_there(store: StoreState, space: SpaceId, name: Seq<char>)
    requires
        store.consistent(),
        store.by_space.contains_key(space.id),
        store.upcoming.len() > 0,
    ensures
        store.creation(space) matches Ok(id) ==> {
            let after = store.with_new(space, Some(name));
            &&& !store.entries.contains_key(id)
            &&& after.owns(space, id)
            &&& after.entries[id].name == name
            &&& after.list_of(space) == store.list_of(space).push(id)
            &&& forall|other: VirtualWorkspaceId| #[trigger]
                store.entries.contains_key(other) ==> after.entries.contains_key(other)
                    && after.entries[other] == store.entries[other]
        },
        store.creation(space) is Err ==> store.with_new(space, Some(name)) == store,
        store.creation(space) is Err <==> store.occupied(space) >= store.settings.max_workspaces,
        store.occupied(space) <= store.settings.max_workspaces ==> store.with_new(
            space,
            Some(name),
        ).occupied(space) <= store.settings.max_workspaces,
{
    let index = store.occupied(space);
    if index < store.settings.max_workspaces {
        let id = store.upcoming[0];
        let entry = store.settings.fresh(space, index, name);
        crate::soundness::added_is_consistent(store, entry);
        crate::growth::lemma_added_pool(store, entry);
        pool_is_everything(store);
        let added = store.added(entry);
        let after = store.with_new(space, Some(name));
        assert(after.entries == added.entries && after.by_space == added.by_space);
        assert(after.global_ids() == added.global_ids());
    }
}

// Active workspaces.

/// A space that is made to show one of its workspaces shows it, and remembers
/// the one that it showed before. Going back gives that one, and remembers the
/// other.
pub proof fn back_and_forth(
    store: StoreState,
    space: SpaceId,
    first: VirtualWorkspaceId,
    second: VirtualWorkspaceId,
)
    requires
        store.owns(space, first),
        store.owns(space, second),
        store.active_of(space) == Some(first),
        first != second,
    ensures
        store.activated(space, second).active_of(space) == Some(second),
        store.activated(space, second).previous_of(space) == Some(first),
        store.activated(space, second).last_global == Some(first),
        store.activated(space, second).activated(space, first).active_of(space) == Some(first),
        store.activated(space, second).activated(space, first).previous_of(space) == Some(second),
        store.activated(space, second).activated(space, first).last_global == Some(second),
{
}

/// What other spaces show does not change when a space shows another workspace.
pub proof fn activation_is_local(
    store: StoreState,
    space: SpaceId,
    id: VirtualWorkspaceId,
    other: SpaceId,
)
    requires
        other != space,
    ensures
        store.activated(space, id).active_of(other) == store.active_of(other),
        store.activated(space, id).previous_of(other) == store.previous_of(other),
{
}

// Windows.

/// A window is among the windows of a workspace exactly where it is assigned
/// to it, so it is in one workspace at most.
pub proof fn window_is_in_its_workspace_alone(
    windows: WindowState,
    window: WindowId,
    space: SpaceId,
    id: VirtualWorkspaceId,
)
    requires
        windows.assignments.well_formed(),
    ensures
        windows.windows_in(space, id).contains(window) <==> windows.info_of(window) == Some(
            WindowWorkspaceInfo { space, workspace_id: id },
        ),
        windows.windows_in(space, id).no_duplicates(),
{
    let order = windows.assignments.order;
    lemma_filter(order, windows.assigned_as(WindowWorkspaceInfo { space, workspace_id: id }));
    assert(order.to_set().contains(window) <==> windows.assignments.values.contains_key(window));
}

/// Assigning a window to a workspace that the space has keeps everything sound.
/// The window is then in that workspace and in no other, and all other windows
/// stay where they were.
pub proof fn assigned_is_sound(
    desk: Desktop,
    space: SpaceId,
    window: WindowId,
    id: VirtualWorkspaceId,
)
    requires
        desk.sound(),
    ensures
        desk.assigned(space, window, id).sound(),
        desk.store.owns(space, id) ==> {
            let after = desk.assigned(space, window, id);
            &&& after.windows.info_of(window) == Some(
                WindowWorkspaceInfo { space, workspace_id: id },
            )
            &&& after.windows.windows_in(space, id).contains(window)
            &&& forall|other: WindowId|
                other != window ==> #[trigger] after.windows.info_of(other)
                    == desk.windows.info_of(other)
        },
        !desk.store.owns(space, id) ==> desk.assigned(space, window, id) == desk,
{
    let after = desk.assigned(space, window, id);
    if desk.store.owns(space, id) {
        let info = desk.windows.info_of(window);
        let left = desk.store.focus_left(window, info, id);
        lemma_same_places(desk.store, left.entries);
        assert(left == (StoreState { entries: left.entries, ..desk.store }));
        let order = desk.windows.assignments.order;
        let known = desk.windows.assignments.values.contains_key(window);
        assert(order.to_set().contains(window) <==> known);
        assert(after.windows.assignments.well_formed()) by {
            assert(after.windows.assignments.order.to_set()
                =~= after.windows.assignments.values.dom()) by {
                assert forall|w: WindowId| after.windows.assignments.order.to_set().contains(w)
                    <==> after.windows.assignments.values.dom().contains(w) by {
                    crate::sequences::lemma_push_contains(order, window, w);
                    assert(order.to_set().contains(w)
                        <==> desk.windows.assignments.values.dom().contains(w));
                }
            }
        }
        assert forall|w: WindowId| #[trigger] after.windows.assignments.values.contains_key(
            w,
        ) implies after.store.owns(
            after.windows.assignments.values[w].space,
            after.windows.assignments.values[w].workspace_id,
        ) by {
            if w != window {
                assert(desk.windows.assignments.values.contains_key(w));
            }
        }
        window_is_in_its_workspace_alone(after.windows, window, space, id);
    }
}

/// A window that leaves a workspace in which it was focused last is no longer
/// remembered there.
pub proof fn leaving_clears_focus(
    desk: Desktop,
    space: SpaceId,
    window: WindowId,
    id: VirtualWorkspaceId,
    left: WindowWorkspaceInfo,
)
    requires
        desk.sound(),
        desk.store.owns(space, id),
        desk.windows.info_of(window) == Some(left),
        left.workspace_id != id,
    ensures
        desk.assigned(space, window, id).store.entries[left.workspace_id].last_focused != Some(
            window,
        ),
{
    assert(desk.windows.assignments.values.contains_key(window));
}

/// A removed window is in no workspace, and the others stay where they were.
pub proof fn removed_window_is_nowhere(
    windows: WindowState,
    window: WindowId,
    space: SpaceId,
    id: VirtualWorkspaceId,
)
    requires
        windows.assignments.well_formed(),
    ensures
        windows.unassigned(window).assignments.well_formed(),
        windows.unassigned(window).info_of(window) is None,
        !windows.unassigned(window).windows_in(space, id).contains(window),
        forall|other: WindowId|
            other != window ==> #[trigger] windows.unassigned(window).info_of(other)
                == windows.info_of(other),
{
    let after = windows.unassigned(window);
    let order = windows.assignments.order;
    lemma_filter(order, crate::roster::other_than(window));
    assert(after.assignments.order.to_set() =~= after.assignments.values.dom()) by {
        assert forall|w: WindowId| after.assignments.order.to_set().contains(w)
            <==> after.assignments.values.dom().contains(w) by {
            assert(after.assignments.order.contains(w) <==> order.contains(w) && w != window);
            assert(order.to_set().contains(w) <==> windows.assignments.values.dom().contains(w));
        }
    }
    window_is_in_its_workspace_alone(after, window, space, id);
}

/// Removing the windows of an app takes all their assignments and no others.
pub proof fn removed_app_is_nowhere(windows: WindowState, pid: i32)
    requires
        windows.assignments.well_formed(),
    ensures
        windows.without_app(pid).assignments.well_formed(),
        forall|window: WindowId| #[trigger]
            windows.without_app(pid).info_of(window) == if window.pid == pid {
                None
            } else {
                windows.info_of(window)
            },
{
    let after = windows.without_app(pid);
    let order = windows.assignments.order;
    lemma_filter(order, crate::windows::not_of_app(pid));
    assert(after.assignments.order.to_set() =~= after.assignments.values.dom()) by {
        assert forall|w: WindowId| after.assignments.order.to_set().contains(w)
            <==> after.assignments.values.dom().contains(w) by {
            assert(after.assignments.order.contains(w) <==> order.contains(w) && w.pid != pid);
            assert(order.to_set().contains(w) <==> windows.assignments.values.dom().contains(w));
        }
    }
}

/// Removing a window, or all windows of an app, keeps everything sound.
pub proof fn removals_are_sound(desk: Desktop, window: WindowId, pid: i32)
    requires
        desk.sound(),
    ensures
        (Desktop {
            windows: desk.windows.unassigned(window).unruled(window),
            ..desk
        }).sound(),
        (Desktop { windows: desk.windows.without_app(pid), ..desk }).sound(),
{
    removed_window_is_nowhere(
        desk.windows,
        window,
        SpaceId { id: 0 },
        desk.windows.assignments.values[window].workspace_id,
    );
    removed_app_is_nowhere(desk.windows, pid);
}

/// Giving a workspace another name, or another window that was focused last,
/// keeps everything sound.
pub proof fn touched_is_sound(
    desk: Desktop,
    id: VirtualWorkspaceId,
    name: Seq<char>,
    last_focused: Option<WindowId>,
)
    requires
        desk.sound(),
        desk.store.entries.contains_key(id),
    ensures
        (Desktop {
            store: desk.store.with_entry(id, desk.store.entries[id].named(name)),
            ..desk
        }).sound(),
        (Desktop {
            store: desk.store.with_entry(id, desk.store.entries[id].focused_last(last_focused)),
            ..desk
        }).sound(),
{
    let renamed = desk.store.with_entry(id, desk.store.entries[id].named(name));
    let focused = desk.store.with_entry(id, desk.store.entries[id].focused_last(last_focused));
    lemma_same_places(desk.store, renamed.entries);
    lemma_still_placed(desk, renamed);
    lemma_same_places(desk.store, focused.entries);
    lemma_still_placed(desk, focused);
}

/// The windows of several workspaces are those of each.
pub proof fn lemma_windows_of_all(
    desk: Desktop,
    space: SpaceId,
    ids: Seq<VirtualWorkspaceId>,
    window: WindowId,
)
    requires
        desk.windows.assignments.well_formed(),
    ensures
        desk.store.windows_of_all(desk.windows, space, ids).contains(window) <==> (
        desk.windows.info_of(window) matches Some(info) && info.space == space && ids.contains(
            info.workspace_id,
        )),
    decreases ids.len(),
{
    if ids.len() > 0 {
        let fewer = ids.drop_last();
        let id = ids.last();
        lemma_windows_of_all(desk, space, fewer, window);
        window_is_in_its_workspace_alone(desk.windows, window, space, id);
        let ahead = desk.store.windows_of_all(desk.windows, space, fewer);
        let here = desk.windows.windows_in(space, id);
        assert((ahead + here).contains(window) <==> ahead.contains(window) || here.contains(
            window,
        )) by {
            if ahead.contains(window) {
                let i = choose|i: int| 0 <= i < ahead.len() && ahead[i] == window;
                assert((ahead + here)[i] == window);
            }
            if here.contains(window) {
                let i = choose|i: int| 0 <= i < here.len() && here[i] == window;
                assert((ahead + here)[ahead.len() + i] == window);
            }
        }
        assert(ids =~= fewer.push(id));
        if let Some(info) = desk.windows.info_of(window) {
            crate::sequences::lemma_push_contains(fewer, id, info.workspace_id);
        }
    }
}

/// A window on a space is either among the windows of what the space shows or
/// among those of its other workspaces, and no window of another space is among
/// either.
pub proof fn window_is_shown_or_hidden(desk: Desktop, space: SpaceId, window: WindowId)
    requires
        desk.sound(),
    ensures
        ({
            let shown = match desk.store.active_of(space) {
                Some(active) => desk.store.windows_shown(desk.windows, space, active),
                None => Seq::empty(),
            };
            let hidden = desk.store.windows_of_all(
                desk.windows,
                space,
                crate::order::listing(desk.store.entries.dom()).filter(
                    desk.store.inactive_on(space),
                ),
            );
            match desk.windows.info_of(window) {
                Some(info) if info.space == space => shown.contains(window) != hidden.contains(
                    window,
                ),
                _ => !shown.contains(window) && !hidden.contains(window),
            }
        }),
{
    let all = crate::order::listing(desk.store.entries.dom());
    let wanted = desk.store.inactive_on(space);
    crate::order::lemma_listing(desk.store.entries.dom());
    lemma_filter(all, wanted);
    lemma_windows_of_all(desk, space, all.filter(wanted), window);
    if let Some(active) = desk.store.active_of(space) {
        window_is_in_its_workspace_alone(desk.windows, window, space, active);
    }
    if let Some(info) = desk.windows.info_of(window) {
        assert(desk.windows.assignments.values.contains_key(window));
        assert(all.filter(wanted).contains(info.workspace_id) <==> all.contains(info.workspace_id)
            && wanted(info.workspace_id));
        if let Some(active) = desk.store.active_of(space) {
            assert(desk.store.active.contains_key(space.id));
            assert(desk.store.by_space[space.id].contains(active));
            assert(desk.store.owns(space, active));
        }
    }
}

// Counterparts.

/// Where each space has its own workspaces, a window that is moved to another
/// space keeps the place of its workspace.
pub proof fn counterpart_keeps_place(
    desk: Desktop,
    space: SpaceId,
    window: WindowId,
    info: WindowWorkspaceInfo,
    id: VirtualWorkspaceId,
)
    requires
        desk.sound(),
        !desk.store.settings.shared,
        desk.windows.info_of(window) == Some(info),
        info.space != space,
        desk.counterpart_reached(space, window) == Some(id),
    ensures
        desk.store.owned_ids(space).index_of_first(id) == desk.store.owned_ids(
            info.space,
        ).index_of_first(info.workspace_id),
        desk.moved_to_counterpart(space, window).windows.info_of(window) == Some(
            WindowWorkspaceInfo { space, workspace_id: id },
        ),
        desk.moved_to_counterpart(space, window).sound(),
{
    listed_is_owned(desk.store, space);
    let ids = desk.store.owned_ids(space);
    let place = desk.store.owned_ids(info.space).index_of_first(info.workspace_id)->0;
    desk.store.owned_ids(info.space).index_of_first_ensures(info.workspace_id);
    ids.index_of_first_ensures(id);
    assert(ids[place] == id);
    assert(ids.contains(id));
    assigned_is_sound(desk, space, window, id);
}

/// Where displays share a pool, a window that is moved to another space goes to
/// what that space shows.
pub proof fn counterpart_in_shared_pool(
    desk: Desktop,
    space: SpaceId,
    window: WindowId,
    info: WindowWorkspaceInfo,
)
    requires
        desk.sound(),
        desk.store.settings.shared,
        desk.windows.info_of(window) == Some(info),
        info.space != space,
    ensures
        desk.counterpart_reached(space, window) == desk.store.active_of(space),
        desk.moved_to_counterpart(space, window).sound(),
{
    listed_is_owned(desk.store, space);
    if let Some(id) = desk.store.active_of(space) {
        assert(desk.store.active.contains_key(space.id));
        assert(desk.store.list_of(space).contains(id));
        assigned_is_sound(desk, space, window, id);
    }
}

/// A window without workspace goes to what the space shows or to its first
/// workspace, and everything stays sound. That succeeds on every space that
/// lists a workspace.
pub proof fn auto_assigned_is_sound(desk: Desktop, space: SpaceId, window: WindowId)
    requires
        desk.sound(),
    ensures
        desk.auto_assigned(space, window).sound(),
        desk.store.list_of(space).len() > 0 <==> desk.auto_assignment(space) is Ok,
        desk.auto_assignment(space) matches Ok(id) ==> desk.auto_assigned(
            space,
            window,
        ).windows.info_of(window) == Some(WindowWorkspaceInfo { space, workspace_id: id }),
{
    listed_is_owned(desk.store, space);
    default_shown_is_consistent(desk.store, space);
    let shown = Desktop { store: desk.store.default_shown(space), ..desk };
    lemma_still_placed(desk, shown.store);
    assert(shown.store.entries == desk.store.entries);
    if desk.store.list_of(space).len() > 0 {
        assert(desk.store.owned_ids(space).len() > 0);
    } else {
        if desk.store.active.contains_key(space.id) {
            assert(desk.store.list_of(space).contains(desk.store.active[space.id].1));
        }
    }
    match desk.store.default_on(space) {
        Ok(id) => {
            assert(desk.store.owns(space, id));
            assert(shown.store.owns(space, id));
            assigned_is_sound(shown, space, window, id);
            lemma_floating_is_sound(shown.assigned(space, window, id), window, false);
        },
        Err(_) => {},
    }
}

/// What the rules said about floating does not matter.
proof fn lemma_floating_is_sound(desk: Desktop, window: WindowId, floats: bool)
    requires
        desk.sound(),
    ensures
        (Desktop { windows: desk.windows.floating(window, floats), ..desk }).sound(),
{
}

/// What the rules said about managing does not matter.
proof fn lemma_overridden_is_sound(desk: Desktop, window: WindowId, manage: Option<bool>)
    requires
        desk.sound(),
    ensures
        (Desktop { windows: desk.windows.overridden(window, manage), ..desk }).sound(),
{
}

// Focus.

/// After one window took the place of another, no workspace remembers the
/// other, and exactly those remember the one that remembered the other.
pub proof fn identity_moves_whole(store: StoreState, from: WindowId, to: WindowId)
    requires
        from != to,
    ensures
        forall|id: VirtualWorkspaceId| #[trigger]
            store.entries.contains_key(id) ==> {
                let last = store.identity_passed(from, to).entries[id].last_focused;
                last != Some(from) && (last == Some(to) <==> store.entries[id].last_focused == Some(
                    from,
                ))
            },
{
}

/// A forgotten window is remembered nowhere, and every other one where it was.
pub proof fn forgotten_everywhere(store: StoreState, window: WindowId)
    ensures
        forall|id: VirtualWorkspaceId| #[trigger]
            store.entries.contains_key(id) ==> store.forgotten(window).entries[id].last_focused
                == if store.entries[id].last_focused == Some(window) {
                None
            } else {
                store.entries[id].last_focused
            },
{
}

/// A window that is retained in one workspace is remembered nowhere else, and
/// there if it was.
pub proof fn retained_in_one_place(store: StoreState, window: WindowId, keep: VirtualWorkspaceId)
    ensures
        forall|id: VirtualWorkspaceId| #[trigger]
            store.entries.contains_key(id) ==> (store.remembered_only_in(window, keep).entries[
                id
            ].last_focused == Some(window) <==> id == keep && store.entries[id].last_focused
                == Some(window)),
{
}

/// Changes of focus keep everything sound.
pub proof fn refocused_is_sound(
    desk: Desktop,
    f: spec_fn(VirtualWorkspaceId, Option<WindowId>) -> Option<WindowId>,
)
    requires
        desk.sound(),
    ensures
        (Desktop { store: desk.store.refocused(f), ..desk }).sound(),
{
    let after = desk.store.refocused(f);
    lemma_same_places(desk.store, after.entries);
    lemma_still_placed(desk, after);
}

// App rules.

/// A window that the rules do not let in keeps its assignment.
pub proof fn rejection_keeps_assignments(
    desk: Desktop,
    window: WindowId,
    space: SpaceId,
    decision: RuleDecision,
    preserve: bool,
)
    requires
        !desk.windows.admits(window, decision.manage),
    ensures
        desk.ruling(window, space, decision, preserve).0.windows.assignments
            == desk.windows.assignments,
        desk.ruling(window, space, decision, preserve).0.store == desk.store,
{
}

/// A selection that names no workspace, or one on another space, is ignored: the
/// result is the same as without a selection. That is the workspace that the
/// window has there, or else the default one. A selection never picks a
/// workspace of another space.
pub proof fn unfound_selection_is_ignored(
    store: StoreState,
    space: SpaceId,
    selection: crate::selectors::Selection,
    had: Option<VirtualWorkspaceId>,
    preserve: bool,
)
    requires
        store.entries.dom().finite(),
        store.resolution_initializes(space, Some(selection), had, preserve)
            ==> store.can_initialize(space),
    ensures
        ({
            let looked_up = if store.settings.shared {
                store
            } else {
                store.initialized(space)
            };
            &&& looked_up.rule_selected(space, selection) is None ==> {
                let ignored = store.rule_resolution(space, None, had, preserve);
                let resolution = store.rule_resolution(space, Some(selection), had, preserve);
                &&& resolution.1 == ignored.1
                &&& resolution.1 == match had {
                    Some(id) => Ok(id),
                    None => store.initialized(space).default_on(space),
                }
                &&& had is None ==> resolution.0 == ignored.0
            }
            &&& looked_up.rule_selected(space, selection) matches Some(id) ==> looked_up.owns(
                space,
                id,
            )
        }),
{
    if !store.settings.shared {
        crate::creation::lemma_initialized(store, space);
    }
    let looked_up = if store.settings.shared {
        store
    } else {
        store.initialized(space)
    };
    let ids = if store.settings.shared {
        looked_up.global_ids()
    } else {
        looked_up.owned_ids(space)
    };
    if store.settings.shared {
        assert(looked_up.pool().subset_of(looked_up.entries.dom()));
        vstd::set_lib::lemma_len_subset(looked_up.pool(), looked_up.entries.dom());
        crate::order::lemma_listing(looked_up.pool());
    } else {
        let list = looked_up.list_of(space);
        lemma_filter(list, looked_up.owned_by(space));
        crate::order::lemma_sorted(list.filter(looked_up.owned_by(space)));
    }
    if let crate::selectors::Selection::Name(name) = selection {
        let wanted = crate::state::named_in(looked_up.entries, name);
        lemma_filter(ids, wanted);
        if ids.filter(wanted).len() > 0 {
            assert(ids.filter(wanted).contains(ids.filter(wanted)[0]));
        }
    } else if let crate::selectors::Selection::Index(index) = selection {
        if index < ids.len() {
            assert(ids.contains(ids[index as int]));
        }
    }
}

/// In a sound desktop the workspace that the rules choose on a space is one of
/// the space, and there is one wherever the space lists a workspace.
pub proof fn rule_choice_is_on_the_space(
    desk: Desktop,
    window: WindowId,
    space: SpaceId,
    selection: Option<crate::selectors::Selection>,
    preserve: bool,
)
    requires
        desk.sound(),
        desk.store.by_space.contains_key(space.id),
        desk.store.list_of(space).len() > 0,
    ensures
        ({
            let had = match desk.windows.info_of(window) {
                Some(info) if info.space == space => Some(info.workspace_id),
                _ => None,
            };
            let resolution = desk.store.rule_resolution(space, selection, had, preserve);
            &&& resolution.1 matches Ok(id) && desk.store.owns(space, id) && resolution.0.owns(
                space,
                id,
            )
            &&& resolution.0.consistent()
            &&& resolution.0.keeps(desk.store)
        }),
{
    let had = match desk.windows.info_of(window) {
        Some(info) if info.space == space => Some(info.workspace_id),
        _ => None,
    };
    if let Some(id) = had {
        assert(desk.windows.assignments.values.contains_key(window));
    }
    listed_is_owned(desk.store, space);
    default_shown_is_consistent(desk.store, space);
    pool_is_everything(desk.store);
    if let Some(chosen) = selection {
        let ids = if desk.store.settings.shared {
            desk.store.global_ids()
        } else {
            desk.store.owned_ids(space)
        };
        if let crate::selectors::Selection::Name(name) = chosen {
            let wanted = crate::state::named_in(desk.store.entries, name);
            lemma_filter(ids, wanted);
            if ids.filter(wanted).len() > 0 {
                assert(ids.filter(wanted).contains(ids.filter(wanted)[0]));
            }
        } else if let crate::selectors::Selection::Index(index) = chosen {
            if index < ids.len() {
                assert(ids.contains(ids[index as int]));
            }
        }
    }
    let looked_up = desk.store;
    if looked_up.rule_preferred(space, selection, had, preserve) is None {
        assert(desk.store.owned_ids(space).len() > 0);
        assert(desk.store.default_shown(space).entries == desk.store.entries);
    }
}

/// On a space that lists a workspace the rules never fail. A managed window is
/// then in the workspace that the result names, which is one of the space, and
/// everything stays sound. A window that keeps its workspace keeps it where it
/// had one there.
pub proof fn ruling_succeeds(
    desk: Desktop,
    window: WindowId,
    space: SpaceId,
    decision: RuleDecision,
    preserve: bool,
)
    requires
        desk.sound(),
        desk.store.by_space.contains_key(space.id),
        desk.store.list_of(space).len() > 0,
    ensures
        desk.ruling(window, space, decision, preserve).1 is Ok,
        desk.ruling(window, space, decision, preserve).0.sound(),
        desk.ruling(window, space, decision, preserve).1 matches Ok(
            AppRuleResult::Managed(effects),
        ) ==> {
            let after = desk.ruling(window, space, decision, preserve).0;
            &&& after.windows.info_of(window) == Some(
                WindowWorkspaceInfo { space, workspace_id: effects.workspace_id },
            )
            &&& after.store.owns(space, effects.workspace_id)
            &&& after.windows.rule_floating.contains(window) == decision.floating
        },
        preserve ==> match (
            desk.windows.info_of(window),
            desk.ruling(window, space, decision, preserve).1,
        ) {
            (Some(info), Ok(AppRuleResult::Managed(effects))) => info.space == space
                ==> effects.workspace_id == info.workspace_id,
            _ => true,
        },
{
    let had = match desk.windows.info_of(window) {
        Some(info) if info.space == space => Some(info.workspace_id),
        _ => None,
    };
    rule_choice_is_on_the_space(desk, window, space, decision.workspace, preserve);
    lemma_overridden_is_sound(desk, window, decision.manage);
    let noted = Desktop { windows: desk.windows.overridden(window, decision.manage), ..desk };
    if !desk.windows.admits(window, decision.manage) {
        lemma_floating_is_sound(noted, window, false);
    } else {
        let resolution = desk.store.rule_resolution(space, decision.workspace, had, preserve);
        let chosen = Desktop { store: resolution.0, ..noted };
        lemma_still_placed(noted, resolution.0);
        let id = resolution.1->Ok_0;
        let placed = if had == Some(id) {
            chosen
        } else {
            chosen.assigned(space, window, id)
        };
        assigned_is_sound(chosen, space, window, id);
        lemma_floating_is_sound(placed, window, decision.floating);
    }
}

} // verus!
