//! What a move of a workspace does to what spaces have and show, and what the
//! displays show once the pool is fitted to them.
use crate::desktop::hidden_from;
use crate::desktop::not_workspace;
use crate::desktop::shown_on;
use crate::desktop::Desktop;
use crate::desktop::DisplayState;
use crate::growth::lemma_pushed_from;
use crate::ids::SpaceId;
use crate::ids::VirtualWorkspaceId;
use crate::order::in_order;
use crate::order::lemma_listing;
use crate::order::lemma_sorted;
use crate::order::listing;
use crate::relocation::lemma_midway;
use crate::relocation::midway;
use crate::sequences::lemma_filter;
use crate::sequences::lemma_push_contains;
use crate::settings::DisplayAssignment;
use crate::soundness::listed_is_owned;
use crate::state::StoreState;
use crate::topology::all_relocated_is_sound;
use crate::topology::all_supplied_is_sound;
use crate::topology::arranged_whatever_the_windows;
use crate::topology::assignments_applied_is_sound;
use crate::topology::rehomed_is_sound;
use crate::topology::shown_keys;
use crate::workspace::WorkspaceState;
use vstd::prelude::*;

verus! {

/// A move changes the space of the workspace and nothing else about it, and
/// nothing at all about other workspaces.
pub proof fn move_changes_the_space_alone(
    store: StoreState,
    id: VirtualWorkspaceId,
    new_space: SpaceId,
)
    ensures
        store.entries.contains_key(id) ==> store.relocated(id, new_space).entries[id] == (
        WorkspaceState { space: new_space, ..store.entries[id] }),
        forall|other: VirtualWorkspaceId|
            other != id ==> (#[trigger] store.relocated(id, new_space).entries.contains_key(other)
                <==> store.entries.contains_key(other)) && store.relocated(id, new_space).entries[other]
                == store.entries[other],
        store.relocated(id, new_space).entries.contains_key(id) <==> store.entries.contains_key(id),
        store.relocated(id, new_space).upcoming == store.upcoming,
        store.relocated(id, new_space).counter == store.counter,
        store.relocated(id, new_space).last_global == store.last_global,
        store.relocated(id, new_space).settings == store.settings,
        !store.entries.contains_key(id) ==> store.relocated(id, new_space) == store,
        store.entries.contains_key(id) && store.entries[id].space == new_space
            ==> store.relocated(id, new_space) == store,
{
}

/// A move takes a workspace off the list of its space, where the others stay in
/// their order, and puts it on the list of the other space, which is in order
/// then. All other lists stay.
pub proof fn move_changes_two_lists(
    store: StoreState,
    id: VirtualWorkspaceId,
    new_space: SpaceId,
)
    requires
        store.consistent(),
        store.entries.contains_key(id),
        store.entries[id].space != new_space,
    ensures
        ({
            let after = store.relocated(id, new_space);
            let old_space = store.entries[id].space;
            &&& after.by_space.dom() == store.by_space.dom().insert(new_space.id)
            &&& after.by_space[old_space.id] == store.by_space[old_space.id].remove(
                store.by_space[old_space.id].index_of(id),
            )
            &&& after.by_space[new_space.id].contains(id)
            &&& in_order(after.by_space[new_space.id])
            &&& after.by_space[new_space.id].len() == (if store.by_space.contains_key(
                new_space.id,
            ) {
                store.by_space[new_space.id].len() + 1
            } else {
                1
            })
            &&& store.by_space.contains_key(new_space.id) ==> forall|x: VirtualWorkspaceId| #[trigger]
                store.by_space[new_space.id].contains(x) ==> after.by_space[new_space.id].contains(
                    x,
                )
            &&& forall|key: u64|
                key != new_space.id && key != old_space.id ==> #[trigger] after.by_space[key]
                    == store.by_space[key]
        }),
{
    let after = store.relocated(id, new_space);
    let old_space = store.entries[id].space;
    let mid = midway(store, id, new_space);
    lemma_midway(store, id, new_space);
    assert(after.by_space == mid.by_space);
    let list = store.by_space[old_space.id];
    assert(list.contains(id));
    let place = list.index_of(id);
    crate::sequences::lemma_filter_out(list, place, not_workspace(id));
    listed_is_owned(store, new_space);
    assert(mid.by_space[new_space.id] == crate::order::sorted(
        store.list_of(new_space).push(id),
    )) by {
        assert(!store.list_of(new_space).contains(id));
    }
    lemma_sorted(store.list_of(new_space).push(id));
    assert forall|x: VirtualWorkspaceId| #[trigger]
        store.list_of(new_space).contains(x) implies after.by_space[new_space.id].contains(x) by {
        lemma_push_contains(store.list_of(new_space), id, x);
    }
    lemma_push_contains(store.list_of(new_space), id, id);
}

/// A space that lists a workspace already does not list it once more when it gets
/// it, in any store, consistent or not.
pub proof fn moved_workspace_is_not_listed_again(
    store: StoreState,
    id: VirtualWorkspaceId,
    new_space: SpaceId,
)
    requires
        store.by_space.contains_key(new_space.id),
        store.by_space[new_space.id].contains(id),
    ensures
        store.relocated(id, new_space).by_space.contains_key(new_space.id),
        store.relocated(id, new_space).by_space[new_space.id] == store.by_space[new_space.id],
{
}

/// A move of a workspace that its space does not show leaves what the space
/// shows alone. Where the shown one leaves, the space shows the first of those
/// that are left, and nothing where none is. It forgets the one that left. A
/// space that shows a workspace keeps it when it gets another, and one that
/// shows none shows the one it gets. No other space shows or remembers another
/// workspace.
#[verifier::spinoff_prover]
#[verifier::rlimit(40)]
pub proof fn move_repairs_what_spaces_show(
    store: StoreState,
    id: VirtualWorkspaceId,
    new_space: SpaceId,
)
    requires
        store.consistent(),
        store.entries.contains_key(id),
        store.entries[id].space != new_space,
    ensures
        ({
            let after = store.relocated(id, new_space);
            let old_space = store.entries[id].space;
            let left = |x: VirtualWorkspaceId|
                x != id && store.entries.contains_key(x) && store.entries[x].space == old_space;
            // The space that the workspace leaves.
            &&& forall|a: VirtualWorkspaceId|
                store.active_of(old_space) == Some(a) && a != id ==> #[trigger] after.active_of(
                    old_space,
                ) == Some(a) && after.previous_of(old_space) == (if store.previous_of(old_space)
                    == Some(id) {
                    None
                } else {
                    store.previous_of(old_space)
                }) && left(a)
            &&& (store.active_of(old_space) == Some(id) || store.active_of(old_space) is None)
                ==> match after.active_of(old_space) {
                Some(a) => left(a) && forall|x: VirtualWorkspaceId| #[trigger]
                    left(x) ==> crate::order::Ranked::rank(a) <= crate::order::Ranked::rank(x),
                None => forall|x: VirtualWorkspaceId| !#[trigger] left(x),
            }
            &&& store.active_of(old_space) == Some(id) && after.active_of(old_space) is Some
                ==> after.previous_of(old_space) == (if store.previous_of(old_space) == Some(id) {
                None
            } else {
                store.previous_of(old_space)
            })
            &&& store.active_of(old_space) is None ==> after.previous_of(old_space) is None
            // The space that it goes to.
            &&& after.active_of(new_space) == (if store.active_of(new_space) is Some {
                store.active_of(new_space)
            } else {
                Some(id)
            })
            &&& after.previous_of(new_space) == store.previous_of(new_space)
            // All others.
            &&& forall|other: SpaceId|
                other != old_space && other != new_space ==> #[trigger] after.active_of(other)
                    == store.active_of(other) && after.previous_of(other) == store.previous_of(
                    other,
                )
        }),
{
    let after = store.relocated(id, new_space);
    let old_space = store.entries[id].space;
    let left = |x: VirtualWorkspaceId|
        x != id && store.entries.contains_key(x) && store.entries[x].space == old_space;
    let mid = midway(store, id, new_space);
    lemma_midway(store, id, new_space);
    listed_is_owned(mid, old_space);
    let ids = mid.owned_ids(old_space);
    assert forall|x: VirtualWorkspaceId| #[trigger] left(x) <==> ids.contains(x) by {
        assert(ids.contains(x) <==> mid.owns(old_space, x));
    }
    if ids.len() > 0 {
        assert(ids.contains(ids[0]));
        assert forall|x: VirtualWorkspaceId| #[trigger] left(x) implies crate::order::Ranked::rank(
            ids[0],
        ) <= crate::order::Ranked::rank(x) by {
            let k = choose|k: int| 0 <= k < ids.len() && ids[k] == x;
            if k > 0 {
                assert(crate::order::Ranked::rank(ids[0]) < crate::order::Ranked::rank(ids[k]));
            }
        }
    }
    if let Some(a) = store.active_of(old_space) {
        assert(store.active.contains_key(old_space.id));
        assert(store.by_space[old_space.id].contains(a));
        assert(store.owns(old_space, a));
    }
}

/// A space goes on showing a workspace that it has while another one moves.
proof fn lemma_move_keeps_shown(
    store: StoreState,
    space: SpaceId,
    id: VirtualWorkspaceId,
    moved: VirtualWorkspaceId,
    new_space: SpaceId,
)
    requires
        store.consistent(),
        store.active_of(space) == Some(id),
        moved != id || new_space == space,
    ensures
        store.relocated(moved, new_space).active_of(space) == Some(id),
{
    assert(store.active.contains_key(space.id));
    assert(store.by_space[space.id].contains(id));
    assert(store.owns(space, id));
    if store.entries.contains_key(moved) && store.entries[moved].space != new_space {
        move_repairs_what_spaces_show(store, moved, new_space);
    }
}

proof fn lemma_all_moves_keep_shown(
    desk: Desktop,
    ids: Seq<VirtualWorkspaceId>,
    target: SpaceId,
    space: SpaceId,
    id: VirtualWorkspaceId,
)
    requires
        desk.sound(),
        desk.store.active_of(space) == Some(id),
        !ids.contains(id) || target == space,
    ensures
        desk.all_relocated(ids, target).store.active_of(space) == Some(id),
    decreases ids.len(),
{
    if ids.len() > 0 {
        let fewer = ids.drop_last();
        assert(ids =~= fewer.push(ids.last()));
        lemma_push_contains(fewer, ids.last(), id);
        lemma_all_moves_keep_shown(desk, fewer, target, space, id);
        all_relocated_is_sound(desk, fewer, target);
        lemma_move_keeps_shown(
            desk.all_relocated(fewer, target).store,
            space,
            id,
            ids.last(),
            target,
        );
    }
}

proof fn lemma_vacating_keeps_shown(
    desk: Desktop,
    keys: Seq<u64>,
    home: SpaceId,
    space: SpaceId,
    id: VirtualWorkspaceId,
)
    requires
        desk.sound(),
        !keys.contains(home.id),
        !keys.contains(space.id),
        desk.store.active_of(space) == Some(id),
    ensures
        desk.all_vacated(keys, home).store.active_of(space) == Some(id),
    decreases keys.len(),
{
    if keys.len() > 0 {
        let fewer = keys.drop_last();
        let key = keys.last();
        assert(keys =~= fewer.push(key));
        lemma_push_contains(fewer, key, home.id);
        lemma_push_contains(fewer, key, space.id);
        lemma_push_contains(fewer, key, key);
        lemma_vacating_keeps_shown(desk, fewer, home, space, id);
        crate::topology::all_vacated_is_sound(desk, fewer, home);
        let before = desk.all_vacated(fewer, home);
        let gone = SpaceId { id: key };
        let ids = before.store.owned_ids(gone);
        listed_is_owned(before.store, gone);
        assert(before.store.active.contains_key(space.id));
        assert(before.store.by_space[space.id].contains(id));
        assert(before.store.owns(space, id));
        assert(!ids.contains(id));
        lemma_all_moves_keep_shown(before, ids, home, space, id);
    }
}

proof fn lemma_supplying_keeps_shown(
    desk: Desktop,
    visible: Seq<DisplayState>,
    keys: Set<u64>,
    space: SpaceId,
    id: VirtualWorkspaceId,
)
    requires
        desk.sound(),
        keys.finite(),
        forall|key: u64| shown_on(visible, key) ==> #[trigger] keys.contains(key),
        forall|key: u64| #[trigger] desk.store.by_space.contains_key(key) ==> keys.contains(key),
        desk.store.active_of(space) == Some(id),
    ensures
        desk.all_supplied(visible).store.active_of(space) == Some(id),
    decreases visible.len(),
{
    if visible.len() > 0 {
        let fewer = visible.drop_last();
        let target = visible.last().0;
        assert forall|key: u64| shown_on(fewer, key) implies #[trigger] keys.contains(key) by {
            let i = choose|i: int| 0 <= i < fewer.len() && (#[trigger] fewer[i]).0.id == key;
            assert(visible[i].0.id == key);
            assert(shown_on(visible, key));
        }
        lemma_supplying_keeps_shown(desk, fewer, keys, space, id);
        all_supplied_is_sound(desk, fewer, keys);
        let before = desk.all_supplied(fewer);
        let store = before.store;
        assert(store.active.contains_key(space.id));
        assert(store.by_space[space.id].contains(id));
        assert(store.owns(space, id));
        if store.owned_ids(target).len() == 0 {
            if let Some(moved) = store.given_to(target) {
                let donor = store.donor(target)->0;
                assert(store.is_donor(target, donor.id)) by {
                    let chosen = choose|key: u64| store.is_donor(target, key);
                    assert(store.is_donor(target, chosen));
                }
                assert(store.can_give(target, donor.id));
                crate::topology::lemma_given(store, target);
                lemma_move_keeps_shown(store, space, id, moved, target);
            }
        }
    }
}

proof fn lemma_assigning_keeps_shown(
    desk: Desktop,
    assignments: Seq<DisplayAssignment>,
    visible: Seq<DisplayState>,
    space: SpaceId,
    id: VirtualWorkspaceId,
)
    requires
        desk.sound(),
        desk.store.active_of(space) == Some(id),
        forall|i: int|
            0 <= i < assignments.len() ==> (desk.assignment_of(
                #[trigger] assignments[i],
                visible,
            ) matches Some(named) ==> named.0 != id || named.1 == space),
    ensures
        desk.assignments_applied(assignments, visible).store.active_of(space) == Some(id),
    decreases assignments.len(),
{
    if assignments.len() > 0 {
        let fewer = assignments.drop_last();
        let last = assignments.last();
        assert forall|i: int| 0 <= i < fewer.len() implies (desk.assignment_of(
            #[trigger] fewer[i],
            visible,
        ) matches Some(named) ==> named.0 != id || named.1 == space) by {
            assert(fewer[i] == assignments[i]);
        }
        lemma_assigning_keeps_shown(desk, fewer, visible, space, id);
        assignments_applied_is_sound(desk, fewer, visible);
        crate::topology::lemma_assignments_name_the_same(desk, fewer, visible, last);
        assert(assignments[assignments.len() - 1] == last);
        let before = desk.assignments_applied(fewer, visible);
        if let Some(named) = before.assignment_of(last, visible) {
            lemma_move_keeps_shown(before.store, space, id, named.0, named.1);
        }
    }
}

/// What a space shows once the pool is filled up stays, if a display shows the
/// space and no assignment gives the workspace to another.
#[verifier::spinoff_prover]
#[verifier::rlimit(40)]
proof fn lemma_arranging_keeps_shown(
    desk: Desktop,
    visible: Seq<DisplayState>,
    space: SpaceId,
    id: VirtualWorkspaceId,
)
    requires
        desk.store.consistent(),
        desk.store.settings.shared,
        visible.len() > 0,
        desk.store.upcoming.len() >= desk.store.pool_shortfall(),
        shown_on(visible, space.id),
        desk.store.pool_ready(visible[0].0).active_of(space) == Some(id),
        forall|i: int|
            0 <= i < desk.store.settings.display_assignment.len() ==> ((Desktop {
                store: desk.store.pool_ready(visible[0].0),
                ..desk
            }).assignment_of(
                #[trigger] desk.store.settings.display_assignment[i],
                visible,
            ) matches Some(named) ==> named.0 != id || named.1 == space),
    ensures
        desk.arranged(visible).store.active_of(space) == Some(id),
{
    let bare = Desktop { windows: crate::windows::WindowState::empty(), ..desk };
    assert(bare.sound()) by {
        assert(bare.windows.assignments.order.to_set() =~= bare.windows.assignments.values.dom());
    }
    arranged_whatever_the_windows(desk, bare, visible);
    let home = visible[0].0;
    let assignments = desk.store.settings.display_assignment;
    let ready = Desktop { store: bare.store.pool_ready(home), ..bare };
    crate::topology::pool_ready_is_sound(bare, home);
    lemma_assigning_keeps_shown(ready, assignments, visible, space, id);
    assignments_applied_is_sound(ready, assignments, visible);
    let assigned = ready.assignments_applied(assignments, visible);
    assert(shown_on(visible, home.id)) by {
        assert(visible[0].0.id == home.id);
    }
    let all = listing(assigned.store.by_space.dom());
    lemma_listing(assigned.store.by_space.dom());
    lemma_filter(all, hidden_from(visible));
    let hidden = all.filter(hidden_from(visible));
    assert(!hidden.contains(home.id));
    assert(!hidden.contains(space.id));
    lemma_vacating_keeps_shown(assigned, hidden, home, space, id);
    rehomed_is_sound(assigned, home, visible);
    let rehomed = assigned.rehomed(home, visible);
    crate::topology::lemma_shown_keys(visible);
    assert forall|key: u64| #[trigger] rehomed.store.by_space.contains_key(key) implies shown_keys(
        visible,
    ).contains(key) by {
        assert(shown_on(visible, key));
    }
    lemma_supplying_keeps_shown(rehomed, visible, shown_keys(visible), space, id);
}

/// A display goes on showing what it shows when the pool is fitted to the
/// displays, unless that workspace is assigned to another display.
pub proof fn displays_keep_what_they_show(
    desk: Desktop,
    visible: Seq<DisplayState>,
    space: SpaceId,
    id: VirtualWorkspaceId,
)
    requires
        desk.store.consistent(),
        desk.store.settings.shared,
        visible.len() > 0,
        desk.store.upcoming.len() >= desk.store.pool_shortfall(),
        shown_on(visible, space.id),
        desk.store.active_of(space) == Some(id),
        forall|i: int|
            0 <= i < desk.store.settings.display_assignment.len() ==> ((Desktop {
                store: desk.store.pool_ready(visible[0].0),
                ..desk
            }).assignment_of(
                #[trigger] desk.store.settings.display_assignment[i],
                visible,
            ) matches Some(named) ==> named.0 != id || named.1 == space),
    ensures
        desk.arranged(visible).store.active_of(space) == Some(id),
{
    let home = visible[0].0;
    lemma_pushed_from(
        desk.store,
        home,
        desk.store.global_ids().len(),
        desk.store.pool_shortfall(),
    );
    lemma_arranging_keeps_shown(desk, visible, space, id);
}

/// A first display that shows nothing starts on its default workspace when the
/// pool is fitted to the displays: on the one that it lists at the place that
/// the settings give, and on the first where it lists none at that place, unless
/// that workspace is assigned to another display. It lists what it listed
/// before, and behind that the workspaces that were missing from the pool.
pub proof fn home_starts_on_its_default(desk: Desktop, visible: Seq<DisplayState>)
    requires
        desk.store.consistent(),
        desk.store.settings.shared,
        visible.len() > 0,
        desk.store.upcoming.len() >= desk.store.pool_shortfall(),
        !desk.store.active.contains_key(visible[0].0.id),
    ensures
        ({
            let home = visible[0].0;
            let listed = (if desk.store.by_space.contains_key(home.id) {
                desk.store.by_space[home.id]
            } else {
                Seq::empty()
            });
            let wanted = desk.store.settings.target_count();
            let there = desk.store.entries.dom().len();
            let list = listed + desk.store.upcoming.take(
                if wanted > there {
                    wanted - there
                } else {
                    0
                },
            );
            let start = if desk.store.settings.default_workspace < list.len() {
                list[desk.store.settings.default_workspace as int]
            } else {
                list[0]
            };
            list.len() > 0 && (forall|i: int|
                0 <= i < desk.store.settings.display_assignment.len() ==> ((Desktop {
                    store: desk.store.pool_ready(home),
                    ..desk
                }).assignment_of(
                    #[trigger] desk.store.settings.display_assignment[i],
                    visible,
                ) matches Some(named) ==> named.0 != start || named.1 == home))
                ==> desk.arranged(visible).store.active_of(home) == Some(start)
        }),
{
    let home = visible[0].0;
    let store = desk.store;
    let count = store.pool_shortfall();
    crate::soundness::pool_is_everything(store);
    lemma_pushed_from(store, home, store.global_ids().len(), count);
    let list = store.list_of(home) + store.upcoming.take(count as int);
    assert(store.pool_filled(home).list_of(home) == list);
    assert(shown_on(visible, home.id)) by {
        assert(visible[0].0.id == home.id);
    }
    let start = if store.settings.default_workspace < list.len() {
        list[store.settings.default_workspace as int]
    } else {
        list[0]
    };
    if list.len() > 0 && (forall|i: int|
        0 <= i < desk.store.settings.display_assignment.len() ==> ((Desktop {
            store: desk.store.pool_ready(home),
            ..desk
        }).assignment_of(
            #[trigger] desk.store.settings.display_assignment[i],
            visible,
        ) matches Some(named) ==> named.0 != start || named.1 == home)) {
        assert(store.pool_ready(home).active_of(home) == Some(start));
        lemma_arranging_keeps_shown(desk, visible, home, start);
    }
}

} // verus!
