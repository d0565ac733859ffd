//! What changes of focus, of what is shown, of spaces and of settings do, and
//! what they leave alone.
use crate::desktop::Desktop;
use crate::growth::lemma_pushed_from;
use crate::growth::lemma_renamed;
use crate::growth::lemma_spaces_settled;
use crate::ids::SpaceId;
use crate::ids::VirtualWorkspaceId;
use crate::ids::WindowId;
use crate::layout::LayoutSettings;
use crate::order::lemma_listing;
use crate::order::listing;
use crate::provisions::filling_up;
use crate::provisions::is_new;
use crate::remapping::remapped_is_consistent;
use crate::remapping::remapped_is_sound;
use crate::sequences::lemma_filter_same;
use crate::sequences::lemma_push_contains;
use crate::settings::VirtualWorkspaceSettings;
use crate::soundness::listed_is_owned;
use crate::soundness::pool_is_everything;
use crate::soundness::pushed_is_consistent;
use crate::soundness::renamed_is_consistent;
use crate::soundness::settled_is_consistent;
use crate::state::numbered_name;
use crate::state::StoreState;
use crate::windows::WindowState;
use crate::windows::WindowWorkspaceInfo;
use crate::workspace::WorkspaceState;
use vstd::prelude::*;

verus! {

// What is shown.

/// A space that is made to show a workspace that it has shows it, and remembers
/// what it showed before, if anything. What it showed, if that is another
/// workspace, is what was left last. Nothing else changes. Where the space does
/// not have the workspace, nothing changes at all.
pub proof fn showing_a_workspace(store: StoreState, space: SpaceId, id: VirtualWorkspaceId)
    ensures
        !(store.entries.contains_key(id) && store.entries[id].space == space) ==> store.activated(
            space,
            id,
        ) == store,
        store.entries.contains_key(id) && store.entries[id].space == space ==> {
            let after = store.activated(space, id);
            &&& store.active.contains_key(space.id) ==> after.active == store.active.insert(
                space.id,
                (Some(store.active[space.id].1), id),
            )
            &&& !store.active.contains_key(space.id) ==> after.active == store.active.insert(
                space.id,
                (None, id),
            )
            &&& store.active.contains_key(space.id) && store.active[space.id].1 != id
                ==> after.last_global == Some(store.active[space.id].1)
            &&& !(store.active.contains_key(space.id) && store.active[space.id].1 != id)
                ==> after.last_global == store.last_global
            &&& after.entries == store.entries
            &&& after.by_space == store.by_space
            &&& after.upcoming == store.upcoming
            &&& after.counter == store.counter
            &&& after.settings == store.settings
        },
{
}

// Single workspaces.

/// Another name, space or focus changes nothing else about a workspace.
pub proof fn workspaces_change_in_one_thing(
    entry: WorkspaceState,
    name: Seq<char>,
    space: SpaceId,
    last_focused: Option<WindowId>,
)
    ensures
        entry.named(name) == (WorkspaceState { name, ..entry }),
        entry.on_space(space) == (WorkspaceState { space, ..entry }),
        entry.focused_last(last_focused) == (WorkspaceState { last_focused, ..entry }),
        entry.named(name).name == name,
        entry.on_space(space).space == space,
        entry.focused_last(last_focused).last_focused == last_focused,
{
}

/// Changing a workspace changes no other and nothing else in the store.
pub proof fn stores_change_in_one_workspace(
    store: StoreState,
    id: VirtualWorkspaceId,
    entry: WorkspaceState,
)
    ensures
        store.with_entry(id, entry) == (StoreState {
            entries: store.entries.insert(id, entry),
            ..store
        }),
{
}

// Focus.

/// The store after a change of focus, told by what each workspace remembers.
pub open spec fn focus_alone_changes(before: StoreState, after: StoreState) -> bool {
    &&& after == (StoreState { entries: after.entries, ..before })
    &&& after.entries.dom() == before.entries.dom()
    &&& forall|id: VirtualWorkspaceId| #[trigger]
        before.entries.contains_key(id) ==> after.entries[id] == (WorkspaceState {
            last_focused: after.entries[id].last_focused,
            ..before.entries[id]
        })
}

/// Where one window takes the place of another, the workspaces that remembered
/// the other remember the one, those that remembered the one remember none, and
/// all others what they did. Nothing but focus changes.
pub proof fn passing_an_identity(store: StoreState, from: WindowId, to: WindowId)
    ensures
        from == to ==> store.identity_passed(from, to) == store,
        focus_alone_changes(store, store.identity_passed(from, to)),
        from != to ==> forall|id: VirtualWorkspaceId| #[trigger]
            store.entries.contains_key(id) ==> store.identity_passed(
                from,
                to,
            ).entries[id].last_focused == (if store.entries[id].last_focused == Some(from) {
                Some(to)
            } else if store.entries[id].last_focused == Some(to) {
                None
            } else {
                store.entries[id].last_focused
            }),
{
    assert(store.identity_passed(from, to).entries.dom() =~= store.entries.dom());
}

/// Forgetting a window, or remembering it in one workspace alone, clears it where
/// it is to be cleared and changes nothing else.
pub proof fn forgetting_a_window(store: StoreState, window: WindowId, keep: VirtualWorkspaceId)
    ensures
        focus_alone_changes(store, store.forgotten(window)),
        forall|id: VirtualWorkspaceId| #[trigger]
            store.entries.contains_key(id) ==> store.forgotten(window).entries[id].last_focused == (
            if store.entries[id].last_focused == Some(window) {
                None
            } else {
                store.entries[id].last_focused
            }),
        focus_alone_changes(store, store.remembered_only_in(window, keep)),
        forall|id: VirtualWorkspaceId| #[trigger]
            store.entries.contains_key(id) ==> store.remembered_only_in(
                window,
                keep,
            ).entries[id].last_focused == (if store.entries[id].last_focused == Some(window) && id
                != keep {
                None
            } else {
                store.entries[id].last_focused
            }),
{
    assert(store.forgotten(window).entries.dom() =~= store.entries.dom());
    assert(store.remembered_only_in(window, keep).entries.dom() =~= store.entries.dom());
}

// Spaces.

/// When one space takes over what another had, the other spaces list, show and
/// remember what they did, no workspace changes but in its space, and settings,
/// numbers and what was left last stay. Nothing at all changes where both are the
/// same or the other has no list.
#[verifier::spinoff_prover]
#[verifier::rlimit(40)]
pub proof fn taking_over_a_space(store: StoreState, old_space: SpaceId, new_space: SpaceId)
    requires
        store.consistent(),
    ensures
        old_space == new_space || !store.by_space.contains_key(old_space.id) ==> store.remapped(
            old_space,
            new_space,
        ) == store,
        old_space != new_space && store.by_space.contains_key(old_space.id) ==> {
            let after = store.remapped(old_space, new_space);
            &&& forall|other: SpaceId|
                other != old_space && other != new_space ==> #[trigger] after.list_of(other)
                    == store.list_of(other) && after.active_of(other) == store.active_of(other)
                    && after.previous_of(other) == store.previous_of(other)
            &&& forall|key: u64|
                key != old_space.id && key != new_space.id ==> (
                #[trigger] after.by_space.contains_key(key) <==> store.by_space.contains_key(key))
            &&& store.by_space[old_space.id].len() > 0 ==> after.by_space.contains_key(new_space.id)
                && after.by_space[new_space.id] == store.by_space[old_space.id]
            &&& store.by_space[old_space.id].len() == 0 ==> !after.by_space.contains_key(
                new_space.id,
            )
            &&& after.active_of(new_space) == store.active_of(old_space)
            &&& after.previous_of(new_space) == store.previous_of(old_space)
            &&& !after.by_space.contains_key(old_space.id)
            &&& !after.active.contains_key(old_space.id)
            &&& forall|id: VirtualWorkspaceId| #[trigger]
                after.entries.contains_key(id) <==> store.entries.contains_key(id)
                    && store.entries[id].space != new_space
            &&& forall|id: VirtualWorkspaceId| #[trigger]
                after.entries.contains_key(id) ==> after.entries[id] == (WorkspaceState {
                    space: if store.entries[id].space == old_space {
                        new_space
                    } else {
                        store.entries[id].space
                    },
                    ..store.entries[id]
                })
            &&& after.upcoming == store.upcoming
            &&& after.counter == store.counter
            &&& after.last_global == store.last_global
            &&& after.settings == store.settings
        },
{
    remapped_is_consistent(store, old_space, new_space);
}

/// In any store, consistent or not, a space that takes over what another had loses
/// the workspaces that it lists and has, and no others. Those that the other lists
/// are on it, and all others stay as they are.
pub proof fn taking_over_in_any_store(store: StoreState, old_space: SpaceId, new_space: SpaceId)
    requires
        old_space != new_space,
        store.by_space.contains_key(old_space.id),
    ensures
        ({
            let after = store.remapped(old_space, new_space);
            let listed = |id: VirtualWorkspaceId|
                store.by_space.contains_key(new_space.id) && store.by_space[new_space.id].contains(
                    id,
                );
            &&& forall|id: VirtualWorkspaceId| #[trigger]
                after.entries.contains_key(id) <==> store.entries.contains_key(id) && !(listed(id)
                    && store.entries[id].space == new_space)
            &&& forall|id: VirtualWorkspaceId| #[trigger]
                after.entries.contains_key(id) ==> after.entries[id] == (if store.by_space[
                    old_space.id
                ].contains(id) {
                    WorkspaceState { space: new_space, ..store.entries[id] }
                } else {
                    store.entries[id]
                })
            &&& !after.by_space.contains_key(old_space.id)
            &&& !after.active.contains_key(old_space.id)
            &&& store.active.contains_key(old_space.id) ==> after.active.contains_key(new_space.id)
                && after.active[new_space.id] == store.active[old_space.id]
            &&& !store.active.contains_key(old_space.id) ==> !after.active.contains_key(
                new_space.id,
            )
        }),
{
}

/// Accepts the windows that are not on a space.
pub open spec fn not_on(windows: WindowState, space: SpaceId) -> spec_fn(WindowId) -> bool {
    |window: WindowId| windows.assignments.values[window].space != space
}

/// When one space takes over what another had, the windows that it had go, all
/// others keep their workspaces and their order, those of the other are on it, and
/// what the rules said of windows stays.
pub proof fn taking_over_the_windows(desk: Desktop, old_space: SpaceId, new_space: SpaceId)
    requires
        desk.sound(),
        old_space != new_space,
        desk.store.by_space.contains_key(old_space.id),
    ensures
        ({
            let before = desk.windows;
            let after = desk.remapped(old_space, new_space).windows;
            &&& after.assignments.order == before.assignments.order.filter(
                not_on(before, new_space),
            )
            &&& forall|window: WindowId| #[trigger]
                after.assignments.values.contains_key(window)
                    <==> before.assignments.values.contains_key(window)
                    && before.assignments.values[window].space != new_space
            &&& forall|window: WindowId| #[trigger]
                after.assignments.values.contains_key(window) ==> after.assignments.values[window]
                    == (if before.assignments.values[window].space == old_space {
                    WindowWorkspaceInfo {
                        space: new_space,
                        workspace_id: before.assignments.values[window].workspace_id,
                    }
                } else {
                    before.assignments.values[window]
                })
            &&& after.rule_floating == before.rule_floating
            &&& after.records == before.records
        }),
{
    let before = desk.windows;
    let after = desk.remapped(old_space, new_space).windows;
    let lost = desk.store.lost_to_remap(new_space);
    let order = before.assignments.order;
    remapped_is_sound(desk, old_space, new_space);
    listed_is_owned(desk.store, new_space);
    assert forall|window: WindowId| order.contains(window) implies before.assigned_outside(lost)(
        window,
    ) == not_on(before, new_space)(window) by {
        assert(order.to_set().contains(window));
        assert(before.assignments.values.contains_key(window));
        let info = before.assignments.values[window];
        assert(desk.store.owns(info.space, info.workspace_id));
    }
    lemma_filter_same(order, before.assigned_outside(lost), not_on(before, new_space));
    assert forall|window: WindowId| #[trigger]
        after.assignments.values.contains_key(window) <==> before.assignments.values.contains_key(
            window,
        ) && before.assignments.values[window].space != new_space by {
        assert(after.info_of(window) is Some <==> after.assignments.values.contains_key(window));
        assert(before.info_of(window) is Some <==> before.assignments.values.contains_key(window));
    }
    assert forall|window: WindowId| #[trigger]
        after.assignments.values.contains_key(window) implies after.assignments.values[window] == (
    if before.assignments.values[window].space == old_space {
        WindowWorkspaceInfo {
            space: new_space,
            workspace_id: before.assignments.values[window].workspace_id,
        }
    } else {
        before.assignments.values[window]
    }) by {
        assert(after.info_of(window) == Some(after.assignments.values[window]));
        assert(before.assignments.values.contains_key(window));
        assert(before.info_of(window) == Some(before.assignments.values[window]));
    }
}

// Settings.

/// A workspace is as it was, but perhaps for its name.
pub open spec fn name_alone_changes(before: WorkspaceState, after: WorkspaceState) -> bool {
    after == (WorkspaceState { name: after.name, ..before })
}

/// Settling a space gives it what the settings ask for.
#[verifier::spinoff_prover]
#[verifier::rlimit(40)]
proof fn lemma_space_is_settled(store: StoreState, space: SpaceId)
    requires
        store.consistent(),
        store.by_space.contains_key(space.id),
        store.upcoming.len() >= store.space_shortfall(space),
    ensures
        store.is_settled(store.space_settled(space), space),
{
    let list = store.list_of(space);
    let count = store.space_shortfall(space);
    let names = store.settings.workspace_names;
    listed_is_owned(store, space);
    lemma_renamed(store, list, list.len());
    crate::configuration::lemma_names_given(store, list, list.len());
    lemma_unnamed_stay(store, list, list.len());
    let renamed = store.renamed(list, list.len());
    renamed_is_consistent(store, list, list.len());
    filling_up(renamed, space, list.len(), count);
    lemma_pushed_from(renamed, space, list.len(), count);
    let after = store.space_settled(space);
    let longer = after.by_space[space.id];
    assert(longer == list + renamed.upcoming.take(count as int));
    assert(list.take(list.len() as int) =~= list);
    assert forall|i: int| 0 <= i < list.len() implies #[trigger] longer[i] == list[i]
        && store.is_renamed(after, list[i], i) by {
        assert(list.contains(list[i]));
        assert(store.entries.contains_key(list[i]));
        assert(renamed.entries.dom().contains(list[i]));
        assert(renamed.entries.contains_key(list[i]));
    }
    assert forall|i: int| list.len() <= i < longer.len() implies store.is_added(
        after,
        space,
        #[trigger] longer[i],
        i,
    ) by {
        let k = i - list.len();
        assert(longer[i] == renamed.upcoming[k]);
        if store.entries.contains_key(longer[i]) {
            assert(longer[i].index() < store.upcoming[k].index());
        }
        if i >= names.len() {
            let number = if list.len() >= names.len() {
                (renamed.counter + k) as nat
            } else {
                (renamed.counter + (list.len() + k - names.len())) as nat
            };
            assert(after.entries[longer[i]].name == numbered_name(number));
        }
    }
}

/// Settling a space leaves all others alone, and what is shown.
#[verifier::spinoff_prover]
#[verifier::rlimit(40)]
proof fn lemma_space_settles(store: StoreState, space: SpaceId)
    requires
        store.consistent(),
        store.by_space.contains_key(space.id),
        store.upcoming.len() >= store.space_shortfall(space),
    ensures
        ({
            let after = store.space_settled(space);
            &&& after.consistent()
            &&& forall|id: VirtualWorkspaceId| #[trigger]
                store.entries.contains_key(id) ==> after.entries.contains_key(id) && (
                store.entries[id].space != space ==> after.entries[id] == store.entries[id])
            &&& forall|id: VirtualWorkspaceId| #[trigger]
                after.entries.contains_key(id) && !store.entries.contains_key(id)
                    ==> after.entries[id].space == space
            &&& forall|key: u64|
                key != space.id ==> #[trigger] after.by_space[key] == store.by_space[key]
            &&& after.by_space.dom() == store.by_space.dom()
            &&& after.active == store.active
            &&& after.last_global == store.last_global
            &&& after.settings == store.settings
            &&& after.counter >= store.counter
        }),
{
    let list = store.list_of(space);
    let count = store.space_shortfall(space);
    listed_is_owned(store, space);
    lemma_renamed(store, list, list.len());
    crate::configuration::lemma_names_given(store, list, list.len());
    renamed_is_consistent(store, list, list.len());
    let renamed = store.renamed(list, list.len());
    filling_up(renamed, space, list.len(), count);
    pushed_is_consistent(renamed, space, list.len(), count);
    lemma_pushed_from(renamed, space, list.len(), count);
    assert(list.take(list.len() as int) =~= list);
    let after = store.space_settled(space);
    assert forall|id: VirtualWorkspaceId| #[trigger]
        store.entries.contains_key(id) implies after.entries.contains_key(id) && (
    store.entries[id].space != space ==> after.entries[id] == store.entries[id]) by {
        assert(renamed.entries.dom().contains(id));
        assert(renamed.entries.contains_key(id));
        if store.entries[id].space != space {
            assert(!list.contains(id));
        }
    }
    assert forall|id: VirtualWorkspaceId| #[trigger]
        after.entries.contains_key(id) && !store.entries.contains_key(id) implies after.entries[id].space
        == space by {
        assert(!renamed.entries.dom().contains(id));
        assert(renamed.upcoming.take(count as int).contains(id));
        let k = choose|k: int|
            0 <= k < count && #[trigger] renamed.upcoming.take(count as int)[k] == id;
        assert(renamed.upcoming[k] == id);
    }
    assert(after.by_space.dom() =~= store.by_space.dom()) by {
        assert forall|key: u64| after.by_space.dom().contains(key)
            <==> store.by_space.dom().contains(key) by {
            assert(after.by_space.contains_key(key) <==> store.by_space.contains_key(key)) by {
                if key != space.id {
                    assert(renamed.by_space.contains_key(key) == store.by_space.contains_key(key));
                }
            }
        }
    }
    assert forall|key: u64| key != space.id implies #[trigger] after.by_space[key]
        == store.by_space[key] by {
        assert(renamed.by_space[key] == store.by_space[key]);
    }
}

/// The name is a numbered one, with a number from one on and below another.
pub open spec fn numbered_from(name: Seq<char>, from: nat, below: nat) -> bool {
    exists|number: nat| from <= number < below && name == #[trigger] numbered_name(number)
}

/// Workspaces at places without a name keep the name that they have.
proof fn lemma_unnamed_stay(store: StoreState, ids: Seq<VirtualWorkspaceId>, count: nat)
    requires
        count <= ids.len(),
        ids.no_duplicates(),
    ensures
        forall|i: int|
            store.settings.workspace_names.len() <= i < ids.len() ==> store.renamed(
                ids,
                count,
            ).entries[#[trigger] ids[i]] == store.entries[ids[i]],
    decreases count,
{
    if count > 0 {
        lemma_unnamed_stay(store, ids, (count - 1) as nat);
        lemma_renamed(store, ids, (count - 1) as nat);
    }
}

#[verifier::spinoff_prover]
#[verifier::rlimit(40)]
proof fn lemma_spaces_settle(store: StoreState, keys: Seq<u64>, key: u64)
    requires
        store.consistent(),
        keys.no_duplicates(),
        forall|k: u64| #[trigger] keys.contains(k) ==> store.by_space.contains_key(k),
        store.upcoming.len() >= store.spaces_shortfall(keys),
        store.by_space.contains_key(key),
    ensures
        store.spaces_settled(keys).consistent(),
        keys.contains(key) ==> store.is_settled(store.spaces_settled(keys), SpaceId { id: key }),
        !keys.contains(key) ==> store.spaces_settled(keys).by_space[key] == store.by_space[key]
            && forall|id: VirtualWorkspaceId| #[trigger]
            store.entries.contains_key(id) && store.entries[id].space.id == key
                ==> store.spaces_settled(keys).entries[id] == store.entries[id],
        forall|id: VirtualWorkspaceId| #[trigger]
            store.entries.contains_key(id) ==> store.spaces_settled(keys).entries.contains_key(id)
                && store.spaces_settled(keys).entries[id].space == store.entries[id].space,
        store.spaces_settled(keys).active == store.active,
        store.spaces_settled(keys).last_global == store.last_global,
        store.spaces_settled(keys).settings == store.settings,
        store.spaces_settled(keys).by_space.dom() == store.by_space.dom(),
        store.spaces_settled(keys).counter >= store.counter,
        !keys.contains(key) ==> forall|id: VirtualWorkspaceId| #[trigger]
            store.spaces_settled(keys).entries.contains_key(id) && !store.entries.contains_key(id)
                ==> store.spaces_settled(keys).entries[id].space.id != key,
    decreases keys.len(),
{
    if keys.len() > 0 {
        let fewer = keys.drop_last();
        let last = keys.last();
        let space = SpaceId { id: last };
        assert(keys =~= fewer.push(last));
        assert forall|k: u64| #[trigger] keys.contains(k) <==> fewer.contains(k) || k == last by {
            lemma_push_contains(fewer, last, k);
        }
        assert forall|k: u64| #[trigger] fewer.contains(k) implies store.by_space.contains_key(
            k,
        ) by {
            assert(keys.contains(k));
        }
        assert(keys.contains(last));
        assert(!fewer.contains(last));
        lemma_spaces_settle(store, fewer, key);
        lemma_spaces_settle(store, fewer, last);
        lemma_spaces_settled(store, fewer);
        let before = store.spaces_settled(fewer);
        let after = store.spaces_settled(keys);
        assert(before.by_space[last] == store.by_space[last]);
        assert(before.by_space.dom().contains(last));
        lemma_space_settles(before, space);
        lemma_space_is_settled(before, space);
        let list = store.by_space[last];
        if key == last {
            assert forall|i: int| 0 <= i < list.len() implies store.entries.contains_key(
                #[trigger] list[i],
            ) && before.entries[list[i]] == store.entries[list[i]] by {
                assert(list.contains(list[i]));
                assert(store.by_space[last].contains(list[i]));
                assert(store.owns(space, list[i]));
            }
            lemma_settled_from(store, before, after, space);
        } else {
            assert(after.by_space[key] == before.by_space[key]);
            if fewer.contains(key) {
                lemma_settled_stays(store, before, after, SpaceId { id: key });
            } else {
                assert forall|id: VirtualWorkspaceId| #[trigger]
                    store.entries.contains_key(id) && store.entries[id].space.id
                        == key implies after.entries[id] == store.entries[id] by {
                    assert(before.entries.contains_key(id));
                }
                assert forall|id: VirtualWorkspaceId| #[trigger]
                    after.entries.contains_key(id) && !store.entries.contains_key(
                        id,
                    ) implies after.entries[id].space.id != key by {
                    if before.entries.contains_key(id) {
                        assert(before.entries[id].space.id != key);
                        if before.entries[id].space == space {
                            assert(after.entries[id].space.id == last) by {
                                listed_is_owned(before, space);
                                assert(before.owns(space, id));
                                assert(before.list_of(space).contains(id));
                                let i = choose|i: int|
                                    0 <= i < before.by_space[last].len() && before.by_space[last][i]
                                        == id;
                                assert(after.by_space[last][i] == before.by_space[last][i]);
                            }
                        }
                    }
                }
            }
        }
        assert forall|id: VirtualWorkspaceId| #[trigger]
            store.entries.contains_key(id) implies after.entries.contains_key(id)
            && after.entries[id].space == store.entries[id].space by {
            assert(before.entries.contains_key(id));
            if before.entries[id].space == space {
                listed_is_owned(before, space);
                assert(before.owns(space, id));
                assert(before.list_of(space).contains(id));
                let i = choose|i: int|
                    0 <= i < before.by_space[last].len() && before.by_space[last][i] == id;
                assert(after.by_space[last][i] == before.by_space[last][i]);
            }
        }
    }
}

/// A settled space stays so while other spaces settle.
proof fn lemma_settled_stays(store: StoreState, before: StoreState, after: StoreState, space: SpaceId)
    requires
        before.consistent(),
        store.is_settled(before, space),
        before.by_space.contains_key(space.id),
        after.by_space[space.id] == before.by_space[space.id],
        after.counter >= before.counter,
        before.counter >= store.counter,
        forall|id: VirtualWorkspaceId| #[trigger]
            before.entries.contains_key(id) && before.entries[id].space == space
                ==> after.entries.contains_key(id) && after.entries[id] == before.entries[id],
    ensures
        store.is_settled(after, space),
{
    let list = store.by_space[space.id];
    let longer = before.by_space[space.id];
    assert forall|i: int| 0 <= i < longer.len() implies after.entries.contains_key(
        #[trigger] longer[i],
    ) && after.entries[longer[i]] == before.entries[longer[i]] by {
        assert(longer.contains(longer[i]));
        assert(before.by_space[space.id].contains(longer[i]));
        assert(before.owns(space, longer[i]));
        assert(before.entries.contains_key(longer[i]));
    }
    assert forall|i: int| 0 <= i < list.len() implies #[trigger] after.by_space[space.id][i]
        == list[i] && store.is_renamed(after, list[i], i) by {
        assert(longer[i] == list[i]);
    }
    assert forall|i: int| list.len() <= i < longer.len() implies store.is_added(
        after,
        space,
        #[trigger] after.by_space[space.id][i],
        i,
    ) by {
        assert(store.is_added(before, space, longer[i], i));
        lemma_numbered_later(
            before.entries[longer[i]].name,
            store.counter,
            before.counter,
            store.counter,
            after.counter,
        );
    }
}

/// A space that settled after others settled as it would have before.
proof fn lemma_settled_from(store: StoreState, before: StoreState, after: StoreState, space: SpaceId)
    requires
        before.is_settled(after, space),
        before.by_space[space.id] == store.by_space[space.id],
        before.settings == store.settings,
        before.counter >= store.counter,
        forall|i: int|
            0 <= i < store.by_space[space.id].len() ==> before.entries[
                #[trigger] store.by_space[space.id][i]
            ] == store.entries[store.by_space[space.id][i]],
        forall|id: VirtualWorkspaceId| #[trigger]
            store.entries.contains_key(id) ==> before.entries.contains_key(id),
    ensures
        store.is_settled(after, space),
{
    let list = store.by_space[space.id];
    let longer = after.by_space[space.id];
    assert forall|i: int| 0 <= i < list.len() implies #[trigger] longer[i] == list[i]
        && store.is_renamed(after, list[i], i) by {
        assert(longer[i] == before.by_space[space.id][i]);
        assert(before.is_renamed(after, list[i], i));
    }
    assert forall|i: int| list.len() <= i < longer.len() implies store.is_added(
        after,
        space,
        #[trigger] longer[i],
        i,
    ) by {
        assert(before.is_added(after, space, longer[i], i));
        lemma_numbered_later(
            after.entries[longer[i]].name,
            before.counter,
            after.counter,
            store.counter,
            after.counter,
        );
    }
}

proof fn lemma_numbered_later(name: Seq<char>, from: nat, below: nat, sooner: nat, later: nat)
    requires
        sooner <= from,
        below <= later,
    ensures
        numbered_from(name, from, below) ==> numbered_from(name, sooner, later),
{
    if numbered_from(name, from, below) {
        let number = choose|number: nat|
            from <= number < below && name == #[trigger] numbered_name(number);
        assert(sooner <= number < later && name == numbered_name(number));
    }
}

impl StoreState {
    /// A workspace that was there has the settings' name for its place, or keeps
    /// its name where they have none, and is otherwise as it was.
    pub open spec fn is_renamed(
        self,
        after: StoreState,
        id: VirtualWorkspaceId,
        place: int,
    ) -> bool {
        &&& name_alone_changes(self.entries[id], after.entries[id])
        &&& after.entries[id].name == (if place < self.settings.workspace_names.len() {
            self.settings.workspace_names[place]
        } else {
            self.entries[id].name
        })
    }

    /// A workspace was not there and is new at a place of a space, under the
    /// settings' name for the place, or under a number that was still to come.
    pub open spec fn is_added(
        self,
        after: StoreState,
        space: SpaceId,
        id: VirtualWorkspaceId,
        place: int,
    ) -> bool {
        &&& !self.entries.contains_key(id)
        &&& after.entries.contains_key(id)
        &&& is_new(
            self.settings,
            after.entries[id],
            space,
            place as nat,
            after.entries[id].name,
        )
        &&& if place < self.settings.workspace_names.len() {
            after.entries[id].name == self.settings.workspace_names[place]
        } else {
            numbered_from(after.entries[id].name, self.counter, after.counter)
        }
    }

    /// A space is as the settings ask for: it lists what it did, at the same
    /// places, under the settings' names for these places where there are any,
    /// and behind that new workspaces up to the number that the settings ask for.
    pub open spec fn is_settled(self, after: StoreState, space: SpaceId) -> bool {
        let list = self.by_space[space.id];
        let longer = after.by_space[space.id];
        let target = self.settings.target_count();
        &&& longer.len() == (if list.len() < target {
            target
        } else {
            list.len()
        })
        &&& forall|i: int|
            0 <= i < list.len() ==> #[trigger] longer[i] == list[i] && self.is_renamed(
                after,
                list[i],
                i,
            )
        &&& forall|i: int|
            list.len() <= i < longer.len() ==> self.is_added(after, space, #[trigger] longer[i], i)
    }
}

/// Where each space has its own workspaces, new settings settle every space, and
/// what is shown stays.
pub proof fn settings_settle_every_space(
    store: StoreState,
    config: VirtualWorkspaceSettings,
    layout_settings: LayoutSettings,
    key: u64,
)
    requires
        store.consistent(),
        !config.shared_across_displays,
        store.upcoming.len() >= store.under(config, layout_settings).shortfall(),
        store.by_space.contains_key(key),
    ensures
        ({
            let under = store.under(config, layout_settings);
            let after = under.settled();
            &&& under.is_settled(after, SpaceId { id: key })
            &&& after.by_space.dom() == store.by_space.dom()
            &&& after.active == store.active
            &&& after.last_global == store.last_global
            &&& after.settings == under.settings
        }),
{
    let under = store.under(config, layout_settings);
    settled_is_consistent(store, config, layout_settings);
    assert(under.by_space.dom() =~= store.by_space.dom());
    let keys = listing(under.by_space.dom());
    lemma_listing(under.by_space.dom());
    assert(keys.contains(key));
    lemma_spaces_settle(under, keys, key);
}

impl StoreState {
    /// A space has a list, and none with a smaller number does.
    pub open spec fn is_first_space(self, space: SpaceId) -> bool {
        &&& self.by_space.contains_key(space.id)
        &&& forall|key: u64| #[trigger] self.by_space.contains_key(key) ==> space.id <= key
    }
}

/// Where displays share a pool, new settings name its workspaces by their global
/// places where there are names, and add new ones on the space with the smallest
/// number, behind the others, up to the number that the settings ask for. What is
/// shown stays. Nothing is named or added where no space has a list.
#[verifier::spinoff_prover]
#[verifier::rlimit(40)]
pub proof fn settings_settle_the_pool(
    store: StoreState,
    config: VirtualWorkspaceSettings,
    layout_settings: LayoutSettings,
)
    requires
        store.consistent(),
        config.shared_across_displays,
        store.upcoming.len() >= store.under(config, layout_settings).shortfall(),
    ensures
        ({
            let under = store.under(config, layout_settings);
            let after = under.settled();
            let ids = store.global_ids();
            let longer = after.global_ids();
            let names = under.settings.workspace_names;
            let target = under.settings.target_count();
            &&& store.by_space.dom().is_empty() ==> after == under
            &&& !store.by_space.dom().is_empty() ==> {
                &&& longer.len() == (if ids.len() < target {
                    target
                } else {
                    ids.len()
                })
                &&& forall|i: int|
                    0 <= i < ids.len() ==> #[trigger] longer[i] == ids[i] && under.is_renamed(
                        after,
                        ids[i],
                        i,
                    )
                &&& forall|i: int|
                    ids.len() <= i < longer.len() ==> under.is_added(
                        after,
                        after.entries[longer[i]].space,
                        #[trigger] longer[i],
                        i,
                    ) && store.is_first_space(after.entries[longer[i]].space)
                &&& after.active == store.active
                &&& after.last_global == store.last_global
                &&& after.settings == under.settings
            }
        }),
{
    let under = store.under(config, layout_settings);
    settled_is_consistent(store, config, layout_settings);
    assert(under.by_space.dom() =~= store.by_space.dom());
    let keys = listing(under.by_space.dom());
    lemma_listing(under.by_space.dom());
    assert(keys.len() == 0 <==> store.by_space.dom().is_empty());
    pool_is_everything(store);
    pool_is_everything(under);
    if keys.len() > 0 {
        let home = SpaceId { id: keys[0] };
        let first = under.global_ids().len();
        let count = under.pool_shortfall();
        let ids = store.global_ids();
        assert(ids == under.global_ids());
        filling_up(under, home, first, count);
        crate::numbering::pool_grows_at_its_end(under, home, first, count);
        pushed_is_consistent(under, home, first, count);
        let filled = under.pool_filled(home);
        let longer = filled.global_ids();
        pool_is_everything(filled);
        lemma_renamed(filled, longer, longer.len());
        crate::configuration::lemma_names_given(filled, longer, longer.len());
        lemma_unnamed_stay(filled, longer, longer.len());
        renamed_is_consistent(filled, longer, longer.len());
        let after = under.settled();
        pool_is_everything(after);
        assert(after.global_ids() == longer);
        let names = under.settings.workspace_names;
        assert forall|i: int| 0 <= i < ids.len() implies #[trigger] longer[i] == ids[i]
            && under.is_renamed(after, ids[i], i) by {
            assert(longer[i] == ids[i]);
            assert(ids.contains(ids[i]));
            assert(store.entries.contains_key(ids[i]));
            assert(filled.entries.contains_key(ids[i]));
        }
        assert forall|key: u64| #[trigger] store.by_space.contains_key(key) implies keys[0] <= key by {
            assert(under.by_space.dom().contains(key));
            assert(keys.contains(key));
            let k = choose|k: int| 0 <= k < keys.len() && keys[k] == key;
            if k > 0 {
                assert(crate::order::Ranked::rank(keys[0]) < crate::order::Ranked::rank(keys[k]));
            }
        }
        assert(keys.contains(keys[0]));
        assert(store.by_space.dom().contains(keys[0]));
        assert(store.is_first_space(home));
        assert forall|i: int| ids.len() <= i < longer.len() implies under.is_added(
            after,
            after.entries[longer[i]].space,
            #[trigger] longer[i],
            i,
        ) && store.is_first_space(after.entries[longer[i]].space) by {
            let k = i - ids.len();
            assert(longer[i] == under.upcoming[k]);
            if store.entries.contains_key(longer[i]) {
                assert(longer[i].index() < store.upcoming[k].index());
            }
            assert(filled.entries.contains_key(longer[i]));
            assert(longer.contains(longer[i]));
            if i >= names.len() {
                let number = if first >= names.len() {
                    (under.counter + k) as nat
                } else {
                    (under.counter + (first + k - names.len())) as nat
                };
                assert(after.entries[longer[i]].name == numbered_name(number));
            }
        }
    }
}

} // verus!
