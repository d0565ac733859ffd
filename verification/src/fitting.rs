//! What becomes of each workspace and each window when the pool is fitted to the
//! displays.
use crate::desktop::hidden_from;
use crate::desktop::not_shown;
use crate::desktop::shown_on;
use crate::desktop::Desktop;
use crate::desktop::DisplayState;
use crate::ids::SpaceId;
use crate::ids::VirtualWorkspaceId;
use crate::ids::WindowId;
use crate::order::lemma_listing;
use crate::order::listing;
use crate::order::Ranked;
use crate::sequences::lemma_filter_none;
use crate::settings::DisplayAssignment;
use crate::soundness::listed_is_owned;
use crate::soundness::pool_is_everything;
use crate::state::StoreState;
use crate::topology::arranged_follows_assignments;
use crate::topology::arranged_serves_every_display;
use crate::topology::arranged_whatever_the_windows;
use crate::topology::assignments_applied_is_sound;
use crate::topology::lemma_assignments_name_the_same;
use crate::topology::lemma_given;
use crate::topology::lemma_nothing_to_supply;
use crate::topology::pool_ready_is_sound;
use crate::topology::rehomed_is_sound;
use crate::windows::WindowState;
use crate::windows::WindowWorkspaceInfo;
use vstd::prelude::*;

verus! {

// A display without workspaces.

impl StoreState {
    /// A space other than `space` has more than one workspace. Of all such it has
    /// most, and of those that have as many the greatest number.
    pub open spec fn has_most(self, space: SpaceId, key: u64) -> bool {
        &&& key != space.id
        &&& self.by_space.contains_key(key)
        &&& self.by_space[key].len() > 1
        &&& forall|other: u64| #[trigger]
            self.by_space.contains_key(other) && other != space.id ==> self.by_space[other].len()
                < self.by_space[key].len() || (self.by_space[other].len()
                == self.by_space[key].len() && other <= key)
    }

    /// A workspace of a space is not shown there, and all later ones are.
    pub open spec fn is_last_unshown(self, space: SpaceId, id: VirtualWorkspaceId) -> bool {
        &&& self.entries.contains_key(id)
        &&& self.entries[id].space == space
        &&& self.active_of(space) != Some(id)
        &&& forall|other: VirtualWorkspaceId| #[trigger]
            self.entries.contains_key(other) && self.entries[other].space == space && id.rank()
                < other.rank() ==> self.active_of(space) == Some(other)
    }

    /// Where the workspace for a space without any comes from.
    pub open spec fn comes_from(self, space: SpaceId, key: u64, id: VirtualWorkspaceId) -> bool {
        self.has_most(space, key) && self.is_last_unshown(SpaceId { id: key }, id)
    }
}

/// A space that has workspaces is not given any: it shows its first one where it
/// shows none, and nothing else changes. A space that has none gets the last
/// workspace that is not shown from the space that has most, if one has more than
/// one. Where none has, nothing changes.
#[verifier::spinoff_prover]
#[verifier::rlimit(40)]
pub proof fn display_gets_a_workspace(desk: Desktop, space: SpaceId)
    requires
        desk.sound(),
    ensures
        ({
            let store = desk.store;
            let after = desk.supplied(space);
            let listed = store.by_space.contains_key(space.id) && store.by_space[space.id].len()
                > 0;
            &&& listed && store.active.contains_key(space.id) ==> after == desk
            &&& listed && !store.active.contains_key(space.id) ==> after == (Desktop {
                store: StoreState {
                    active: store.active.insert(
                        space.id,
                        (None, store.by_space[space.id][0]),
                    ),
                    ..store
                },
                ..desk
            })
            &&& !listed && (forall|key: u64| #[trigger]
                store.by_space.contains_key(key) ==> store.by_space[key].len() <= 1) ==> after
                == desk
            &&& !listed && (exists|key: u64| #[trigger]
                store.by_space.contains_key(key) && store.by_space[key].len() > 1) ==> exists|
                key: u64,
                id: VirtualWorkspaceId,
            | #[trigger] store.comes_from(space, key, id) && after == desk.relocated(id, space)
        }),
{
    let store = desk.store;
    let after = desk.supplied(space);
    listed_is_owned(store, space);
    let listed = store.by_space.contains_key(space.id) && store.by_space[space.id].len() > 0;
    if listed && store.active.contains_key(space.id) {
        assert(after.store =~= store);
    }
    if !listed {
        if exists|key: u64| #[trigger]
            store.by_space.contains_key(key) && store.by_space[key].len() > 1 {
            let key = choose|key: u64| #[trigger]
                store.by_space.contains_key(key) && store.by_space[key].len() > 1;
            assert(store.can_give(space, key));
            lemma_given(store, space);
            let donor = store.donor(space)->0;
            assert forall|other: u64| #[trigger]
                store.by_space.contains_key(other) && other
                    != space.id implies store.by_space[other].len() < store.by_space[donor.id].len()
                || (store.by_space[other].len() == store.by_space[donor.id].len() && other
                <= donor.id) by {
                if store.by_space[other].len() > 1 {
                    assert(store.can_give(space, other));
                    assert(store.comes_before(other, donor.id));
                } else {
                    assert(store.can_give(space, donor.id));
                }
            }
            assert(store.has_most(space, donor.id));
            let id = store.given_to(space)->0;
            lemma_last_unshown(store, donor);
            assert(donor == SpaceId { id: donor.id });
            assert(store.comes_from(space, donor.id, id));
        } else {
            assert(store.given_to(space) is None) by {
                if exists|key: u64| store.is_donor(space, key) {
                    let key = choose|key: u64| store.is_donor(space, key);
                    assert(store.can_give(space, key));
                    assert(store.by_space.contains_key(key));
                }
            }
        }
    }
}

/// The spare workspace of a space is its last one that is not shown.
proof fn lemma_last_unshown(store: StoreState, space: SpaceId)
    requires
        store.consistent(),
        store.by_space.contains_key(space.id),
    ensures
        store.spare(space) matches Some(id) ==> store.is_last_unshown(space, id),
{
    listed_is_owned(store, space);
    let ids = store.owned_ids(space);
    let wanted = not_shown(store.active_of(space));
    lemma_last_of_filter(ids, wanted);
    if let Some(id) = store.spare(space) {
        let i = choose|i: int|
            0 <= i < ids.len() && #[trigger] ids[i] == id && wanted(id) && forall|j: int|
                i < j < ids.len() ==> !wanted(#[trigger] ids[j]);
        assert(ids.contains(ids[i]));
        assert(store.owns(space, id));
        assert forall|other: VirtualWorkspaceId| #[trigger]
            store.entries.contains_key(other) && store.entries[other].space == space && id.rank()
                < other.rank() implies store.active_of(space) == Some(other) by {
            assert(store.owns(space, other));
            assert(ids.contains(other));
            let j = choose|j: int| 0 <= j < ids.len() && ids[j] == other;
            if j < i {
                assert(ids[j].rank() < ids[i].rank());
            }
            assert(!wanted(ids[j]));
        }
    }
}

proof fn lemma_last_of_filter<T>(s: Seq<T>, wanted: spec_fn(T) -> bool)
    ensures
        s.filter(wanted).len() > 0 ==> exists|i: int|
            0 <= i < s.len() && #[trigger] s[i] == s.filter(wanted).last() && wanted(
                s.filter(wanted).last(),
            ) && forall|j: int| i < j < s.len() ==> !wanted(#[trigger] s[j]),
    decreases s.len(),
{
    reveal(Seq::filter);
    if s.len() > 0 {
        let fewer = s.drop_last();
        if wanted(s.last()) {
            assert(s[s.len() - 1] == s.filter(wanted).last());
        } else {
            lemma_last_of_filter(fewer, wanted);
            if s.filter(wanted).len() > 0 {
                let i = choose|i: int|
                    0 <= i < fewer.len() && #[trigger] fewer[i] == fewer.filter(wanted).last()
                        && wanted(fewer.filter(wanted).last()) && forall|j: int|
                        i < j < fewer.len() ==> !wanted(#[trigger] fewer[j]);
                assert(s[i] == fewer[i]);
                assert forall|j: int| i < j < s.len() implies !wanted(#[trigger] s[j]) by {
                    if j < fewer.len() {
                        assert(fewer[j] == s[j]);
                    }
                }
            }
        }
    }
}

// Workspaces that no assignment names.

impl Desktop {
    /// Some assignment gives a workspace to a display.
    pub open spec fn is_named(
        self,
        assignments: Seq<DisplayAssignment>,
        visible: Seq<DisplayState>,
        id: VirtualWorkspaceId,
    ) -> bool {
        exists|i: int|
            0 <= i < assignments.len() && (self.assignment_of(
                #[trigger] assignments[i],
                visible,
            ) matches Some(named) && named.0 == id)
    }

    /// The workspaces are on the displays, one on each, and no assignment names
    /// any of them.
    pub open spec fn each_has_its_own(
        self,
        visible: Seq<DisplayState>,
        own: Seq<VirtualWorkspaceId>,
    ) -> bool {
        let ready = Desktop { store: self.store.pool_ready(visible[0].0), ..self };
        &&& own.len() == visible.len()
        &&& forall|i: int|
            0 <= i < own.len() ==> self.store.entries.contains_key(#[trigger] own[i])
                && self.store.entries[own[i]].space == visible[i].0 && !ready.is_named(
                self.store.settings.display_assignment,
                visible,
                own[i],
            )
    }
}

/// A workspace that no assignment names stays as it is.
proof fn lemma_unnamed_stays(
    desk: Desktop,
    assignments: Seq<DisplayAssignment>,
    visible: Seq<DisplayState>,
    id: VirtualWorkspaceId,
)
    requires
        desk.sound(),
        desk.store.entries.contains_key(id),
        !desk.is_named(assignments, visible, id),
    ensures
        desk.assignments_applied(assignments, visible).store.entries.contains_key(id),
        desk.assignments_applied(assignments, visible).store.entries[id] == desk.store.entries[id],
    decreases assignments.len(),
{
    if assignments.len() > 0 {
        let fewer = assignments.drop_last();
        let last = assignments.last();
        assert(!desk.is_named(fewer, visible, id)) by {
            if desk.is_named(fewer, visible, id) {
                let i = choose|i: int|
                    0 <= i < fewer.len() && (desk.assignment_of(
                        #[trigger] fewer[i],
                        visible,
                    ) matches Some(named) && named.0 == id);
                assert(fewer[i] == assignments[i]);
            }
        }
        lemma_unnamed_stays(desk, fewer, visible, id);
        lemma_assignments_name_the_same(desk, fewer, visible, last);
        assert(assignments[assignments.len() - 1] == last);
        let before = desk.assignments_applied(fewer, visible);
        if let Some(named) = before.assignment_of(last, visible) {
            assert(named.0 != id);
            crate::moves::move_changes_the_space_alone(before.store, named.0, named.1);
            let after = before.store.relocated(named.0, named.1);
            assert(after.entries.contains_key(id) <==> before.store.entries.contains_key(id));
        }
    }
}

/// Where each display has a workspace of its own that no assignment names, it has
/// one when all assignments are met and no workspace is left on other spaces.
proof fn lemma_every_display_has_its_own(
    desk: Desktop,
    visible: Seq<DisplayState>,
    own: Seq<VirtualWorkspaceId>,
)
    requires
        desk.sound(),
        visible.len() > 0,
        desk.store.upcoming.len() >= desk.store.pool_shortfall(),
        desk.each_has_its_own(visible, own),
    ensures
        ({
            let ready = Desktop { store: desk.store.pool_ready(visible[0].0), ..desk };
            let rehomed = ready.assignments_applied(
                desk.store.settings.display_assignment,
                visible,
            ).rehomed(visible[0].0, visible);
            forall|i: int|
                0 <= i < visible.len() ==> rehomed.store.owned_ids((#[trigger] visible[i]).0).len()
                    > 0
        }),
{
    let home = visible[0].0;
    let assignments = desk.store.settings.display_assignment;
    let ready = Desktop { store: desk.store.pool_ready(home), ..desk };
    pool_ready_is_sound(desk, home);
    crate::growth::lemma_pushed_from(
        desk.store,
        home,
        desk.store.global_ids().len(),
        desk.store.pool_shortfall(),
    );
    crate::provisions::filling_up(
        desk.store,
        home,
        desk.store.global_ids().len(),
        desk.store.pool_shortfall(),
    );
    let assigned = ready.assignments_applied(assignments, visible);
    assignments_applied_is_sound(ready, assignments, visible);
    assert(shown_on(visible, home.id)) by {
        assert(visible[0].0.id == home.id);
    }
    rehomed_is_sound(assigned, home, visible);
    let rehomed = assigned.rehomed(home, visible);
    assert forall|i: int| 0 <= i < visible.len() implies rehomed.store.owned_ids(
        (#[trigger] visible[i]).0,
    ).len() > 0 by {
        let space = visible[i].0;
        assert(desk.store.entries.contains_key(own[i]));
        assert(ready.store.entries.contains_key(own[i]));
        lemma_unnamed_stays(ready, assignments, visible, own[i]);
        assert(shown_on(visible, space.id));
        assert(assigned.store.entries.contains_key(own[i]));
        assert(rehomed.store.entries.dom().contains(own[i]));
        listed_is_owned(rehomed.store, space);
        assert(rehomed.store.owns(space, own[i]));
        assert(rehomed.store.owned_ids(space).contains(own[i]));
    }
}

/// Where each display has a workspace of its own that no assignment names, a
/// workspace that some assignment names is on the display that the last of these
/// gives it to.
pub proof fn assigned_workspaces_go_to_their_displays(
    desk: Desktop,
    visible: Seq<DisplayState>,
    own: Seq<VirtualWorkspaceId>,
    decisive: int,
    id: VirtualWorkspaceId,
    space: SpaceId,
)
    requires
        desk.sound(),
        desk.store.settings.shared,
        visible.len() > 0,
        desk.store.upcoming.len() >= desk.store.pool_shortfall(),
        desk.each_has_its_own(visible, own),
        ({
            let ready = Desktop { store: desk.store.pool_ready(visible[0].0), ..desk };
            let assignments = desk.store.settings.display_assignment;
            &&& 0 <= decisive < assignments.len()
            &&& ready.assignment_of(assignments[decisive], visible) == Some((id, space))
            &&& forall|later: int|
                decisive < later < assignments.len() ==> (ready.assignment_of(
                    #[trigger] assignments[later],
                    visible,
                ) matches Some(other) ==> other.0 != id)
        }),
    ensures
        desk.arranged(visible).store.entries.contains_key(id),
        desk.arranged(visible).store.entries[id].space == space,
{
    lemma_every_display_has_its_own(desk, visible, own);
    arranged_follows_assignments(desk, visible, decisive, id, space);
}

/// Where each display has a workspace of its own that no assignment names, every
/// workspace that no assignment names stays where it is, if a display shows its
/// space, and comes to the first display, if none does. New ones are on the first
/// display too.
#[verifier::spinoff_prover]
#[verifier::rlimit(40)]
pub proof fn unassigned_workspaces_stay_or_come_home(
    desk: Desktop,
    visible: Seq<DisplayState>,
    own: Seq<VirtualWorkspaceId>,
    id: VirtualWorkspaceId,
)
    requires
        desk.store.consistent(),
        desk.store.settings.shared,
        visible.len() > 0,
        desk.store.upcoming.len() >= desk.store.pool_shortfall(),
        desk.each_has_its_own(visible, own),
        !(Desktop { store: desk.store.pool_ready(visible[0].0), ..desk }).is_named(
            desk.store.settings.display_assignment,
            visible,
            id,
        ),
    ensures
        desk.store.entries.contains_key(id) ==> desk.arranged(visible).store.entries.contains_key(
            id,
        ) && desk.arranged(visible).store.entries[id].space == (if shown_on(
            visible,
            desk.store.entries[id].space.id,
        ) {
            desk.store.entries[id].space
        } else {
            visible[0].0
        }),
        desk.arranged(visible).store.entries.contains_key(id) && !desk.store.entries.contains_key(
            id,
        ) ==> desk.arranged(visible).store.entries[id].space == visible[0].0,
{
    let home = visible[0].0;
    let assignments = desk.store.settings.display_assignment;
    let bare = Desktop { windows: WindowState::empty(), ..desk };
    assert(bare.sound()) by {
        assert(bare.windows.assignments.order.to_set() =~= bare.windows.assignments.values.dom());
    }
    arranged_whatever_the_windows(desk, bare, visible);
    let ready = Desktop { store: bare.store.pool_ready(home), ..bare };
    let known = Desktop { store: desk.store.pool_ready(home), ..desk };
    pool_ready_is_sound(bare, home);
    crate::growth::lemma_pushed_from(
        desk.store,
        home,
        desk.store.global_ids().len(),
        desk.store.pool_shortfall(),
    );
    crate::provisions::filling_up(
        desk.store,
        home,
        desk.store.global_ids().len(),
        desk.store.pool_shortfall(),
    );
    let assigned = ready.assignments_applied(assignments, visible);
    assignments_applied_is_sound(ready, assignments, visible);
    assert(shown_on(visible, home.id)) by {
        assert(visible[0].0.id == home.id);
    }
    rehomed_is_sound(assigned, home, visible);
    let rehomed = assigned.rehomed(home, visible);
    assert forall|x: VirtualWorkspaceId| ready.is_named(assignments, visible, x)
        == known.is_named(assignments, visible, x) by {
        assert forall|i: int| 0 <= i < assignments.len() implies ready.assignment_of(
            #[trigger] assignments[i],
            visible,
        ) == known.assignment_of(assignments[i], visible) by {}
    }
    assert(bare.each_has_its_own(visible, own)) by {
        assert forall|i: int| 0 <= i < own.len() implies bare.store.entries.contains_key(
            #[trigger] own[i],
        ) && bare.store.entries[own[i]].space == visible[i].0 && !ready.is_named(
            assignments,
            visible,
            own[i],
        ) by {
            assert(ready.is_named(assignments, visible, own[i]) == known.is_named(
                assignments,
                visible,
                own[i],
            ));
        }
    }
    lemma_every_display_has_its_own(bare, visible, own);
    lemma_nothing_to_supply(rehomed, visible);
    let after = bare.arranged(visible);
    assert(after.store.entries == rehomed.store.entries);
    if rehomed.store.entries.contains_key(id) {
        assert(assigned.store.entries.dom().contains(id));
        assert(ready.store.entries.dom().contains(id));
        lemma_unnamed_stays(ready, assignments, visible, id);
        assert(assigned.store.entries.contains_key(id));
        if !desk.store.entries.contains_key(id) {
            let taken = desk.store.upcoming.take(desk.store.pool_shortfall() as int);
            assert(ready.store.entries.contains_key(id));
            assert(taken.contains(id));
            let k = choose|k: int| 0 <= k < taken.len() && taken[k] == id;
            assert(desk.store.upcoming[k] == id);
            assert(ready.store.entries[id].space == home);
        }
    }
    if desk.store.entries.contains_key(id) {
        assert(ready.store.entries.contains_key(id));
        assert(ready.store.entries[id] == desk.store.entries[id]);
        lemma_unnamed_stays(ready, assignments, visible, id);
        assert(assigned.store.entries.contains_key(id));
        assert(rehomed.store.entries.dom().contains(id));
    }
}

/// A space that gives all that it has to another has no list any more and shows
/// and remembers nothing, whatever it showed before.
pub proof fn vacated_space_is_forgotten(desk: Desktop, key: u64, home: SpaceId)
    ensures
        !desk.vacated(key, home).store.by_space.contains_key(key),
        !desk.vacated(key, home).store.active.contains_key(key),
        desk.vacated(key, home).store.active_of(SpaceId { id: key }) is None,
        desk.vacated(key, home).store.previous_of(SpaceId { id: key }) is None,
{
}

// Where nothing is amiss.

proof fn lemma_nothing_to_assign(
    desk: Desktop,
    assignments: Seq<DisplayAssignment>,
    visible: Seq<DisplayState>,
)
    requires
        forall|i: int|
            0 <= i < assignments.len() ==> (desk.assignment_of(
                #[trigger] assignments[i],
                visible,
            ) matches Some(named) ==> desk.store.entries[named.0].space == named.1),
    ensures
        desk.assignments_applied(assignments, visible) == desk,
    decreases assignments.len(),
{
    if assignments.len() > 0 {
        let fewer = assignments.drop_last();
        assert forall|i: int| 0 <= i < fewer.len() implies (desk.assignment_of(
            #[trigger] fewer[i],
            visible,
        ) matches Some(named) ==> desk.store.entries[named.0].space == named.1) by {
            assert(fewer[i] == assignments[i]);
        }
        lemma_nothing_to_assign(desk, fewer, visible);
        assert(assignments[assignments.len() - 1] == assignments.last());
        assert(desk.assignment_applied(assignments.last(), visible) == desk);
    }
}

proof fn lemma_all_supplied_already(desk: Desktop, visible: Seq<DisplayState>)
    requires
        forall|i: int|
            0 <= i < visible.len() ==> desk.store.owned_ids((#[trigger] visible[i]).0).len() > 0
                && desk.store.active.contains_key(visible[i].0.id),
    ensures
        desk.all_supplied(visible) == desk,
    decreases visible.len(),
{
    if visible.len() > 0 {
        let fewer = visible.drop_last();
        assert forall|i: int| 0 <= i < fewer.len() implies desk.store.owned_ids(
            (#[trigger] fewer[i]).0,
        ).len() > 0 && desk.store.active.contains_key(fewer[i].0.id) by {
            assert(fewer[i] == visible[i]);
        }
        lemma_all_supplied_already(desk, fewer);
        assert(visible[visible.len() - 1] == visible.last());
    }
}

/// Fitting the pool to the displays changes nothing where it fits: where there
/// are as many workspaces as the settings ask for, only spaces on display list
/// any, each of them has one and shows one, and every workspace that is assigned
/// to a display is there.
pub proof fn what_fits_stays(desk: Desktop, visible: Seq<DisplayState>)
    requires
        desk.sound(),
        desk.store.settings.shared,
        desk.store.entries.dom().len() >= desk.store.settings.target_count(),
        forall|key: u64| #[trigger] desk.store.by_space.contains_key(key) ==> shown_on(visible, key),
        forall|i: int|
            0 <= i < visible.len() ==> desk.store.by_space.contains_key(
                (#[trigger] visible[i]).0.id,
            ) && desk.store.by_space[visible[i].0.id].len() > 0 && desk.store.active.contains_key(
                visible[i].0.id,
            ),
        forall|i: int|
            0 <= i < desk.store.settings.display_assignment.len() ==> (desk.assignment_of(
                #[trigger] desk.store.settings.display_assignment[i],
                visible,
            ) matches Some(named) ==> desk.store.entries[named.0].space == named.1),
    ensures
        desk.arranged(visible) == desk,
{
    if visible.len() > 0 {
        let home = visible[0].0;
        let store = desk.store;
        pool_is_everything(store);
        assert(store.pool_shortfall() == 0);
        pool_ready_is_sound(desk, home);
        assert(store.pool_ready(home) == store);
        let assignments = store.settings.display_assignment;
        lemma_nothing_to_assign(desk, assignments, visible);
        let all = listing(store.by_space.dom());
        lemma_listing(store.by_space.dom());
        assert forall|i: int| 0 <= i < all.len() implies !(hidden_from(visible))(
            #[trigger] all[i],
        ) by {
            assert(all.contains(all[i]));
            assert(store.by_space.dom().contains(all[i]));
            assert(store.by_space.contains_key(all[i]));
        }
        lemma_filter_none(all, hidden_from(visible));
        assert(desk.rehomed(home, visible) == desk);
        assert forall|i: int| 0 <= i < visible.len() implies store.owned_ids(
            (#[trigger] visible[i]).0,
        ).len() > 0 && store.active.contains_key(visible[i].0.id) by {
            listed_is_owned(store, visible[i].0);
        }
        lemma_all_supplied_already(desk, visible);
    }
}

// Windows.

/// The windows are in the workspaces that they were in, whatever space these are
/// on, in the same order, and nothing else about windows changes.
pub open spec fn windows_stay(before: WindowState, after: WindowState) -> bool {
    &&& after.assignments.order == before.assignments.order
    &&& after.assignments.values.dom() == before.assignments.values.dom()
    &&& forall|window: WindowId| #[trigger]
        before.assignments.values.contains_key(window)
            ==> after.assignments.values[window].workspace_id
            == before.assignments.values[window].workspace_id
    &&& after.rule_floating == before.rule_floating
    &&& after.records == before.records
}

proof fn lemma_windows_stay(first: WindowState, second: WindowState, third: WindowState)
    requires
        windows_stay(first, second),
        windows_stay(second, third),
    ensures
        windows_stay(first, third),
{
    assert forall|window: WindowId| #[trigger]
        first.assignments.values.contains_key(window) implies third.assignments.values[window].workspace_id
        == first.assignments.values[window].workspace_id by {
        assert(second.assignments.values.dom().contains(window));
        assert(second.assignments.values.contains_key(window));
    }
}

proof fn lemma_move_keeps_windows(desk: Desktop, id: VirtualWorkspaceId, space: SpaceId)
    ensures
        windows_stay(desk.windows, desk.relocated(id, space).windows),
{
    if let Some(old_space) = desk.store.space_of(id) {
        if old_space != space {
            crate::assigning::moved_assignments(
                desk.windows,
                WindowWorkspaceInfo { space: old_space, workspace_id: id },
                WindowWorkspaceInfo { space, workspace_id: id },
            );
        }
    }
}

proof fn lemma_moves_keep_windows(desk: Desktop, ids: Seq<VirtualWorkspaceId>, space: SpaceId)
    ensures
        windows_stay(desk.windows, desk.all_relocated(ids, space).windows),
    decreases ids.len(),
{
    if ids.len() > 0 {
        lemma_moves_keep_windows(desk, ids.drop_last(), space);
        let before = desk.all_relocated(ids.drop_last(), space);
        lemma_move_keeps_windows(before, ids.last(), space);
        lemma_windows_stay(
            desk.windows,
            before.windows,
            desk.all_relocated(ids, space).windows,
        );
    }
}

proof fn lemma_vacating_keeps_windows(desk: Desktop, keys: Seq<u64>, home: SpaceId)
    ensures
        windows_stay(desk.windows, desk.all_vacated(keys, home).windows),
    decreases keys.len(),
{
    if keys.len() > 0 {
        lemma_vacating_keeps_windows(desk, keys.drop_last(), home);
        let before = desk.all_vacated(keys.drop_last(), home);
        lemma_moves_keep_windows(
            before,
            before.store.owned_ids(SpaceId { id: keys.last() }),
            home,
        );
        lemma_windows_stay(desk.windows, before.windows, desk.all_vacated(keys, home).windows);
    }
}

proof fn lemma_assigning_keeps_windows(
    desk: Desktop,
    assignments: Seq<DisplayAssignment>,
    visible: Seq<DisplayState>,
)
    ensures
        windows_stay(desk.windows, desk.assignments_applied(assignments, visible).windows),
    decreases assignments.len(),
{
    if assignments.len() > 0 {
        let fewer = assignments.drop_last();
        lemma_assigning_keeps_windows(desk, fewer, visible);
        let before = desk.assignments_applied(fewer, visible);
        if let Some(named) = before.assignment_of(assignments.last(), visible) {
            lemma_move_keeps_windows(before, named.0, named.1);
        }
        lemma_windows_stay(
            desk.windows,
            before.windows,
            desk.assignments_applied(assignments, visible).windows,
        );
    }
}

proof fn lemma_supplying_keeps_windows(desk: Desktop, visible: Seq<DisplayState>)
    ensures
        windows_stay(desk.windows, desk.all_supplied(visible).windows),
    decreases visible.len(),
{
    if visible.len() > 0 {
        let fewer = visible.drop_last();
        lemma_supplying_keeps_windows(desk, fewer);
        let before = desk.all_supplied(fewer);
        let space = visible.last().0;
        if let Some(id) = before.store.given_to(space) {
            lemma_move_keeps_windows(before, id, space);
        }
        lemma_windows_stay(desk.windows, before.windows, desk.all_supplied(visible).windows);
    }
}

/// Windows stay in their workspaces when the pool is fitted to the displays, and
/// are on the spaces that these are on.
pub proof fn windows_stay_in_their_workspaces(desk: Desktop, visible: Seq<DisplayState>)
    requires
        desk.sound(),
        desk.store.settings.shared && visible.len() > 0 ==> desk.store.upcoming.len()
            >= desk.store.pool_shortfall(),
    ensures
        windows_stay(desk.windows, desk.arranged(visible).windows),
        forall|window: WindowId| #[trigger]
            desk.windows.assignments.values.contains_key(window) ==> desk.arranged(
                visible,
            ).store.entries.contains_key(desk.windows.assignments.values[window].workspace_id)
                && desk.arranged(visible).windows.assignments.values[window].space == desk.arranged(
                visible,
            ).store.entries[desk.windows.assignments.values[window].workspace_id].space,
{
    let after = desk.arranged(visible);
    if desk.store.settings.shared && visible.len() > 0 {
        let home = visible[0].0;
        let assignments = desk.store.settings.display_assignment;
        let ready = Desktop { store: desk.store.pool_ready(home), ..desk };
        let assigned = ready.assignments_applied(assignments, visible);
        let rehomed = assigned.rehomed(home, visible);
        lemma_assigning_keeps_windows(ready, assignments, visible);
        lemma_vacating_keeps_windows(
            assigned,
            listing(assigned.store.by_space.dom()).filter(hidden_from(visible)),
            home,
        );
        lemma_supplying_keeps_windows(rehomed, visible);
        lemma_windows_stay(desk.windows, assigned.windows, rehomed.windows);
        lemma_windows_stay(desk.windows, rehomed.windows, after.windows);
        arranged_serves_every_display(desk, visible);
    }
    assert forall|window: WindowId| #[trigger]
        desk.windows.assignments.values.contains_key(window) implies after.store.entries.contains_key(
        desk.windows.assignments.values[window].workspace_id,
    ) && after.windows.assignments.values[window].space == after.store.entries[
        desk.windows.assignments.values[window].workspace_id
    ].space by {
        assert(after.windows.assignments.values.dom().contains(window));
        assert(after.windows.assignments.values.contains_key(window));
        assert(after.store.owns(
            after.windows.assignments.values[window].space,
            after.windows.assignments.values[window].workspace_id,
        ));
    }
}

// Everything else.

/// The stores agree on settings, on the numbers and slots that come next, and on
/// what was left last.
pub open spec fn agree_otherwise(before: StoreState, after: StoreState) -> bool {
    &&& after.settings == before.settings
    &&& after.upcoming == before.upcoming
    &&& after.counter == before.counter
    &&& after.last_global == before.last_global
}

proof fn lemma_moves_leave_the_rest(desk: Desktop, ids: Seq<VirtualWorkspaceId>, space: SpaceId)
    ensures
        agree_otherwise(desk.store, desk.all_relocated(ids, space).store),
    decreases ids.len(),
{
    if ids.len() > 0 {
        lemma_moves_leave_the_rest(desk, ids.drop_last(), space);
    }
}

proof fn lemma_vacating_leaves_the_rest(desk: Desktop, keys: Seq<u64>, home: SpaceId)
    ensures
        agree_otherwise(desk.store, desk.all_vacated(keys, home).store),
    decreases keys.len(),
{
    if keys.len() > 0 {
        lemma_vacating_leaves_the_rest(desk, keys.drop_last(), home);
        let before = desk.all_vacated(keys.drop_last(), home);
        lemma_moves_leave_the_rest(
            before,
            before.store.owned_ids(SpaceId { id: keys.last() }),
            home,
        );
    }
}

proof fn lemma_assigning_leaves_the_rest(
    desk: Desktop,
    assignments: Seq<DisplayAssignment>,
    visible: Seq<DisplayState>,
)
    ensures
        agree_otherwise(desk.store, desk.assignments_applied(assignments, visible).store),
    decreases assignments.len(),
{
    if assignments.len() > 0 {
        lemma_assigning_leaves_the_rest(desk, assignments.drop_last(), visible);
    }
}

proof fn lemma_supplying_leaves_the_rest(desk: Desktop, visible: Seq<DisplayState>)
    ensures
        agree_otherwise(desk.store, desk.all_supplied(visible).store),
    decreases visible.len(),
{
    if visible.len() > 0 {
        lemma_supplying_leaves_the_rest(desk, visible.drop_last());
    }
}

/// Fitting the pool to the displays changes no settings and not what was left
/// last. It takes as many slots as workspaces were missing, and as many numbers
/// as of these have no name in the settings.
pub proof fn fitting_leaves_the_rest(desk: Desktop, visible: Seq<DisplayState>)
    requires
        desk.store.consistent(),
        desk.store.settings.shared,
        visible.len() > 0,
        desk.store.upcoming.len() >= desk.store.pool_shortfall(),
    ensures
        ({
            let after = desk.arranged(visible).store;
            let there = desk.store.entries.dom().len();
            let wanted = desk.store.settings.target_count();
            let names = desk.store.settings.workspace_names.len();
            let lacking: int = if there < wanted {
                wanted - there
            } else {
                0
            };
            let by_number: int = if there + lacking <= names {
                0
            } else if there <= names {
                there + lacking - names
            } else {
                lacking
            };
            &&& after.settings == desk.store.settings
            &&& after.last_global == desk.store.last_global
            &&& after.upcoming == desk.store.upcoming.skip(lacking)
            &&& after.counter == desk.store.counter + by_number
        }),
{
    let home = visible[0].0;
    let store = desk.store;
    let assignments = store.settings.display_assignment;
    let ready = Desktop { store: store.pool_ready(home), ..desk };
    let assigned = ready.assignments_applied(assignments, visible);
    let rehomed = assigned.rehomed(home, visible);
    pool_is_everything(store);
    crate::growth::lemma_pushed_from(
        store,
        home,
        store.global_ids().len(),
        store.pool_shortfall(),
    );
    crate::provisions::filling_up(
        store,
        home,
        store.global_ids().len(),
        store.pool_shortfall(),
    );
    lemma_assigning_leaves_the_rest(ready, assignments, visible);
    lemma_vacating_leaves_the_rest(
        assigned,
        listing(assigned.store.by_space.dom()).filter(hidden_from(visible)),
        home,
    );
    lemma_supplying_leaves_the_rest(rehomed, visible);
}

} // verus!
