//! What fitting the shared pool to the displays guarantees.
use crate::desktop::hidden_from;
use crate::desktop::not_shown;
use crate::desktop::shown_on;
use crate::desktop::Desktop;
use crate::desktop::DisplayState;
use crate::ids::SpaceId;
use crate::ids::VirtualWorkspaceId;
use crate::order::lemma_listing;
use crate::order::listing;
use crate::relocation::global_order_survives_moves;
use crate::relocation::lemma_midway;
use crate::relocation::midway;
use crate::relocation::relocated_is_consistent;
use crate::relocation::relocated_is_sound;
use crate::sequences::lemma_filter;
use crate::sequences::lemma_push_contains;
use crate::settings::DisplayAssignment;
use crate::soundness::listed_is_owned;
use crate::soundness::pool_is_everything;
use crate::soundness::pushed_is_consistent;
use crate::soundness::some_active_is_consistent;
use crate::state::StoreState;
use vstd::prelude::*;

verus! {

/// Moving several workspaces keeps everything sound, puts each of them on the
/// space, and leaves the others where they are.
pub proof fn all_relocated_is_sound(desk: Desktop, ids: Seq<VirtualWorkspaceId>, space: SpaceId)
    requires
        desk.sound(),
    ensures
        desk.all_relocated(ids, space).sound(),
        desk.all_relocated(ids, space).store.entries.dom() == desk.store.entries.dom(),
        desk.all_relocated(ids, space).store.settings == desk.store.settings,
        forall|id: VirtualWorkspaceId| #[trigger]
            desk.store.entries.contains_key(id) ==> desk.all_relocated(
                ids,
                space,
            ).store.entries[id].space == if ids.contains(id) {
                space
            } else {
                desk.store.entries[id].space
            },
        forall|key: u64| #[trigger]
            desk.all_relocated(ids, space).store.by_space.contains_key(key)
                ==> desk.store.by_space.contains_key(key) || key == space.id,
    decreases ids.len(),
{
    if ids.len() > 0 {
        let fewer = ids.drop_last();
        let id = ids.last();
        all_relocated_is_sound(desk, fewer, space);
        let before = desk.all_relocated(fewer, space);
        let after = desk.all_relocated(ids, space);
        relocated_is_sound(before, id, space);
        relocated_is_consistent(before.store, id, space);
        global_order_survives_moves(before.store, id, space);
        assert(ids =~= fewer.push(id));
        assert forall|x: VirtualWorkspaceId| #[trigger]
            desk.store.entries.contains_key(x) implies after.store.entries[x].space
            == if ids.contains(x) {
            space
        } else {
            desk.store.entries[x].space
        } by {
            lemma_push_contains(fewer, id, x);
            assert(before.store.entries.dom().contains(x));
        }
        assert forall|key: u64| #[trigger]
            after.store.by_space.contains_key(key) implies desk.store.by_space.contains_key(key)
            || key == space.id by {
            if before.store.entries.contains_key(id) && before.store.entries[id].space != space {
                lemma_midway(before.store, id, space);
                assert(after.store.by_space.dom().contains(key));
                assert(before.store.by_space.dom().insert(space.id).contains(key));
            }
            assert(before.store.by_space.contains_key(key) || key == space.id);
        }
    }
}

/// A space that gives all it has away keeps everything sound, and is gone.
pub proof fn vacated_is_sound(desk: Desktop, key: u64, home: SpaceId)
    requires
        desk.sound(),
        key != home.id,
    ensures
        desk.vacated(key, home).sound(),
        desk.vacated(key, home).store.entries.dom() == desk.store.entries.dom(),
        desk.vacated(key, home).store.settings == desk.store.settings,
        forall|k: u64| #[trigger]
            desk.vacated(key, home).store.by_space.contains_key(k) ==> k != key && (
            desk.store.by_space.contains_key(k) || k == home.id),
        forall|id: VirtualWorkspaceId| #[trigger]
            desk.store.entries.contains_key(id) ==> desk.vacated(key, home).store.entries[id].space
                == if desk.store.entries[id].space.id == key {
                home
            } else {
                desk.store.entries[id].space
            },
{
    let space = SpaceId { id: key };
    let ids = desk.store.owned_ids(space);
    let moved = desk.all_relocated(ids, home);
    let after = desk.vacated(key, home);
    all_relocated_is_sound(desk, ids, home);
    listed_is_owned(desk.store, space);
    assert forall|id: VirtualWorkspaceId| #[trigger] moved.store.entries.contains_key(
        id,
    ) implies moved.store.entries[id].space != space by {
        assert(desk.store.entries.dom().contains(id));
        assert(desk.store.entries.contains_key(id));
        assert(ids.contains(id) <==> desk.store.owns(space, id));
    }
    assert forall|id: VirtualWorkspaceId| #[trigger] desk.store.entries.contains_key(
        id,
    ) implies after.store.entries[id].space == if desk.store.entries[id].space.id == key {
        home
    } else {
        desk.store.entries[id].space
    } by {
        assert(ids.contains(id) <==> desk.store.owns(space, id));
    }
    assert(after.store.entries == moved.store.entries);
    assert(after.store.by_space.dom() =~= moved.store.by_space.dom().remove(key));
    assert(after.store.lists_distinct()) by {
        assert forall|k: u64| after.store.by_space.contains_key(k) implies (
        #[trigger] after.store.by_space[k]).no_duplicates() by {
            assert(moved.store.by_space[k].no_duplicates());
        }
    }
    assert(after.store.all_listed()) by {
        assert forall|x: VirtualWorkspaceId| #[trigger]
            after.store.entries.contains_key(x) implies after.store.by_space.contains_key(
            after.store.entries[x].space.id,
        ) && after.store.by_space[after.store.entries[x].space.id].contains(x) by {
            assert(moved.store.entries.contains_key(x));
            assert(moved.store.entries[x].space.id != key) by {
                assert(moved.store.entries[x].space != space);
            }
        }
    }
    assert(after.store.active_listed()) by {
        assert forall|k: u64| #[trigger]
            after.store.active.contains_key(k) implies after.store.by_space.contains_key(k)
            && after.store.by_space[k].contains(after.store.active[k].1) && (
        after.store.active[k].0 matches Some(previous) ==> after.store.by_space[k].contains(
            previous,
        )) by {
            assert(moved.store.active.contains_key(k));
        }
    }
}

/// Giving up several spaces keeps everything sound, and they are gone.
pub proof fn all_vacated_is_sound(desk: Desktop, keys: Seq<u64>, home: SpaceId)
    requires
        desk.sound(),
        !keys.contains(home.id),
    ensures
        desk.all_vacated(keys, home).sound(),
        desk.all_vacated(keys, home).store.entries.dom() == desk.store.entries.dom(),
        desk.all_vacated(keys, home).store.settings == desk.store.settings,
        forall|k: u64| #[trigger]
            desk.all_vacated(keys, home).store.by_space.contains_key(k) ==> !keys.contains(k) && (
            desk.store.by_space.contains_key(k) || k == home.id),
        forall|id: VirtualWorkspaceId| #[trigger]
            desk.store.entries.contains_key(id) ==> desk.all_vacated(
                keys,
                home,
            ).store.entries[id].space == if keys.contains(desk.store.entries[id].space.id) {
                home
            } else {
                desk.store.entries[id].space
            },
    decreases keys.len(),
{
    if keys.len() > 0 {
        let fewer = keys.drop_last();
        let key = keys.last();
        assert(keys =~= fewer.push(key));
        assert forall|k: u64| #[trigger] keys.contains(k) <==> fewer.contains(k) || k == key by {
            lemma_push_contains(fewer, key, k);
        }
        all_vacated_is_sound(desk, fewer, home);
        assert(keys.contains(key));
        vacated_is_sound(desk.all_vacated(fewer, home), key, home);
        let before = desk.all_vacated(fewer, home);
        let after = desk.all_vacated(keys, home);
        assert forall|id: VirtualWorkspaceId| #[trigger] desk.store.entries.contains_key(
            id,
        ) implies after.store.entries[id].space == if keys.contains(
            desk.store.entries[id].space.id,
        ) {
            home
        } else {
            desk.store.entries[id].space
        } by {
            assert(before.store.entries.dom().contains(id));
            assert(before.store.entries.contains_key(id));
        }
        assert forall|k: u64| #[trigger]
            after.store.by_space.contains_key(k) implies !keys.contains(k) && (
        desk.store.by_space.contains_key(k) || k == home.id) by {
            assert(before.store.by_space.contains_key(k) || k == home.id);
            if k == home.id {
                assert(!keys.contains(k));
            }
        }
    }
}

/// No workspace is left on a space that no display shows: its workspaces are
/// on `home`.
pub proof fn rehomed_is_sound(desk: Desktop, home: SpaceId, visible: Seq<DisplayState>)
    requires
        desk.sound(),
        shown_on(visible, home.id),
    ensures
        desk.rehomed(home, visible).sound(),
        desk.rehomed(home, visible).store.entries.dom() == desk.store.entries.dom(),
        desk.rehomed(home, visible).store.settings == desk.store.settings,
        forall|key: u64| #[trigger]
            desk.rehomed(home, visible).store.by_space.contains_key(key) ==> shown_on(visible, key),
        forall|id: VirtualWorkspaceId| #[trigger]
            desk.store.entries.contains_key(id) ==> desk.rehomed(
                home,
                visible,
            ).store.entries[id].space == if shown_on(visible, desk.store.entries[id].space.id) {
                desk.store.entries[id].space
            } else {
                home
            },
{
    let all = listing(desk.store.by_space.dom());
    let keys = all.filter(hidden_from(visible));
    lemma_listing(desk.store.by_space.dom());
    lemma_filter(all, hidden_from(visible));
    assert(!keys.contains(home.id));
    all_vacated_is_sound(desk, keys, home);
    let after = desk.rehomed(home, visible);
    assert forall|id: VirtualWorkspaceId| #[trigger] desk.store.entries.contains_key(
        id,
    ) implies after.store.entries[id].space == if shown_on(
        visible,
        desk.store.entries[id].space.id,
    ) {
        desk.store.entries[id].space
    } else {
        home
    } by {
        assert(all.contains(desk.store.entries[id].space.id));
    }
    assert forall|key: u64| #[trigger] after.store.by_space.contains_key(key) implies shown_on(
        visible,
        key,
    ) by {
        assert(!keys.contains(key));
        if key != home.id {
            assert(desk.store.by_space.contains_key(key));
            assert(all.contains(key));
        }
    }
}

/// Moving workspaces to the displays that are to own them keeps everything
/// sound.
pub proof fn assignments_applied_is_sound(
    desk: Desktop,
    assignments: Seq<DisplayAssignment>,
    visible: Seq<DisplayState>,
)
    requires
        desk.sound(),
    ensures
        desk.assignments_applied(assignments, visible).sound(),
        desk.assignments_applied(assignments, visible).store.entries.dom()
            == desk.store.entries.dom(),
        desk.assignments_applied(assignments, visible).store.settings == desk.store.settings,
    decreases assignments.len(),
{
    if assignments.len() > 0 {
        let fewer = assignments.drop_last();
        assignments_applied_is_sound(desk, fewer, visible);
        let before = desk.assignments_applied(fewer, visible);
        let assignment = assignments.last();
        match (
            before.store.picked(before.store.global_ids(), assignment.workspace),
            crate::desktop::display_picked(visible, assignment.display),
        ) {
            (Some(id), Some(space)) => {
                relocated_is_sound(before, id, space);
                global_order_survives_moves(before.store, id, space);
            },
            _ => {},
        }
    }
}

/// The numbers of the spaces that the displays show.
pub open spec fn shown_keys(visible: Seq<DisplayState>) -> Set<u64> {
    Set::new(|key: u64| shown_on(visible, key))
}

/// The displays show finitely many spaces, at most one each.
pub proof fn lemma_shown_keys(visible: Seq<DisplayState>)
    ensures
        shown_keys(visible).finite(),
        shown_keys(visible).len() <= visible.len(),
{
    let keys = visible.map_values(|display: DisplayState| display.0.id);
    assert(shown_keys(visible) =~= keys.to_set()) by {
        assert forall|key: u64| shown_keys(visible).contains(key) <==> keys.to_set().contains(
            key,
        ) by {
            if shown_on(visible, key) {
                let i = choose|i: int| 0 <= i < visible.len() && (#[trigger] visible[i]).0.id
                    == key;
                assert(keys[i] == key);
            }
            if keys.contains(key) {
                let i = choose|i: int| 0 <= i < keys.len() && keys[i] == key;
                assert(visible[i].0.id == key);
            }
        }
    }
    vstd::seq_lib::seq_to_set_is_finite(keys);
    keys.lemma_cardinality_of_set();
}

/// Some space can give a workspace where there are at least as many as spaces
/// and one space has none.
pub proof fn lemma_someone_can_give(store: StoreState, space: SpaceId, keys: Set<u64>)
    requires
        store.well_listed(),
        keys.finite(),
        keys.contains(space.id),
        forall|key: u64| #[trigger] store.by_space.contains_key(key) ==> keys.contains(key),
        store.list_of(space).len() == 0,
        store.entries.dom().len() >= keys.len(),
    ensures
        exists|key: u64| store.can_give(space, key),
{
    if forall|key: u64| !store.can_give(space, key) {
        let f = |id: VirtualWorkspaceId| store.entries[id].space.id;
        let ids = store.entries.dom();
        let rest = keys.remove(space.id);
        assert forall|id: VirtualWorkspaceId| #[trigger] ids.contains(id) implies rest.contains(
            f(id),
        ) && store.by_space[f(id)].contains(id) by {
            assert(store.entries.contains_key(id));
            if f(id) == space.id {
                assert(store.list_of(space).contains(id));
            }
        }
        assert forall|a: VirtualWorkspaceId, b: VirtualWorkspaceId|
            ids.contains(a) && ids.contains(b) && #[trigger] f(a) == #[trigger] f(b) implies a
            == b by {
            let list = store.by_space[f(a)];
            assert(!store.can_give(space, f(a)));
            assert(rest.contains(f(a)));
            assert(list.len() <= 1);
            let i = choose|i: int| 0 <= i < list.len() && list[i] == a;
            let j = choose|j: int| 0 <= j < list.len() && list[j] == b;
            assert(i == j);
        }
        assert(vstd::relations::injective_on(f, ids));
        vstd::set_lib::lemma_map_size(ids, ids.map(f), f);
        assert(ids.map(f).subset_of(rest)) by {
            assert forall|key: u64| ids.map(f).contains(key) implies rest.contains(key) by {
                let id = choose|id: VirtualWorkspaceId| ids.contains(id) && f(id) == key;
                assert(rest.contains(f(id)));
            }
        }
        vstd::set_lib::lemma_len_subset(ids.map(f), rest);
        assert(false);
    }
}

/// Of some spaces of which one can give a workspace, one lists most.
proof fn lemma_greatest_giver(store: StoreState, space: SpaceId, keys: Seq<u64>, at: int) -> (best:
    u64)
    requires
        0 <= at < keys.len(),
        store.can_give(space, keys[at]),
    ensures
        store.can_give(space, best),
        forall|i: int|
            0 <= i < keys.len() && store.can_give(space, keys[i]) ==> store.comes_before(
                #[trigger] keys[i],
                best,
            ),
    decreases keys.len(),
{
    let rest = keys.drop_last();
    let last = keys.last();
    if exists|i: int| 0 <= i < rest.len() && store.can_give(space, #[trigger] rest[i]) {
        let i = choose|i: int| 0 <= i < rest.len() && store.can_give(space, #[trigger] rest[i]);
        let found = lemma_greatest_giver(store, space, rest, i);
        let best = if store.can_give(space, last) && store.comes_before(found, last) {
            last
        } else {
            found
        };
        assert forall|j: int| 0 <= j < keys.len() && store.can_give(
            space,
            keys[j],
        ) implies store.comes_before(#[trigger] keys[j], best) by {
            if j < rest.len() {
                assert(rest[j] == keys[j]);
                assert(store.comes_before(rest[j], found));
            }
        }
        best
    } else {
        assert forall|j: int| 0 <= j < keys.len() && store.can_give(
            space,
            keys[j],
        ) implies store.comes_before(#[trigger] keys[j], last) by {
            if j < rest.len() {
                assert(rest[j] == keys[j]);
            }
        }
        assert(at == keys.len() - 1) by {
            if at < rest.len() {
                assert(rest[at] == keys[at]);
            }
        }
        last
    }
}

/// Where a space can give a workspace, there is a donor.
proof fn lemma_donor(store: StoreState, space: SpaceId)
    requires
        store.by_space.dom().finite(),
        exists|key: u64| store.can_give(space, key),
    ensures
        store.donor(space) is Some,
        store.is_donor(space, store.donor(space)->0.id),
{
    let keys = listing(store.by_space.dom());
    lemma_listing(store.by_space.dom());
    let giver = choose|key: u64| store.can_give(space, key);
    assert(keys.contains(giver));
    let at = choose|i: int| 0 <= i < keys.len() && keys[i] == giver;
    let best = lemma_greatest_giver(store, space, keys, at);
    assert forall|other: u64| #[trigger] store.can_give(space, other) implies store.comes_before(
        other,
        best,
    ) by {
        assert(keys.contains(other));
        let i = choose|i: int| 0 <= i < keys.len() && keys[i] == other;
        assert(store.comes_before(keys[i], best));
    }
    assert(store.is_donor(space, best));
}

/// A space that lists more than one workspace has one to spare.
proof fn lemma_spare(store: StoreState, space: SpaceId)
    requires
        store.well_listed(),
        store.list_of(space).len() > 1,
    ensures
        store.spare(space) matches Some(id) && store.owns(space, id) && store.active_of(space)
            != Some(id),
{
    listed_is_owned(store, space);
    let ids = store.owned_ids(space);
    let wanted = not_shown(store.active_of(space));
    lemma_filter(ids, wanted);
    assert(ids[0] != ids[1]);
    let spare = if wanted(ids[0]) {
        ids[0]
    } else {
        ids[1]
    };
    assert(wanted(spare));
    assert(ids.contains(spare));
    assert(ids.filter(wanted).contains(spare));
    let given = ids.filter(wanted).last();
    assert(ids.filter(wanted).contains(given));
}

/// Where a space can give a workspace, there is a donor, and it has a workspace
/// to spare.
pub proof fn lemma_given(store: StoreState, space: SpaceId)
    requires
        store.well_listed(),
        exists|key: u64| store.can_give(space, key),
    ensures
        store.donor(space) is Some,
        store.is_donor(space, store.donor(space)->0.id),
        store.given_to(space) is Some,
        store.owns(store.donor(space)->0, store.given_to(space)->0),
        store.active_of(store.donor(space)->0) != store.given_to(space),
        store.donor(space)->0 != space,
{
    lemma_donor(store, space);
    lemma_spare(store, store.donor(space)->0);
}

impl StoreState {
    /// The space has a workspace and shows one.
    pub open spec fn serves(self, key: u64) -> bool {
        self.by_space.contains_key(key) && self.by_space[key].len() > 0 && self.active.contains_key(
            key,
        )
    }
}

impl StoreState {
    /// The space has a workspace, and shows one that it has.
    pub open spec fn shows_own(self, space: SpaceId) -> bool {
        self.owned_ids(space).len() > 0 && (self.active_of(space) matches Some(id) && self.owns(
            space,
            id,
        ))
    }
}

/// Supplying a space keeps everything sound. The space then has and shows a
/// workspace, if there are enough, and every space that did still does.
pub proof fn supplied_is_sound(desk: Desktop, space: SpaceId, keys: Set<u64>)
    requires
        desk.sound(),
        keys.finite(),
        keys.contains(space.id),
        forall|key: u64| #[trigger] desk.store.by_space.contains_key(key) ==> keys.contains(key),
    ensures
        desk.supplied(space).sound(),
        desk.supplied(space).store.entries.dom() == desk.store.entries.dom(),
        desk.supplied(space).store.settings == desk.store.settings,
        forall|key: u64| #[trigger]
            desk.supplied(space).store.by_space.contains_key(key) ==> keys.contains(key),
        desk.store.entries.dom().len() >= keys.len() ==> desk.supplied(space).store.serves(
            space.id,
        ),
        forall|key: u64| #[trigger]
            desk.store.serves(key) ==> desk.supplied(space).store.serves(key),
{
    let store = desk.store;
    let after = desk.supplied(space);
    listed_is_owned(store, space);
    if store.owned_ids(space).len() > 0 {
        assert(store.list_of(space).contains(store.list_of(space)[0]));
        some_active_is_consistent(store, space, store.list_of(space)[0]);
    } else {
        if store.entries.dom().len() >= keys.len() {
            lemma_someone_can_give(store, space, keys);
        }
        match store.given_to(space) {
            Some(id) => {
                let donor = store.donor(space)->0;
                assert(store.is_donor(space, donor.id)) by {
                    let chosen = choose|key: u64| store.is_donor(space, key);
                    assert(store.is_donor(space, chosen));
                }
                assert(store.can_give(space, donor.id));
                lemma_given(store, space);
                relocated_is_sound(desk, id, space);
                relocated_is_consistent(store, id, space);
                global_order_survives_moves(store, id, space);
                lemma_midway(store, id, space);
                let mid = midway(store, id, space);
                listed_is_owned(mid, donor);
                listed_is_owned(mid, space);
                assert(after.store.by_space == mid.by_space);
                assert forall|key: u64| #[trigger]
                    after.store.by_space.contains_key(key) implies keys.contains(key) by {
                    assert(mid.by_space.dom().contains(key));
                }
                assert(after.store.serves(space.id)) by {
                    assert(mid.list_of(space).len() > 0);
                }
                assert forall|key: u64| #[trigger] store.serves(key) implies after.store.serves(
                    key,
                ) by {
                    assert(mid.by_space.dom().contains(key));
                    if key == donor.id {
                        assert(mid.list_of(donor).len() > 0);
                    } else if key != space.id {
                        assert(mid.by_space[key] == store.by_space[key]);
                    }
                }
            },
            None => {
                if store.entries.dom().len() >= keys.len() {
                    lemma_given(store, space);
                }
            },
        }
    }
}

/// Supplying all displays keeps everything sound, and each of their spaces has
/// and shows a workspace, if there are enough.
pub proof fn all_supplied_is_sound(desk: Desktop, visible: Seq<DisplayState>, keys: Set<u64>)
    requires
        desk.sound(),
        keys.finite(),
        forall|key: u64| shown_on(visible, key) ==> #[trigger] keys.contains(key),
        forall|key: u64| #[trigger] desk.store.by_space.contains_key(key) ==> keys.contains(key),
    ensures
        desk.all_supplied(visible).sound(),
        desk.all_supplied(visible).store.entries.dom() == desk.store.entries.dom(),
        desk.all_supplied(visible).store.settings == desk.store.settings,
        forall|key: u64| #[trigger]
            desk.all_supplied(visible).store.by_space.contains_key(key) ==> keys.contains(key),
        desk.store.entries.dom().len() >= keys.len() ==> forall|i: int|
            0 <= i < visible.len() ==> desk.all_supplied(visible).store.serves(
                (#[trigger] visible[i]).0.id,
            ),
    decreases visible.len(),
{
    if visible.len() > 0 {
        let fewer = visible.drop_last();
        let space = visible.last().0;
        assert forall|key: u64| shown_on(fewer, key) implies #[trigger] keys.contains(key) by {
            let i = choose|i: int| 0 <= i < fewer.len() && (#[trigger] fewer[i]).0.id == key;
            assert(visible[i].0.id == key);
            assert(shown_on(visible, key));
        }
        assert(shown_on(visible, space.id)) by {
            assert(visible[visible.len() - 1].0.id == space.id);
        }
        all_supplied_is_sound(desk, fewer, keys);
        let before = desk.all_supplied(fewer);
        supplied_is_sound(before, space, keys);
        let after = desk.all_supplied(visible);
        if desk.store.entries.dom().len() >= keys.len() {
            assert forall|i: int| 0 <= i < visible.len() implies after.store.serves(
                (#[trigger] visible[i]).0.id,
            ) by {
                if i < fewer.len() {
                    assert(fewer[i] == visible[i]);
                    assert(before.store.serves(fewer[i].0.id));
                }
            }
        }
    }
}

/// Filling the pool loses no workspace and adds those that are missing.
pub proof fn lemma_pool_filled(store: StoreState, home: SpaceId)
    requires
        store.consistent(),
        store.upcoming.len() >= store.pool_shortfall(),
    ensures
        store.pool_filled(home).consistent(),
        store.pool_filled(home).keeps(store),
        store.entries.dom().subset_of(store.pool_filled(home).entries.dom()),
        store.pool_filled(home).entries.dom().len() == store.entries.dom().len()
            + store.pool_shortfall(),
{
    let count = store.pool_shortfall();
    let filled = store.pool_filled(home);
    pushed_is_consistent(store, home, store.global_ids().len(), count);
    let taken = store.upcoming.take(count as int);
    assert(filled.entries.dom() =~= store.entries.dom().union(taken.to_set())) by {
        assert forall|id: VirtualWorkspaceId| filled.entries.dom().contains(id)
            <==> store.entries.dom().union(taken.to_set()).contains(id) by {
            assert(filled.entries.contains_key(id) <==> store.entries.contains_key(id)
                || taken.contains(id));
        }
    }
    assert(taken.no_duplicates()) by {
        assert forall|i: int, j: int| 0 <= i < taken.len() && 0 <= j < taken.len() && i
            != j implies taken[i] != taken[j] by {
            if i < j {
                assert(store.upcoming[i].index() != store.upcoming[j].index());
            } else {
                assert(store.upcoming[j].index() != store.upcoming[i].index());
            }
        }
    }
    taken.unique_seq_to_set();
    vstd::seq_lib::seq_to_set_is_finite(taken);
    assert(store.entries.dom().disjoint(taken.to_set())) by {
        assert forall|id: VirtualWorkspaceId| store.entries.dom().contains(id)
            && taken.to_set().contains(id) implies false by {
            let i = choose|i: int| 0 <= i < taken.len() && taken[i] == id;
            assert(store.entries.contains_key(id));
            assert(id.index() != store.upcoming[i].index());
        }
    }
    vstd::set_lib::lemma_set_disjoint_lens(store.entries.dom(), taken.to_set());
}

/// Filling the pool and letting its home show a workspace, if it lists one,
/// keeps everything sound.
pub proof fn pool_ready_is_sound(desk: Desktop, home: SpaceId)
    requires
        desk.sound(),
        desk.store.upcoming.len() >= desk.store.pool_shortfall(),
    ensures
        (Desktop { store: desk.store.pool_ready(home), ..desk }).sound(),
        desk.store.pool_ready(home).settings == desk.store.settings,
        desk.store.pool_ready(home).entries == desk.store.pool_filled(home).entries,
        desk.store.pool_shortfall() == 0 ==> desk.store.pool_filled(home) == desk.store,
{
    let store = desk.store;
    let filled = store.pool_filled(home);
    lemma_pool_filled(store, home);
    crate::growth::lemma_pushed_from(
        store,
        home,
        store.global_ids().len(),
        store.pool_shortfall(),
    );
    if filled.list_of(home).len() > 0 {
        assert(filled.list_of(home).contains(filled.default_listed(home)));
        some_active_is_consistent(filled, home, filled.default_listed(home));
    }
    crate::laws::lemma_still_placed(desk, store.pool_ready(home));
}

// What moves keep.

impl StoreState {
    /// Every workspace of an earlier store is there with its name, layout and
    /// focus. It may be on another space.
    pub open spec fn only_moves(self, before: StoreState) -> bool {
        forall|id: VirtualWorkspaceId| #[trigger]
            before.entries.contains_key(id) ==> self.entries.contains_key(id) && self.entries[id]
                == before.entries[id].on_space(self.entries[id].space)
    }
}

proof fn lemma_moves_add_up(first: StoreState, second: StoreState, third: StoreState)
    requires
        second.only_moves(first),
        third.only_moves(second),
    ensures
        third.only_moves(first),
{
    assert forall|id: VirtualWorkspaceId| #[trigger]
        first.entries.contains_key(id) implies third.entries.contains_key(id) && third.entries[id]
        == first.entries[id].on_space(third.entries[id].space) by {
        assert(second.entries.contains_key(id));
    }
}

proof fn lemma_all_relocated_moves(desk: Desktop, ids: Seq<VirtualWorkspaceId>, space: SpaceId)
    ensures
        desk.all_relocated(ids, space).store.only_moves(desk.store),
    decreases ids.len(),
{
    if ids.len() > 0 {
        let fewer = ids.drop_last();
        lemma_all_relocated_moves(desk, fewer, space);
        lemma_moves_add_up(
            desk.store,
            desk.all_relocated(fewer, space).store,
            desk.all_relocated(ids, space).store,
        );
    }
}

proof fn lemma_assignments_move(
    desk: Desktop,
    assignments: Seq<DisplayAssignment>,
    visible: Seq<DisplayState>,
)
    ensures
        desk.assignments_applied(assignments, visible).store.only_moves(desk.store),
    decreases assignments.len(),
{
    if assignments.len() > 0 {
        let fewer = assignments.drop_last();
        lemma_assignments_move(desk, fewer, visible);
        lemma_moves_add_up(
            desk.store,
            desk.assignments_applied(fewer, visible).store,
            desk.assignments_applied(assignments, visible).store,
        );
    }
}

proof fn lemma_all_vacated_moves(desk: Desktop, keys: Seq<u64>, home: SpaceId)
    ensures
        desk.all_vacated(keys, home).store.only_moves(desk.store),
    decreases keys.len(),
{
    if keys.len() > 0 {
        let fewer = keys.drop_last();
        lemma_all_vacated_moves(desk, fewer, home);
        let before = desk.all_vacated(fewer, home);
        let space = SpaceId { id: keys.last() };
        let ids = before.store.owned_ids(space);
        lemma_all_relocated_moves(before, ids, home);
        let after = desk.all_vacated(keys, home);
        assert(after.store.entries == before.all_relocated(ids, home).store.entries);
        assert(after.store.only_moves(before.store)) by {
            assert forall|id: VirtualWorkspaceId| #[trigger]
                before.store.entries.contains_key(id) implies after.store.entries.contains_key(id)
                && after.store.entries[id] == before.store.entries[id].on_space(
                after.store.entries[id].space,
            ) by {
                assert(before.all_relocated(ids, home).store.entries.contains_key(id));
            }
        }
        lemma_moves_add_up(desk.store, before.store, after.store);
    }
}

proof fn lemma_all_supplied_moves(desk: Desktop, visible: Seq<DisplayState>)
    ensures
        desk.all_supplied(visible).store.only_moves(desk.store),
    decreases visible.len(),
{
    if visible.len() > 0 {
        let fewer = visible.drop_last();
        lemma_all_supplied_moves(desk, fewer);
        lemma_moves_add_up(
            desk.store,
            desk.all_supplied(fewer).store,
            desk.all_supplied(visible).store,
        );
    }
}

/// New workspaces leave those that are there as they are.
proof fn lemma_pushed_keeps(store: StoreState, home: SpaceId, first: nat, count: nat)
    requires
        store.consistent(),
        store.upcoming.len() >= count,
    ensures
        store.pushed_from(home, first, count).only_moves(store),
    decreases count,
{
    if count > 0 {
        let fewer = (count - 1) as nat;
        lemma_pushed_keeps(store, home, first, fewer);
        crate::growth::lemma_pushed_from(store, home, first, fewer);
        let before = store.pushed_from(home, first, fewer);
        let after = store.pushed_from(home, first, count);
        assert forall|id: VirtualWorkspaceId| #[trigger]
            store.entries.contains_key(id) implies after.entries.contains_key(id)
            && after.entries[id] == store.entries[id].on_space(after.entries[id].space) by {
            assert(before.entries.contains_key(id));
            assert(before.upcoming[0] == store.upcoming[fewer as int]);
            assert(id.index() < store.upcoming[fewer as int].index());
        }
    }
}

/// Fitting the pool to the displays loses no workspace, and each keeps its name,
/// layout and focus.
pub proof fn arranged_only_moves(desk: Desktop, visible: Seq<DisplayState>)
    requires
        desk.store.consistent(),
        desk.store.settings.shared && visible.len() > 0 ==> desk.store.upcoming.len()
            >= desk.store.pool_shortfall(),
    ensures
        forall|id: VirtualWorkspaceId| #[trigger]
            desk.store.entries.contains_key(id) ==> desk.arranged(
                visible,
            ).store.entries.contains_key(id) && desk.arranged(visible).store.entries[id]
                == desk.store.entries[id].on_space(desk.arranged(visible).store.entries[id].space),
{
    if desk.store.settings.shared && visible.len() > 0 {
        let home = visible[0].0;
        let ready = Desktop { store: desk.store.pool_ready(home), ..desk };
        let assignments = desk.store.settings.display_assignment;
        let assigned = ready.assignments_applied(assignments, visible);
        let rehomed = assigned.rehomed(home, visible);
        lemma_pushed_keeps(
            desk.store,
            home,
            desk.store.global_ids().len(),
            desk.store.pool_shortfall(),
        );
        assert(ready.store.entries == desk.store.pool_filled(home).entries);
        assert(ready.store.only_moves(desk.store)) by {
            assert forall|id: VirtualWorkspaceId| #[trigger]
                desk.store.entries.contains_key(id) implies ready.store.entries.contains_key(id)
                && ready.store.entries[id] == desk.store.entries[id].on_space(
                ready.store.entries[id].space,
            ) by {
                assert(desk.store.pool_filled(home).entries.contains_key(id));
            }
        }
        lemma_assignments_move(ready, assignments, visible);
        lemma_all_vacated_moves(
            assigned,
            listing(assigned.store.by_space.dom()).filter(hidden_from(visible)),
            home,
        );
        lemma_all_supplied_moves(rehomed, visible);
        lemma_moves_add_up(desk.store, ready.store, assigned.store);
        lemma_moves_add_up(desk.store, assigned.store, rehomed.store);
        lemma_moves_add_up(desk.store, rehomed.store, desk.arranged(visible).store);
    }
}

// What the windows do not matter for.

proof fn lemma_all_relocated_alike(a: Desktop, b: Desktop, ids: Seq<VirtualWorkspaceId>, space: SpaceId)
    requires
        a.store == b.store,
    ensures
        a.all_relocated(ids, space).store == b.all_relocated(ids, space).store,
    decreases ids.len(),
{
    if ids.len() > 0 {
        lemma_all_relocated_alike(a, b, ids.drop_last(), space);
    }
}

proof fn lemma_assignments_alike(
    a: Desktop,
    b: Desktop,
    assignments: Seq<DisplayAssignment>,
    visible: Seq<DisplayState>,
)
    requires
        a.store == b.store,
    ensures
        a.assignments_applied(assignments, visible).store == b.assignments_applied(
            assignments,
            visible,
        ).store,
    decreases assignments.len(),
{
    if assignments.len() > 0 {
        lemma_assignments_alike(a, b, assignments.drop_last(), visible);
    }
}

proof fn lemma_all_vacated_alike(a: Desktop, b: Desktop, keys: Seq<u64>, home: SpaceId)
    requires
        a.store == b.store,
    ensures
        a.all_vacated(keys, home).store == b.all_vacated(keys, home).store,
    decreases keys.len(),
{
    if keys.len() > 0 {
        let fewer = keys.drop_last();
        lemma_all_vacated_alike(a, b, fewer, home);
        let before = a.all_vacated(fewer, home);
        lemma_all_relocated_alike(
            before,
            b.all_vacated(fewer, home),
            before.store.owned_ids(SpaceId { id: keys.last() }),
            home,
        );
    }
}

proof fn lemma_all_supplied_alike(a: Desktop, b: Desktop, visible: Seq<DisplayState>)
    requires
        a.store == b.store,
    ensures
        a.all_supplied(visible).store == b.all_supplied(visible).store,
    decreases visible.len(),
{
    if visible.len() > 0 {
        lemma_all_supplied_alike(a, b, visible.drop_last());
    }
}

/// What fitting the pool to the displays makes of the store does not depend on
/// the windows.
pub proof fn arranged_whatever_the_windows(a: Desktop, b: Desktop, visible: Seq<DisplayState>)
    requires
        a.store == b.store,
    ensures
        a.arranged(visible).store == b.arranged(visible).store,
{
    if a.store.settings.shared && visible.len() > 0 {
        let home = visible[0].0;
        let assignments = a.store.settings.display_assignment;
        let first = Desktop { store: a.store.pool_ready(home), ..a };
        let second = Desktop { store: b.store.pool_ready(home), ..b };
        lemma_assignments_alike(first, second, assignments, visible);
        let first = first.assignments_applied(assignments, visible);
        let second = second.assignments_applied(assignments, visible);
        lemma_all_vacated_alike(
            first,
            second,
            listing(first.store.by_space.dom()).filter(hidden_from(visible)),
            home,
        );
        lemma_all_supplied_alike(
            first.rehomed(home, visible),
            second.rehomed(home, visible),
            visible,
        );
    }
}

/// Fitting the pool to the displays keeps everything sound, leaves lists to
/// spaces on display alone, and serves each of these where there are enough
/// workspaces.
proof fn lemma_arranged(desk: Desktop, visible: Seq<DisplayState>)
    requires
        desk.sound(),
        desk.store.settings.shared,
        visible.len() > 0,
        desk.store.upcoming.len() >= desk.store.pool_shortfall(),
    ensures
        desk.arranged(visible).sound(),
        desk.arranged(visible).store.settings == desk.store.settings,
        desk.arranged(visible).store.entries.dom() == desk.store.pool_filled(
            visible[0].0,
        ).entries.dom(),
        forall|key: u64| #[trigger]
            desk.arranged(visible).store.by_space.contains_key(key) ==> shown_on(visible, key),
        desk.arranged(visible).store.entries.dom().len() >= shown_keys(visible).len()
            ==> forall|i: int|
            0 <= i < visible.len() ==> desk.arranged(visible).store.serves(
                (#[trigger] visible[i]).0.id,
            ),
{
    let home = visible[0].0;
    let ready = Desktop { store: desk.store.pool_ready(home), ..desk };
    let assigned = ready.assignments_applied(desk.store.settings.display_assignment, visible);
    let rehomed = assigned.rehomed(home, visible);
    let after = desk.arranged(visible);
    let keys = shown_keys(visible);
    pool_ready_is_sound(desk, home);
    lemma_pool_filled(desk.store, home);
    assignments_applied_is_sound(ready, desk.store.settings.display_assignment, visible);
    assert(shown_on(visible, home.id)) by {
        assert(visible[0].0.id == home.id);
    }
    rehomed_is_sound(assigned, home, visible);
    lemma_shown_keys(visible);
    assert forall|key: u64| #[trigger] rehomed.store.by_space.contains_key(
        key,
    ) implies keys.contains(key) by {
        assert(shown_on(visible, key));
    }
    all_supplied_is_sound(rehomed, visible, keys);
    assert forall|key: u64| #[trigger] after.store.by_space.contains_key(key) implies shown_on(
        visible,
        key,
    ) by {
        assert(keys.contains(key));
    }
    assert(after.store.entries.dom() == ready.store.entries.dom());
}

/// Fitting the pool to the displays keeps everything sound. No workspace is
/// lost, each keeps its name, layout and focus, and the pool has as many as the
/// settings ask for. Every workspace is on a space that a display shows, so none
/// is stranded. Where there are at least as many workspaces as spaces on
/// display, the spaces with a list are exactly those on display, and each of
/// them has a workspace and shows one that it has. Workspaces that were there
/// keep their global numbers; those that are added come behind them.
pub proof fn arranged_serves_every_display(desk: Desktop, visible: Seq<DisplayState>)
    requires
        desk.store.consistent(),
        desk.store.settings.shared,
        visible.len() > 0,
        desk.store.upcoming.len() >= desk.store.pool_shortfall(),
    ensures
        desk.arranged(visible).store.consistent(),
        desk.sound() ==> desk.arranged(visible).sound(),
        desk.arranged(visible).store.settings == desk.store.settings,
        desk.store.entries.dom().subset_of(desk.arranged(visible).store.entries.dom()),
        forall|id: VirtualWorkspaceId| #[trigger]
            desk.store.entries.contains_key(id) ==> desk.arranged(visible).store.entries[id]
                == desk.store.entries[id].on_space(desk.arranged(visible).store.entries[id].space),
        forall|id: VirtualWorkspaceId| #[trigger]
            desk.arranged(visible).store.entries.contains_key(id) ==> shown_on(
                visible,
                desk.arranged(visible).store.entries[id].space.id,
            ),
        desk.arranged(visible).store.global_ids().len() == desk.store.global_ids().len()
            + desk.store.pool_shortfall(),
        desk.arranged(visible).store.global_ids().len() >= desk.store.settings.target_count(),
        forall|key: u64| #[trigger]
            desk.arranged(visible).store.by_space.contains_key(key) ==> shown_on(visible, key),
        desk.arranged(visible).store.global_ids().len() >= shown_keys(visible).len()
            ==> forall|i: int|
            0 <= i < visible.len() ==> desk.arranged(visible).store.serves(
                (#[trigger] visible[i]).0.id,
            ),
        desk.arranged(visible).store.global_ids().len() >= shown_keys(visible).len()
            ==> forall|key: u64| #[trigger]
            desk.arranged(visible).store.by_space.contains_key(key) <==> shown_on(visible, key),
        desk.arranged(visible).store.global_ids().len() >= shown_keys(visible).len()
            ==> forall|i: int|
            0 <= i < visible.len() ==> desk.arranged(visible).store.shows_own(
                (#[trigger] visible[i]).0,
            ),
        desk.arranged(visible).store.global_ids() == desk.store.global_ids()
            + desk.store.upcoming.take(desk.store.pool_shortfall() as int),
{
    let home = visible[0].0;
    let after = desk.arranged(visible);
    let keys = shown_keys(visible);
    let bare = Desktop { windows: crate::windows::WindowState::empty(), ..desk };
    assert(bare.sound()) by {
        assert(bare.windows.assignments.order.to_set() =~= bare.windows.assignments.values.dom());
    }
    lemma_arranged(bare, visible);
    arranged_whatever_the_windows(desk, bare, visible);
    if desk.sound() {
        lemma_arranged(desk, visible);
    }
    lemma_pool_filled(desk.store, home);
    pool_is_everything(desk.store);
    pool_is_everything(after.store);
    arranged_only_moves(desk, visible);
    assert forall|id: VirtualWorkspaceId| #[trigger] after.store.entries.contains_key(
        id,
    ) implies shown_on(visible, after.store.entries[id].space.id) by {
        assert(after.store.by_space.contains_key(after.store.entries[id].space.id));
    }
    if after.store.global_ids().len() >= keys.len() {
        assert forall|key: u64| shown_on(visible, key) implies #[trigger]
        after.store.by_space.contains_key(key) by {
            let i = choose|i: int| 0 <= i < visible.len() && (#[trigger] visible[i]).0.id == key;
            assert(after.store.serves(visible[i].0.id));
        }
        assert forall|i: int| 0 <= i < visible.len() implies after.store.shows_own(
            (#[trigger] visible[i]).0,
        ) by {
            let space = visible[i].0;
            assert(after.store.serves(space.id));
            listed_is_owned(after.store, space);
            assert(after.store.active.contains_key(space.id));
            assert(after.store.list_of(space).contains(after.store.active[space.id].1));
        }
    }
    crate::numbering::pool_grows_at_its_end(
        desk.store,
        home,
        desk.store.global_ids().len(),
        desk.store.pool_shortfall(),
    );
    let filled = desk.store.pool_filled(home);
    pool_is_everything(filled);
    assert(after.store.pool() == filled.pool());
}

/// Without a shared pool or without displays nothing is rearranged.
pub proof fn arranging_nothing(desk: Desktop, visible: Seq<DisplayState>)
    requires
        !desk.store.settings.shared || visible.len() == 0,
    ensures
        desk.arranged(visible) == desk,
{
}

// The displays that are to own workspaces.

impl Desktop {
    /// The display that an assignment gives a workspace to, if it names both.
    pub open spec fn assignment_of(
        self,
        assignment: DisplayAssignment,
        visible: Seq<DisplayState>,
    ) -> Option<(VirtualWorkspaceId, SpaceId)> {
        match (
            self.store.picked(self.store.global_ids(), assignment.workspace),
            crate::desktop::display_picked(visible, assignment.display),
        ) {
            (Some(id), Some(space)) => Some((id, space)),
            _ => None,
        }
    }
}

/// Moving workspaces to displays does not change which workspaces and displays
/// the assignments name.
pub proof fn lemma_assignments_name_the_same(
    desk: Desktop,
    assignments: Seq<DisplayAssignment>,
    visible: Seq<DisplayState>,
    assignment: DisplayAssignment,
)
    requires
        desk.sound(),
    ensures
        desk.assignments_applied(assignments, visible).assignment_of(assignment, visible)
            == desk.assignment_of(assignment, visible),
        desk.assignments_applied(assignments, visible).store.global_ids()
            == desk.store.global_ids(),
        forall|id: VirtualWorkspaceId| #[trigger]
            desk.store.entries.contains_key(id) ==> desk.assignments_applied(
                assignments,
                visible,
            ).store.entries[id].name == desk.store.entries[id].name,
    decreases assignments.len(),
{
    let after = desk.assignments_applied(assignments, visible);
    if assignments.len() > 0 {
        let fewer = assignments.drop_last();
        lemma_assignments_name_the_same(desk, fewer, visible, assignment);
        assignments_applied_is_sound(desk, fewer, visible);
        assignments_applied_is_sound(desk, assignments, visible);
        let before = desk.assignments_applied(fewer, visible);
        pool_is_everything(before.store);
        pool_is_everything(after.store);
        assert forall|id: VirtualWorkspaceId| #[trigger] desk.store.entries.contains_key(
            id,
        ) implies after.store.entries[id].name == desk.store.entries[id].name by {
            assert(before.store.entries.dom().contains(id));
        }
    }
    let ids = desk.store.global_ids();
    pool_is_everything(desk.store);
    if let crate::selectors::Selection::Name(name) = assignment.workspace {
        crate::sequences::lemma_filter_same(
            ids,
            crate::state::named_in(after.store.entries, name),
            crate::state::named_in(desk.store.entries, name),
        );
    }
}

/// A workspace is on the display that the last assignment naming it gives it
/// to.
pub proof fn last_assignment_decides(
    desk: Desktop,
    assignments: Seq<DisplayAssignment>,
    visible: Seq<DisplayState>,
    decisive: int,
    id: VirtualWorkspaceId,
    space: SpaceId,
)
    requires
        desk.sound(),
        0 <= decisive < assignments.len(),
        desk.assignment_of(assignments[decisive], visible) == Some((id, space)),
        forall|later: int|
            decisive < later < assignments.len() ==> (desk.assignment_of(
                #[trigger] assignments[later],
                visible,
            ) matches Some(other) ==> other.0 != id),
    ensures
        desk.assignments_applied(assignments, visible).store.owns(space, id),
    decreases assignments.len(),
{
    let fewer = assignments.drop_last();
    let last = assignments.last();
    let before = desk.assignments_applied(fewer, visible);
    assignments_applied_is_sound(desk, fewer, visible);
    lemma_assignments_name_the_same(desk, fewer, visible, last);
    assert(assignments[assignments.len() - 1] == last);
    if decisive == assignments.len() - 1 {
        pool_is_everything(desk.store);
        let ids = desk.store.global_ids();
        if let crate::selectors::Selection::Name(name) = last.workspace {
            let wanted = crate::state::named_in(desk.store.entries, name);
            lemma_filter(ids, wanted);
            assert(ids.filter(wanted).contains(ids.filter(wanted)[0]));
        } else if let crate::selectors::Selection::Index(index) = last.workspace {
            assert(ids.contains(ids[index as int]));
        }
        assert(desk.store.entries.contains_key(id));
        assert(before.store.entries.dom().contains(id));
        relocated_is_consistent(before.store, id, space);
    } else {
        assert(fewer[decisive] == assignments[decisive]);
        assert forall|later: int| decisive < later < fewer.len() implies (desk.assignment_of(
            #[trigger] fewer[later],
            visible,
        ) matches Some(other) ==> other.0 != id) by {
            assert(fewer[later] == assignments[later]);
        }
        last_assignment_decides(desk, fewer, visible, decisive, id, space);
    }
}

/// Where every display has a workspace already, supplying them moves none.
pub proof fn lemma_nothing_to_supply(desk: Desktop, visible: Seq<DisplayState>)
    requires
        forall|i: int|
            0 <= i < visible.len() ==> desk.store.owned_ids((#[trigger] visible[i]).0).len() > 0,
    ensures
        desk.all_supplied(visible).store.entries == desk.store.entries,
        desk.all_supplied(visible).store.by_space == desk.store.by_space,
    decreases visible.len(),
{
    if visible.len() > 0 {
        let fewer = visible.drop_last();
        assert forall|i: int| 0 <= i < fewer.len() implies desk.store.owned_ids(
            (#[trigger] fewer[i]).0,
        ).len() > 0 by {
            assert(fewer[i] == visible[i]);
        }
        lemma_nothing_to_supply(desk, fewer);
        assert(visible[visible.len() - 1] == visible.last());
    }
}

/// Fitting the pool to the displays puts each workspace on the display that the
/// last assignment naming it gives it to, unless a display without workspace
/// must be given one.
pub proof fn arranged_follows_assignments(
    desk: Desktop,
    visible: Seq<DisplayState>,
    decisive: int,
    id: VirtualWorkspaceId,
    space: SpaceId,
)
    requires
        desk.sound(),
        desk.store.settings.shared,
        visible.len() > 0,
        desk.store.upcoming.len() >= desk.store.pool_shortfall(),
        ({
            let assignments = desk.store.settings.display_assignment;
            let ready = Desktop { store: desk.store.pool_ready(visible[0].0), ..desk };
            let rehomed = ready.assignments_applied(assignments, visible).rehomed(
                visible[0].0,
                visible,
            );
            &&& 0 <= decisive < assignments.len()
            &&& ready.assignment_of(assignments[decisive], visible) == Some((id, space))
            &&& forall|later: int|
                decisive < later < assignments.len() ==> (ready.assignment_of(
                    #[trigger] assignments[later],
                    visible,
                ) matches Some(other) ==> other.0 != id)
            &&& forall|i: int|
                0 <= i < visible.len() ==> rehomed.store.owned_ids((#[trigger] visible[i]).0).len()
                    > 0
        }),
    ensures
        desk.arranged(visible).store.owns(space, id),
{
    let home = visible[0].0;
    let assignments = desk.store.settings.display_assignment;
    let ready = Desktop { store: desk.store.pool_ready(home), ..desk };
    let assigned = ready.assignments_applied(assignments, visible);
    let rehomed = assigned.rehomed(home, visible);
    pool_ready_is_sound(desk, home);
    assignments_applied_is_sound(ready, assignments, visible);
    last_assignment_decides(ready, assignments, visible, decisive, id, space);
    assert(shown_on(visible, home.id)) by {
        assert(visible[0].0.id == home.id);
    }
    rehomed_is_sound(assigned, home, visible);
    assert(shown_on(visible, space.id)) by {
        match assignments[decisive].display {
            crate::selectors::DisplaySelection::Index(index) => {
                assert(visible[index as int].0.id == space.id);
            },
            crate::selectors::DisplaySelection::Uuid(uuid) => {
                let wanted = crate::desktop::with_uuid(uuid);
                lemma_filter(visible, wanted);
                let named = visible.filter(wanted)[0];
                assert(visible.filter(wanted).contains(named));
                let i = choose|i: int| 0 <= i < visible.len() && visible[i] == named;
                assert(visible[i].0.id == space.id);
            },
            _ => {},
        }
    }
    lemma_nothing_to_supply(rehomed, visible);
}

} // verus!
