//! Where a step through an order of workspaces leads.
use crate::desktop::Desktop;
use crate::ids::SpaceId;
use crate::ids::VirtualWorkspaceId;
use crate::ids::WindowId;
use crate::laws::window_is_in_its_workspace_alone;
use crate::selectors::Direction;
use crate::state::StoreState;
use crate::windows::WindowWorkspaceInfo;
use vstd::prelude::*;

verus! {

/// The place of the first occurrence of a workspace in an order.
pub open spec fn place_of(
    order: Seq<(VirtualWorkspaceId, SpaceId)>,
    id: VirtualWorkspaceId,
) -> Option<int> {
    order.map_values(|entry: (VirtualWorkspaceId, SpaceId)| entry.0).index_of_first(id)
}

/// Where `k` steps from `start` lead among `n` places, at most once round.
/// Only right and left lead anywhere, and going round only where `wraps`.
pub open spec fn landing(n: int, start: int, k: int, dir: Direction, wraps: bool) -> Option<int> {
    match dir {
        Direction::Right => if start + k < n {
            Some(start + k)
        } else if wraps {
            Some(start + k - n)
        } else {
            None
        },
        Direction::Left => if start - k >= 0 {
            Some(start - k)
        } else if wraps {
            Some(start - k + n)
        } else {
            None
        },
        _ => None,
    }
}

/// The workspace may be stepped on: it has windows, where empty ones are
/// skipped.
pub open spec fn welcome(
    desk: Desktop,
    entry: (VirtualWorkspaceId, SpaceId),
    skip_empty: Option<bool>,
) -> bool {
    skip_empty == Some(true) ==> desk.store.windows_shown(desk.windows, entry.1, entry.0).len() > 0
}

/// `k` steps lead to a workspace that may be stepped on.
pub open spec fn stops(
    desk: Desktop,
    order: Seq<(VirtualWorkspaceId, SpaceId)>,
    start: int,
    k: int,
    skip_empty: Option<bool>,
    dir: Direction,
) -> bool {
    match landing(order.len() as int, start, k, dir, !desk.store.settings.prevent_wrapping) {
        Some(place) => welcome(desk, order[place], skip_empty),
        None => false,
    }
}

/// `k` steps, and no fewer, lead to a workspace that may be stepped on.
pub open spec fn first_stop(
    desk: Desktop,
    order: Seq<(VirtualWorkspaceId, SpaceId)>,
    start: int,
    k: int,
    skip_empty: Option<bool>,
    dir: Direction,
) -> bool {
    &&& 1 <= k <= order.len()
    &&& stops(desk, order, start, k, skip_empty, dir)
    &&& forall|j: int| 1 <= j < k ==> !#[trigger] stops(desk, order, start, j, skip_empty, dir)
}

/// The nearest workspace in a direction that may be stepped on, possibly the
/// current one after going round.
pub open spec fn stepped(
    desk: Desktop,
    order: Seq<(VirtualWorkspaceId, SpaceId)>,
    current: VirtualWorkspaceId,
    skip_empty: Option<bool>,
    dir: Direction,
) -> Option<(VirtualWorkspaceId, SpaceId)> {
    match place_of(order, current) {
        Some(start) => if exists|k: int| first_stop(desk, order, start, k, skip_empty, dir) {
            let k = choose|k: int| first_stop(desk, order, start, k, skip_empty, dir);
            Some(
                order[landing(
                    order.len() as int,
                    start,
                    k,
                    dir,
                    !desk.store.settings.prevent_wrapping,
                )->0],
            )
        } else {
            None
        },
        None => None,
    }
}

/// The place before which a workspace does not occur is its place, or the end.
pub proof fn lemma_place_of(
    order: Seq<(VirtualWorkspaceId, SpaceId)>,
    id: VirtualWorkspaceId,
    start: int,
)
    requires
        0 <= start <= order.len(),
        forall|j: int| 0 <= j < start ==> (#[trigger] order[j]).0 != id,
        start < order.len() ==> order[start].0 == id,
    ensures
        place_of(order, id) == if start < order.len() {
            Some(start)
        } else {
            None
        },
{
    let ids = order.map_values(|entry: (VirtualWorkspaceId, SpaceId)| entry.0);
    ids.index_of_first_ensures(id);
    assert forall|j: int| 0 <= j < start implies ids[j] != id by {
        assert(ids[j] == order[j].0);
    }
    if start < order.len() {
        assert(ids[start] == id);
        assert(ids.contains(id));
    } else if ids.contains(id) {
        let j = choose|j: int| 0 <= j < ids.len() && ids[j] == id;
        assert(order[j].0 == id);
    }
}

/// Once a step is barred, all further ones are.
pub proof fn lemma_no_stop(
    desk: Desktop,
    order: Seq<(VirtualWorkspaceId, SpaceId)>,
    start: int,
    k: int,
    skip_empty: Option<bool>,
    dir: Direction,
)
    requires
        landing(order.len() as int, start, k, dir, !desk.store.settings.prevent_wrapping) is None,
        forall|j: int| 1 <= j < k ==> !#[trigger] stops(desk, order, start, j, skip_empty, dir),
    ensures
        forall|j: int| !#[trigger] first_stop(desk, order, start, j, skip_empty, dir),
{
}

/// The first step that leads to a welcome workspace decides.
pub proof fn lemma_first_stop(
    desk: Desktop,
    order: Seq<(VirtualWorkspaceId, SpaceId)>,
    start: int,
    k: int,
    skip_empty: Option<bool>,
    dir: Direction,
)
    requires
        first_stop(desk, order, start, k, skip_empty, dir),
    ensures
        k == choose|j: int| first_stop(desk, order, start, j, skip_empty, dir),
        exists|j: int| first_stop(desk, order, start, j, skip_empty, dir),
{
    let j = choose|j: int| first_stop(desk, order, start, j, skip_empty, dir);
    assert(first_stop(desk, order, start, j, skip_empty, dir));
    if j < k {
        assert(stops(desk, order, start, j, skip_empty, dir));
    } else if k < j {
        assert(stops(desk, order, start, k, skip_empty, dir));
    }
}

/// A step leads to a workspace of the order that may be stepped on.
pub proof fn step_lands_in_the_order(
    desk: Desktop,
    order: Seq<(VirtualWorkspaceId, SpaceId)>,
    current: VirtualWorkspaceId,
    skip_empty: Option<bool>,
    dir: Direction,
)
    ensures
        stepped(desk, order, current, skip_empty, dir) matches Some(target) ==> order.contains(
            target,
        ) && welcome(desk, target, skip_empty),
{
    let ids = order.map_values(|entry: (VirtualWorkspaceId, SpaceId)| entry.0);
    ids.index_of_first_ensures(current);
    if let Some(start) = place_of(order, current) {
        if exists|k: int| first_stop(desk, order, start, k, skip_empty, dir) {
            let k = choose|k: int| first_stop(desk, order, start, k, skip_empty, dir);
            assert(first_stop(desk, order, start, k, skip_empty, dir));
            let place = landing(
                order.len() as int,
                start,
                k,
                dir,
                !desk.store.settings.prevent_wrapping,
            )->0;
            assert(order[place] == order[place]);
        }
    }
}

/// Where no workspace is skipped, a step leads to the neighbour.
pub proof fn step_without_skipping(
    desk: Desktop,
    order: Seq<(VirtualWorkspaceId, SpaceId)>,
    current: VirtualWorkspaceId,
    skip_empty: Option<bool>,
    dir: Direction,
)
    requires
        skip_empty != Some(true),
    ensures
        stepped(desk, order, current, skip_empty, dir) == match place_of(order, current) {
            Some(start) => match landing(
                order.len() as int,
                start,
                1,
                dir,
                !desk.store.settings.prevent_wrapping,
            ) {
                Some(place) => Some(order[place]),
                None => None,
            },
            None => None,
        },
{
    let ids = order.map_values(|entry: (VirtualWorkspaceId, SpaceId)| entry.0);
    ids.index_of_first_ensures(current);
    if let Some(start) = place_of(order, current) {
        let wraps = !desk.store.settings.prevent_wrapping;
        match landing(order.len() as int, start, 1, dir, wraps) {
            Some(_) => {
                assert(first_stop(desk, order, start, 1, skip_empty, dir));
                lemma_first_stop(desk, order, start, 1, skip_empty, dir);
            },
            None => {
                lemma_no_stop(desk, order, start, 1, skip_empty, dir);
            },
        }
    }
}

/// A step right and a step left undo each other, where no workspace is skipped
/// and the order names each once.
pub proof fn steps_undo_each_other(
    desk: Desktop,
    order: Seq<(VirtualWorkspaceId, SpaceId)>,
    start: int,
    skip_empty: Option<bool>,
    right_first: bool,
)
    requires
        skip_empty != Some(true),
        0 <= start < order.len(),
        forall|i: int, j: int|
            0 <= i < j < order.len() ==> (#[trigger] order[i]).0 != (#[trigger] order[j]).0,
    ensures
        ({
            let there = if right_first {
                Direction::Right
            } else {
                Direction::Left
            };
            let back = if right_first {
                Direction::Left
            } else {
                Direction::Right
            };
            stepped(desk, order, order[start].0, skip_empty, there) matches Some(target)
                ==> stepped(desk, order, target.0, skip_empty, back) == Some(order[start])
        }),
{
    let wraps = !desk.store.settings.prevent_wrapping;
    let n = order.len() as int;
    let there = if right_first {
        Direction::Right
    } else {
        Direction::Left
    };
    let back = if right_first {
        Direction::Left
    } else {
        Direction::Right
    };
    lemma_place_of(order, order[start].0, start);
    step_without_skipping(desk, order, order[start].0, skip_empty, there);
    if let Some(place) = landing(n, start, 1, there, wraps) {
        lemma_place_of(order, order[place].0, place);
        step_without_skipping(desk, order, order[place].0, skip_empty, back);
    }
}

/// Where steps go round, a step right or left finds a workspace that may be
/// stepped on wherever the order has one.
pub proof fn wrapping_step_finds_a_workspace(
    desk: Desktop,
    order: Seq<(VirtualWorkspaceId, SpaceId)>,
    current: VirtualWorkspaceId,
    skip_empty: Option<bool>,
    dir: Direction,
    place: int,
)
    requires
        !desk.store.settings.prevent_wrapping,
        dir == Direction::Right || dir == Direction::Left,
        place_of(order, current) is Some,
        0 <= place < order.len(),
        welcome(desk, order[place], skip_empty),
    ensures
        stepped(desk, order, current, skip_empty, dir) is Some,
{
    let ids = order.map_values(|entry: (VirtualWorkspaceId, SpaceId)| entry.0);
    ids.index_of_first_ensures(current);
    let start = place_of(order, current)->0;
    let n = order.len() as int;
    let ahead = if dir == Direction::Right {
        place - start
    } else {
        start - place
    };
    let k = if ahead > 0 {
        ahead
    } else {
        ahead + n
    };
    assert(stops(desk, order, start, k, skip_empty, dir));
    lemma_some_first_stop(desk, order, start, k, skip_empty, dir);
}

/// If some number of steps leads to a welcome workspace, a first one does.
proof fn lemma_some_first_stop(
    desk: Desktop,
    order: Seq<(VirtualWorkspaceId, SpaceId)>,
    start: int,
    k: int,
    skip_empty: Option<bool>,
    dir: Direction,
)
    requires
        1 <= k <= order.len(),
        stops(desk, order, start, k, skip_empty, dir),
    ensures
        exists|j: int| first_stop(desk, order, start, j, skip_empty, dir),
    decreases k,
{
    if exists|j: int| 1 <= j < k && #[trigger] stops(desk, order, start, j, skip_empty, dir) {
        let j = choose|j: int|
            1 <= j < k && #[trigger] stops(desk, order, start, j, skip_empty, dir);
        lemma_some_first_stop(desk, order, start, j, skip_empty, dir);
    } else {
        assert(first_stop(desk, order, start, k, skip_empty, dir));
    }
}

/// Where steps do not go round, none leads over an end of the order, whether or
/// not empty workspaces are skipped.
pub proof fn no_step_over_the_ends(
    desk: Desktop,
    order: Seq<(VirtualWorkspaceId, SpaceId)>,
    current: VirtualWorkspaceId,
    skip_empty: Option<bool>,
)
    requires
        desk.store.settings.prevent_wrapping,
        order.len() > 0,
    ensures
        place_of(order, current) == Some(order.len() - 1) ==> stepped(
            desk,
            order,
            current,
            skip_empty,
            Direction::Right,
        ) is None,
        place_of(order, current) == Some(0int) ==> stepped(
            desk,
            order,
            current,
            skip_empty,
            Direction::Left,
        ) is None,
{
    if place_of(order, current) == Some(order.len() - 1) {
        lemma_no_stop(desk, order, order.len() - 1, 1, skip_empty, Direction::Right);
    }
    if place_of(order, current) == Some(0int) {
        lemma_no_stop(desk, order, 0, 1, skip_empty, Direction::Left);
    }
}

// What is passed over.

/// The place that `k` steps reach from `start` among `n` places on a ring.
pub open spec fn ring_place(n: int, start: int, k: int, right: bool) -> int {
    if right {
        (start + k) % n
    } else {
        (start - k) % n
    }
}

/// The entry that `k` steps reach on the ring.
pub open spec fn entry_after(
    order: Seq<(VirtualWorkspaceId, SpaceId)>,
    start: int,
    k: int,
    right: bool,
) -> (VirtualWorkspaceId, SpaceId) {
    order[ring_place(order.len() as int, start, k, right)]
}

/// `k` steps from `start` stay on this side of the end of `n` places.
pub open spec fn within_ends(n: int, start: int, k: int, right: bool) -> bool {
    if right {
        start + k < n
    } else {
        k <= start
    }
}

impl Desktop {
    /// The space has the workspace, and some window is assigned to both.
    pub open spec fn inhabited(self, entry: (VirtualWorkspaceId, SpaceId)) -> bool {
        &&& self.store.entries.contains_key(entry.0)
        &&& self.store.entries[entry.0].space == entry.1
        &&& exists|window: WindowId| #[trigger]
            self.windows.info_of(window) == Some(
                WindowWorkspaceInfo { space: entry.1, workspace_id: entry.0 },
            )
    }
}

impl Desktop {
    /// All workspaces on the way are passed over: empty ones are skipped, and
    /// none of these has a window.
    pub open spec fn passes_over(
        self,
        order: Seq<(VirtualWorkspaceId, SpaceId)>,
        start: int,
        k: int,
        skips: bool,
        right: bool,
    ) -> bool {
        &&& k > 1 ==> skips
        &&& forall|j: int|
            1 <= j < k ==> !self.inhabited(#[trigger] entry_after(order, start, j, right))
    }
}

/// A workspace may be stepped on wherever empty ones are not skipped or some
/// window is in it.
proof fn lemma_welcome(
    desk: Desktop,
    entry: (VirtualWorkspaceId, SpaceId),
    skip_empty: Option<bool>,
)
    requires
        desk.windows.assignments.well_formed(),
    ensures
        welcome(desk, entry, skip_empty) <==> (skip_empty == Some(true) ==> desk.inhabited(entry)),
{
    let windows = desk.store.windows_shown(desk.windows, entry.1, entry.0);
    let info = WindowWorkspaceInfo { space: entry.1, workspace_id: entry.0 };
    if desk.inhabited(entry) {
        let window = choose|window: WindowId| #[trigger]
            desk.windows.info_of(window) == Some(info);
        window_is_in_its_workspace_alone(desk.windows, window, entry.1, entry.0);
        assert(windows.contains(window));
    }
    if windows.len() > 0 {
        assert(windows.contains(windows[0]));
        window_is_in_its_workspace_alone(desk.windows, windows[0], entry.1, entry.0);
        assert(desk.windows.info_of(windows[0]) == Some(info));
    }
}

/// Steps land where going round a ring leads, or nowhere beyond an end where
/// going round is prevented.
proof fn lemma_landing(n: int, start: int, k: int, right: bool, wraps: bool)
    requires
        0 <= start < n,
        1 <= k <= n,
    ensures
        ({
            let dir = if right {
                Direction::Right
            } else {
                Direction::Left
            };
            landing(n, start, k, dir, wraps) == if wraps || within_ends(n, start, k, right) {
                Some(ring_place(n, start, k, right))
            } else {
                None
            }
        }),
{
    if right {
        if start + k < n {
            vstd::arithmetic::div_mod::lemma_small_mod((start + k) as nat, n as nat);
        } else {
            vstd::arithmetic::div_mod::lemma_small_mod((start + k - n) as nat, n as nat);
            vstd::arithmetic::div_mod::lemma_mod_sub_multiples_vanish(start + k, n);
        }
    } else {
        if k <= start {
            vstd::arithmetic::div_mod::lemma_small_mod((start - k) as nat, n as nat);
        } else {
            vstd::arithmetic::div_mod::lemma_small_mod((start - k + n) as nat, n as nat);
            vstd::arithmetic::div_mod::lemma_mod_add_multiples_vanish(start - k, n);
        }
    }
}

/// What lies before the first stop is passed over.
proof fn lemma_passed_over(
    desk: Desktop,
    order: Seq<(VirtualWorkspaceId, SpaceId)>,
    start: int,
    k: int,
    skip_empty: Option<bool>,
    right: bool,
)
    requires
        desk.windows.assignments.well_formed(),
        0 <= start < order.len(),
        first_stop(
            desk,
            order,
            start,
            k,
            skip_empty,
            if right {
                Direction::Right
            } else {
                Direction::Left
            },
        ),
    ensures
        desk.passes_over(order, start, k, skip_empty == Some(true), right),
{
    let n = order.len() as int;
    let dir = if right {
        Direction::Right
    } else {
        Direction::Left
    };
    let round = !desk.store.settings.prevent_wrapping;
    let skips = skip_empty == Some(true);
    assert forall|j: int| 1 <= j < k implies skips && !desk.inhabited(
        #[trigger] entry_after(order, start, j, right),
    ) by {
        assert(!stops(desk, order, start, j, skip_empty, dir));
        assert(stops(desk, order, start, k, skip_empty, dir));
        lemma_landing(n, start, j, right, round);
        lemma_landing(n, start, k, right, round);
        lemma_welcome(desk, entry_after(order, start, j, right), skip_empty);
    }
    if k > 1 {
        assert(!desk.inhabited(entry_after(order, start, 1, right)));
    }
}

/// A step from the first place of the current workspace goes right or left,
/// round the ends unless that is prevented. Where empty workspaces are skipped,
/// every workspace that it passes over has no window, and the one that it
/// reaches has one; else it passes over none. There is no step only where every
/// workspace within reach is passed over.
pub proof fn step_passes_over_empty_workspaces(
    desk: Desktop,
    order: Seq<(VirtualWorkspaceId, SpaceId)>,
    current: VirtualWorkspaceId,
    start: int,
    skip_empty: Option<bool>,
    right: bool,
)
    requires
        desk.windows.assignments.well_formed(),
        0 <= start < order.len(),
        order[start].0 == current,
        forall|j: int| 0 <= j < start ==> (#[trigger] order[j]).0 != current,
    ensures
        ({
            let n = order.len() as int;
            let dir = if right {
                Direction::Right
            } else {
                Direction::Left
            };
            let skips = skip_empty == Some(true);
            let round = !desk.store.settings.prevent_wrapping;
            match stepped(desk, order, current, skip_empty, dir) {
                Some(target) => exists|k: int|
                    1 <= k <= n && (round || within_ends(n, start, k, right)) && target
                        == #[trigger] entry_after(order, start, k, right) && (skips
                        ==> desk.inhabited(target)) && desk.passes_over(
                        order,
                        start,
                        k,
                        skips,
                        right,
                    ),
                None => {
                    &&& round || within_ends(n, start, 1, right) ==> skips
                    &&& forall|k: int|
                        1 <= k <= n && (round || within_ends(n, start, k, right))
                            ==> !desk.inhabited(#[trigger] entry_after(order, start, k, right))
                },
            }
        }),
{
    let n = order.len() as int;
    let dir = if right {
        Direction::Right
    } else {
        Direction::Left
    };
    let round = !desk.store.settings.prevent_wrapping;
    lemma_place_of(order, current, start);
    assert forall|k: int| 1 <= k <= n implies #[trigger] stops(
        desk,
        order,
        start,
        k,
        skip_empty,
        dir,
    ) == ((round || within_ends(n, start, k, right)) && (skip_empty == Some(true)
        ==> desk.inhabited(entry_after(order, start, k, right)))) by {
        lemma_landing(n, start, k, right, round);
        lemma_welcome(desk, entry_after(order, start, k, right), skip_empty);
    }
    if exists|k: int| first_stop(desk, order, start, k, skip_empty, dir) {
        let k = choose|k: int| first_stop(desk, order, start, k, skip_empty, dir);
        lemma_landing(n, start, k, right, round);
        assert(stops(desk, order, start, k, skip_empty, dir));
        let target = entry_after(order, start, k, right);
        assert(stepped(desk, order, current, skip_empty, dir) == Some(target));
        lemma_passed_over(desk, order, start, k, skip_empty, right);
    } else {
        assert forall|k: int|
            1 <= k <= n && (round || within_ends(n, start, k, right)) implies skip_empty == Some(
            true,
        ) && !desk.inhabited(#[trigger] entry_after(order, start, k, right)) by {
            if stops(desk, order, start, k, skip_empty, dir) {
                lemma_some_first_stop(desk, order, start, k, skip_empty, dir);
            }
        }
        if round || within_ends(n, start, 1, right) {
            assert(!desk.inhabited(entry_after(order, start, 1, right)));
        }
    }
}

/// There is no step up or down, and none from a workspace outside the order.
pub proof fn no_other_steps(
    desk: Desktop,
    order: Seq<(VirtualWorkspaceId, SpaceId)>,
    current: VirtualWorkspaceId,
    skip_empty: Option<bool>,
    dir: Direction,
)
    ensures
        dir == Direction::Up || dir == Direction::Down ==> stepped(
            desk,
            order,
            current,
            skip_empty,
            dir,
        ) is None,
        (forall|i: int| 0 <= i < order.len() ==> (#[trigger] order[i]).0 != current) ==> stepped(
            desk,
            order,
            current,
            skip_empty,
            dir,
        ) is None,
{
    if forall|i: int| 0 <= i < order.len() ==> (#[trigger] order[i]).0 != current {
        lemma_place_of(order, current, order.len() as int);
    }
    if dir == Direction::Up || dir == Direction::Down {
        if let Some(start) = place_of(order, current) {
            lemma_no_stop(desk, order, start, 1, skip_empty, dir);
        }
    }
}

/// The order of a space names its workspaces with the space, and that of the
/// pool names all workspaces, each with its own space.
pub proof fn orders_name_spaces(store: StoreState, space: SpaceId)
    ensures
        store.local_order(space).len() == store.owned_ids(space).len(),
        forall|i: int|
            0 <= i < store.owned_ids(space).len() ==> #[trigger] store.local_order(space)[i] == (
                store.owned_ids(space)[i],
                space,
            ),
        store.global_order().len() == store.global_ids().len(),
        forall|i: int|
            0 <= i < store.global_ids().len() ==> #[trigger] store.global_order()[i] == (
                store.global_ids()[i],
                store.entries[store.global_ids()[i]].space,
            ),
{
}

} // verus!
