//! Workspaces move between spaces: one at a time, to fit the displays, and
//! when a space gets another number.
use crate::desktop::desktop;
use crate::desktop::displays_seen;
use crate::desktop::display_picked;
use crate::desktop::hidden_from;
use crate::desktop::not_shown;
use crate::desktop::not_workspace;
use crate::desktop::shown_on;
use crate::desktop::with_uuid;
use crate::ids::SpaceId;
use crate::ids::VirtualWorkspaceId;
use crate::ids::WindowId;
use crate::order::sort_ranked;
use crate::ordering::place_in;
use crate::selectors::DisplaySelection;
use crate::selectors::DisplaySelector;
use crate::selectors::Selection;
use crate::selectors::WorkspaceSelector;
use crate::sequences::lemma_filter_first;
use crate::sequences::lemma_filter_last;
use crate::sequences::lemma_filter_none;
use crate::sequences::lemma_filter_take;
use crate::state::named_in;
use crate::store::WorkspaceStore;
use crate::windows::WindowStore;
use crate::windows::WindowWorkspaceInfo;
use vstd::prelude::*;

verus! {

/// The list without one workspace.
fn list_without(list: &Vec<VirtualWorkspaceId>, id: VirtualWorkspaceId) -> (r: Vec<
    VirtualWorkspaceId,
>)
    ensures
        r@ == list@.filter(not_workspace(id)),
{
    let mut kept: Vec<VirtualWorkspaceId> = Vec::new();
    let mut i: usize = 0;
    while i < list.len()
        invariant
            i <= list.len(),
            kept@ == list@.take(i as int).filter(not_workspace(id)),
        decreases list.len() - i,
    {
        proof {
            lemma_filter_take(list@, not_workspace(id), i as int);
        }
        if list[i] != id {
            kept.push(list[i]);
        }
        i += 1;
    }
    assert(list@.take(list.len() as int) =~= list@);
    kept
}

/// Some display shows the space.
fn is_shown(visible: &[(SpaceId, Option<String>)], key: u64) -> (r: bool)
    ensures
        r == shown_on(displays_seen(visible@), key),
{
    let ghost seen = displays_seen(visible@);
    let mut i: usize = 0;
    while i < visible.len()
        invariant
            i <= visible.len(),
            seen == displays_seen(visible@),
            forall|j: int| 0 <= j < i ==> (#[trigger] seen[j]).0.id != key,
        decreases visible.len() - i,
    {
        assert(seen[i as int].0 == visible@[i as int].0);
        if visible[i].0.id == key {
            return true;
        }
        i += 1;
    }
    false
}

/// The space of the display that a selector names.
fn pick_display(visible: &[(SpaceId, Option<String>)], selector: &DisplaySelector) -> (r: Option<
    SpaceId,
>)
    ensures
        r == display_picked(displays_seen(visible@), selector@),
{
    let ghost seen = displays_seen(visible@);
    match selector {
        DisplaySelector::Index(index) => if *index < visible.len() {
            Some(visible[*index].0)
        } else {
            None
        },
        DisplaySelector::Uuid(uuid) => {
            let mut i: usize = 0;
            while i < visible.len()
                invariant
                    i <= visible.len(),
                    seen == displays_seen(visible@),
                    selector@ == DisplaySelection::Uuid(uuid@),
                    forall|j: int| 0 <= j < i ==> !with_uuid(uuid@)(#[trigger] seen[j]),
                decreases visible.len() - i,
            {
                let found = match &visible[i].1 {
                    Some(candidate) => *candidate == *uuid,
                    None => false,
                };
                assert(found == with_uuid(uuid@)(seen[i as int]));
                if found {
                    proof {
                        lemma_filter_first(seen, with_uuid(uuid@), i as int);
                    }
                    return Some(visible[i].0);
                }
                i += 1;
            }
            proof {
                lemma_filter_none(seen, with_uuid(uuid@));
            }
            None
        },
        // Rejected by config validation; a direction or a cycle has no stable owner.
        DisplaySelector::Direction(_) => None,
        DisplaySelector::Cycle(_) => None,
    }
}

impl WorkspaceStore {
    /// The workspace of a selector among the given ones.
    pub(crate) fn pick(&self, ids: &Vec<VirtualWorkspaceId>, selector: &WorkspaceSelector) -> (r:
        Option<VirtualWorkspaceId>)
        requires
            forall|id: VirtualWorkspaceId| #[trigger]
                ids@.contains(id) ==> self@.entries.contains_key(id),
        ensures
            r == self@.picked(ids@, selector@),
            r matches Some(id) ==> ids@.contains(id),
    {
        match selector {
            WorkspaceSelector::Index(index) => if *index < ids.len() {
                assert(ids@.contains(ids@[*index as int]));
                Some(ids[*index])
            } else {
                None
            },
            WorkspaceSelector::Name(name) => {
                let ghost wanted = named_in(self@.entries, name@);
                let mut i: usize = 0;
                while i < ids.len()
                    invariant
                        i <= ids.len(),
                        wanted == named_in(self@.entries, name@),
                        selector@ == Selection::Name(name@),
                        forall|id: VirtualWorkspaceId| #[trigger]
                            ids@.contains(id) ==> self@.entries.contains_key(id),
                        forall|j: int| 0 <= j < i ==> !wanted(#[trigger] ids@[j]),
                    decreases ids.len() - i,
                {
                    proof {
                        assert(ids@.contains(ids@[i as int]));
                    }
                    let found = match self.workspace(ids[i]) {
                        Some(workspace) => workspace.name == *name,
                        None => false,
                    };
                    if found {
                        proof {
                            lemma_filter_first(ids@, wanted, i as int);
                        }
                        return Some(ids[i]);
                    }
                    i += 1;
                }
                proof {
                    lemma_filter_none(ids@, wanted);
                }
                None
            },
        }
    }

    fn repair_active_after_relocate(
        &mut self,
        old_space: SpaceId,
        new_space: SpaceId,
        moved: VirtualWorkspaceId,
    )
        ensures
            final(self)@ == old(self)@.source_repaired(old_space, moved).with_some_active(
                new_space,
                moved,
            ),
    {
        // The source must never be left pointing at a workspace it no longer owns.
        let ids = self.ordered_workspace_ids(old_space);
        match self.active_pair(old_space) {
            Some((previous, active)) => {
                let kept = match previous {
                    Some(id) => if id == moved {
                        None
                    } else {
                        Some(id)
                    },
                    None => None,
                };
                if active != moved {
                    self.set_active_pair(old_space, kept, active);
                } else if ids.len() > 0 {
                    self.set_active_pair(old_space, kept, ids[0]);
                } else {
                    self.clear_active(old_space);
                }
            },
            None => {
                if ids.len() > 0 {
                    self.set_active_pair(old_space, None, ids[0]);
                }
            },
        }
        self.show_some(new_space, moved);
    }

    /// Moves workspace ownership between spaces: the workspace record, both
    /// `workspaces_by_space` entries, the active/previous slots on either side, and every
    /// member window's composite `WindowWorkspaceInfo` key, which is what keeps
    /// `WindowStore::workspace_windows` finding them after the move. Returns the member
    /// windows so the caller can re-key layout state and move them on screen.
    pub fn relocate_workspace(
        &mut self,
        window_store: &mut WindowStore,
        workspace_id: VirtualWorkspaceId,
        new_space: SpaceId,
    ) -> (r: Vec<WindowId>)
        ensures
            desktop(*final(self), *final(window_store)) == desktop(
                *old(self),
                *old(window_store),
            ).relocated(workspace_id, new_space),
            r@ == match old(self)@.space_of(workspace_id) {
                Some(old_space) if old_space != new_space => old(window_store)@.windows_in(
                    old_space,
                    workspace_id,
                ),
                _ => Seq::empty(),
            },
    {
        let old_space = match self.workspace_space(workspace_id) {
            Some(space) => space,
            None => {
                return Vec::new();
            },
        };
        if old_space == new_space {
            return Vec::new();
        }
        let windows = window_store.workspace_windows(old_space, workspace_id);
        if self.has_list(old_space) {
            let list = list_without(&self.list(old_space), workspace_id);
            self.set_list(old_space, list);
        }
        let mut list = self.list(new_space);
        if place_in(&list, workspace_id).is_none() {
            list.push(workspace_id);
            sort_ranked(&mut list);
        }
        self.set_list(new_space, list);
        self.set_space(workspace_id, new_space);
        window_store.move_assignments(
            WindowWorkspaceInfo { space: old_space, workspace_id },
            WindowWorkspaceInfo { space: new_space, workspace_id },
        );
        self.repair_active_after_relocate(old_space, new_space, workspace_id);
        windows
    }

    fn apply_display_assignment(
        &mut self,
        window_store: &mut WindowStore,
        visible: &[(SpaceId, Option<String>)],
    )
        ensures
            desktop(*final(self), *final(window_store)) == desktop(
                *old(self),
                *old(window_store),
            ).assignments_applied(
                old(self)@.settings.display_assignment,
                displays_seen(visible@),
            ),
    {
        let assignments = self.display_assignments();
        let ghost before = desktop(*self, *window_store);
        let ghost wanted = self@.settings.display_assignment;
        let ghost seen = displays_seen(visible@);
        let mut i: usize = 0;
        assert(wanted.take(0) =~= Seq::empty());
        while i < assignments.len()
            invariant
                i <= assignments.len(),
                wanted == crate::settings::assignments_said(assignments@),
                seen == displays_seen(visible@),
                desktop(*self, *window_store) == before.assignments_applied(
                    wanted.take(i as int),
                    seen,
                ),
            decreases assignments.len() - i,
        {
            proof {
                assert(wanted.take(i + 1).drop_last() =~= wanted.take(i as int));
                assert(wanted.take(i + 1).last() == assignments@[i as int]@);
            }
            let ids = self.ordered_workspace_ids_global();
            let workspace = self.pick(&ids, &assignments[i].workspace);
            let space = pick_display(visible, &assignments[i].display);
            if let (Some(workspace), Some(space)) = (workspace, space) {
                self.relocate_workspace(window_store, workspace, space);
            }
            i += 1;
        }
        assert(wanted.take(wanted.len() as int) =~= wanted);
    }

    /// Moves the given workspaces to a space.
    fn relocate_all(
        &mut self,
        window_store: &mut WindowStore,
        ids: &Vec<VirtualWorkspaceId>,
        space: SpaceId,
    )
        ensures
            desktop(*final(self), *final(window_store)) == desktop(
                *old(self),
                *old(window_store),
            ).all_relocated(ids@, space),
    {
        let ghost before = desktop(*self, *window_store);
        let mut i: usize = 0;
        assert(ids@.take(0) =~= Seq::empty());
        while i < ids.len()
            invariant
                i <= ids.len(),
                desktop(*self, *window_store) == before.all_relocated(ids@.take(i as int), space),
            decreases ids.len() - i,
        {
            assert(ids@.take(i + 1).drop_last() =~= ids@.take(i as int));
            self.relocate_workspace(window_store, ids[i], space);
            i += 1;
        }
        assert(ids@.take(ids.len() as int) =~= ids@);
    }

    /// A display that goes away must not strand its workspaces: in shared mode their global
    /// numbers would still resolve, but the space can never be activated or arranged.
    fn rehome_detached_workspaces(
        &mut self,
        window_store: &mut WindowStore,
        home: SpaceId,
        visible: &[(SpaceId, Option<String>)],
    )
        ensures
            desktop(*final(self), *final(window_store)) == desktop(
                *old(self),
                *old(window_store),
            ).rehomed(home, displays_seen(visible@)),
    {
        let ghost before = desktop(*self, *window_store);
        let ghost seen = displays_seen(visible@);
        let ghost wanted = hidden_from(seen);
        let keys = self.space_keys();
        let mut detached: Vec<u64> = Vec::new();
        let mut i: usize = 0;
        while i < keys.len()
            invariant
                i <= keys.len(),
                seen == displays_seen(visible@),
                wanted == hidden_from(seen),
                detached@ == keys@.take(i as int).filter(wanted),
            decreases keys.len() - i,
        {
            proof {
                lemma_filter_take(keys@, wanted, i as int);
            }
            if !is_shown(visible, keys[i]) {
                detached.push(keys[i]);
            }
            i += 1;
        }
        assert(keys@.take(keys.len() as int) =~= keys@);
        let mut k: usize = 0;
        assert(detached@.take(0) =~= Seq::empty());
        while k < detached.len()
            invariant
                k <= detached.len(),
                desktop(*self, *window_store) == before.all_vacated(
                    detached@.take(k as int),
                    home,
                ),
            decreases detached.len() - k,
        {
            assert(detached@.take(k + 1).drop_last() =~= detached@.take(k as int));
            let space = SpaceId { id: detached[k] };
            let ids = self.ordered_workspace_ids(space);
            self.relocate_all(window_store, &ids, home);
            self.drop_list(space);
            self.clear_active(space);
            k += 1;
        }
        assert(detached@.take(detached.len() as int) =~= detached@);
    }

    /// Of the spaces that can give a workspace, the one that lists most.
    fn find_donor(&self, space: SpaceId) -> (r: Option<SpaceId>)
        ensures
            r == self@.donor(space),
    {
        let keys = self.space_keys();
        let mut best: Option<u64> = None;
        let mut most: usize = 1;
        let mut i: usize = 0;
        while i < keys.len()
            invariant
                i <= keys.len(),
                keys@.to_set() == self@.by_space.dom(),
                crate::order::ascends(keys@),
                most >= 1,
                match best {
                    Some(key) => self@.can_give(space, key) && most == self@.by_space[key].len()
                        && exists|j: int| 0 <= j < i && keys@[j] == key,
                    None => most == 1,
                },
                forall|j: int|
                    0 <= j < i && self@.can_give(space, #[trigger] keys@[j]) ==> best is Some && (
                    self@.by_space[keys@[j]].len() < most || (self@.by_space[keys@[j]].len() == most
                        && keys@[j] <= best->0)),
            decreases keys.len() - i,
        {
            let key = keys[i];
            proof {
                assert(keys@.to_set().contains(keys@[i as int]));
                match best {
                    Some(b) => {
                        let j = choose|j: int| 0 <= j < i && keys@[j] == b;
                        assert(crate::order::Ranked::rank(keys@[j]) < crate::order::Ranked::rank(
                            keys@[i as int],
                        ));
                    },
                    None => {},
                }
            }
            let listed: usize = self.list_len(SpaceId { id: key });
            if key != space.id && listed > 1 && listed >= most {
                best = Some(key);
                most = listed;
            }
            i += 1;
        }
        proof {
            assert forall|other: u64| #[trigger] self@.can_give(space, other) implies best is Some
                && (self@.by_space[other].len() < most || (self@.by_space[other].len() == most
                && other <= best->0)) by {
                assert(keys@.to_set().contains(other));
                let j = choose|j: int| 0 <= j < keys.len() && keys@[j] == other;
                assert(self@.can_give(space, keys@[j]));
            }
            match best {
                Some(key) => {
                    assert(self@.is_donor(space, key));
                    let chosen = choose|key: u64| self@.is_donor(space, key);
                    assert(self@.is_donor(space, chosen));
                    assert(self@.can_give(space, chosen));
                    assert(chosen == key);
                },
                None => {
                    assert forall|key: u64| !self@.is_donor(space, key) by {
                        assert(!self@.can_give(space, key));
                    }
                },
            }
        }
        match best {
            Some(key) => Some(SpaceId { id: key }),
            None => None,
        }
    }

    /// The last workspace of a space that the space does not show.
    fn find_spare(&self, space: SpaceId) -> (r: Option<VirtualWorkspaceId>)
        ensures
            r == self@.spare(space),
    {
        let ids = self.ordered_workspace_ids(space);
        let active = self.active_workspace(space);
        let ghost wanted = not_shown(active);
        let mut i: usize = ids.len();
        while i > 0
            invariant
                i <= ids.len(),
                ids@ == self@.owned_ids(space),
                active == self@.active_of(space),
                wanted == not_shown(active),
                forall|j: int| i <= j < ids.len() ==> !wanted(#[trigger] ids@[j]),
            decreases i,
        {
            i -= 1;
            let shown = match active {
                Some(active) => active == ids[i],
                None => false,
            };
            if !shown {
                proof {
                    lemma_filter_last(ids@, wanted, i as int);
                }
                return Some(ids[i]);
            }
        }
        proof {
            lemma_filter_none(ids@, wanted);
        }
        None
    }

    fn ensure_every_display_owns_a_workspace(
        &mut self,
        window_store: &mut WindowStore,
        visible: &[(SpaceId, Option<String>)],
    )
        ensures
            desktop(*final(self), *final(window_store)) == desktop(
                *old(self),
                *old(window_store),
            ).all_supplied(displays_seen(visible@)),
    {
        let ghost before = desktop(*self, *window_store);
        let ghost seen = displays_seen(visible@);
        let mut i: usize = 0;
        assert(seen.take(0) =~= Seq::empty());
        while i < visible.len()
            invariant
                i <= visible.len(),
                seen == displays_seen(visible@),
                desktop(*self, *window_store) == before.all_supplied(seen.take(i as int)),
            decreases visible.len() - i,
        {
            proof {
                assert(seen.take(i + 1).drop_last() =~= seen.take(i as int));
                assert(seen.take(i + 1).last() == seen[i as int]);
            }
            let space = visible[i].0;
            if self.ordered_workspace_ids(space).len() > 0 {
                let list = self.list(space);
                proof {
                    crate::order::lemma_sorted(self@.list_of(space).filter(self@.owned_by(space)));
                    crate::sequences::lemma_filter(self@.list_of(space), self@.owned_by(space));
                }
                self.show_some(space, list[0]);
            } else if let Some(donor) = self.find_donor(space) {
                if let Some(moved) = self.find_spare(donor) {
                    self.relocate_workspace(window_store, moved, space);
                }
            }
            i += 1;
        }
        assert(seen.take(seen.len() as int) =~= seen);
    }

    /// Reconciles the global workspace pool with the live display topology.
    ///
    /// `visible` is every attached display's current space, in physical order. Shared mode
    /// only; a no-op otherwise. Runs after `remap_space` so it sees post-churn space ids.
    ///
    /// A display that was just attached lists no workspace. Even where it comes first and
    /// the pool is full, it shows none until it is given one.
    pub fn apply_display_topology(
        &mut self,
        window_store: &mut WindowStore,
        visible: &[(SpaceId, Option<String>)],
    )
        requires
            old(self)@.settings.shared && visible@.len() > 0 ==> old(self)@.can_arrange(),
        ensures
            desktop(*final(self), *final(window_store)) == desktop(
                *old(self),
                *old(window_store),
            ).arranged(displays_seen(visible@)),
    {
        if !self.shared_across_displays() || visible.len() == 0 {
            return;
        }
        let home = visible[0].0;
        let ghost start = self@;
        proof {
            crate::growth::lemma_pushed_from(
                start,
                home,
                start.global_ids().len(),
                start.pool_shortfall(),
            );
        }
        // The pool is created once, in config order, so global indices are deterministic
        // rather than depending on which display happened to be seen first.
        self.fill_pool(home);
        let list = self.list(home);
        if list.len() > 0 {
            let default_index: usize = self.starting_index();
            let default_id = if default_index < list.len() {
                list[default_index]
            } else {
                list[0]
            };
            self.show_some(home, default_id);
        }
        assert(self@ == start.pool_ready(home));
        self.apply_display_assignment(window_store, visible);
        self.rehome_detached_workspaces(window_store, home, visible);
        self.ensure_every_display_owns_a_workspace(window_store, visible);
    }
}

} // verus!
