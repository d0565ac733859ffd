//! A workspace store together with the windows, and how operations on both
//! change them.
use crate::app_rules::AppRuleEffects;
use crate::app_rules::AppRuleRejection;
use crate::app_rules::AppRuleResult;
use crate::app_rules::RuleDecision;
use crate::ids::SpaceId;
use crate::ids::VirtualWorkspaceId;
use crate::ids::WindowId;
use crate::order::listing;
use crate::order::sorted;
use crate::selectors::DisplaySelection;
use crate::selectors::Selection;
use crate::sequences::first_of;
use crate::settings::DisplayAssignment;
use crate::state::StoreState;
use crate::windows::WindowState;
use crate::windows::WindowWorkspaceInfo;
use crate::workspace::Failure;
use vstd::prelude::*;

verus! {

/// A display: the space that it shows, and its UUID where that is known.
pub type DisplayState = (SpaceId, Option<Seq<char>>);

/// A workspace store and the windows.
#[verifier::ext_equal]
pub struct Desktop {
    pub store: StoreState,
    pub windows: WindowState,
}

/// What a store and the windows hold together.
pub open spec fn desktop(
    store: crate::store::WorkspaceStore,
    windows: crate::windows::WindowStore,
) -> Desktop {
    Desktop { store: store@, windows: windows@ }
}

/// What is known of the displays.
pub open spec fn displays_seen(visible: Seq<(SpaceId, Option<String>)>) -> Seq<DisplayState> {
    visible.map_values(
        |display: (SpaceId, Option<String>)|
            (
                display.0,
                match display.1 {
                    Some(uuid) => Some(uuid@),
                    None => None,
                },
            ),
    )
}

/// Accepts the display with a UUID.
pub open spec fn with_uuid(uuid: Seq<char>) -> spec_fn(DisplayState) -> bool {
    |display: DisplayState| display.1 == Some(uuid)
}

/// Accepts every workspace but one.
pub open spec fn not_workspace(id: VirtualWorkspaceId) -> spec_fn(VirtualWorkspaceId) -> bool {
    |other: VirtualWorkspaceId| other != id
}

/// Accepts every workspace but the active one.
pub open spec fn not_shown(active: Option<VirtualWorkspaceId>) -> spec_fn(
    VirtualWorkspaceId,
) -> bool {
    |id: VirtualWorkspaceId| active != Some(id)
}

/// Accepts the windows with a number.
pub open spec fn numbered_window(idx: u32) -> spec_fn(WindowId) -> bool {
    |window: WindowId| window.idx == idx
}

/// Some display shows the space.
pub open spec fn shown_on(visible: Seq<DisplayState>, key: u64) -> bool {
    exists|i: int| 0 <= i < visible.len() && (#[trigger] visible[i]).0.id == key
}

/// Accepts the spaces that no display shows.
pub open spec fn hidden_from(visible: Seq<DisplayState>) -> spec_fn(u64) -> bool {
    |key: u64| !shown_on(visible, key)
}

/// The space of the display that a selection names. A direction or a cycle
/// names none: it has no stable owner.
pub open spec fn display_picked(visible: Seq<DisplayState>, selection: DisplaySelection) -> Option<
    SpaceId,
> {
    match selection {
        DisplaySelection::Index(index) => if index < visible.len() {
            Some(visible[index as int].0)
        } else {
            None
        },
        DisplaySelection::Uuid(uuid) => {
            match first_of(visible.filter(with_uuid(uuid))) {
                Some(display) => Some(display.0),
                None => None,
            }
        },
        DisplaySelection::Direction(_) => None,
        DisplaySelection::Cycle(_) => None,
    }
}

impl StoreState {
    // Moving a workspace to another space.

    /// The lists after a workspace left one space for another.
    pub open spec fn relisted(
        self,
        id: VirtualWorkspaceId,
        old_space: SpaceId,
        new_space: SpaceId,
    ) -> Self {
        let left = if self.by_space.contains_key(old_space.id) {
            self.with_list(old_space, self.list_of(old_space).filter(not_workspace(id)))
        } else {
            self
        };
        let list = left.list_of(new_space);
        left.with_list(
            new_space,
            if list.contains(id) {
                list
            } else {
                sorted(list.push(id))
            },
        )
    }

    /// What a space shows after a workspace left it: never that workspace.
    pub open spec fn source_repaired(self, space: SpaceId, moved: VirtualWorkspaceId) -> Self {
        let ids = self.owned_ids(space);
        match self.active.get(space.id) {
            Some((previous, active)) => {
                let kept = if previous == Some(moved) {
                    None
                } else {
                    previous
                };
                if active != moved {
                    self.with_active(space, kept, active)
                } else if ids.len() > 0 {
                    self.with_active(space, kept, ids[0])
                } else {
                    self.without_active(space)
                }
            },
            None => if ids.len() > 0 {
                self.with_active(space, None, ids[0])
            } else {
                self
            },
        }
    }

    /// The store after a workspace moved to another space.
    pub open spec fn relocated(self, id: VirtualWorkspaceId, new_space: SpaceId) -> Self {
        match self.space_of(id) {
            Some(old_space) if old_space != new_space => self.relisted(
                id,
                old_space,
                new_space,
            ).with_entry(id, self.entries[id].on_space(new_space)).source_repaired(
                old_space,
                id,
            ).with_some_active(new_space, id),
            _ => self,
        }
    }

    /// The space lists more than one workspace and is another than `space`.
    pub open spec fn can_give(self, space: SpaceId, key: u64) -> bool {
        key != space.id && self.by_space.contains_key(key) && self.by_space[key].len() > 1
    }

    /// Of the spaces that can give a workspace to `space`, the one that lists
    /// most, and the last of several such.
    pub open spec fn is_donor(self, space: SpaceId, key: u64) -> bool {
        &&& self.can_give(space, key)
        &&& forall|other: u64| #[trigger]
            self.can_give(space, other) ==> self.comes_before(other, key)
    }

    /// A space lists fewer workspaces than another, or as many and has no
    /// greater number.
    pub open spec fn comes_before(self, other: u64, key: u64) -> bool {
        self.by_space[other].len() < self.by_space[key].len() || (self.by_space[other].len()
            == self.by_space[key].len() && other <= key)
    }

    pub open spec fn donor(self, space: SpaceId) -> Option<SpaceId> {
        if exists|key: u64| self.is_donor(space, key) {
            Some(SpaceId { id: choose|key: u64| self.is_donor(space, key) })
        } else {
            None
        }
    }

    /// The last workspace of a space that the space does not show.
    pub open spec fn spare(self, space: SpaceId) -> Option<VirtualWorkspaceId> {
        let ids = self.owned_ids(space).filter(not_shown(self.active_of(space)));
        if ids.len() > 0 {
            Some(ids.last())
        } else {
            None
        }
    }

    /// The workspace that `space` gets where it has none.
    pub open spec fn given_to(self, space: SpaceId) -> Option<VirtualWorkspaceId> {
        match self.donor(space) {
            Some(donor) => self.spare(donor),
            None => None,
        }
    }

    /// The default workspace of a space, or else its first, as it lists them.
    pub open spec fn default_listed(self, space: SpaceId) -> VirtualWorkspaceId {
        let list = self.list_of(space);
        if self.settings.default_workspace < list.len() {
            list[self.settings.default_workspace as int]
        } else {
            list[0]
        }
    }

    /// The pool is filled up and its home shows a workspace, if it lists one.
    pub open spec fn pool_ready(self, home: SpaceId) -> Self {
        let filled = self.pool_filled(home);
        if filled.list_of(home).len() > 0 {
            filled.with_some_active(home, filled.default_listed(home))
        } else {
            filled
        }
    }

    // Taking over the workspaces of another space.

    /// The store without those of the given workspaces that the space has.
    pub open spec fn discarded(self, ids: Seq<VirtualWorkspaceId>, space: SpaceId) -> Self {
        StoreState {
            entries: self.entries.remove_keys(
                Set::new(|id: VirtualWorkspaceId| ids.contains(id) && self.owns(space, id)),
            ),
            ..self
        }
    }

    /// The given workspaces on a space.
    pub open spec fn transferred(self, ids: Seq<VirtualWorkspaceId>, space: SpaceId) -> Self {
        StoreState {
            entries: self.entries.map_entries(
                |id: VirtualWorkspaceId, entry: crate::workspace::WorkspaceState|
                    if ids.contains(id) {
                        entry.on_space(space)
                    } else {
                        entry
                    },
            ),
            ..self
        }
    }

    /// One space takes over all that another had, and loses what it had.
    pub open spec fn remapped(self, old_space: SpaceId, new_space: SpaceId) -> Self {
        if old_space == new_space || !self.by_space.contains_key(old_space.id) {
            self
        } else {
            let target = self.list_of(new_space);
            let ids = self.list_of(old_space);
            let cleared = self.discarded(target, new_space).without_list(
                new_space,
            ).without_active(new_space);
            let taken = cleared.transferred(ids, new_space).without_list(old_space);
            let relisted = if ids.len() > 0 {
                taken.with_list(new_space, ids)
            } else {
                taken
            };
            match self.active.get(old_space.id) {
                Some((previous, active)) => relisted.without_active(old_space).with_active(
                    new_space,
                    previous,
                    active,
                ),
                None => relisted,
            }
        }
    }

    /// The workspaces that go when one space takes over what another had.
    pub open spec fn lost_to_remap(self, new_space: SpaceId) -> spec_fn(
        VirtualWorkspaceId,
    ) -> bool {
        |id: VirtualWorkspaceId| self.list_of(new_space).contains(id) && self.owns(new_space, id)
    }

    // Windows and workspaces.

    /// The windows of a workspace, where the space has it.
    pub open spec fn windows_shown(
        self,
        windows: WindowState,
        space: SpaceId,
        id: VirtualWorkspaceId,
    ) -> Seq<WindowId> {
        if self.owns(space, id) {
            windows.windows_in(space, id)
        } else {
            Seq::empty()
        }
    }

    /// The windows of the given workspaces of a space.
    pub open spec fn windows_of_all(
        self,
        windows: WindowState,
        space: SpaceId,
        ids: Seq<VirtualWorkspaceId>,
    ) -> Seq<WindowId>
        decreases ids.len(),
    {
        if ids.len() == 0 {
            Seq::empty()
        } else {
            self.windows_of_all(windows, space, ids.drop_last()) + windows.windows_in(
                space,
                ids.last(),
            )
        }
    }

    /// Accepts the workspaces of a space that it does not show.
    pub open spec fn inactive_on(self, space: SpaceId) -> spec_fn(VirtualWorkspaceId) -> bool {
        |id: VirtualWorkspaceId| self.owns(space, id) && self.active_of(space) != Some(id)
    }

    /// The window was last focused in the workspace that it had, and leaves it.
    pub open spec fn focus_left(
        self,
        window: WindowId,
        info: Option<WindowWorkspaceInfo>,
        id: VirtualWorkspaceId,
    ) -> Self {
        match info {
            Some(info) if info.workspace_id != id && self.owns(info.space, info.workspace_id)
                && self.entries[info.workspace_id].last_focused == Some(window) => self.with_entry(
                info.workspace_id,
                self.entries[info.workspace_id].focused_last(None),
            ),
            _ => self,
        }
    }
}

impl StoreState {
    // App rules.

    /// The workspace that a rule selects, if the space has it.
    pub open spec fn rule_selected(self, space: SpaceId, selection: Selection) -> Option<
        VirtualWorkspaceId,
    > {
        if self.settings.shared {
            match self.picked(self.global_ids(), selection) {
                Some(id) if self.entries[id].space == space => Some(id),
                _ => None,
            }
        } else {
            self.picked(self.owned_ids(space), selection)
        }
    }

    /// The workspace of a window that a rule selects or that it has, if any.
    pub open spec fn rule_preferred(
        self,
        space: SpaceId,
        selection: Option<Selection>,
        had: Option<VirtualWorkspaceId>,
        preserve: bool,
    ) -> Option<VirtualWorkspaceId> {
        let selected = match selection {
            Some(selection) => self.rule_selected(space, selection),
            None => None,
        };
        if had is Some && (preserve || selected is None) {
            had
        } else {
            selected
        }
    }

    /// Choosing the workspace of a window makes an entry for the space: where
    /// the space's own workspaces are looked at, and where none is preferred.
    pub open spec fn resolution_initializes(
        self,
        space: SpaceId,
        selection: Option<Selection>,
        had: Option<VirtualWorkspaceId>,
        preserve: bool,
    ) -> bool {
        (selection is Some && !self.settings.shared) || self.rule_preferred(
            space,
            selection,
            had,
            preserve,
        ) is None
    }

    /// The workspace of a window, the preferred one or else the default one,
    /// and the store after it was chosen. The space gets an entry where its
    /// own workspaces are looked at.
    pub open spec fn rule_resolution(
        self,
        space: SpaceId,
        selection: Option<Selection>,
        had: Option<VirtualWorkspaceId>,
        preserve: bool,
    ) -> (StoreState, Result<VirtualWorkspaceId, Failure>) {
        let looked_up = if selection is Some && !self.settings.shared {
            self.initialized(space)
        } else {
            self
        };
        match looked_up.rule_preferred(space, selection, had, preserve) {
            Some(id) => (looked_up, Ok(id)),
            None => {
                let ready = looked_up.initialized(space);
                (ready.default_shown(space), ready.default_on(space))
            },
        }
    }
}

impl WindowState {
    /// The window is to be managed: as a rule says, or else as it looks. One
    /// that was not seen yet is managed unless a rule says otherwise.
    pub open spec fn admits(self, window: WindowId, rule_override: Option<bool>) -> bool {
        let admission = match self.records.get(window) {
            Some(record) => record.admission(rule_override),
            None => None,
        };
        match admission {
            Some(admitted) => admitted,
            None => rule_override != Some(false),
        }
    }
}

impl Desktop {
    /// A workspace moves to another space, and its windows with it.
    pub open spec fn relocated(self, id: VirtualWorkspaceId, new_space: SpaceId) -> Self {
        Desktop {
            store: self.store.relocated(id, new_space),
            windows: match self.store.space_of(id) {
                Some(old_space) if old_space != new_space => self.windows.moved(
                    WindowWorkspaceInfo { space: old_space, workspace_id: id },
                    WindowWorkspaceInfo { space: new_space, workspace_id: id },
                ),
                _ => self.windows,
            },
        }
    }

    /// The given workspaces move to a space, one after the other.
    pub open spec fn all_relocated(self, ids: Seq<VirtualWorkspaceId>, space: SpaceId) -> Self
        decreases ids.len(),
    {
        if ids.len() == 0 {
            self
        } else {
            self.all_relocated(ids.drop_last(), space).relocated(ids.last(), space)
        }
    }

    /// A workspace moves to the display that is to own it.
    pub open spec fn assignment_applied(
        self,
        assignment: DisplayAssignment,
        visible: Seq<DisplayState>,
    ) -> Self {
        match (
            self.store.picked(self.store.global_ids(), assignment.workspace),
            display_picked(visible, assignment.display),
        ) {
            (Some(id), Some(space)) => self.relocated(id, space),
            _ => self,
        }
    }

    pub open spec fn assignments_applied(
        self,
        assignments: Seq<DisplayAssignment>,
        visible: Seq<DisplayState>,
    ) -> Self
        decreases assignments.len(),
    {
        if assignments.len() == 0 {
            self
        } else {
            self.assignments_applied(assignments.drop_last(), visible).assignment_applied(
                assignments.last(),
                visible,
            )
        }
    }

    /// A space gives all that it has to another and is forgotten.
    pub open spec fn vacated(self, key: u64, home: SpaceId) -> Self {
        let space = SpaceId { id: key };
        let moved = self.all_relocated(self.store.owned_ids(space), home);
        Desktop { store: moved.store.without_list(space).without_active(space), ..moved }
    }

    pub open spec fn all_vacated(self, keys: Seq<u64>, home: SpaceId) -> Self
        decreases keys.len(),
    {
        if keys.len() == 0 {
            self
        } else {
            self.all_vacated(keys.drop_last(), home).vacated(keys.last(), home)
        }
    }

    /// The workspaces of spaces that no display shows are on `home`.
    pub open spec fn rehomed(self, home: SpaceId, visible: Seq<DisplayState>) -> Self {
        self.all_vacated(listing(self.store.by_space.dom()).filter(hidden_from(visible)), home)
    }

    /// The space shows a workspace, if it has one or can be given one.
    pub open spec fn supplied(self, space: SpaceId) -> Self {
        if self.store.owned_ids(space).len() > 0 {
            Desktop {
                store: self.store.with_some_active(space, self.store.list_of(space)[0]),
                ..self
            }
        } else {
            match self.store.given_to(space) {
                Some(id) => self.relocated(id, space),
                None => self,
            }
        }
    }

    pub open spec fn all_supplied(self, visible: Seq<DisplayState>) -> Self
        decreases visible.len(),
    {
        if visible.len() == 0 {
            self
        } else {
            self.all_supplied(visible.drop_last()).supplied(visible.last().0)
        }
    }

    /// The shared pool reconciled with the displays.
    pub open spec fn arranged(self, visible: Seq<DisplayState>) -> Self {
        if !self.store.settings.shared || visible.len() == 0 {
            self
        } else {
            let home = visible[0].0;
            Desktop {
                store: self.store.pool_ready(home),
                ..self
            }.assignments_applied(self.store.settings.display_assignment, visible).rehomed(
                home,
                visible,
            ).all_supplied(visible)
        }
    }

    /// One space takes over all that another had: workspaces and windows.
    pub open spec fn remapped(self, old_space: SpaceId, new_space: SpaceId) -> Self {
        if old_space == new_space || !self.store.by_space.contains_key(old_space.id) {
            self
        } else {
            Desktop {
                store: self.store.remapped(old_space, new_space),
                windows: self.windows.dropped(
                    self.store.lost_to_remap(new_space),
                ).on_other_space(old_space, new_space),
            }
        }
    }

    // Windows.

    /// Accepts the windows on a space with a number.
    pub open spec fn numbered_on(self, space: SpaceId, idx: u32) -> spec_fn(WindowId) -> bool {
        |window: WindowId|
            self.windows.assignments.values[window].space == space && window.idx == idx
    }

    /// The window is in what the space shows, or not on the space at all, or
    /// the space shows nothing.
    pub open spec fn passes_as_shown(self, space: SpaceId, window: WindowId) -> bool {
        match (self.store.active_of(space), self.windows.info_of(window)) {
            (Some(active), Some(info)) => info.space == space ==> info.workspace_id == active,
            _ => true,
        }
    }

    /// A window is assigned to a workspace of the space, if the space has it.
    pub open spec fn assigned(self, space: SpaceId, window: WindowId, id: VirtualWorkspaceId) -> Self {
        if self.store.owns(space, id) {
            Desktop {
                store: self.store.focus_left(window, self.windows.info_of(window), id),
                windows: self.windows.assigned(
                    window,
                    WindowWorkspaceInfo { space, workspace_id: id },
                ),
            }
        } else {
            self
        }
    }

    /// The workspace on `space` that has the place which the window's
    /// workspace has on its own space, or the active one where displays share
    /// a pool.
    pub open spec fn counterpart(self, space: SpaceId, window: WindowId) -> Option<
        VirtualWorkspaceId,
    > {
        match self.windows.info_of(window) {
            Some(info) => if info.space == space {
                Some(info.workspace_id)
            } else if self.store.settings.shared {
                self.store.active_of(space)
            } else {
                match self.store.owned_ids(info.space).index_of_first(info.workspace_id) {
                    Some(place) if place < self.store.owned_ids(space).len() => Some(
                        self.store.owned_ids(space)[place],
                    ),
                    _ => None,
                }
            },
            None => None,
        }
    }

    /// A window moves to its counterpart workspace on a space that has an
    /// entry, if there is one.
    pub open spec fn moved_to_counterpart(self, space: SpaceId, window: WindowId) -> Self {
        match (self.windows.info_of(window), self.counterpart(space, window)) {
            (Some(info), Some(id)) if info.space != space => self.assigned(space, window, id),
            _ => self,
        }
    }

    /// The workspace that moving a window to its counterpart gives.
    pub open spec fn counterpart_reached(self, space: SpaceId, window: WindowId) -> Option<
        VirtualWorkspaceId,
    > {
        match (self.windows.info_of(window), self.counterpart(space, window)) {
            (Some(info), Some(id)) if info.space == space || self.store.owns(space, id) => Some(id),
            _ => None,
        }
    }

    /// A window goes to the default workspace of a space that has an entry.
    pub open spec fn auto_assigned(self, space: SpaceId, window: WindowId) -> Self {
        let shown = Desktop { store: self.store.default_shown(space), ..self };
        match self.store.default_on(space) {
            Ok(id) if self.store.owns(space, id) => {
                let assigned = shown.assigned(space, window, id);
                Desktop { windows: assigned.windows.floating(window, false), ..assigned }
            },
            _ => shown,
        }
    }

    pub open spec fn auto_assignment(self, space: SpaceId) -> Result<VirtualWorkspaceId, Failure> {
        match self.store.default_on(space) {
            Ok(id) if !self.store.owns(space, id) => Err(Failure::AssignmentFailed),
            result => result,
        }
    }

    // App rules.

    /// What becomes of a window under the rules, on a space that has an entry.
    /// A window keeps the workspace that it has there if `preserve` says so or
    /// no rule selects another.
    pub open spec fn ruling(
        self,
        window: WindowId,
        space: SpaceId,
        decision: RuleDecision,
        preserve: bool,
    ) -> (Desktop, Result<AppRuleResult, Failure>) {
        let had = match self.windows.info_of(window) {
            Some(info) if info.space == space => Some(info.workspace_id),
            _ => None,
        };
        let noted = Desktop { windows: self.windows.overridden(window, decision.manage), ..self };
        if self.store.list_of(space).len() == 0 {
            (self, Err(Failure::NoWorkspacesAvailable))
        } else if !self.windows.admits(window, decision.manage) {
            (
                Desktop { windows: noted.windows.floating(window, false), ..noted },
                Ok(
                    AppRuleResult::Rejected(
                        if decision.manage == Some(false) {
                            AppRuleRejection::ExplicitRule
                        } else {
                            AppRuleRejection::Heuristic
                        },
                    ),
                ),
            )
        } else {
            let (store, choice) = self.store.rule_resolution(
                space,
                decision.workspace,
                had,
                preserve,
            );
            let chosen = Desktop { store, ..noted };
            match choice {
                Err(failure) => (chosen, Err(failure)),
                Ok(id) => if had != Some(id) && !chosen.store.owns(space, id) {
                    (chosen, Err(Failure::AssignmentFailed))
                } else {
                    let placed = if had == Some(id) {
                        chosen
                    } else {
                        chosen.assigned(space, window, id)
                    };
                    (
                        Desktop {
                            windows: placed.windows.floating(window, decision.floating),
                            ..placed
                        },
                        Ok(
                            AppRuleResult::Managed(
                                AppRuleEffects {
                                    workspace_id: id,
                                    floating: decision.floating,
                                    position: decision.position,
                                    size: decision.size,
                                    focus: decision.focus,
                                    was_rule_floating: self.windows.rule_floating.contains(window),
                                },
                            ),
                        ),
                    )
                },
            }
        }
    }
}

} // verus!
