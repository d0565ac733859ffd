//! What a workspace store holds, and how its operations change it.
use crate::ids::SpaceId;
use crate::ids::VirtualWorkspaceId;
use crate::ids::WindowId;
use crate::layout::LayoutMode;
use crate::layout::LayoutSettings;
use crate::order::listing;
use crate::order::sorted;
use crate::selectors::Selection;
use crate::sequences::first_of;
use crate::settings::assignments_said;
use crate::settings::rules_said;
use crate::settings::texts;
use crate::settings::DisplayAssignment;
use crate::settings::LayoutRule;
use crate::settings::VirtualWorkspaceSettings;
use crate::settings::MAX_WORKSPACES;
use crate::text::decimal;
use crate::workspace::Failure;
use crate::workspace::WorkspaceState;
use vstd::prelude::*;

verus! {

/// The settings that a store goes by.
#[verifier::ext_equal]
pub struct StoreSettings {
    pub max_workspaces: nat,
    pub default_workspace_count: nat,
    pub workspace_names: Seq<Seq<char>>,
    pub default_workspace: nat,
    pub auto_back_and_forth: bool,
    pub prevent_wrapping: bool,
    pub layout_rules: Seq<LayoutRule>,
    pub layout_mode: LayoutMode,
    pub layout_settings: LayoutSettings,
    pub shared: bool,
    pub display_assignment: Seq<DisplayAssignment>,
}

/// What a workspace store holds.
#[verifier::ext_equal]
pub struct StoreState {
    /// The workspaces.
    pub entries: Map<VirtualWorkspaceId, WorkspaceState>,
    /// The identifiers of the workspaces to come.
    pub upcoming: Seq<VirtualWorkspaceId>,
    /// The workspaces listed under each space.
    pub by_space: Map<u64, Seq<VirtualWorkspaceId>>,
    /// The previous and the active workspace of each space.
    pub active: Map<u64, (Option<VirtualWorkspaceId>, VirtualWorkspaceId)>,
    /// The number in the name of the next workspace that has no other name.
    pub counter: nat,
    /// The workspace that was left last, on any space.
    pub last_global: Option<VirtualWorkspaceId>,
    pub settings: StoreSettings,
}

/// The lesser number.
pub open spec fn least(a: nat, b: nat) -> nat {
    if a <= b {
        a
    } else {
        b
    }
}

/// How many workspaces there are to be: at least one, at most `limit`.
pub open spec fn count_within(wanted: nat, limit: nat) -> nat {
    least(
        if wanted < 1 {
            1
        } else {
            wanted
        },
        limit,
    )
}

/// The difference, or nothing where `b` is greater.
pub open spec fn missing(a: nat, b: nat) -> nat {
    if a >= b {
        (a - b) as nat
    } else {
        0
    }
}

impl LayoutRule {
    /// The rule picks the workspace with this place and name.
    pub open spec fn picks(self, index: nat, name: Seq<char>) -> bool {
        match self.workspace {
            Selection::Index(picked) => picked == index,
            Selection::Name(picked) => picked == name,
        }
    }
}

/// The layout of the last rule that picks a workspace, or else the given one.
pub open spec fn ruled_mode(
    rules: Seq<LayoutRule>,
    index: nat,
    name: Seq<char>,
    otherwise: LayoutMode,
) -> LayoutMode
    decreases rules.len(),
{
    if rules.len() == 0 {
        otherwise
    } else if rules.last().picks(index, name) {
        rules.last().layout
    } else {
        ruled_mode(rules.drop_last(), index, name, otherwise)
    }
}

impl StoreSettings {
    /// The number of workspaces that the settings ask for.
    pub open spec fn target_count(self) -> nat {
        count_within(self.default_workspace_count, self.max_workspaces)
    }

    /// For how many of `count` places from `first` on the settings have no name.
    pub open spec fn unnamed(self, first: nat, count: nat) -> nat {
        missing(
            first + count,
            if first >= self.workspace_names.len() {
                first
            } else {
                self.workspace_names.len()
            },
        )
    }

    /// The layout mode of the workspace with this place and name.
    pub open spec fn mode_for(self, index: nat, name: Seq<char>) -> LayoutMode {
        ruled_mode(self.layout_rules, index, name, self.layout_mode)
    }

    /// A new workspace with this place and name.
    pub open spec fn fresh(self, space: SpaceId, index: nat, name: Seq<char>) -> WorkspaceState {
        WorkspaceState::created(name, space, self.mode_for(index, name), self.layout_settings)
    }

    /// The settings that a configuration gives.
    pub open spec fn given(
        config: VirtualWorkspaceSettings,
        layout_settings: LayoutSettings,
        max_workspaces: nat,
    ) -> Self {
        let target = count_within(config.default_workspace_count as nat, max_workspaces);
        StoreSettings {
            max_workspaces,
            default_workspace_count: config.default_workspace_count as nat,
            workspace_names: texts(config.workspace_names@),
            default_workspace: least(config.default_workspace as nat, (target - 1) as nat),
            auto_back_and_forth: config.workspace_auto_back_and_forth,
            prevent_wrapping: config.prevent_wrapping,
            layout_rules: rules_said(config.workspace_rules@),
            layout_mode: layout_settings.mode,
            layout_settings,
            shared: config.shared_across_displays,
            display_assignment: assignments_said(config.workspace_display_assignment@),
        }
    }
}

/// The name of a workspace that has no other: a number behind a word.
pub open spec fn numbered_name(number: nat) -> Seq<char> {
    "Workspace "@ + decimal(number)
}

/// Accepts the workspaces that a space has.
pub open spec fn owned_in(
    entries: Map<VirtualWorkspaceId, WorkspaceState>,
    space: SpaceId,
) -> spec_fn(VirtualWorkspaceId) -> bool {
    |id: VirtualWorkspaceId| entries.contains_key(id) && entries[id].space == space
}

/// Accepts the workspaces with a name.
pub open spec fn named_in(
    entries: Map<VirtualWorkspaceId, WorkspaceState>,
    name: Seq<char>,
) -> spec_fn(VirtualWorkspaceId) -> bool {
    |id: VirtualWorkspaceId| entries[id].name == name
}

/// The workspaces listed under a space.
pub open spec fn list_in(by_space: Map<u64, Seq<VirtualWorkspaceId>>, space: SpaceId) -> Seq<
    VirtualWorkspaceId,
> {
    match by_space.get(space.id) {
        Some(list) => list,
        None => Seq::empty(),
    }
}

/// Some space lists the workspace.
pub open spec fn listed_in(
    by_space: Map<u64, Seq<VirtualWorkspaceId>>,
    id: VirtualWorkspaceId,
) -> bool {
    exists|key: u64| by_space.contains_key(key) && (#[trigger] by_space[key]).contains(id)
}

/// The workspaces that some space lists.
pub open spec fn pool_of(
    entries: Map<VirtualWorkspaceId, WorkspaceState>,
    by_space: Map<u64, Seq<VirtualWorkspaceId>>,
) -> Set<VirtualWorkspaceId> {
    entries.dom().filter(|id: VirtualWorkspaceId| listed_in(by_space, id))
}

/// Accepts the workspaces in which a window was focused.
pub open spec fn with_focus(entries: Map<VirtualWorkspaceId, WorkspaceState>) -> spec_fn(
    VirtualWorkspaceId,
) -> bool {
    |id: VirtualWorkspaceId| entries[id].last_focused is Some
}

/// Workspaces with their spaces and the windows that were focused in them
/// last.
pub open spec fn focus_in(
    entries: Map<VirtualWorkspaceId, WorkspaceState>,
    ids: Seq<VirtualWorkspaceId>,
) -> Seq<(SpaceId, VirtualWorkspaceId, WindowId)> {
    ids.map_values(
        |id: VirtualWorkspaceId| (entries[id].space, id, entries[id].last_focused->0),
    )
}

/// Workspaces, each with its space.
pub open spec fn with_spaces(
    entries: Map<VirtualWorkspaceId, WorkspaceState>,
    ids: Seq<VirtualWorkspaceId>,
) -> Seq<(VirtualWorkspaceId, SpaceId)> {
    ids.map_values(|id: VirtualWorkspaceId| (id, entries[id].space))
}

impl StoreState {
    /// A store without workspaces.
    pub open spec fn empty(settings: StoreSettings) -> Self {
        StoreState {
            entries: Map::empty(),
            upcoming: crate::slots::initial_identifiers(),
            by_space: Map::empty(),
            active: Map::empty(),
            counter: 1,
            last_global: None,
            settings,
        }
    }

    // What the store says of workspaces and spaces.

    pub open spec fn space_of(self, id: VirtualWorkspaceId) -> Option<SpaceId> {
        if self.entries.contains_key(id) {
            Some(self.entries[id].space)
        } else {
            None
        }
    }

    /// The space has the workspace.
    pub open spec fn owns(self, space: SpaceId, id: VirtualWorkspaceId) -> bool {
        self.entries.contains_key(id) && self.entries[id].space == space
    }

    /// Accepts the workspaces that the space has.
    pub open spec fn owned_by(self, space: SpaceId) -> spec_fn(VirtualWorkspaceId) -> bool {
        owned_in(self.entries, space)
    }

    /// The workspaces listed under a space.
    pub open spec fn list_of(self, space: SpaceId) -> Seq<VirtualWorkspaceId> {
        list_in(self.by_space, space)
    }

    /// The workspaces of a space in the order of their identifiers.
    pub open spec fn owned_ids(self, space: SpaceId) -> Seq<VirtualWorkspaceId> {
        sorted(self.list_of(space).filter(self.owned_by(space)))
    }

    /// Some space lists the workspace.
    pub open spec fn listed(self, id: VirtualWorkspaceId) -> bool {
        listed_in(self.by_space, id)
    }

    /// The workspaces that some space lists.
    pub open spec fn pool(self) -> Set<VirtualWorkspaceId> {
        pool_of(self.entries, self.by_space)
    }

    /// The workspaces of all spaces in the order of their identifiers.
    pub open spec fn global_ids(self) -> Seq<VirtualWorkspaceId> {
        listing(self.pool())
    }

    /// The workspaces of a space, each with the space.
    pub open spec fn local_order(self, space: SpaceId) -> Seq<(VirtualWorkspaceId, SpaceId)> {
        self.owned_ids(space).map_values(|id: VirtualWorkspaceId| (id, space))
    }

    /// The workspaces of all spaces, each with its space.
    pub open spec fn global_order(self) -> Seq<(VirtualWorkspaceId, SpaceId)> {
        with_spaces(self.entries, self.global_ids())
    }

    pub open spec fn active_of(self, space: SpaceId) -> Option<VirtualWorkspaceId> {
        match self.active.get(space.id) {
            Some(pair) => Some(pair.1),
            None => None,
        }
    }

    pub open spec fn previous_of(self, space: SpaceId) -> Option<VirtualWorkspaceId> {
        match self.active.get(space.id) {
            Some(pair) => pair.0,
            None => None,
        }
    }

    /// The place of what a space shows: among all workspaces where displays
    /// share a pool, and else among those of the space.
    pub open spec fn active_number(self, space: SpaceId) -> Option<int> {
        match self.active_of(space) {
            Some(active) => (if self.settings.shared {
                self.global_ids()
            } else {
                self.owned_ids(space)
            }).index_of_first(active),
            None => None,
        }
    }

    /// The workspaces of a space and their names, in order.
    pub open spec fn names_listed(
        self,
        space: SpaceId,
        listed: Seq<(VirtualWorkspaceId, String)>,
    ) -> bool {
        &&& listed.len() == self.owned_ids(space).len()
        &&& forall|i: int|
            0 <= i < listed.len() ==> (#[trigger] listed[i]).0 == self.owned_ids(space)[i]
                && listed[i].1@ == self.entries[listed[i].0].name
    }

    /// The first of the given workspaces with the name.
    pub open spec fn first_named(
        self,
        ids: Seq<VirtualWorkspaceId>,
        name: Seq<char>,
    ) -> Option<VirtualWorkspaceId> {
        first_of(ids.filter(named_in(self.entries, name)))
    }

    /// The workspace of a selection among the given ones.
    pub open spec fn picked(
        self,
        ids: Seq<VirtualWorkspaceId>,
        selection: Selection,
    ) -> Option<VirtualWorkspaceId> {
        match selection {
            Selection::Index(index) => if index < ids.len() {
                Some(ids[index as int])
            } else {
                None
            },
            Selection::Name(name) => self.first_named(ids, name),
        }
    }

    /// Where each window was last focused: the spaces, the workspaces in the
    /// order of their identifiers, and the windows.
    pub open spec fn focus_locations(self) -> Seq<(SpaceId, VirtualWorkspaceId, WindowId)> {
        focus_in(
            self.entries,
            listing(self.entries.dom()).filter(with_focus(self.entries)),
        )
    }

    // Single changes.

    pub open spec fn with_list(self, space: SpaceId, list: Seq<VirtualWorkspaceId>) -> Self {
        StoreState { by_space: self.by_space.insert(space.id, list), ..self }
    }

    pub open spec fn with_entry(self, id: VirtualWorkspaceId, entry: WorkspaceState) -> Self {
        StoreState { entries: self.entries.insert(id, entry), ..self }
    }

    pub open spec fn with_active(
        self,
        space: SpaceId,
        previous: Option<VirtualWorkspaceId>,
        active: VirtualWorkspaceId,
    ) -> Self {
        StoreState { active: self.active.insert(space.id, (previous, active)), ..self }
    }

    /// The space shows `id` unless it shows a workspace already.
    pub open spec fn with_some_active(self, space: SpaceId, id: VirtualWorkspaceId) -> Self {
        if self.active.contains_key(space.id) {
            self
        } else {
            self.with_active(space, None, id)
        }
    }

    pub open spec fn without_active(self, space: SpaceId) -> Self {
        StoreState { active: self.active.remove(space.id), ..self }
    }

    pub open spec fn without_list(self, space: SpaceId) -> Self {
        StoreState { by_space: self.by_space.remove(space.id), ..self }
    }

    /// The store with one more workspace, listed under no space yet.
    pub open spec fn minted(self, entry: WorkspaceState) -> Self {
        StoreState {
            entries: self.entries.insert(self.upcoming[0], entry),
            upcoming: self.upcoming.drop_first(),
            ..self
        }
    }

    /// The store with one more workspace, listed last under its space.
    pub open spec fn added(self, entry: WorkspaceState) -> Self {
        self.minted(entry).with_list(entry.space, self.list_of(entry.space).push(self.upcoming[0]))
    }

    /// The store after a workspace was named by number, if it was.
    pub open spec fn counted(self, by_number: bool) -> Self {
        StoreState {
            counter: if by_number {
                self.counter + 1
            } else {
                self.counter
            },
            ..self
        }
    }

    // Workspaces from the settings.

    /// The name that the settings give the workspace with this place, or a
    /// numbered one.
    pub open spec fn default_name(self, index: nat) -> Seq<char> {
        if index < self.settings.workspace_names.len() {
            self.settings.workspace_names[index as int]
        } else {
            numbered_name(self.counter)
        }
    }

    /// One more workspace with the settings' name for this place.
    pub open spec fn pushed(self, space: SpaceId, index: nat) -> Self {
        self.added(self.settings.fresh(space, index, self.default_name(index))).counted(
            index >= self.settings.workspace_names.len(),
        )
    }

    /// `count` more workspaces with the settings' names for the places from
    /// `first` on.
    pub open spec fn pushed_from(self, space: SpaceId, first: nat, count: nat) -> Self
        decreases count,
    {
        if count == 0 {
            self
        } else {
            self.pushed_from(space, first, (count - 1) as nat).pushed(
                space,
                (first + count - 1) as nat,
            )
        }
    }

    /// As many more workspaces on `home` as the settings ask for in all.
    pub open spec fn pool_filled(self, home: SpaceId) -> Self {
        self.pushed_from(home, self.global_ids().len(), self.pool_shortfall())
    }

    /// How many workspaces there are fewer than the settings ask for in all.
    pub open spec fn pool_shortfall(self) -> nat {
        missing(self.settings.target_count(), self.global_ids().len())
    }

    /// The name of the workspace with this place in a new space.
    pub open spec fn starting_name(self, index: nat) -> Seq<char> {
        if index < self.settings.workspace_names.len() {
            self.settings.workspace_names[index as int]
        } else {
            numbered_name(index + 1)
        }
    }

    /// The first `count` workspaces of a new space, not listed yet.
    pub open spec fn started(self, space: SpaceId, count: nat) -> Self
        decreases count,
    {
        if count == 0 {
            self
        } else {
            let index = (count - 1) as nat;
            self.started(space, index).minted(
                self.settings.fresh(space, index, self.starting_name(index)),
            )
        }
    }

    /// The store has an entry for the space. A new space gets its own
    /// workspaces and shows the default one; where all displays share one pool
    /// that exists, it gets an empty list.
    pub open spec fn initialized(self, space: SpaceId) -> Self {
        let count = self.settings.target_count();
        if self.by_space.contains_key(space.id) {
            self
        } else if self.settings.shared && !self.entries.dom().is_empty() {
            self.with_list(space, Seq::empty())
        } else {
            let ids = self.upcoming.take(count as int);
            self.started(space, count).with_list(space, ids).with_active(
                space,
                None,
                ids[least(self.settings.default_workspace, (count - 1) as nat) as int],
            )
        }
    }

    /// Making an entry for the space finds room for its workspaces.
    pub open spec fn can_initialize(self, space: SpaceId) -> bool {
        self.by_space.contains_key(space.id) || (self.settings.shared
            && !self.entries.dom().is_empty()) || (self.settings.max_workspaces > 0
            && self.upcoming.len() >= self.settings.target_count())
    }

    // A change of settings.

    /// Every list in the order of identifiers.
    pub open spec fn lists_sorted(self) -> Self {
        StoreState {
            by_space: self.by_space.map_values(|list: Seq<VirtualWorkspaceId>| sorted(list)),
            ..self
        }
    }

    /// The first `count` of the given workspaces under the settings' names for
    /// their places.
    pub open spec fn renamed(self, ids: Seq<VirtualWorkspaceId>, count: nat) -> Self
        decreases count,
    {
        if count == 0 {
            self
        } else {
            let index = count - 1;
            let before = self.renamed(ids, index as nat);
            if index < self.settings.workspace_names.len() && before.entries.contains_key(
                ids[index],
            ) {
                before.with_entry(
                    ids[index],
                    before.entries[ids[index]].named(self.settings.workspace_names[index]),
                )
            } else {
                before
            }
        }
    }

    /// How many workspaces the space lists fewer than the settings ask for.
    pub open spec fn space_shortfall(self, space: SpaceId) -> nat {
        missing(self.settings.target_count(), self.list_of(space).len())
    }

    /// The space with the settings' names and count of workspaces.
    pub open spec fn space_settled(self, space: SpaceId) -> Self {
        self.renamed(self.list_of(space), self.list_of(space).len()).pushed_from(
            space,
            self.list_of(space).len(),
            self.space_shortfall(space),
        )
    }

    /// The given spaces with the settings' names and count of workspaces, one
    /// after the other.
    pub open spec fn spaces_settled(self, keys: Seq<u64>) -> Self
        decreases keys.len(),
    {
        if keys.len() == 0 {
            self
        } else {
            self.spaces_settled(keys.drop_last()).space_settled(SpaceId { id: keys.last() })
        }
    }

    /// How many workspaces the given spaces list fewer than the settings ask
    /// for.
    pub open spec fn spaces_shortfall(self, keys: Seq<u64>) -> nat
        decreases keys.len(),
    {
        if keys.len() == 0 {
            0
        } else {
            self.spaces_shortfall(keys.drop_last()) + self.space_shortfall(
                SpaceId { id: keys.last() },
            )
        }
    }

    /// How many of the workspaces that the given spaces lack have no name in the
    /// settings.
    pub open spec fn spaces_unnamed(self, keys: Seq<u64>) -> nat
        decreases keys.len(),
    {
        if keys.len() == 0 {
            0
        } else {
            let space = SpaceId { id: keys.last() };
            self.spaces_unnamed(keys.drop_last()) + self.settings.unnamed(
                self.list_of(space).len(),
                self.space_shortfall(space),
            )
        }
    }

    /// The store under new settings, before it has as many workspaces as they
    /// ask for.
    pub open spec fn under(
        self,
        config: VirtualWorkspaceSettings,
        layout_settings: LayoutSettings,
    ) -> Self {
        let max_workspaces = if self.settings.max_workspaces == 0 {
            MAX_WORKSPACES as nat
        } else {
            self.settings.max_workspaces
        };
        StoreState {
            settings: StoreSettings::given(config, layout_settings, max_workspaces),
            ..self
        }.lists_sorted()
    }

    /// The store with the names and counts of workspaces that its settings ask
    /// for: of the pool where displays share one, and else of each space.
    pub open spec fn settled(self) -> Self {
        let keys = listing(self.by_space.dom());
        if self.settings.shared {
            if keys.len() == 0 {
                self
            } else {
                let filled = self.pool_filled(SpaceId { id: keys[0] });
                filled.renamed(filled.global_ids(), filled.global_ids().len())
            }
        } else {
            self.spaces_settled(keys)
        }
    }

    /// How many workspaces there are fewer than the settings ask for.
    pub open spec fn shortfall(self) -> nat {
        if self.settings.shared {
            if self.by_space.dom().is_empty() {
                0
            } else {
                self.pool_shortfall()
            }
        } else {
            self.spaces_shortfall(listing(self.by_space.dom()))
        }
    }

    // New workspaces on demand.

    /// How many workspaces count towards the limit: those of the pool where
    /// displays share one, and else those of the space.
    pub open spec fn occupied(self, space: SpaceId) -> nat {
        if self.settings.shared {
            self.global_ids().len()
        } else {
            self.list_of(space).len()
        }
    }

    /// What is said where a space can have no more workspaces.
    pub open spec fn limit_text(self, space: SpaceId) -> Seq<char> {
        "Maximum workspace limit ("@ + decimal(self.settings.max_workspaces)
            + ") reached for space "@ + space.spelled()
    }

    /// The result of asking for a workspace on a space that has an entry.
    pub open spec fn creation(self, space: SpaceId) -> Result<VirtualWorkspaceId, Failure> {
        if self.occupied(space) >= self.settings.max_workspaces {
            Err(Failure::InconsistentState(self.limit_text(space)))
        } else {
            Ok(self.upcoming[0])
        }
    }

    /// The store with a new workspace on a space that has an entry.
    pub open spec fn with_new(self, space: SpaceId, name: Option<Seq<char>>) -> Self {
        let index = self.occupied(space);
        if index >= self.settings.max_workspaces {
            self
        } else {
            let given = match name {
                Some(name) => name,
                None => numbered_name(self.counter),
            };
            self.added(self.settings.fresh(space, index, given)).counted(name is None)
        }
    }

    // Focus.

    /// Every workspace with the focus that `f` makes of its own.
    pub open spec fn refocused(
        self,
        f: spec_fn(VirtualWorkspaceId, Option<WindowId>) -> Option<WindowId>,
    ) -> Self {
        StoreState {
            entries: self.entries.map_entries(
                |id: VirtualWorkspaceId, entry: WorkspaceState|
                    entry.focused_last(f(id, entry.last_focused)),
            ),
            ..self
        }
    }

    /// One window takes the place of another wherever that was focused last,
    /// and loses its own places.
    pub open spec fn identity_passed(self, from: WindowId, to: WindowId) -> Self {
        if from == to {
            self
        } else {
            self.refocused(
                |id: VirtualWorkspaceId, last: Option<WindowId>|
                    if last == Some(from) {
                        Some(to)
                    } else if last == Some(to) {
                        None
                    } else {
                        last
                    },
            )
        }
    }

    /// No workspace remembers the window.
    pub open spec fn forgotten(self, window: WindowId) -> Self {
        self.refocused(
            |id: VirtualWorkspaceId, last: Option<WindowId>|
                if last == Some(window) {
                    None
                } else {
                    last
                },
        )
    }

    /// No workspace but one remembers the window.
    pub open spec fn remembered_only_in(self, window: WindowId, keep: VirtualWorkspaceId) -> Self {
        self.refocused(
            |id: VirtualWorkspaceId, last: Option<WindowId>|
                if id != keep && last == Some(window) {
                    None
                } else {
                    last
                },
        )
    }

    // Active workspaces.

    /// The space shows one of its workspaces.
    pub open spec fn activated(self, space: SpaceId, id: VirtualWorkspaceId) -> Self {
        let left = self.active_of(space);
        if self.owns(space, id) {
            StoreState {
                last_global: if left is Some && left != Some(id) {
                    left
                } else {
                    self.last_global
                },
                ..self.with_active(space, left, id)
            }
        } else {
            self
        }
    }

    /// The workspace for windows that have no other, on a space that has an
    /// entry: the active one, or else the first.
    pub open spec fn default_on(self, space: SpaceId) -> Result<VirtualWorkspaceId, Failure> {
        match self.active_of(space) {
            Some(id) if self.entries.contains_key(id) => Ok(id),
            _ => if self.owned_ids(space).len() > 0 {
                Ok(self.owned_ids(space)[0])
            } else {
                Err(Failure::InconsistentState("No workspaces for space"@))
            },
        }
    }

    /// The store after the workspace for windows that have no other was looked
    /// up: the space shows it, and shows none that does not exist.
    pub open spec fn default_shown(self, space: SpaceId) -> Self {
        match self.active_of(space) {
            Some(id) if self.entries.contains_key(id) => self,
            _ => if self.owned_ids(space).len() > 0 {
                self.without_active(space).activated(space, self.owned_ids(space)[0])
            } else {
                self.without_active(space)
            },
        }
    }
}

} // verus!
