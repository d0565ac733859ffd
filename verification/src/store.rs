//! The workspace store: its fields, what they hold, and single reads and
//! writes of them.
use crate::ids::SpaceId;
use crate::ids::VirtualWorkspaceId;
use crate::ids::WindowId;
use crate::layout::LayoutMode;
use crate::layout::LayoutSettings;
use crate::order::listing;
use crate::order::lists;
use crate::order::sorted_keys;
use crate::settings::assignments_said;
use crate::settings::rules_said;
use crate::settings::texts;
use crate::settings::VirtualWorkspaceSettings;
use crate::settings::WorkspaceDisplayAssignment;
use crate::settings::WorkspaceLayoutRule;
use crate::settings::MAX_WORKSPACES;
use crate::state::StoreSettings;
use crate::state::StoreState;
use crate::table::WorkspaceTable;
use crate::workspace::VirtualWorkspace;
use std::collections::HashMap;
use vstd::prelude::*;

verus! {

broadcast use vstd::std_specs::hash::group_hash_axioms;

/// Owns the virtual workspace topology for each native space.
///
/// Which window belongs to which workspace is not kept here but in
/// `WindowStore` alone. Spaces stand in the maps under their numbers.
#[derive(Debug)]
pub struct WorkspaceStore {
    pub workspaces: WorkspaceTable,
    pub workspaces_by_space: HashMap<u64, Vec<VirtualWorkspaceId>>,
    pub active_workspace_per_space: HashMap<u64, (Option<VirtualWorkspaceId>, VirtualWorkspaceId)>,
    pub workspace_counter: usize,
    pub max_workspaces: usize,
    pub default_workspace_count: usize,
    pub default_workspace_names: Vec<String>,
    pub default_workspace: usize,
    pub workspace_auto_back_and_forth: bool,
    pub prevent_wrapping: bool,
    pub workspace_rules: Vec<WorkspaceLayoutRule>,
    pub default_layout_mode: LayoutMode,
    pub layout_settings: LayoutSettings,
    pub shared_across_displays: bool,
    pub display_assignment: Vec<WorkspaceDisplayAssignment>,
    /// Shared mode has one global namespace, so "the workspace I came from" is a
    /// single value rather than one per space.
    pub last_active_global: Option<VirtualWorkspaceId>,
}

/// What lists of workspaces hold.
pub open spec fn lists_held(lists: Map<u64, Vec<VirtualWorkspaceId>>) -> Map<
    u64,
    Seq<VirtualWorkspaceId>,
> {
    lists.map_values(|list: Vec<VirtualWorkspaceId>| list@)
}

impl View for WorkspaceStore {
    type V = StoreState;

    closed spec fn view(&self) -> StoreState {
        StoreState {
            entries: self.workspaces.entries().map_values(
                |workspace: VirtualWorkspace| workspace@,
            ),
            upcoming: self.workspaces.upcoming(),
            by_space: lists_held(self.workspaces_by_space@),
            active: self.active_workspace_per_space@,
            counter: self.workspace_counter as nat,
            last_global: self.last_active_global,
            settings: StoreSettings {
                max_workspaces: self.max_workspaces as nat,
                default_workspace_count: self.default_workspace_count as nat,
                workspace_names: texts(self.default_workspace_names@),
                default_workspace: self.default_workspace as nat,
                auto_back_and_forth: self.workspace_auto_back_and_forth,
                prevent_wrapping: self.prevent_wrapping,
                layout_rules: rules_said(self.workspace_rules@),
                layout_mode: self.default_layout_mode,
                layout_settings: self.layout_settings,
                shared: self.shared_across_displays,
                display_assignment: assignments_said(self.display_assignment@),
            },
        }
    }
}

/// What the fields of a store say.
pub proof fn store_holds(store: WorkspaceStore)
    ensures
        store@.entries == store.workspaces.entries().map_values(
            |workspace: VirtualWorkspace| workspace@,
        ),
        store@.upcoming == store.workspaces.upcoming(),
        store@.by_space == lists_held(store.workspaces_by_space@),
        store@.active == store.active_workspace_per_space@,
        store@.counter == store.workspace_counter,
        store@.last_global == store.last_active_global,
        store@.settings == (StoreSettings {
            max_workspaces: store.max_workspaces as nat,
            default_workspace_count: store.default_workspace_count as nat,
            workspace_names: texts(store.default_workspace_names@),
            default_workspace: store.default_workspace as nat,
            auto_back_and_forth: store.workspace_auto_back_and_forth,
            prevent_wrapping: store.prevent_wrapping,
            layout_rules: rules_said(store.workspace_rules@),
            layout_mode: store.default_layout_mode,
            layout_settings: store.layout_settings,
            shared: store.shared_across_displays,
            display_assignment: assignments_said(store.display_assignment@),
        }),
{
}

impl Default for WorkspaceStore {
    fn default() -> (r: Self)
        ensures
            r@ == StoreState::empty(standard_settings()),
    {
        Self::new()
    }
}

/// The settings of a store that is given none.
pub open spec fn standard_settings() -> StoreSettings {
    StoreSettings {
        max_workspaces: MAX_WORKSPACES as nat,
        default_workspace_count: 4,
        workspace_names: Seq::empty(),
        default_workspace: 0,
        auto_back_and_forth: false,
        prevent_wrapping: false,
        layout_rules: Seq::empty(),
        layout_mode: LayoutMode::Traditional,
        layout_settings: LayoutSettings::standard(),
        shared: false,
        display_assignment: Seq::empty(),
    }
}

/// The settings of a store that was read back and not given any yet.
pub open spec fn blank_settings() -> StoreSettings {
    StoreSettings {
        max_workspaces: 0,
        default_workspace_count: 0,
        workspace_names: Seq::empty(),
        default_workspace: 0,
        auto_back_and_forth: false,
        prevent_wrapping: false,
        layout_rules: Seq::empty(),
        layout_mode: LayoutMode::Traditional,
        layout_settings: LayoutSettings::standard(),
        shared: false,
        display_assignment: Seq::empty(),
    }
}

/// The number of workspaces to have: at least one, at most `limit`.
pub(crate) fn count_limited(wanted: usize, limit: usize) -> (r: usize)
    ensures
        r == crate::state::count_within(wanted as nat, limit as nat),
{
    let at_least_one: usize = if wanted < 1 {
        1
    } else {
        wanted
    };
    if at_least_one <= limit {
        at_least_one
    } else {
        limit
    }
}

impl WorkspaceStore {
    pub fn new() -> (r: Self)
        ensures
            r@ == StoreState::empty(standard_settings()),
    {
        let config = VirtualWorkspaceSettings::default();
        let layout_settings = LayoutSettings::default();
        proof {
            assert(texts(config.workspace_names@) =~= Seq::empty());
            assert(rules_said(config.workspace_rules@) =~= Seq::empty());
            assert(assignments_said(config.workspace_display_assignment@) =~= Seq::empty());
        }
        Self::new_with_config(&config, &layout_settings)
    }

    pub fn new_with_config(
        config: &VirtualWorkspaceSettings,
        layout_settings: &LayoutSettings,
    ) -> (r: Self)
        ensures
            r@ == StoreState::empty(
                StoreSettings::given(*config, *layout_settings, MAX_WORKSPACES as nat),
            ),
    {
        let target_count: usize = count_limited(config.default_workspace_count, MAX_WORKSPACES);
        let default_workspace: usize = if config.default_workspace <= target_count - 1 {
            config.default_workspace
        } else {
            target_count - 1
        };
        let store = WorkspaceStore {
            workspaces: WorkspaceTable::new(),
            workspaces_by_space: HashMap::new(),
            active_workspace_per_space: HashMap::new(),
            workspace_counter: 1,
            max_workspaces: MAX_WORKSPACES,
            default_workspace_count: config.default_workspace_count,
            default_workspace_names: config.workspace_names.clone(),
            default_workspace,
            workspace_auto_back_and_forth: config.workspace_auto_back_and_forth,
            prevent_wrapping: config.prevent_wrapping,
            workspace_rules: config.workspace_rules.clone(),
            default_layout_mode: layout_settings.mode,
            layout_settings: *layout_settings,
            shared_across_displays: config.shared_across_displays,
            display_assignment: config.workspace_display_assignment.clone(),
            last_active_global: None,
        };
        proof {
            assert(store.default_workspace_names@ =~= config.workspace_names@);
            assert(store.workspace_rules@ =~= config.workspace_rules@);
            assert(store.display_assignment@ =~= config.workspace_display_assignment@);
            assert(store@.entries =~= Map::empty());
            assert(store@.by_space =~= Map::empty());
        }
        store
    }

    /// A store without workspaces and settings.
    pub(crate) fn blank() -> (r: Self)
        ensures
            r@ == StoreState::empty(blank_settings()),
    {
        let store = WorkspaceStore {
            workspaces: WorkspaceTable::new(),
            workspaces_by_space: HashMap::new(),
            active_workspace_per_space: HashMap::new(),
            workspace_counter: 1,
            max_workspaces: 0,
            default_workspace_count: 0,
            default_workspace_names: Vec::new(),
            default_workspace: 0,
            workspace_auto_back_and_forth: false,
            prevent_wrapping: false,
            workspace_rules: Vec::new(),
            default_layout_mode: LayoutMode::default(),
            layout_settings: LayoutSettings::default(),
            shared_across_displays: false,
            display_assignment: Vec::new(),
            last_active_global: None,
        };
        proof {
            assert(texts(store.default_workspace_names@) =~= Seq::empty());
            assert(rules_said(store.workspace_rules@) =~= Seq::empty());
            assert(assignments_said(store.display_assignment@) =~= Seq::empty());
            assert(store@.entries =~= Map::empty());
            assert(store@.by_space =~= Map::empty());
        }
        store
    }

    /// Takes over lists, active workspaces and the counter.
    pub(crate) fn take_topology(
        &mut self,
        workspaces_by_space: HashMap<u64, Vec<VirtualWorkspaceId>>,
        active_workspace_per_space: HashMap<u64, (Option<VirtualWorkspaceId>, VirtualWorkspaceId)>,
        workspace_counter: usize,
    )
        ensures
            final(self)@ == (StoreState {
                by_space: lists_held(workspaces_by_space@),
                active: active_workspace_per_space@,
                counter: workspace_counter as nat,
                ..old(self)@
            }),
    {
        self.workspaces_by_space = workspaces_by_space;
        self.active_workspace_per_space = active_workspace_per_space;
        self.workspace_counter = workspace_counter;
    }

    /// Takes over the settings of a configuration. The limit on workspaces
    /// stays, unless there is none yet.
    pub(crate) fn take_settings(
        &mut self,
        config: &VirtualWorkspaceSettings,
        layout_settings: &LayoutSettings,
    )
        ensures
            final(self)@ == (StoreState {
                settings: StoreSettings::given(
                    *config,
                    *layout_settings,
                    if old(self)@.settings.max_workspaces == 0 {
                        MAX_WORKSPACES as nat
                    } else {
                        old(self)@.settings.max_workspaces
                    },
                ),
                ..old(self)@
            }),
    {
        if self.max_workspaces == 0 {
            self.max_workspaces = MAX_WORKSPACES;
        }
        self.workspace_rules = config.workspace_rules.clone();
        self.default_layout_mode = layout_settings.mode;
        self.layout_settings = *layout_settings;
        self.default_workspace_count = config.default_workspace_count;
        self.default_workspace_names = config.workspace_names.clone();
        self.workspace_auto_back_and_forth = config.workspace_auto_back_and_forth;
        self.prevent_wrapping = config.prevent_wrapping;
        self.shared_across_displays = config.shared_across_displays;
        self.display_assignment = config.workspace_display_assignment.clone();
        let target_count: usize = count_limited(self.default_workspace_count, self.max_workspaces);
        self.default_workspace = if config.default_workspace <= target_count - 1 {
            config.default_workspace
        } else {
            target_count - 1
        };
        proof {
            assert(self.default_workspace_names@ =~= config.workspace_names@);
            assert(self.workspace_rules@ =~= config.workspace_rules@);
            assert(self.display_assignment@ =~= config.workspace_display_assignment@);
        }
    }

    // Settings.

    pub fn shared_across_displays(&self) -> (r: bool)
        ensures
            r == self@.settings.shared,
    {
        self.shared_across_displays
    }

    pub fn workspace_auto_back_and_forth(&self) -> (r: bool)
        ensures
            r == self@.settings.auto_back_and_forth,
    {
        self.workspace_auto_back_and_forth
    }

    pub fn last_active_global(&self) -> (r: Option<VirtualWorkspaceId>)
        ensures
            r == self@.last_global,
    {
        self.last_active_global
    }

    pub(crate) fn set_last_active_global(&mut self, id: Option<VirtualWorkspaceId>)
        ensures
            final(self)@ == (StoreState { last_global: id, ..old(self)@ }),
    {
        self.last_active_global = id;
    }

    pub(crate) fn prevents_wrapping(&self) -> (r: bool)
        ensures
            r == self@.settings.prevent_wrapping,
    {
        self.prevent_wrapping
    }

    pub(crate) fn most_workspaces(&self) -> (r: usize)
        ensures
            r == self@.settings.max_workspaces,
    {
        self.max_workspaces
    }

    pub(crate) fn target_count(&self) -> (r: usize)
        ensures
            r == self@.settings.target_count(),
    {
        count_limited(self.default_workspace_count, self.max_workspaces)
    }

    pub(crate) fn starting_index(&self) -> (r: usize)
        ensures
            r == self@.settings.default_workspace,
    {
        self.default_workspace
    }

    /// How many names the settings have.
    pub(crate) fn name_count(&self) -> (r: usize)
        ensures
            r == self@.settings.workspace_names.len(),
    {
        self.default_workspace_names.len()
    }

    /// The settings' name for a place, if they have one.
    pub(crate) fn configured_name(&self, index: usize) -> (r: Option<String>)
        ensures
            match r {
                Some(name) => index < self@.settings.workspace_names.len() && name@
                    == self@.settings.workspace_names[index as int],
                None => index >= self@.settings.workspace_names.len(),
            },
    {
        if index < self.default_workspace_names.len() {
            Some(self.default_workspace_names[index].clone())
        } else {
            None
        }
    }

    pub(crate) fn layout(&self) -> (r: LayoutSettings)
        ensures
            r == self@.settings.layout_settings,
    {
        self.layout_settings
    }

    pub(crate) fn fallback_mode(&self) -> (r: LayoutMode)
        ensures
            r == self@.settings.layout_mode,
    {
        self.default_layout_mode
    }

    pub(crate) fn layout_rules(&self) -> (r: &Vec<WorkspaceLayoutRule>)
        ensures
            rules_said(r@) == self@.settings.layout_rules,
    {
        &self.workspace_rules
    }

    pub(crate) fn display_assignments(&self) -> (r: Vec<WorkspaceDisplayAssignment>)
        ensures
            assignments_said(r@) == self@.settings.display_assignment,
    {
        let assignments = self.display_assignment.clone();
        assert(assignments@ =~= self.display_assignment@);
        assignments
    }

    pub(crate) fn counter(&self) -> (r: usize)
        ensures
            r == self@.counter,
    {
        self.workspace_counter
    }

    pub(crate) fn count_on(&mut self)
        requires
            old(self)@.counter < usize::MAX,
        ensures
            final(self)@ == old(self)@.counted(true),
    {
        self.workspace_counter += 1;
    }

    // Workspaces.

    /// How many workspaces the store can still take.
    pub(crate) fn room(&self) -> (r: u64)
        ensures
            r == self@.upcoming.len(),
    {
        self.workspaces.left()
    }

    /// The store can still take `count` workspaces.
    pub fn has_room(&self, count: usize) -> (r: bool)
        ensures
            r == (self@.upcoming.len() >= count),
    {
        count as u64 <= self.room()
    }

    /// The store can take more than `count` workspaces.
    pub(crate) fn has_room_beyond(&self, count: usize) -> (r: bool)
        ensures
            r == (self@.upcoming.len() > count),
    {
        (count as u64) < self.room()
    }

    /// The store holds no workspace.
    pub(crate) fn holds_none(&self) -> (r: bool)
        ensures
            r == self@.entries.dom().is_empty(),
            self@.entries.dom().finite(),
    {
        assert(self@.entries.dom() =~= self.workspaces.entries().dom());
        self.workspaces.len() == 0
    }

    pub(crate) fn workspace_count(&self) -> (r: usize)
        ensures
            crate::slots::has_size(self@.entries.dom(), r as nat),
    {
        assert(self@.entries.dom() =~= self.workspaces.entries().dom());
        self.workspaces.len()
    }

    /// The workspaces of the store in the order of their identifiers.
    pub fn workspace_ids(&self) -> (r: Vec<VirtualWorkspaceId>)
        ensures
            lists(r@, self@.entries.dom()),
            r@ == listing(self@.entries.dom()),
            self@.entries.dom().finite(),
    {
        let ids = self.workspaces.keys();
        proof {
            assert(self@.entries.dom() =~= self.workspaces.entries().dom());
            crate::order::lemma_listing_unique(ids@, self@.entries.dom());
            vstd::seq_lib::seq_to_set_is_finite(ids@);
        }
        ids
    }

    pub fn workspace(&self, id: VirtualWorkspaceId) -> (r: Option<&VirtualWorkspace>)
        ensures
            match r {
                Some(workspace) => self@.entries.contains_key(id) && workspace@
                    == self@.entries[id],
                None => !self@.entries.contains_key(id),
            },
    {
        self.workspaces.get(id)
    }

    pub fn workspace_space(&self, workspace_id: VirtualWorkspaceId) -> (r: Option<SpaceId>)
        ensures
            r == self@.space_of(workspace_id),
    {
        match self.workspaces.get(workspace_id) {
            Some(workspace) => Some(workspace.space),
            None => None,
        }
    }

    /// The space has the workspace.
    pub(crate) fn is_owned(&self, space: SpaceId, id: VirtualWorkspaceId) -> (r: bool)
        ensures
            r == self@.owns(space, id),
    {
        match self.workspaces.get(id) {
            Some(workspace) => workspace.space == space,
            None => false,
        }
    }

    pub(crate) fn is_live(&self, id: VirtualWorkspaceId) -> (r: bool)
        ensures
            r == self@.entries.contains_key(id),
    {
        self.workspaces.get(id).is_some()
    }

    /// Takes in a workspace under a new identifier.
    pub(crate) fn mint(&mut self, workspace: VirtualWorkspace) -> (r: VirtualWorkspaceId)
        requires
            old(self)@.upcoming.len() > 0,
        ensures
            r == old(self)@.upcoming[0],
            !old(self)@.entries.contains_key(r),
            final(self)@ == old(self)@.minted(workspace@),
    {
        let id = self.workspaces.insert(workspace);
        assert(self@.entries =~= old(self)@.minted(workspace@).entries);
        id
    }

    /// Takes out a workspace, whose slot is never taken again.
    pub(crate) fn discard(&mut self, id: VirtualWorkspaceId)
        ensures
            final(self)@ == (StoreState {
                entries: old(self)@.entries.remove(id),
                ..old(self)@
            }),
    {
        self.workspaces.retire(id);
        assert(self@.entries =~= old(self)@.entries.remove(id));
    }

    /// Takes out a workspace, whose slot the next one takes.
    pub(crate) fn free_slot(&mut self, id: VirtualWorkspaceId)
        requires
            old(self)@.entries.contains_key(id),
            old(self)@.upcoming.len() < 0xffff_ffff,
        ensures
            final(self)@ == (StoreState {
                entries: old(self)@.entries.remove(id),
                upcoming: seq![id.renewed()] + old(self)@.upcoming,
                ..old(self)@
            }),
    {
        self.workspaces.free(id);
        assert(self@.entries =~= old(self)@.entries.remove(id));
    }

    pub(crate) fn set_name(&mut self, id: VirtualWorkspaceId, name: String)
        requires
            old(self)@.entries.contains_key(id),
        ensures
            final(self)@ == old(self)@.with_entry(id, old(self)@.entries[id].named(name@)),
    {
        if let Some(workspace) = self.workspaces.get_mut(id) {
            workspace.name = name;
        }
        assert(self@.entries =~= old(self)@.with_entry(
            id,
            old(self)@.entries[id].named(name@),
        ).entries);
    }

    pub(crate) fn set_space(&mut self, id: VirtualWorkspaceId, space: SpaceId)
        requires
            old(self)@.entries.contains_key(id),
        ensures
            final(self)@ == old(self)@.with_entry(id, old(self)@.entries[id].on_space(space)),
    {
        if let Some(workspace) = self.workspaces.get_mut(id) {
            workspace.space = space;
        }
        assert(self@.entries =~= old(self)@.with_entry(
            id,
            old(self)@.entries[id].on_space(space),
        ).entries);
    }

    pub(crate) fn set_focus(&mut self, id: VirtualWorkspaceId, window: Option<WindowId>)
        requires
            old(self)@.entries.contains_key(id),
        ensures
            final(self)@ == old(self)@.with_entry(id, old(self)@.entries[id].focused_last(window)),
    {
        if let Some(workspace) = self.workspaces.get_mut(id) {
            workspace.set_last_focused(window);
        }
        assert(self@.entries =~= old(self)@.with_entry(
            id,
            old(self)@.entries[id].focused_last(window),
        ).entries);
    }

    // Lists.

    /// The numbers of the spaces that have an entry, in ascending order.
    pub(crate) fn space_keys(&self) -> (r: Vec<u64>)
        ensures
            lists(r@, self@.by_space.dom()),
            r@ == listing(self@.by_space.dom()),
            self@.by_space.dom().finite(),
    {
        assert(self@.by_space.dom() =~= self.workspaces_by_space@.dom());
        sorted_keys(&self.workspaces_by_space)
    }

    pub(crate) fn has_list(&self, space: SpaceId) -> (r: bool)
        ensures
            r == self@.by_space.contains_key(space.id),
    {
        self.workspaces_by_space.contains_key(&space.id)
    }

    /// The workspaces listed under a space.
    pub(crate) fn list(&self, space: SpaceId) -> (r: Vec<VirtualWorkspaceId>)
        ensures
            r@ == self@.list_of(space),
    {
        match self.workspaces_by_space.get(&space.id) {
            Some(list) => {
                let copy = list.clone();
                assert(copy@ =~= list@);
                copy
            },
            None => Vec::new(),
        }
    }

    pub(crate) fn list_len(&self, space: SpaceId) -> (r: usize)
        ensures
            r == self@.list_of(space).len(),
    {
        match self.workspaces_by_space.get(&space.id) {
            Some(list) => list.len(),
            None => 0,
        }
    }

    pub(crate) fn set_list(&mut self, space: SpaceId, list: Vec<VirtualWorkspaceId>)
        ensures
            final(self)@ == old(self)@.with_list(space, list@),
    {
        self.workspaces_by_space.insert(space.id, list);
        assert(self@.by_space =~= old(self)@.with_list(space, list@).by_space);
    }

    pub(crate) fn drop_list(&mut self, space: SpaceId)
        ensures
            final(self)@ == old(self)@.without_list(space),
    {
        self.workspaces_by_space.remove(&space.id);
        assert(self@.by_space =~= old(self)@.without_list(space).by_space);
    }

    // Active workspaces.

    /// The numbers of the spaces that show a workspace, in ascending order.
    pub(crate) fn active_keys(&self) -> (r: Vec<u64>)
        ensures
            lists(r@, self@.active.dom()),
            r@ == listing(self@.active.dom()),
            self@.active.dom().finite(),
    {
        sorted_keys(&self.active_workspace_per_space)
    }

    pub(crate) fn active_count(&self) -> (r: usize)
        ensures
            crate::slots::has_size(self@.active.dom(), r as nat),
    {
        self.active_workspace_per_space.len()
    }

    /// The previous and the active workspace of a space.
    pub(crate) fn active_pair(&self, space: SpaceId) -> (r: Option<
        (Option<VirtualWorkspaceId>, VirtualWorkspaceId),
    >)
        ensures
            r == self@.active.get(space.id),
    {
        match self.active_workspace_per_space.get(&space.id) {
            Some(pair) => Some(*pair),
            None => None,
        }
    }

    pub(crate) fn set_active_pair(
        &mut self,
        space: SpaceId,
        previous: Option<VirtualWorkspaceId>,
        active: VirtualWorkspaceId,
    )
        ensures
            final(self)@ == old(self)@.with_active(space, previous, active),
    {
        self.active_workspace_per_space.insert(space.id, (previous, active));
    }

    /// Makes the space show a workspace if it shows none.
    pub(crate) fn show_some(&mut self, space: SpaceId, id: VirtualWorkspaceId)
        ensures
            final(self)@ == old(self)@.with_some_active(space, id),
    {
        if !self.active_workspace_per_space.contains_key(&space.id) {
            self.set_active_pair(space, None, id);
        }
    }

    pub(crate) fn clear_active(&mut self, space: SpaceId)
        ensures
            final(self)@ == old(self)@.without_active(space),
    {
        self.active_workspace_per_space.remove(&space.id);
    }

    pub fn last_workspace(&self, space: SpaceId) -> (r: Option<VirtualWorkspaceId>)
        ensures
            r == self@.previous_of(space),
    {
        match self.active_pair(space) {
            Some(pair) => pair.0,
            None => None,
        }
    }

    pub fn active_workspace(&self, space: SpaceId) -> (r: Option<VirtualWorkspaceId>)
        ensures
            r == self@.active_of(space),
    {
        match self.active_pair(space) {
            Some(pair) => Some(pair.1),
            None => None,
        }
    }
}

} // verus!
