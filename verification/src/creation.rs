//! Workspaces come into being: for a new space, to the count that the settings
//! ask for, and on demand.
use crate::growth::lemma_added_pool;
use crate::growth::lemma_pushed_from;
use crate::growth::lemma_renamed;
use crate::growth::lemma_shortfall_of_first;
use crate::growth::lemma_spaces_settled;
use crate::ids::SpaceId;
use crate::ids::VirtualWorkspaceId;
use crate::layout::LayoutSettings;
use crate::order::lemma_listing;
use crate::order::sort_ranked;
use crate::order::sorted;
use crate::settings::VirtualWorkspaceSettings;
use crate::state::missing;
use crate::state::numbered_name;
use crate::store::WorkspaceStore;
use crate::text::decimal_string;
use crate::workspace::said;
use crate::workspace::VirtualWorkspace;
use crate::workspace::WorkspaceError;
use vstd::prelude::*;

verus! {

/// A name made of a number.
fn numbered(number: usize) -> (r: String)
    ensures
        r@ == numbered_name(number as nat),
{
    let mut name = "Workspace ".to_owned();
    name.append(decimal_string(number as u64).as_str());
    name
}

impl WorkspaceStore {
    /// Adds a workspace and lists it last under its space.
    fn add_workspace(&mut self, workspace: VirtualWorkspace) -> (r: VirtualWorkspaceId)
        requires
            old(self)@.upcoming.len() > 0,
        ensures
            r == old(self)@.upcoming[0],
            !old(self)@.entries.contains_key(r),
            final(self)@ == old(self)@.added(workspace@),
    {
        let space = workspace.space;
        let mut list = self.list(space);
        let id = self.mint(workspace);
        list.push(id);
        self.set_list(space, list);
        id
    }

    /// Creates one workspace on `space`, named from `workspace_names[index]` when the
    /// config provides a name for that slot.
    pub(crate) fn push_default_workspace(&mut self, space: SpaceId, index: usize) -> (r:
        VirtualWorkspaceId)
        requires
            old(self)@.upcoming.len() > 0,
            index >= old(self)@.settings.workspace_names.len() ==> old(self)@.counter < usize::MAX,
        ensures
            r == old(self)@.upcoming[0],
            !old(self)@.entries.contains_key(r),
            final(self)@ == old(self)@.pushed(space, index as nat),
    {
        let configured = self.configured_name(index);
        let by_number = configured.is_none();
        let name = match configured {
            Some(name) => name,
            None => numbered(self.counter()),
        };
        let mode = self.resolve_layout_mode_for_workspace(index, &name);
        let workspace = VirtualWorkspace::new(name, space, mode, &self.layout());
        let id = self.add_workspace(workspace);
        if by_number {
            self.count_on();
        }
        id
    }

    /// Adds workspaces on `home` until there are as many in all as the
    /// settings ask for.
    pub(crate) fn fill_pool(&mut self, home: SpaceId)
        requires
            old(self)@.can_grow(old(self)@.global_ids().len(), old(self)@.pool_shortfall()),
        ensures
            final(self)@ == old(self)@.pool_filled(home),
    {
        let ghost before = self@;
        let target_count: usize = self.target_count();
        let mut index: usize = self.ordered_workspace_ids_global().len();
        let ghost first = index as nat;
        while index < target_count
            invariant
                first <= index,
                index <= target_count || index == first,
                first == before.global_ids().len(),
                target_count == before.settings.target_count(),
                before.upcoming.len() >= missing(target_count as nat, first),
                before.counter + before.settings.unnamed(
                    first,
                    missing(target_count as nat, first),
                ) <= usize::MAX,
                self@ == before.pushed_from(home, first, (index - first) as nat),
                index == self@.global_ids().len(),
                self@.pool().finite(),
            decreases target_count - index,
        {
            let ghost added = (index - first) as nat;
            proof {
                lemma_pushed_from(before, home, first, added);
                let entry = self@.settings.fresh(
                    home,
                    index as nat,
                    self@.default_name(index as nat),
                );
                if !self@.entries.contains_key(self@.upcoming[0]) {
                    lemma_added_pool(self@, entry);
                    let grown = self@.added(entry);
                    let counted = self@.pushed(home, index as nat);
                    assert(counted.pool() =~= grown.pool()) by {
                        assert forall|id: VirtualWorkspaceId| counted.listed(id)
                            == grown.listed(id) by {
                            assert(counted.by_space == grown.by_space);
                        }
                    }
                }
            }
            self.push_default_workspace(home, index);
            index = self.ordered_workspace_ids_global().len();
        }
    }

    /// Adds workspaces on `space` until it lists as many as the settings ask
    /// for.
    fn fill_space(&mut self, space: SpaceId)
        requires
            old(self)@.can_grow(old(self)@.list_of(space).len(), old(self)@.space_shortfall(space)),
        ensures
            final(self)@ == old(self)@.pushed_from(
                space,
                old(self)@.list_of(space).len(),
                old(self)@.space_shortfall(space),
            ),
    {
        let ghost before = self@;
        let target_count: usize = self.target_count();
        let mut index: usize = self.list_len(space);
        let ghost first = index as nat;
        while index < target_count
            invariant
                first <= index,
                index <= target_count || index == first,
                first == before.list_of(space).len(),
                target_count == before.settings.target_count(),
                before.upcoming.len() >= missing(target_count as nat, first),
                before.counter + before.settings.unnamed(
                    first,
                    missing(target_count as nat, first),
                ) <= usize::MAX,
                self@ == before.pushed_from(space, first, (index - first) as nat),
            decreases target_count - index,
        {
            proof {
                lemma_pushed_from(before, space, first, (index - first) as nat);
                lemma_pushed_from(before, space, first, (index + 1 - first) as nat);
            }
            self.push_default_workspace(space, index);
            index = self.list_len(space);
        }
    }

    /// Gives workspaces the settings' names for their places.
    fn rename_by_place(&mut self, ids: &Vec<VirtualWorkspaceId>)
        ensures
            final(self)@ == old(self)@.renamed(ids@, ids@.len()),
    {
        let ghost before = self@;
        let mut index: usize = 0;
        while index < ids.len()
            invariant
                index <= ids.len(),
                self@ == before.renamed(ids@, index as nat),
            decreases ids.len() - index,
        {
            proof {
                lemma_renamed(before, ids@, index as nat);
            }
            if let Some(name) = self.configured_name(index) {
                if self.is_live(ids[index]) {
                    self.set_name(ids[index], name);
                }
            }
            index += 1;
        }
    }

    pub(crate) fn apply_default_names_global(&mut self)
        ensures
            final(self)@ == old(self)@.renamed(
                old(self)@.global_ids(),
                old(self)@.global_ids().len(),
            ),
    {
        let ids = self.ordered_workspace_ids_global();
        self.rename_by_place(&ids);
    }

    /// Brings every list into the order of identifiers.
    fn sort_lists(&mut self)
        ensures
            final(self)@ == old(self)@.lists_sorted(),
    {
        let keys = self.space_keys();
        let ghost before = self@;
        proof {
            lemma_listing(before.by_space.dom());
        }
        let mut i: usize = 0;
        while i < keys.len()
            invariant
                i <= keys.len(),
                keys@.to_set() == before.by_space.dom(),
                keys@.no_duplicates(),
                self@ == (crate::state::StoreState { by_space: self@.by_space, ..before }),
                self@.by_space.dom() == before.by_space.dom(),
                forall|k: int|
                    0 <= k < i ==> self@.by_space[#[trigger] keys@[k]] == sorted(
                        before.by_space[keys@[k]],
                    ),
                forall|k: int|
                    i <= k < keys.len() ==> self@.by_space[#[trigger] keys@[k]]
                        == before.by_space[keys@[k]],
            decreases keys.len() - i,
        {
            let space = SpaceId { id: keys[i] };
            proof {
                assert(keys@.to_set().contains(keys@[i as int]));
            }
            let mut list = self.list(space);
            sort_ranked(&mut list);
            self.set_list(space, list);
            assert(self@.by_space.dom() =~= before.by_space.dom());
            i += 1;
        }
        proof {
            assert forall|key: u64| before.by_space.contains_key(key) implies #[trigger]
            self@.by_space[key] == sorted(before.by_space[key]) by {
                assert(keys@.to_set().contains(key));
                let k = choose|k: int| 0 <= k < keys.len() && keys@[k] == key;
                assert(self@.by_space[keys@[k]] == sorted(before.by_space[keys@[k]]));
            }
            assert(self@.by_space =~= before.lists_sorted().by_space);
        }
    }

    pub fn update_settings(
        &mut self,
        config: &VirtualWorkspaceSettings,
        layout_settings: &LayoutSettings,
    )
        requires
            old(self)@.under(*config, *layout_settings).can_settle(),
        ensures
            final(self)@ == old(self)@.under(*config, *layout_settings).settled(),
    {
        self.take_settings(config, layout_settings);
        self.sort_lists();
        let ghost before = self@;
        assert(before == old(self)@.under(*config, *layout_settings));
        let keys = self.space_keys();
        proof {
            lemma_listing(before.by_space.dom());
            assert(keys.len() == 0 <==> before.by_space.dom().is_empty());
        }
        if self.shared_across_displays() {
            // One global namespace: the pool is sized and named globally, not per display.
            if keys.len() == 0 {
                return;
            }
            self.fill_pool(SpaceId { id: keys[0] });
            self.apply_default_names_global();
            return;
        }
        let mut i: usize = 0;
        assert(keys@.take(0) =~= Seq::empty());
        while i < keys.len()
            invariant
                i <= keys.len(),
                keys@.no_duplicates(),
                forall|key: u64| #[trigger] keys@.contains(key) <==> before.by_space.contains_key(key),
                before.upcoming.len() >= before.spaces_shortfall(keys@),
                before.counter + before.spaces_unnamed(keys@) <= usize::MAX,
                self@ == before.spaces_settled(keys@.take(i as int)),
            decreases keys.len() - i,
        {
            let space = SpaceId { id: keys[i] };
            proof {
                let done = keys@.take(i as int);
                let next = keys@.take(i + 1);
                assert(next.drop_last() =~= done);
                assert forall|key: u64| #[trigger]
                    done.contains(key) implies before.by_space.contains_key(key) by {
                    let k = choose|k: int| 0 <= k < done.len() && done[k] == key;
                    assert(keys@[k] == key);
                    assert(keys@.contains(key));
                }
                assert(!done.contains(space.id)) by {
                    if done.contains(space.id) {
                        let k = choose|k: int| 0 <= k < done.len() && done[k] == space.id;
                        assert(keys@[k] == keys@[i as int]);
                    }
                }
                assert(keys@.contains(keys@[i as int]));
                lemma_shortfall_of_first(before, keys@, i as int);
                lemma_shortfall_of_first(before, keys@, i + 1);
                lemma_spaces_settled(before, done);
                assert(self@.by_space[space.id] == before.by_space[space.id]);
                assert(self@.by_space.contains_key(space.id));
                lemma_renamed(self@, self@.list_of(space), self@.list_of(space).len());
            }
            // Persisted workspace names are historical display metadata. Explicit names in the
            // current config remain authoritative after startup restore and config reload.
            let list = self.list(space);
            self.rename_by_place(&list);
            self.fill_space(space);
            i += 1;
        }
        assert(keys@.take(keys.len() as int) =~= keys@);
    }

    pub(crate) fn ensure_space_initialized(&mut self, space: SpaceId)
        requires
            old(self)@.can_initialize(space),
        ensures
            final(self)@ == old(self)@.initialized(space),
    {
        if self.has_list(space) {
            return;
        }
        // Shared mode has a single global pool, so a newly seen display must not mint a
        // duplicate set. It is given an owner slot here and workspaces by
        // `apply_display_topology`, which runs with the window store in hand.
        if self.shared_across_displays() && !self.holds_none() {
            self.set_list(space, Vec::new());
            return;
        }
        let ghost before = self@;
        let count: usize = self.target_count();
        let mut ids: Vec<VirtualWorkspaceId> = Vec::new();
        let mut i: usize = 0;
        while i < count
            invariant
                i <= count,
                count == before.settings.target_count(),
                before.upcoming.len() >= count,
                self@ == before.started(space, i as nat),
                self@.settings == before.settings,
                self@.upcoming == before.upcoming.skip(i as int),
                ids@ == before.upcoming.take(i as int),
            decreases count - i,
        {
            let name = match self.configured_name(i) {
                Some(name) => name,
                None => numbered(i + 1),
            };
            let mode = self.resolve_layout_mode_for_workspace(i, &name);
            let workspace = VirtualWorkspace::new(name, space, mode, &self.layout());
            let id = self.mint(workspace);
            ids.push(id);
            proof {
                assert(before.upcoming.skip(i as int).drop_first() =~= before.upcoming.skip(i + 1));
                assert(before.upcoming.take(i as int).push(id) =~= before.upcoming.take(i + 1));
            }
            i += 1;
        }
        let start: usize = self.starting_index();
        let default_index: usize = if start <= ids.len() - 1 {
            start
        } else {
            ids.len() - 1
        };
        let default_id = ids[default_index];
        self.set_list(space, ids);
        self.set_active_pair(space, None, default_id);
    }

    pub fn list_workspaces(&mut self, space: SpaceId) -> (r: Vec<(VirtualWorkspaceId, String)>)
        requires
            old(self)@.can_initialize(space),
        ensures
            final(self)@ == old(self)@.initialized(space),
            final(self)@.names_listed(space, r@),
    {
        self.ensure_space_initialized(space);
        self.existing_workspaces(space)
    }

    /// Read workspace topology without creating missing state. Validation and restore planning
    /// must use this accessor so a failed transaction cannot initialize part of the live engine.
    pub fn existing_workspaces(&self, space: SpaceId) -> (r: Vec<(VirtualWorkspaceId, String)>)
        ensures
            self@.names_listed(space, r@),
    {
        let ids = self.ordered_workspace_ids(space);
        proof {
            crate::order::lemma_sorted(self@.list_of(space).filter(self@.owned_by(space)));
            crate::sequences::lemma_filter(self@.list_of(space), self@.owned_by(space));
        }
        let mut workspaces: Vec<(VirtualWorkspaceId, String)> = Vec::new();
        let mut i: usize = 0;
        while i < ids.len()
            invariant
                i <= ids.len(),
                ids@ == self@.owned_ids(space),
                forall|id: VirtualWorkspaceId| #[trigger]
                    ids@.contains(id) ==> self@.entries.contains_key(id),
                workspaces.len() == i,
                forall|k: int|
                    0 <= k < i ==> (#[trigger] workspaces@[k]).0 == ids@[k] && workspaces@[k].1@
                        == self@.entries[ids@[k]].name,
            decreases ids.len() - i,
        {
            proof {
                assert(ids@.contains(ids@[i as int]));
            }
            if let Some(workspace) = self.workspace(ids[i]) {
                workspaces.push((ids[i], workspace.name.clone()));
            }
            i += 1;
        }
        workspaces
    }

    pub fn create_workspace(&mut self, space: SpaceId, name: Option<String>) -> (r: Result<
        VirtualWorkspaceId,
        WorkspaceError,
    >)
        requires
            old(self)@.can_create(space, name is None),
        ensures
            said(r) == old(self)@.initialized(space).creation(space),
            final(self)@ == old(self)@.initialized(space).with_new(
                space,
                match name {
                    Some(text) => Some(text@),
                    None => None,
                },
            ),
    {
        proof {
            lemma_initialized(self@, space);
        }
        self.ensure_space_initialized(space);
        // The cap and the new workspace's ordinal are global in shared mode, because so
        // is the namespace they belong to.
        let count: usize = if self.shared_across_displays() {
            self.ordered_workspace_ids_global().len()
        } else {
            self.list_len(space)
        };
        let most: usize = self.most_workspaces();
        if count >= most {
            let mut text = "Maximum workspace limit (".to_owned();
            text.append(decimal_string(most as u64).as_str());
            text.append(") reached for space ");
            text.append(space.spell().as_str());
            assert(text@ =~= self@.limit_text(space));
            return Err(WorkspaceError::InconsistentState(text));
        }
        let by_number = name.is_none();
        let given = match name {
            Some(name) => name,
            None => numbered(self.counter()),
        };
        let mode = self.resolve_layout_mode_for_workspace(count, &given);
        let workspace = VirtualWorkspace::new(given, space, mode, &self.layout());
        let id = self.add_workspace(workspace);
        if by_number {
            self.count_on();
        }
        Ok(id)
    }
}

/// Making an entry for a space keeps the settings and the count of names.
pub proof fn lemma_initialized(store: crate::state::StoreState, space: SpaceId)
    requires
        store.can_initialize(space),
    ensures
        store.initialized(space).settings == store.settings,
        store.initialized(space).counter == store.counter,
        store.initialized(space).last_global == store.last_global,
        store.initialized(space).by_space.contains_key(space.id),
{
    if !store.by_space.contains_key(space.id) && !(store.settings.shared
        && !store.entries.dom().is_empty()) {
        lemma_started(store, space, store.settings.target_count());
    }
}

/// Starting workspaces changes only the workspaces and takes identifiers in
/// order.
pub proof fn lemma_started(store: crate::state::StoreState, space: SpaceId, count: nat)
    requires
        store.upcoming.len() >= count,
    ensures
        store.started(space, count) == (crate::state::StoreState {
            entries: store.started(space, count).entries,
            upcoming: store.upcoming.skip(count as int),
            ..store
        }),
    decreases count,
{
    if count == 0 {
        assert(store.upcoming.skip(0) =~= store.upcoming);
    } else {
        lemma_started(store, space, (count - 1) as nat);
        assert(store.upcoming.skip(count - 1).drop_first() =~= store.upcoming.skip(count as int));
    }
}

} // verus!
