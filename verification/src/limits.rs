//! Whether a store has room for what an operation would add.
use crate::creation::lemma_initialized;
use crate::growth::lemma_shortfall_of_first;
use crate::ids::SpaceId;
use crate::ids::VirtualWorkspaceId;
use crate::layout::LayoutSettings;
use crate::order::lemma_listing;
use crate::order::lemma_sorted;
use crate::order::listing;
use crate::settings::VirtualWorkspaceSettings;
use crate::settings::MAX_WORKSPACES;
use crate::state::missing;
use crate::state::StoreState;
use crate::store::count_limited;
use crate::store::WorkspaceStore;
use vstd::prelude::*;

verus! {

impl StoreState {
    /// There is room for a new workspace on the space, if the limit allows one.
    pub open spec fn can_create(self, space: SpaceId, by_number: bool) -> bool {
        &&& self.can_initialize(space)
        &&& self.initialized(space).creation(space) is Ok ==> self.initialized(
            space,
        ).upcoming.len() > 0 && (by_number ==> self.counter < usize::MAX)
    }

    /// There is room for `count` more workspaces, which have the places from
    /// `first` on, and for the numbers of those that have no name.
    pub open spec fn can_grow(self, first: nat, count: nat) -> bool {
        self.upcoming.len() >= count && self.counter + self.settings.unnamed(first, count)
            <= usize::MAX
    }

    /// The pool can be filled up.
    pub open spec fn can_arrange(self) -> bool {
        self.can_grow(self.global_ids().len(), self.pool_shortfall())
    }

    /// There is room for the workspaces that the settings ask for.
    pub open spec fn can_settle(self) -> bool {
        let keys = listing(self.by_space.dom());
        if self.settings.shared {
            self.by_space.dom().is_empty() || self.can_arrange()
        } else {
            self.upcoming.len() >= self.spaces_shortfall(keys) && self.counter
                + self.spaces_unnamed(keys) <= usize::MAX
        }
    }
}

/// New settings change neither the workspaces nor how many a space lists.
proof fn lemma_under(
    store: StoreState,
    config: VirtualWorkspaceSettings,
    layout_settings: LayoutSettings,
)
    ensures
        store.under(config, layout_settings).pool() == store.pool(),
        store.under(config, layout_settings).by_space.dom() == store.by_space.dom(),
        forall|key: u64| #[trigger]
            store.by_space.contains_key(key) ==> store.under(config, layout_settings).by_space[
                key
            ].len() == store.by_space[key].len(),
{
    let under = store.under(config, layout_settings);
    assert(under.by_space.dom() =~= store.by_space.dom());
    assert forall|key: u64| #[trigger] store.by_space.contains_key(key) implies under.by_space[
        key
    ].len() == store.by_space[key].len() by {
        lemma_sorted(store.by_space[key]);
    }
    assert forall|id: VirtualWorkspaceId| store.listed(id) == under.listed(id) by {
        if store.listed(id) {
            let key = choose|key: u64|
                store.by_space.contains_key(key) && (#[trigger] store.by_space[key]).contains(id);
            lemma_sorted(store.by_space[key]);
            assert(under.by_space.dom().contains(key));
            assert(under.by_space[key].contains(id));
        }
        if under.listed(id) {
            let key = choose|key: u64|
                under.by_space.contains_key(key) && (#[trigger] under.by_space[key]).contains(id);
            assert(store.by_space.dom().contains(key));
            lemma_sorted(store.by_space[key]);
            assert(store.by_space[key].contains(id));
        }
    }
    assert forall|id: VirtualWorkspaceId| under.pool().contains(id) <==> store.pool().contains(
        id,
    ) by {
        assert(store.listed(id) == under.listed(id));
    }
    assert(under.pool() =~= store.pool());
}

/// For how many of `lacking` places from `first` on there is no name.
fn unnamed_places(names: usize, first: usize, lacking: usize) -> (r: usize)
    ensures
        r == missing(
            (first + lacking) as nat,
            if first >= names {
                first as nat
            } else {
                names as nat
            },
        ),
{
    if first >= names {
        lacking
    } else if lacking > names - first {
        lacking - (names - first)
    } else {
        0
    }
}

/// How many there are fewer than `target`.
fn lacking_to(target: usize, there: usize) -> (r: usize)
    ensures
        r == missing(target as nat, there as nat),
{
    if target >= there {
        target - there
    } else {
        0
    }
}

impl WorkspaceStore {
    /// There is room for `count` more workspaces from the place `first` on,
    /// where there are `names` names.
    fn can_grow_with(&self, names: usize, first: usize, count: usize) -> (r: bool)
        ensures
            r == (self@.upcoming.len() >= count && self@.counter + missing(
                (first + count) as nat,
                if first >= names {
                    first as nat
                } else {
                    names as nat
                },
            ) <= usize::MAX),
    {
        self.has_room(count) && unnamed_places(names, first, count) <= usize::MAX - self.counter()
    }

    /// An entry can be made for the space, with the workspaces that it is to
    /// have.
    pub fn can_initialize_space(&self, space: SpaceId) -> (r: bool)
        ensures
            r == self@.can_initialize(space),
    {
        self.has_list(space) || (self.shared_across_displays() && !self.holds_none()) || (
        self.most_workspaces() > 0 && self.has_room(self.target_count()))
    }

    /// A workspace can be asked for on the space, with a name of its own or
    /// numbered: there is room for one more than a new space gets.
    pub fn can_create_workspace(&self, space: SpaceId, by_number: bool) -> (r: bool)
        ensures
            r == (self@.can_initialize(space) && self@.upcoming.len()
                > self@.settings.target_count() && (by_number ==> self@.counter < usize::MAX)),
            r ==> self@.can_create(space, by_number),
    {
        proof {
            if self@.can_initialize(space) {
                lemma_initialized(self@, space);
                lemma_initialized_room(self@, space);
            }
        }
        self.can_initialize_space(space) && self.has_room_beyond(self.target_count()) && !(by_number
            && self.counter() == usize::MAX)
    }

    /// The settings can be changed to the given ones.
    pub fn can_update_settings(
        &self,
        config: &VirtualWorkspaceSettings,
        layout_settings: &LayoutSettings,
    ) -> (r: bool)
        ensures
            r == self@.under(*config, *layout_settings).can_settle(),
    {
        let ghost under = self@.under(*config, *layout_settings);
        proof {
            lemma_under(self@, *config, *layout_settings);
        }
        let most: usize = if self.most_workspaces() == 0 {
            MAX_WORKSPACES
        } else {
            self.most_workspaces()
        };
        let target: usize = count_limited(config.default_workspace_count, most);
        let keys = self.space_keys();
        proof {
            lemma_listing(self@.by_space.dom());
            assert(keys.len() == 0 <==> under.by_space.dom().is_empty());
        }
        let names: usize = config.workspace_names.len();
        if config.shared_across_displays {
            if keys.len() == 0 {
                return true;
            }
            let there: usize = self.ordered_workspace_ids_global().len();
            return self.can_grow_with(names, there, lacking_to(target, there));
        }
        let room: u64 = self.room();
        let numbers: usize = usize::MAX - self.counter();
        let mut lacking: u64 = 0;
        let mut unnamed: usize = 0;
        let mut i: usize = 0;
        assert(keys@.take(0) =~= Seq::empty());
        while i < keys.len()
            invariant
                i <= keys.len(),
                keys@ == listing(under.by_space.dom()),
                keys@.to_set() == self@.by_space.dom(),
                under == self@.under(*config, *layout_settings),
                !under.settings.shared,
                under.settings.target_count() == target,
                under.settings.workspace_names.len() == names,
                room == under.upcoming.len(),
                numbers == usize::MAX - under.counter,
                lacking == under.spaces_shortfall(keys@.take(i as int)),
                unnamed == under.spaces_unnamed(keys@.take(i as int)),
                lacking <= room,
                unnamed <= numbers,
                forall|key: u64| #[trigger]
                    self@.by_space.contains_key(key) ==> under.by_space[key].len()
                        == self@.by_space[key].len(),
                under.by_space.dom() == self@.by_space.dom(),
            decreases keys.len() - i,
        {
            let space = SpaceId { id: keys[i] };
            let listed: usize = self.list_len(space);
            let short: usize = lacking_to(target, listed);
            let numbered: usize = unnamed_places(names, listed, short);
            proof {
                assert(keys@.to_set().contains(keys@[i as int]));
                assert(under.by_space.dom().contains(space.id));
                assert(keys@.take(i + 1).drop_last() =~= keys@.take(i as int));
                assert(under.space_shortfall(space) == short);
                assert(under.list_of(space).len() == listed);
                lemma_shortfall_of_first(under, keys@, i + 1);
            }
            if short as u64 > room - lacking || numbered > numbers - unnamed {
                return false;
            }
            lacking += short as u64;
            unnamed += numbered;
            i += 1;
        }
        assert(keys@.take(keys.len() as int) =~= keys@);
        true
    }

    /// The pool can be fitted to the displays.
    pub fn can_apply_display_topology(&self, visible: &[(SpaceId, Option<String>)]) -> (r: bool)
        ensures
            r == (self@.settings.shared && visible@.len() > 0 ==> self@.can_arrange()),
    {
        if !self.shared_across_displays() || visible.len() == 0 {
            return true;
        }
        let there: usize = self.ordered_workspace_ids_global().len();
        self.can_grow_with(self.name_count(), there, lacking_to(self.target_count(), there))
    }
}

/// Making an entry for a space takes no more identifiers than the settings ask
/// for workspaces.
pub proof fn lemma_initialized_room(store: StoreState, space: SpaceId)
    requires
        store.can_initialize(space),
    ensures
        store.initialized(space).upcoming.len() + store.settings.target_count()
            >= store.upcoming.len(),
{
    if !store.by_space.contains_key(space.id) && !(store.settings.shared
        && !store.entries.dom().is_empty()) {
        crate::creation::lemma_started(store, space, store.settings.target_count());
    }
}

} // verus!
