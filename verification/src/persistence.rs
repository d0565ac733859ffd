//! Checks on a workspace topology that was read back.
use crate::ids::SpaceId;
use crate::ids::VirtualWorkspaceId;
use crate::order::lemma_listing;
use crate::order::listing;
use crate::order::Ranked;
use crate::ordering::place_in;
use crate::state::StoreState;
use crate::store::WorkspaceStore;
use crate::text::decimal;
use crate::text::decimal_string;
use vstd::prelude::*;

verus! {

/// What is wrong with a topology.
#[derive(Clone, Copy, PartialEq, Eq, Structural, Debug)]
pub enum TopologyFault {
    /// A space lists no workspace.
    NoWorkspaces { space: SpaceId },
    /// A space lists a workspace that does not exist.
    MissingWorkspace { space: SpaceId, workspace: VirtualWorkspaceId },
    /// A space lists a workspace of another space.
    ForeignWorkspace { space: SpaceId, workspace: VirtualWorkspaceId, owner: SpaceId },
    /// A workspace is listed twice.
    RepeatedWorkspace { workspace: VirtualWorkspaceId },
    /// A space shows no workspace.
    NoActive { space: SpaceId },
    /// A space shows a workspace that it does not list.
    InvalidActive { space: SpaceId },
    /// A space remembers a workspace that it does not list.
    InvalidPrevious { space: SpaceId },
    /// No space lists a workspace.
    UnlistedWorkspace { workspace: VirtualWorkspaceId, owner: SpaceId },
    /// A space that has no list shows a workspace.
    UnknownSpace { space: SpaceId },
}

impl TopologyFault {
    /// The fault in words.
    pub open spec fn described(self) -> Seq<char> {
        match self {
            TopologyFault::NoWorkspaces { space } => "native space "@ + decimal(space.id as nat)
                + " has no virtual workspaces"@,
            TopologyFault::MissingWorkspace { space, workspace } => "native space "@ + decimal(
                space.id as nat,
            ) + " references missing workspace "@ + workspace.spelled(),
            TopologyFault::ForeignWorkspace { space, workspace, owner } => "workspace "@
                + workspace.spelled() + " belongs to space "@ + decimal(owner.id as nat)
                + " but is indexed under "@ + decimal(space.id as nat),
            TopologyFault::RepeatedWorkspace { workspace } => "workspace "@ + workspace.spelled()
                + " is indexed more than once"@,
            TopologyFault::NoActive { space } => "native space "@ + decimal(space.id as nat)
                + " has no active workspace"@,
            TopologyFault::InvalidActive { space } => "native space "@ + decimal(space.id as nat)
                + " has an invalid active workspace"@,
            TopologyFault::InvalidPrevious { space } => "native space "@ + decimal(space.id as nat)
                + " has an invalid previous workspace"@,
            TopologyFault::UnlistedWorkspace { workspace, owner } => "workspace "@
                + workspace.spelled() + " for native space "@ + decimal(owner.id as nat)
                + " is not indexed"@,
            TopologyFault::UnknownSpace { space } =>
            "active workspace state references unknown native space "@ + decimal(space.id as nat),
        }
    }

    /// Puts the fault into words.
    pub fn describe(&self) -> (r: String)
        ensures
            r@ == self.described(),
    {
        match self {
            TopologyFault::NoWorkspaces { space } => {
                let mut text = "native space ".to_owned();
                text.append(decimal_string(space.id).as_str());
                text.append(" has no virtual workspaces");
                text
            },
            TopologyFault::MissingWorkspace { space, workspace } => {
                let mut text = "native space ".to_owned();
                text.append(decimal_string(space.id).as_str());
                text.append(" references missing workspace ");
                text.append(workspace.spell().as_str());
                text
            },
            TopologyFault::ForeignWorkspace { space, workspace, owner } => {
                let mut text = "workspace ".to_owned();
                text.append(workspace.spell().as_str());
                text.append(" belongs to space ");
                text.append(decimal_string(owner.id).as_str());
                text.append(" but is indexed under ");
                text.append(decimal_string(space.id).as_str());
                text
            },
            TopologyFault::RepeatedWorkspace { workspace } => {
                let mut text = "workspace ".to_owned();
                text.append(workspace.spell().as_str());
                text.append(" is indexed more than once");
                text
            },
            TopologyFault::NoActive { space } => {
                let mut text = "native space ".to_owned();
                text.append(decimal_string(space.id).as_str());
                text.append(" has no active workspace");
                text
            },
            TopologyFault::InvalidActive { space } => {
                let mut text = "native space ".to_owned();
                text.append(decimal_string(space.id).as_str());
                text.append(" has an invalid active workspace");
                text
            },
            TopologyFault::InvalidPrevious { space } => {
                let mut text = "native space ".to_owned();
                text.append(decimal_string(space.id).as_str());
                text.append(" has an invalid previous workspace");
                text
            },
            TopologyFault::UnlistedWorkspace { workspace, owner } => {
                let mut text = "workspace ".to_owned();
                text.append(workspace.spell().as_str());
                text.append(" for native space ");
                text.append(decimal_string(owner.id).as_str());
                text.append(" is not indexed");
                text
            },
            TopologyFault::UnknownSpace { space } => {
                let mut text = "active workspace state references unknown native space ".to_owned();
                text.append(decimal_string(space.id).as_str());
                text
            },
        }
    }
}

/// The first fault that `fault` finds among some things, in order.
pub open spec fn first_fault<T>(
    things: Seq<T>,
    fault: spec_fn(T) -> Option<TopologyFault>,
) -> Option<TopologyFault>
    decreases things.len(),
{
    if things.len() == 0 {
        None
    } else {
        match first_fault(things.drop_last(), fault) {
            Some(found) => Some(found),
            None => fault(things.last()),
        }
    }
}

impl StoreState {
    /// What is wrong with a workspace that a space lists at a place.
    pub open spec fn entry_fault(self, space: SpaceId) -> spec_fn(int) -> Option<TopologyFault> {
        let list = self.list_of(space);
        |place: int|
            {
                let workspace = list[place];
                if !self.entries.contains_key(workspace) {
                    Some(TopologyFault::MissingWorkspace { space, workspace })
                } else if self.entries[workspace].space != space {
                    Some(
                        TopologyFault::ForeignWorkspace {
                            space,
                            workspace,
                            owner: self.entries[workspace].space,
                        },
                    )
                } else if list.take(place).contains(workspace) {
                    Some(TopologyFault::RepeatedWorkspace { workspace })
                } else {
                    None
                }
            }
    }

    /// What is wrong with what a space shows.
    pub open spec fn active_fault(self, space: SpaceId) -> Option<TopologyFault> {
        let list = self.list_of(space);
        match self.active.get(space.id) {
            None => Some(TopologyFault::NoActive { space }),
            Some((previous, active)) => if !list.contains(active) {
                Some(TopologyFault::InvalidActive { space })
            } else {
                match previous {
                    Some(id) if !list.contains(id) => Some(
                        TopologyFault::InvalidPrevious { space },
                    ),
                    _ => None,
                }
            },
        }
    }

    /// What is wrong with a space.
    pub open spec fn space_fault(self) -> spec_fn(u64) -> Option<TopologyFault> {
        |key: u64|
            {
                let space = SpaceId { id: key };
                let list = self.list_of(space);
                if list.len() == 0 {
                    Some(TopologyFault::NoWorkspaces { space })
                } else {
                    match first_fault(
                        Seq::new(list.len(), |place: int| place),
                        self.entry_fault(space),
                    ) {
                        Some(fault) => Some(fault),
                        None => self.active_fault(space),
                    }
                }
            }
    }

    /// What is wrong with a workspace.
    pub open spec fn listing_fault(self) -> spec_fn(VirtualWorkspaceId) -> Option<TopologyFault> {
        |workspace: VirtualWorkspaceId|
            if self.listed(workspace) {
                None
            } else {
                Some(
                    TopologyFault::UnlistedWorkspace {
                        workspace,
                        owner: self.entries[workspace].space,
                    },
                )
            }
    }

    /// What is wrong with a space that shows a workspace.
    pub open spec fn shown_fault(self) -> spec_fn(u64) -> Option<TopologyFault> {
        |key: u64|
            if self.by_space.contains_key(key) {
                None
            } else {
                Some(TopologyFault::UnknownSpace { space: SpaceId { id: key } })
            }
    }

    /// The first fault of the topology: of a space with a list, of a workspace,
    /// or of a space that shows a workspace, each in ascending order.
    pub open spec fn topology_fault(self) -> Option<TopologyFault> {
        match first_fault(listing(self.by_space.dom()), self.space_fault()) {
            Some(fault) => Some(fault),
            None => match first_fault(listing(self.entries.dom()), self.listing_fault()) {
                Some(fault) => Some(fault),
                None => first_fault(listing(self.active.dom()), self.shown_fault()),
            },
        }
    }
}

/// Whether there is a fault, one thing further.
proof fn lemma_first_fault_take<T>(
    things: Seq<T>,
    fault: spec_fn(T) -> Option<TopologyFault>,
    i: int,
)
    requires
        0 <= i < things.len(),
    ensures
        first_fault(things.take(i + 1), fault) == match first_fault(things.take(i), fault) {
            Some(found) => Some(found),
            None => fault(things[i]),
        },
{
    assert(things.take(i + 1).drop_last() =~= things.take(i));
}

/// A fault found among the first things is the first fault of all.
proof fn lemma_first_fault_stays<T>(
    things: Seq<T>,
    fault: spec_fn(T) -> Option<TopologyFault>,
    i: int,
)
    requires
        0 <= i <= things.len(),
        first_fault(things.take(i), fault) is Some,
    ensures
        first_fault(things, fault) == first_fault(things.take(i), fault),
    decreases things.len() - i,
{
    if i < things.len() {
        lemma_first_fault_take(things, fault, i);
        lemma_first_fault_stays(things, fault, i + 1);
    } else {
        assert(things.take(i) =~= things);
    }
}

/// No thing has a fault exactly where there is no first one.
pub proof fn lemma_no_fault<T>(things: Seq<T>, fault: spec_fn(T) -> Option<TopologyFault>)
    ensures
        first_fault(things, fault) is None <==> forall|i: int|
            0 <= i < things.len() ==> fault(#[trigger] things[i]) is None,
    decreases things.len(),
{
    if things.len() > 0 {
        let rest = things.drop_last();
        lemma_no_fault(rest, fault);
        if first_fault(things, fault) is None {
            assert forall|i: int| 0 <= i < things.len() implies fault(
                #[trigger] things[i],
            ) is None by {
                if i < rest.len() {
                    assert(rest[i] == things[i]);
                }
            }
        }
        if forall|i: int| 0 <= i < things.len() ==> fault(#[trigger] things[i]) is None {
            assert forall|i: int| 0 <= i < rest.len() implies fault(#[trigger] rest[i]) is None by {
                assert(rest[i] == things[i]);
            }
            assert(fault(things[things.len() - 1]) is None);
        }
    }
}

impl WorkspaceStore {
    /// What is wrong with a space.
    fn find_space_fault(&self, key: u64) -> (r: Option<TopologyFault>)
        ensures
            r == (self@.space_fault())(key),
    {
        let space = SpaceId { id: key };
        let list = self.list(space);
        if list.len() == 0 {
            return Some(TopologyFault::NoWorkspaces { space });
        }
        let ghost places = Seq::new(list@.len(), |place: int| place);
        let ghost fault = self@.entry_fault(space);
        let mut seen: Vec<VirtualWorkspaceId> = Vec::new();
        let mut i: usize = 0;
        while i < list.len()
            invariant
                i <= list.len(),
                space == (SpaceId { id: key }),
                list@ == self@.list_of(space),
                list.len() > 0,
                places == Seq::new(list@.len(), |place: int| place),
                fault == self@.entry_fault(space),
                seen@ == list@.take(i as int),
                first_fault(places.take(i as int), fault) is None,
            decreases list.len() - i,
        {
            let workspace = list[i];
            proof {
                lemma_first_fault_take(places, fault, i as int);
            }
            let found = match self.workspace_space(workspace) {
                None => Some(TopologyFault::MissingWorkspace { space, workspace }),
                Some(owner) => if owner != space {
                    Some(TopologyFault::ForeignWorkspace { space, workspace, owner })
                } else if place_in(&seen, workspace).is_some() {
                    Some(TopologyFault::RepeatedWorkspace { workspace })
                } else {
                    None
                },
            };
            assert(found == fault(i as int)) by {
                seen@.index_of_first_ensures(workspace);
            }
            if found.is_some() {
                proof {
                    lemma_first_fault_stays(places, fault, i + 1);
                }
                return found;
            }
            seen.push(workspace);
            assert(seen@ =~= list@.take(i + 1));
            i += 1;
        }
        assert(places.take(places.len() as int) =~= places);
        match self.active_pair(space) {
            None => Some(TopologyFault::NoActive { space }),
            Some((previous, active)) => if place_in(&list, active).is_none() {
                Some(TopologyFault::InvalidActive { space })
            } else {
                match previous {
                    Some(id) => if place_in(&list, id).is_none() {
                        Some(TopologyFault::InvalidPrevious { space })
                    } else {
                        None
                    },
                    None => None,
                }
            },
        }
    }

    /// Some space lists the workspace.
    fn is_listed(&self, id: VirtualWorkspaceId) -> (r: bool)
        ensures
            r == self@.listed(id),
    {
        let keys = self.space_keys();
        let mut i: usize = 0;
        while i < keys.len()
            invariant
                i <= keys.len(),
                keys@.to_set() == self@.by_space.dom(),
                forall|j: int| 0 <= j < i ==> !(#[trigger] self@.by_space[keys@[j]]).contains(id),
            decreases keys.len() - i,
        {
            let list = self.list(SpaceId { id: keys[i] });
            proof {
                assert(keys@.to_set().contains(keys@[i as int]));
                assert(list@ == self@.by_space[keys@[i as int]]);
                list@.index_of_first_ensures(id);
            }
            if place_in(&list, id).is_some() {
                return true;
            }
            i += 1;
        }
        proof {
            assert forall|key: u64| self@.by_space.contains_key(key) implies !(
            #[trigger] self@.by_space[key]).contains(id) by {
                assert(keys@.to_set().contains(key));
                let j = choose|j: int| 0 <= j < keys.len() && keys@[j] == key;
                assert(!self@.by_space[keys@[j]].contains(id));
            }
        }
        false
    }

    /// The first fault of the topology.
    pub fn topology_fault(&self) -> (r: Option<TopologyFault>)
        ensures
            r == self@.topology_fault(),
    {
        let keys = self.space_keys();
        let ghost of_space = self@.space_fault();
        let mut i: usize = 0;
        assert(keys@.take(0) =~= Seq::empty());
        while i < keys.len()
            invariant
                i <= keys.len(),
                keys@ == listing(self@.by_space.dom()),
                of_space == self@.space_fault(),
                first_fault(keys@.take(i as int), of_space) is None,
            decreases keys.len() - i,
        {
            proof {
                lemma_first_fault_take(keys@, of_space, i as int);
            }
            let found = self.find_space_fault(keys[i]);
            if found.is_some() {
                proof {
                    lemma_first_fault_stays(keys@, of_space, i + 1);
                }
                return found;
            }
            i += 1;
        }
        assert(keys@.take(keys.len() as int) =~= keys@);
        let ids = self.workspace_ids();
        let ghost of_workspace = self@.listing_fault();
        let mut j: usize = 0;
        assert(ids@.take(0) =~= Seq::empty());
        while j < ids.len()
            invariant
                j <= ids.len(),
                keys@ == listing(self@.by_space.dom()),
                first_fault(keys@, self@.space_fault()) is None,
                ids@ == listing(self@.entries.dom()),
                ids@.to_set() == self@.entries.dom(),
                of_workspace == self@.listing_fault(),
                first_fault(ids@.take(j as int), of_workspace) is None,
            decreases ids.len() - j,
        {
            proof {
                lemma_first_fault_take(ids@, of_workspace, j as int);
                assert(ids@.to_set().contains(ids@[j as int]));
            }
            if !self.is_listed(ids[j]) {
                if let Some(owner) = self.workspace_space(ids[j]) {
                    proof {
                        lemma_first_fault_stays(ids@, of_workspace, j + 1);
                    }
                    return Some(TopologyFault::UnlistedWorkspace { workspace: ids[j], owner });
                }
            }
            j += 1;
        }
        assert(ids@.take(ids.len() as int) =~= ids@);
        let shown = self.active_keys();
        let ghost of_shown = self@.shown_fault();
        let mut k: usize = 0;
        assert(shown@.take(0) =~= Seq::empty());
        while k < shown.len()
            invariant
                k <= shown.len(),
                first_fault(listing(self@.by_space.dom()), self@.space_fault()) is None,
                first_fault(listing(self@.entries.dom()), self@.listing_fault()) is None,
                shown@ == listing(self@.active.dom()),
                of_shown == self@.shown_fault(),
                first_fault(shown@.take(k as int), of_shown) is None,
            decreases shown.len() - k,
        {
            proof {
                lemma_first_fault_take(shown@, of_shown, k as int);
            }
            let space = SpaceId { id: shown[k] };
            if !self.has_list(space) {
                proof {
                    lemma_first_fault_stays(shown@, of_shown, k + 1);
                }
                return Some(TopologyFault::UnknownSpace { space });
            }
            k += 1;
        }
        assert(shown@.take(shown.len() as int) =~= shown@);
        None
    }

    /// Validate the serialized workspace graph before layout code indexes into slotmaps.
    ///
    /// Persistence files are user-visible and may be old, truncated, or manually edited. Loading
    /// malformed topology must return a useful error instead of panicking later through indexing.
    pub fn validate_persisted_topology(&self) -> (r: Result<(), String>)
        ensures
            match r {
                Ok(_) => self@.topology_fault() is None,
                Err(text) => self@.topology_fault() matches Some(fault) && text@
                    == fault.described(),
            },
    {
        match self.topology_fault() {
            Some(fault) => Err(fault.describe()),
            None => Ok(()),
        }
    }
}

impl StoreState {
    /// Every space with a list lists workspaces of its own, each once and at
    /// least one, and shows and remembers none but those. Every workspace is
    /// listed, and only spaces with a list show a workspace.
    pub open spec fn well_formed_topology(self) -> bool {
        &&& forall|key: u64| #[trigger]
            self.by_space.contains_key(key) ==> self.by_space[key].len() > 0
                && self.by_space[key].no_duplicates() && self.active.contains_key(key)
                && self.by_space[key].contains(self.active[key].1) && (
            self.active[key].0 matches Some(previous) ==> self.by_space[key].contains(previous))
        &&& self.lists_owned()
        &&& forall|id: VirtualWorkspaceId| #[trigger]
            self.entries.contains_key(id) ==> self.listed(id)
        &&& forall|key: u64| #[trigger]
            self.active.contains_key(key) ==> self.by_space.contains_key(key)
    }
}

/// What the fault of a single space says.
proof fn lemma_space_fault(store: StoreState, key: u64)
    requires
        store.by_space.contains_key(key),
    ensures
        (store.space_fault())(key) is None <==> {
            &&& store.by_space[key].len() > 0
            &&& store.by_space[key].no_duplicates()
            &&& forall|id: VirtualWorkspaceId| #[trigger]
                store.by_space[key].contains(id) ==> store.owns(SpaceId { id: key }, id)
            &&& store.active.contains_key(key)
            &&& store.by_space[key].contains(store.active[key].1)
            &&& (store.active[key].0 matches Some(previous) ==> store.by_space[key].contains(
                previous,
            ))
        },
{
    let space = SpaceId { id: key };
    let list = store.by_space[key];
    let places = Seq::new(list.len(), |place: int| place);
    let fault = store.entry_fault(space);
    lemma_no_fault(places, fault);
    if first_fault(places, fault) is None {
        assert forall|place: int| 0 <= place < list.len() implies store.owns(
            space,
            #[trigger] list[place],
        ) && !list.take(place).contains(list[place]) by {
            assert(fault(places[place]) is None);
        }
        assert forall|id: VirtualWorkspaceId| #[trigger] list.contains(id) implies store.owns(
            space,
            id,
        ) by {
            let place = choose|place: int| 0 <= place < list.len() && list[place] == id;
            assert(store.owns(space, list[place]));
        }
        assert forall|i: int, j: int| 0 <= i < list.len() && 0 <= j < list.len() && i
            != j implies list[i] != list[j] by {
            if i < j {
                assert(list.take(j)[i] == list[i]);
                assert(!list.take(j).contains(list[j]));
            } else {
                assert(list.take(i)[j] == list[j]);
                assert(!list.take(i).contains(list[i]));
            }
        }
    }
    if list.no_duplicates() && (forall|id: VirtualWorkspaceId| #[trigger]
        list.contains(id) ==> store.owns(space, id)) {
        assert forall|i: int| 0 <= i < places.len() implies fault(#[trigger] places[i]) is None by {
            assert(list.contains(list[i]));
            if list.take(i).contains(list[i]) {
                let j = choose|j: int| 0 <= j < i && list.take(i)[j] == list[i];
                assert(list[j] == list[i]);
            }
        }
    }
}

// What a fault says.

impl StoreState {
    /// The workspace that a space lists at a place is there, belongs to the space
    /// and is not listed at an earlier place.
    pub open spec fn place_is_sound(self, key: u64, place: int) -> bool {
        let list = self.by_space[key];
        &&& self.entries.contains_key(list[place])
        &&& self.entries[list[place]].space.id == key
        &&& forall|earlier: int| 0 <= earlier < place ==> #[trigger] list[earlier] != list[place]
    }

    /// A fault says what is wrong with the workspace that a space lists at a
    /// place.
    pub open spec fn is_place_fault(self, key: u64, place: int, fault: TopologyFault) -> bool {
        let workspace = self.by_space[key][place];
        if !self.entries.contains_key(workspace) {
            fault == (TopologyFault::MissingWorkspace { space: SpaceId { id: key }, workspace })
        } else if self.entries[workspace].space.id != key {
            fault == (TopologyFault::ForeignWorkspace {
                space: SpaceId { id: key },
                workspace,
                owner: self.entries[workspace].space,
            })
        } else {
            fault == (TopologyFault::RepeatedWorkspace { workspace })
        }
    }

    /// A fault says what is wrong with a space at the first place at which
    /// something is.
    pub open spec fn is_first_place_fault(
        self,
        key: u64,
        place: int,
        fault: TopologyFault,
    ) -> bool {
        &&& 0 <= place < self.by_space[key].len()
        &&& !self.place_is_sound(key, place)
        &&& self.is_place_fault(key, place, fault)
        &&& forall|earlier: int|
            0 <= earlier < place ==> #[trigger] self.place_is_sound(key, earlier)
    }

    /// Nothing is wrong with what a space lists.
    pub open spec fn list_is_sound(self, key: u64) -> bool {
        &&& self.by_space[key].len() > 0
        &&& forall|place: int|
            0 <= place < self.by_space[key].len() ==> #[trigger] self.place_is_sound(key, place)
    }

    /// Nothing is wrong with what a space lists, shows and remembers.
    pub open spec fn space_is_sound(self, key: u64) -> bool {
        &&& self.list_is_sound(key)
        &&& self.active.contains_key(key)
        &&& self.by_space[key].contains(self.active[key].1)
        &&& self.active[key].0 matches Some(previous) ==> self.by_space[key].contains(previous)
    }

    /// A fault says what is wrong with a space: that it lists nothing, or else the
    /// first thing that is wrong with its list, or else with what it shows, or
    /// else with what it remembers.
    pub open spec fn is_space_fault(self, key: u64, fault: TopologyFault) -> bool {
        let space = SpaceId { id: key };
        if self.by_space[key].len() == 0 {
            fault == (TopologyFault::NoWorkspaces { space })
        } else if !self.list_is_sound(key) {
            exists|place: int| #[trigger] self.is_first_place_fault(key, place, fault)
        } else if !self.active.contains_key(key) {
            fault == (TopologyFault::NoActive { space })
        } else if !self.by_space[key].contains(self.active[key].1) {
            fault == (TopologyFault::InvalidActive { space })
        } else {
            fault == (TopologyFault::InvalidPrevious { space })
        }
    }

    /// A fault says what is wrong with the first space with which something is.
    pub open spec fn is_first_space_fault(self, key: u64, fault: TopologyFault) -> bool {
        &&& self.by_space.contains_key(key)
        &&& !self.space_is_sound(key)
        &&& self.is_space_fault(key, fault)
        &&& forall|other: u64| #[trigger]
            self.by_space.contains_key(other) && other < key ==> self.space_is_sound(other)
    }

    /// A fault says that no space lists a workspace, the first such.
    pub open spec fn is_first_listing_fault(
        self,
        workspace: VirtualWorkspaceId,
        fault: TopologyFault,
    ) -> bool {
        &&& self.entries.contains_key(workspace)
        &&& !self.listed(workspace)
        &&& fault == (TopologyFault::UnlistedWorkspace {
            workspace,
            owner: self.entries[workspace].space,
        })
        &&& forall|other: VirtualWorkspaceId| #[trigger]
            self.entries.contains_key(other) && other.rank() < workspace.rank() ==> self.listed(
                other,
            )
    }

    /// A fault says that a space shows a workspace and has no list, the first
    /// such.
    pub open spec fn is_first_shown_fault(self, key: u64, fault: TopologyFault) -> bool {
        &&& self.active.contains_key(key)
        &&& !self.by_space.contains_key(key)
        &&& fault == (TopologyFault::UnknownSpace { space: SpaceId { id: key } })
        &&& forall|other: u64| #[trigger]
            self.active.contains_key(other) && other < key ==> self.by_space.contains_key(other)
    }
}

/// The first fault is that of some thing, and no thing before it has one.
proof fn lemma_fault_found<T>(things: Seq<T>, fault: spec_fn(T) -> Option<TopologyFault>) -> (at:
    int)
    requires
        first_fault(things, fault) is Some,
    ensures
        0 <= at < things.len(),
        fault(things[at]) == first_fault(things, fault),
        forall|j: int| 0 <= j < at ==> fault(#[trigger] things[j]) is None,
    decreases things.len(),
{
    let rest = things.drop_last();
    if first_fault(rest, fault) is Some {
        let at = lemma_fault_found(rest, fault);
        assert(rest[at] == things[at]);
        assert forall|j: int| 0 <= j < at implies fault(#[trigger] things[j]) is None by {
            assert(rest[j] == things[j]);
        }
        at
    } else {
        lemma_no_fault(rest, fault);
        assert forall|j: int| 0 <= j < things.len() - 1 implies fault(
            #[trigger] things[j],
        ) is None by {
            assert(rest[j] == things[j]);
        }
        things.len() - 1
    }
}

/// A place has a fault exactly where it is not sound, and then the right one.
proof fn lemma_place_fault(store: StoreState, key: u64, place: int)
    requires
        store.by_space.contains_key(key),
        0 <= place < store.by_space[key].len(),
    ensures
        ({
            let fault = (store.entry_fault(SpaceId { id: key }))(place);
            &&& fault is None <==> store.place_is_sound(key, place)
            &&& fault matches Some(found) ==> store.is_place_fault(key, place, found)
        }),
{
    let list = store.by_space[key];
    assert(list == store.list_of(SpaceId { id: key }));
    if list.take(place).contains(list[place]) {
        let j = choose|j: int| 0 <= j < place && list.take(place)[j] == list[place];
        assert(list[j] == list[place]);
    } else {
        assert forall|j: int| 0 <= j < place implies #[trigger] list[j] != list[place] by {
            assert(list.take(place)[j] == list[j]);
        }
    }
}

/// A space has a fault exactly where it is not sound, and then the right one.
proof fn lemma_fault_of_space(store: StoreState, key: u64)
    requires
        store.by_space.contains_key(key),
    ensures
        (store.space_fault())(key) is None <==> store.space_is_sound(key),
        (store.space_fault())(key) matches Some(found) ==> store.is_space_fault(key, found),
{
    let space = SpaceId { id: key };
    let list = store.by_space[key];
    let places = Seq::new(list.len(), |place: int| place);
    let fault = store.entry_fault(space);
    assert(list == store.list_of(space));
    lemma_no_fault(places, fault);
    assert forall|place: int| 0 <= place < list.len() implies (fault(#[trigger] places[place]) is None
        <==> store.place_is_sound(key, place)) by {
        lemma_place_fault(store, key, place);
    }
    if first_fault(places, fault) is None {
        assert forall|place: int| 0 <= place < list.len() implies #[trigger] store.place_is_sound(
            key,
            place,
        ) by {
            assert(fault(places[place]) is None);
        }
    } else {
        let at = lemma_fault_found(places, fault);
        lemma_place_fault(store, key, at);
        let found = first_fault(places, fault)->0;
        assert(places[at] == at);
        assert(!store.place_is_sound(key, at));
        assert forall|earlier: int| 0 <= earlier < at implies #[trigger] store.place_is_sound(
            key,
            earlier,
        ) by {
            assert(fault(places[earlier]) is None);
        }
        assert(store.is_first_place_fault(key, at, found));
    }
}

/// The fault that is found is there, and it is the first: of the first space with
/// which something is wrong; or, where all spaces are in order, of the first
/// workspace that no space lists; or, where all are listed, of the first space
/// that shows a workspace and has no list.
#[verifier::spinoff_prover]
#[verifier::rlimit(40)]
pub proof fn fault_found_is_the_first(store: StoreState)
    requires
        store.entries.dom().finite(),
        store.by_space.dom().finite(),
        store.active.dom().finite(),
    ensures
        store.topology_fault() matches Some(fault) ==> if exists|key: u64| #[trigger]
            store.by_space.contains_key(key) && !store.space_is_sound(key) {
            exists|key: u64| #[trigger] store.is_first_space_fault(key, fault)
        } else if exists|id: VirtualWorkspaceId| #[trigger]
            store.entries.contains_key(id) && !store.listed(id) {
            exists|id: VirtualWorkspaceId| #[trigger] store.is_first_listing_fault(id, fault)
        } else {
            exists|key: u64| #[trigger] store.is_first_shown_fault(key, fault)
        },
{
    if let Some(fault) = store.topology_fault() {
        let spaces = listing(store.by_space.dom());
        let ids = listing(store.entries.dom());
        let shown = listing(store.active.dom());
        lemma_listing(store.by_space.dom());
        lemma_listing(store.entries.dom());
        lemma_listing(store.active.dom());
        lemma_no_fault(spaces, store.space_fault());
        lemma_no_fault(ids, store.listing_fault());
        lemma_no_fault(shown, store.shown_fault());
        assert forall|i: int| 0 <= i < spaces.len() implies ((store.space_fault())(
            #[trigger] spaces[i],
        ) is None <==> store.space_is_sound(spaces[i])) by {
            assert(spaces.contains(spaces[i]));
            assert(store.by_space.dom().contains(spaces[i]));
            lemma_fault_of_space(store, spaces[i]);
        }
        if first_fault(spaces, store.space_fault()) is Some {
            let at = lemma_fault_found(spaces, store.space_fault());
            let key = spaces[at];
            assert(spaces.contains(key));
            assert(store.by_space.dom().contains(key));
            lemma_fault_of_space(store, key);
            assert forall|other: u64| #[trigger]
                store.by_space.contains_key(other) && other < key implies store.space_is_sound(
                other,
            ) by {
                assert(spaces.contains(other));
                let j = choose|j: int| 0 <= j < spaces.len() && spaces[j] == other;
                if at <= j {
                    assert(at < j ==> Ranked::rank(spaces[at]) < Ranked::rank(spaces[j]));
                }
                assert((store.space_fault())(spaces[j]) is None);
            }
            assert(store.is_first_space_fault(key, fault));
        } else {
            assert forall|key: u64| #[trigger]
                store.by_space.contains_key(key) implies store.space_is_sound(key) by {
                assert(spaces.contains(key));
                let j = choose|j: int| 0 <= j < spaces.len() && spaces[j] == key;
                assert((store.space_fault())(spaces[j]) is None);
            }
            if first_fault(ids, store.listing_fault()) is Some {
                let at = lemma_fault_found(ids, store.listing_fault());
                let id = ids[at];
                assert(ids.contains(id));
                assert(store.entries.dom().contains(id));
                assert forall|other: VirtualWorkspaceId| #[trigger]
                    store.entries.contains_key(other) && other.rank()
                        < id.rank() implies store.listed(other) by {
                    assert(ids.contains(other));
                    let j = choose|j: int| 0 <= j < ids.len() && ids[j] == other;
                    if at <= j {
                        assert(at < j ==> ids[at].rank() < ids[j].rank());
                    }
                    assert((store.listing_fault())(ids[j]) is None);
                }
                assert(store.is_first_listing_fault(id, fault));
            } else {
                assert forall|id: VirtualWorkspaceId| #[trigger]
                    store.entries.contains_key(id) implies store.listed(id) by {
                    assert(ids.contains(id));
                    let j = choose|j: int| 0 <= j < ids.len() && ids[j] == id;
                    assert((store.listing_fault())(ids[j]) is None);
                }
                let at = lemma_fault_found(shown, store.shown_fault());
                let key = shown[at];
                assert(shown.contains(key));
                assert(store.active.dom().contains(key));
                assert forall|other: u64| #[trigger]
                    store.active.contains_key(other) && other
                        < key implies store.by_space.contains_key(other) by {
                    assert(shown.contains(other));
                    let j = choose|j: int| 0 <= j < shown.len() && shown[j] == other;
                    if at <= j {
                        assert(at < j ==> Ranked::rank(shown[at]) < Ranked::rank(shown[j]));
                    }
                    assert((store.shown_fault())(shown[j]) is None);
                }
                assert(store.is_first_shown_fault(key, fault));
            }
        }
    }
}

/// A topology passes exactly where it is well-formed.
pub proof fn valid_exactly_where_well_formed(store: StoreState)
    requires
        store.entries.dom().finite(),
        store.by_space.dom().finite(),
        store.active.dom().finite(),
    ensures
        store.topology_fault() is None <==> store.well_formed_topology(),
{
    let keys = listing(store.by_space.dom());
    let ids = listing(store.entries.dom());
    let shown = listing(store.active.dom());
    lemma_listing(store.by_space.dom());
    lemma_listing(store.entries.dom());
    lemma_listing(store.active.dom());
    lemma_no_fault(keys, store.space_fault());
    lemma_no_fault(ids, store.listing_fault());
    lemma_no_fault(shown, store.shown_fault());
    assert forall|key: u64| #[trigger] store.by_space.contains_key(key) implies (
    (store.space_fault())(key) is None <==> {
        &&& store.by_space[key].len() > 0
        &&& store.by_space[key].no_duplicates()
        &&& forall|id: VirtualWorkspaceId| #[trigger]
            store.by_space[key].contains(id) ==> store.owns(SpaceId { id: key }, id)
        &&& store.active.contains_key(key)
        &&& store.by_space[key].contains(store.active[key].1)
        &&& (store.active[key].0 matches Some(previous) ==> store.by_space[key].contains(previous))
    }) by {
        lemma_space_fault(store, key);
    }
    if store.topology_fault() is None {
        assert forall|key: u64| #[trigger] store.by_space.contains_key(
            key,
        ) implies (store.space_fault())(key) is None by {
            assert(keys.contains(key));
            let i = choose|i: int| 0 <= i < keys.len() && keys[i] == key;
            assert((store.space_fault())(keys[i]) is None);
        }
        assert forall|id: VirtualWorkspaceId| #[trigger] store.entries.contains_key(
            id,
        ) implies store.listed(id) by {
            assert(ids.contains(id));
            let i = choose|i: int| 0 <= i < ids.len() && ids[i] == id;
            assert((store.listing_fault())(ids[i]) is None);
        }
        assert forall|key: u64| #[trigger] store.active.contains_key(
            key,
        ) implies store.by_space.contains_key(key) by {
            assert(shown.contains(key));
            let i = choose|i: int| 0 <= i < shown.len() && shown[i] == key;
            assert((store.shown_fault())(shown[i]) is None);
        }
    }
    if store.well_formed_topology() {
        assert forall|i: int| 0 <= i < keys.len() implies (store.space_fault())(
            #[trigger] keys[i],
        ) is None by {
            assert(keys.contains(keys[i]));
            assert(store.by_space.contains_key(keys[i]));
        }
        assert forall|i: int| 0 <= i < ids.len() implies (store.listing_fault())(
            #[trigger] ids[i],
        ) is None by {
            assert(ids.contains(ids[i]));
            assert(store.entries.contains_key(ids[i]));
        }
        assert forall|i: int| 0 <= i < shown.len() implies (store.shown_fault())(
            #[trigger] shown[i],
        ) is None by {
            assert(shown.contains(shown[i]));
            assert(store.active.contains_key(shown[i]));
        }
    }
}

/// A topology that passes is consistent, so that what follows from consistency
/// holds of a store that was read back.
pub proof fn valid_is_consistent(store: StoreState)
    requires
        store.entries.dom().finite(),
        store.by_space.dom().finite(),
        store.active.dom().finite(),
        store.slots_in_order(),
        store.topology_fault() is None,
    ensures
        store.consistent(),
{
    valid_exactly_where_well_formed(store);
    assert(store.lists_distinct()) by {
        assert forall|key: u64| store.by_space.contains_key(key) implies (
        #[trigger] store.by_space[key]).no_duplicates() by {}
    }
    assert(store.all_listed()) by {
        assert forall|id: VirtualWorkspaceId| #[trigger]
            store.entries.contains_key(id) implies store.by_space.contains_key(
            store.entries[id].space.id,
        ) && store.by_space[store.entries[id].space.id].contains(id) by {
            assert(store.listed(id));
            let key = choose|key: u64|
                store.by_space.contains_key(key) && (#[trigger] store.by_space[key]).contains(id);
            assert(store.owns(SpaceId { id: key }, id));
        }
    }
    assert(store.active_listed()) by {
        assert forall|key: u64| #[trigger]
            store.active.contains_key(key) implies store.by_space.contains_key(key)
            && store.by_space[key].contains(store.active[key].1) && (
        store.active[key].0 matches Some(previous) ==> store.by_space[key].contains(previous)) by {
            assert(store.by_space.contains_key(key));
        }
    }
}

/// A consistent store passes once every space with a list has and shows a
/// workspace.
pub proof fn consistent_and_served_is_valid(store: StoreState)
    requires
        store.consistent(),
        forall|key: u64| #[trigger] store.by_space.contains_key(key) ==> store.serves(key),
    ensures
        store.topology_fault() is None,
{
    assert(store.active.dom().subset_of(store.by_space.dom())) by {
        assert forall|key: u64| store.active.dom().contains(
            key,
        ) implies store.by_space.dom().contains(key) by {
            assert(store.active.contains_key(key));
        }
    }
    vstd::set_lib::lemma_len_subset(store.active.dom(), store.by_space.dom());
    assert(store.well_formed_topology()) by {
        assert forall|key: u64| #[trigger] store.by_space.contains_key(
            key,
        ) implies store.by_space[key].len() > 0 && store.by_space[key].no_duplicates()
            && store.active.contains_key(key) && store.by_space[key].contains(store.active[key].1)
            && (store.active[key].0 matches Some(previous) ==> store.by_space[key].contains(
            previous,
        )) by {
            assert(store.serves(key));
            assert(store.active.contains_key(key));
        }
        assert forall|id: VirtualWorkspaceId| #[trigger] store.entries.contains_key(
            id,
        ) implies store.listed(id) by {
            assert(store.by_space[store.entries[id].space.id].contains(id));
        }
    }
    valid_exactly_where_well_formed(store);
}

/// A pool that was fitted to the displays passes, where there are at least as
/// many workspaces as spaces on display.
pub proof fn arranged_is_valid(
    desk: crate::desktop::Desktop,
    visible: Seq<crate::desktop::DisplayState>,
)
    requires
        desk.store.consistent(),
        desk.store.settings.shared,
        visible.len() > 0,
        desk.store.upcoming.len() >= desk.store.pool_shortfall(),
        desk.store.global_ids().len() + desk.store.pool_shortfall()
            >= crate::topology::shown_keys(visible).len(),
    ensures
        desk.arranged(visible).store.topology_fault() is None,
{
    crate::topology::arranged_serves_every_display(desk, visible);
    let after = desk.arranged(visible);
    assert forall|key: u64| #[trigger] after.store.by_space.contains_key(
        key,
    ) implies after.store.serves(key) by {
        assert(crate::desktop::shown_on(visible, key));
        let i = choose|i: int| 0 <= i < visible.len() && (#[trigger] visible[i]).0.id == key;
        assert(after.store.serves(visible[i].0.id));
    }
    consistent_and_served_is_valid(after.store);
}

} // verus!
