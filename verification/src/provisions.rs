//! What the settings provide: how many workspaces there are, and how new ones
//! look.
use crate::growth::lemma_pushed_from;
use crate::ids::SpaceId;
use crate::ids::VirtualWorkspaceId;
use crate::layout::started_system;
use crate::layout::BaseSettings;
use crate::layout::LayoutMode;
use crate::layout::LayoutSettings;
use crate::layout::LayoutSystemKind;
use crate::layout::WindowInsertionPoint;
use crate::selectors::DisplaySelection;
use crate::selectors::DisplaySelector;
use crate::selectors::Selection;
use crate::selectors::WorkspaceSelector;
use crate::settings::LayoutRule;
use crate::settings::VirtualWorkspaceSettings;
use crate::soundness::added_is_consistent;
use crate::soundness::lemma_started_entries;
use crate::soundness::pool_is_everything;
use crate::soundness::pushed_is_consistent;
use crate::state::numbered_name;
use crate::state::ruled_mode;
use crate::state::StoreSettings;
use crate::state::StoreState;
use crate::text::decimal;
use crate::text::decimal_round_trip;
use crate::text::digits_value;
use crate::workspace::Failure;
use crate::workspace::WorkspaceState;
use crate::order::listing;
use vstd::prelude::*;

verus! {

/// The settings ask for the number of workspaces that they name, but for at
/// least one and for no more than the limit.
pub proof fn count_is_limited(settings: StoreSettings)
    requires
        settings.max_workspaces > 0,
    ensures
        1 <= settings.target_count() <= settings.max_workspaces,
        1 <= settings.default_workspace_count <= settings.max_workspaces
            ==> settings.target_count() == settings.default_workspace_count,
        settings.default_workspace_count == 0 ==> settings.target_count() == 1,
        settings.default_workspace_count > settings.max_workspaces ==> settings.target_count()
            == settings.max_workspaces,
{
}

/// Both say the same of a workspace.
pub open spec fn says_workspace(selection: Selection, selector: WorkspaceSelector) -> bool {
    match selector {
        WorkspaceSelector::Index(index) => selection == Selection::Index(index as nat),
        WorkspaceSelector::Name(name) => selection == Selection::Name(name@),
    }
}

/// Both say the same of a display.
pub open spec fn says_display(selection: DisplaySelection, selector: DisplaySelector) -> bool {
    match selector {
        DisplaySelector::Direction(direction) => selection == DisplaySelection::Direction(direction),
        DisplaySelector::Cycle(cycle) => selection == DisplaySelection::Cycle(cycle),
        DisplaySelector::Index(index) => selection == DisplaySelection::Index(index as nat),
        DisplaySelector::Uuid(uuid) => selection == DisplaySelection::Uuid(uuid@),
    }
}

/// A store goes by what its configuration says, one thing for one. The place of
/// the default workspace is brought within the number of workspaces.
pub proof fn configuration_is_gone_by(
    config: VirtualWorkspaceSettings,
    layout_settings: LayoutSettings,
    max_workspaces: nat,
)
    requires
        max_workspaces > 0,
    ensures
        ({
            let settings = StoreSettings::given(config, layout_settings, max_workspaces);
            let target = settings.target_count();
            &&& settings.max_workspaces == max_workspaces
            &&& settings.default_workspace_count == config.default_workspace_count
            &&& settings.workspace_names.len() == config.workspace_names@.len()
            &&& forall|i: int|
                0 <= i < config.workspace_names@.len() ==> #[trigger] settings.workspace_names[i]
                    == config.workspace_names@[i]@
            &&& config.default_workspace < target ==> settings.default_workspace
                == config.default_workspace
            &&& config.default_workspace >= target ==> settings.default_workspace == target - 1
            &&& settings.auto_back_and_forth == config.workspace_auto_back_and_forth
            &&& settings.prevent_wrapping == config.prevent_wrapping
            &&& settings.shared == config.shared_across_displays
            &&& settings.layout_mode == layout_settings.mode
            &&& settings.layout_settings == layout_settings
            &&& settings.layout_rules.len() == config.workspace_rules@.len()
            &&& forall|i: int|
                0 <= i < config.workspace_rules@.len() ==> (
                #[trigger] settings.layout_rules[i]).layout == config.workspace_rules@[i].layout
                    && says_workspace(
                    settings.layout_rules[i].workspace,
                    config.workspace_rules@[i].workspace,
                )
            &&& settings.display_assignment.len() == config.workspace_display_assignment@.len()
            &&& forall|i: int|
                0 <= i < config.workspace_display_assignment@.len() ==> says_workspace(
                    (#[trigger] settings.display_assignment[i]).workspace,
                    config.workspace_display_assignment@[i].workspace,
                ) && says_display(
                    settings.display_assignment[i].display,
                    config.workspace_display_assignment@[i].display,
                )
        }),
{
}

/// New settings leave all that a store holds alone but the order of its lists,
/// and give it a limit where it has none.
pub proof fn settings_are_taken_over(
    store: StoreState,
    config: VirtualWorkspaceSettings,
    layout_settings: LayoutSettings,
)
    ensures
        ({
            let under = store.under(config, layout_settings);
            &&& store.settings.max_workspaces > 0 ==> under.settings == StoreSettings::given(
                config,
                layout_settings,
                store.settings.max_workspaces,
            )
            &&& store.settings.max_workspaces == 0 ==> under.settings == StoreSettings::given(
                config,
                layout_settings,
                32,
            )
            &&& under.entries == store.entries
            &&& under.upcoming == store.upcoming
            &&& under.active == store.active
            &&& under.counter == store.counter
            &&& under.last_global == store.last_global
            &&& under.by_space.dom() == store.by_space.dom()
            &&& forall|key: u64| #[trigger]
                store.by_space.contains_key(key) ==> under.by_space[key].to_multiset()
                    == store.by_space[key].to_multiset() && crate::order::in_order(
                    under.by_space[key],
                )
        }),
{
    let under = store.under(config, layout_settings);
    assert(under.by_space.dom() =~= store.by_space.dom());
    assert forall|key: u64| #[trigger] store.by_space.contains_key(key) implies under.by_space[
        key
    ].to_multiset() == store.by_space[key].to_multiset() && crate::order::in_order(
        under.by_space[key],
    ) by {
        crate::order::lemma_sorted(store.by_space[key]);
    }
}

// Layouts.

/// A rule is for the workspace with a place and a name.
pub open spec fn is_for(rule: LayoutRule, place: nat, name: Seq<char>) -> bool {
    rule.workspace == Selection::Index(place) || rule.workspace == Selection::Name(name)
}

/// The mode is that of the last rule for a workspace, or the general one where no
/// rule is for it.
pub open spec fn is_mode_of(
    settings: StoreSettings,
    place: nat,
    name: Seq<char>,
    mode: LayoutMode,
) -> bool {
    ||| exists|i: int|
        0 <= i < settings.layout_rules.len() && is_for(
            #[trigger] settings.layout_rules[i],
            place,
            name,
        ) && settings.layout_rules[i].layout == mode && forall|j: int|
            i < j < settings.layout_rules.len() ==> !is_for(
                #[trigger] settings.layout_rules[j],
                place,
                name,
            )
    ||| mode == settings.layout_mode && forall|i: int|
        0 <= i < settings.layout_rules.len() ==> !is_for(
            #[trigger] settings.layout_rules[i],
            place,
            name,
        )
}

proof fn lemma_ruled_mode(
    rules: Seq<LayoutRule>,
    place: nat,
    name: Seq<char>,
    otherwise: LayoutMode,
) -> (last: int)
    ensures
        -1 <= last < rules.len(),
        last >= 0 ==> is_for(rules[last], place, name) && rules[last].layout == ruled_mode(
            rules,
            place,
            name,
            otherwise,
        ),
        last == -1 ==> ruled_mode(rules, place, name, otherwise) == otherwise,
        forall|j: int| last < j < rules.len() ==> !is_for(#[trigger] rules[j], place, name),
    decreases rules.len(),
{
    if rules.len() == 0 {
        -1
    } else if is_for(rules.last(), place, name) {
        rules.len() - 1
    } else {
        let rest = rules.drop_last();
        let last = lemma_ruled_mode(rest, place, name, otherwise);
        assert forall|j: int| last < j < rules.len() implies !is_for(
            #[trigger] rules[j],
            place,
            name,
        ) by {
            if j < rest.len() {
                assert(rest[j] == rules[j]);
            }
        }
        last
    }
}

/// The last rule for a workspace decides its layout mode.
pub proof fn last_rule_decides(settings: StoreSettings, place: nat, name: Seq<char>)
    ensures
        is_mode_of(settings, place, name, settings.mode_for(place, name)),
{
    let last = lemma_ruled_mode(settings.layout_rules, place, name, settings.layout_mode);
    if last >= 0 {
        assert(is_for(settings.layout_rules[last], place, name));
    }
}

/// Where new windows go in a mode, if the settings say: as they say for the mode,
/// or else in general.
pub open spec fn point_said(settings: LayoutSettings, own: BaseSettings) -> Option<
    WindowInsertionPoint,
> {
    if own.window_insertion_point is Some {
        own.window_insertion_point
    } else {
        settings.base.window_insertion_point
    }
}

/// Where new windows go: as the settings say, or else behind the focused one.
pub open spec fn goes(settings: LayoutSettings, own: BaseSettings, point: WindowInsertionPoint) -> bool {
    match point_said(settings, own) {
        Some(said) => point == said,
        None => point == WindowInsertionPoint::AfterFocused,
    }
}

/// The layout system is the one that the mode and the settings ask for.
pub open spec fn suits(
    mode: LayoutMode,
    settings: LayoutSettings,
    system: LayoutSystemKind,
) -> bool {
    match mode {
        LayoutMode::Traditional => system matches LayoutSystemKind::Traditional {
            insertion_point,
            equalize_nodes,
        } && goes(settings, settings.traditional.base, insertion_point) && equalize_nodes
            == settings.traditional.equalize_nodes,
        LayoutMode::Bsp => system matches LayoutSystemKind::Bsp { insertion_point } && goes(
            settings,
            settings.bsp.base,
            insertion_point,
        ),
        LayoutMode::Stack => system matches LayoutSystemKind::Stack { orientation, insertion_point }
            && goes(settings, settings.stack.base, insertion_point) && orientation
            == settings.stack.default_orientation,
        LayoutMode::MasterStack => system matches LayoutSystemKind::MasterStack { master_settings }
            && master_settings.master_count == settings.master_stack.master_count
            && master_settings.base.window_insertion_point == point_said(
            settings,
            settings.master_stack.base,
        ),
        LayoutMode::Scrolling => system matches LayoutSystemKind::Scrolling { scrolling_settings }
            && scrolling_settings.visible_columns == settings.scrolling.visible_columns
            && scrolling_settings.base.window_insertion_point == point_said(
            settings,
            settings.scrolling.base,
        ),
    }
}

/// Each mode starts its own layout system, with its own settings, and with the
/// general ones where these leave something open.
pub proof fn modes_start_their_systems(mode: LayoutMode, settings: LayoutSettings)
    ensures
        suits(mode, settings, started_system(mode, settings)),
        match mode {
            LayoutMode::Traditional => goes(
                settings,
                settings.traditional.base,
                settings.insertion_point(mode),
            ) && settings.resolved_base(mode).window_insertion_point == point_said(
                settings,
                settings.traditional.base,
            ),
            LayoutMode::Bsp => goes(settings, settings.bsp.base, settings.insertion_point(mode))
                && settings.resolved_base(mode).window_insertion_point == point_said(
                settings,
                settings.bsp.base,
            ),
            LayoutMode::Stack => goes(settings, settings.stack.base, settings.insertion_point(mode))
                && settings.resolved_base(mode).window_insertion_point == point_said(
                settings,
                settings.stack.base,
            ),
            LayoutMode::MasterStack => goes(
                settings,
                settings.master_stack.base,
                settings.insertion_point(mode),
            ) && settings.resolved_base(mode).window_insertion_point == point_said(
                settings,
                settings.master_stack.base,
            ),
            LayoutMode::Scrolling => goes(
                settings,
                settings.scrolling.base,
                settings.insertion_point(mode),
            ) && settings.resolved_base(mode).window_insertion_point == point_said(
                settings,
                settings.scrolling.base,
            ),
        },
{
}

// New workspaces.

/// A workspace is new on a space, under a name, with the layout that the settings
/// ask for at its place.
pub open spec fn is_new(
    settings: StoreSettings,
    entry: WorkspaceState,
    space: SpaceId,
    place: nat,
    name: Seq<char>,
) -> bool {
    &&& entry.name == name
    &&& entry.space == space
    &&& entry.last_focused is None
    &&& is_mode_of(settings, place, name, entry.layout_mode)
    &&& suits(entry.layout_mode, settings.layout_settings, entry.layout_system)
}

proof fn lemma_fresh(settings: StoreSettings, space: SpaceId, place: nat, name: Seq<char>)
    ensures
        is_new(settings, settings.fresh(space, place, name), space, place, name),
{
    last_rule_decides(settings, place, name);
    modes_start_their_systems(settings.mode_for(place, name), settings.layout_settings);
}

/// A workspace without another name is named by a word and a number.
pub proof fn numbers_are_read_off_names(number: nat, other: nat)
    ensures
        numbered_name(number).take(10) == "Workspace "@,
        digits_value(numbered_name(number).skip(10)) == number,
        numbered_name(number) == numbered_name(other) ==> number == other,
{
    reveal_strlit("Workspace ");
    assert(numbered_name(number).take(10) =~= "Workspace "@);
    assert(numbered_name(number).skip(10) =~= decimal(number));
    assert(numbered_name(other).skip(10) =~= decimal(other));
    decimal_round_trip(number);
    decimal_round_trip(other);
}

/// A workspace that is asked for is refused exactly where as many count towards
/// the limit as it allows: those of the pool where displays share one, and else
/// those that the space lists. Else it gets the next identifier, the given name
/// or a numbered one, and the layout for its place, and is listed last. Nothing
/// else changes, but that a number is used up once.
pub proof fn asking_for_a_workspace(store: StoreState, space: SpaceId, name: Option<Seq<char>>)
    requires
        store.consistent(),
        store.upcoming.len() > 0,
        store.by_space.contains_key(space.id),
    ensures
        ({
            let after = store.with_new(space, name);
            let count = if store.settings.shared {
                store.entries.dom().len()
            } else {
                store.by_space[space.id].len()
            };
            let id = store.upcoming[0];
            &&& count >= store.settings.max_workspaces ==> {
                &&& store.creation(space) matches Err(Failure::InconsistentState(text))
                &&& text == "Maximum workspace limit ("@ + decimal(store.settings.max_workspaces)
                    + ") reached for space "@ + space.spelled()
                &&& after == store
            }
            &&& count < store.settings.max_workspaces ==> {
                &&& store.creation(space) == Ok::<VirtualWorkspaceId, Failure>(id)
                &&& !store.entries.contains_key(id)
                &&& after.entries == store.entries.insert(id, after.entries[id])
                &&& is_new(
                    store.settings,
                    after.entries[id],
                    space,
                    count,
                    match name {
                        Some(given) => given,
                        None => numbered_name(store.counter),
                    },
                )
                &&& after.upcoming == store.upcoming.skip(1)
                &&& after.by_space == store.by_space.insert(
                    space.id,
                    store.by_space[space.id].push(id),
                )
                &&& after.active == store.active
                &&& after.last_global == store.last_global
                &&& after.settings == store.settings
                &&& name is Some ==> after.counter == store.counter
                &&& name is None ==> after.counter == store.counter + 1
            }
        }),
{
    pool_is_everything(store);
    let count = store.occupied(space);
    let given = match name {
        Some(given) => given,
        None => numbered_name(store.counter),
    };
    lemma_fresh(store.settings, space, count, given);
    added_is_consistent(store, store.settings.fresh(space, count, given));
    assert(store.upcoming.drop_first() =~= store.upcoming.skip(1));
}

/// The name of the `i`-th of some new workspaces, the first of which has the
/// place `first`: the one that the settings give its place, or else a numbered
/// one. Numbers are used up in order, from `counter` on.
pub open spec fn name_in_turn(settings: StoreSettings, first: nat, i: int, counter: nat) -> Seq<
    char,
> {
    let names = settings.workspace_names;
    if first + i < names.len() {
        names[first + i]
    } else if first >= names.len() {
        numbered_name((counter + i) as nat)
    } else {
        numbered_name((counter + (first + i - names.len())) as nat)
    }
}

/// Workspaces that are added to fill up a space or the pool are new on the given
/// space, take the next identifiers, are listed last in turn, and have the names
/// and layouts for their places. Those that were there stay as they were, and so
/// does what is shown.
pub proof fn filling_up(store: StoreState, space: SpaceId, first: nat, count: nat)
    requires
        store.consistent(),
        store.upcoming.len() >= count,
    ensures
        ({
            let after = store.pushed_from(space, first, count);
            &&& forall|i: int|
                0 <= i < count ==> after.entries.contains_key(#[trigger] store.upcoming[i])
                    && is_new(
                    store.settings,
                    after.entries[store.upcoming[i]],
                    space,
                    (first + i) as nat,
                    name_in_turn(store.settings, first, i, store.counter),
                )
            &&& forall|id: VirtualWorkspaceId| #[trigger]
                after.entries.contains_key(id) <==> store.entries.contains_key(id)
                    || store.upcoming.take(count as int).contains(id)
            &&& forall|id: VirtualWorkspaceId| #[trigger]
                store.entries.contains_key(id) ==> after.entries[id] == store.entries[id]
            &&& after.upcoming == store.upcoming.skip(count as int)
            &&& after.list_of(space) == store.list_of(space) + store.upcoming.take(count as int)
            &&& forall|other: SpaceId|
                other != space ==> #[trigger] after.list_of(other) == store.list_of(other)
            &&& after.active == store.active
            &&& after.last_global == store.last_global
            &&& after.settings == store.settings
            &&& after.counter == store.counter + (if first >= store.settings.workspace_names.len() {
                count as int
            } else if first + count > store.settings.workspace_names.len() {
                first + count - store.settings.workspace_names.len()
            } else {
                0
            })
        }),
    decreases count,
{
    pushed_is_consistent(store, space, first, count);
    lemma_pushed_from(store, space, first, count);
    if count > 0 {
        let fewer = (count - 1) as nat;
        filling_up(store, space, first, fewer);
        pushed_is_consistent(store, space, first, fewer);
        lemma_pushed_from(store, space, first, fewer);
        let before = store.pushed_from(space, first, fewer);
        let after = store.pushed_from(space, first, count);
        let place = (first + count - 1) as nat;
        lemma_fresh(store.settings, space, place, before.default_name(place));
        assert(before.upcoming[0] == store.upcoming[fewer as int]);
        assert(before.default_name(place) == name_in_turn(
            store.settings,
            first,
            fewer as int,
            store.counter,
        ));
        assert forall|i: int| 0 <= i < count implies after.entries.contains_key(
            #[trigger] store.upcoming[i],
        ) && is_new(
            store.settings,
            after.entries[store.upcoming[i]],
            space,
            (first + i) as nat,
            name_in_turn(store.settings, first, i, store.counter),
        ) by {
            if i < fewer {
                assert(store.upcoming[i].index() < store.upcoming[fewer as int].index());
                assert(before.entries.contains_key(store.upcoming[i]));
            }
        }
    }
}

/// The workspaces of a new space are new on it, have the names and layouts for
/// their places, and the space shows the one at the default place, or the last
/// where the settings have none at that place.
pub proof fn starting_a_space(store: StoreState, space: SpaceId)
    requires
        store.consistent(),
        store.settings.max_workspaces > 0,
        store.upcoming.len() >= store.settings.target_count(),
        !store.by_space.contains_key(space.id),
        !store.settings.shared || store.entries.dom().is_empty(),
    ensures
        ({
            let after = store.initialized(space);
            let count = store.settings.target_count();
            let ids = store.upcoming.take(count as int);
            &&& after.by_space == store.by_space.insert(space.id, ids)
            &&& forall|i: int|
                #![trigger ids[i]]
                0 <= i < count ==> !store.entries.contains_key(ids[i]) && after.entries.contains_key(
                    ids[i],
                ) && is_new(
                    store.settings,
                    after.entries[ids[i]],
                    space,
                    i as nat,
                    if i < store.settings.workspace_names.len() {
                        store.settings.workspace_names[i]
                    } else {
                        numbered_name((i + 1) as nat)
                    },
                )
            &&& forall|id: VirtualWorkspaceId| #[trigger]
                after.entries.contains_key(id) <==> store.entries.contains_key(id) || ids.contains(
                    id,
                )
            &&& forall|id: VirtualWorkspaceId| #[trigger]
                store.entries.contains_key(id) ==> after.entries[id] == store.entries[id]
            &&& after.active == store.active.insert(
                space.id,
                (
                    None,
                    if store.settings.default_workspace < count {
                        ids[store.settings.default_workspace as int]
                    } else {
                        ids[count - 1]
                    },
                ),
            )
            &&& after.upcoming == store.upcoming.skip(count as int)
            &&& after.counter == store.counter
            &&& after.last_global == store.last_global
            &&& after.settings == store.settings
        }),
{
    let count = store.settings.target_count();
    let ids = store.upcoming.take(count as int);
    let after = store.initialized(space);
    lemma_started_entries(store, space, count);
    crate::creation::lemma_started(store, space, count);
    assert forall|i: int|
        #![trigger ids[i]]
        0 <= i < count implies !store.entries.contains_key(ids[i]) && after.entries.contains_key(
        ids[i],
    ) && is_new(
        store.settings,
        after.entries[ids[i]],
        space,
        i as nat,
        if i < store.settings.workspace_names.len() {
            store.settings.workspace_names[i]
        } else {
            numbered_name((i + 1) as nat)
        },
    ) by {
        assert(ids[i] == store.upcoming[i]);
        assert(ids.contains(ids[i]));
        if store.entries.contains_key(ids[i]) {
            assert(ids[i].index() < store.upcoming[i].index());
        }
        lemma_fresh(store.settings, space, i as nat, store.starting_name(i as nat));
    }
}

/// A space that has a list is left as it is. A new one that joins a pool gets an
/// empty list, and nothing else changes.
pub proof fn joining_the_pool(store: StoreState, space: SpaceId)
    ensures
        store.by_space.contains_key(space.id) ==> store.initialized(space) == store,
        !store.by_space.contains_key(space.id) && store.settings.shared
            && !store.entries.dom().is_empty() ==> store.initialized(space) == (StoreState {
            by_space: store.by_space.insert(space.id, Seq::empty()),
            ..store
        }),
{
}

/// There is room for the workspaces of a space wherever it has a list or joins a
/// pool, or the slots are as many as the settings ask for.
pub proof fn room_is_enough(store: StoreState, space: SpaceId)
    ensures
        store.by_space.contains_key(space.id) ==> store.can_initialize(space),
        store.settings.shared && !store.entries.dom().is_empty() ==> store.can_initialize(space),
        store.settings.max_workspaces > 0 && store.upcoming.len() >= store.settings.target_count()
            ==> store.can_initialize(space),
{
}

/// How many of `lacking` workspaces behind `there` others are named by number
/// where there are `names` names.
pub open spec fn named_by_number(names: int, there: int, lacking: int) -> int {
    if there + lacking <= names {
        0
    } else if there <= names {
        there + lacking - names
    } else {
        lacking
    }
}

/// How many there are fewer than are wanted.
pub open spec fn lacking_of(wanted: int, there: int) -> int {
    if there < wanted {
        wanted - there
    } else {
        0
    }
}

/// The pool can be fitted to the displays exactly where there are slots for the
/// workspaces that are missing, and numbers for those of them without name.
pub proof fn room_for_the_pool(store: StoreState)
    requires
        store.consistent(),
    ensures
        ({
            let there = store.entries.dom().len() as int;
            let lacking = lacking_of(store.settings.target_count() as int, there);
            store.can_arrange() <==> store.upcoming.len() >= lacking && store.counter
                + named_by_number(store.settings.workspace_names.len() as int, there, lacking)
                <= usize::MAX
        }),
{
    pool_is_everything(store);
}

/// A workspace can be asked for exactly where the space can have its workspaces,
/// and there is a slot for one more, and a number where it gets no name, unless the
/// limit is reached.
pub proof fn room_for_one_more(store: StoreState, space: SpaceId, by_number: bool)
    requires
        store.consistent(),
    ensures
        ({
            let ready = store.initialized(space);
            let there = if store.settings.shared {
                ready.global_ids().len()
            } else {
                ready.list_of(space).len()
            };
            store.can_create(space, by_number) <==> store.can_initialize(space) && (there
                < store.settings.max_workspaces ==> ready.upcoming.len() > 0 && (by_number
                ==> store.counter < usize::MAX))
        }),
{
    lemma_same_settings(store, space);
}

proof fn lemma_same_settings(store: StoreState, space: SpaceId)
    ensures
        store.initialized(space).settings == store.settings,
{
    lemma_started_settings(store, space, store.settings.target_count());
}

proof fn lemma_started_settings(store: StoreState, space: SpaceId, count: nat)
    ensures
        store.started(space, count).settings == store.settings,
    decreases count,
{
    if count > 0 {
        lemma_started_settings(store, space, (count - 1) as nat);
    }
}

/// How many slots and numbers the given spaces need.
proof fn lemma_needs_add_up(store: StoreState, keys: Seq<u64>, i: int)
    requires
        0 <= i < keys.len(),
    ensures
        store.spaces_shortfall(keys.take(i + 1)) == store.spaces_shortfall(keys.take(i))
            + lacking_of(
            store.settings.target_count() as int,
            store.list_of(SpaceId { id: keys[i] }).len() as int,
        ),
        store.spaces_unnamed(keys.take(i + 1)) == store.spaces_unnamed(keys.take(i))
            + named_by_number(
            store.settings.workspace_names.len() as int,
            store.list_of(SpaceId { id: keys[i] }).len() as int,
            lacking_of(
                store.settings.target_count() as int,
                store.list_of(SpaceId { id: keys[i] }).len() as int,
            ),
        ),
{
    assert(keys.take(i + 1).drop_last() =~= keys.take(i));
}

/// The slots and numbers that some spaces need are those that each of them needs,
/// added up.
pub open spec fn needs(store: StoreState, keys: Seq<u64>) -> (int, int)
    decreases keys.len(),
{
    if keys.len() == 0 {
        (0, 0)
    } else {
        let rest = needs(store, keys.drop_first());
        let there = if store.by_space.contains_key(keys[0]) {
            store.by_space[keys[0]].len() as int
        } else {
            0
        };
        let lacking = lacking_of(store.settings.target_count() as int, there);
        (
            rest.0 + lacking,
            rest.1 + named_by_number(store.settings.workspace_names.len() as int, there, lacking),
        )
    }
}

proof fn lemma_needs(store: StoreState, keys: Seq<u64>)
    ensures
        needs(store, keys) == (
            store.spaces_shortfall(keys) as int,
            store.spaces_unnamed(keys) as int,
        ),
    decreases keys.len(),
{
    if keys.len() > 0 {
        let rest = keys.drop_first();
        lemma_needs(store, rest);
        lemma_needs_first(store, keys);
    }
}

proof fn lemma_needs_first(store: StoreState, keys: Seq<u64>)
    requires
        keys.len() > 0,
    ensures
        store.spaces_shortfall(keys) == store.spaces_shortfall(keys.drop_first()) + lacking_of(
            store.settings.target_count() as int,
            store.list_of(SpaceId { id: keys[0] }).len() as int,
        ),
        store.spaces_unnamed(keys) == store.spaces_unnamed(keys.drop_first()) + named_by_number(
            store.settings.workspace_names.len() as int,
            store.list_of(SpaceId { id: keys[0] }).len() as int,
            lacking_of(
                store.settings.target_count() as int,
                store.list_of(SpaceId { id: keys[0] }).len() as int,
            ),
        ),
    decreases keys.len(),
{
    let last = keys.len() - 1;
    assert(keys.take(last) =~= keys.drop_last());
    assert(keys.take(last + 1) =~= keys);
    lemma_needs_add_up(store, keys, last);
    if keys.len() > 1 {
        let rest = keys.drop_first();
        lemma_needs_first(store, keys.drop_last());
        assert(keys.drop_last().drop_first() =~= rest.drop_last());
        assert(rest.take(rest.len() - 1) =~= rest.drop_last());
        assert(rest.take(rest.len() - 1 + 1) =~= rest);
        lemma_needs_add_up(store, rest, rest.len() - 1);
    } else {
        assert(keys.take(0) =~= keys.drop_first());
    }
}

/// There is room for what the settings ask for exactly where there are slots for
/// the workspaces that are missing, and numbers for those of them without name: in
/// the pool, if there is one and some space has a list, and else in all spaces
/// together.
pub proof fn room_for_the_settings(store: StoreState)
    requires
        store.consistent(),
    ensures
        store.settings.shared && store.by_space.dom().is_empty() ==> store.can_settle(),
        store.settings.shared && !store.by_space.dom().is_empty() ==> store.can_settle()
            == store.can_arrange(),
        !store.settings.shared ==> (store.can_settle() <==> store.upcoming.len() >= needs(
            store,
            listing(store.by_space.dom()),
        ).0 && store.counter + needs(store, listing(store.by_space.dom())).1 <= usize::MAX),
{
    lemma_needs(store, listing(store.by_space.dom()));
}

} // verus!
