use virtual_workspaces::Direction;
use virtual_workspaces::DisplayCycle;
use virtual_workspaces::DisplaySelector;
use virtual_workspaces::LayoutSettings;
use virtual_workspaces::SpaceId;
use virtual_workspaces::TopologyFault;
use virtual_workspaces::VirtualWorkspaceId;
use virtual_workspaces::VirtualWorkspaceSettings;
use virtual_workspaces::WindowId;
use virtual_workspaces::WindowStore;
use virtual_workspaces::WorkspaceDisplayAssignment;
use virtual_workspaces::WorkspaceError;
use virtual_workspaces::WorkspaceSelector;
use virtual_workspaces::WorkspaceStore;
use virtual_workspaces::MAX_WORKSPACES;

fn shared(count: usize, names: &[&str]) -> WorkspaceStore {
    let config = VirtualWorkspaceSettings {
        shared_across_displays: true,
        default_workspace_count: count,
        workspace_names: names.iter().map(|name| name.to_string()).collect(),
        ..VirtualWorkspaceSettings::default()
    };
    WorkspaceStore::new_with_config(&config, &LayoutSettings::default())
}

fn separate(count: usize, names: &[&str]) -> WorkspaceStore {
    let config = VirtualWorkspaceSettings {
        default_workspace_count: count,
        workspace_names: names.iter().map(|name| name.to_string()).collect(),
        ..VirtualWorkspaceSettings::default()
    };
    WorkspaceStore::new_with_config(&config, &LayoutSettings::default())
}

fn names(store: &WorkspaceStore, space: SpaceId) -> Vec<String> {
    store.existing_workspaces(space).into_iter().map(|(_, name)| name).collect()
}

fn to_display(workspace: WorkspaceSelector, display: DisplaySelector) -> WorkspaceDisplayAssignment {
    WorkspaceDisplayAssignment { workspace, display }
}

#[test]
fn a_new_space_gets_named_workspaces() {
    let mut store = separate(3, &["Mail", "Code"]);
    let space = SpaceId::new(4);
    store.list_workspaces(space);
    assert_eq!(names(&store, space), vec!["Mail", "Code", "Workspace 3"]);
    let again = store.list_workspaces(space);
    assert_eq!(again.len(), 3);
}

#[test]
fn unnamed_workspaces_are_numbered() {
    let mut store = separate(1, &["Mail"]);
    let space = SpaceId::new(4);
    store.create_workspace(space, None).unwrap();
    store.create_workspace(space, Some("Chat".to_string())).unwrap();
    store.create_workspace(space, None).unwrap();
    assert_eq!(names(&store, space), vec!["Mail", "Workspace 1", "Chat", "Workspace 2"]);
}

#[test]
fn a_space_can_have_only_so_many_workspaces() {
    let mut store = separate(MAX_WORKSPACES - 1, &[]);
    let space = SpaceId::new(4);
    assert!(store.create_workspace(space, None).is_ok());
    assert_eq!(
        store.create_workspace(space, None),
        Err(WorkspaceError::InconsistentState(
            "Maximum workspace limit (32) reached for space SpaceId(4)".to_string()
        ))
    );
    assert_eq!(store.existing_workspaces(space).len(), MAX_WORKSPACES);
    assert!(store.create_workspace(SpaceId::new(5), None).is_ok());
}

#[test]
fn a_shared_pool_can_have_only_so_many_workspaces() {
    let mut store = shared(MAX_WORKSPACES, &[]);
    let mut windows = WindowStore::default();
    store.apply_display_topology(
        &mut windows,
        &[(SpaceId::new(1), None), (SpaceId::new(2), None)],
    );
    assert_eq!(
        store.create_workspace(SpaceId::new(2), None),
        Err(WorkspaceError::InconsistentState(
            "Maximum workspace limit (32) reached for space SpaceId(2)".to_string()
        ))
    );
}

#[test]
fn no_count_is_at_least_one() {
    let mut store = separate(0, &[]);
    assert_eq!(store.list_workspaces(SpaceId::new(1)).len(), 1);
    let mut many = separate(1000, &[]);
    assert_eq!(many.list_workspaces(SpaceId::new(1)).len(), MAX_WORKSPACES);
}

#[test]
fn a_store_has_room_for_all_but_two_of_the_slots() {
    let mut store = separate(4, &[]);
    assert!(store.has_room(0xffff_fffe));
    assert!(!store.has_room(0xffff_ffff));
    store.list_workspaces(SpaceId::new(1));
    assert!(store.has_room(0xffff_fffa));
    assert!(!store.has_room(0xffff_fffb));
}

#[test]
fn room_is_known_before_it_is_taken() {
    let mut store = separate(4, &[]);
    let space = SpaceId::new(1);
    assert!(store.can_initialize_space(space));
    assert!(store.can_create_workspace(space, true));
    store.max_workspaces = 0;
    assert!(!store.can_initialize_space(space));
    assert!(!store.can_create_workspace(space, true));
    assert!(store.can_update_settings(
        &VirtualWorkspaceSettings::default(),
        &LayoutSettings::default()
    ));
    store.max_workspaces = MAX_WORKSPACES;
    store.list_workspaces(space);
    store.workspace_counter = usize::MAX;
    assert!(store.can_initialize_space(space));
    assert!(store.can_create_workspace(space, false));
    assert!(!store.can_create_workspace(space, true));
    let more = VirtualWorkspaceSettings {
        default_workspace_count: 5,
        ..VirtualWorkspaceSettings::default()
    };
    assert!(!store.can_update_settings(&more, &LayoutSettings::default()));
    let pool = VirtualWorkspaceSettings { shared_across_displays: true, ..more };
    assert!(!store.can_update_settings(&pool, &LayoutSettings::default()));
    store.workspace_counter = usize::MAX - 1;
    assert!(store.can_update_settings(&pool, &LayoutSettings::default()));
}

#[test]
fn named_workspaces_need_no_number() {
    let mut store = separate(2, &[]);
    store.list_workspaces(SpaceId::new(1));
    store.workspace_counter = usize::MAX;
    let named = |names: &[&str], pool: bool| VirtualWorkspaceSettings {
        default_workspace_count: 4,
        workspace_names: names.iter().map(|name| name.to_string()).collect(),
        shared_across_displays: pool,
        ..VirtualWorkspaceSettings::default()
    };
    let layout = LayoutSettings::default();
    assert!(!store.can_update_settings(&named(&["A", "B", "C"], false), &layout));
    assert!(!store.can_update_settings(&named(&["A", "B", "C"], true), &layout));
    assert!(store.can_update_settings(&named(&["A", "B", "C", "D"], true), &layout));
    assert!(store.can_update_settings(&named(&["A", "B", "C", "D"], false), &layout));
    store.update_settings(&named(&["A", "B", "C", "D"], false), &layout);
    assert_eq!(names(&store, SpaceId::new(1)), vec!["A", "B", "C", "D"]);
    assert_eq!(store.workspace_counter, usize::MAX);
}

#[test]
fn a_display_attached_in_front_is_given_a_workspace() {
    let mut store = shared(4, &[]);
    let mut windows = WindowStore::default();
    let a = SpaceId::new(1);
    let b = SpaceId::new(2);
    store.apply_display_topology(&mut windows, &[(a, None)]);
    let ids = store.ordered_workspace_ids_global();
    store.set_last_focused_window(a, ids[3], Some(WindowId::new(7, 8)));
    store.rename_workspace(a, ids[3], "Last".to_string());

    let visible = [(b, None), (a, None)];
    assert!(store.can_apply_display_topology(&visible));
    store.apply_display_topology(&mut windows, &visible);

    assert_eq!(store.ordered_workspace_ids_global(), ids);
    assert_eq!(store.ordered_workspace_ids(b), vec![ids[3]]);
    assert_eq!(store.active_workspace(b), Some(ids[3]));
    assert_eq!(store.active_workspace(a), Some(ids[0]));
    assert_eq!(store.initialized_spaces(), vec![a, b]);
    assert_eq!(names(&store, b), vec!["Last"]);
    assert_eq!(store.last_focused_window(b, ids[3]), Some(WindowId::new(7, 8)));
    assert_eq!(store.validate_persisted_topology(), Ok(()));
}

#[test]
fn a_display_that_replaces_the_only_one_takes_all_workspaces() {
    let mut store = shared(2, &[]);
    let mut windows = WindowStore::default();
    store.apply_display_topology(&mut windows, &[(SpaceId::new(1), None)]);
    let ids = store.ordered_workspace_ids_global();
    store.apply_display_topology(&mut windows, &[(SpaceId::new(2), None)]);
    assert_eq!(store.ordered_workspace_ids(SpaceId::new(2)), ids);
    assert_eq!(store.active_workspace(SpaceId::new(2)), Some(ids[0]));
    assert_eq!(store.initialized_spaces(), vec![SpaceId::new(2)]);
    assert!(store.can_apply_display_topology(&[]));
}

#[test]
fn a_workspace_created_later_has_the_greater_number() {
    let mut store = separate(1, &[]);
    let mut windows = WindowStore::default();
    let a = SpaceId::new(1);
    let b = SpaceId::new(2);
    store.list_workspaces(b);
    let older = store.list_workspaces(a)[0].0;
    store.remap_space(&mut windows, a, b);
    assert_eq!(store.ordered_workspace_ids_global(), vec![older]);
    let newer = store.create_workspace(b, Some("N".to_string())).unwrap();
    assert_eq!(store.ordered_workspace_ids_global(), vec![older, newer]);
    assert_eq!(store.ordered_workspace_ids(b), vec![older, newer]);
    assert_eq!(store.global_index_of(older), Some(0));
}

#[test]
fn a_refilled_pool_numbers_new_workspaces_behind_the_old() {
    let mut store = shared(4, &[]);
    let mut windows = WindowStore::default();
    let a = SpaceId::new(1);
    let b = SpaceId::new(2);
    store.apply_display_topology(&mut windows, &[(a, None)]);
    let ids = store.ordered_workspace_ids_global();
    store.relocate_workspace(&mut windows, ids[0], b);
    store.remap_space(&mut windows, a, b);
    assert_eq!(store.ordered_workspace_ids_global(), ids[1..].to_vec());
    store.apply_display_topology(&mut windows, &[(b, None)]);
    let after = store.ordered_workspace_ids_global();
    assert_eq!(after.len(), 4);
    assert_eq!(after[..3].to_vec(), ids[1..].to_vec());
    assert!(!ids.contains(&after[3]));
}

#[test]
fn going_back_and_forth_swaps_two_workspaces() {
    let mut store = separate(3, &[]);
    let space = SpaceId::new(1);
    let ids: Vec<_> = store.list_workspaces(space).into_iter().map(|(id, _)| id).collect();
    assert_eq!(store.active_workspace(space), Some(ids[0]));
    assert_eq!(store.last_workspace(space), None);

    assert!(store.set_active_workspace(space, ids[2]));
    assert_eq!(store.last_workspace(space), Some(ids[0]));
    assert_eq!(store.last_active_global(), Some(ids[0]));
    assert!(store.set_active_workspace(space, ids[0]));
    assert_eq!(store.last_workspace(space), Some(ids[2]));
    assert_eq!(store.last_active_global(), Some(ids[2]));

    assert!(store.set_active_workspace(space, ids[0]));
    assert_eq!(store.last_workspace(space), Some(ids[0]));
    assert_eq!(store.last_active_global(), Some(ids[2]));

    assert!(!store.set_active_workspace(SpaceId::new(2), ids[1]));
    assert_eq!(store.active_workspace(SpaceId::new(2)), None);
}

#[test]
fn the_active_number_is_the_one_a_user_types() {
    let mut store = shared(4, &[]);
    let mut windows = WindowStore::default();
    let left = SpaceId::new(1);
    let right = SpaceId::new(2);
    store.display_assignment = vec![
        to_display(WorkspaceSelector::Index(1), DisplaySelector::Index(1)),
        to_display(WorkspaceSelector::Index(3), DisplaySelector::Index(1)),
    ];
    store.apply_display_topology(&mut windows, &[(left, None), (right, None)]);
    let (last, owner) = store.workspace_at_global_index(3).unwrap();
    assert_eq!(owner, right);
    assert!(store.set_active_workspace(right, last));
    assert_eq!(store.active_workspace_idx(right), Some(3));
    assert_eq!(store.local_index_of(right, last), Some(1));
    assert_eq!(store.local_index_of(left, last), None);
    assert_eq!(store.active_workspace_idx(SpaceId::new(9)), None);
    assert_eq!(store.workspace_at_global_index(4), None);

    store.shared_across_displays = false;
    assert_eq!(store.active_workspace_idx(right), Some(1));
    assert!(!store.shared_across_displays());
    assert!(!store.workspace_auto_back_and_forth());
}

#[test]
fn steps_skip_empty_workspaces_and_undo_each_other() {
    let mut store = separate(4, &[]);
    let mut windows = WindowStore::default();
    let space = SpaceId::new(1);
    let ids: Vec<_> = store.list_workspaces(space).into_iter().map(|(id, _)| id).collect();
    for here in 0..4 {
        let next = store.next_workspace(&windows, space, ids[here], None).unwrap();
        assert_eq!(store.prev_workspace(&windows, space, next, None), Some(ids[here]));
    }
    assert_eq!(store.next_workspace(&windows, space, ids[0], Some(true)), None);
    assert!(store.assign_window_to_workspace(&mut windows, space, WindowId::new(1, 1), ids[3]));
    assert_eq!(store.next_workspace(&windows, space, ids[0], Some(true)), Some(ids[3]));
    assert_eq!(store.prev_workspace(&windows, space, ids[0], Some(true)), Some(ids[3]));
    assert_eq!(store.next_workspace(&windows, space, ids[3], Some(true)), Some(ids[3]));
    let order = store.global_workspace_order();
    assert_eq!(
        store.step_workspace_in_order(&windows, &order, ids[0], None, Direction::Up),
        None
    );
    assert_eq!(
        store.step_workspace_in_order(&windows, &[], ids[0], None, Direction::Right),
        None
    );
    assert_eq!(
        store.next_workspace(&windows, SpaceId::new(2), ids[0], None),
        None,
        "another space does not have the workspace"
    );
}

#[test]
fn displays_are_named_by_uuid_and_workspaces_by_name() {
    let mut store = shared(4, &["A", "B", "C", "D"]);
    let mut windows = WindowStore::default();
    let left = SpaceId::new(1);
    let right = SpaceId::new(2);
    store.display_assignment = vec![
        to_display(WorkspaceSelector::Name("C".into()), DisplaySelector::Uuid("right".into())),
        to_display(WorkspaceSelector::Name("B".into()), DisplaySelector::Uuid("gone".into())),
        to_display(WorkspaceSelector::Index(1), DisplaySelector::Direction(Direction::Right)),
        to_display(WorkspaceSelector::Index(1), DisplaySelector::Cycle(DisplayCycle::Next)),
        to_display(WorkspaceSelector::Index(9), DisplaySelector::Index(1)),
        to_display(WorkspaceSelector::Name("D".into()), DisplaySelector::Index(7)),
    ];
    store.apply_display_topology(
        &mut windows,
        &[(left, Some("left".to_string())), (right, Some("right".to_string()))],
    );
    assert_eq!(names(&store, left), vec!["A", "B", "D"]);
    assert_eq!(names(&store, right), vec!["C"]);
    assert_eq!(store.validate_persisted_topology(), Ok(()));
}

#[test]
fn the_last_assignment_decides() {
    let mut store = shared(4, &["A", "B", "C", "D"]);
    let mut windows = WindowStore::default();
    let left = SpaceId::new(1);
    let right = SpaceId::new(2);
    store.display_assignment = vec![
        to_display(WorkspaceSelector::Name("C".into()), DisplaySelector::Index(1)),
        to_display(WorkspaceSelector::Name("D".into()), DisplaySelector::Index(1)),
        to_display(WorkspaceSelector::Index(2), DisplaySelector::Index(0)),
    ];
    store.apply_display_topology(&mut windows, &[(left, None), (right, None)]);
    assert_eq!(names(&store, left), vec!["A", "B", "C"]);
    assert_eq!(names(&store, right), vec!["D"]);
}

#[test]
fn a_display_without_workspace_is_given_the_last_one_not_shown() {
    let mut store = shared(3, &["A", "B", "C"]);
    let mut windows = WindowStore::default();
    let left = SpaceId::new(1);
    store.apply_display_topology(&mut windows, &[(left, None)]);
    let last = store.workspace_at_global_index(2).unwrap().0;
    assert!(store.set_active_workspace(left, last));

    let middle = SpaceId::new(2);
    let right = SpaceId::new(3);
    let visible = [(left, None), (middle, None), (right, None)];
    store.apply_display_topology(&mut windows, &visible);
    assert_eq!(names(&store, left), vec!["C"]);
    assert_eq!(names(&store, middle), vec!["B"]);
    assert_eq!(names(&store, right), vec!["A"]);
    assert_eq!(store.active_workspace(left), Some(last));
    assert_eq!(store.validate_persisted_topology(), Ok(()));

    // With fewer workspaces than displays one display stays empty.
    let fourth = SpaceId::new(4);
    store.apply_display_topology(
        &mut windows,
        &[(left, None), (middle, None), (right, None), (fourth, None)],
    );
    assert!(store.ordered_workspace_ids(fourth).is_empty());
    assert_eq!(store.active_workspace(fourth), None);
}

#[test]
fn the_space_with_most_workspaces_gives_one_away() {
    let mut store = shared(5, &["A", "B", "C", "D", "E"]);
    let mut windows = WindowStore::default();
    let left = SpaceId::new(1);
    let middle = SpaceId::new(2);
    let right = SpaceId::new(3);
    store.display_assignment = vec![
        to_display(WorkspaceSelector::Name("C".into()), DisplaySelector::Index(1)),
        to_display(WorkspaceSelector::Name("D".into()), DisplaySelector::Index(1)),
        to_display(WorkspaceSelector::Name("E".into()), DisplaySelector::Index(1)),
    ];
    store.apply_display_topology(&mut windows, &[(left, None), (middle, None), (right, None)]);
    assert_eq!(names(&store, left), vec!["A", "B"]);
    assert_eq!(names(&store, middle), vec!["C", "D"]);
    assert_eq!(names(&store, right), vec!["E"]);
}

#[test]
fn topology_does_nothing_without_a_shared_pool_or_displays() {
    let mut windows = WindowStore::default();
    let mut store = separate(2, &[]);
    store.apply_display_topology(&mut windows, &[(SpaceId::new(1), None)]);
    assert!(store.initialized_spaces().is_empty());
    let mut pool = shared(2, &[]);
    pool.apply_display_topology(&mut windows, &[]);
    assert!(pool.initialized_spaces().is_empty());
}

#[test]
fn moving_a_workspace_repairs_both_spaces() {
    let mut store = shared(3, &[]);
    let mut windows = WindowStore::default();
    let left = SpaceId::new(1);
    let right = SpaceId::new(2);
    store.apply_display_topology(&mut windows, &[(left, None)]);
    let ids = store.ordered_workspace_ids(left);
    assert!(store.set_active_workspace(left, ids[1]));
    let before = store.ordered_workspace_ids_global();

    // The previous workspace leaves, the active one stays.
    assert!(store.relocate_workspace(&mut windows, ids[0], right).is_empty());
    assert_eq!(store.last_workspace(left), None);
    assert_eq!(store.active_workspace(left), Some(ids[1]));
    assert_eq!(store.active_workspace(right), Some(ids[0]));
    // The active one leaves and the first that is left takes its place.
    store.relocate_workspace(&mut windows, ids[1], right);
    assert_eq!(store.active_workspace(left), Some(ids[2]));
    assert_eq!(store.active_workspace(right), Some(ids[0]));
    // The last one leaves and the space shows nothing.
    store.relocate_workspace(&mut windows, ids[2], right);
    assert_eq!(store.active_workspace(left), None);
    assert_eq!(store.ordered_workspace_ids(right), ids);
    assert_eq!(store.ordered_workspace_ids_global(), before);
    // A workspace that is there already, or that does not exist, does not move.
    assert!(store.relocate_workspace(&mut windows, ids[2], right).is_empty());
    let nothing = VirtualWorkspaceId::from_raw(99);
    assert!(store.relocate_workspace(&mut windows, nothing, left).is_empty());
    assert_eq!(store.ordered_workspace_ids_global(), before);
}

#[test]
fn a_remapped_space_brings_its_windows_and_what_it_showed() {
    let mut store = separate(3, &[]);
    let mut windows = WindowStore::default();
    let old = SpaceId::new(1);
    let new = SpaceId::new(2);
    let third = SpaceId::new(3);
    let ids: Vec<_> = store.list_workspaces(old).into_iter().map(|(id, _)| id).collect();
    let other = store.list_workspaces(third)[0].0;
    let mine = WindowId::new(1, 1);
    let theirs = WindowId::new(2, 1);
    assert!(store.assign_window_to_workspace(&mut windows, old, mine, ids[1]));
    assert!(store.assign_window_to_workspace(&mut windows, third, theirs, other));
    assert!(store.set_active_workspace(old, ids[2]));

    store.remap_space(&mut windows, old, new);
    assert_eq!(store.ordered_workspace_ids(new), ids);
    assert_eq!(store.active_workspace(new), Some(ids[2]));
    assert_eq!(store.last_workspace(new), Some(ids[0]));
    assert_eq!(store.active_workspace(old), None);
    assert_eq!(store.initialized_spaces(), vec![new, third]);
    assert_eq!(store.workspace_windows(&windows, new, ids[1]), vec![mine]);
    assert_eq!(store.workspace_windows(&windows, third, other), vec![theirs]);

    store.remap_space(&mut windows, old, third);
    assert_eq!(store.initialized_spaces(), vec![new, third], "nothing is left to take over");
    store.remap_space(&mut windows, new, new);
    assert_eq!(store.ordered_workspace_ids(new), ids);
}

#[test]
fn new_settings_name_and_fill_every_space() {
    let mut store = separate(2, &[]);
    let first = SpaceId::new(1);
    let second = SpaceId::new(2);
    store.list_workspaces(second);
    store.list_workspaces(first);
    store.create_workspace(first, Some("Mine".to_string())).unwrap();
    let config = VirtualWorkspaceSettings {
        default_workspace_count: 4,
        workspace_names: vec!["A".into(), "B".into(), "C".into()],
        default_workspace: 9,
        ..VirtualWorkspaceSettings::default()
    };
    store.update_settings(&config, &LayoutSettings::default());
    assert_eq!(names(&store, first), vec!["A", "B", "C", "Workspace 1"]);
    assert_eq!(names(&store, second), vec!["A", "B", "C", "Workspace 2"]);
    assert_eq!(store.default_workspace, 3);
}

#[test]
fn new_settings_name_and_fill_the_pool() {
    let mut store = shared(2, &[]);
    let mut windows = WindowStore::default();
    let left = SpaceId::new(1);
    let right = SpaceId::new(2);
    store.apply_display_topology(&mut windows, &[(right, None), (left, None)]);
    let config = VirtualWorkspaceSettings {
        shared_across_displays: true,
        default_workspace_count: 3,
        workspace_names: vec!["A".into(), "B".into(), "C".into()],
        ..VirtualWorkspaceSettings::default()
    };
    store.update_settings(&config, &LayoutSettings::default());
    let named: Vec<_> = store
        .global_workspace_order()
        .into_iter()
        .map(|(id, space)| store.workspace_info(space, id).unwrap().name.clone())
        .collect();
    assert_eq!(named, vec!["A", "B", "C"]);
    assert_eq!(store.workspace_at_global_index(2).unwrap().1, left);
    // Without any space there is no pool to fill.
    let mut empty = shared(1, &[]);
    empty.update_settings(&config, &LayoutSettings::default());
    assert!(empty.ordered_workspace_ids_global().is_empty());
}

#[test]
fn settings_give_a_missing_limit_back() {
    let mut store = separate(2, &[]);
    store.max_workspaces = 0;
    store.update_settings(&VirtualWorkspaceSettings::default(), &LayoutSettings::default());
    assert_eq!(store.max_workspaces, MAX_WORKSPACES);
    assert_eq!(store.list_workspaces(SpaceId::new(1)).len(), 4);
}

#[test]
fn workspaces_are_renamed_by_their_space_alone() {
    let mut store = separate(1, &["A"]);
    let space = SpaceId::new(1);
    let id = store.list_workspaces(space)[0].0;
    assert!(!store.rename_workspace(SpaceId::new(2), id, "B".to_string()));
    assert!(store.rename_workspace(space, id, "B".to_string()));
    assert_eq!(names(&store, space), vec!["B"]);
    assert!(store.workspace_info(SpaceId::new(2), id).is_none());
}

#[test]
fn focus_is_passed_on_forgotten_and_retained() {
    let mut store = separate(3, &[]);
    let space = SpaceId::new(1);
    let ids: Vec<_> = store.list_workspaces(space).into_iter().map(|(id, _)| id).collect();
    let from = WindowId::new(1, 1);
    let to = WindowId::new(1, 2);
    store.set_last_focused_window(space, ids[0], Some(from));
    store.set_last_focused_window(space, ids[1], Some(to));
    store.set_last_focused_window(space, ids[2], Some(from));
    store.set_last_focused_window(SpaceId::new(2), ids[2], None);
    assert_eq!(
        store.persisted_focus_locations(),
        vec![(space, ids[0], from), (space, ids[1], to), (space, ids[2], from)]
    );

    store.transfer_window_identity(from, from);
    assert_eq!(store.last_focused_window(space, ids[0]), Some(from));
    store.transfer_window_identity(from, to);
    assert_eq!(
        store.persisted_focus_locations(),
        vec![(space, ids[0], to), (space, ids[2], to)]
    );
    store.retain_window_focus_location(to, ids[2]);
    assert_eq!(store.persisted_focus_locations(), vec![(space, ids[2], to)]);
    store.forget_window_identity(to);
    assert!(store.persisted_focus_locations().is_empty());
}

#[test]
fn faults_of_a_topology_are_named() {
    let space = SpaceId::new(4);
    let fresh = || {
        let mut store = separate(2, &[]);
        let ids: Vec<_> = store.list_workspaces(space).into_iter().map(|(id, _)| id).collect();
        (store, ids)
    };
    let (store, _) = fresh();
    assert_eq!(store.topology_fault(), None);
    assert_eq!(store.validate_persisted_topology(), Ok(()));

    let (mut store, _) = fresh();
    store.workspaces_by_space.insert(3, Vec::new());
    assert_eq!(
        store.topology_fault(),
        Some(TopologyFault::NoWorkspaces { space: SpaceId::new(3) })
    );
    assert_eq!(
        store.validate_persisted_topology(),
        Err("native space 3 has no virtual workspaces".to_string())
    );

    let (mut store, _) = fresh();
    let nothing = VirtualWorkspaceId::from_raw(1 << 32 | 70);
    store.workspaces_by_space.get_mut(&4).unwrap().push(nothing);
    assert_eq!(
        store.validate_persisted_topology(),
        Err("native space 4 references missing workspace VirtualWorkspaceId(70v1)".to_string())
    );

    let (mut store, ids) = fresh();
    store.workspaces_by_space.insert(5, vec![ids[0]]);
    assert_eq!(
        store.validate_persisted_topology(),
        Err(
            "workspace VirtualWorkspaceId(1v1) belongs to space 4 but is indexed under 5"
                .to_string()
        )
    );

    let (mut store, ids) = fresh();
    store.workspaces_by_space.get_mut(&4).unwrap().push(ids[1]);
    assert_eq!(
        store.validate_persisted_topology(),
        Err("workspace VirtualWorkspaceId(2v1) is indexed more than once".to_string())
    );

    let (mut store, _) = fresh();
    store.active_workspace_per_space.remove(&4);
    assert_eq!(
        store.validate_persisted_topology(),
        Err("native space 4 has no active workspace".to_string())
    );

    let (mut store, _) = fresh();
    store.active_workspace_per_space.insert(4, (None, nothing));
    assert_eq!(
        store.validate_persisted_topology(),
        Err("native space 4 has an invalid active workspace".to_string())
    );

    let (mut store, ids) = fresh();
    store.active_workspace_per_space.insert(4, (Some(nothing), ids[0]));
    assert_eq!(
        store.validate_persisted_topology(),
        Err("native space 4 has an invalid previous workspace".to_string())
    );

    let (mut store, ids) = fresh();
    store.workspaces_by_space.insert(4, vec![ids[0]]);
    assert_eq!(
        store.validate_persisted_topology(),
        Err("workspace VirtualWorkspaceId(2v1) for native space 4 is not indexed".to_string())
    );

    let (mut store, ids) = fresh();
    store.active_workspace_per_space.insert(9, (None, ids[0]));
    assert_eq!(
        store.validate_persisted_topology(),
        Err("active workspace state references unknown native space 9".to_string())
    );
}

#[test]
fn a_list_in_any_order_gives_the_same_order() {
    let mut store = separate(3, &["A", "B", "C"]);
    let space = SpaceId::new(1);
    let ids: Vec<_> = store.list_workspaces(space).into_iter().map(|(id, _)| id).collect();
    store.workspaces_by_space.insert(1, vec![ids[2], ids[0], ids[1]]);
    assert_eq!(store.ordered_workspace_ids(space), ids);
    assert_eq!(store.ordered_workspace_ids_global(), ids);
    store.update_settings(
        &VirtualWorkspaceSettings {
            workspace_names: vec!["X".into(), "Y".into()],
            ..VirtualWorkspaceSettings::default()
        },
        &LayoutSettings::default(),
    );
    assert_eq!(store.workspaces_by_space[&1][0], ids[0]);
    assert_eq!(names(&store, space), vec!["X", "Y", "C", "Workspace 1"]);
}

#[test]
fn the_spaces_divide_the_pool() {
    let mut store = shared(7, &[]);
    let mut windows = WindowStore::default();
    let spaces = [SpaceId::new(9), SpaceId::new(2), SpaceId::new(5)];
    let visible: Vec<(SpaceId, Option<String>)> = spaces.iter().map(|space| (*space, None)).collect();
    store.apply_display_topology(&mut windows, &visible);
    store.create_workspace(spaces[2], None).unwrap();

    let mut owned: Vec<VirtualWorkspaceId> = Vec::new();
    for space in spaces {
        let ids = store.ordered_workspace_ids(space);
        assert!(!ids.is_empty());
        assert!(ids.iter().all(|id| store.workspace_space(*id) == Some(space)));
        owned.extend(ids);
    }
    owned.sort_by_key(|id| id.as_raw() & 0xffff_ffff);
    assert_eq!(owned.len(), 8);
    assert_eq!(owned, store.ordered_workspace_ids_global());
}
