use virtual_workspaces::AppRuleDecision;
use virtual_workspaces::AppRuleEffects;
use virtual_workspaces::AppRuleRejection;
use virtual_workspaces::AppRuleResult;
use virtual_workspaces::Direction;
use virtual_workspaces::DisplaySelector;
use virtual_workspaces::LayoutSettings;
use virtual_workspaces::SpaceId;
use virtual_workspaces::VirtualWorkspaceSettings;
use virtual_workspaces::WindowId;
use virtual_workspaces::WindowPosition;
use virtual_workspaces::WindowSize;
use virtual_workspaces::WindowStore;
use virtual_workspaces::WindowWorkspaceInfo;
use virtual_workspaces::WorkspaceDisplayAssignment;
use virtual_workspaces::WorkspaceError;
use virtual_workspaces::WorkspaceSelector;
use virtual_workspaces::WorkspaceStore;

/// A rule on the windows of an app.
#[derive(Default)]
struct AppWorkspaceRule {
    app_id: Option<String>,
    workspace: Option<WorkspaceSelector>,
    floating: bool,
    position: Option<WindowPosition>,
    size: Option<WindowSize>,
    focus: bool,
    manage: Option<bool>,
    app_name: Option<String>,
    title_regex: Option<String>,
    title_substring: Option<String>,
    ax_role: Option<String>,
    ax_subrole: Option<String>,
}

fn same_ignoring_case(wanted: &Option<String>, found: Option<&str>) -> bool {
    match wanted {
        Some(wanted) => found.is_some_and(|found| found.eq_ignore_ascii_case(wanted)),
        None => true,
    }
}

fn holds_ignoring_case(wanted: &Option<String>, found: Option<&str>) -> bool {
    match wanted {
        Some(wanted) => {
            found.is_some_and(|found| found.to_lowercase().contains(&wanted.to_lowercase()))
        }
        None => true,
    }
}

fn matches_pattern(wanted: &Option<String>, found: Option<&str>) -> bool {
    match wanted {
        Some(wanted) => {
            let pattern = regex::Regex::new(wanted).unwrap();
            found.is_some_and(|found| pattern.is_match(found))
        }
        None => true,
    }
}

/// The decision of the last rule that matches.
fn evaluate(
    rules: &[AppWorkspaceRule],
    app_id: Option<&str>,
    app_name: Option<&str>,
    window_title: Option<&str>,
    ax_role: Option<&str>,
    ax_subrole: Option<&str>,
) -> Option<AppRuleDecision> {
    rules
        .iter()
        .rev()
        .find(|rule| {
            same_ignoring_case(&rule.app_id, app_id)
                && holds_ignoring_case(&rule.app_name, app_name)
                && holds_ignoring_case(&rule.title_substring, window_title)
                && matches_pattern(&rule.title_regex, window_title)
                && same_ignoring_case(&rule.ax_role, ax_role)
                && same_ignoring_case(&rule.ax_subrole, ax_subrole)
        })
        .map(|rule| AppRuleDecision {
            workspace: rule.workspace.clone(),
            floating: rule.floating,
            position: rule.position,
            size: rule.size,
            focus: rule.focus,
            manage: rule.manage,
        })
}

fn assign_window_with_app_info(
    manager: &mut WorkspaceStore,
    rules: &[AppWorkspaceRule],
    window_store: &mut WindowStore,
    window_id: WindowId,
    space: SpaceId,
    app_id: Option<&str>,
    app_name: Option<&str>,
    window_title: Option<&str>,
    ax_role: Option<&str>,
    ax_subrole: Option<&str>,
) -> Result<AppRuleResult, WorkspaceError> {
    let decision = evaluate(rules, app_id, app_name, window_title, ax_role, ax_subrole);
    manager.apply_app_rule_decision(window_store, window_id, space, decision)
}

fn expect_managed(result: Result<AppRuleResult, WorkspaceError>) -> AppRuleEffects {
    match result {
        Ok(AppRuleResult::Managed(decision)) => decision,
        Ok(AppRuleResult::Rejected(reason)) => {
            panic!("Window was unexpectedly rejected: {reason:?}")
        }
        Err(e) => panic!("assign_window_with_app_info failed: {:?}", e),
    }
}

fn assign(
    manager: &mut WorkspaceStore,
    rules: &[AppWorkspaceRule],
    window_store: &mut WindowStore,
    window_id: WindowId,
    space: SpaceId,
    app_id: Option<&str>,
    app_name: Option<&str>,
    window_title: Option<&str>,
    ax_role: Option<&str>,
    ax_subrole: Option<&str>,
) -> AppRuleEffects {
    expect_managed(assign_window_with_app_info(
        manager,
        rules,
        window_store,
        window_id,
        space,
        app_id,
        app_name,
        window_title,
        ax_role,
        ax_subrole,
    ))
}

fn shared_store(count: usize) -> WorkspaceStore {
    let config = VirtualWorkspaceSettings {
        shared_across_displays: true,
        default_workspace_count: count,
        workspace_names: Vec::new(),
        ..Default::default()
    };
    WorkspaceStore::new_with_config(&config, &LayoutSettings::default())
}

#[test]
fn shared_mode_creates_one_global_pool_not_one_set_per_display() {
    let mut store = shared_store(6);
    let mut windows = WindowStore::default();
    let left = SpaceId::new(1);
    let right = SpaceId::new(2);

    store.apply_display_topology(&mut windows, &[(left, None), (right, None)]);

    assert_eq!(store.ordered_workspace_ids_global().len(), 6);
    assert_eq!(
        store.ordered_workspace_ids(left).len() + store.ordered_workspace_ids(right).len(),
        6,
        "the pool is shared, not duplicated per display"
    );
    assert!(store.active_workspace(left).is_some());
    assert!(
        store.active_workspace(right).is_some(),
        "every attached display must own and show a workspace"
    );
}

#[test]
fn display_assignment_places_workspaces_and_global_index_survives_the_move() {
    let mut store = shared_store(6);
    store.display_assignment = vec![
        WorkspaceDisplayAssignment {
            workspace: WorkspaceSelector::Index(4),
            display: DisplaySelector::Index(1),
        },
        WorkspaceDisplayAssignment {
            workspace: WorkspaceSelector::Index(5),
            display: DisplaySelector::Index(1),
        },
    ];
    let mut windows = WindowStore::default();
    let left = SpaceId::new(1);
    let right = SpaceId::new(2);

    store.apply_display_topology(&mut windows, &[(left, None), (right, None)]);

    let (workspace, owner) = store.workspace_at_global_index(4).unwrap();
    assert_eq!(owner, right);
    assert_eq!(store.global_index_of(workspace), Some(4));
    assert_eq!(store.local_index_of(right, workspace), Some(0));
    assert_eq!(store.ordered_workspace_ids(left).len(), 4);
    assert_eq!(store.ordered_workspace_ids(right).len(), 2);
}

#[test]
fn relocating_a_workspace_moves_its_windows_composite_assignment() {
    let mut store = shared_store(4);
    let mut windows = WindowStore::default();
    let left = SpaceId::new(1);
    let right = SpaceId::new(2);
    store.apply_display_topology(&mut windows, &[(left, None), (right, None)]);

    let (workspace, owner) = store.workspace_at_global_index(0).unwrap();
    assert_eq!(owner, left);
    let window = WindowId::new(1, 1);
    assert!(store.assign_window_to_workspace(&mut windows, left, window, workspace));

    let moved = store.relocate_workspace(&mut windows, workspace, right);

    assert_eq!(moved, vec![window]);
    assert_eq!(store.workspace_at_global_index(0), Some((workspace, right)));
    assert_eq!(
        windows.workspace_windows(right, workspace),
        vec![window],
        "the composite (space, workspace) key must follow the workspace"
    );
    assert!(windows.workspace_windows(left, workspace).is_empty());
    assert!(
        store.active_workspace(left).is_some_and(|active| active != workspace),
        "the source display must not keep pointing at a workspace it no longer owns"
    );
}

#[test]
fn detaching_a_display_rehomes_its_workspaces_instead_of_stranding_them() {
    let mut store = shared_store(6);
    store.display_assignment = vec![WorkspaceDisplayAssignment {
        workspace: WorkspaceSelector::Index(5),
        display: DisplaySelector::Index(1),
    }];
    let mut windows = WindowStore::default();
    let left = SpaceId::new(1);
    let right = SpaceId::new(2);
    store.apply_display_topology(&mut windows, &[(left, None), (right, None)]);
    let (stranded, _) = store.workspace_at_global_index(5).unwrap();

    store.apply_display_topology(&mut windows, &[(left, None)]);

    assert_eq!(store.workspace_at_global_index(5), Some((stranded, left)));
    assert_eq!(store.ordered_workspace_ids_global().len(), 6);
    assert!(store.active_workspace(right).is_none());
}

#[test]
fn global_stepping_crosses_displays_and_wraps_over_the_whole_namespace() {
    let mut store = shared_store(4);
    store.display_assignment = vec![
        WorkspaceDisplayAssignment {
            workspace: WorkspaceSelector::Index(2),
            display: DisplaySelector::Index(1),
        },
        WorkspaceDisplayAssignment {
            workspace: WorkspaceSelector::Index(3),
            display: DisplaySelector::Index(1),
        },
    ];
    let mut windows = WindowStore::default();
    let left = SpaceId::new(1);
    let right = SpaceId::new(2);
    store.apply_display_topology(&mut windows, &[(left, None), (right, None)]);

    let last_on_left = store.workspace_at_global_index(1).unwrap().0;
    assert_eq!(
        store.step_workspace_global(&windows, last_on_left, None, Direction::Right),
        store.workspace_at_global_index(2),
        "stepping past the last workspace of a display continues onto the next display"
    );

    let last_global = store.workspace_at_global_index(3).unwrap().0;
    assert_eq!(
        store.step_workspace_global(&windows, last_global, None, Direction::Right),
        store.workspace_at_global_index(0),
        "wrapping wraps the whole namespace"
    );

    store.prevent_wrapping = true;
    assert_eq!(
        store.step_workspace_global(&windows, last_global, None, Direction::Right),
        None
    );
}

#[test]
fn per_space_stepping_is_unchanged_when_shared_mode_is_off() {
    let mut store = WorkspaceStore::new();
    let windows = WindowStore::default();
    let space = SpaceId::new(1);
    let ids: Vec<_> =
        store.list_workspaces(space).into_iter().map(|(id, _)| id).collect();

    assert_eq!(store.next_workspace(&windows, space, ids[0], None), Some(ids[1]));
    assert_eq!(
        store.next_workspace(&windows, space, *ids.last().unwrap(), None),
        Some(ids[0])
    );
    assert_eq!(store.prev_workspace(&windows, space, ids[0], None), ids.last().copied());
}

#[test]
fn app_rules_resolve_workspace_indices_globally_in_shared_mode() {
    let mut store = shared_store(6);
    store.display_assignment = vec![WorkspaceDisplayAssignment {
        workspace: WorkspaceSelector::Index(5),
        display: DisplaySelector::Index(1),
    }];
    let mut windows = WindowStore::default();
    let left = SpaceId::new(1);
    let right = SpaceId::new(2);
    store.apply_display_topology(&mut windows, &[(left, None), (right, None)]);
    let (third, owner) = store.workspace_at_global_index(2).unwrap();
    assert_eq!(owner, left);

    let selector = WorkspaceSelector::Index(2);
    assert_eq!(
        store.resolve_rule_workspace_with_policy(left, Some(&selector), None, false),
        Ok(third),
        "index 2 means global workspace 2, not this display's third"
    );

    // A rule naming a workspace owned by another display falls back to this one
    // rather than assigning the window somewhere it was never moved.
    let elsewhere = WorkspaceSelector::Index(5);
    let resolved = store
        .resolve_rule_workspace_with_policy(left, Some(&elsewhere), None, false)
        .unwrap();
    assert_eq!(store.workspace_space(resolved), Some(left));
}

#[test]
fn test_virtual_workspace_creation() {
    let mut manager = WorkspaceStore::new();

    let space = SpaceId::new(1);
    assert_eq!(
        manager.list_workspaces(space).len(),
        manager.workspaces_by_space.get(&space.get()).map(|v| v.len()).unwrap_or(0)
    );

    let ws_id = manager.create_workspace(space, Some("Test Workspace".to_string())).unwrap();
    assert!(
        manager
            .list_workspaces(space)
            .iter()
            .any(|(id, name)| *id == ws_id && name == "Test Workspace")
    );

    let workspace = manager.workspace_info(space, ws_id).unwrap();
    assert_eq!(workspace.name, "Test Workspace");
}

#[test]
fn test_window_assignment() {
    let mut window_store = WindowStore::default();
    let mut manager = WorkspaceStore::new();
    let space = SpaceId::new(1);
    let ws1_id = manager.create_workspace(space, Some("WS1".to_string())).unwrap();
    let ws2_id = manager.create_workspace(space, Some("WS2".to_string())).unwrap();

    let window1 = WindowId::new(1, 1);
    let window2 = WindowId::new(1, 2);

    assert!(manager.assign_window_to_workspace(&mut window_store, space, window1, ws1_id));
    assert!(manager.assign_window_to_workspace(&mut window_store, space, window2, ws2_id));

    assert_eq!(
        manager.workspace_for_window(&window_store, space, window1),
        Some(ws1_id)
    );
    assert_eq!(
        manager.workspace_for_window(&window_store, space, window2),
        Some(ws2_id)
    );

    assert_eq!(manager.workspace_windows(&window_store, space, ws1_id), vec![
        window1
    ]);
    assert_eq!(manager.workspace_windows(&window_store, space, ws2_id), vec![
        window2
    ]);
}

#[test]
fn reassignment_updates_authoritative_workspace_index() {
    let mut window_store = WindowStore::default();
    let mut manager = WorkspaceStore::new();
    let space = SpaceId::new(1);
    let ws1_id = manager.create_workspace(space, Some("WS1".to_string())).unwrap();
    let ws2_id = manager.create_workspace(space, Some("WS2".to_string())).unwrap();
    let window = WindowId::new(9, 1);

    assert!(manager.assign_window_to_workspace(&mut window_store, space, window, ws1_id));
    assert_eq!(
        manager.workspace_for_window(&window_store, space, window),
        Some(ws1_id)
    );
    assert_eq!(manager.workspace_windows(&window_store, space, ws1_id), vec![
        window
    ]);

    assert!(manager.assign_window_to_workspace(&mut window_store, space, window, ws2_id));
    assert_eq!(
        manager.workspace_for_window(&window_store, space, window),
        Some(ws2_id)
    );
    assert!(manager.workspace_windows(&window_store, space, ws1_id).is_empty());
    assert_eq!(manager.workspace_windows(&window_store, space, ws2_id), vec![
        window
    ]);
}

#[test]
fn reassignment_clears_stale_last_focused_on_source_workspace() {
    let mut window_store = WindowStore::default();
    let mut manager = WorkspaceStore::new();
    let space = SpaceId::new(1);
    let ws1_id = manager.create_workspace(space, Some("WS1".to_string())).unwrap();
    let ws2_id = manager.create_workspace(space, Some("WS2".to_string())).unwrap();
    let window = WindowId::new(9, 1);

    assert!(manager.assign_window_to_workspace(&mut window_store, space, window, ws1_id));
    manager.set_last_focused_window(space, ws1_id, Some(window));

    assert!(manager.assign_window_to_workspace(&mut window_store, space, window, ws2_id));

    assert_eq!(manager.last_focused_window(space, ws1_id), None);
    assert_eq!(
        manager.workspace_for_window(&window_store, space, window),
        Some(ws2_id)
    );
}

#[test]
fn remap_space_drops_assignments_to_deleted_target_workspaces() {
    let mut window_store = WindowStore::default();
    let mut manager = WorkspaceStore::new();
    let old_space = SpaceId::new(1);
    let new_space = SpaceId::new(2);
    let migrated_ws = manager.create_workspace(old_space, Some("Old".to_string())).unwrap();
    let transient_ws =
        manager.create_workspace(new_space, Some("Transient".to_string())).unwrap();
    let migrated_window = WindowId::new(10, 1);
    let transient_window = WindowId::new(11, 1);

    assert!(manager.assign_window_to_workspace(
        &mut window_store,
        old_space,
        migrated_window,
        migrated_ws
    ));
    assert!(manager.assign_window_to_workspace(
        &mut window_store,
        new_space,
        transient_window,
        transient_ws
    ));

    manager.remap_space(&mut window_store, old_space, new_space);

    assert_eq!(
        manager.workspace_for_window(&window_store, new_space, migrated_window),
        Some(migrated_ws)
    );
    assert_eq!(
        manager.workspace_windows(&window_store, new_space, migrated_ws),
        vec![migrated_window]
    );
    assert_eq!(
        manager.workspace_info_for_window_any(&window_store, transient_window),
        None
    );
    assert!(manager.workspace_windows(&window_store, new_space, transient_ws).is_empty());
    assert!(manager.workspace_info(new_space, transient_ws).is_none());
}

#[test]
fn generic_assignment_does_not_infer_space_id_churn_from_empty_target() {
    let mut window_store = WindowStore::default();
    let mut settings = VirtualWorkspaceSettings::default();
    settings.default_workspace_count = 3;
    let mut manager = WorkspaceStore::new_with_config(&settings, &LayoutSettings::default());
    let old_space = SpaceId::new(1);
    let new_space = SpaceId::new(2);
    let window = WindowId::new(12, 1);

    let old_workspaces = manager.list_workspaces(old_space);
    let new_workspaces = manager.list_workspaces(new_space);
    let preserved_workspace = old_workspaces[2].0;
    let expected_target_workspace = new_workspaces[0].0;

    assert!(manager.assign_window_to_workspace(
        &mut window_store,
        old_space,
        window,
        preserved_workspace
    ));

    let assignment = assign(
        &mut manager,
        &[],
        &mut window_store,
        window,
        new_space,
        None,
        None,
        None,
        None,
        None,
    );

    assert_eq!(assignment.workspace_id, expected_target_workspace);
    assert_eq!(
        manager.workspace_info_for_window_any(&window_store, window),
        Some(WindowWorkspaceInfo {
            space: new_space,
            workspace_id: expected_target_workspace,
        })
    );
}

#[test]
fn does_not_preserve_workspace_ordinal_when_target_space_already_has_assignments() {
    let mut window_store = WindowStore::default();
    let mut settings = VirtualWorkspaceSettings::default();
    settings.default_workspace_count = 3;
    let mut manager = WorkspaceStore::new_with_config(&settings, &LayoutSettings::default());
    let old_space = SpaceId::new(1);
    let new_space = SpaceId::new(2);
    let moved_window = WindowId::new(13, 1);
    let existing_window = WindowId::new(14, 1);

    let old_workspaces = manager.list_workspaces(old_space);
    let new_workspaces = manager.list_workspaces(new_space);

    assert!(manager.assign_window_to_workspace(
        &mut window_store,
        old_space,
        moved_window,
        old_workspaces[2].0
    ));
    assert!(manager.assign_window_to_workspace(
        &mut window_store,
        new_space,
        existing_window,
        new_workspaces[1].0
    ));

    let assignment = assign(
        &mut manager,
        &[],
        &mut window_store,
        moved_window,
        new_space,
        None,
        None,
        None,
        None,
        None,
    );

    assert_eq!(assignment.workspace_id, new_workspaces[0].0);
    assert_eq!(
        manager.workspace_info_for_window_any(&window_store, moved_window),
        Some(WindowWorkspaceInfo {
            space: new_space,
            workspace_id: new_workspaces[0].0,
        })
    );
}

#[test]
fn topology_reassignment_preserves_workspace_ordinal_with_destination_assignments() {
    let mut window_store = WindowStore::default();
    let mut settings = VirtualWorkspaceSettings::default();
    settings.default_workspace_count = 3;
    let mut manager = WorkspaceStore::new_with_config(&settings, &LayoutSettings::default());
    let source_space = SpaceId::new(1);
    let destination_space = SpaceId::new(2);
    let moved_window = WindowId::new(15, 1);
    let destination_window = WindowId::new(16, 1);

    let source_workspaces = manager.list_workspaces(source_space);
    let destination_workspaces = manager.list_workspaces(destination_space);
    assert!(manager.assign_window_to_workspace(
        &mut window_store,
        source_space,
        moved_window,
        source_workspaces[2].0
    ));
    assert!(manager.assign_window_to_workspace(
        &mut window_store,
        destination_space,
        destination_window,
        destination_workspaces[0].0
    ));

    assert_eq!(
        manager.assign_window_to_workspace_preserving_ordinal(
            &mut window_store,
            destination_space,
            moved_window
        ),
        Some(destination_workspaces[2].0)
    );
    assert_eq!(
        manager.workspace_info_for_window_any(&window_store, moved_window),
        Some(WindowWorkspaceInfo {
            space: destination_space,
            workspace_id: destination_workspaces[2].0,
        })
    );
}

#[test]
fn unmanaged_rule_does_not_reassign_window_during_transient_space_id_churn() {
    let mut window_store = WindowStore::default();
    let mut settings = VirtualWorkspaceSettings::default();
    settings.default_workspace_count = 3;
    let rules = vec![AppWorkspaceRule {
        app_id: Some("com.example.unmanaged".into()),
        workspace: None,
        floating: false,
        position: None,
        size: None,
        focus: false,
        manage: Some(false),
        app_name: None,
        title_regex: None,
        title_substring: None,
        ax_role: None,
        ax_subrole: None,
    }];
    let mut manager = WorkspaceStore::new_with_config(&settings, &LayoutSettings::default());
    let old_space = SpaceId::new(1);
    let new_space = SpaceId::new(2);
    let window = WindowId::new(15, 1);

    let old_workspaces = manager.list_workspaces(old_space);
    let old_assignment = WindowWorkspaceInfo {
        space: old_space,
        workspace_id: old_workspaces[2].0,
    };
    assert!(manager.assign_window_to_workspace(
        &mut window_store,
        old_space,
        window,
        old_assignment.workspace_id
    ));

    let result = assign_window_with_app_info(
        &mut manager,
        &rules,
        &mut window_store,
        window,
        new_space,
        Some("com.example.unmanaged"),
        None,
        None,
        None,
        None,
    );

    assert!(matches!(
        result,
        Ok(AppRuleResult::Rejected(AppRuleRejection::ExplicitRule))
    ));
    assert_eq!(
        manager.workspace_for_window(&window_store, new_space, window),
        None
    );
    assert_eq!(
        manager.workspace_info_for_window_any(&window_store, window),
        Some(old_assignment)
    );
}

#[test]
fn test_active_workspace_switching() {
    let mut manager = WorkspaceStore::new();
    let space = SpaceId::new(1);
    let ws1_id = manager.create_workspace(space, Some("WS1".to_string())).unwrap();
    let ws2_id = manager.create_workspace(space, Some("WS2".to_string())).unwrap();

    assert!(manager.set_active_workspace(space, ws1_id));
    assert_eq!(manager.active_workspace(space), Some(ws1_id));

    assert!(manager.set_active_workspace(space, ws2_id));
    assert_eq!(manager.active_workspace(space), Some(ws2_id));
}

#[test]
fn test_window_visibility() {
    let mut window_store = WindowStore::default();
    fn is_window_visible(
        wm: &WorkspaceStore,
        window_store: &WindowStore,
        window_id: WindowId,
        space: SpaceId,
    ) -> bool {
        let window_workspace = wm.workspace_for_window(window_store, space, window_id);
        let active_workspace = wm.active_workspace(space);

        match (window_workspace, active_workspace) {
            (Some(window_ws), Some(active_ws)) => window_ws == active_ws,
            _ => true,
        }
    }
    let mut manager = WorkspaceStore::new();
    let space = SpaceId::new(1);
    let ws1_id = manager.create_workspace(space, Some("WS1".to_string())).unwrap();
    let ws2_id = manager.create_workspace(space, Some("WS2".to_string())).unwrap();
    let window1 = WindowId::new(1, 1);
    let window2 = WindowId::new(1, 2);

    manager.set_active_workspace(space, ws1_id);
    manager.assign_window_to_workspace(&mut window_store, space, window1, ws1_id);
    manager.assign_window_to_workspace(&mut window_store, space, window2, ws2_id);

    assert!(is_window_visible(&manager, &window_store, window1, space));
    assert!(!is_window_visible(&manager, &window_store, window2, space));

    manager.set_active_workspace(space, ws2_id);
    assert!(!is_window_visible(&manager, &window_store, window1, space));
    assert!(is_window_visible(&manager, &window_store, window2, space));
}

#[test]
fn default_workspace_setting_applied() {
    let mut settings = VirtualWorkspaceSettings::default();
    settings.default_workspace_count = 5;
    settings.default_workspace = 3;

    let mut manager = WorkspaceStore::new_with_config(&settings, &LayoutSettings::default());

    let space = SpaceId::new(42);
    let workspaces = manager.list_workspaces(space);
    let expected_ws = workspaces.get(settings.default_workspace).unwrap().0;

    assert_eq!(manager.active_workspace(space), Some(expected_ws));
}

#[test]
fn test_workspace_navigation() {
    let window_store = WindowStore::default();
    let mut manager = WorkspaceStore::new();
    let space = SpaceId::new(1);
    let ws1_id = manager.create_workspace(space, Some("WS1".to_string())).unwrap();
    let ws2_id = manager.create_workspace(space, Some("WS2".to_string())).unwrap();
    let ws3_id = manager.create_workspace(space, Some("WS3".to_string())).unwrap();

    assert_eq!(
        manager.next_workspace(&window_store, space, ws1_id, None),
        Some(ws2_id)
    );
    assert_eq!(
        manager.next_workspace(&window_store, space, ws2_id, None),
        Some(ws3_id)
    );

    assert_eq!(
        manager.prev_workspace(&window_store, space, ws2_id, None),
        Some(ws1_id)
    );
    assert_eq!(
        manager.prev_workspace(&window_store, space, ws3_id, None),
        Some(ws2_id)
    );
}

#[test]
fn workspace_navigation_uses_stable_indexes_not_persisted_vector_order() {
    let window_store = WindowStore::default();
    let settings = VirtualWorkspaceSettings {
        default_workspace_count: 3,
        workspace_names: vec!["A".into(), "B".into(), "C".into()],
        ..VirtualWorkspaceSettings::default()
    };
    let mut manager = WorkspaceStore::new_with_config(&settings, &LayoutSettings::default());
    let space = SpaceId::new(2);
    let indexed = manager.list_workspaces(space);
    manager.workspaces_by_space.get_mut(&space.get()).unwrap().reverse();

    assert_eq!(
        manager
            .list_workspaces(space)
            .iter()
            .map(|(_, name)| name.as_str())
            .collect::<Vec<_>>(),
        ["A", "B", "C"],
    );
    assert_eq!(
        manager.next_workspace(&window_store, space, indexed[0].0, None),
        Some(indexed[1].0),
    );
    assert_eq!(
        manager.prev_workspace(&window_store, space, indexed[2].0, None),
        Some(indexed[1].0),
    );
}

#[test]
fn workspace_navigation_wraps_by_default() {
    let window_store = WindowStore::default();
    let settings = VirtualWorkspaceSettings {
        default_workspace_count: 3,
        ..VirtualWorkspaceSettings::default()
    };
    let mut manager = WorkspaceStore::new_with_config(&settings, &LayoutSettings::default());
    let space = SpaceId::new(1);
    let workspaces = manager.list_workspaces(space).to_vec();

    assert_eq!(
        manager.next_workspace(&window_store, space, workspaces[2].0, None),
        Some(workspaces[0].0)
    );
    assert_eq!(
        manager.prev_workspace(&window_store, space, workspaces[0].0, None),
        Some(workspaces[2].0)
    );
}

#[test]
fn prevent_wrapping_stops_workspace_navigation_at_boundaries() {
    let mut window_store = WindowStore::default();
    let settings = VirtualWorkspaceSettings {
        default_workspace_count: 4,
        prevent_wrapping: true,
        ..VirtualWorkspaceSettings::default()
    };
    let mut manager = WorkspaceStore::new_with_config(&settings, &LayoutSettings::default());
    let space = SpaceId::new(1);
    let workspaces = manager.list_workspaces(space).to_vec();

    assert_eq!(
        manager.prev_workspace(&window_store, space, workspaces[0].0, None),
        None
    );
    assert_eq!(
        manager.next_workspace(&window_store, space, workspaces[3].0, None),
        None
    );

    let window = WindowId::new(1, 1);
    assert!(manager.assign_window_to_workspace(
        &mut window_store,
        space,
        window,
        workspaces[3].0
    ));
    assert_eq!(
        manager.next_workspace(&window_store, space, workspaces[1].0, Some(true)),
        Some(workspaces[3].0)
    );
    assert_eq!(
        manager.next_workspace(&window_store, space, workspaces[3].0, Some(true)),
        None
    );
}

#[test]
fn prevent_wrapping_updates_on_config_reload() {
    let window_store = WindowStore::default();
    let mut settings = VirtualWorkspaceSettings {
        default_workspace_count: 2,
        ..VirtualWorkspaceSettings::default()
    };
    let mut manager = WorkspaceStore::new_with_config(&settings, &LayoutSettings::default());
    let space = SpaceId::new(1);
    let workspaces = manager.list_workspaces(space).to_vec();

    assert_eq!(
        manager.next_workspace(&window_store, space, workspaces[1].0, None),
        Some(workspaces[0].0)
    );

    settings.prevent_wrapping = true;
    manager.update_settings(&settings, &LayoutSettings::default());
    assert_eq!(
        manager.next_workspace(&window_store, space, workspaces[1].0, None),
        None
    );
}

#[test]
fn app_rules() {
    let mut window_store = WindowStore::default();
    let space1 = SpaceId::new(1);
    let space2 = SpaceId::new(2);

    let mut settings = VirtualWorkspaceSettings::default();

    if settings.workspace_names.len() < 4 {
        while settings.workspace_names.len() < 4 {
            settings
                .workspace_names
                .push(format!("Workspace {}", settings.workspace_names.len() + 1));
        }
    }
    settings.workspace_names[1] = "coding".to_string();

    let rules = vec![
        // Floating by app_id
        AppWorkspaceRule {
            app_id: Some("com.example.test".into()),
            floating: true,
            manage: Some(true),
            ..Default::default()
        },
        // Match by app_name -> workspace 1
        AppWorkspaceRule {
            workspace: Some(WorkspaceSelector::Index(1)),
            manage: Some(true),
            app_name: Some("Calendar".into()),
            ..Default::default()
        },
        // Title substring -> workspace 0
        AppWorkspaceRule {
            app_id: Some("com.example.foo".into()),
            workspace: Some(WorkspaceSelector::Index(0)),
            manage: Some(true),
            title_substring: Some("Preferences".into()),
            ..Default::default()
        },
        // Title regex -> workspace 2
        AppWorkspaceRule {
            app_id: Some("com.example.foo".into()),
            workspace: Some(WorkspaceSelector::Index(2)),
            manage: Some(true),
            title_regex: Some(r"Dialog\s+\d+".into()),
            ..Default::default()
        },
        // AX role + subrole floating
        AppWorkspaceRule {
            app_id: Some("com.example.special".into()),
            floating: true,
            manage: Some(true),
            ax_role: Some("AXWindow".into()),
            ax_subrole: Some("AXDialog".into()),
            ..Default::default()
        },
        // Workspace by name
        AppWorkspaceRule {
            app_id: Some("com.example.name".into()),
            workspace: Some(WorkspaceSelector::Name("coding".into())),
            manage: Some(true),
            ..Default::default()
        },
        // A title-specific rule can replace an existing assignment.
        AppWorkspaceRule {
            app_id: Some("app.zen-browser.zen".into()),
            workspace: Some(WorkspaceSelector::Index(2)),
            manage: Some(true),
            ..Default::default()
        },
        AppWorkspaceRule {
            app_id: Some("app.zen-browser.zen".into()),
            workspace: Some(WorkspaceSelector::Index(3)),
            floating: true,
            manage: Some(true),
            title_substring: Some("bitwarden".into()),
            ..Default::default()
        },
    ];

    let mut manager = WorkspaceStore::new_with_config(&settings, &LayoutSettings::default());

    // 1. Floating persistence via app_id (case-insensitive)
    let w_float = WindowId::new(10, 1);
    let assignment = assign(
        &mut manager,
        &rules,
        &mut window_store,
        w_float,
        space1,
        Some("COM.EXAMPLE.Test"),
        None,
        None,
        None,
        None,
    );
    assert!(assignment.floating);

    manager.remove_window(&mut window_store, w_float);

    // After removal, reassign should still float.
    let assignment_again = assign(
        &mut manager,
        &rules,
        &mut window_store,
        w_float,
        space1,
        Some("com.example.test"),
        None,
        None,
        None,
        None,
    );
    assert!(assignment_again.floating);

    // 2. Match by app_name
    let w_name = WindowId::new(20, 2);
    let ws_name = assign(
        &mut manager,
        &rules,
        &mut window_store,
        w_name,
        space1,
        None,
        Some("MyCalendarApp"),
        None,
        None,
        None,
    )
    .workspace_id;
    let coding_idx = 1; // Calendar rule points to workspace index 1
    let expected_ws_name = manager.list_workspaces(space1).get(coding_idx).unwrap().0;
    assert_eq!(ws_name, expected_ws_name);

    // 3. Title substring and regex for same app
    let w_pref = WindowId::new(30, 3);
    let w_dialog = WindowId::new(30, 4);
    let ws_pref = assign(
        &mut manager,
        &rules,
        &mut window_store,
        w_pref,
        space1,
        Some("com.example.foo"),
        None,
        Some("App Preferences"),
        None,
        None,
    )
    .workspace_id;
    let ws_dialog = assign(
        &mut manager,
        &rules,
        &mut window_store,
        w_dialog,
        space1,
        Some("com.example.foo"),
        None,
        Some("Dialog 42"),
        None,
        None,
    )
    .workspace_id;
    let expected_pref = manager.list_workspaces(space1).get(0).unwrap().0;
    let expected_dialog = manager.list_workspaces(space1).get(2).unwrap().0;
    assert_eq!(ws_pref, expected_pref);
    assert_eq!(ws_dialog, expected_dialog);

    // 4. AX role + subrole floating
    let w_ax = WindowId::new(40, 5);
    let ax_assignment = assign(
        &mut manager,
        &rules,
        &mut window_store,
        w_ax,
        space1,
        Some("com.example.special"),
        None,
        None,
        Some("AXWindow"),
        Some("AXDialog"),
    );
    assert!(ax_assignment.floating);

    // 5. Workspace name resolution
    let w_named = WindowId::new(50, 6);
    let ws_named = assign(
        &mut manager,
        &rules,
        &mut window_store,
        w_named,
        space1,
        Some("com.example.name"),
        None,
        None,
        None,
        None,
    )
    .workspace_id;
    let coding_ws =
        manager.list_workspaces(space1).iter().find(|(_, n)| n == "coding").unwrap().0;
    assert_eq!(ws_named, coding_ws);

    // 6. Reapplication updates both workspace and floating state.
    let w_bw2 = WindowId::new(80, 9);
    let bw2_initial_assignment = assign(
        &mut manager,
        &rules,
        &mut window_store,
        w_bw2,
        space2,
        Some("app.zen-browser.zen"),
        None,
        None,
        None,
        None,
    );
    assert!(!bw2_initial_assignment.floating);
    let bw2_updated_assignment = assign(
        &mut manager,
        &rules,
        &mut window_store,
        w_bw2,
        space2,
        Some("app.zen-browser.zen"),
        None,
        Some("Bitwarden Vault"),
        None,
        None,
    );
    let expected_initial = manager.list_workspaces(space2).get(2).unwrap().0; // workspace index 1
    let expected_updated = manager.list_workspaces(space2).get(3).unwrap().0;
    assert_eq!(bw2_initial_assignment.workspace_id, expected_initial);
    assert_eq!(bw2_updated_assignment.workspace_id, expected_updated);
    assert!(bw2_updated_assignment.floating);
}
