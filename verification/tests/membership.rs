use virtual_workspaces::AppRuleDecision;
use virtual_workspaces::AppRuleRejection;
use virtual_workspaces::AppRuleResult;
use virtual_workspaces::LayoutSettings;
use virtual_workspaces::SpaceId;
use virtual_workspaces::VirtualWorkspaceId;
use virtual_workspaces::VirtualWorkspaceSettings;
use virtual_workspaces::WindowId;
use virtual_workspaces::WindowPosition;
use virtual_workspaces::WindowRecord;
use virtual_workspaces::WindowSize;
use virtual_workspaces::WindowStore;
use virtual_workspaces::WindowWorkspaceInfo;
use virtual_workspaces::WorkspaceError;
use virtual_workspaces::WorkspaceSelector;
use virtual_workspaces::WorkspaceStore;

fn decision(manage: Option<bool>) -> AppRuleDecision {
    AppRuleDecision {
        workspace: None,
        floating: false,
        position: None,
        size: None,
        focus: false,
        manage,
    }
}

fn ids(store: &mut WorkspaceStore, space: SpaceId) -> Vec<VirtualWorkspaceId> {
    store.list_workspaces(space).into_iter().map(|(id, _)| id).collect()
}

#[test]
fn a_window_is_in_one_workspace_alone() {
    let mut store = WorkspaceStore::new();
    let mut windows = WindowStore::default();
    let space = SpaceId::new(1);
    let ids = ids(&mut store, space);
    let window = WindowId::new(5, 1);

    assert!(store.assign_window_to_workspace(&mut windows, space, window, ids[0]));
    assert!(store.assign_window_to_workspace(&mut windows, space, window, ids[2]));

    assert_eq!(store.workspaces_for_window(&windows, window), vec![ids[2]]);
    assert_eq!(store.workspace_for_window_any(&windows, window), Some(ids[2]));
    assert_eq!(windows.workspace_assignment_count(), 1);
    assert_eq!(windows.workspace_window_count(space, ids[0]), 0);
    assert_eq!(windows.workspace_window_count(space, ids[2]), 1);
    assert_eq!(store.workspace_for_window(&windows, SpaceId::new(2), window), None);
}

#[test]
fn a_foreign_workspace_takes_no_window() {
    let mut store = WorkspaceStore::new();
    let mut windows = WindowStore::default();
    let here = SpaceId::new(1);
    let there = SpaceId::new(2);
    let foreign = ids(&mut store, there)[0];
    let window = WindowId::new(5, 1);

    assert!(!store.assign_window_to_workspace(&mut windows, here, window, foreign));
    assert_eq!(store.workspace_info_for_window_any(&windows, window), None);
    assert!(store.workspace_windows(&windows, here, foreign).is_empty());
}

#[test]
fn windows_are_shown_or_hidden() {
    let mut store = WorkspaceStore::new();
    let mut windows = WindowStore::default();
    let space = SpaceId::new(1);
    let ids = ids(&mut store, space);
    let shown = WindowId::new(1, 10);
    let hidden = WindowId::new(1, 11);
    let other = WindowId::new(2, 12);
    assert!(store.assign_window_to_workspace(&mut windows, space, hidden, ids[2]));
    assert!(store.assign_window_to_workspace(&mut windows, space, shown, ids[0]));
    assert!(store.assign_window_to_workspace(&mut windows, space, other, ids[1]));

    assert_eq!(store.windows_in_active_workspace(&windows, space), vec![shown]);
    assert_eq!(store.windows_in_inactive_workspaces(&windows, space), vec![other, hidden]);
    assert!(store.is_window_in_active_workspace(&windows, space, shown));
    assert!(!store.is_window_in_active_workspace(&windows, space, hidden));
    assert!(store.is_window_in_active_workspace(&windows, space, WindowId::new(9, 9)));
    assert!(store.windows_in_active_workspace(&windows, SpaceId::new(7)).is_empty());
}

#[test]
fn windows_are_found_by_number() {
    let mut store = WorkspaceStore::new();
    let mut windows = WindowStore::default();
    let space = SpaceId::new(1);
    let ids = ids(&mut store, space);
    let first = WindowId::new(1, 10);
    let second = WindowId::new(2, 10);
    assert!(store.assign_window_to_workspace(&mut windows, space, first, ids[0]));
    assert!(store.assign_window_to_workspace(&mut windows, space, second, ids[1]));

    assert_eq!(store.find_window_by_idx(&windows, space, 10), Some(first));
    assert_eq!(store.find_window_by_idx(&windows, space, 11), None);
    assert_eq!(store.find_window_by_idx(&windows, SpaceId::new(2), 10), None);
    assert_eq!(
        store.find_window_in_workspace_by_idx(&windows, space, ids[1], 10),
        Some(second)
    );
    assert_eq!(store.find_window_in_workspace_by_idx(&windows, space, ids[2], 10), None);
    assert_eq!(
        store.find_window_in_workspace_by_idx(&windows, SpaceId::new(2), ids[1], 10),
        None
    );
}

#[test]
fn removing_an_app_takes_its_windows_and_no_others() {
    let mut store = WorkspaceStore::new();
    let mut windows = WindowStore::default();
    let space = SpaceId::new(1);
    let ids = ids(&mut store, space);
    let gone = [WindowId::new(5, 1), WindowId::new(5, 2)];
    let stays = WindowId::new(6, 1);
    for window in [gone[0], stays, gone[1]] {
        assert!(store.assign_window_to_workspace(&mut windows, space, window, ids[0]));
        assert!(!windows.replace_rule_floating(window, true));
    }
    windows.insert_record(
        gone[0],
        WindowRecord { manageable: Some(true), manage_override: Some(true) },
    );

    store.remove_windows_for_app(&mut windows, 5);

    assert_eq!(store.workspace_windows(&windows, space, ids[0]), vec![stays]);
    assert!(!windows.is_rule_floating(gone[0]));
    assert!(windows.is_rule_floating(stays));
    assert_eq!(
        windows.record(gone[0]),
        Some(WindowRecord { manageable: Some(true), manage_override: None })
    );

    store.remove_window(&mut windows, stays);
    assert_eq!(windows.workspace_assignment_count(), 0);
    assert!(!windows.is_rule_floating(stays));
    assert_eq!(windows.record(stays), None);
}

#[test]
fn a_window_without_workspace_goes_to_the_active_one() {
    let mut store = WorkspaceStore::new();
    let mut windows = WindowStore::default();
    let space = SpaceId::new(1);
    let ids = ids(&mut store, space);
    let window = WindowId::new(1, 1);
    assert!(store.set_active_workspace(space, ids[2]));
    assert!(!windows.replace_rule_floating(window, true));

    assert_eq!(store.auto_assign_window(&mut windows, window, space), Ok(ids[2]));
    assert_eq!(store.workspace_for_window_any(&windows, window), Some(ids[2]));
    assert!(!windows.is_rule_floating(window));
}

#[test]
fn a_space_without_workspaces_takes_no_window() {
    let config = VirtualWorkspaceSettings {
        shared_across_displays: true,
        default_workspace_count: 2,
        ..VirtualWorkspaceSettings::default()
    };
    let mut store = WorkspaceStore::new_with_config(&config, &LayoutSettings::default());
    let mut windows = WindowStore::default();
    let window = WindowId::new(1, 1);
    store.apply_display_topology(&mut windows, &[(SpaceId::new(1), None)]);
    let empty = SpaceId::new(2);

    assert_eq!(
        store.auto_assign_window(&mut windows, window, empty),
        Err(WorkspaceError::InconsistentState("No workspaces for space".to_string()))
    );
    assert_eq!(
        store.apply_app_rule_decision(&mut windows, window, empty, None),
        Err(WorkspaceError::NoWorkspacesAvailable)
    );
    assert_eq!(windows.workspace_assignment_count(), 0);
}

#[test]
fn showing_a_foreign_workspace_fails_the_assignment() {
    let mut store = WorkspaceStore::new();
    let mut windows = WindowStore::default();
    let here = SpaceId::new(1);
    let own = ids(&mut store, here)[0];
    let foreign = ids(&mut store, SpaceId::new(2))[0];
    store.active_workspace_per_space.insert(1, (None, foreign));
    let window = WindowId::new(1, 1);

    assert_eq!(
        store.auto_assign_window(&mut windows, window, here),
        Err(WorkspaceError::AssignmentFailed)
    );
    assert_eq!(
        store.apply_app_rule_decision(&mut windows, window, here, None),
        Err(WorkspaceError::AssignmentFailed)
    );
    // A workspace that does not exist is replaced by the first.
    store.active_workspace_per_space.insert(1, (None, VirtualWorkspaceId::from_raw(77)));
    assert_eq!(store.auto_assign_window(&mut windows, window, here), Ok(own));
    assert_eq!(store.active_workspace(here), Some(own));
    assert_eq!(store.last_workspace(here), None);
}

#[test]
fn leaving_a_workspace_clears_only_the_own_focus() {
    let mut store = WorkspaceStore::new();
    let mut windows = WindowStore::default();
    let space = SpaceId::new(1);
    let ids = ids(&mut store, space);
    let leaving = WindowId::new(1, 1);
    let staying = WindowId::new(1, 2);
    assert!(store.assign_window_to_workspace(&mut windows, space, leaving, ids[0]));
    assert!(store.assign_window_to_workspace(&mut windows, space, staying, ids[0]));
    store.set_last_focused_window(space, ids[0], Some(staying));

    assert!(store.assign_window_to_workspace(&mut windows, space, leaving, ids[1]));
    assert_eq!(store.last_focused_window(space, ids[0]), Some(staying));
    assert!(store.assign_window_to_workspace(&mut windows, space, staying, ids[1]));
    assert_eq!(store.last_focused_window(space, ids[0]), None);
    assert_eq!(store.last_focused_window(SpaceId::new(9), ids[0]), None);
}

#[test]
fn a_window_joins_what_a_shared_display_shows() {
    let config = VirtualWorkspaceSettings {
        shared_across_displays: true,
        default_workspace_count: 4,
        ..VirtualWorkspaceSettings::default()
    };
    let mut store = WorkspaceStore::new_with_config(&config, &LayoutSettings::default());
    let mut windows = WindowStore::default();
    let left = SpaceId::new(1);
    let right = SpaceId::new(2);
    store.apply_display_topology(&mut windows, &[(left, None), (right, None)]);
    let window = WindowId::new(1, 1);
    let own = store.ordered_workspace_ids(left)[2];
    assert!(store.assign_window_to_workspace(&mut windows, left, window, own));

    let shown = store.active_workspace(right);
    assert_eq!(
        store.assign_window_to_workspace_preserving_ordinal(&mut windows, right, window),
        shown
    );
    assert_eq!(store.workspace_for_window(&windows, right, window), shown);
    assert_eq!(
        store.assign_window_to_workspace_preserving_ordinal(&mut windows, right, window),
        shown
    );
    assert_eq!(
        store.assign_window_to_workspace_preserving_ordinal(
            &mut windows,
            right,
            WindowId::new(8, 8)
        ),
        None
    );
}

#[test]
fn an_ordinal_without_counterpart_moves_nothing() {
    let mut store = WorkspaceStore::new();
    let mut windows = WindowStore::default();
    let from = SpaceId::new(1);
    let to = SpaceId::new(2);
    let last = {
        ids(&mut store, from);
        store.create_workspace(from, None).unwrap()
    };
    let window = WindowId::new(1, 1);
    assert!(store.assign_window_to_workspace(&mut windows, from, window, last));

    assert_eq!(
        store.assign_window_to_workspace_preserving_ordinal(&mut windows, to, window),
        None
    );
    assert_eq!(
        store.workspace_info_for_window_any(&windows, window),
        Some(WindowWorkspaceInfo { space: from, workspace_id: last })
    );
    assert_eq!(store.initialized_spaces(), vec![from, to]);
}

#[test]
fn rules_admit_windows_as_they_look_or_as_they_are_told() {
    let mut store = WorkspaceStore::new();
    let mut windows = WindowStore::default();
    let space = SpaceId::new(1);
    let plain = WindowId::new(1, 1);
    windows.insert_record(
        plain,
        WindowRecord { manageable: Some(false), manage_override: None },
    );
    assert_eq!(
        store.apply_app_rule_decision(&mut windows, plain, space, None),
        Ok(AppRuleResult::Rejected(AppRuleRejection::Heuristic))
    );
    assert_eq!(
        store.apply_app_rule_decision(&mut windows, plain, space, Some(decision(Some(false)))),
        Ok(AppRuleResult::Rejected(AppRuleRejection::ExplicitRule))
    );
    assert_eq!(windows.record(plain).unwrap().manage_override, Some(false));
    assert!(matches!(
        store.apply_app_rule_decision(&mut windows, plain, space, Some(decision(Some(true)))),
        Ok(AppRuleResult::Managed(_))
    ));
    assert_eq!(windows.record(plain).unwrap().manage_override, Some(true));

    let unseen = WindowId::new(1, 2);
    assert!(matches!(
        store.apply_app_rule_decision(&mut windows, unseen, space, None),
        Ok(AppRuleResult::Managed(_))
    ));
    assert_eq!(windows.record(unseen), None);
}

#[test]
fn rules_hand_on_what_they_decide() {
    let mut store = WorkspaceStore::new();
    let mut windows = WindowStore::default();
    let space = SpaceId::new(1);
    let ids = ids(&mut store, space);
    let window = WindowId::new(1, 1);
    let told = AppRuleDecision {
        workspace: Some(WorkspaceSelector::Index(3)),
        floating: true,
        position: Some(WindowPosition { x: -5, y: 7 }),
        size: Some(WindowSize { width: 300, height: 200 }),
        focus: true,
        manage: None,
    };
    let result = store.apply_app_rule_decision(&mut windows, window, space, Some(told));
    match result {
        Ok(AppRuleResult::Managed(effects)) => {
            assert_eq!(effects.workspace_id, ids[3]);
            assert!(effects.floating);
            assert_eq!(effects.position, Some(WindowPosition { x: -5, y: 7 }));
            assert_eq!(effects.size, Some(WindowSize { width: 300, height: 200 }));
            assert!(effects.focus);
            assert!(!effects.was_rule_floating);
        }
        other => panic!("unexpected {other:?}"),
    }
    match store.apply_app_rule_decision(&mut windows, window, space, None) {
        Ok(AppRuleResult::Managed(effects)) => {
            assert_eq!(effects.workspace_id, ids[3], "no rule selects another");
            assert!(!effects.floating);
            assert!(effects.was_rule_floating);
        }
        other => panic!("unexpected {other:?}"),
    }
    assert!(!windows.is_rule_floating(window));
}

#[test]
fn a_preserved_workspace_outweighs_a_rule() {
    let mut store = WorkspaceStore::new();
    let mut windows = WindowStore::default();
    let space = SpaceId::new(1);
    let ids = ids(&mut store, space);
    let window = WindowId::new(1, 1);
    assert!(store.assign_window_to_workspace(&mut windows, space, window, ids[2]));
    let told = || AppRuleDecision {
        workspace: Some(WorkspaceSelector::Index(1)),
        ..decision(None)
    };
    match store.apply_app_rule_decision_preserving_workspace(
        &mut windows,
        window,
        space,
        Some(told()),
    ) {
        Ok(AppRuleResult::Managed(effects)) => assert_eq!(effects.workspace_id, ids[2]),
        other => panic!("unexpected {other:?}"),
    }
    match store.apply_app_rule_decision(&mut windows, window, space, Some(told())) {
        Ok(AppRuleResult::Managed(effects)) => assert_eq!(effects.workspace_id, ids[1]),
        other => panic!("unexpected {other:?}"),
    }
    let missing = WorkspaceSelector::Name("nowhere".into());
    assert_eq!(
        store.resolve_rule_workspace_with_policy(space, Some(&missing), None, false),
        Ok(ids[0])
    );
}

#[test]
fn counts_cover_every_workspace() {
    let mut store = WorkspaceStore::new();
    let mut windows = WindowStore::default();
    let space = SpaceId::new(1);
    let ids = ids(&mut store, space);
    for idx in 1..4 {
        let window = WindowId::new(1, idx);
        assert!(store.assign_window_to_workspace(&mut windows, space, window, ids[1]));
    }
    let stats = store.get_stats(&windows);
    assert_eq!(stats.total_workspaces, 4);
    assert_eq!(stats.total_windows, 3);
    assert_eq!(stats.active_spaces, 1);
    assert_eq!(stats.workspace_window_counts.len(), 4);
    assert_eq!(stats.workspace_window_counts[&ids[1].as_raw()], 3);
    assert_eq!(stats.workspace_window_counts[&ids[0].as_raw()], 0);
}

#[test]
fn a_selection_that_finds_nothing_is_ignored() {
    let mut store = WorkspaceStore::new();
    let space = SpaceId::new(1);
    let other = SpaceId::new(2);
    let here = ids(&mut store, space);
    let there = ids(&mut store, other);
    let had = WindowWorkspaceInfo { space, workspace_id: here[2] };
    let nobody = WorkspaceSelector::Name("Nobody".to_string());
    for preserve in [false, true] {
        let kept =
            store.resolve_rule_workspace_with_policy(space, Some(&nobody), Some(had), preserve);
        assert_eq!(kept, Ok(here[2]));
        let fallback = store.resolve_rule_workspace_with_policy(space, Some(&nobody), None, preserve);
        assert_eq!(fallback, Ok(here[0]));
    }
    let second = WorkspaceSelector::Index(1);
    let chosen = store.resolve_rule_workspace_with_policy(space, Some(&second), Some(had), false);
    assert_eq!(chosen, Ok(here[1]));

    store.shared_across_displays = true;
    let foreign = WorkspaceSelector::Index(5);
    assert_eq!(store.global_index_of(there[1]), Some(5));
    let kept = store.resolve_rule_workspace_with_policy(space, Some(&foreign), Some(had), false);
    assert_eq!(kept, Ok(here[2]));
}

#[test]
fn a_window_that_has_a_workspace_needs_no_entry() {
    let mut store = WorkspaceStore::new();
    let here = ids(&mut store, SpaceId::new(1));
    let space = SpaceId::new(9);
    let had = WindowWorkspaceInfo { space, workspace_id: here[0] };
    store.max_workspaces = 0;
    assert!(!store.can_initialize_space(space));
    let kept = store.resolve_rule_workspace_with_policy(space, None, Some(had), false);
    assert_eq!(kept, Ok(here[0]));
    assert_eq!(store.initialized_spaces(), vec![SpaceId::new(1)]);
}
