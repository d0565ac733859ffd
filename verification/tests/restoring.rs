use std::collections::HashMap;

use virtual_workspaces::LayoutMode;
use virtual_workspaces::LayoutSettings;
use virtual_workspaces::SpaceId;
use virtual_workspaces::VirtualWorkspace;
use virtual_workspaces::VirtualWorkspaceId;
use virtual_workspaces::VirtualWorkspaceSettings;
use virtual_workspaces::WindowStore;
use virtual_workspaces::WorkspaceStore;
use virtual_workspaces::MAX_WORKSPACES;

fn copy(store: &WorkspaceStore) -> Vec<(VirtualWorkspaceId, VirtualWorkspace)> {
    store
        .workspace_ids()
        .into_iter()
        .map(|id| {
            let found = store.workspace(id).unwrap();
            let mut workspace = VirtualWorkspace::new(
                found.name.clone(),
                found.space,
                found.layout_mode(),
                &LayoutSettings::default(),
            );
            workspace.set_last_focused(found.last_focused());
            (id, workspace)
        })
        .collect()
}

#[test]
fn a_restored_store_has_every_workspace_under_its_identifier() {
    let mut store = WorkspaceStore::new();
    let mut windows = WindowStore::default();
    let first = SpaceId::new(1);
    let second = SpaceId::new(2);
    let third = SpaceId::new(3);
    store.list_workspaces(first);
    store.list_workspaces(second);
    store.list_workspaces(third);
    // Slots 5 to 8 are given up.
    store.remap_space(&mut windows, first, second);
    let again = store.create_workspace(third, Some("Again".to_string())).unwrap();
    assert_eq!(again.as_raw(), 1 << 32 | 13);

    let restored = WorkspaceStore::restore(
        copy(&store),
        store.workspaces_by_space.clone(),
        store.active_workspace_per_space.clone(),
        store.workspace_counter,
    );
    let mut restored = restored.unwrap();
    assert_eq!(restored.workspace_ids(), store.workspace_ids());
    assert_eq!(restored.validate_persisted_topology(), Ok(()));
    assert_eq!(restored.existing_workspaces(third), store.existing_workspaces(third));
    assert_eq!(restored.existing_workspaces(second), store.existing_workspaces(second));
    assert_eq!(restored.active_workspace(third), store.active_workspace(third));
    assert_eq!(restored.workspace_space(again), Some(third));
    assert_eq!(restored.max_workspaces, 0);
    assert_eq!(restored.last_active_global(), None);

    restored.update_settings(&VirtualWorkspaceSettings::default(), &LayoutSettings::default());
    assert_eq!(restored.max_workspaces, MAX_WORKSPACES);
    let made = restored.create_workspace(third, None).unwrap();
    assert_eq!(made.as_raw(), 1 << 32 | 14);
}

#[test]
fn a_slot_is_restored_in_its_version() {
    let workspace = VirtualWorkspace::new(
        "W".to_string(),
        SpaceId::new(1),
        LayoutMode::Traditional,
        &LayoutSettings::default(),
    );
    let id = VirtualWorkspaceId::from_raw(7 << 32 | 3);
    let mut store = WorkspaceStore::restore(
        vec![(id, workspace)],
        HashMap::from([(1, vec![id])]),
        HashMap::from([(1, (None, id))]),
        1,
    )
    .unwrap();
    assert_eq!(store.workspace_ids(), vec![id]);
    assert_eq!(store.validate_persisted_topology(), Ok(()));
    assert!(store.has_room(0xffff_fffb));
    assert!(!store.has_room(0xffff_fffc));
    store.update_settings(&VirtualWorkspaceSettings::default(), &LayoutSettings::default());
    let raw: Vec<u64> = store.workspace_ids().iter().map(|id| id.as_raw()).collect();
    assert_eq!(raw, vec![7 << 32 | 3, 1 << 32 | 4, 1 << 32 | 5, 1 << 32 | 6]);
}

#[test]
fn workspaces_out_of_order_are_not_restored() {
    let workspace = |name: &str| {
        VirtualWorkspace::new(
            name.to_string(),
            SpaceId::new(1),
            LayoutMode::Traditional,
            &LayoutSettings::default(),
        )
    };
    let restore = |raw: &[u64]| {
        WorkspaceStore::restore(
            raw.iter().map(|raw| (VirtualWorkspaceId::from_raw(*raw), workspace("W"))).collect(),
            HashMap::new(),
            HashMap::new(),
            1,
        )
    };
    assert!(restore(&[1 << 32 | 2, 1 << 32 | 3]).is_some());
    assert!(restore(&[1 << 32 | 3, 1 << 32 | 2]).is_none());
    assert!(restore(&[1 << 32 | 3, 3 << 32 | 3]).is_none());
    assert!(restore(&[1 << 32]).is_none());
    assert!(restore(&[1 << 32 | 0xffff_ffff]).is_none());
    assert!(restore(&[]).is_some());
}
