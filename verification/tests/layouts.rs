use virtual_workspaces::layout::BaseSettings;
use virtual_workspaces::layout::MasterStackSettings;
use virtual_workspaces::layout::Orientation;
use virtual_workspaces::layout::ScrollingSettings;
use virtual_workspaces::layout::WindowInsertionPoint;
use virtual_workspaces::workspace::default_layout_system_kind;
use virtual_workspaces::LayoutMode;
use virtual_workspaces::LayoutSettings;
use virtual_workspaces::LayoutSystemKind;
use virtual_workspaces::RestoreSource;
use virtual_workspaces::SpaceId;
use virtual_workspaces::VirtualWorkspace;
use virtual_workspaces::VirtualWorkspaceSettings;
use virtual_workspaces::WindowId;
use virtual_workspaces::WorkspaceLayoutRule;
use virtual_workspaces::WorkspaceSelector;
use virtual_workspaces::WorkspaceStore;

fn settings() -> LayoutSettings {
    let mut settings = LayoutSettings::default();
    settings.base.window_insertion_point = Some(WindowInsertionPoint::AtEnd);
    settings.bsp.base.window_insertion_point = Some(WindowInsertionPoint::AfterFocused);
    settings.traditional.equalize_nodes = true;
    settings.stack.default_orientation = Orientation::Vertical;
    settings.master_stack.master_count = 2;
    settings.scrolling.visible_columns = 3;
    settings
}

#[test]
fn each_mode_starts_its_layout_system() {
    let settings = settings();
    let at_end = BaseSettings { window_insertion_point: Some(WindowInsertionPoint::AtEnd) };
    assert_eq!(
        VirtualWorkspace::create_layout_system(LayoutMode::Traditional, &settings),
        LayoutSystemKind::Traditional {
            insertion_point: WindowInsertionPoint::AtEnd,
            equalize_nodes: true,
        }
    );
    assert_eq!(
        VirtualWorkspace::create_layout_system(LayoutMode::Bsp, &settings),
        LayoutSystemKind::Bsp { insertion_point: WindowInsertionPoint::AfterFocused }
    );
    assert_eq!(
        VirtualWorkspace::create_layout_system(LayoutMode::Stack, &settings),
        LayoutSystemKind::Stack {
            orientation: Orientation::Vertical,
            insertion_point: WindowInsertionPoint::AtEnd,
        }
    );
    assert_eq!(
        VirtualWorkspace::create_layout_system(LayoutMode::MasterStack, &settings),
        LayoutSystemKind::MasterStack {
            master_settings: MasterStackSettings { base: at_end, master_count: 2 },
        }
    );
    assert_eq!(
        VirtualWorkspace::create_layout_system(LayoutMode::Scrolling, &settings),
        LayoutSystemKind::Scrolling {
            scrolling_settings: ScrollingSettings { base: at_end, visible_columns: 3 },
        }
    );
}

#[test]
fn the_default_layout_system_is_traditional() {
    assert_eq!(
        default_layout_system_kind(),
        LayoutSystemKind::Traditional {
            insertion_point: WindowInsertionPoint::AfterFocused,
            equalize_nodes: false,
        }
    );
    assert_eq!(LayoutMode::default(), LayoutMode::Traditional);
    assert_eq!(RestoreSource::default(), RestoreSource::SavedActiveSpace);
}

#[test]
fn a_workspace_holds_its_layout_and_focus() {
    let mut workspace = VirtualWorkspace::new(
        "Mail".to_string(),
        SpaceId::new(3),
        LayoutMode::Bsp,
        &LayoutSettings::default(),
    );
    assert_eq!(workspace.name, "Mail");
    assert_eq!(workspace.layout_mode(), LayoutMode::Bsp);
    assert_eq!(workspace.last_focused(), None);
    let window = WindowId::new(1, 2);
    workspace.set_last_focused(Some(window));
    assert_eq!(workspace.last_focused(), Some(window));
    let replacement = default_layout_system_kind();
    *workspace.tree_mut() = replacement;
    assert_eq!(*workspace.tree(), replacement);
}

#[test]
fn the_last_matching_rule_decides_the_mode() {
    let config = VirtualWorkspaceSettings {
        default_workspace_count: 3,
        workspace_names: vec!["A".into(), "B".into(), "C".into()],
        workspace_rules: vec![
            WorkspaceLayoutRule {
                workspace: WorkspaceSelector::Index(1),
                layout: LayoutMode::Bsp,
            },
            WorkspaceLayoutRule {
                workspace: WorkspaceSelector::Name("B".into()),
                layout: LayoutMode::Stack,
            },
            WorkspaceLayoutRule {
                workspace: WorkspaceSelector::Index(2),
                layout: LayoutMode::Scrolling,
            },
        ],
        ..VirtualWorkspaceSettings::default()
    };
    let mut layout = LayoutSettings::default();
    layout.mode = LayoutMode::MasterStack;
    let mut store = WorkspaceStore::new_with_config(&config, &layout);

    assert_eq!(store.desired_layout_mode_for_workspace(1, "B"), LayoutMode::Stack);
    assert_eq!(store.desired_layout_mode_for_workspace(1, "other"), LayoutMode::Bsp);
    assert_eq!(store.desired_layout_mode_for_workspace(0, "B"), LayoutMode::Stack);
    assert_eq!(store.desired_layout_mode_for_workspace(7, "x"), LayoutMode::MasterStack);

    let space = SpaceId::new(1);
    let modes: Vec<_> = store
        .list_workspaces(space)
        .into_iter()
        .map(|(id, _)| store.workspace_info(space, id).unwrap().layout_mode())
        .collect();
    assert_eq!(modes, vec![LayoutMode::MasterStack, LayoutMode::Stack, LayoutMode::Scrolling]);
}
