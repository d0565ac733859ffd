use virtual_workspaces::text::decimal_string;
use virtual_workspaces::text::digit_scale_of;
use virtual_workspaces::text::zero_padded_string;
use virtual_workspaces::SpaceId;
use virtual_workspaces::VirtualWorkspaceId;
use virtual_workspaces::WindowId;
use virtual_workspaces::WindowStore;
use virtual_workspaces::WorkspaceStore;

fn identifier(slot: u64, version: u64) -> VirtualWorkspaceId {
    VirtualWorkspaceId::from_raw(version << 32 | slot)
}

#[test]
fn numbers_are_rendered_in_decimal() {
    assert_eq!(decimal_string(0), "0");
    assert_eq!(decimal_string(9), "9");
    assert_eq!(decimal_string(10), "10");
    assert_eq!(decimal_string(18446744073709551615), "18446744073709551615");
    assert_eq!(zero_padded_string(42, 8), "00000042");
    assert_eq!(zero_padded_string(123456789, 8), "123456789");
    assert_eq!(digit_scale_of(0), 10);
    assert_eq!(digit_scale_of(99), 100);
    assert_eq!(digit_scale_of(100), 1000);
}

#[test]
fn spaces_are_spelled() {
    assert_eq!(SpaceId::new(7).spell(), "SpaceId(7)");
    assert_eq!(SpaceId::new(7).get(), 7);
}

#[test]
fn identifiers_are_spelled_by_slot_and_version() {
    assert_eq!(identifier(1, 1).spell(), "VirtualWorkspaceId(1v1)");
    assert_eq!(identifier(12, 35).spell(), "VirtualWorkspaceId(12v35)");
    assert_eq!(identifier(0xffff_ffff, 1).spell(), "VirtualWorkspaceId(null)");
}

#[test]
fn labels_join_the_digits_of_slot_and_version() {
    assert_eq!(identifier(1, 1).label(), "00000011");
    assert_eq!(identifier(12, 35).label(), "00001235");
    assert_eq!(identifier(1234567, 89).label(), "123456789");
    assert_eq!(identifier(0xffff_ffff, 1).label(), "VirtualWorkspaceId(null)");
}

#[test]
fn a_label_that_no_number_holds_is_spelled() {
    assert_eq!(
        identifier(4294967294, 4294967295).label(),
        "VirtualWorkspaceId(4294967294v4294967295)"
    );
    assert_eq!(identifier(1844674406, 4294967295).label(), "18446744064294967295");
}

#[test]
fn an_even_version_stands_for_the_next_odd_one() {
    assert_eq!(identifier(5, 2), identifier(5, 3));
    assert_ne!(identifier(5, 1), identifier(5, 3));
    assert_eq!(identifier(5, 3).as_raw(), 3 << 32 | 5);
}

#[test]
fn identifiers_come_slot_by_slot() {
    let mut store = WorkspaceStore::new();
    let listed = store.list_workspaces(SpaceId::new(1));
    let raw: Vec<u64> = listed.iter().map(|(id, _)| id.as_raw()).collect();
    assert_eq!(raw, vec![1 << 32 | 1, 1 << 32 | 2, 1 << 32 | 3, 1 << 32 | 4]);
}

#[test]
fn the_slot_of_a_lost_workspace_is_never_taken_again() {
    let mut store = WorkspaceStore::new();
    let mut windows = WindowStore::default();
    let old = SpaceId::new(1);
    let new = SpaceId::new(2);
    let kept: Vec<_> = store.list_workspaces(old).into_iter().map(|(id, _)| id).collect();
    let lost: Vec<_> = store.list_workspaces(new).into_iter().map(|(id, _)| id).collect();
    assert_eq!(lost[3].as_raw(), 1 << 32 | 8);
    assert!(store.has_room(0xffff_fff6));

    store.remap_space(&mut windows, old, new);
    assert!(!store.has_room(0xffff_fff7));
    let made = store.create_workspace(new, None).unwrap();

    assert_eq!(made.as_raw(), 1 << 32 | 9);
    assert_eq!(store.workspace_space(lost[3]), None);
    assert_eq!(store.workspace_space(made), Some(new));
    assert_eq!(store.workspace_space(kept[0]), Some(new));
    let next = store.create_workspace(new, None).unwrap();
    assert_eq!(next.as_raw(), 1 << 32 | 10);
    assert_eq!(
        store.ordered_workspace_ids(new),
        vec![kept[0], kept[1], kept[2], kept[3], made, next]
    );
    assert_eq!(store.get_stats(&windows).total_workspaces, 6);
}

#[test]
fn windows_are_told_apart_by_process_and_number() {
    assert_eq!(WindowId::new(3, 4), WindowId { pid: 3, idx: 4 });
    assert_ne!(WindowId::new(3, 4), WindowId::new(4, 3));
}
